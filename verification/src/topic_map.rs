//! The topics of a snapshot: each topic name once, enumerated in the order
//! of the names.

use crate::model::copy_partitions;
use crate::model::views;
use crate::model::Partition;
use crate::model::PartitionView;
use crate::model::TopicName;
use crate::text::lemma_name_before_irreflexive;
use crate::text::lemma_name_before_transitive;
use crate::text::name_before;
use crate::text::names_ascending;
use crate::text::order_names;
use crate::text::NameOrder;
use vstd::prelude::*;

verus! {

/// A topic and its partitions.
#[derive(Debug, PartialEq, Eq)]
pub struct TopicEntry {
    pub name: TopicName,
    pub partitions: Vec<Partition>,
}

/// The names of a list of entries, in its order.
pub open spec fn entry_names(entries: Seq<TopicEntry>) -> Seq<Seq<char>> {
    Seq::new(entries.len(), |i: int| entries[i].name@)
}

/// The partition lists of a list of entries, in its order.
pub open spec fn entry_lists(entries: Seq<TopicEntry>) -> Seq<Seq<PartitionView>> {
    Seq::new(entries.len(), |i: int| views(entries[i].partitions@))
}

/// The mapping that a list of names and the list of their values stand for.
pub open spec fn map_of(names: Seq<Seq<char>>, lists: Seq<Seq<PartitionView>>) -> Map<
    Seq<char>,
    Seq<PartitionView>,
> {
    Map::new(|k: Seq<char>| names.contains(k), |k: Seq<char>| lists[names.index_of(k)])
}

/// In an ascending list every name is found at its own index only.
pub proof fn lemma_index_of_ascending(names: Seq<Seq<char>>, i: int)
    requires
        names_ascending(names),
        0 <= i < names.len(),
    ensures
        names.index_of(names[i]) == i,
{
    let j = names.index_of(names[i]);
    assert(0 <= j < names.len() && names[j] == names[i]);
    if j < i {
        lemma_name_before_irreflexive(names[j], names[i]);
    } else if i < j {
        lemma_name_before_irreflexive(names[i], names[j]);
    }
}

/// A new name that is put at its place enters the mapping with its value.
pub proof fn lemma_map_of_insert(
    names: Seq<Seq<char>>,
    lists: Seq<Seq<PartitionView>>,
    k: int,
    name: Seq<char>,
    list: Seq<PartitionView>,
)
    requires
        names_ascending(names),
        lists.len() == names.len(),
        0 <= k <= names.len(),
        forall|j: int| 0 <= j < k ==> name_before(names[j], name),
        forall|j: int| k <= j < names.len() ==> name_before(name, names[j]),
    ensures
        names_ascending(names.insert(k, name)),
        map_of(names.insert(k, name), lists.insert(k, list)) == map_of(names, lists).insert(
            name,
            list,
        ),
{
    let names2 = names.insert(k, name);
    let lists2 = lists.insert(k, list);
    assert forall|i: int, j: int| 0 <= i < j < names2.len() implies name_before(
        names2[i],
        names2[j],
    ) by {
        if j < k {
        } else if j == k {
        } else if i < k {
            assert(names2[j] == names[j - 1]);
        } else if i == k {
            assert(names2[j] == names[j - 1]);
        } else {
            assert(names2[i] == names[i - 1]);
            assert(names2[j] == names[j - 1]);
        }
    }
    let m2 = map_of(names2, lists2);
    let m = map_of(names, lists).insert(name, list);
    assert forall|q: Seq<char>| m2.dom().contains(q) == m.dom().contains(q) by {
        if names2.contains(q) {
            let j = choose|j: int| 0 <= j < names2.len() && names2[j] == q;
            if j < k {
                assert(names[j] == q);
            } else if j > k {
                assert(names[j - 1] == q);
            }
        }
        if names.contains(q) {
            let j = choose|j: int| 0 <= j < names.len() && names[j] == q;
            if j < k {
                assert(names2[j] == q);
            } else {
                assert(names2[j + 1] == q);
            }
        }
        if q == name {
            assert(names2[k] == q);
        }
    }
    assert forall|q: Seq<char>| m2.dom().contains(q) implies m2[q] == m[q] by {
        let j = choose|j: int| 0 <= j < names2.len() && names2[j] == q;
        lemma_index_of_ascending(names2, j);
        if j < k {
            lemma_name_before_irreflexive(names[j], name);
            lemma_index_of_ascending(names, j);
        } else if j > k {
            lemma_name_before_irreflexive(name, names[j - 1]);
            lemma_index_of_ascending(names, j - 1);
        }
    }
    assert(m2 =~= m);
}

/// A name that is there keeps its place and gets the new value.
pub proof fn lemma_map_of_update(
    names: Seq<Seq<char>>,
    lists: Seq<Seq<PartitionView>>,
    k: int,
    list: Seq<PartitionView>,
)
    requires
        names_ascending(names),
        lists.len() == names.len(),
        0 <= k < names.len(),
    ensures
        map_of(names, lists.update(k, list)) == map_of(names, lists).insert(names[k], list),
{
    let m2 = map_of(names, lists.update(k, list));
    let m = map_of(names, lists).insert(names[k], list);
    assert forall|q: Seq<char>| m2.dom().contains(q) == m.dom().contains(q) by {
        if q == names[k] {
            assert(names.contains(q));
        }
    }
    assert forall|q: Seq<char>| m2.dom().contains(q) implies m2[q] == m[q] by {
        let j = choose|j: int| 0 <= j < names.len() && names[j] == q;
        lemma_index_of_ascending(names, j);
        lemma_index_of_ascending(names, k);
    }
    assert(m2 =~= m);
}

/// The topics of one snapshot. A name occurs once; the entries are held,
/// and enumerated, in the byte-wise order of the names.
#[derive(Debug, PartialEq, Eq)]
pub struct TopicMap {
    entries: Vec<TopicEntry>,
}

impl View for TopicMap {
    type V = Map<Seq<char>, Seq<PartitionView>>;

    open spec fn view(&self) -> Map<Seq<char>, Seq<PartitionView>> {
        map_of(self.names(), self.lists())
    }
}

impl TopicMap {
    #[verifier::type_invariant]
    spec fn ordered(self) -> bool {
        names_ascending(entry_names(self.entries@))
    }

    /// The topic names in the order of enumeration.
    pub closed spec fn names(&self) -> Seq<Seq<char>> {
        entry_names(self.entries@)
    }

    /// The partition lists in the order of enumeration.
    pub closed spec fn lists(&self) -> Seq<Seq<PartitionView>> {
        entry_lists(self.entries@)
    }

    pub fn new() -> (m: TopicMap)
        ensures
            m@ == Map::<Seq<char>, Seq<PartitionView>>::empty(),
            m.names() == Seq::<Seq<char>>::empty(),
    {
        let m = TopicMap { entries: Vec::new() };
        assert(m.names() =~= Seq::<Seq<char>>::empty());
        assert(m@ =~= Map::<Seq<char>, Seq<PartitionView>>::empty());
        m
    }

    /// The number of topics.
    pub fn len(&self) -> (n: usize)
        ensures
            n == self.names().len(),
            n == self.lists().len(),
            names_ascending(self.names()),
    {
        proof {
            use_type_invariant(self);
        }
        self.entries.len()
    }

    pub fn is_empty(&self) -> (r: bool)
        ensures
            r == (self.names().len() == 0),
    {
        self.entries.len() == 0
    }

    /// Where `name` is, or where it would have to be put.
    fn locate(&self, name: &str) -> (r: (usize, bool))
        ensures
            r.0 <= self.names().len(),
            forall|j: int| 0 <= j < r.0 ==> name_before(self.names()[j], name@),
            r.1 ==> r.0 < self.names().len() && self.names()[r.0 as int] == name@,
            !r.1 ==> forall|j: int|
                r.0 <= j < self.names().len() ==> name_before(name@, self.names()[j]),
            r.1 == self@.contains_key(name@),
    {
        proof {
            use_type_invariant(self);
        }
        let ghost names = self.names();
        let mut lo: usize = 0;
        let mut hi: usize = self.entries.len();
        while lo < hi
            invariant
                lo <= hi <= self.entries.len(),
                names == self.names(),
                names == entry_names(self.entries@),
                names_ascending(names),
                forall|j: int| 0 <= j < lo ==> name_before(names[j], name@),
                forall|j: int| hi <= j < names.len() ==> name_before(name@, names[j]),
            decreases hi - lo,
        {
            let mid = lo + (hi - lo) / 2;
            assert(names[mid as int] == self.entries@[mid as int].name@);
            match order_names(self.entries[mid].name.as_str(), name) {
                NameOrder::Before => {
                    proof {
                        assert forall|j: int| 0 <= j < mid + 1 implies name_before(
                            names[j],
                            name@,
                        ) by {
                            if j < mid {
                                lemma_name_before_transitive(names[j], names[mid as int], name@);
                            }
                        }
                    }
                    lo = mid + 1;
                },
                NameOrder::After => {
                    proof {
                        assert forall|j: int| mid <= j < names.len() implies name_before(
                            name@,
                            names[j],
                        ) by {
                            if mid < j {
                                lemma_name_before_transitive(name@, names[mid as int], names[j]);
                            }
                        }
                    }
                    hi = mid;
                },
                NameOrder::Same => {
                    proof {
                        assert(names[mid as int] == name@);
                        assert(names.contains(name@));
                        assert forall|j: int| 0 <= j < mid implies name_before(
                            names[j],
                            name@,
                        ) by {
                            assert(name_before(names[j], names[mid as int]));
                        }
                    }
                    return (mid, true);
                },
            }
        }
        proof {
            if names.contains(name@) {
                let j = choose|j: int| 0 <= j < names.len() && names[j] == name@;
                if j < lo {
                    lemma_name_before_irreflexive(names[j], name@);
                } else {
                    lemma_name_before_irreflexive(name@, names[j]);
                }
            }
        }
        (lo, false)
    }

    /// Whether the snapshot holds a topic of that name.
    pub fn contains_key(&self, name: &str) -> (r: bool)
        ensures
            r == self@.contains_key(name@),
    {
        self.locate(name).1
    }

    /// The partitions of the topic of that name.
    pub fn get(&self, name: &str) -> (r: Option<&Vec<Partition>>)
        ensures
            match r {
                Some(list) => self@.contains_key(name@) && views(list@) == self@[name@],
                None => !self@.contains_key(name@),
            },
    {
        let (k, found) = self.locate(name);
        if found {
            proof {
                use_type_invariant(self);
                lemma_index_of_ascending(self.names(), k as int);
            }
            Some(&self.entries[k].partitions)
        } else {
            None
        }
    }

    /// The topic that is enumerated at place `i`, if there are that many.
    pub fn entry_at(&self, i: usize) -> (r: Option<&TopicEntry>)
        ensures
            match r {
                Some(entry) => {
                    &&& i < self.names().len()
                    &&& entry.name@ == self.names()[i as int]
                    &&& views(entry.partitions@) == self.lists()[i as int]
                    &&& self@.contains_key(entry.name@)
                    &&& self@[entry.name@] == views(entry.partitions@)
                },
                None => i >= self.names().len(),
            },
    {
        if i < self.entries.len() {
            proof {
                use_type_invariant(self);
                lemma_index_of_ascending(self.names(), i as int);
                assert(self.names().contains(self.names()[i as int]));
            }
            Some(&self.entries[i])
        } else {
            None
        }
    }

    /// Puts a topic into the snapshot. A topic of that name that is there
    /// already is replaced, and its partitions are handed back.
    pub fn insert(&mut self, name: TopicName, partitions: Vec<Partition>) -> (prev: Option<
        Vec<Partition>,
    >)
        ensures
            final(self)@ == old(self)@.insert(name@, views(partitions@)),
            match prev {
                Some(list) => old(self)@.contains_key(name@) && views(list@) == old(self)@[name@],
                None => !old(self)@.contains_key(name@),
            },
            old(self)@.contains_key(name@) ==> final(self).names() == old(self).names(),
            !old(self)@.contains_key(name@) ==> exists|k: int|
                0 <= k <= old(self).names().len() && final(self).names() == #[trigger] old(
                    self,
                ).names().insert(k, name@),
            names_ascending(final(self).names()),
    {
        proof {
            use_type_invariant(&*self);
        }
        let (k, found) = self.locate(name.as_str());
        let ghost names = self.names();
        let ghost lists = self.lists();
        let ghost list = views(partitions@);
        let mut taken = TopicMap { entries: Vec::new() };
        proof {
            assert(entry_names(taken.entries@) =~= Seq::<Seq<char>>::empty());
        }
        core::mem::swap(self, &mut taken);
        let mut entries = taken.entries;
        let entry = TopicEntry { name, partitions };
        if found {
            let old_entry = entries.remove(k);
            proof {
                lemma_index_of_ascending(names, k as int);
                lemma_map_of_update(names, lists, k as int, list);
                assert(entry_names(entries@.insert(k as int, entry)) =~= names);
                assert(entry_lists(entries@.insert(k as int, entry)) =~= lists.update(
                    k as int,
                    list,
                ));
            }
            entries.insert(k, entry);
            *self = TopicMap { entries };
            Some(old_entry.partitions)
        } else {
            proof {
                lemma_map_of_insert(names, lists, k as int, name@, list);
                assert(entry_names(entries@.insert(k as int, entry)) =~= names.insert(
                    k as int,
                    name@,
                ));
                assert(entry_lists(entries@.insert(k as int, entry)) =~= lists.insert(
                    k as int,
                    list,
                ));
            }
            entries.insert(k, entry);
            *self = TopicMap { entries };
            None
        }
    }
}

impl Clone for TopicMap {
    fn clone(&self) -> (r: TopicMap)
        ensures
            r@ == self@,
            r.names() == self.names(),
            r.lists() == self.lists(),
    {
        proof {
            use_type_invariant(self);
        }
        let mut entries: Vec<TopicEntry> = Vec::with_capacity(self.entries.len());
        let mut i: usize = 0;
        while i < self.entries.len()
            invariant
                i <= self.entries.len(),
                entry_names(entries@) == entry_names(self.entries@).take(i as int),
                entry_lists(entries@) == entry_lists(self.entries@).take(i as int),
            decreases self.entries.len() - i,
        {
            let entry = TopicEntry {
                name: self.entries[i].name.clone(),
                partitions: copy_partitions(&self.entries[i].partitions),
            };
            proof {
                assert(entry_names(entries@.push(entry)) =~= entry_names(entries@).push(
                    entry.name@,
                ));
                assert(entry_lists(entries@.push(entry)) =~= entry_lists(entries@).push(
                    views(entry.partitions@),
                ));
                assert(entry_names(self.entries@).take(i as int).push(entry.name@)
                    =~= entry_names(self.entries@).take(i as int + 1));
                assert(entry_lists(self.entries@).take(i as int).push(views(entry.partitions@))
                    =~= entry_lists(self.entries@).take(i as int + 1));
            }
            entries.push(entry);
            i += 1;
        }
        proof {
            assert(entry_names(self.entries@).take(self.entries.len() as int) =~= entry_names(
                self.entries@,
            ));
            assert(entry_lists(self.entries@).take(self.entries.len() as int) =~= entry_lists(
                self.entries@,
            ));
        }
        TopicMap { entries }
    }
}

} // verus!
