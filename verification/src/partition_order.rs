//! Ordering a topic's partitions by identifier.

use crate::model::views;
use crate::model::Partition;
use crate::model::PartitionView;
use vstd::prelude::*;

verus! {

/// Identifiers ascending from the first partition to the last.
pub open spec fn sorted_by_id(s: Seq<PartitionView>) -> bool {
    forall|i: int, j: int| 0 <= i <= j < s.len() ==> s[i].id <= s[j].id
}

/// The test "this partition has identifier `id`".
pub open spec fn has_id(id: i32) -> spec_fn(PartitionView) -> bool {
    |p: PartitionView| p.id == id
}

/// The partitions of `s` with identifier `id`, in the order in which `s`
/// holds them.
pub open spec fn with_id(s: Seq<PartitionView>, id: i32) -> Seq<PartitionView> {
    s.filter(has_id(id))
}

/// `sorted` holds the partitions of `given` in ascending order of
/// identifier, and those that share an identifier in the order in which
/// `given` holds them.
pub open spec fn is_stable_sort_by_id(
    given: Seq<PartitionView>,
    sorted: Seq<PartitionView>,
) -> bool {
    &&& sorted_by_id(sorted)
    &&& forall|id: i32| with_id(sorted, id) == with_id(given, id)
}

proof fn lemma_with_id_none(s: Seq<PartitionView>, id: i32)
    requires
        forall|j: int| 0 <= j < s.len() ==> s[j].id != id,
    ensures
        with_id(s, id) == Seq::<PartitionView>::empty(),
    decreases s.len(),
{
    reveal(Seq::filter);
    if s.len() > 0 {
        lemma_with_id_none(s.drop_last(), id);
    }
}

proof fn lemma_with_id_one(p: PartitionView, id: i32)
    ensures
        with_id(seq![p], id) == if p.id == id {
            seq![p]
        } else {
            Seq::<PartitionView>::empty()
        },
{
    let e = Seq::<PartitionView>::empty();
    assert(seq![p] =~= e.push(p));
    lemma_with_id_none(e, id);
    e.lemma_filter_push(p, has_id(id));
    assert(e.push(p) =~= seq![p]);
}

/// Moving a partition to the left over partitions with other identifiers
/// changes, for no identifier, which partitions have it and in what order.
proof fn lemma_move_keeps_with_id(s: Seq<PartitionView>, k: int, i: int, id: i32)
    requires
        0 <= k < i < s.len(),
        forall|j: int| k <= j < i ==> s[j].id != s[i].id,
    ensures
        with_id(s.remove(i).insert(k, s[i]), id) == with_id(s, id),
{
    let a = s.subrange(0, k);
    let b = s.subrange(k, i);
    let x = seq![s[i]];
    let c = s.subrange(i + 1, s.len() as int);
    let pred = has_id(id);
    assert(s =~= ((a + b) + x) + c);
    assert(s.remove(i).insert(k, s[i]) =~= ((a + x) + b) + c);
    Seq::filter_distributes_over_add((a + b) + x, c, pred);
    Seq::filter_distributes_over_add(a + b, x, pred);
    Seq::filter_distributes_over_add(a, b, pred);
    Seq::filter_distributes_over_add((a + x) + b, c, pred);
    Seq::filter_distributes_over_add(a + x, b, pred);
    Seq::filter_distributes_over_add(a, x, pred);
    lemma_with_id_one(s[i], id);
    if s[i].id == id {
        lemma_with_id_none(b, id);
    }
    assert((a.filter(pred) + b.filter(pred)) + x.filter(pred) =~= (a.filter(pred) + x.filter(pred))
        + b.filter(pred));
}

/// Moving the partition behind a sorted prefix to its place in the prefix
/// gives a sorted prefix that is longer by one.
proof fn lemma_move_sorts_prefix(s: Seq<PartitionView>, k: int, i: int)
    requires
        0 <= k < i < s.len(),
        sorted_by_id(s.take(i)),
        k > 0 ==> s[k - 1].id <= s[i].id,
        forall|j: int| k <= j < i ==> s[j].id > s[i].id,
    ensures
        sorted_by_id(s.remove(i).insert(k, s[i]).take(i + 1)),
{
    let t = s.remove(i).insert(k, s[i]);
    let p = s.take(i);
    let u = t.take(i + 1);
    assert forall|a: int, b: int| 0 <= a <= b < u.len() implies u[a].id <= u[b].id by {
        assert(t[a] == if a < k {
            p[a]
        } else if a == k {
            s[i]
        } else {
            p[a - 1]
        });
        assert(t[b] == if b < k {
            p[b]
        } else if b == k {
            s[i]
        } else {
            p[b - 1]
        });
        if a < k && b == k {
            assert(p[a].id <= p[k - 1].id);
        }
    }
}

/// `s` with `p` put behind every partition whose identifier is not greater
/// than that of `p`; meant for a sorted `s`.
pub open spec fn placed_by_id(s: Seq<PartitionView>, p: PartitionView) -> Seq<PartitionView>
    decreases s.len(),
{
    if s.len() == 0 || s.last().id <= p.id {
        s.push(p)
    } else {
        placed_by_id(s.drop_last(), p).push(s.last())
    }
}

/// The stable sort of a partition list by identifier.
pub open spec fn sorted_partitions(s: Seq<PartitionView>) -> Seq<PartitionView>
    decreases s.len(),
{
    if s.len() == 0 {
        s
    } else {
        placed_by_id(sorted_partitions(s.drop_last()), s.last())
    }
}

proof fn lemma_placed_members(s: Seq<PartitionView>, p: PartitionView)
    ensures
        placed_by_id(s, p).len() == s.len() + 1,
        forall|j: int|
            0 <= j < placed_by_id(s, p).len() ==> placed_by_id(s, p)[j] == p || s.contains(
                #[trigger] placed_by_id(s, p)[j],
            ),
    decreases s.len(),
{
    let r = placed_by_id(s, p);
    if s.len() == 0 || s.last().id <= p.id {
        assert forall|j: int| 0 <= j < r.len() implies r[j] == p || s.contains(#[trigger] r[j]) by {
            if j < s.len() {
                assert(s[j] == r[j]);
            }
        }
    } else {
        let inner = placed_by_id(s.drop_last(), p);
        lemma_placed_members(s.drop_last(), p);
        assert forall|j: int| 0 <= j < r.len() implies r[j] == p || s.contains(#[trigger] r[j]) by {
            if j < inner.len() {
                if inner[j] != p {
                    assert(s.drop_last().contains(inner[j]));
                    let m = choose|m: int| 0 <= m < s.drop_last().len() && s.drop_last()[m] == inner[j];
                    assert(s[m] == r[j]);
                }
            } else {
                assert(s[s.len() - 1] == r[j]);
            }
        }
    }
}

proof fn lemma_placed_sorted(s: Seq<PartitionView>, p: PartitionView)
    requires
        sorted_by_id(s),
    ensures
        sorted_by_id(placed_by_id(s, p)),
    decreases s.len(),
{
    let r = placed_by_id(s, p);
    if s.len() == 0 || s.last().id <= p.id {
        assert forall|a: int, b: int| 0 <= a <= b < r.len() implies r[a].id <= r[b].id by {
            if b < s.len() {
                assert(s[a].id <= s[b].id);
            } else if a < s.len() {
                assert(s[a].id <= s[s.len() - 1].id);
            }
        }
    } else {
        let front = s.drop_last();
        let inner = placed_by_id(front, p);
        assert forall|a: int, b: int| 0 <= a <= b < front.len() implies front[a].id
            <= front[b].id by {
            assert(s[a].id <= s[b].id);
        }
        lemma_placed_sorted(front, p);
        lemma_placed_members(front, p);
        assert forall|a: int, b: int| 0 <= a <= b < r.len() implies r[a].id <= r[b].id by {
            if b < inner.len() {
                assert(inner[a].id <= inner[b].id);
            } else if a < inner.len() {
                if inner[a] != p {
                    assert(front.contains(inner[a]));
                    let m = choose|m: int| 0 <= m < front.len() && front[m] == inner[a];
                    assert(s[m].id <= s[s.len() - 1].id);
                }
            }
        }
    }
}

proof fn lemma_placed_with_id(s: Seq<PartitionView>, p: PartitionView, id: i32)
    ensures
        with_id(placed_by_id(s, p), id) == if p.id == id {
            with_id(s, id).push(p)
        } else {
            with_id(s, id)
        },
    decreases s.len(),
{
    let pred = has_id(id);
    if s.len() == 0 || s.last().id <= p.id {
        s.lemma_filter_push(p, pred);
    } else {
        let front = s.drop_last();
        let last = s.last();
        lemma_placed_with_id(front, p, id);
        placed_by_id(front, p).lemma_filter_push(last, pred);
        front.lemma_filter_push(last, pred);
        assert(front.push(last) =~= s);
    }
}

/// The stable sort is sorted, and keeps for every identifier the partitions
/// that have it, in their order.
pub proof fn lemma_sorted_partitions(s: Seq<PartitionView>)
    ensures
        is_stable_sort_by_id(s, sorted_partitions(s)),
        sorted_partitions(s).len() == s.len(),
    decreases s.len(),
{
    if s.len() == 0 {
    } else {
        let front = s.drop_last();
        lemma_sorted_partitions(front);
        lemma_placed_sorted(sorted_partitions(front), s.last());
        lemma_placed_members(sorted_partitions(front), s.last());
        assert forall|id: i32| with_id(sorted_partitions(s), id) == with_id(s, id) by {
            lemma_placed_with_id(sorted_partitions(front), s.last(), id);
            front.lemma_filter_push(s.last(), has_id(id));
            assert(front.push(s.last()) =~= s);
        }
    }
}

/// Two sorted lists that hold, for every identifier, the same partitions in
/// the same order are one list.
pub proof fn lemma_sorted_lists_equal(a: Seq<PartitionView>, b: Seq<PartitionView>)
    requires
        sorted_by_id(a),
        sorted_by_id(b),
        forall|id: i32| with_id(a, id) == with_id(b, id),
    ensures
        a == b,
    decreases a.len(),
{
    if a.len() == 0 {
        if b.len() > 0 {
            lemma_with_id_none(a, b.last().id);
            b.drop_last().lemma_filter_push(b.last(), has_id(b.last().id));
            assert(b.drop_last().push(b.last()) =~= b);
            assert(with_id(a, b.last().id) == with_id(b, b.last().id));
            assert(with_id(b, b.last().id).len() > 0);
        }
        assert(a =~= b);
    } else if b.len() == 0 {
        lemma_with_id_none(b, a.last().id);
        a.drop_last().lemma_filter_push(a.last(), has_id(a.last().id));
        assert(a.drop_last().push(a.last()) =~= a);
        assert(with_id(a, a.last().id) == with_id(b, a.last().id));
        assert(with_id(a, a.last().id).len() > 0);
    } else {
        let fa = a.drop_last();
        let fb = b.drop_last();
        let la = a.last();
        let lb = b.last();
        assert(fa.push(la) =~= a);
        assert(fb.push(lb) =~= b);
        fa.lemma_filter_push(la, has_id(la.id));
        fb.lemma_filter_push(lb, has_id(lb.id));
        fa.lemma_filter_push(la, has_id(lb.id));
        fb.lemma_filter_push(lb, has_id(la.id));
        // the greatest identifier of `a` occurs in `b`, and the other way round
        let ga = with_id(a, la.id);
        assert(ga.last() == la);
        assert(with_id(b, la.id).contains(la)) by {
            assert(ga[ga.len() - 1] == la);
        }
        b.lemma_filter_contains_rev(has_id(la.id), la);
        let gb = with_id(b, lb.id);
        assert(gb.last() == lb);
        assert(with_id(a, lb.id).contains(lb)) by {
            assert(gb[gb.len() - 1] == lb);
        }
        a.lemma_filter_contains_rev(has_id(lb.id), lb);
        let ia = choose|i: int| 0 <= i < a.len() && a[i] == lb;
        let ib = choose|i: int| 0 <= i < b.len() && b[i] == la;
        assert(a[ia].id <= a[a.len() - 1].id);
        assert(b[ib].id <= b[b.len() - 1].id);
        assert(la.id == lb.id);
        assert(la == lb);
        assert forall|x: int, y: int| 0 <= x <= y < fa.len() implies fa[x].id <= fa[y].id by {
            assert(a[x].id <= a[y].id);
        }
        assert forall|x: int, y: int| 0 <= x <= y < fb.len() implies fb[x].id <= fb[y].id by {
            assert(b[x].id <= b[y].id);
        }
        assert forall|id: i32| with_id(fa, id) == with_id(fb, id) by {
            fa.lemma_filter_push(la, has_id(id));
            fb.lemma_filter_push(lb, has_id(id));
            assert(with_id(a, id) == with_id(b, id));
            if la.id == id {
                assert(with_id(fa, id) =~= with_id(a, id).drop_last());
                assert(with_id(fb, id) =~= with_id(b, id).drop_last());
            }
        }
        lemma_sorted_lists_equal(fa, fb);
        assert(a =~= b);
    }
}

/// There is one stable sort of a list: whatever meets the description is
/// `sorted_partitions` of the list.
pub proof fn lemma_stable_sort_unique(given: Seq<PartitionView>, sorted: Seq<PartitionView>)
    requires
        is_stable_sort_by_id(given, sorted),
    ensures
        sorted == sorted_partitions(given),
{
    lemma_sorted_partitions(given);
    lemma_sorted_lists_equal(sorted, sorted_partitions(given));
}

/// Sorting neither drops a partition nor makes one up.
pub proof fn lemma_sorted_partitions_members(s: Seq<PartitionView>, p: PartitionView)
    ensures
        sorted_partitions(s).contains(p) <==> s.contains(p),
{
    let sorted = sorted_partitions(s);
    let pred = has_id(p.id);
    lemma_sorted_partitions(s);
    assert(with_id(sorted, p.id) == with_id(s, p.id));
    if sorted.contains(p) {
        let i = choose|i: int| 0 <= i < sorted.len() && sorted[i] == p;
        sorted.lemma_filter_contains(pred, i);
        s.lemma_filter_contains_rev(pred, p);
    }
    if s.contains(p) {
        let i = choose|i: int| 0 <= i < s.len() && s[i] == p;
        s.lemma_filter_contains(pred, i);
        sorted.lemma_filter_contains_rev(pred, p);
    }
}

/// Sorts a partition list by identifier, in place. Partitions that share an
/// identifier keep their order.
pub fn sort_by_id(partitions: &mut Vec<Partition>)
    ensures
        views(final(partitions)@) == sorted_partitions(views(old(partitions)@)),
        is_stable_sort_by_id(views(old(partitions)@), views(final(partitions)@)),
        final(partitions)@.len() == old(partitions)@.len(),
{
    let ghost given = views(partitions@);
    let n = partitions.len();
    let mut i: usize = 0;
    while i < n
        invariant
            i <= n,
            n == partitions.len(),
            sorted_by_id(views(partitions@).take(i as int)),
            forall|id: i32| with_id(views(partitions@), id) == with_id(given, id),
        decreases n - i,
    {
        let key = partitions[i].id;
        let mut k: usize = i;
        while k > 0 && partitions[k - 1].id > key
            invariant
                k <= i < partitions.len(),
                key == partitions@[i as int].id,
                forall|j: int| k <= j < i ==> partitions@[j].id > key,
            decreases k,
        {
            k -= 1;
        }
        let ghost before = views(partitions@);
        if k < i {
            let moved = partitions.remove(i);
            partitions.insert(k, moved);
            proof {
                assert(views(partitions@) =~= before.remove(i as int).insert(
                    k as int,
                    before[i as int],
                ));
                assert forall|id: i32| with_id(views(partitions@), id) == with_id(given, id) by {
                    lemma_move_keeps_with_id(before, k as int, i as int, id);
                }
                lemma_move_sorts_prefix(before, k as int, i as int);
            }
        } else {
            proof {
                let p = before.take(i as int);
                let q = before.take(i as int + 1);
                assert forall|a: int, b: int| 0 <= a <= b < q.len() implies q[a].id <= q[b].id by {
                    if b < i {
                        assert(p[a].id <= p[b].id);
                    } else if a < i {
                        assert(p[a].id <= p[i as int - 1].id);
                    }
                }
            }
        }
        i += 1;
    }
    proof {
        assert(views(partitions@).take(n as int) =~= views(partitions@));
        lemma_stable_sort_unique(given, views(partitions@));
    }
}

} // verus!
