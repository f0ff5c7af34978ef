//! The domain model: brokers, partitions, consumer groups.

use vstd::prelude::*;

verus! {

/// Identifier of a broker, unique within one cluster snapshot.
pub type BrokerId = i32;

/// Identifier of a cluster; every cache is keyed by it.
pub type ClusterId = String;

pub type TopicName = String;

pub type GroupName = String;

/// The views of the elements of a sequence, in the same order.
pub open spec fn views<T: View>(s: Seq<T>) -> Seq<T::V> {
    Seq::new(s.len(), |i: int| s[i]@)
}

/// The view of a sequence that grew by one element grew by that element's
/// view.
pub proof fn lemma_views_push<T: View>(s: Seq<T>, x: T)
    ensures
        views(s.push(x)) == views(s).push(x@),
{
    assert(views(s.push(x)) =~= views(s).push(x@));
}

/// The text that an optional string holds.
pub open spec fn text_of(o: Option<String>) -> Option<Seq<char>> {
    match o {
        Some(s) => Some(s@),
        None => None,
    }
}

/// One broker endpoint of a cluster.
#[derive(Debug, PartialEq, Eq)]
pub struct Broker {
    pub id: BrokerId,
    pub hostname: String,
    pub port: i32,
}

pub struct BrokerView {
    pub id: BrokerId,
    pub hostname: Seq<char>,
    pub port: i32,
}

impl View for Broker {
    type V = BrokerView;

    open spec fn view(&self) -> BrokerView {
        BrokerView { id: self.id, hostname: self.hostname@, port: self.port }
    }
}

impl Broker {
    pub fn new(id: BrokerId, hostname: String, port: i32) -> (b: Broker)
        ensures
            b@ == (BrokerView { id, hostname: hostname@, port }),
    {
        Broker { id, hostname, port }
    }
}

impl Clone for Broker {
    fn clone(&self) -> (r: Broker)
        ensures
            r@ == self@,
    {
        Broker { id: self.id, hostname: self.hostname.clone(), port: self.port }
    }
}

/// One partition of a topic: its leader, its replicas, and those of them
/// that are in sync. `error` holds the description of a condition that the
/// cluster reported for this partition, if it reported one.
#[derive(Debug, PartialEq, Eq)]
pub struct Partition {
    pub id: i32,
    pub leader: BrokerId,
    pub replicas: Vec<BrokerId>,
    pub isr: Vec<BrokerId>,
    pub error: Option<String>,
}

pub struct PartitionView {
    pub id: i32,
    pub leader: BrokerId,
    pub replicas: Seq<BrokerId>,
    pub isr: Seq<BrokerId>,
    pub error: Option<Seq<char>>,
}

impl View for Partition {
    type V = PartitionView;

    open spec fn view(&self) -> PartitionView {
        PartitionView {
            id: self.id,
            leader: self.leader,
            replicas: self.replicas@,
            isr: self.isr@,
            error: text_of(self.error),
        }
    }
}

/// A copy of a list of broker identifiers.
pub fn copy_ids(ids: &Vec<BrokerId>) -> (r: Vec<BrokerId>)
    ensures
        r@ == ids@,
{
    let mut out: Vec<BrokerId> = Vec::with_capacity(ids.len());
    let mut i: usize = 0;
    while i < ids.len()
        invariant
            i <= ids.len(),
            out@ == ids@.take(i as int),
        decreases ids.len() - i,
    {
        out.push(ids[i]);
        assert(ids@.take(i as int + 1) =~= ids@.take(i as int).push(ids@[i as int]));
        i += 1;
    }
    assert(ids@.take(ids.len() as int) =~= ids@);
    out
}

/// A copy of an optional string.
pub fn copy_text(text: &Option<String>) -> (r: Option<String>)
    ensures
        text_of(r) == text_of(*text),
{
    match text {
        Some(s) => Some(s.clone()),
        None => None,
    }
}

impl Partition {
    pub fn new(
        id: i32,
        leader: BrokerId,
        replicas: Vec<BrokerId>,
        isr: Vec<BrokerId>,
        error: Option<String>,
    ) -> (p: Partition)
        ensures
            p@ == (PartitionView {
                id,
                leader,
                replicas: replicas@,
                isr: isr@,
                error: text_of(error),
            }),
    {
        Partition { id, leader, replicas, isr, error }
    }
}

impl Clone for Partition {
    fn clone(&self) -> (r: Partition)
        ensures
            r@ == self@,
    {
        Partition {
            id: self.id,
            leader: self.leader,
            replicas: copy_ids(&self.replicas),
            isr: copy_ids(&self.isr),
            error: copy_text(&self.error),
        }
    }
}

/// A copy of a partition list.
pub fn copy_partitions(list: &Vec<Partition>) -> (r: Vec<Partition>)
    ensures
        views(r@) == views(list@),
{
    let mut out: Vec<Partition> = Vec::with_capacity(list.len());
    let mut i: usize = 0;
    while i < list.len()
        invariant
            i <= list.len(),
            views(out@) == views(list@).take(i as int),
        decreases list.len() - i,
    {
        let item = list[i].clone();
        proof {
            lemma_views_push(out@, item);
            assert(views(list@).take(i as int).push(item@) =~= views(list@).take(i as int + 1));
        }
        out.push(item);
        i += 1;
    }
    assert(views(list@).take(list.len() as int) =~= views(list@));
    out
}

/// One member of a consumer group.
#[derive(Debug, PartialEq, Eq)]
pub struct GroupMember {
    pub id: String,
    pub client_id: String,
    pub client_host: String,
}

pub struct GroupMemberView {
    pub id: Seq<char>,
    pub client_id: Seq<char>,
    pub client_host: Seq<char>,
}

impl View for GroupMember {
    type V = GroupMemberView;

    open spec fn view(&self) -> GroupMemberView {
        GroupMemberView {
            id: self.id@,
            client_id: self.client_id@,
            client_host: self.client_host@,
        }
    }
}

impl Clone for GroupMember {
    fn clone(&self) -> (r: GroupMember)
        ensures
            r@ == self@,
    {
        GroupMember {
            id: self.id.clone(),
            client_id: self.client_id.clone(),
            client_host: self.client_host.clone(),
        }
    }
}

/// A consumer group: its name, its state and its members.
#[derive(Debug, PartialEq, Eq)]
pub struct Group {
    pub name: String,
    pub state: String,
    pub members: Vec<GroupMember>,
}

pub struct GroupView {
    pub name: Seq<char>,
    pub state: Seq<char>,
    pub members: Seq<GroupMemberView>,
}

impl View for Group {
    type V = GroupView;

    open spec fn view(&self) -> GroupView {
        GroupView { name: self.name@, state: self.state@, members: views(self.members@) }
    }
}

impl Clone for Group {
    fn clone(&self) -> (r: Group)
        ensures
            r@ == self@,
    {
        let mut members: Vec<GroupMember> = Vec::with_capacity(self.members.len());
        let mut i: usize = 0;
        while i < self.members.len()
            invariant
                i <= self.members.len(),
                views(members@) == views(self.members@).take(i as int),
            decreases self.members.len() - i,
        {
            let member = self.members[i].clone();
            proof {
                lemma_views_push(members@, member);
                assert(views(self.members@).take(i as int).push(member@) =~= views(
                    self.members@,
                ).take(i as int + 1));
            }
            members.push(member);
            i += 1;
        }
        assert(views(self.members@).take(self.members.len() as int) =~= views(self.members@));
        Group { name: self.name.clone(), state: self.state.clone(), members }
    }
}

} // verus!
