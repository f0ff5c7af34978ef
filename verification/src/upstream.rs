//! What a cluster reports: the answers to a topology request and to a
//! request for the consumer groups, as plain values.

use crate::model::copy_ids;
use crate::model::lemma_views_push;
use crate::model::views;
use crate::model::BrokerId;
use crate::model::BrokerView;
use crate::model::GroupMemberView;
use crate::model::GroupView;
use vstd::prelude::*;

verus! {

/// A broker as the cluster lists it.
#[derive(Debug, PartialEq, Eq)]
pub struct RawBroker {
    pub id: BrokerId,
    pub host: String,
    pub port: i32,
}

impl View for RawBroker {
    type V = BrokerView;

    open spec fn view(&self) -> BrokerView {
        BrokerView { id: self.id, hostname: self.host@, port: self.port }
    }
}

/// A partition as the cluster lists it. `error` is the response error code
/// of a condition that the cluster reports for the partition.
#[derive(Debug, PartialEq, Eq)]
pub struct RawPartition {
    pub id: i32,
    pub leader: BrokerId,
    pub replicas: Vec<BrokerId>,
    pub isr: Vec<BrokerId>,
    pub error: Option<i32>,
}

pub struct RawPartitionView {
    pub id: i32,
    pub leader: BrokerId,
    pub replicas: Seq<BrokerId>,
    pub isr: Seq<BrokerId>,
    pub error: Option<i32>,
}

impl View for RawPartition {
    type V = RawPartitionView;

    open spec fn view(&self) -> RawPartitionView {
        RawPartitionView {
            id: self.id,
            leader: self.leader,
            replicas: self.replicas@,
            isr: self.isr@,
            error: self.error,
        }
    }
}

/// A topic as the cluster lists it, with its partitions in the order of
/// the listing.
#[derive(Debug, PartialEq, Eq)]
pub struct RawTopic {
    pub name: String,
    pub partitions: Vec<RawPartition>,
}

pub struct RawTopicView {
    pub name: Seq<char>,
    pub partitions: Seq<RawPartitionView>,
}

impl View for RawTopic {
    type V = RawTopicView;

    open spec fn view(&self) -> RawTopicView {
        RawTopicView { name: self.name@, partitions: views(self.partitions@) }
    }
}

/// The answer to a topology request.
#[derive(Debug, PartialEq, Eq)]
pub struct RawTopology {
    pub brokers: Vec<RawBroker>,
    pub topics: Vec<RawTopic>,
}

pub struct RawTopologyView {
    pub brokers: Seq<BrokerView>,
    pub topics: Seq<RawTopicView>,
}

impl View for RawTopology {
    type V = RawTopologyView;

    open spec fn view(&self) -> RawTopologyView {
        RawTopologyView { brokers: views(self.brokers@), topics: views(self.topics@) }
    }
}

/// A member of a consumer group as the cluster lists it.
#[derive(Debug, PartialEq, Eq)]
pub struct RawGroupMember {
    pub id: String,
    pub client_id: String,
    pub client_host: String,
}

impl View for RawGroupMember {
    type V = GroupMemberView;

    open spec fn view(&self) -> GroupMemberView {
        GroupMemberView {
            id: self.id@,
            client_id: self.client_id@,
            client_host: self.client_host@,
        }
    }
}

/// A consumer group as the cluster lists it.
#[derive(Debug, PartialEq, Eq)]
pub struct RawGroup {
    pub name: String,
    pub state: String,
    pub members: Vec<RawGroupMember>,
}

impl View for RawGroup {
    type V = GroupView;

    open spec fn view(&self) -> GroupView {
        GroupView { name: self.name@, state: self.state@, members: views(self.members@) }
    }
}

impl Clone for RawBroker {
    fn clone(&self) -> (r: RawBroker)
        ensures
            r@ == self@,
    {
        RawBroker { id: self.id, host: self.host.clone(), port: self.port }
    }
}

impl Clone for RawPartition {
    fn clone(&self) -> (r: RawPartition)
        ensures
            r@ == self@,
    {
        RawPartition {
            id: self.id,
            leader: self.leader,
            replicas: copy_ids(&self.replicas),
            isr: copy_ids(&self.isr),
            error: self.error,
        }
    }
}

impl Clone for RawTopic {
    fn clone(&self) -> (r: RawTopic)
        ensures
            r@ == self@,
    {
        let mut partitions: Vec<RawPartition> = Vec::with_capacity(self.partitions.len());
        let mut i: usize = 0;
        while i < self.partitions.len()
            invariant
                i <= self.partitions.len(),
                views(partitions@) == views(self.partitions@).take(i as int),
            decreases self.partitions.len() - i,
        {
            let partition = self.partitions[i].clone();
            proof {
                lemma_views_push(partitions@, partition);
                assert(views(self.partitions@).take(i as int).push(partition@) =~= views(self.partitions@).take(
                    i as int + 1,
                ));
            }
            partitions.push(partition);
            i += 1;
        }
        proof {
            assert(views(self.partitions@).take(self.partitions.len() as int) =~= views(self.partitions@));
        }
        RawTopic { name: self.name.clone(), partitions }
    }
}

impl Clone for RawTopology {
    fn clone(&self) -> (r: RawTopology)
        ensures
            r@ == self@,
    {
        let mut brokers: Vec<RawBroker> = Vec::with_capacity(self.brokers.len());
        let mut i: usize = 0;
        while i < self.brokers.len()
            invariant
                i <= self.brokers.len(),
                views(brokers@) == views(self.brokers@).take(i as int),
            decreases self.brokers.len() - i,
        {
            let broker = self.brokers[i].clone();
            proof {
                lemma_views_push(brokers@, broker);
                assert(views(self.brokers@).take(i as int).push(broker@) =~= views(self.brokers@).take(
                    i as int + 1,
                ));
            }
            brokers.push(broker);
            i += 1;
        }
        proof {
            assert(views(self.brokers@).take(self.brokers.len() as int) =~= views(self.brokers@));
        }
        let mut topics: Vec<RawTopic> = Vec::with_capacity(self.topics.len());
        i = 0;
        while i < self.topics.len()
            invariant
                i <= self.topics.len(),
                views(topics@) == views(self.topics@).take(i as int),
            decreases self.topics.len() - i,
        {
            let topic = self.topics[i].clone();
            proof {
                lemma_views_push(topics@, topic);
                assert(views(self.topics@).take(i as int).push(topic@) =~= views(self.topics@).take(
                    i as int + 1,
                ));
            }
            topics.push(topic);
            i += 1;
        }
        proof {
            assert(views(self.topics@).take(self.topics.len() as int) =~= views(self.topics@));
        }
        RawTopology { brokers, topics }
    }
}

impl Clone for RawGroupMember {
    fn clone(&self) -> (r: RawGroupMember)
        ensures
            r@ == self@,
    {
        RawGroupMember {
            id: self.id.clone(),
            client_id: self.client_id.clone(),
            client_host: self.client_host.clone(),
        }
    }
}

impl Clone for RawGroup {
    fn clone(&self) -> (r: RawGroup)
        ensures
            r@ == self@,
    {
        let mut members: Vec<RawGroupMember> = Vec::with_capacity(self.members.len());
        let mut i: usize = 0;
        while i < self.members.len()
            invariant
                i <= self.members.len(),
                views(members@) == views(self.members@).take(i as int),
            decreases self.members.len() - i,
        {
            let member = self.members[i].clone();
            proof {
                lemma_views_push(members@, member);
                assert(views(self.members@).take(i as int).push(member@) =~= views(self.members@).take(
                    i as int + 1,
                ));
            }
            members.push(member);
            i += 1;
        }
        proof {
            assert(views(self.members@).take(self.members.len() as int) =~= views(self.members@));
        }
        RawGroup { name: self.name.clone(), state: self.state.clone(), members }
    }
}

} // verus!
