//! The aggregate snapshot of one cluster.

use crate::model::views;
use crate::model::Broker;
use crate::model::BrokerView;
use crate::model::PartitionView;
use crate::partition_order::sorted_by_id;
use crate::timestamp::Timestamp;
use crate::topic_map::TopicMap;
use vstd::prelude::*;

verus! {

/// The brokers and the topics of a cluster, and when they were put
/// together. A snapshot is not changed after it is made: a later one takes
/// its place.
#[derive(Debug, PartialEq, Eq)]
pub struct Metadata {
    pub brokers: Vec<Broker>,
    pub topics: TopicMap,
    pub refresh_time: Timestamp,
}

pub struct MetadataView {
    pub brokers: Seq<BrokerView>,
    pub topics: Map<Seq<char>, Seq<PartitionView>>,
    pub refresh_time: Timestamp,
}

impl View for Metadata {
    type V = MetadataView;

    open spec fn view(&self) -> MetadataView {
        MetadataView {
            brokers: views(self.brokers@),
            topics: self.topics@,
            refresh_time: self.refresh_time,
        }
    }
}

/// Every topic's partitions stand in ascending order of identifier.
pub open spec fn every_list_sorted(topics: Map<Seq<char>, Seq<PartitionView>>) -> bool {
    forall|name: Seq<char>| topics.contains_key(name) ==> sorted_by_id(#[trigger] topics[name])
}

/// Every condition that a partition of the list carries is described: its
/// text is not empty.
pub open spec fn errors_described(list: Seq<PartitionView>) -> bool {
    forall|j: int|
        0 <= j < list.len() ==> ((#[trigger] list[j]).error matches Some(text) ==> text.len() > 0)
}

/// In every topic, every condition that a partition carries is described.
pub open spec fn every_error_described(topics: Map<Seq<char>, Seq<PartitionView>>) -> bool {
    forall|name: Seq<char>|
        topics.contains_key(name) ==> errors_described(#[trigger] topics[name])
}

impl Metadata {
    /// A snapshot of the given brokers and topics, taken now.
    pub fn new(brokers: Vec<Broker>, topics: TopicMap) -> (m: Metadata)
        ensures
            m@.brokers == views(brokers@),
            m@.topics == topics@,
    {
        Metadata::at(brokers, topics, Timestamp::now())
    }

    /// A snapshot of the given brokers and topics, taken at `refresh_time`.
    pub fn at(brokers: Vec<Broker>, topics: TopicMap, refresh_time: Timestamp) -> (m: Metadata)
        ensures
            m@ == (MetadataView { brokers: views(brokers@), topics: topics@, refresh_time }),
    {
        Metadata { brokers, topics, refresh_time }
    }
}

impl Clone for Metadata {
    fn clone(&self) -> (r: Metadata)
        ensures
            r@ == self@,
    {
        let mut brokers: Vec<Broker> = Vec::with_capacity(self.brokers.len());
        let mut i: usize = 0;
        while i < self.brokers.len()
            invariant
                i <= self.brokers.len(),
                views(brokers@) == views(self.brokers@).take(i as int),
            decreases self.brokers.len() - i,
        {
            let broker = self.brokers[i].clone();
            proof {
                crate::model::lemma_views_push(brokers@, broker);
                assert(views(self.brokers@).take(i as int).push(broker@) =~= views(
                    self.brokers@,
                ).take(i as int + 1));
            }
            brokers.push(broker);
            i += 1;
        }
        assert(views(self.brokers@).take(self.brokers.len() as int) =~= views(self.brokers@));
        Metadata { brokers, topics: self.topics.clone(), refresh_time: self.refresh_time }
    }
}

} // verus!
