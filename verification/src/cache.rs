//! The four caches that a refresh fills, and what a write does to them.
//!
//! The caches themselves live outside this library. Here stand the writes
//! that a run asks for, and a model of the caches' contents under such
//! writes: a write replaces what is stored under its key, whole.

use crate::model::views;
use crate::model::Broker;
use crate::model::BrokerView;
use crate::model::ClusterId;
use crate::model::Group;
use crate::model::GroupView;
use crate::model::Partition;
use crate::model::PartitionView;
use crate::model::TopicName;
use crate::partition_order::sorted_by_id;
use crate::snapshot::errors_described;
use crate::snapshot::every_error_described;
use crate::snapshot::every_list_sorted;
use crate::snapshot::Metadata;
use crate::snapshot::MetadataView;
use std::sync::Arc;
use vstd::prelude::*;

verus! {

/// One of the four caches.
#[derive(Clone, Copy, Debug, PartialEq, Eq, Structural)]
pub enum CacheKind {
    /// Cluster to its aggregate snapshot.
    Aggregate,
    /// Cluster to its brokers.
    Brokers,
    /// Cluster and topic to the topic's partitions.
    Topics,
    /// Cluster and group name to the group.
    Groups,
}

/// A key of a cache: the cluster and, in the caches for topics and groups,
/// the name of the topic or group.
#[derive(Debug, PartialEq, Eq)]
pub struct CacheKey {
    pub cluster: ClusterId,
    pub item: Option<String>,
}

pub struct CacheKeyView {
    pub cluster: Seq<char>,
    pub item: Option<Seq<char>>,
}

impl View for CacheKey {
    type V = CacheKeyView;

    open spec fn view(&self) -> CacheKeyView {
        CacheKeyView { cluster: self.cluster@, item: crate::model::text_of(self.item) }
    }
}

impl Clone for CacheKey {
    fn clone(&self) -> (r: CacheKey)
        ensures
            r@ == self@,
    {
        CacheKey { cluster: self.cluster.clone(), item: crate::model::copy_text(&self.item) }
    }
}

/// A write to one of the caches: the entry under the key is replaced by
/// the value, whole.
#[derive(Debug, PartialEq, Eq)]
pub enum CacheWrite {
    Aggregate { cluster: ClusterId, metadata: Arc<Metadata> },
    Brokers { cluster: ClusterId, brokers: Vec<Broker> },
    Topic { cluster: ClusterId, topic: TopicName, partitions: Vec<Partition> },
    Group { cluster: ClusterId, group: Group },
}

pub enum CacheWriteView {
    Aggregate { cluster: Seq<char>, metadata: MetadataView },
    Brokers { cluster: Seq<char>, brokers: Seq<BrokerView> },
    Topic { cluster: Seq<char>, topic: Seq<char>, partitions: Seq<PartitionView> },
    Group { cluster: Seq<char>, group: GroupView },
}

impl View for CacheWrite {
    type V = CacheWriteView;

    open spec fn view(&self) -> CacheWriteView {
        match *self {
            CacheWrite::Aggregate { cluster, metadata } => CacheWriteView::Aggregate {
                cluster: cluster@,
                metadata: metadata@,
            },
            CacheWrite::Brokers { cluster, brokers } => CacheWriteView::Brokers {
                cluster: cluster@,
                brokers: views(brokers@),
            },
            CacheWrite::Topic { cluster, topic, partitions } => CacheWriteView::Topic {
                cluster: cluster@,
                topic: topic@,
                partitions: views(partitions@),
            },
            CacheWrite::Group { cluster, group } => CacheWriteView::Group {
                cluster: cluster@,
                group: group@,
            },
        }
    }
}

/// What a cache holds under a key.
pub enum CacheValueView {
    Aggregate(MetadataView),
    Brokers(Seq<BrokerView>),
    Partitions(Seq<PartitionView>),
    Group(GroupView),
}

/// A place in the caches: which cache, and under which key.
pub struct CacheSlot {
    pub cache: CacheKind,
    pub key: CacheKeyView,
}

impl CacheWriteView {
    /// The cluster whose entry the write replaces.
    pub open spec fn cluster(self) -> Seq<char> {
        match self {
            CacheWriteView::Aggregate { cluster, .. } => cluster,
            CacheWriteView::Brokers { cluster, .. } => cluster,
            CacheWriteView::Topic { cluster, .. } => cluster,
            CacheWriteView::Group { cluster, .. } => cluster,
        }
    }

    /// The cache that the write goes to.
    pub open spec fn cache(self) -> CacheKind {
        match self {
            CacheWriteView::Aggregate { .. } => CacheKind::Aggregate,
            CacheWriteView::Brokers { .. } => CacheKind::Brokers,
            CacheWriteView::Topic { .. } => CacheKind::Topics,
            CacheWriteView::Group { .. } => CacheKind::Groups,
        }
    }

    /// The key under which the write stores its value. A group is stored
    /// under its own name.
    pub open spec fn key(self) -> CacheKeyView {
        match self {
            CacheWriteView::Aggregate { cluster, .. } => CacheKeyView { cluster, item: None },
            CacheWriteView::Brokers { cluster, .. } => CacheKeyView { cluster, item: None },
            CacheWriteView::Topic { cluster, topic, .. } => CacheKeyView {
                cluster,
                item: Some(topic),
            },
            CacheWriteView::Group { cluster, group } => CacheKeyView {
                cluster,
                item: Some(group.name),
            },
        }
    }

    pub open spec fn slot(self) -> CacheSlot {
        CacheSlot { cache: self.cache(), key: self.key() }
    }

    /// The value that the write stores.
    pub open spec fn value(self) -> CacheValueView {
        match self {
            CacheWriteView::Aggregate { metadata, .. } => CacheValueView::Aggregate(metadata),
            CacheWriteView::Brokers { brokers, .. } => CacheValueView::Brokers(brokers),
            CacheWriteView::Topic { partitions, .. } => CacheValueView::Partitions(partitions),
            CacheWriteView::Group { group, .. } => CacheValueView::Group(group),
        }
    }
}

impl CacheValueView {
    /// Every partition list in the value is sorted by identifier.
    pub open spec fn lists_sorted(self) -> bool {
        match self {
            CacheValueView::Aggregate(metadata) => every_list_sorted(metadata.topics),
            CacheValueView::Partitions(partitions) => sorted_by_id(partitions),
            _ => true,
        }
    }

    /// Every condition that a partition in the value carries is described
    /// by a text that is not empty.
    pub open spec fn conditions_described(self) -> bool {
        match self {
            CacheValueView::Aggregate(metadata) => every_error_described(metadata.topics),
            CacheValueView::Partitions(partitions) => errors_described(partitions),
            _ => true,
        }
    }
}

impl CacheWrite {
    /// The cache that the write goes to.
    pub fn cache(&self) -> (kind: CacheKind)
        ensures
            kind == self@.cache(),
    {
        match self {
            CacheWrite::Aggregate { .. } => CacheKind::Aggregate,
            CacheWrite::Brokers { .. } => CacheKind::Brokers,
            CacheWrite::Topic { .. } => CacheKind::Topics,
            CacheWrite::Group { .. } => CacheKind::Groups,
        }
    }

    /// The key under which the write stores its value.
    pub fn key(&self) -> (key: CacheKey)
        ensures
            key@ == self@.key(),
    {
        match self {
            CacheWrite::Aggregate { cluster, .. } => CacheKey {
                cluster: cluster.clone(),
                item: None,
            },
            CacheWrite::Brokers { cluster, .. } => CacheKey { cluster: cluster.clone(), item: None },
            CacheWrite::Topic { cluster, topic, .. } => CacheKey {
                cluster: cluster.clone(),
                item: Some(topic.clone()),
            },
            CacheWrite::Group { cluster, group } => CacheKey {
                cluster: cluster.clone(),
                item: Some(group.name.clone()),
            },
        }
    }
}

/// What the four caches hold: for each place that is filled, its value.
pub type CacheContents = Map<CacheSlot, CacheValueView>;

/// The contents after one write.
pub open spec fn put(contents: CacheContents, write: CacheWriteView) -> CacheContents {
    contents.insert(write.slot(), write.value())
}

/// The contents after a sequence of writes, made in its order.
pub open spec fn put_all(contents: CacheContents, writes: Seq<CacheWriteView>) -> CacheContents
    decreases writes.len(),
{
    if writes.len() == 0 {
        contents
    } else {
        put(put_all(contents, writes.drop_last()), writes.last())
    }
}

/// The place of a cluster's aggregate snapshot.
pub open spec fn aggregate_slot(cluster: Seq<char>) -> CacheSlot {
    CacheSlot { cache: CacheKind::Aggregate, key: CacheKeyView { cluster, item: None } }
}

/// The place of a cluster's broker list.
pub open spec fn brokers_slot(cluster: Seq<char>) -> CacheSlot {
    CacheSlot { cache: CacheKind::Brokers, key: CacheKeyView { cluster, item: None } }
}

/// The place of the partitions of one topic of a cluster.
pub open spec fn topic_slot(cluster: Seq<char>, topic: Seq<char>) -> CacheSlot {
    CacheSlot { cache: CacheKind::Topics, key: CacheKeyView { cluster, item: Some(topic) } }
}

/// The place of one consumer group of a cluster.
pub open spec fn group_slot(cluster: Seq<char>, group: Seq<char>) -> CacheSlot {
    CacheSlot { cache: CacheKind::Groups, key: CacheKeyView { cluster, item: Some(group) } }
}

} // verus!
