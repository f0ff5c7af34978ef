//! Periodic synchronisation of broker-cluster metadata into keyed caches.
//!
//! For every registered cluster the library decides, step by step, what one
//! refresh cycle fetches and which cache entries it replaces. The network
//! client, the caches and the timer stay outside: a driver performs each
//! request that a step hands out and feeds the answer back in.

pub mod text;
pub mod timestamp;
pub mod model;
pub mod partition_order;
pub mod topic_map;
pub mod snapshot;
pub mod upstream;
pub mod normalize;
pub mod cache;
pub mod error;
pub mod run;
pub mod task;
pub mod fetcher;
pub mod laws;

pub use crate::error::Error;
pub use crate::fetcher::MetadataFetcher;
pub use crate::model::Broker;
pub use crate::model::BrokerId;
pub use crate::model::ClusterId;
pub use crate::model::Group;
pub use crate::model::GroupMember;
pub use crate::model::Partition;
pub use crate::model::TopicName;
pub use crate::snapshot::Metadata;
pub use crate::task::MetadataFetcherTask;
pub use crate::timestamp::Timestamp;
pub use crate::topic_map::TopicMap;
