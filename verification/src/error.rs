//! What can go wrong, with the cluster and the phase in which it did.

use crate::cache::CacheKey;
use crate::cache::CacheKeyView;
use crate::cache::CacheKind;
use crate::model::ClusterId;
use vstd::prelude::*;
use vstd::string::*;

verus! {

/// The three phases of a refresh.
#[derive(Clone, Copy, Debug, PartialEq, Eq, Structural)]
pub enum Phase {
    /// The aggregate snapshot is fetched and stored.
    Aggregate,
    /// The brokers and each topic's partitions are fetched and stored.
    Decomposed,
    /// The consumer groups are fetched and stored.
    Groups,
}

#[derive(Debug, PartialEq, Eq)]
pub enum Error {
    /// A run was started on a task that has no connection yet.
    ClientUninitialized { cluster: ClusterId },
    /// The connection to the cluster could not be set up.
    ConnectionSetupFailed { cluster: ClusterId, cause: String },
    /// A fetch from the cluster failed.
    FetchFailed { cluster: ClusterId, phase: Phase, cause: String },
    /// A cache refused a write.
    CacheWriteFailed { cluster: ClusterId, cache: CacheKind, key: CacheKey, cause: String },
}

pub enum ErrorView {
    ClientUninitialized { cluster: Seq<char> },
    ConnectionSetupFailed { cluster: Seq<char>, cause: Seq<char> },
    FetchFailed { cluster: Seq<char>, phase: Phase, cause: Seq<char> },
    CacheWriteFailed { cluster: Seq<char>, cache: CacheKind, key: CacheKeyView, cause: Seq<char> },
}

impl View for Error {
    type V = ErrorView;

    open spec fn view(&self) -> ErrorView {
        match *self {
            Error::ClientUninitialized { cluster } => ErrorView::ClientUninitialized {
                cluster: cluster@,
            },
            Error::ConnectionSetupFailed { cluster, cause } => ErrorView::ConnectionSetupFailed {
                cluster: cluster@,
                cause: cause@,
            },
            Error::FetchFailed { cluster, phase, cause } => ErrorView::FetchFailed {
                cluster: cluster@,
                phase,
                cause: cause@,
            },
            Error::CacheWriteFailed { cluster, cache, key, cause } => ErrorView::CacheWriteFailed {
                cluster: cluster@,
                cache,
                key: key@,
                cause: cause@,
            },
        }
    }
}

/// What a phase fetches, for use in a message.
pub open spec fn phase_text(phase: Phase) -> Seq<char> {
    match phase {
        Phase::Aggregate => "Metadata"@,
        Phase::Decomposed => "Broker and topic"@,
        Phase::Groups => "Consumer group"@,
    }
}

/// What a cache holds, for use in a message.
pub open spec fn cache_text(cache: CacheKind) -> Seq<char> {
    match cache {
        CacheKind::Aggregate => "metadata"@,
        CacheKind::Brokers => "broker information"@,
        CacheKind::Topics => "topic information"@,
        CacheKind::Groups => "group information"@,
    }
}

/// A key, for use in a message: the cluster and, where the key has one,
/// the name behind a slash.
pub open spec fn key_text(key: CacheKeyView) -> Seq<char> {
    match key.item {
        Some(item) => key.cluster + "/"@ + item,
        None => key.cluster,
    }
}

impl ErrorView {
    /// The error in words: what failed, for which cluster, and why.
    pub open spec fn message(self) -> Seq<char> {
        match self {
            ErrorView::ClientUninitialized { cluster } => "Consumer not initialized, cluster: "@
                + cluster,
            ErrorView::ConnectionSetupFailed { cluster, cause } => "Consumer creation failed, cluster: "@
                + cluster + ": "@ + cause,
            ErrorView::FetchFailed { cluster, phase, cause } => phase_text(phase)
                + " fetch failed, cluster: "@ + cluster + ": "@ + cause,
            ErrorView::CacheWriteFailed { cluster, cache, key, cause } => "Failed to insert "@
                + cache_text(cache) + " in cache, cluster: "@ + cluster + ", key: "@ + key_text(
                key,
            ) + ": "@ + cause,
        }
    }

    /// The cluster that the error names.
    pub open spec fn cluster(self) -> Seq<char> {
        match self {
            ErrorView::ClientUninitialized { cluster } => cluster,
            ErrorView::ConnectionSetupFailed { cluster, .. } => cluster,
            ErrorView::FetchFailed { cluster, .. } => cluster,
            ErrorView::CacheWriteFailed { cluster, .. } => cluster,
        }
    }
}

fn phase_name(phase: Phase) -> (r: String)
    ensures
        r@ == phase_text(phase),
{
    match phase {
        Phase::Aggregate => "Metadata".to_owned(),
        Phase::Decomposed => "Broker and topic".to_owned(),
        Phase::Groups => "Consumer group".to_owned(),
    }
}

fn cache_name(cache: CacheKind) -> (r: String)
    ensures
        r@ == cache_text(cache),
{
    match cache {
        CacheKind::Aggregate => "metadata".to_owned(),
        CacheKind::Brokers => "broker information".to_owned(),
        CacheKind::Topics => "topic information".to_owned(),
        CacheKind::Groups => "group information".to_owned(),
    }
}

fn key_name(key: &CacheKey) -> (r: String)
    ensures
        r@ == key_text(key@),
{
    match &key.item {
        Some(item) => key.cluster.clone().concat("/").concat(item.as_str()),
        None => key.cluster.clone(),
    }
}

impl Error {
    /// The error in words: what failed, for which cluster, and why.
    pub fn message(&self) -> (text: String)
        ensures
            text@ == self@.message(),
    {
        match self {
            Error::ClientUninitialized { cluster } => "Consumer not initialized, cluster: ".to_owned().concat(
                cluster.as_str(),
            ),
            Error::ConnectionSetupFailed { cluster, cause } => "Consumer creation failed, cluster: ".to_owned().concat(
                cluster.as_str(),
            ).concat(": ").concat(cause.as_str()),
            Error::FetchFailed { cluster, phase, cause } => phase_name(*phase).concat(
                " fetch failed, cluster: ",
            ).concat(cluster.as_str()).concat(": ").concat(cause.as_str()),
            Error::CacheWriteFailed { cluster, cache, key, cause } => "Failed to insert ".to_owned().concat(
                cache_name(*cache).as_str(),
            ).concat(" in cache, cluster: ").concat(cluster.as_str()).concat(", key: ").concat(
                key_name(key).as_str(),
            ).concat(": ").concat(cause.as_str()),
        }
    }

    /// The cluster that the error names.
    pub fn cluster(&self) -> (c: &ClusterId)
        ensures
            c@ == self@.cluster(),
    {
        match self {
            Error::ClientUninitialized { cluster } => cluster,
            Error::ConnectionSetupFailed { cluster, .. } => cluster,
            Error::FetchFailed { cluster, .. } => cluster,
            Error::CacheWriteFailed { cluster, .. } => cluster,
        }
    }
}

/// The outcome of a finished run, as a mathematical value.
pub open spec fn outcome_view(r: Result<(), Error>) -> Result<(), ErrorView> {
    match r {
        Ok(_) => Ok(()),
        Err(e) => Err(e@),
    }
}

} // verus!
