//! One refresh of one cluster, step by step.
//!
//! A run asks for one thing at a time: a fetch from the cluster or a write
//! to a cache. Whoever drives the run performs the request and hands the
//! answer back; the run then says what comes next. The aggregate snapshot
//! and the per-cluster entries come from two fetches of the topology, in
//! that order, so that a failure of the second leaves the snapshot of the
//! first in its cache. What a run has written stays written when a later
//! step fails.

use crate::cache::CacheKey;
use crate::cache::CacheKeyView;
use crate::cache::CacheKind;
use crate::cache::CacheWrite;
use crate::cache::CacheWriteView;
use crate::error::outcome_view;
use crate::error::Error;
use crate::error::ErrorView;
use crate::error::Phase;
use crate::model::views;
use crate::model::GroupView;
use crate::normalize::normalized_metadata;
use crate::normalize::normalized_partitions;
use crate::timestamp::Timestamp;
use crate::upstream::RawGroup;
use crate::upstream::RawTopicView;
use crate::upstream::RawTopology;
use crate::upstream::RawTopologyView;
use vstd::prelude::*;

verus! {

/// How long a fetch may take, in milliseconds.
pub const FETCH_TIMEOUT_MS: i32 = 30000;

/// Where a run stands: which answer it is waiting for.
#[derive(Debug, PartialEq, Eq)]
pub enum RunState {
    /// The topology for the aggregate snapshot is being fetched.
    AwaitAggregate,
    /// The topology for the brokers and topics is being fetched.
    AwaitDecomposed,
    /// The consumer groups are being fetched.
    AwaitGroups,
    /// A write to `cache` under `key` is under way. `pending` holds the
    /// writes of this phase that are still to be made, the next one last.
    Writing { phase: Phase, cache: CacheKind, key: CacheKey, pending: Vec<CacheWrite> },
}

pub enum RunStateView {
    AwaitAggregate,
    AwaitDecomposed,
    AwaitGroups,
    /// `pending` holds the writes still to be made, the next one first.
    Writing { phase: Phase, cache: CacheKind, key: CacheKeyView, pending: Seq<CacheWriteView> },
}

impl View for RunState {
    type V = RunStateView;

    open spec fn view(&self) -> RunStateView {
        match *self {
            RunState::AwaitAggregate => RunStateView::AwaitAggregate,
            RunState::AwaitDecomposed => RunStateView::AwaitDecomposed,
            RunState::AwaitGroups => RunStateView::AwaitGroups,
            RunState::Writing { phase, cache, key, pending } => RunStateView::Writing {
                phase,
                cache,
                key: key@,
                pending: views(pending@).reverse(),
            },
        }
    }
}

/// What a run asks its driver to do.
#[derive(Debug, PartialEq, Eq)]
pub enum Request {
    /// Fetch the brokers and topics of the cluster.
    FetchTopology { timeout_ms: i32 },
    /// Fetch all consumer groups of the cluster.
    FetchGroups { timeout_ms: i32 },
    /// Replace one cache entry.
    Write(CacheWrite),
}

pub enum RequestView {
    FetchTopology { timeout_ms: i32 },
    FetchGroups { timeout_ms: i32 },
    Write(CacheWriteView),
}

impl View for Request {
    type V = RequestView;

    open spec fn view(&self) -> RequestView {
        match *self {
            Request::FetchTopology { timeout_ms } => RequestView::FetchTopology { timeout_ms },
            Request::FetchGroups { timeout_ms } => RequestView::FetchGroups { timeout_ms },
            Request::Write(write) => RequestView::Write(write@),
        }
    }
}

/// The answer to a request. A failure carries its cause as text.
#[derive(Debug, PartialEq, Eq)]
pub enum Response {
    Topology(Result<RawTopology, String>),
    Groups(Result<Vec<RawGroup>, String>),
    Written(Result<(), String>),
}

pub enum ResponseView {
    Topology(Result<RawTopologyView, Seq<char>>),
    Groups(Result<Seq<GroupView>, Seq<char>>),
    Written(Result<(), Seq<char>>),
}

impl View for Response {
    type V = ResponseView;

    open spec fn view(&self) -> ResponseView {
        match *self {
            Response::Topology(Ok(topology)) => ResponseView::Topology(Ok(topology@)),
            Response::Topology(Err(cause)) => ResponseView::Topology(Err(cause@)),
            Response::Groups(Ok(groups)) => ResponseView::Groups(Ok(views(groups@))),
            Response::Groups(Err(cause)) => ResponseView::Groups(Err(cause@)),
            Response::Written(Ok(_)) => ResponseView::Written(Ok(())),
            Response::Written(Err(cause)) => ResponseView::Written(Err(cause@)),
        }
    }
}

/// What a step of a run comes to: the next request, or the end of the run.
#[derive(Debug, PartialEq, Eq)]
pub enum Step {
    Continue { state: RunState, request: Request },
    Finished(Result<(), Error>),
}

pub enum StepView {
    Continue { state: RunStateView, request: RequestView },
    Finished(Result<(), ErrorView>),
}

impl View for Step {
    type V = StepView;

    open spec fn view(&self) -> StepView {
        match *self {
            Step::Continue { state, request } => StepView::Continue {
                state: state@,
                request: request@,
            },
            Step::Finished(outcome) => StepView::Finished(outcome_view(outcome)),
        }
    }
}

/// The cause given for an answer that is not the one waited for.
pub open spec fn unexpected_response_text() -> Seq<char> {
    "unexpected response"@
}

/// The cause of a failure: the one that the answer carries, or a fixed text
/// for an answer that carries none.
pub open spec fn cause_of(response: ResponseView) -> Seq<char> {
    match response {
        ResponseView::Topology(Err(cause)) => cause,
        ResponseView::Groups(Err(cause)) => cause,
        ResponseView::Written(Err(cause)) => cause,
        _ => unexpected_response_text(),
    }
}

/// The writes for the topics of a listing, one for each listed topic, in
/// the order of the listing.
pub open spec fn topic_writes(cluster: Seq<char>, topics: Seq<RawTopicView>) -> Seq<
    CacheWriteView,
> {
    Seq::new(
        topics.len(),
        |i: int|
            CacheWriteView::Topic {
                cluster,
                topic: topics[i].name,
                partitions: normalized_partitions(topics[i].partitions),
            },
    )
}

/// The writes of the second phase: the brokers, then the topics.
pub open spec fn decomposed_writes(cluster: Seq<char>, topology: RawTopologyView) -> Seq<
    CacheWriteView,
> {
    seq![CacheWriteView::Brokers { cluster, brokers: topology.brokers }] + topic_writes(
        cluster,
        topology.topics,
    )
}

/// The writes of the third phase: one for each listed group, in the order
/// of the listing.
pub open spec fn group_writes(cluster: Seq<char>, groups: Seq<GroupView>) -> Seq<CacheWriteView> {
    Seq::new(groups.len(), |i: int| CacheWriteView::Group { cluster, group: groups[i] })
}

/// The step that asks for `write` and leaves `pending` for later.
pub open spec fn issue(phase: Phase, write: CacheWriteView, pending: Seq<CacheWriteView>) -> StepView {
    StepView::Continue {
        state: RunStateView::Writing { phase, cache: write.cache(), key: write.key(), pending },
        request: RequestView::Write(write),
    }
}

/// The step after a write of `phase` went through: the next write of the
/// phase, or else what follows the phase.
pub open spec fn proceed(phase: Phase, pending: Seq<CacheWriteView>) -> StepView {
    if pending.len() > 0 {
        issue(phase, pending.first(), pending.drop_first())
    } else {
        match phase {
            Phase::Aggregate => StepView::Continue {
                state: RunStateView::AwaitDecomposed,
                request: RequestView::FetchTopology { timeout_ms: FETCH_TIMEOUT_MS },
            },
            Phase::Decomposed => StepView::Continue {
                state: RunStateView::AwaitGroups,
                request: RequestView::FetchGroups { timeout_ms: FETCH_TIMEOUT_MS },
            },
            Phase::Groups => StepView::Finished(Ok(())),
        }
    }
}

/// The end of a run whose fetch in `phase` failed.
pub open spec fn fetch_failed(cluster: Seq<char>, phase: Phase, response: ResponseView) -> StepView {
    StepView::Finished(Err(ErrorView::FetchFailed { cluster, phase, cause: cause_of(response) }))
}

/// The first step of a run: without a connection the run ends at once,
/// with one it fetches the topology for the aggregate snapshot.
pub open spec fn first_step(cluster: Seq<char>, connected: bool) -> StepView {
    if connected {
        StepView::Continue {
            state: RunStateView::AwaitAggregate,
            request: RequestView::FetchTopology { timeout_ms: FETCH_TIMEOUT_MS },
        }
    } else {
        StepView::Finished(Err(ErrorView::ClientUninitialized { cluster }))
    }
}

/// The step that follows `state` when `response` comes in at time `now`.
///
/// A topology makes the writes of its phase; a group listing makes the
/// group writes; a write that went through makes room for the next. Every
/// other answer ends the run with an error that names the cluster and what
/// failed.
pub open spec fn next_step(
    cluster: Seq<char>,
    state: RunStateView,
    response: ResponseView,
    now: Timestamp,
) -> StepView {
    match state {
        RunStateView::AwaitAggregate => match response {
            ResponseView::Topology(Ok(topology)) => issue(
                Phase::Aggregate,
                CacheWriteView::Aggregate { cluster, metadata: normalized_metadata(topology, now) },
                Seq::empty(),
            ),
            _ => fetch_failed(cluster, Phase::Aggregate, response),
        },
        RunStateView::AwaitDecomposed => match response {
            ResponseView::Topology(Ok(topology)) => proceed(
                Phase::Decomposed,
                decomposed_writes(cluster, topology),
            ),
            _ => fetch_failed(cluster, Phase::Decomposed, response),
        },
        RunStateView::AwaitGroups => match response {
            ResponseView::Groups(Ok(groups)) => proceed(
                Phase::Groups,
                group_writes(cluster, groups),
            ),
            _ => fetch_failed(cluster, Phase::Groups, response),
        },
        RunStateView::Writing { phase, cache, key, pending } => match response {
            ResponseView::Written(Ok(_)) => proceed(phase, pending),
            _ => StepView::Finished(
                Err(ErrorView::CacheWriteFailed { cluster, cache, key, cause: cause_of(response) }),
            ),
        },
    }
}

/// The time of the snapshot that a step asks to store; of no meaning for
/// any other step.
pub open spec fn refresh_time_of(step: StepView) -> Timestamp {
    match step {
        StepView::Continue {
            request: RequestView::Write(CacheWriteView::Aggregate { metadata, .. }),
            ..
        } => metadata.refresh_time,
        _ => Timestamp { secs: 0, nanos: 0 },
    }
}

} // verus!
