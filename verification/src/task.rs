//! The task that refreshes one cluster.

use crate::cache::CacheWrite;
use crate::cache::CacheWriteView;
use crate::error::Error;
use crate::error::Phase;
use crate::model::lemma_views_push;
use crate::model::views;
use crate::model::ClusterId;
use crate::normalize::metadata_of;
use crate::normalize::normalize_brokers;
use crate::normalize::normalize_group;
use crate::normalize::normalize_topic;
use crate::run::cause_of;
use crate::run::decomposed_writes;
use crate::run::first_step;
use crate::run::group_writes;
use crate::run::issue;
use crate::run::next_step;
use crate::run::proceed;
use crate::run::refresh_time_of;
use crate::run::topic_writes;
use crate::run::Request;
use crate::run::Response;
use crate::run::RunState;
use crate::run::Step;
use crate::run::FETCH_TIMEOUT_MS;
use crate::timestamp::Timestamp;
use crate::upstream::RawGroup;
use crate::upstream::RawTopology;
use std::sync::Arc;
use vstd::prelude::*;

verus! {

/// The refresh task of one cluster: the cluster's identifier, the address
/// that its connection goes to, and the connection once there is one.
/// `C` is the type of the connection; the task only keeps it.
#[derive(Debug)]
pub struct MetadataFetcherTask<C> {
    cluster_id: ClusterId,
    bootstrap_servers: String,
    consumer: Option<C>,
}

/// The step that asks for `write` and keeps `pending` for later.
fn issue_write(phase: Phase, write: CacheWrite, pending: Vec<CacheWrite>) -> (step: Step)
    ensures
        step@ == issue(phase, write@, views(pending@).reverse()),
{
    let cache = write.cache();
    let key = write.key();
    Step::Continue {
        state: RunState::Writing { phase, cache, key, pending },
        request: Request::Write(write),
    }
}

/// The step after a write of `phase` went through.
fn proceed_with(phase: Phase, pending: Vec<CacheWrite>) -> (step: Step)
    ensures
        step@ == proceed(phase, views(pending@).reverse()),
{
    let mut pending = pending;
    let ghost before = views(pending@);
    match pending.pop() {
        Some(next) => {
            proof {
                assert(next@ == before.reverse().first());
                assert(views(pending@).reverse() =~= before.reverse().drop_first());
            }
            issue_write(phase, next, pending)
        },
        None => {
            match phase {
                Phase::Aggregate => Step::Continue {
                    state: RunState::AwaitDecomposed,
                    request: Request::FetchTopology { timeout_ms: FETCH_TIMEOUT_MS },
                },
                Phase::Decomposed => Step::Continue {
                    state: RunState::AwaitGroups,
                    request: Request::FetchGroups { timeout_ms: FETCH_TIMEOUT_MS },
                },
                Phase::Groups => Step::Finished(Ok(())),
            }
        },
    }
}

/// The cause of a failure, taken from the answer.
fn response_cause(response: Response) -> (cause: String)
    ensures
        cause@ == cause_of(response@),
{
    match response {
        Response::Topology(Err(cause)) => cause,
        Response::Groups(Err(cause)) => cause,
        Response::Written(Err(cause)) => cause,
        _ => "unexpected response".to_owned(),
    }
}

/// The writes of the second phase for a topology, the first one last.
fn plan_decomposed(cluster: &ClusterId, topology: &RawTopology) -> (pending: Vec<CacheWrite>)
    ensures
        views(pending@).reverse() == decomposed_writes(cluster@, topology@),
{
    let ghost planned = topic_writes(cluster@, views(topology.topics@));
    let n = topology.topics.len();
    let mut pending: Vec<CacheWrite> = Vec::with_capacity(n);
    let mut i: usize = n;
    proof {
        assert(views(pending@) =~= planned.subrange(n as int, n as int).reverse());
    }
    while i > 0
        invariant
            i <= n,
            n == topology.topics.len(),
            planned == topic_writes(cluster@, views(topology.topics@)),
            views(pending@) == planned.subrange(i as int, n as int).reverse(),
        decreases i,
    {
        i -= 1;
        let (topic, partitions) = normalize_topic(&topology.topics[i]);
        let write = CacheWrite::Topic { cluster: cluster.clone(), topic, partitions };
        proof {
            lemma_views_push(pending@, write);
            assert(write@ == planned[i as int]);
            assert(planned.subrange(i as int + 1, n as int).reverse().push(planned[i as int])
                =~= planned.subrange(i as int, n as int).reverse());
        }
        pending.push(write);
    }
    let write = CacheWrite::Brokers {
        cluster: cluster.clone(),
        brokers: normalize_brokers(&topology.brokers),
    };
    proof {
        lemma_views_push(pending@, write);
        assert(planned.subrange(0, n as int) =~= planned);
        assert(planned.reverse().push(write@).reverse() =~= seq![write@] + planned);
    }
    pending.push(write);
    pending
}

/// The writes of the third phase for a group listing, the first one last.
fn plan_groups(cluster: &ClusterId, groups: &Vec<RawGroup>) -> (pending: Vec<CacheWrite>)
    ensures
        views(pending@).reverse() == group_writes(cluster@, views(groups@)),
{
    let ghost planned = group_writes(cluster@, views(groups@));
    let n = groups.len();
    let mut pending: Vec<CacheWrite> = Vec::with_capacity(n);
    let mut i: usize = n;
    proof {
        assert(views(pending@) =~= planned.subrange(n as int, n as int).reverse());
    }
    while i > 0
        invariant
            i <= n,
            n == groups.len(),
            planned == group_writes(cluster@, views(groups@)),
            views(pending@) == planned.subrange(i as int, n as int).reverse(),
        decreases i,
    {
        i -= 1;
        let write = CacheWrite::Group {
            cluster: cluster.clone(),
            group: normalize_group(&groups[i]),
        };
        proof {
            lemma_views_push(pending@, write);
            assert(write@ == planned[i as int]);
            assert(planned.subrange(i as int + 1, n as int).reverse().push(planned[i as int])
                =~= planned.subrange(i as int, n as int).reverse());
        }
        pending.push(write);
    }
    proof {
        assert(planned.subrange(0, n as int) =~= planned);
        assert(planned.reverse().reverse() =~= planned);
    }
    pending
}

/// A task as a mathematical value.
pub struct TaskView<C> {
    /// The identifier of the task's cluster.
    pub cluster: Seq<char>,
    /// The address that the task's connection goes to.
    pub address: Seq<char>,
    /// The task's connection, if it has one.
    pub connection: Option<C>,
}

impl<C> View for MetadataFetcherTask<C> {
    type V = TaskView<C>;

    closed spec fn view(&self) -> TaskView<C> {
        TaskView {
            cluster: self.cluster_id@,
            address: self.bootstrap_servers@,
            connection: self.consumer,
        }
    }
}

impl<C> MetadataFetcherTask<C> {
    /// A task for a cluster, without a connection yet.
    pub fn new(cluster_id: &ClusterId, bootstrap_servers: &str) -> (task: Self)
        ensures
            task@ == (TaskView::<C> {
                cluster: cluster_id@,
                address: bootstrap_servers@,
                connection: None,
            }),
    {
        MetadataFetcherTask {
            cluster_id: cluster_id.clone(),
            bootstrap_servers: bootstrap_servers.to_owned(),
            consumer: None,
        }
    }

    /// Gives the task its connection, in place of the one it may have had.
    pub fn set_consumer(&mut self, consumer: C)
        ensures
            final(self)@ == (TaskView { connection: Some(consumer), ..old(self)@ }),
    {
        self.consumer = Some(consumer);
    }

    pub fn cluster_id(&self) -> (id: &ClusterId)
        ensures
            id@ == self@.cluster,
    {
        &self.cluster_id
    }

    pub fn bootstrap_servers(&self) -> (address: &String)
        ensures
            address@ == self@.address,
    {
        &self.bootstrap_servers
    }

    pub fn consumer(&self) -> (c: Option<&C>)
        ensures
            match c {
                Some(connection) => self@.connection == Some(*connection),
                None => self@.connection is None,
            },
    {
        self.consumer.as_ref()
    }

    /// Starts a run. A task without a connection cannot run: the run ends
    /// at once with `ClientUninitialized`. Otherwise the run asks for the
    /// topology of its first phase.
    pub fn start(&self) -> (step: Step)
        ensures
            step@ == first_step(self@.cluster, self@.connection is Some),
    {
        if self.consumer.is_some() {
            Step::Continue {
                state: RunState::AwaitAggregate,
                request: Request::FetchTopology { timeout_ms: FETCH_TIMEOUT_MS },
            }
        } else {
            Step::Finished(Err(Error::ClientUninitialized { cluster: self.cluster_id.clone() }))
        }
    }

    /// Takes the answer to the request that `state` waits for, at the time
    /// `now`, and says what the run does next.
    pub fn resume_at(&self, state: RunState, response: Response, now: Timestamp) -> (step: Step)
        ensures
            step@ == next_step(self@.cluster, state@, response@, now),
    {
        match state {
            RunState::AwaitAggregate => match response {
                Response::Topology(Ok(topology)) => {
                    let metadata = metadata_of(&topology, now);
                    let write = CacheWrite::Aggregate {
                        cluster: self.cluster_id.clone(),
                        metadata: Arc::new(metadata),
                    };
                    let pending: Vec<CacheWrite> = Vec::new();
                    proof {
                        assert(views(pending@).reverse() =~= Seq::<CacheWriteView>::empty());
                    }
                    issue_write(Phase::Aggregate, write, pending)
                },
                other => Step::Finished(
                    Err(
                        Error::FetchFailed {
                            cluster: self.cluster_id.clone(),
                            phase: Phase::Aggregate,
                            cause: response_cause(other),
                        },
                    ),
                ),
            },
            RunState::AwaitDecomposed => match response {
                Response::Topology(Ok(topology)) => {
                    let pending = plan_decomposed(&self.cluster_id, &topology);
                    proceed_with(Phase::Decomposed, pending)
                },
                other => Step::Finished(
                    Err(
                        Error::FetchFailed {
                            cluster: self.cluster_id.clone(),
                            phase: Phase::Decomposed,
                            cause: response_cause(other),
                        },
                    ),
                ),
            },
            RunState::AwaitGroups => match response {
                Response::Groups(Ok(groups)) => {
                    let pending = plan_groups(&self.cluster_id, &groups);
                    proceed_with(Phase::Groups, pending)
                },
                other => Step::Finished(
                    Err(
                        Error::FetchFailed {
                            cluster: self.cluster_id.clone(),
                            phase: Phase::Groups,
                            cause: response_cause(other),
                        },
                    ),
                ),
            },
            RunState::Writing { phase, cache, key, pending } => match response {
                Response::Written(Ok(_)) => proceed_with(phase, pending),
                other => Step::Finished(
                    Err(
                        Error::CacheWriteFailed {
                            cluster: self.cluster_id.clone(),
                            cache,
                            key,
                            cause: response_cause(other),
                        },
                    ),
                ),
            },
        }
    }

    /// Takes the answer to the request that `state` waits for and says what
    /// the run does next. A snapshot that this step makes carries the time
    /// of this call.
    pub fn resume(&self, state: RunState, response: Response) -> (step: Step)
        ensures
            step@ == next_step(self@.cluster, state@, response@, refresh_time_of(step@)),
    {
        let now = match state {
            RunState::AwaitAggregate => Timestamp::now(),
            _ => Timestamp::new(0, 0),
        };
        let step = self.resume_at(state, response, now);
        proof {
            lemma_time_matters_once(self@.cluster, state@, response@, now);
        }
        step
    }
}

/// The time enters a step only as the time of the snapshot that the step
/// asks to store.
pub proof fn lemma_time_matters_once(
    cluster: Seq<char>,
    state: crate::run::RunStateView,
    response: crate::run::ResponseView,
    now: Timestamp,
)
    ensures
        next_step(cluster, state, response, refresh_time_of(next_step(cluster, state, response, now)))
            == next_step(cluster, state, response, now),
{
}

} // verus!
