//! The registry of the clusters that are refreshed.

use crate::error::Error;
use crate::model::views;
use crate::model::ClusterId;
use crate::task::MetadataFetcherTask;
use crate::task::TaskView;
use std::time::Duration;
use vstd::prelude::*;

verus! {

/// How many runs may be under way at one time, over all clusters.
pub const CONCURRENCY_LIMIT: usize = 2;

/// The clusters of a list of tasks, in its order.
pub open spec fn clusters_of<C>(tasks: Seq<TaskView<C>>) -> Seq<Seq<char>> {
    Seq::new(tasks.len(), |i: int| tasks[i].cluster)
}

/// No cluster occurs twice.
pub open spec fn distinct_clusters(clusters: Seq<Seq<char>>) -> bool {
    forall|i: int, j: int| 0 <= i < j < clusters.len() ==> clusters[i] != clusters[j]
}

/// The registry after a task is registered: the task stands in the place
/// of the task that its cluster had, or else behind all others.
pub open spec fn registered<C>(registry: Seq<TaskView<C>>, task: TaskView<C>) -> Seq<TaskView<C>> {
    let place = place_of(clusters_of(registry), task.cluster);
    if place < registry.len() {
        registry.update(place, task)
    } else {
        registry.push(task)
    }
}

/// The place of a cluster's task in a list of clusters: where the cluster
/// stands, or the end of the list for a cluster that is not in it.
pub open spec fn place_of(clusters: Seq<Seq<char>>, cluster: Seq<char>) -> int {
    if clusters.contains(cluster) {
        clusters.index_of(cluster)
    } else {
        clusters.len() as int
    }
}

/// Where the batch of tasks that starts at place `first` ends, in a
/// registry of `len` tasks: a batch holds as many tasks as may run at one
/// time, or what is left of the registry.
pub open spec fn batch_end_of(len: int, first: int) -> int {
    if first < len && len - first > CONCURRENCY_LIMIT {
        first + CONCURRENCY_LIMIT
    } else {
        len
    }
}

/// The clusters to refresh, each with its task, and how often a task is to
/// run. A cluster is registered once: registering it again puts the new
/// task, with its new connection, in the place of the old one.
#[derive(Debug)]
pub struct MetadataFetcher<C> {
    tasks: Vec<MetadataFetcherTask<C>>,
    interval: Duration,
}

impl<C> MetadataFetcher<C> {
    #[verifier::type_invariant]
    spec fn distinct(self) -> bool {
        distinct_clusters(clusters_of(views(self.tasks@)))
    }

    /// The registered tasks, in the order in which their clusters were
    /// first registered.
    pub closed spec fn registry(&self) -> Seq<TaskView<C>> {
        views(self.tasks@)
    }

    /// The time between two runs of a task.
    pub closed spec fn period(&self) -> Duration {
        self.interval
    }

    /// A registry without clusters, whose tasks are to run once per
    /// `interval`.
    pub fn new(interval: Duration) -> (fetcher: Self)
        ensures
            fetcher.registry() == Seq::<TaskView<C>>::empty(),
            fetcher.period() == interval,
    {
        let fetcher = MetadataFetcher { tasks: Vec::new(), interval };
        assert(fetcher.registry() =~= Seq::<TaskView<C>>::empty());
        fetcher
    }

    pub fn interval(&self) -> (d: Duration)
        ensures
            d == self.period(),
    {
        self.interval
    }

    /// How many runs may be under way at one time.
    pub fn concurrency_limit(&self) -> (n: usize)
        ensures
            n == CONCURRENCY_LIMIT,
    {
        CONCURRENCY_LIMIT
    }

    /// Where the batch of tasks that starts at place `first` ends. The
    /// tasks of one batch may run at one time; a batch is never larger
    /// than the limit on concurrent runs.
    pub fn batch_end(&self, first: usize) -> (end: usize)
        ensures
            end == batch_end_of(self.registry().len() as int, first as int),
            first < self.registry().len() ==> first < end <= self.registry().len(),
            first < self.registry().len() ==> end - first <= CONCURRENCY_LIMIT,
    {
        let len = self.tasks.len();
        if first < len && len - first > CONCURRENCY_LIMIT {
            first + CONCURRENCY_LIMIT
        } else {
            len
        }
    }

    /// The number of registered clusters.
    pub fn len(&self) -> (n: usize)
        ensures
            n == self.registry().len(),
            distinct_clusters(clusters_of(self.registry())),
    {
        proof {
            use_type_invariant(self);
        }
        self.tasks.len()
    }

    /// The task at place `i` of the registry, if there are that many.
    pub fn task_at(&self, i: usize) -> (r: Option<&MetadataFetcherTask<C>>)
        ensures
            match r {
                Some(task) => i < self.registry().len() && task@ == self.registry()[i as int],
                None => i >= self.registry().len(),
            },
    {
        if i < self.tasks.len() {
            Some(&self.tasks[i])
        } else {
            None
        }
    }

    /// Where the task of a cluster stands, or the number of tasks if the
    /// cluster is not registered.
    fn find(&self, cluster_id: &ClusterId) -> (k: usize)
        ensures
            k == place_of(clusters_of(self.registry()), cluster_id@),
            k <= self.registry().len(),
            k < self.registry().len() ==> self.registry()[k as int].cluster == cluster_id@,
    {
        proof {
            use_type_invariant(self);
        }
        let ghost clusters = clusters_of(self.registry());
        let mut i: usize = 0;
        while i < self.tasks.len()
            invariant
                i <= self.tasks.len(),
                clusters == clusters_of(views(self.tasks@)),
                distinct_clusters(clusters),
                forall|j: int| 0 <= j < i ==> clusters[j] != cluster_id@,
            decreases self.tasks.len() - i,
        {
            assert(clusters[i as int] == self.tasks@[i as int]@.cluster);
            if *self.tasks[i].cluster_id() == *cluster_id {
                proof {
                    assert(clusters.contains(cluster_id@));
                    let m = clusters.index_of(cluster_id@);
                    assert(0 <= m < clusters.len() && clusters[m] == cluster_id@);
                    assert(m == i);
                }
                return i;
            }
            i += 1;
        }
        proof {
            if clusters.contains(cluster_id@) {
                let m = clusters.index_of(cluster_id@);
                assert(0 <= m < clusters.len() && clusters[m] == cluster_id@);
            }
        }
        i
    }

    /// The task of a cluster, if the cluster is registered.
    pub fn task(&self, cluster_id: &ClusterId) -> (task: Option<&MetadataFetcherTask<C>>)
        ensures
            match task {
                Some(t) => {
                    &&& clusters_of(self.registry()).contains(cluster_id@)
                    &&& t@ == self.registry()[place_of(clusters_of(self.registry()), cluster_id@)]
                },
                None => !clusters_of(self.registry()).contains(cluster_id@),
            },
    {
        let k = self.find(cluster_id);
        if k < self.tasks.len() {
            proof {
                assert(clusters_of(self.registry())[k as int] == cluster_id@);
            }
            Some(&self.tasks[k])
        } else {
            None
        }
    }

    /// Registers a cluster, given the outcome of setting up the connection
    /// to `bootstrap_servers`.
    ///
    /// With a connection, the cluster's task is made and registered: in the
    /// place of the task that the cluster had, or else behind all others.
    /// Without one, nothing is registered and the error is
    /// `ConnectionSetupFailed` with the cause.
    pub fn add_cluster(
        &mut self,
        cluster_id: &ClusterId,
        bootstrap_servers: &str,
        connection: Result<C, String>,
    ) -> (r: Result<(), Error>)
        ensures
            final(self).period() == old(self).period(),
            match connection {
                Ok(c) => {
                    &&& r is Ok
                    &&& final(self).registry() == registered(
                        old(self).registry(),
                        TaskView {
                            cluster: cluster_id@,
                            address: bootstrap_servers@,
                            connection: Some(c),
                        },
                    )
                },
                Err(cause) => {
                    &&& final(self).registry() == old(self).registry()
                    &&& r matches Err(e)
                    &&& e@ == (crate::error::ErrorView::ConnectionSetupFailed {
                        cluster: cluster_id@,
                        cause: cause@,
                    })
                },
            },
    {
        proof {
            use_type_invariant(&*self);
        }
        match connection {
            Ok(c) => {
                let mut task = MetadataFetcherTask::new(cluster_id, bootstrap_servers);
                task.set_consumer(c);
                let k = self.find(cluster_id);
                let ghost before = self.registry();
                let mut taken = MetadataFetcher { tasks: Vec::new(), interval: self.interval };
                proof {
                    assert(clusters_of(views(taken.tasks@)) =~= Seq::<Seq<char>>::empty());
                }
                core::mem::swap(self, &mut taken);
                let mut tasks = taken.tasks;
                if k < tasks.len() {
                    tasks.remove(k);
                    tasks.insert(k, task);
                    proof {
                        assert(views(tasks@) =~= before.update(k as int, task@));
                        assert(clusters_of(views(tasks@)) =~= clusters_of(before));
                    }
                } else {
                    tasks.push(task);
                    proof {
                        assert(views(tasks@) =~= before.push(task@));
                        assert forall|j: int| 0 <= j < before.len() implies clusters_of(before)[j]
                            != cluster_id@ by {
                            if clusters_of(before)[j] == cluster_id@ {
                                assert(clusters_of(before).contains(cluster_id@));
                            }
                        }
                        assert(clusters_of(views(tasks@)) =~= clusters_of(before).push(
                            cluster_id@,
                        ));
                    }
                }
                *self = MetadataFetcher { tasks, interval: taken.interval };
                Ok(())
            },
            Err(cause) => Err(
                Error::ConnectionSetupFailed { cluster: cluster_id.clone(), cause },
            ),
        }
    }
}

} // verus!
