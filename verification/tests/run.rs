use cluster_metadata::cache::{CacheKey, CacheKind, CacheWrite};
use cluster_metadata::error::{Error, Phase};
use cluster_metadata::model::{Broker, Group, GroupMember, Partition};
use cluster_metadata::run::{Request, Response, RunState, Step, FETCH_TIMEOUT_MS};
use cluster_metadata::snapshot::Metadata;
use cluster_metadata::task::MetadataFetcherTask;
use cluster_metadata::timestamp::Timestamp;
use cluster_metadata::topic_map::TopicMap;
use cluster_metadata::upstream::{
    RawBroker, RawGroup, RawGroupMember, RawPartition, RawTopic, RawTopology,
};
use std::collections::HashMap;
use std::collections::VecDeque;
use std::sync::Arc;

/// Four caches in memory, with a record of the writes in their order.
struct Caches {
    aggregate: HashMap<String, Arc<Metadata>>,
    brokers: HashMap<String, Vec<Broker>>,
    topics: HashMap<(String, String), Vec<Partition>>,
    groups: HashMap<(String, String), Group>,
    record: Vec<(CacheKind, CacheKey)>,
    refuse: Option<(CacheKind, String)>,
}

impl Caches {
    fn new() -> Caches {
        Caches {
            aggregate: HashMap::new(),
            brokers: HashMap::new(),
            topics: HashMap::new(),
            groups: HashMap::new(),
            record: Vec::new(),
            refuse: None,
        }
    }

    fn put(&mut self, write: CacheWrite) -> Result<(), String> {
        if let Some((kind, cause)) = &self.refuse {
            if *kind == write.cache() {
                return Err(cause.clone());
            }
        }
        self.record.push((write.cache(), write.key()));
        match write {
            CacheWrite::Aggregate { cluster, metadata } => {
                self.aggregate.insert(cluster, metadata);
            }
            CacheWrite::Brokers { cluster, brokers } => {
                self.brokers.insert(cluster, brokers);
            }
            CacheWrite::Topic { cluster, topic, partitions } => {
                self.topics.insert((cluster, topic), partitions);
            }
            CacheWrite::Group { cluster, group } => {
                self.groups.insert((cluster, group.name.clone()), group);
            }
        }
        Ok(())
    }
}

/// What a cluster answers: the topologies in the order of the requests,
/// and the groups.
struct Cluster {
    topologies: VecDeque<Result<RawTopology, String>>,
    groups: Result<Vec<RawGroup>, String>,
}

impl Cluster {
    fn steady(topology: &RawTopology, groups: &Vec<RawGroup>) -> Cluster {
        Cluster {
            topologies: VecDeque::from(vec![Ok(topology.clone()), Ok(topology.clone())]),
            groups: Ok(groups.clone()),
        }
    }
}

fn drive(task: &MetadataFetcherTask<u8>, cluster: &mut Cluster, caches: &mut Caches) -> Result<(), Error> {
    let mut step = task.start();
    loop {
        match step {
            Step::Finished(outcome) => return outcome,
            Step::Continue { state, request } => {
                let response = match request {
                    Request::FetchTopology { timeout_ms } => {
                        assert_eq!(timeout_ms, 30000);
                        Response::Topology(cluster.topologies.pop_front().expect("a topology"))
                    }
                    Request::FetchGroups { timeout_ms } => {
                        assert_eq!(timeout_ms, 30000);
                        Response::Groups(cluster.groups.clone())
                    }
                    Request::Write(write) => Response::Written(caches.put(write)),
                };
                step = task.resume(state, response);
            }
        }
    }
}

fn task(cluster: &str) -> MetadataFetcherTask<u8> {
    let mut t = MetadataFetcherTask::new(&cluster.to_string(), "localhost:9092");
    t.set_consumer(0);
    t
}

fn raw_partition(id: i32) -> RawPartition {
    RawPartition { id, leader: 1, replicas: vec![1], isr: vec![1], error: None }
}

fn partition(id: i32) -> Partition {
    Partition::new(id, 1, vec![1], vec![1], None)
}

fn topology(topics: &[(&str, Vec<i32>)]) -> RawTopology {
    RawTopology {
        brokers: vec![RawBroker { id: 1, host: "h1".to_string(), port: 9092 }],
        topics: topics
            .iter()
            .map(|(name, ids)| RawTopic {
                name: name.to_string(),
                partitions: ids.iter().map(|id| raw_partition(*id)).collect(),
            })
            .collect(),
    }
}

fn group(name: &str, state: &str) -> RawGroup {
    RawGroup {
        name: name.to_string(),
        state: state.to_string(),
        members: vec![RawGroupMember {
            id: format!("{}-m", name),
            client_id: "c".to_string(),
            client_host: "/10.0.0.1".to_string(),
        }],
    }
}

fn key(cluster: &str, item: Option<&str>) -> CacheKey {
    CacheKey { cluster: cluster.to_string(), item: item.map(|s| s.to_string()) }
}

#[test]
fn the_fetch_timeout_is_thirty_seconds() {
    assert_eq!(FETCH_TIMEOUT_MS, 30000);
}

#[test]
fn one_run_fills_the_caches() {
    let t = task("c1");
    let listed = topology(&[("t", vec![0])]);
    let mut cluster = Cluster::steady(&listed, &vec![]);
    let mut caches = Caches::new();
    let before = Timestamp::now();
    assert_eq!(drive(&t, &mut cluster, &mut caches), Ok(()));
    let after = Timestamp::now();

    let m = caches.aggregate.get("c1").expect("the snapshot");
    assert_eq!(m.brokers, vec![Broker::new(1, "h1".to_string(), 9092)]);
    let mut topics = TopicMap::new();
    topics.insert("t".to_string(), vec![Partition::new(0, 1, vec![1], vec![1], None)]);
    assert_eq!(m.topics, topics);
    assert!(m.refresh_time.is_at_or_after(&Timestamp::new(before.secs - 1, 0)));
    assert!(Timestamp::new(after.secs + 1, 0).is_at_or_after(&m.refresh_time));

    assert_eq!(caches.brokers.get("c1"), Some(&vec![Broker::new(1, "h1".to_string(), 9092)]));
    assert_eq!(
        caches.topics.get(&("c1".to_string(), "t".to_string())),
        Some(&vec![Partition::new(0, 1, vec![1], vec![1], None)])
    );
    assert_eq!(caches.aggregate.len(), 1);
    assert_eq!(caches.brokers.len(), 1);
    assert_eq!(caches.topics.len(), 1);
    assert!(caches.groups.is_empty());
}

#[test]
fn the_writes_come_in_the_order_of_the_phases() {
    let t = task("c1");
    let listed = topology(&[("b", vec![1, 0]), ("a", vec![0])]);
    let groups = vec![group("g2", "Stable"), group("g1", "Empty")];
    let mut cluster = Cluster::steady(&listed, &groups);
    let mut caches = Caches::new();
    assert_eq!(drive(&t, &mut cluster, &mut caches), Ok(()));
    assert_eq!(
        caches.record,
        vec![
            (CacheKind::Aggregate, key("c1", None)),
            (CacheKind::Brokers, key("c1", None)),
            (CacheKind::Topics, key("c1", Some("b"))),
            (CacheKind::Topics, key("c1", Some("a"))),
            (CacheKind::Groups, key("c1", Some("g2"))),
            (CacheKind::Groups, key("c1", Some("g1"))),
        ]
    );
    assert_eq!(
        caches.topics.get(&("c1".to_string(), "b".to_string())),
        Some(&vec![partition(0), partition(1)])
    );
    assert_eq!(
        caches.groups.get(&("c1".to_string(), "g2".to_string())),
        Some(&Group {
            name: "g2".to_string(),
            state: "Stable".to_string(),
            members: vec![GroupMember {
                id: "g2-m".to_string(),
                client_id: "c".to_string(),
                client_host: "/10.0.0.1".to_string(),
            }],
        })
    );
}

#[test]
fn every_stored_partition_list_is_sorted() {
    let t = task("c1");
    let listed = topology(&[("x", vec![9, 3, 7, 1]), ("y", vec![2, 2, 0]), ("z", vec![])]);
    let mut cluster = Cluster::steady(&listed, &vec![]);
    let mut caches = Caches::new();
    assert_eq!(drive(&t, &mut cluster, &mut caches), Ok(()));
    for list in caches.topics.values() {
        assert!(list.windows(2).all(|w| w[0].id <= w[1].id));
    }
    let m = caches.aggregate.get("c1").unwrap();
    for i in 0..m.topics.len() {
        let entry = m.topics.entry_at(i).unwrap();
        assert!(entry.partitions.windows(2).all(|w| w[0].id <= w[1].id));
    }
    let x: Vec<i32> =
        caches.topics[&("c1".to_string(), "x".to_string())].iter().map(|p| p.id).collect();
    assert_eq!(x, vec![1, 3, 7, 9]);
}

#[test]
fn a_partition_without_a_leader_does_not_stop_the_run() {
    let t = task("c1");
    let mut listed = topology(&[("t", vec![1, 0])]);
    listed.topics[0].partitions[0].error = Some(5);
    listed.topics[0].partitions[0].leader = -1;
    let mut cluster = Cluster::steady(&listed, &vec![]);
    let mut caches = Caches::new();
    assert_eq!(drive(&t, &mut cluster, &mut caches), Ok(()));
    let list = &caches.topics[&("c1".to_string(), "t".to_string())];
    assert_eq!(list.len(), 2);
    assert_eq!(list[1].id, 1);
    assert_eq!(list[1].leader, -1);
    let text = list[1].error.clone().expect("the condition");
    assert!(!text.is_empty());
    assert!(text.contains("Leader not available"));
    assert_eq!(list[0].error, None);
    let m = caches.aggregate.get("c1").unwrap();
    assert_eq!(m.topics.get("t").unwrap()[1].error, list[1].error);
}

#[test]
fn a_second_run_changes_only_the_time() {
    let t = task("c1");
    let listed = topology(&[("t", vec![2, 1]), ("u", vec![0])]);
    let groups = vec![group("g", "Stable")];
    let mut caches = Caches::new();
    assert_eq!(drive(&t, &mut Cluster::steady(&listed, &groups), &mut caches), Ok(()));
    let first = caches.aggregate.get("c1").unwrap().clone();
    let brokers = caches.brokers.clone();
    let topics = caches.topics.clone();
    let stored_groups = caches.groups.clone();
    assert_eq!(drive(&t, &mut Cluster::steady(&listed, &groups), &mut caches), Ok(()));
    let second = caches.aggregate.get("c1").unwrap().clone();
    assert_eq!(second.brokers, first.brokers);
    assert_eq!(second.topics, first.topics);
    assert!(second.refresh_time.is_at_or_after(&first.refresh_time));
    assert_eq!(caches.brokers, brokers);
    assert_eq!(caches.topics, topics);
    assert_eq!(caches.groups, stored_groups);
    assert_eq!(caches.aggregate.len(), 1);
}

#[test]
fn a_failure_of_one_cluster_leaves_the_other_alone() {
    let a = task("a");
    let b = task("b");
    let listed = topology(&[("t", vec![0])]);
    let groups = vec![group("g", "Stable")];
    let mut caches = Caches::new();
    assert_eq!(drive(&b, &mut Cluster::steady(&listed, &groups), &mut caches), Ok(()));
    let aggregate_b = caches.aggregate.get("b").unwrap().clone();
    let brokers_b = caches.brokers.get("b").unwrap().clone();
    let topic_b = caches.topics.get(&("b".to_string(), "t".to_string())).unwrap().clone();
    let group_b = caches.groups.get(&("b".to_string(), "g".to_string())).unwrap().clone();

    let mut failing = Cluster {
        topologies: VecDeque::from(vec![Ok(topology(&[("other", vec![3])])), Err("down".to_string())]),
        groups: Ok(vec![]),
    };
    assert_eq!(
        drive(&a, &mut failing, &mut caches),
        Err(Error::FetchFailed {
            cluster: "a".to_string(),
            phase: Phase::Decomposed,
            cause: "down".to_string(),
        })
    );
    assert!(Arc::ptr_eq(caches.aggregate.get("b").unwrap(), &aggregate_b));
    assert_eq!(caches.brokers.get("b"), Some(&brokers_b));
    assert_eq!(caches.topics.get(&("b".to_string(), "t".to_string())), Some(&topic_b));
    assert_eq!(caches.groups.get(&("b".to_string(), "g".to_string())), Some(&group_b));
    assert!(caches.record.iter().skip(4).all(|(_, k)| k.cluster == "a"));

    assert_eq!(drive(&b, &mut Cluster::steady(&listed, &groups), &mut caches), Ok(()));
    assert_eq!(caches.brokers.get("b"), Some(&brokers_b));
}

#[test]
fn a_topic_that_is_no_longer_listed_stays_in_the_cache() {
    let t = task("c1");
    let groups = vec![group("g-old", "Stable")];
    let mut caches = Caches::new();
    let first = topology(&[("kept", vec![0]), ("gone", vec![1, 0])]);
    assert_eq!(drive(&t, &mut Cluster::steady(&first, &groups), &mut caches), Ok(()));
    let gone = caches.topics.get(&("c1".to_string(), "gone".to_string())).unwrap().clone();
    let old_group = caches.groups.get(&("c1".to_string(), "g-old".to_string())).unwrap().clone();

    let second = topology(&[("kept", vec![0, 1])]);
    let new_groups = vec![group("g-new", "Empty")];
    assert_eq!(drive(&t, &mut Cluster::steady(&second, &new_groups), &mut caches), Ok(()));
    assert_eq!(caches.topics.get(&("c1".to_string(), "gone".to_string())), Some(&gone));
    assert_eq!(gone, vec![partition(0), partition(1)]);
    assert_eq!(
        caches.topics.get(&("c1".to_string(), "kept".to_string())),
        Some(&vec![partition(0), partition(1)])
    );
    assert_eq!(caches.groups.get(&("c1".to_string(), "g-old".to_string())), Some(&old_group));
    assert!(caches.groups.contains_key(&("c1".to_string(), "g-new".to_string())));
    let m = caches.aggregate.get("c1").unwrap();
    assert!(m.topics.get("gone").is_none());
    assert_eq!(m.topics.len(), 1);
}

#[test]
fn a_task_without_a_connection_does_not_run() {
    let t: MetadataFetcherTask<u8> = MetadataFetcherTask::new(&"c1".to_string(), "localhost:9092");
    assert_eq!(t.consumer(), None);
    assert_eq!(
        t.start(),
        Step::Finished(Err(Error::ClientUninitialized { cluster: "c1".to_string() }))
    );
    let mut caches = Caches::new();
    let listed = topology(&[]);
    assert_eq!(
        drive(&t, &mut Cluster::steady(&listed, &vec![]), &mut caches),
        Err(Error::ClientUninitialized { cluster: "c1".to_string() })
    );
    assert!(caches.record.is_empty());
}

#[test]
fn a_run_starts_with_a_fetch_of_the_topology() {
    let t = task("c1");
    assert_eq!(t.cluster_id(), "c1");
    assert_eq!(t.bootstrap_servers(), "localhost:9092");
    assert_eq!(t.consumer(), Some(&0));
    assert_eq!(
        t.start(),
        Step::Continue {
            state: RunState::AwaitAggregate,
            request: Request::FetchTopology { timeout_ms: 30000 },
        }
    );
}

#[test]
fn a_failed_first_fetch_writes_nothing() {
    let t = task("c1");
    let mut cluster =
        Cluster { topologies: VecDeque::from(vec![Err("timed out".to_string())]), groups: Ok(vec![]) };
    let mut caches = Caches::new();
    assert_eq!(
        drive(&t, &mut cluster, &mut caches),
        Err(Error::FetchFailed {
            cluster: "c1".to_string(),
            phase: Phase::Aggregate,
            cause: "timed out".to_string(),
        })
    );
    assert!(caches.record.is_empty());
}

#[test]
fn a_failed_second_fetch_leaves_the_snapshot() {
    let t = task("c1");
    let mut cluster = Cluster {
        topologies: VecDeque::from(vec![Ok(topology(&[("t", vec![0])])), Err("reset".to_string())]),
        groups: Ok(vec![]),
    };
    let mut caches = Caches::new();
    let outcome = drive(&t, &mut cluster, &mut caches);
    assert_eq!(
        outcome,
        Err(Error::FetchFailed {
            cluster: "c1".to_string(),
            phase: Phase::Decomposed,
            cause: "reset".to_string(),
        })
    );
    assert_eq!(outcome.unwrap_err().cluster(), "c1");
    assert_eq!(caches.record, vec![(CacheKind::Aggregate, key("c1", None))]);
    assert!(caches.aggregate.contains_key("c1"));
    assert!(caches.brokers.is_empty());
    assert!(caches.topics.is_empty());
}

#[test]
fn a_failed_fetch_of_the_groups_leaves_brokers_and_topics() {
    let t = task("c1");
    let listed = topology(&[("t", vec![0])]);
    let mut cluster = Cluster {
        topologies: VecDeque::from(vec![Ok(listed.clone()), Ok(listed)]),
        groups: Err("no coordinator".to_string()),
    };
    let mut caches = Caches::new();
    assert_eq!(
        drive(&t, &mut cluster, &mut caches),
        Err(Error::FetchFailed {
            cluster: "c1".to_string(),
            phase: Phase::Groups,
            cause: "no coordinator".to_string(),
        })
    );
    assert_eq!(caches.record.len(), 3);
    assert!(caches.topics.contains_key(&("c1".to_string(), "t".to_string())));
    assert!(caches.groups.is_empty());
}

fn refused(kind: CacheKind) -> (Result<(), Error>, Caches) {
    let t = task("c1");
    let listed = topology(&[("t", vec![0])]);
    let mut caches = Caches::new();
    caches.refuse = Some((kind, "replication failed".to_string()));
    let outcome = drive(&t, &mut Cluster::steady(&listed, &vec![group("g", "Stable")]), &mut caches);
    (outcome, caches)
}

#[test]
fn a_refused_write_of_the_snapshot_ends_the_run() {
    let (outcome, caches) = refused(CacheKind::Aggregate);
    assert_eq!(
        outcome,
        Err(Error::CacheWriteFailed {
            cluster: "c1".to_string(),
            cache: CacheKind::Aggregate,
            key: key("c1", None),
            cause: "replication failed".to_string(),
        })
    );
    assert!(caches.record.is_empty());
}

#[test]
fn a_refused_write_of_the_brokers_ends_the_run() {
    let (outcome, caches) = refused(CacheKind::Brokers);
    assert_eq!(
        outcome,
        Err(Error::CacheWriteFailed {
            cluster: "c1".to_string(),
            cache: CacheKind::Brokers,
            key: key("c1", None),
            cause: "replication failed".to_string(),
        })
    );
    assert_eq!(caches.record, vec![(CacheKind::Aggregate, key("c1", None))]);
}

#[test]
fn a_refused_write_of_a_topic_ends_the_run() {
    let (outcome, caches) = refused(CacheKind::Topics);
    assert_eq!(
        outcome,
        Err(Error::CacheWriteFailed {
            cluster: "c1".to_string(),
            cache: CacheKind::Topics,
            key: key("c1", Some("t")),
            cause: "replication failed".to_string(),
        })
    );
    assert_eq!(caches.record.len(), 2);
}

#[test]
fn a_refused_write_of_a_group_ends_the_run() {
    let (outcome, caches) = refused(CacheKind::Groups);
    assert_eq!(
        outcome,
        Err(Error::CacheWriteFailed {
            cluster: "c1".to_string(),
            cache: CacheKind::Groups,
            key: key("c1", Some("g")),
            cause: "replication failed".to_string(),
        })
    );
    assert_eq!(caches.record.len(), 3);
    assert!(caches.groups.is_empty());
}

#[test]
fn an_answer_that_was_not_asked_for_ends_the_run() {
    let t = task("c1");
    assert_eq!(
        t.resume(RunState::AwaitAggregate, Response::Written(Ok(()))),
        Step::Finished(Err(Error::FetchFailed {
            cluster: "c1".to_string(),
            phase: Phase::Aggregate,
            cause: "unexpected response".to_string(),
        }))
    );
    assert_eq!(
        t.resume(RunState::AwaitGroups, Response::Topology(Ok(topology(&[])))),
        Step::Finished(Err(Error::FetchFailed {
            cluster: "c1".to_string(),
            phase: Phase::Groups,
            cause: "unexpected response".to_string(),
        }))
    );
    let writing = RunState::Writing {
        phase: Phase::Decomposed,
        cache: CacheKind::Brokers,
        key: key("c1", None),
        pending: vec![],
    };
    assert_eq!(
        t.resume(writing, Response::Groups(Ok(vec![]))),
        Step::Finished(Err(Error::CacheWriteFailed {
            cluster: "c1".to_string(),
            cache: CacheKind::Brokers,
            key: key("c1", None),
            cause: "unexpected response".to_string(),
        }))
    );
}

#[test]
fn a_step_at_a_given_time_makes_the_snapshot_of_that_time() {
    let t = task("c1");
    let at = Timestamp::new(1_700_000_000, 42);
    let step = t.resume_at(RunState::AwaitAggregate, Response::Topology(Ok(topology(&[("t", vec![1, 0])]))), at);
    let mut topics = TopicMap::new();
    topics.insert("t".to_string(), vec![partition(0), partition(1)]);
    let snapshot = Metadata::at(vec![Broker::new(1, "h1".to_string(), 9092)], topics, at);
    assert_eq!(
        step,
        Step::Continue {
            state: RunState::Writing {
                phase: Phase::Aggregate,
                cache: CacheKind::Aggregate,
                key: key("c1", None),
                pending: vec![],
            },
            request: Request::Write(CacheWrite::Aggregate {
                cluster: "c1".to_string(),
                metadata: Arc::new(snapshot),
            }),
        }
    );
}

#[test]
fn the_phases_follow_each_other() {
    let t = task("c1");
    let after_snapshot = RunState::Writing {
        phase: Phase::Aggregate,
        cache: CacheKind::Aggregate,
        key: key("c1", None),
        pending: vec![],
    };
    assert_eq!(
        t.resume(after_snapshot, Response::Written(Ok(()))),
        Step::Continue {
            state: RunState::AwaitDecomposed,
            request: Request::FetchTopology { timeout_ms: 30000 },
        }
    );
    let step = t.resume(RunState::AwaitDecomposed, Response::Topology(Ok(topology(&[("t", vec![0])]))));
    let topic_write = CacheWrite::Topic {
        cluster: "c1".to_string(),
        topic: "t".to_string(),
        partitions: vec![partition(0)],
    };
    assert_eq!(topic_write.cache(), CacheKind::Topics);
    assert_eq!(topic_write.key(), key("c1", Some("t")));
    assert_eq!(
        step,
        Step::Continue {
            state: RunState::Writing {
                phase: Phase::Decomposed,
                cache: CacheKind::Brokers,
                key: key("c1", None),
                pending: vec![topic_write],
            },
            request: Request::Write(CacheWrite::Brokers {
                cluster: "c1".to_string(),
                brokers: vec![Broker::new(1, "h1".to_string(), 9092)],
            }),
        }
    );
    let last_topic = RunState::Writing {
        phase: Phase::Decomposed,
        cache: CacheKind::Topics,
        key: key("c1", Some("t")),
        pending: vec![],
    };
    assert_eq!(
        t.resume(last_topic, Response::Written(Ok(()))),
        Step::Continue {
            state: RunState::AwaitGroups,
            request: Request::FetchGroups { timeout_ms: 30000 },
        }
    );
    assert_eq!(t.resume(RunState::AwaitGroups, Response::Groups(Ok(vec![]))), Step::Finished(Ok(())));
    let last_group = RunState::Writing {
        phase: Phase::Groups,
        cache: CacheKind::Groups,
        key: key("c1", Some("g")),
        pending: vec![],
    };
    assert_eq!(t.resume(last_group, Response::Written(Ok(()))), Step::Finished(Ok(())));
}

#[test]
fn errors_say_what_failed_for_which_cluster_and_why() {
    assert_eq!(
        Error::ClientUninitialized { cluster: "c1".to_string() }.message(),
        "Consumer not initialized, cluster: c1"
    );
    assert_eq!(
        Error::ConnectionSetupFailed { cluster: "c1".to_string(), cause: "bad address".to_string() }
            .message(),
        "Consumer creation failed, cluster: c1: bad address"
    );
    assert_eq!(
        Error::FetchFailed {
            cluster: "c1".to_string(),
            phase: Phase::Aggregate,
            cause: "timed out".to_string(),
        }
        .message(),
        "Metadata fetch failed, cluster: c1: timed out"
    );
    assert_eq!(
        Error::FetchFailed {
            cluster: "c1".to_string(),
            phase: Phase::Decomposed,
            cause: "timed out".to_string(),
        }
        .message(),
        "Broker and topic fetch failed, cluster: c1: timed out"
    );
    assert_eq!(
        Error::FetchFailed { cluster: "c1".to_string(), phase: Phase::Groups, cause: String::new() }
            .message(),
        "Consumer group fetch failed, cluster: c1: "
    );
    assert_eq!(
        Error::CacheWriteFailed {
            cluster: "c1".to_string(),
            cache: CacheKind::Topics,
            key: key("c1", Some("orders")),
            cause: "replication failed".to_string(),
        }
        .message(),
        "Failed to insert topic information in cache, cluster: c1, key: c1/orders: replication failed"
    );
    assert_eq!(
        Error::CacheWriteFailed {
            cluster: "c1".to_string(),
            cache: CacheKind::Aggregate,
            key: key("c1", None),
            cause: "full".to_string(),
        }
        .message(),
        "Failed to insert metadata in cache, cluster: c1, key: c1: full"
    );
}

#[test]
fn every_write_names_its_cache_and_its_key() {
    let snapshot = CacheWrite::Aggregate {
        cluster: "c1".to_string(),
        metadata: Arc::new(Metadata::at(vec![], TopicMap::new(), Timestamp::new(1, 2))),
    };
    assert_eq!(snapshot.cache(), CacheKind::Aggregate);
    assert_eq!(snapshot.key(), key("c1", None));
    let brokers = CacheWrite::Brokers { cluster: "c2".to_string(), brokers: vec![] };
    assert_eq!(brokers.cache(), CacheKind::Brokers);
    assert_eq!(brokers.key(), key("c2", None));
    let stored = CacheWrite::Group {
        cluster: "c3".to_string(),
        group: Group { name: "g".to_string(), state: "Dead".to_string(), members: vec![] },
    };
    assert_eq!(stored.cache(), CacheKind::Groups);
    assert_eq!(stored.key(), key("c3", Some("g")));
    assert_eq!(stored.key().clone(), key("c3", Some("g")));
    assert_ne!(stored.key(), key("c3", None));
}

#[test]
fn a_refused_write_in_the_middle_keeps_what_was_written_before() {
    let t = task("c1");
    let listed = topology(&[("t1", vec![0]), ("t2", vec![0]), ("t3", vec![0])]);
    let mut cluster = Cluster::steady(&listed, &vec![]);
    let mut caches = Caches::new();
    let mut step = t.start();
    let mut writes = 0;
    let outcome = loop {
        match step {
            Step::Finished(outcome) => break outcome,
            Step::Continue { state, request } => {
                let response = match request {
                    Request::FetchTopology { .. } => {
                        Response::Topology(cluster.topologies.pop_front().unwrap())
                    }
                    Request::FetchGroups { .. } => Response::Groups(cluster.groups.clone()),
                    Request::Write(write) => {
                        writes += 1;
                        if writes == 4 {
                            Response::Written(Err("disk full".to_string()))
                        } else {
                            Response::Written(caches.put(write))
                        }
                    }
                };
                step = t.resume(state, response);
            }
        }
    };
    assert_eq!(
        outcome,
        Err(Error::CacheWriteFailed {
            cluster: "c1".to_string(),
            cache: CacheKind::Topics,
            key: key("c1", Some("t2")),
            cause: "disk full".to_string(),
        })
    );
    assert_eq!(
        caches.record,
        vec![
            (CacheKind::Aggregate, key("c1", None)),
            (CacheKind::Brokers, key("c1", None)),
            (CacheKind::Topics, key("c1", Some("t1"))),
        ]
    );
    assert!(!caches.topics.contains_key(&("c1".to_string(), "t3".to_string())));
}
