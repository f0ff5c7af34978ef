use cluster_metadata::error::Error;
use cluster_metadata::fetcher::{MetadataFetcher, CONCURRENCY_LIMIT};
use cluster_metadata::run::{Request, RunState, Step};
use std::time::Duration;

#[test]
fn a_new_fetcher_has_no_clusters() {
    let f: MetadataFetcher<u32> = MetadataFetcher::new(Duration::from_secs(15));
    assert_eq!(f.len(), 0);
    assert_eq!(f.interval(), Duration::from_secs(15));
    assert_eq!(f.concurrency_limit(), 2);
    assert_eq!(CONCURRENCY_LIMIT, 2);
    assert!(f.task(&"c1".to_string()).is_none());
}

#[test]
fn add_cluster_registers_a_task_with_its_connection() {
    let mut f: MetadataFetcher<u32> = MetadataFetcher::new(Duration::from_millis(500));
    assert_eq!(f.add_cluster(&"c1".to_string(), "k1:9092", Ok(7)), Ok(()));
    assert_eq!(f.len(), 1);
    let t = f.task(&"c1".to_string()).expect("the task");
    assert_eq!(t.cluster_id(), "c1");
    assert_eq!(t.bootstrap_servers(), "k1:9092");
    assert_eq!(t.consumer(), Some(&7));
    assert_eq!(f.task_at(0).unwrap().cluster_id(), "c1");
    assert_eq!(
        t.start(),
        Step::Continue {
            state: RunState::AwaitAggregate,
            request: Request::FetchTopology { timeout_ms: 30000 },
        }
    );
    assert_eq!(f.interval(), Duration::from_millis(500));
}

#[test]
fn add_cluster_without_a_connection_registers_nothing() {
    let mut f: MetadataFetcher<u32> = MetadataFetcher::new(Duration::from_secs(1));
    f.add_cluster(&"c1".to_string(), "k1:9092", Ok(1)).unwrap();
    assert_eq!(
        f.add_cluster(&"c2".to_string(), "nowhere:1", Err("no such host".to_string())),
        Err(Error::ConnectionSetupFailed {
            cluster: "c2".to_string(),
            cause: "no such host".to_string(),
        })
    );
    assert_eq!(f.len(), 1);
    assert!(f.task(&"c2".to_string()).is_none());
    assert_eq!(f.task(&"c1".to_string()).unwrap().consumer(), Some(&1));
}

#[test]
fn clusters_keep_the_order_of_their_registration() {
    let mut f: MetadataFetcher<u32> = MetadataFetcher::new(Duration::from_secs(1));
    f.add_cluster(&"b".to_string(), "kb:9092", Ok(1)).unwrap();
    f.add_cluster(&"a".to_string(), "ka:9092", Ok(2)).unwrap();
    f.add_cluster(&"c".to_string(), "kc:9092", Ok(3)).unwrap();
    assert_eq!(f.len(), 3);
    assert!(f.task_at(3).is_none());
    assert_eq!(f.task_at(0).unwrap().cluster_id(), "b");
    assert_eq!(f.task_at(1).unwrap().cluster_id(), "a");
    assert_eq!(f.task_at(2).unwrap().cluster_id(), "c");
}

#[test]
fn a_cluster_registered_again_gets_the_new_task_in_its_place() {
    let mut f: MetadataFetcher<u32> = MetadataFetcher::new(Duration::from_secs(1));
    f.add_cluster(&"a".to_string(), "old:9092", Ok(1)).unwrap();
    f.add_cluster(&"b".to_string(), "kb:9092", Ok(2)).unwrap();
    assert_eq!(f.add_cluster(&"a".to_string(), "new:9092", Ok(3)), Ok(()));
    assert_eq!(f.len(), 2);
    assert_eq!(f.task_at(0).unwrap().cluster_id(), "a");
    assert_eq!(f.task_at(0).unwrap().bootstrap_servers(), "new:9092");
    assert_eq!(f.task_at(0).unwrap().consumer(), Some(&3));
    assert_eq!(f.task_at(1).unwrap().cluster_id(), "b");
    assert_eq!(f.task_at(1).unwrap().consumer(), Some(&2));
}

#[test]
fn a_failed_registration_of_a_known_cluster_keeps_its_task() {
    let mut f: MetadataFetcher<u32> = MetadataFetcher::new(Duration::from_secs(1));
    f.add_cluster(&"a".to_string(), "old:9092", Ok(1)).unwrap();
    assert!(f.add_cluster(&"a".to_string(), "new:9092", Err("refused".to_string())).is_err());
    assert_eq!(f.len(), 1);
    assert_eq!(f.task_at(0).unwrap().bootstrap_servers(), "old:9092");
    assert_eq!(f.task_at(0).unwrap().consumer(), Some(&1));
}

#[test]
fn tasks_run_in_batches_of_two() {
    let mut f: MetadataFetcher<u32> = MetadataFetcher::new(Duration::from_secs(1));
    assert_eq!(f.batch_end(0), 0);
    for (i, name) in ["a", "b", "c", "d", "e"].iter().enumerate() {
        f.add_cluster(&name.to_string(), "k:9092", Ok(i as u32)).unwrap();
    }
    assert_eq!(f.batch_end(0), 2);
    assert_eq!(f.batch_end(2), 4);
    assert_eq!(f.batch_end(3), 5);
    assert_eq!(f.batch_end(4), 5);
    assert_eq!(f.batch_end(5), 5);
    assert_eq!(f.batch_end(usize::MAX), 5);
}
