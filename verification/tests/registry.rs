use std::time::{Duration, Instant};
use worker_runtime::load::{Config, InstanceStatistics};
use worker_runtime::runtime::{handles_of, Runtime};
use worker_runtime::types::{ExecutionError, GenericError, RuntimeId, Startup, WorkerHandle};

fn config(capacity: usize, idle_ms: u64, threshold: usize) -> Config {
    Config {
        max_num_of_instances: capacity,
        max_inactive_time_ms: idle_ms,
        max_isolate_memory_bytes: 1 << 20,
        high_memory_threshold_bytes: threshold,
    }
}

fn runtime(capacity: usize, idle_ms: u64, threshold: usize) -> Runtime {
    Runtime::new(RuntimeId { id: "rt-1".to_string() }, config(capacity, idle_ms, threshold))
}

fn handle(id: u64) -> WorkerHandle {
    WorkerHandle { id }
}

fn ids(rt: &Runtime) -> Vec<u64> {
    rt.list().unwrap().iter().map(|h| h.id).collect()
}

fn wait(ms: u64) {
    let start = Instant::now();
    while start.elapsed() < Duration::from_millis(ms) {}
}

#[test]
fn new_runtime_is_empty() {
    let rt = runtime(4, 60_000, 1000);
    assert_eq!(rt.id().id, "rt-1");
    assert_eq!(rt.config(), config(4, 60_000, 1000));
    assert!(ids(&rt).is_empty());
    assert_eq!(rt.load().unwrap(), 0);
}

#[test]
fn spawn_then_fetch_finds_the_instance() {
    let mut rt = runtime(4, 60_000, 1000);
    let h = rt.spawn(handle(7), Startup::Ready(70)).unwrap();
    assert_eq!(h, handle(7));
    assert_eq!(rt.fetch(&h).unwrap(), 70);
    assert_eq!(ids(&rt), vec![7]);
}

#[test]
fn fetch_of_unknown_handle_fails() {
    let mut rt = runtime(4, 60_000, 1000);
    rt.spawn(handle(1), Startup::Ready(10)).unwrap();
    assert!(matches!(rt.fetch(&handle(2)), Err(ExecutionError::NoSuchWorker)));
    assert_eq!(ids(&rt), vec![1]);
}

#[test]
fn failed_startup_is_passed_on() {
    let mut rt = runtime(4, 60_000, 1000);
    let r = rt.spawn(
        handle(1),
        Startup::Failed(GenericError::ScriptInitException("syntax error".to_string())),
    );
    match r {
        Err(GenericError::ScriptInitException(m)) => assert_eq!(m, "syntax error"),
        _ => panic!("expected a script initialization failure"),
    }
    assert!(ids(&rt).is_empty());
    assert!(matches!(rt.spawn(handle(2), Startup::Failed(GenericError::Internal)), Err(GenericError::Internal)));
}

#[test]
fn dropped_startup_is_an_initialization_failure() {
    let mut rt = runtime(4, 60_000, 1000);
    match rt.spawn(handle(1), Startup::Dropped) {
        Err(GenericError::ScriptInitException(m)) => assert_eq!(m, "script initialization failed"),
        _ => panic!("expected a script initialization failure"),
    }
    assert!(ids(&rt).is_empty());
    assert!(matches!(rt.fetch(&handle(1)), Err(ExecutionError::NoSuchWorker)));
}

#[test]
fn terminate_is_idempotent() {
    let mut rt = runtime(4, 60_000, 1000);
    rt.spawn(handle(1), Startup::Ready(10)).unwrap();
    rt.spawn(handle(2), Startup::Ready(20)).unwrap();
    assert!(rt.terminate(&handle(1)));
    assert!(!rt.terminate(&handle(1)));
    assert!(!rt.terminate(&handle(9)));
    assert_eq!(ids(&rt), vec![2]);
    assert!(matches!(rt.fetch(&handle(1)), Err(ExecutionError::NoSuchWorker)));
}

#[test]
fn remove_hands_back_the_instance() {
    let mut rt = runtime(4, 60_000, 1000);
    rt.spawn(handle(1), Startup::Ready(10)).unwrap();
    assert_eq!(rt.remove(&handle(1)), Some(10));
    assert_eq!(rt.remove(&handle(1)), None);
}

#[test]
fn capacity_eviction_takes_the_least_recently_used() {
    let mut rt = runtime(2, 60_000, 1000);
    rt.spawn(handle(1), Startup::Ready(10)).unwrap();
    rt.spawn(handle(2), Startup::Ready(20)).unwrap();
    assert_eq!(rt.fetch(&handle(1)).unwrap(), 10);
    rt.spawn(handle(3), Startup::Ready(30)).unwrap();
    assert_eq!(ids(&rt), vec![3, 1]);
    assert!(matches!(rt.fetch(&handle(2)), Err(ExecutionError::NoSuchWorker)));
}

#[test]
fn capacity_of_one_keeps_only_the_newest() {
    let mut rt = runtime(1, 60_000, 1000);
    rt.spawn(handle(1), Startup::Ready(10)).unwrap();
    rt.spawn(handle(2), Startup::Ready(20)).unwrap();
    assert_eq!(ids(&rt), vec![2]);
}

#[test]
fn spawning_a_known_handle_replaces_and_promotes() {
    let mut rt = runtime(2, 60_000, 1000);
    rt.spawn(handle(1), Startup::Ready(10)).unwrap();
    rt.spawn(handle(2), Startup::Ready(20)).unwrap();
    rt.update_stats(&handle(1), InstanceStatistics { used_memory_bytes: 500 });
    rt.spawn(handle(1), Startup::Ready(11)).unwrap();
    assert_eq!(ids(&rt), vec![1, 2]);
    assert_eq!(rt.fetch(&handle(1)).unwrap(), 11);
    assert_eq!(rt.load().unwrap(), 30000);
}

#[test]
fn list_does_not_promote() {
    let mut rt = runtime(2, 60_000, 1000);
    rt.spawn(handle(1), Startup::Ready(10)).unwrap();
    rt.spawn(handle(2), Startup::Ready(20)).unwrap();
    assert_eq!(ids(&rt), vec![2, 1]);
    rt.update_stats(&handle(1), InstanceStatistics { used_memory_bytes: 1 });
    rt.spawn(handle(3), Startup::Ready(30)).unwrap();
    assert_eq!(ids(&rt), vec![3, 2]);
}

#[test]
fn idle_entries_expire() {
    let mut rt = runtime(4, 50, 1000);
    rt.spawn(handle(1), Startup::Ready(10)).unwrap();
    wait(200);
    rt.lru_gc();
    assert!(matches!(rt.fetch(&handle(1)), Err(ExecutionError::NoSuchWorker)));
    assert!(ids(&rt).is_empty());
}

#[test]
fn expiry_applies_before_capacity_eviction() {
    let mut rt = runtime(2, 100, 1000);
    rt.spawn(handle(1), Startup::Ready(10)).unwrap();
    wait(300);
    rt.spawn(handle(2), Startup::Ready(20)).unwrap();
    rt.spawn(handle(3), Startup::Ready(30)).unwrap();
    assert_eq!(ids(&rt), vec![3, 2]);
}

#[test]
fn load_metric_saturation() {
    let mut rt = runtime(2, 60_000, 1000);
    rt.spawn(handle(1), Startup::Ready(10)).unwrap();
    rt.update_stats(&handle(1), InstanceStatistics { used_memory_bytes: 2000 });
    assert_eq!(rt.load().unwrap(), 45000);
}

#[test]
fn load_sums_the_memory_of_all_instances() {
    let mut rt = runtime(4, 60_000, 1000);
    rt.spawn(handle(1), Startup::Ready(10)).unwrap();
    rt.spawn(handle(2), Startup::Ready(20)).unwrap();
    rt.update_stats(&handle(1), InstanceStatistics { used_memory_bytes: 100 });
    rt.update_stats(&handle(2), InstanceStatistics { used_memory_bytes: 150 });
    rt.update_stats(&handle(2), InstanceStatistics { used_memory_bytes: 200 });
    assert_eq!(rt.load().unwrap(), 9000 + 15000);
    assert!(rt.terminate(&handle(2)));
    assert_eq!(rt.load().unwrap(), 3000 + 7500);
}

#[test]
fn statistics_for_an_unknown_handle_are_ignored() {
    let mut rt = runtime(2, 60_000, 1000);
    rt.update_stats(&handle(5), InstanceStatistics { used_memory_bytes: 900 });
    assert_eq!(rt.load().unwrap(), 0);
    rt.spawn(handle(5), Startup::Ready(50)).unwrap();
    assert_eq!(rt.load().unwrap(), 15000);
}

#[test]
fn load_stays_in_range_when_everything_is_full() {
    let mut rt = runtime(1, 60_000, 0);
    rt.spawn(handle(1), Startup::Ready(10)).unwrap();
    rt.update_stats(&handle(1), InstanceStatistics { used_memory_bytes: usize::MAX });
    assert_eq!(rt.load().unwrap(), 60000);
}

#[test]
fn gc_keeps_live_entries_and_their_memory() {
    let mut rt = runtime(2, 60_000, 1000);
    rt.spawn(handle(1), Startup::Ready(10)).unwrap();
    rt.update_stats(&handle(1), InstanceStatistics { used_memory_bytes: 500 });
    rt.lru_gc();
    assert_eq!(ids(&rt), vec![1]);
    assert_eq!(rt.load().unwrap(), 15000 + 15000);
    assert_eq!(rt.fetch(&handle(1)).unwrap(), 10);
}

#[test]
fn expired_entries_do_not_count_for_the_load() {
    let mut rt = runtime(2, 50, 1000);
    rt.spawn(handle(1), Startup::Ready(10)).unwrap();
    rt.update_stats(&handle(1), InstanceStatistics { used_memory_bytes: 500 });
    wait(200);
    assert_eq!(rt.load().unwrap(), 0);
    rt.update_stats(&handle(1), InstanceStatistics { used_memory_bytes: 700 });
    rt.lru_gc();
    assert_eq!(rt.load().unwrap(), 0);
    rt.spawn(handle(1), Startup::Ready(11)).unwrap();
    assert_eq!(rt.load().unwrap(), 15000);
}

#[test]
fn fetch_keeps_an_entry_alive() {
    let mut rt = runtime(2, 400, 1000);
    rt.spawn(handle(1), Startup::Ready(10)).unwrap();
    rt.spawn(handle(2), Startup::Ready(20)).unwrap();
    wait(250);
    assert_eq!(rt.fetch(&handle(1)).unwrap(), 10);
    wait(250);
    rt.lru_gc();
    assert_eq!(ids(&rt), vec![1]);
}

#[test]
fn handles_are_taken_from_entries_in_order() {
    assert_eq!(handles_of(&vec![(3, 30), (1, 10), (2, 20)]), vec![handle(3), handle(1), handle(2)]);
    assert_eq!(handles_of(&vec![(9, 0)]), vec![handle(9)]);
    assert_eq!(handles_of(&Vec::new()), Vec::<WorkerHandle>::new());
}

#[test]
fn memory_is_recorded_for_a_found_entry_only() {
    let mut rt = runtime(4, 60_000, 1000);
    rt.spawn(handle(1), Startup::Ready(10)).unwrap();
    rt.record_memory(&handle(1), None, InstanceStatistics { used_memory_bytes: 400 });
    assert_eq!(rt.load().unwrap(), 7500);
    rt.record_memory(&handle(1), Some(10), InstanceStatistics { used_memory_bytes: 400 });
    assert_eq!(rt.load().unwrap(), 12000 + 7500);
    rt.record_memory(&handle(1), Some(10), InstanceStatistics { used_memory_bytes: 100 });
    assert_eq!(rt.load().unwrap(), 3000 + 7500);
    assert_eq!(ids(&rt), vec![1]);
}

#[test]
fn statistics_replace_the_earlier_record() {
    let mut rt = runtime(4, 60_000, 1000);
    rt.spawn(handle(1), Startup::Ready(10)).unwrap();
    rt.update_stats(&handle(1), InstanceStatistics { used_memory_bytes: 900 });
    rt.update_stats(&handle(1), InstanceStatistics { used_memory_bytes: 200 });
    assert_eq!(rt.load().unwrap(), 6000 + 7500);
}
