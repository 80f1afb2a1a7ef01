use worker_runtime::load::{compute_usage_saturating, load_metric, Config, MAX_LOAD, USAGE_SCALE};

fn config(capacity: usize, threshold: usize) -> Config {
    Config {
        max_num_of_instances: capacity,
        max_inactive_time_ms: 1000,
        max_isolate_memory_bytes: 1 << 20,
        high_memory_threshold_bytes: threshold,
    }
}

#[test]
fn usage_is_the_floor_of_the_scaled_fraction() {
    assert_eq!(compute_usage_saturating(1, 3, 30000), 10000);
    assert_eq!(compute_usage_saturating(2, 3, 30000), 20000);
    assert_eq!(compute_usage_saturating(1, 7, 30000), 4285);
    assert_eq!(compute_usage_saturating(0, 5, 30000), 0);
    assert_eq!(compute_usage_saturating(5, 10, 1), 0);
}

#[test]
fn usage_saturates() {
    assert_eq!(compute_usage_saturating(10, 10, 30000), 30000);
    assert_eq!(compute_usage_saturating(11, 10, 30000), 30000);
    assert_eq!(compute_usage_saturating(u128::MAX, 1, 30000), 30000);
}

#[test]
fn usage_with_zero_total_is_full() {
    assert_eq!(compute_usage_saturating(0, 0, 30000), 30000);
    assert_eq!(compute_usage_saturating(9, 0, 123), 123);
}

#[test]
fn load_adds_memory_and_instance_usage() {
    assert_eq!(load_metric(2000, 1, &config(2, 1000)), 45000);
    assert_eq!(load_metric(0, 0, &config(2, 1000)), 0);
    assert_eq!(load_metric(250, 3, &config(4, 1000)), 7500 + 22500);
}

#[test]
fn load_is_at_most_sixty_thousand() {
    assert_eq!(USAGE_SCALE, 30000);
    assert_eq!(MAX_LOAD, 60000);
    assert_eq!(load_metric(u128::MAX, usize::MAX, &config(1, 1)), 60000);
    assert_eq!(load_metric(0, 0, &config(0, 0)), 60000);
}
