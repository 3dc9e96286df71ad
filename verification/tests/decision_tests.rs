use limitador::counter::Counter;
use limitador::decision::{
    is_limited, Authorization, DEFAULT_BATCH_SIZE, DEFAULT_FLUSHING_PERIOD_SEC,
    DEFAULT_MAX_CACHED_COUNTERS, DEFAULT_RESPONSE_TIMEOUT_MS,
};
use limitador::limit::Limit;

fn counter(name: &str, max: u64, secs: u64) -> Counter {
    Counter::new(
        Limit {
            namespace: "test_namespace".to_string(),
            max_value: max,
            seconds: secs,
            name: Some(name.to_string()),
            conditions: vec![],
            variables: vec![],
        },
        vec![],
    )
}

#[test]
fn first_exceeded_counter_wins_and_all_are_refreshed() {
    // A(max=10, window=60s) and B(max=5, window=30s), delta 3, raw pairs
    // [value=8, ttl=45000, value=6, ttl=-1].
    let mut counters = vec![counter("a", 10, 60), counter("b", 5, 30)];
    let script_res = vec![Some(8), Some(45_000), Some(6), Some(-1)];
    let outcome = is_limited(&mut counters, 3, script_res);
    // A: 10 - (8 + 3) underflows: exceeded, clamped to 0, TTL kept.
    assert_eq!(counters[0].remaining, 0);
    assert_eq!(counters[0].expires_in, 45_000);
    // B is also exceeded and still refreshed; -1 is the no-expiry sentinel,
    // so its configured window of 30s stands in.
    assert_eq!(counters[1].remaining, 0);
    assert_eq!(counters[1].expires_in, 30_000);
    // Ties break by input order: A is reported, B is not.
    match outcome {
        Some(Authorization::Limited(Some(name))) => assert_eq!(name, "a"),
        _ => panic!("expected the first counter's name"),
    }
}

#[test]
fn all_counters_under_capacity_is_allowed() {
    let mut counters = vec![counter("a", 10, 60), counter("b", 5, 30)];
    let script_res = vec![Some(2), Some(45_000), Some(1), Some(20_000)];
    let outcome = is_limited(&mut counters, 3, script_res);
    assert!(outcome.is_none());
    assert_eq!(counters[0].remaining, 5);
    assert_eq!(counters[1].remaining, 1);
}

#[test]
fn reported_nonnegative_ttl_is_never_replaced_by_the_window() {
    let mut counters = vec![counter("a", 10, 60)];
    let script_res = vec![Some(1), Some(7)];
    let outcome = is_limited(&mut counters, 1, script_res);
    assert!(outcome.is_none());
    // 7 ms, not the 60_000 ms window.
    assert_eq!(counters[0].expires_in, 7);
    // A zero TTL is non-negative too.
    let mut counters = vec![counter("a", 10, 60)];
    let outcome = is_limited(&mut counters, 1, vec![Some(1), Some(0)]);
    assert!(outcome.is_none());
    assert_eq!(counters[0].expires_in, 0);
}

#[test]
fn absent_value_means_first_use() {
    let mut counters = vec![counter("a", 10, 60)];
    let script_res = vec![None, None];
    let outcome = is_limited(&mut counters, 3, script_res);
    assert!(outcome.is_none());
    // Stored counts as zero: remaining = 10 - (0 + 3).
    assert_eq!(counters[0].remaining, 7);
    // Absent TTL falls back to the window.
    assert_eq!(counters[0].expires_in, 60_000);
}

#[test]
fn exact_capacity_is_not_exceeded() {
    let mut counters = vec![counter("a", 10, 60)];
    let outcome = is_limited(&mut counters, 3, vec![Some(7), Some(1_000)]);
    assert!(outcome.is_none());
    assert_eq!(counters[0].remaining, 0);
    // One more unit tips it over.
    let mut counters = vec![counter("a", 10, 60)];
    let outcome = is_limited(&mut counters, 4, vec![Some(7), Some(1_000)]);
    assert!(outcome.is_some());
}

#[test]
fn an_exceeded_limit_without_name_reports_none() {
    let mut counters = vec![Counter::new(
        Limit {
            namespace: "test_namespace".to_string(),
            max_value: 1,
            seconds: 60,
            name: None,
            conditions: vec![],
            variables: vec![],
        },
        vec![],
    )];
    let outcome = is_limited(&mut counters, 2, vec![Some(0), Some(1_000)]);
    match outcome {
        Some(Authorization::Limited(None)) => {},
        _ => panic!("expected a nameless denial"),
    }
}

#[test]
fn default_configuration_constants() {
    assert_eq!(DEFAULT_FLUSHING_PERIOD_SEC, 1);
    assert_eq!(DEFAULT_BATCH_SIZE, 100);
    assert_eq!(DEFAULT_MAX_CACHED_COUNTERS, 10_000);
    assert_eq!(DEFAULT_RESPONSE_TIMEOUT_MS, 350);
}
