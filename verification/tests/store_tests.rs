use limitador::clock::ManualClock;
use limitador::counter::Counter;
use limitador::limit::Limit;
use limitador::storage::WasmStorage;

fn limit(ns: &str, max: u64, secs: u64, name: Option<&str>) -> Limit {
    Limit {
        namespace: ns.to_string(),
        max_value: max,
        seconds: secs,
        name: name.map(|n| n.to_string()),
        conditions: vec!["req.method == GET".to_string()],
        variables: vec!["app_id".to_string()],
    }
}

fn counter(l: &Limit, app: &str) -> Counter {
    Counter::new(
        l.duplicate(),
        vec![("app_id".to_string(), app.to_string())],
    )
}

fn store(now: u64) -> WasmStorage<ManualClock> {
    WasmStorage::new(Box::new(ManualClock::new(now)))
}

#[test]
fn fresh_counter_is_within_limits_up_to_capacity() {
    let mut s = store(0);
    let l = limit("test_namespace", 10, 60, None);
    s.add_limit(l.duplicate()).unwrap();
    let c = counter(&l, "app_one");
    // No prior entry: the check passes exactly for weights up to the
    // capacity; a single request larger than the capacity is over limit
    // even on first use.
    assert!(s.is_within_limits(&c, 1).unwrap());
    assert!(s.is_within_limits(&c, 10).unwrap());
    assert!(!s.is_within_limits(&c, 11).unwrap());
}

#[test]
fn consumed_budget_bounds_the_check() {
    let mut s = store(0);
    let l = limit("test_namespace", 10, 60, None);
    s.add_limit(l.duplicate()).unwrap();
    let c = counter(&l, "app_one");
    s.update_counter(&c, 3).unwrap();
    // Stored value is 7: a weight of 7 still fits, 8 does not.
    assert!(s.is_within_limits(&c, 7).unwrap());
    assert!(!s.is_within_limits(&c, 8).unwrap());
}

#[test]
fn updates_accumulate_and_may_go_negative() {
    let mut s = store(0);
    let l = limit("test_namespace", 10, 60, None);
    s.add_limit(l.duplicate()).unwrap();
    let c = counter(&l, "app_one");
    s.update_counter(&c, 4).unwrap();
    s.update_counter(&c, 8).unwrap();
    // Remaining is max - sum(deltas) = 10 - 12 = -2, with no floor.
    let snap = s.get_counters("test_namespace").unwrap();
    assert_eq!(snap.len(), 1);
    assert_eq!(snap[0].1, -2);
}

#[test]
fn expiry_resets_regardless_of_old_value() {
    let mut s = store(0);
    let l = limit("test_namespace", 10, 60, None);
    s.add_limit(l.duplicate()).unwrap();
    let c = counter(&l, "app_one");
    s.update_counter(&c, 9).unwrap();
    // Entry expires at 60_000 ms; step past it.
    s.clock.set(60_001);
    s.update_counter(&c, 2).unwrap();
    // Reset to max - delta = 8 with a fresh window: the pre-expiry value 1
    // has no residual effect.
    let snap = s.get_counters("test_namespace").unwrap();
    assert_eq!(snap.len(), 1);
    assert_eq!(snap[0].1, 8);
    assert_eq!(snap[0].2, 60_000);
}

#[test]
fn expired_entry_counts_as_fully_available() {
    let mut s = store(0);
    let l = limit("test_namespace", 10, 60, None);
    s.add_limit(l.duplicate()).unwrap();
    let c = counter(&l, "app_one");
    s.update_counter(&c, 10).unwrap();
    assert!(!s.is_within_limits(&c, 1).unwrap());
    s.clock.set(60_001);
    // The expired entry counts as fully available again, still bounded by
    // the capacity.
    assert!(s.is_within_limits(&c, 10).unwrap());
    assert!(!s.is_within_limits(&c, 11).unwrap());
}

#[test]
fn delete_limit_purges_only_its_counters() {
    let mut s = store(0);
    let a = limit("test_namespace", 10, 60, Some("a"));
    let b = limit("test_namespace", 5, 60, Some("b"));
    s.add_limit(a.duplicate()).unwrap();
    s.add_limit(b.duplicate()).unwrap();
    let ca = counter(&a, "app_one");
    let cb = counter(&b, "app_one");
    s.update_counter(&ca, 1).unwrap();
    s.update_counter(&cb, 1).unwrap();
    s.delete_limit(&a).unwrap();
    let limits = s.get_limits("test_namespace").unwrap();
    assert_eq!(limits.len(), 1);
    assert_eq!(limits[0].name.as_deref(), Some("b"));
    // Only b's counter survives in the snapshot.
    let snap = s.get_counters("test_namespace").unwrap();
    assert_eq!(snap.len(), 1);
    assert_eq!(snap[0].0.limit.name.as_deref(), Some("b"));
}

#[test]
fn delete_limits_empties_the_namespace() {
    let mut s = store(0);
    let a = limit("test_namespace", 10, 60, Some("a"));
    let b = limit("test_namespace", 5, 60, Some("b"));
    let other = limit("other_namespace", 7, 60, Some("o"));
    s.add_limit(a.duplicate()).unwrap();
    s.add_limit(b.duplicate()).unwrap();
    s.add_limit(other.duplicate()).unwrap();
    s.update_counter(&counter(&a, "app_one"), 1).unwrap();
    s.update_counter(&counter(&b, "app_two"), 1).unwrap();
    s.update_counter(&counter(&other, "app_one"), 1).unwrap();
    s.delete_limits("test_namespace").unwrap();
    assert!(s.get_limits("test_namespace").unwrap().is_empty());
    assert!(s.get_counters("test_namespace").unwrap().is_empty());
    // The other namespace is untouched.
    assert_eq!(s.get_limits("other_namespace").unwrap().len(), 1);
    assert_eq!(s.get_counters("other_namespace").unwrap().len(), 1);
}

#[test]
fn reregistering_a_limit_orphans_its_counters() {
    let mut s = store(0);
    let a = limit("test_namespace", 10, 60, Some("a"));
    s.add_limit(a.duplicate()).unwrap();
    let ca = counter(&a, "app_one");
    s.update_counter(&ca, 1).unwrap();
    // Re-registering resets the associated-counter index without removing
    // the cache entry, so a later delete no longer reaches it.
    s.add_limit(a.duplicate()).unwrap();
    s.delete_limit(&a).unwrap();
    let snap = s.get_counters("test_namespace").unwrap();
    assert_eq!(snap.len(), 1);
    // The orphaned entry is still reachable by direct lookup.
    assert!(!s.is_within_limits(&ca, 10).unwrap());
}

#[test]
fn get_limits_of_unknown_namespace_is_empty() {
    let s = store(0);
    assert!(s.get_limits("missing_namespace").unwrap().is_empty());
}

#[test]
fn get_counters_reports_remaining_ttl() {
    let mut s = store(10_000);
    let l = limit("test_namespace", 10, 60, None);
    s.add_limit(l.duplicate()).unwrap();
    let c = counter(&l, "app_one");
    s.update_counter(&c, 3).unwrap();
    // Expiry is 10_000 + 60_000; at now = 25_000 the remaining TTL is 45_000.
    s.clock.set(25_000);
    let snap = s.get_counters("test_namespace").unwrap();
    assert_eq!(snap.len(), 1);
    assert_eq!(snap[0].1, 7);
    assert_eq!(snap[0].2, 45_000);
}

#[test]
fn add_counter_writes_the_cache_directly() {
    let mut s = store(0);
    let l = limit("test_namespace", 10, 60, None);
    s.add_limit(l.duplicate()).unwrap();
    let c = counter(&l, "app_one");
    s.add_counter(&c, 4, 30_000);
    assert!(s.is_within_limits(&c, 4).unwrap());
    assert!(!s.is_within_limits(&c, 5).unwrap());
}

#[test]
fn namespaces_partition_counters_and_limits() {
    let mut s = store(0);
    let a = limit("test_namespace", 10, 60, Some("a"));
    let o = limit("other_namespace", 10, 60, Some("o"));
    s.add_limit(a.duplicate()).unwrap();
    s.add_limit(o.duplicate()).unwrap();
    s.update_counter(&counter(&a, "app_one"), 1).unwrap();
    s.update_counter(&counter(&o, "app_one"), 1).unwrap();
    // Each namespace sees exactly its own limit and counter.
    let la = s.get_limits("test_namespace").unwrap();
    assert_eq!(la.len(), 1);
    assert_eq!(la[0].name.as_deref(), Some("a"));
    let snap = s.get_counters("test_namespace").unwrap();
    assert_eq!(snap.len(), 1);
    assert_eq!(snap[0].0.limit.name.as_deref(), Some("a"));
    let snap = s.get_counters("other_namespace").unwrap();
    assert_eq!(snap.len(), 1);
    assert_eq!(snap[0].0.limit.name.as_deref(), Some("o"));
}
