use limitador::cache::Cache;
use limitador::counter::Counter;
use limitador::limit::Limit;

fn counter(ns: &str, app: &str) -> Counter {
    Counter::new(
        Limit {
            namespace: ns.to_string(),
            max_value: 10,
            seconds: 60,
            name: None,
            conditions: vec![],
            variables: vec!["app_id".to_string()],
        },
        vec![("app_id".to_string(), app.to_string())],
    )
}

#[test]
fn insert_then_get_returns_the_entry() {
    let mut cache = Cache::new();
    let c = counter("test_namespace", "app_one");
    cache.insert(&c, 7, 1_000);
    let entry = cache.get(&c).unwrap();
    assert_eq!(entry.value, 7);
    assert_eq!(entry.expires_at, 1_000);
}

#[test]
fn insert_replaces_an_existing_entry() {
    let mut cache = Cache::new();
    let c = counter("test_namespace", "app_one");
    cache.insert(&c, 7, 1_000);
    cache.insert(&c, -3, 2_000);
    let entry = cache.get(&c).unwrap();
    assert_eq!(entry.value, -3);
    assert_eq!(entry.expires_at, 2_000);
}

#[test]
fn entries_are_keyed_by_counter_identity() {
    let mut cache = Cache::new();
    let c1 = counter("test_namespace", "app_one");
    let c2 = counter("test_namespace", "app_two");
    cache.insert(&c1, 1, 1_000);
    cache.insert(&c2, 2, 1_000);
    assert_eq!(cache.get(&c1).unwrap().value, 1);
    assert_eq!(cache.get(&c2).unwrap().value, 2);
}

#[test]
fn remove_deletes_only_the_given_key() {
    let mut cache = Cache::new();
    let c1 = counter("test_namespace", "app_one");
    let c2 = counter("test_namespace", "app_two");
    cache.insert(&c1, 1, 1_000);
    cache.insert(&c2, 2, 1_000);
    cache.remove(&c1);
    assert!(cache.get(&c1).is_none());
    assert_eq!(cache.get(&c2).unwrap().value, 2);
}

#[test]
fn get_mut_updates_in_place() {
    let mut cache = Cache::new();
    let c = counter("test_namespace", "app_one");
    cache.insert(&c, 5, 1_000);
    let entry = cache.get_mut(&c).unwrap();
    entry.value -= 2;
    assert_eq!(cache.get(&c).unwrap().value, 3);
    assert!(cache.get_mut(&counter("test_namespace", "app_two")).is_none());
}

#[test]
fn get_all_filters_expired_entries() {
    let mut cache = Cache::new();
    let c1 = counter("test_namespace", "app_one");
    let c2 = counter("test_namespace", "app_two");
    cache.insert(&c1, 1, 1_000);
    cache.insert(&c2, 2, 5_000);
    // At 3_000 the first entry has expired (lazily): only the second shows.
    let all = cache.get_all(3_000);
    assert_eq!(all.len(), 1);
    assert_eq!(all[0].1, 2);
    assert_eq!(all[0].2, 5_000);
    // An entry expiring exactly now is still alive.
    let all = cache.get_all(5_000);
    assert_eq!(all.len(), 1);
    let all = cache.get_all(5_001);
    assert!(all.is_empty());
}

#[test]
fn is_expired_is_strict() {
    let mut cache = Cache::new();
    let c = counter("test_namespace", "app_one");
    cache.insert(&c, 1, 1_000);
    let entry = cache.get(&c).unwrap();
    assert!(!entry.is_expired(999));
    assert!(!entry.is_expired(1_000));
    assert!(entry.is_expired(1_001));
}
