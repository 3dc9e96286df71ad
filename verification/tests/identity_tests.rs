use limitador::counter::{counter_key_eq, Counter};
use limitador::limit::{limit_eq, Limit};

fn base_limit() -> Limit {
    Limit {
        namespace: "test_namespace".to_string(),
        max_value: 10,
        seconds: 60,
        name: Some("a".to_string()),
        conditions: vec!["req.method == GET".to_string()],
        variables: vec!["app_id".to_string()],
    }
}

#[test]
fn limit_identity_is_the_full_definition() {
    let a = base_limit();
    assert!(limit_eq(&a, &a.duplicate()));

    let mut renamed = base_limit();
    renamed.name = Some("b".to_string());
    assert!(!limit_eq(&a, &renamed));

    let mut wider = base_limit();
    wider.max_value = 11;
    assert!(!limit_eq(&a, &wider));

    let mut elsewhere = base_limit();
    elsewhere.namespace = "other_namespace".to_string();
    assert!(!limit_eq(&a, &elsewhere));

    let mut other_conditions = base_limit();
    other_conditions.conditions = vec!["req.method == POST".to_string()];
    assert!(!limit_eq(&a, &other_conditions));
}

#[test]
fn counter_identity_ignores_observed_state() {
    let l = base_limit();
    let vars = vec![("app_id".to_string(), "app_one".to_string())];
    let c1 = Counter::new(l.duplicate(), vars.clone());
    let mut c2 = Counter::new(l.duplicate(), vars.clone());
    c2.remaining = 7;
    c2.expires_in = 1_000;
    // Same limit and qualifying values: the same counter, whatever the
    // observed state says.
    assert!(counter_key_eq(&c1, &c2));

    let c3 = Counter::new(
        l.duplicate(),
        vec![("app_id".to_string(), "app_two".to_string())],
    );
    assert!(!counter_key_eq(&c1, &c3));
}
