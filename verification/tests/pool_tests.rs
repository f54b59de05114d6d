use nostr_bridge::pool::{broadcast_report, RelayPool, SendOutcome};

#[test]
fn registering_twice_keeps_one_connection() {
    let mut pool = RelayPool::new();
    let url = "wss://relay.example".to_string();
    assert!(pool.ensure_registered(&url));
    assert!(!pool.ensure_registered(&url));
    assert_eq!(pool.len(), 1);
    assert!(pool.contains(&url));
}

#[test]
fn distinct_endpoints_all_register() {
    let mut pool = RelayPool::new();
    let a = "wss://a.example".to_string();
    let b = "wss://b.example".to_string();
    let c = "wss://c.example".to_string();
    assert!(pool.ensure_registered(&a));
    assert!(pool.ensure_registered(&b));
    assert!(pool.ensure_registered(&c));
    assert!(!pool.ensure_registered(&b));
    assert_eq!(pool.len(), 3);
    let snapshot = pool.endpoints_snapshot();
    assert_eq!(snapshot, vec![a, b, c]);
}

#[test]
fn empty_pool_contains_nothing() {
    let pool = RelayPool::new();
    assert_eq!(pool.len(), 0);
    assert!(!pool.contains(&"wss://a.example".to_string()));
}

#[test]
fn one_failure_leaves_a_complete_report() {
    let endpoints = vec![
        "wss://a.example".to_string(),
        "wss://b.example".to_string(),
        "wss://c.example".to_string(),
    ];
    let outcomes = vec![
        SendOutcome::Sent,
        SendOutcome::SendError("connection reset".to_string()),
        SendOutcome::Sent,
    ];
    let report = broadcast_report(endpoints.clone(), outcomes);
    assert_eq!(report.len(), 3);
    assert_eq!(report[0].endpoint, endpoints[0]);
    assert!(matches!(report[0].outcome, SendOutcome::Sent));
    assert_eq!(report[1].endpoint, endpoints[1]);
    match &report[1].outcome {
        SendOutcome::SendError(reason) => assert_eq!(reason, "connection reset"),
        _ => panic!("expected the failure to be reported"),
    }
    assert_eq!(report[2].endpoint, endpoints[2]);
    assert!(matches!(report[2].outcome, SendOutcome::Sent));
}

#[test]
fn all_failures_still_report_every_endpoint() {
    let endpoints = vec!["wss://a.example".to_string(), "wss://b.example".to_string()];
    let outcomes = vec![
        SendOutcome::SendError("refused".to_string()),
        SendOutcome::SendError("timeout".to_string()),
    ];
    let report = broadcast_report(endpoints.clone(), outcomes);
    assert_eq!(report.len(), 2);
    assert_eq!(report[0].endpoint, endpoints[0]);
    assert_eq!(report[1].endpoint, endpoints[1]);
}
