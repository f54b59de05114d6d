use nostr_bridge::rules::{
    add_rule_payload, delete_payload_for_identity, delete_rules_payload, extract_rules,
    find_rule_id, make_rule_tag, Rule,
};

fn sample_rules() -> Vec<Rule> {
    vec![
        Rule {
            id: "a".to_string(),
            value: "from:greg".to_string(),
            tag: "from greg".to_string(),
        },
        Rule {
            id: "b".to_string(),
            value: "from:alec".to_string(),
            tag: "from alec".to_string(),
        },
    ]
}

#[test]
fn tag_convention() {
    assert_eq!(make_rule_tag("alecchendev"), "from alecchendev");
    assert_eq!(make_rule_tag(""), "from ");
}

#[test]
fn deleting_by_identity_selects_only_that_rule() {
    let rules = sample_rules();
    assert_eq!(find_rule_id(&rules, "greg"), Some("a".to_string()));
    assert_eq!(find_rule_id(&rules, "alec"), Some("b".to_string()));
    let payload = delete_payload_for_identity(&rules, "greg").unwrap();
    assert_eq!(String::from_utf8(payload).unwrap(), r#"{"delete":{"ids":["a"]}}"#);
}

#[test]
fn unknown_identity_selects_nothing() {
    let rules = sample_rules();
    assert_eq!(find_rule_id(&rules, "nobody"), None);
    assert!(delete_payload_for_identity(&rules, "nobody").is_none());
}

#[test]
fn first_matching_rule_wins() {
    let mut rules = sample_rules();
    rules.push(Rule {
        id: "c".to_string(),
        value: "from:greg".to_string(),
        tag: "from greg".to_string(),
    });
    assert_eq!(find_rule_id(&rules, "greg"), Some("a".to_string()));
}

#[test]
fn add_rule_payload_exact() {
    let payload = add_rule_payload("alecchendev");
    assert_eq!(
        String::from_utf8(payload).unwrap(),
        r#"{"add":[{"value":"from:alecchendev","tag":"from alecchendev"}]}"#
    );
}

#[test]
fn delete_rules_payload_exact() {
    let ids = vec!["1611155413902180354".to_string(), "x".to_string()];
    let payload = delete_rules_payload(&ids);
    assert_eq!(
        String::from_utf8(payload).unwrap(),
        r#"{"delete":{"ids":["1611155413902180354","x"]}}"#
    );
}

#[test]
fn rules_parse_from_response_body() {
    let body =
        br#"{"data":[{"id":"a","value":"from:greg","tag":"from greg"},{"id":"b","value":"from:alec","tag":"from alec"}],"meta":{"sent":"now"}}"#
            .to_vec();
    let rules = extract_rules(&body).expect("well-formed body");
    assert_eq!(rules.len(), 2);
    assert_eq!(rules[0].id, "a");
    assert_eq!(rules[0].value, "from:greg");
    assert_eq!(rules[0].tag, "from greg");
    assert_eq!(rules[1].id, "b");
}

#[test]
fn bodies_without_rules_parse_to_nothing() {
    assert!(extract_rules(&b"not json".to_vec()).is_none());
    assert!(extract_rules(&br#"{"meta":{}}"#.to_vec()).is_none());
    assert!(extract_rules(&br#"{"data":[{"id":"a"}]}"#.to_vec()).is_none());
}

#[test]
fn parsed_rules_feed_selection_end_to_end() {
    let body = br#"{"data":[{"id":"a","value":"from:greg","tag":"from greg"},{"id":"b","value":"from:alec","tag":"from alec"}]}"#
        .to_vec();
    let rules = extract_rules(&body).unwrap();
    let payload = delete_payload_for_identity(&rules, "greg").unwrap();
    assert_eq!(String::from_utf8(payload).unwrap(), r#"{"delete":{"ids":["a"]}}"#);
}
