use nostr_bridge::config::{env_get, parse_env, parse_relay_list};

#[test]
fn credential_file_parses() {
    let contents = "API_KEY=SECRET-REDACTED\nBEARER_TOKEN=tok\nPRIVATE_KEY=nsec1xyz\n";
    let entries = parse_env(contents).expect("well-formed file");
    assert_eq!(entries.len(), 3);
    assert_eq!(entries[0], ("API_KEY".to_string(), "SECRET-REDACTED".to_string()));
    assert_eq!(env_get(&entries, &"BEARER_TOKEN".to_string()), Some("tok".to_string()));
    assert_eq!(env_get(&entries, &"PRIVATE_KEY".to_string()), Some("nsec1xyz".to_string()));
    assert_eq!(env_get(&entries, &"MISSING".to_string()), None);
}

#[test]
fn value_may_contain_the_separator() {
    let entries = parse_env("KEY=a=b=c").unwrap();
    assert_eq!(entries, vec![("KEY".to_string(), "a=b=c".to_string())]);
}

#[test]
fn malformed_line_is_rejected() {
    assert!(parse_env("API_KEY=x\nno separator here\n").is_err());
    assert!(parse_env("API_KEY=x\n\nB=y\n").is_err());
}

#[test]
fn carriage_returns_are_stripped() {
    let entries = parse_env("A=1\r\nB=2\r\n").unwrap();
    assert_eq!(
        entries,
        vec![("A".to_string(), "1".to_string()), ("B".to_string(), "2".to_string())]
    );
}

#[test]
fn empty_credential_file_parses_to_nothing() {
    assert_eq!(parse_env("").unwrap(), Vec::new());
}

#[test]
fn relay_list_parses_line_per_endpoint() {
    let relays = parse_relay_list("wss://a.example\nwss://b.example\n");
    assert_eq!(relays, vec!["wss://a.example".to_string(), "wss://b.example".to_string()]);
}

#[test]
fn relay_list_without_trailing_newline() {
    let relays = parse_relay_list("wss://a.example\nwss://b.example");
    assert_eq!(relays, vec!["wss://a.example".to_string(), "wss://b.example".to_string()]);
}

#[test]
fn empty_relay_list_is_empty() {
    assert_eq!(parse_relay_list(""), Vec::<String>::new());
}

#[test]
fn last_entry_wins_on_duplicate_keys() {
    let entries = parse_env("K=first\nK=second\n").unwrap();
    assert_eq!(env_get(&entries, &"K".to_string()), Some("second".to_string()));
}

#[test]
fn final_line_without_newline_keeps_its_carriage_return() {
    let relays = parse_relay_list("wss://a.example\nwss://b.example\r");
    assert_eq!(relays, vec!["wss://a.example".to_string(), "wss://b.example\r".to_string()]);
}
