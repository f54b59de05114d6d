use nostr_bridge::crypto::Keypair;
use nostr_bridge::event::{
    build_and_sign, canonical_event_bytes, event_frame_bytes, UnsignedEvent, KIND_TEXT_NOTE,
};
use sha2::Digest;

const SECRET_HEX: &str = "0101010101010101010101010101010101010101010101010101010101010101";

fn test_keypair() -> Keypair {
    Keypair::load_hex(SECRET_HEX).expect("valid hex secret")
}

fn hex_of(bytes: &[u8]) -> String {
    bytes.iter().map(|b| format!("{:02x}", b)).collect()
}

#[test]
fn canonical_encoding_exact() {
    let author: String = "ab".repeat(32);
    let e = UnsignedEvent {
        author_hex: author.clone(),
        created_at: 1700000000,
        kind: 1,
        tags: Vec::new(),
        content: "Hello, nostr!".to_string(),
    };
    let bytes = canonical_event_bytes(&e);
    let expected = format!("[0,\"{}\",1700000000,1,[],\"Hello, nostr!\"]", author);
    assert_eq!(String::from_utf8(bytes).unwrap(), expected);
}

#[test]
fn canonical_encoding_escapes_strings() {
    let author: String = "00".repeat(32);
    let e = UnsignedEvent {
        author_hex: author.clone(),
        created_at: 0,
        kind: 30023,
        tags: Vec::new(),
        content: "a\"b\\c\nd\te\u{1}".to_string(),
    };
    let bytes = canonical_event_bytes(&e);
    let expected = format!("[0,\"{}\",0,30023,[],\"a\\\"b\\\\c\\nd\\te\\u0001\"]", author);
    assert_eq!(String::from_utf8(bytes).unwrap(), expected);
}

#[test]
fn canonical_encoding_renders_tags() {
    let author: String = "00".repeat(32);
    let e = UnsignedEvent {
        author_hex: author.clone(),
        created_at: 7,
        kind: 1,
        tags: vec![
            vec!["e".to_string(), "abc".to_string()],
            vec!["p".to_string()],
        ],
        content: "x".to_string(),
    };
    let bytes = canonical_event_bytes(&e);
    let expected = format!("[0,\"{}\",7,1,[[\"e\",\"abc\"],[\"p\"]],\"x\"]", author);
    assert_eq!(String::from_utf8(bytes).unwrap(), expected);
}

#[test]
fn id_is_sha256_of_canonical() {
    let kp = test_keypair();
    let se = build_and_sign(&kp, 1700000000, KIND_TEXT_NOTE, "hello").expect("signing works");
    let canonical = canonical_event_bytes(&se.event);
    let digest = sha2::Sha256::digest(&canonical);
    assert_eq!(se.id_hex, hex_of(&digest));
}

#[test]
fn id_deterministic_across_runs() {
    let kp = test_keypair();
    let a = build_and_sign(&kp, 1700000000, KIND_TEXT_NOTE, "same text").unwrap();
    let b = build_and_sign(&kp, 1700000000, KIND_TEXT_NOTE, "same text").unwrap();
    assert_eq!(a.id_hex, b.id_hex);
    assert_eq!(a.event.author_hex, b.event.author_hex);
    assert_eq!(a.sig_hex, b.sig_hex);
}

#[test]
fn signature_verifies_against_author_and_canonical() {
    let kp = test_keypair();
    let se = build_and_sign(&kp, 1700000000, KIND_TEXT_NOTE, "verify me").unwrap();
    let canonical = canonical_event_bytes(&se.event);
    let pk = nostr_types::PublicKey::try_from_hex_string(&se.event.author_hex).unwrap();
    let sig = nostr_types::Signature::try_from_hex_string(&se.sig_hex).unwrap();
    assert!(pk.verify(&canonical, sig).is_ok());
}

#[test]
fn changing_content_changes_id() {
    let kp = test_keypair();
    let a = build_and_sign(&kp, 1700000000, KIND_TEXT_NOTE, "text one").unwrap();
    let b = build_and_sign(&kp, 1700000000, KIND_TEXT_NOTE, "text two").unwrap();
    assert_ne!(a.id_hex, b.id_hex);
}

#[test]
fn changing_created_at_changes_id() {
    let kp = test_keypair();
    let a = build_and_sign(&kp, 1700000000, KIND_TEXT_NOTE, "same").unwrap();
    let b = build_and_sign(&kp, 1700000001, KIND_TEXT_NOTE, "same").unwrap();
    assert_ne!(a.id_hex, b.id_hex);
}

#[test]
fn changing_kind_changes_id() {
    let kp = test_keypair();
    let a = build_and_sign(&kp, 1700000000, 1, "same").unwrap();
    let b = build_and_sign(&kp, 1700000000, 2, "same").unwrap();
    assert_ne!(a.id_hex, b.id_hex);
}

#[test]
fn load_accepts_bech32_and_rejects_garbage() {
    let mut generated = nostr_types::PrivateKey::generate();
    let bech32 = generated.try_as_bech32_string().unwrap();
    let kp = Keypair::load(&bech32).expect("generated key loads");
    assert_eq!(kp.public_identifier().len(), 64);
    assert!(Keypair::load("not a key").is_err());
    assert!(Keypair::load_hex("zz").is_err());
}

#[test]
fn public_identifier_matches_secret() {
    let kp = test_keypair();
    let sk = nostr_types::PrivateKey::try_from_hex_string(SECRET_HEX).unwrap();
    assert_eq!(kp.public_identifier(), sk.public_key().as_hex_string());
}

#[test]
fn frame_round_trips_through_json() {
    let kp = test_keypair();
    let se = build_and_sign(&kp, 1700000000, KIND_TEXT_NOTE, "Hello, nostr!").unwrap();
    let frame = event_frame_bytes(&se);
    let text = String::from_utf8(frame).unwrap();
    let v: serde_json::Value = serde_json::from_str(&text).unwrap();
    let arr = v.as_array().unwrap();
    assert_eq!(arr.len(), 2);
    assert_eq!(arr[0].as_str().unwrap(), "EVENT");
    let ev = &arr[1];
    assert_eq!(ev["id"].as_str().unwrap(), se.id_hex);
    assert_eq!(ev["pubkey"].as_str().unwrap(), kp.public_identifier());
    assert_eq!(ev["created_at"].as_u64().unwrap(), 1700000000);
    assert_eq!(ev["kind"].as_u64().unwrap(), KIND_TEXT_NOTE as u64);
    assert_eq!(ev["tags"].as_array().unwrap().len(), 0);
    assert_eq!(ev["content"].as_str().unwrap(), "Hello, nostr!");
    assert_eq!(ev["sig"].as_str().unwrap(), se.sig_hex);
    let canonical = canonical_event_bytes(&se.event);
    let pk = nostr_types::PublicKey::try_from_hex_string(ev["pubkey"].as_str().unwrap()).unwrap();
    let sig = nostr_types::Signature::try_from_hex_string(ev["sig"].as_str().unwrap()).unwrap();
    assert!(pk.verify(&canonical, sig).is_ok());
}

#[test]
fn frame_escapes_content() {
    let kp = test_keypair();
    let se = build_and_sign(&kp, 5, KIND_TEXT_NOTE, "line\nbreak \"quoted\"").unwrap();
    let frame = event_frame_bytes(&se);
    let text = String::from_utf8(frame).unwrap();
    let v: serde_json::Value = serde_json::from_str(&text).unwrap();
    assert_eq!(v[1]["content"].as_str().unwrap(), "line\nbreak \"quoted\"");
}

#[test]
fn clock_stamped_note_is_well_formed() {
    let kp = test_keypair();
    let se = nostr_bridge::event::build_and_sign_now(&kp, KIND_TEXT_NOTE, "Hello, nostr!").unwrap();
    assert_eq!(se.event.kind, KIND_TEXT_NOTE);
    assert!(se.event.tags.is_empty());
    assert_eq!(se.event.content, "Hello, nostr!");
    let canonical = canonical_event_bytes(&se.event);
    let pk = nostr_types::PublicKey::try_from_hex_string(&se.event.author_hex).unwrap();
    let sig = nostr_types::Signature::try_from_hex_string(&se.sig_hex).unwrap();
    assert!(pk.verify(&canonical, sig).is_ok());
}
