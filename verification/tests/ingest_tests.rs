use nostr_bridge::ingest::{
    classify_chunk, ingest_step, is_blank_chunk, process_chunks, ChunkOutcome, IngestAction,
    IngestEvent, IngestState,
};

#[test]
fn blank_chunks_are_heartbeats() {
    assert!(is_blank_chunk(&b"  \n".to_vec()));
    assert!(is_blank_chunk(&b"\r\n".to_vec()));
    assert!(is_blank_chunk(&b"".to_vec()));
    assert!(!is_blank_chunk(&b" x ".to_vec()));
    assert!(matches!(classify_chunk(&b"  \n".to_vec()), ChunkOutcome::Heartbeat));
}

#[test]
fn unicode_whitespace_is_a_heartbeat() {
    let chunk = " \u{a0}\u{2003}\u{3000}\n".as_bytes().to_vec();
    assert!(is_blank_chunk(&chunk));
    assert!(matches!(classify_chunk(&chunk), ChunkOutcome::Heartbeat));
    assert!(!is_blank_chunk(&"\u{a0}x".as_bytes().to_vec()));
    assert!(!is_blank_chunk(&b"\xff\xfe".to_vec()));
}

#[test]
fn well_formed_record_is_dispatched() {
    let chunk = br#"{"data":{"id":"1","text":"hello"}}"#.to_vec();
    match classify_chunk(&chunk) {
        ChunkOutcome::Dispatch { id, text } => {
            assert_eq!(id, "1");
            assert_eq!(text, "hello");
        },
        _ => panic!("expected a dispatch"),
    }
}

#[test]
fn record_with_extra_fields_is_dispatched() {
    let chunk =
        br#"{"data":{"edit_history_tweet_ids":["9"],"id":"42","text":"hi"},"matching_rules":[]}"#
            .to_vec();
    match classify_chunk(&chunk) {
        ChunkOutcome::Dispatch { id, text } => {
            assert_eq!(id, "42");
            assert_eq!(text, "hi");
        },
        _ => panic!("expected a dispatch"),
    }
}

#[test]
fn missing_text_is_a_parse_failure() {
    let chunk = br#"{"data":{"id":"2"}}"#.to_vec();
    assert!(matches!(classify_chunk(&chunk), ChunkOutcome::ParseFailure));
}

#[test]
fn malformed_json_is_a_parse_failure() {
    assert!(matches!(classify_chunk(&b"{not json".to_vec()), ChunkOutcome::ParseFailure));
    assert!(matches!(classify_chunk(&b"\xff\xfe".to_vec()), ChunkOutcome::ParseFailure));
}

#[test]
fn mixed_body_dispatches_once_and_fails_once() {
    let chunks: Vec<Vec<u8>> = vec![
        b"  \n".to_vec(),
        br#"{"data":{"id":"1","text":"hello"}}"#.to_vec(),
        b"\n".to_vec(),
        br#"{"data":{"id":"2"}}"#.to_vec(),
    ];
    let summary = process_chunks(chunks.clone());
    assert_eq!(summary.dispatched, vec![("1".to_string(), "hello".to_string())]);
    assert_eq!(summary.failures, vec![chunks[3].clone()]);
}

#[test]
fn empty_body_produces_nothing() {
    let summary = process_chunks(Vec::new());
    assert!(summary.dispatched.is_empty());
    assert!(summary.failures.is_empty());
}

#[test]
fn connecting_transitions_on_status() {
    let (s, a) = ingest_step(IngestState::Connecting, IngestEvent::StatusSuccess);
    assert_eq!(s, IngestState::Streaming);
    assert!(matches!(a, IngestAction::Nothing));
    let (s, a) = ingest_step(IngestState::Connecting, IngestEvent::StatusFailure);
    assert_eq!(s, IngestState::Failed);
    assert!(matches!(a, IngestAction::Nothing));
    let (s, _) = ingest_step(IngestState::Connecting, IngestEvent::TransportError);
    assert_eq!(s, IngestState::Failed);
}

#[test]
fn streaming_survives_record_failures() {
    let (s, a) = ingest_step(
        IngestState::Streaming,
        IngestEvent::Chunk(br#"{"data":{"id":"2"}}"#.to_vec()),
    );
    assert_eq!(s, IngestState::Streaming);
    match a {
        IngestAction::LogParseFailure(raw) => assert_eq!(raw, br#"{"data":{"id":"2"}}"#.to_vec()),
        _ => panic!("expected a logged parse failure"),
    }
}

#[test]
fn streaming_dispatches_records_and_skips_heartbeats() {
    let (s, a) = ingest_step(
        IngestState::Streaming,
        IngestEvent::Chunk(br#"{"data":{"id":"7","text":"t"}}"#.to_vec()),
    );
    assert_eq!(s, IngestState::Streaming);
    match a {
        IngestAction::Dispatch { id, text } => {
            assert_eq!(id, "7");
            assert_eq!(text, "t");
        },
        _ => panic!("expected a dispatch"),
    }
    let (s, a) = ingest_step(IngestState::Streaming, IngestEvent::Chunk(b" \n".to_vec()));
    assert_eq!(s, IngestState::Streaming);
    assert!(matches!(a, IngestAction::Nothing));
}

#[test]
fn streaming_ends_and_fails_cleanly() {
    let (s, _) = ingest_step(IngestState::Streaming, IngestEvent::BodyEnd);
    assert_eq!(s, IngestState::Ended);
    let (s, _) = ingest_step(IngestState::Streaming, IngestEvent::TransportError);
    assert_eq!(s, IngestState::Failed);
}

#[test]
fn terminal_states_absorb_events() {
    let (s, a) = ingest_step(IngestState::Ended, IngestEvent::Chunk(b"x".to_vec()));
    assert_eq!(s, IngestState::Ended);
    assert!(matches!(a, IngestAction::Nothing));
    let (s, a) = ingest_step(IngestState::Failed, IngestEvent::StatusSuccess);
    assert_eq!(s, IngestState::Failed);
    assert!(matches!(a, IngestAction::Nothing));
}
