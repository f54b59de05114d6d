//! Stream ingestion: classifying the chunks of the upstream body and the
//! state machine driving one upstream connection.
//!
//! Each chunk of the newline-delimited upstream body is either
//! whitespace-only text (a heartbeat, discarded), a well-formed JSON record
//! carrying `data.id` and `data.text` (dispatched), or malformed (a
//! per-record failure: logged with the offending chunk and skipped, never
//! terminating the stream). Reading the body is I/O and stays with the
//! caller, which feeds each event to `ingest_step`.

use vstd::prelude::*;
use vstd::string::StrSliceExecFns;
use vstd::utf8::{decode_utf8, encode_utf8, encode_utf8_decode_utf8, valid_utf8};

verus! {

/// A character with the Unicode `White_Space` property, the set
/// documented for `char::is_whitespace`.
pub open spec fn is_unicode_space(c: char) -> bool {
    let u = c as u32;
    u == 0x20 || (0x09 <= u && u <= 0x0d) || u == 0x85 || u == 0xa0 || u == 0x1680 || (0x2000 <= u
        && u <= 0x200a) || u == 0x2028 || u == 0x2029 || u == 0x202f || u == 0x205f || u == 0x3000
}

/// An upstream heartbeat: the chunk is UTF-8 text made of whitespace
/// alone (trimming it leaves nothing). Bytes that are not UTF-8 are no
/// heartbeat.
pub open spec fn blank_chunk(bytes: Seq<u8>) -> bool {
    valid_utf8(bytes) && (forall|i: int|
        0 <= i < decode_utf8(bytes).len() ==> is_unicode_space(#[trigger] decode_utf8(bytes)[i]))
}

/// Relies on `String::from_utf8`: succeeds exactly on valid UTF-8 and
/// returns the text those bytes encode (the identification of validity
/// and decoding with `valid_utf8`/`encode_utf8` is the one vstd itself
/// makes for `str::from_utf8_unchecked`).
#[verifier::external_body]
fn utf8_text(v: &Vec<u8>) -> (r: Option<String>)
    ensures
        r is Some <==> valid_utf8(v@),
        r matches Some(s) ==> encode_utf8(s@) == v@,
{
    String::from_utf8(v.clone()).ok()
}

/// Relies on `char::is_whitespace`: true exactly on the characters with
/// the Unicode `White_Space` property, the set `is_unicode_space` writes
/// out from its documentation.
#[verifier::external_body]
fn char_is_space(c: char) -> (r: bool)
    ensures
        r == is_unicode_space(c),
{
    c.is_whitespace()
}

/// Decide whether a chunk is whitespace-only text (a heartbeat).
pub fn is_blank_chunk(chunk: &Vec<u8>) -> (r: bool)
    ensures
        r == blank_chunk(chunk@),
{
    let text = match utf8_text(chunk) {
        Some(t) => t,
        None => {
            return false;
        },
    };
    proof {
        encode_utf8_decode_utf8(text@);
    }
    let n = text.as_str().unicode_len();
    let mut i: usize = 0;
    while i < n
        invariant
            i <= n,
            n == text@.len(),
            valid_utf8(chunk@),
            decode_utf8(chunk@) == text@,
            forall|j: int| 0 <= j < i ==> is_unicode_space(#[trigger] text@[j]),
        decreases n - i,
    {
        if !char_is_space(text.as_str().get_char(i)) {
            return false;
        }
        i += 1;
    }
    true
}

/// The record a chunk decodes to: the `data.id` and `data.text` fields of
/// its JSON object, or nothing when the chunk is not a single well-formed
/// object carrying both. The full JSON grammar is far too involved to
/// state here; the name pins that the outcome depends on the bytes alone.
pub uninterp spec fn record_of(chunk: Seq<u8>) -> Option<(Seq<char>, Seq<char>)>;

/// Relies on `serde_json::from_slice::<Value>`, `Value`'s `Index<&str>`
/// (which yields `Null` for a missing key) and `Value::as_str`: decodes
/// one JSON object and projects its `data.id` and `data.text` string
/// fields, a function of the chunk bytes alone.
#[verifier::external_body]
fn extract_record(chunk: &Vec<u8>) -> (r: Option<(String, String)>)
    ensures
        r.deep_view() == record_of(chunk@),
{
    let v: serde_json::Value = match serde_json::from_slice(chunk.as_slice()) {
        Ok(v) => v,
        Err(_) => return None,
    };
    let data = &v["data"];
    match (data["id"].as_str(), data["text"].as_str()) {
        (Some(id), Some(text)) => Some((id.to_string(), text.to_string())),
        _ => None,
    }
}

/// A chunk carries a record to dispatch: it is not a heartbeat and it
/// decodes.
pub open spec fn is_dispatch(c: Seq<u8>) -> bool {
    !blank_chunk(c) && record_of(c) is Some
}

/// A chunk is a per-record failure: neither heartbeat nor decodable.
pub open spec fn is_failure(c: Seq<u8>) -> bool {
    !blank_chunk(c) && record_of(c) is None
}

/// What one chunk means for the stream.
pub enum ChunkOutcome {
    /// Whitespace-only: discard, remain streaming.
    Heartbeat,
    /// A well-formed record: hand `id` and `text` to a handling task.
    Dispatch { id: String, text: String },
    /// Malformed or incomplete: log and discard this record only.
    ParseFailure,
}

/// Classify one chunk of the upstream body.
pub fn classify_chunk(chunk: &Vec<u8>) -> (r: ChunkOutcome)
    ensures
        blank_chunk(chunk@) ==> r is Heartbeat,
        is_dispatch(chunk@) ==> (r matches ChunkOutcome::Dispatch { id, text }
            && record_of(chunk@) == Some((id@, text@))),
        is_failure(chunk@) ==> r is ParseFailure,
{
    if is_blank_chunk(chunk) {
        return ChunkOutcome::Heartbeat;
    }
    match extract_record(chunk) {
        Some(p) => ChunkOutcome::Dispatch { id: p.0, text: p.1 },
        None => ChunkOutcome::ParseFailure,
    }
}

/// Where one upstream connection stands.
#[derive(Clone, Copy, Debug, PartialEq, Eq, Structural)]
pub enum IngestState {
    /// The streaming request is being issued.
    Connecting,
    /// The body is open; chunks arrive.
    Streaming,
    /// The body was exhausted; the ingester stopped cleanly.
    Ended,
    /// A non-success status or a transport error; the ingester stopped.
    Failed,
}

/// One observation from the outside: the response status, a body chunk,
/// the body's end, or a transport error.
pub enum IngestEvent {
    StatusSuccess,
    StatusFailure,
    Chunk(Vec<u8>),
    BodyEnd,
    TransportError,
}

/// What the caller must do after one step: nothing, launch one
/// independent handling task for a record, or log one parse failure with
/// the offending chunk.
pub enum IngestAction {
    Nothing,
    Dispatch { id: String, text: String },
    LogParseFailure(Vec<u8>),
}

/// The action owed for one chunk: nothing for a heartbeat, one dispatch
/// for a well-formed record, one logged failure otherwise.
pub open spec fn chunk_action_ok(c: Seq<u8>, action: IngestAction) -> bool {
    if blank_chunk(c) {
        action is Nothing
    } else {
        match record_of(c) {
            Some(rec) => action matches IngestAction::Dispatch { id, text } && (id@, text@) == rec,
            None => action matches IngestAction::LogParseFailure(raw) && raw@ == c,
        }
    }
}

/// The transition relation of the ingester, one observed event at a time.
/// A record failure never leaves the Streaming state: only the body's end
/// or a transport error stops the ingester. Terminal states absorb every
/// event; an event that cannot occur in a state is ignored.
pub open spec fn valid_step(
    state: IngestState,
    event: IngestEvent,
    next: IngestState,
    action: IngestAction,
) -> bool {
    match (state, event) {
        (IngestState::Connecting, IngestEvent::StatusSuccess) => next is Streaming
            && action is Nothing,
        (IngestState::Connecting, IngestEvent::StatusFailure) => next is Failed
            && action is Nothing,
        (IngestState::Connecting, IngestEvent::TransportError) => next is Failed
            && action is Nothing,
        (IngestState::Streaming, IngestEvent::Chunk(c)) => next is Streaming && chunk_action_ok(
            c@,
            action,
        ),
        (IngestState::Streaming, IngestEvent::BodyEnd) => next is Ended && action is Nothing,
        (IngestState::Streaming, IngestEvent::TransportError) => next is Failed
            && action is Nothing,
        _ => next == state && action is Nothing,
    }
}

/// Advance the ingester by one observed event.
pub fn ingest_step(state: IngestState, event: IngestEvent) -> (r: (IngestState, IngestAction))
    ensures
        valid_step(state, event, r.0, r.1),
{
    match (state, event) {
        (IngestState::Connecting, IngestEvent::StatusSuccess) => (
            IngestState::Streaming,
            IngestAction::Nothing,
        ),
        (IngestState::Connecting, IngestEvent::StatusFailure) => (
            IngestState::Failed,
            IngestAction::Nothing,
        ),
        (IngestState::Connecting, IngestEvent::TransportError) => (
            IngestState::Failed,
            IngestAction::Nothing,
        ),
        (IngestState::Streaming, IngestEvent::Chunk(c)) => {
            match classify_chunk(&c) {
                ChunkOutcome::Heartbeat => (IngestState::Streaming, IngestAction::Nothing),
                ChunkOutcome::Dispatch { id, text } => (
                    IngestState::Streaming,
                    IngestAction::Dispatch { id, text },
                ),
                ChunkOutcome::ParseFailure => (
                    IngestState::Streaming,
                    IngestAction::LogParseFailure(c),
                ),
            }
        },
        (IngestState::Streaming, IngestEvent::BodyEnd) => (
            IngestState::Ended,
            IngestAction::Nothing,
        ),
        (IngestState::Streaming, IngestEvent::TransportError) => (
            IngestState::Failed,
            IngestAction::Nothing,
        ),
        (s, _) => (s, IngestAction::Nothing),
    }
}

/// The records dispatched over a whole body, in arrival order.
pub open spec fn dispatched_of(chunks: Seq<Seq<u8>>) -> Seq<(Seq<char>, Seq<char>)>
    decreases chunks.len(),
{
    if chunks.len() == 0 {
        Seq::empty()
    } else if is_dispatch(chunks.last()) {
        dispatched_of(chunks.drop_last()).push(record_of(chunks.last()).unwrap())
    } else {
        dispatched_of(chunks.drop_last())
    }
}

/// The chunks that failed to parse over a whole body, in arrival order.
pub open spec fn failures_of(chunks: Seq<Seq<u8>>) -> Seq<Seq<u8>>
    decreases chunks.len(),
{
    if chunks.len() == 0 {
        Seq::empty()
    } else if is_failure(chunks.last()) {
        failures_of(chunks.drop_last()).push(chunks.last())
    } else {
        failures_of(chunks.drop_last())
    }
}

/// What a whole body produced: the records to hand to handling tasks and
/// the chunks whose parse failed, both in arrival order.
pub struct IngestSummary {
    pub dispatched: Vec<(String, String)>,
    pub failures: Vec<Vec<u8>>,
}

/// Run the Streaming state over an entire body given as its chunks.
/// Exactly the non-blank decodable chunks are dispatched and exactly the
/// non-blank undecodable ones are reported failed; the loop always reaches
/// the body's end.
pub fn process_chunks(chunks: Vec<Vec<u8>>) -> (r: IngestSummary)
    ensures
        r.dispatched.deep_view() == dispatched_of(chunks.deep_view()),
        r.failures.deep_view() == failures_of(chunks.deep_view()),
{
    let ghost cview = chunks.deep_view();
    let mut rem = chunks;
    let mut dispatched: Vec<(String, String)> = Vec::new();
    let mut failures: Vec<Vec<u8>> = Vec::new();
    let ghost mut done: int = 0;
    while rem.len() != 0
        invariant
            0 <= done <= cview.len(),
            rem.deep_view() =~= cview.skip(done),
            dispatched.deep_view() =~= dispatched_of(cview.take(done)),
            failures.deep_view() =~= failures_of(cview.take(done)),
        decreases rem@.len(),
    {
        let chunk = rem.remove(0);
        proof {
            assert(rem.deep_view() =~= cview.skip(done).skip(1));
            assert(cview.skip(done).skip(1) =~= cview.skip(done + 1));
            assert(chunk@ == cview.skip(done)[0]);
            assert(chunk@ == cview[done]);
        }
        match classify_chunk(&chunk) {
            ChunkOutcome::Heartbeat => {
                proof {
                    lemma_summary_step(cview, done);
                }
            },
            ChunkOutcome::Dispatch { id, text } => {
                dispatched.push((id, text));
                proof {
                    lemma_summary_step(cview, done);
                }
            },
            ChunkOutcome::ParseFailure => {
                failures.push(chunk);
                proof {
                    lemma_summary_step(cview, done);
                }
            },
        }
        proof {
            done = done + 1;
        }
    }
    proof {
        assert(cview.take(cview.len() as int) =~= cview);
    }
    IngestSummary { dispatched, failures }
}

/// Unfolding step: one more chunk extends the dispatch list exactly when
/// it is a record, and the failure list exactly when it is a failure.
proof fn lemma_summary_step(chunks: Seq<Seq<u8>>, i: int)
    requires
        0 <= i < chunks.len(),
    ensures
        dispatched_of(chunks.take(i + 1)) == if is_dispatch(chunks[i]) {
            dispatched_of(chunks.take(i)).push(record_of(chunks[i]).unwrap())
        } else {
            dispatched_of(chunks.take(i))
        },
        failures_of(chunks.take(i + 1)) == if is_failure(chunks[i]) {
            failures_of(chunks.take(i)).push(chunks[i])
        } else {
            failures_of(chunks.take(i))
        },
{
    let p = chunks.take(i + 1);
    assert(p.len() == i + 1);
    assert(p.drop_last() =~= chunks.take(i));
    assert(p.last() == chunks[i]);
}

} // verus!
