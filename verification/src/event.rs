//! Event construction and signing.
//!
//! An unsigned event is turned into a canonical byte encoding — a fixed
//! JSON array `[0,author,created_at,kind,tags,content]` with a fixed field
//! order and full string escaping — whose SHA-256 digest is the event's
//! content-addressed identifier. The encoding is proved unambiguous: two
//! events differing in content, timestamp or kind encode to different
//! bytes, so distinct identifiers are delegated solely to the hash.

use crate::crypto::{
    is_hex_seq, sha256, sha256_of, sig_ok, sign_outcome_of, verify_payload, Keypair,
};
use crate::json::{
    dec_digits, escape_bytes, hex_digit, json_string_bytes, lemma_dec_digits_injective,
    lemma_escape_bytes_injective, push_bytes, push_dec_u64, push_json_string,
};
use vstd::prelude::*;
use vstd::string::StrSliceExecFns;
use vstd::utf8::{encode_utf8, encode_utf8_decode_utf8};

verus! {

/// Event kind for a plain text note.
pub const KIND_TEXT_NOTE: u32 = 1;

/// The JSON string literal encoding a character sequence: quoted, UTF-8
/// encoded, escaped.
pub open spec fn json_text(s: Seq<char>) -> Seq<u8> {
    json_string_bytes(encode_utf8(s))
}

/// Comma-joined JSON string literals.
pub open spec fn joined_strings(items: Seq<Seq<char>>) -> Seq<u8>
    decreases items.len(),
{
    if items.len() == 0 {
        Seq::empty()
    } else if items.len() == 1 {
        json_text(items[0])
    } else {
        joined_strings(items.drop_last()) + seq![0x2cu8] + json_text(items.last())
    }
}

/// One tag: a JSON array of strings.
pub open spec fn tag_bytes(tag: Seq<Seq<char>>) -> Seq<u8> {
    seq![0x5bu8] + joined_strings(tag) + seq![0x5du8]
}

/// Comma-joined tag arrays.
pub open spec fn joined_tags(tags: Seq<Seq<Seq<char>>>) -> Seq<u8>
    decreases tags.len(),
{
    if tags.len() == 0 {
        Seq::empty()
    } else if tags.len() == 1 {
        tag_bytes(tags[0])
    } else {
        joined_tags(tags.drop_last()) + seq![0x2cu8] + tag_bytes(tags.last())
    }
}

/// The tag list: a JSON array of arrays of strings.
pub open spec fn tags_list_bytes(tags: Seq<Seq<Seq<char>>>) -> Seq<u8> {
    seq![0x5bu8] + joined_tags(tags) + seq![0x5du8]
}

/// The canonical byte encoding of the unsigned fields:
/// `[0,"author",created_at,kind,tags,"content"]`, compact, fixed field
/// order, every string escaped. Two implementations given identical inputs
/// produce identical bytes, and hence an identical identifier.
pub open spec fn canonical_bytes(
    author: Seq<char>,
    created_at: u64,
    kind: u32,
    tags: Seq<Seq<Seq<char>>>,
    content: Seq<char>,
) -> Seq<u8> {
    seq![0x5bu8, 0x30u8, 0x2cu8] + json_text(author) + seq![0x2cu8] + dec_digits(
        created_at as nat,
    ) + seq![0x2cu8] + dec_digits(kind as nat) + seq![0x2cu8] + tags_list_bytes(tags) + seq![
        0x2cu8,
    ] + json_text(content) + seq![0x5du8]
}

/// An event before hashing and signing. Never mutated once identifier
/// computation begins: the signing step takes it by value.
pub struct UnsignedEvent {
    /// Public identifier of the author, 64 lowercase hex characters.
    pub author_hex: String,
    /// Unix timestamp, seconds.
    pub created_at: u64,
    /// Small integer event kind.
    pub kind: u32,
    /// Ordered tag list (empty for plain text notes in this system).
    pub tags: Vec<Vec<String>>,
    /// UTF-8 text content.
    pub content: String,
}

impl UnsignedEvent {
    /// The author identifier has the width and alphabet of a rendered key.
    pub open spec fn wf(&self) -> bool {
        self.author_hex@.len() == 64 && is_hex_seq(self.author_hex@)
    }

    /// The canonical encoding of this event's fields.
    pub open spec fn canonical(&self) -> Seq<u8> {
        canonical_bytes(self.author_hex@, self.created_at, self.kind, self.tags.deep_view(), self.content@)
    }

    /// The content-derived identifier: the digest of the canonical bytes.
    pub open spec fn id_of(&self) -> Seq<u8> {
        sha256_of(self.canonical())
    }
}

/// Append the JSON string literal for `s` to `out`.
pub fn push_text(out: &mut Vec<u8>, s: &str)
    ensures
        final(out)@ == old(out)@ + json_text(s@),
{
    let bytes = s.as_bytes_vec();
    push_json_string(out, &bytes);
}

/// Unfolding step for `joined_strings` over a growing prefix.
pub(crate) proof fn lemma_joined_strings_step(items: Seq<Seq<char>>, i: int)
    requires
        0 <= i < items.len(),
    ensures
        i == 0 ==> joined_strings(items.take(1)) == json_text(items[0]),
        i > 0 ==> joined_strings(items.take(i + 1)) == joined_strings(items.take(i)) + seq![
            0x2cu8,
        ] + json_text(items[i]),
{
    let p = items.take(i + 1);
    assert(p.len() == i + 1);
    if i == 0 {
        assert(p[0] == items[0]);
    } else {
        assert(p.drop_last() =~= items.take(i));
        assert(p.last() == items[i]);
    }
}

/// Unfolding step for `joined_tags` over a growing prefix.
proof fn lemma_joined_tags_step(tags: Seq<Seq<Seq<char>>>, i: int)
    requires
        0 <= i < tags.len(),
    ensures
        i == 0 ==> joined_tags(tags.take(1)) == tag_bytes(tags[0]),
        i > 0 ==> joined_tags(tags.take(i + 1)) == joined_tags(tags.take(i)) + seq![0x2cu8]
            + tag_bytes(tags[i]),
{
    let p = tags.take(i + 1);
    assert(p.len() == i + 1);
    if i == 0 {
        assert(p[0] == tags[0]);
    } else {
        assert(p.drop_last() =~= tags.take(i));
        assert(p.last() == tags[i]);
    }
}

/// Append one tag (a JSON array of strings) to `out`.
pub fn push_tag(out: &mut Vec<u8>, tag: &Vec<String>)
    ensures
        final(out)@ == old(out)@ + tag_bytes(tag.deep_view()),
{
    let ghost items = tag.deep_view();
    out.push(0x5b);
    let mut i: usize = 0;
    while i < tag.len()
        invariant
            i <= tag@.len(),
            items == tag.deep_view(),
            items.len() == tag@.len(),
            out@ == old(out)@ + seq![0x5bu8] + joined_strings(items.take(i as int)),
        decreases tag@.len() - i,
    {
        if i > 0 {
            out.push(0x2c);
        }
        push_text(out, tag[i].as_str());
        proof {
            lemma_joined_strings_step(items, i as int);
            assert(items[i as int] == tag@[i as int]@);
            if i == 0 {
                assert(out@ =~= old(out)@ + seq![0x5bu8] + joined_strings(items.take(1)));
            } else {
                assert(out@ =~= old(out)@ + seq![0x5bu8] + joined_strings(
                    items.take(i + 1),
                ));
            }
        }
        i += 1;
    }
    out.push(0x5d);
    proof {
        assert(items.take(items.len() as int) =~= items);
        assert(out@ =~= old(out)@ + tag_bytes(items));
    }
}

/// Build the canonical encoding of an unsigned event.
pub fn canonical_event_bytes(e: &UnsignedEvent) -> (r: Vec<u8>)
    ensures
        r@ == e.canonical(),
{
    let ghost tags_view = e.tags.deep_view();
    let mut out: Vec<u8> = Vec::new();
    out.push(0x5b);
    out.push(0x30);
    out.push(0x2c);
    push_text(&mut out, e.author_hex.as_str());
    let ghost p1 = seq![0x5bu8, 0x30u8, 0x2cu8] + json_text(e.author_hex@);
    proof {
        assert(out@ =~= p1);
    }
    out.push(0x2c);
    push_dec_u64(&mut out, e.created_at);
    out.push(0x2c);
    push_dec_u64(&mut out, e.kind as u64);
    out.push(0x2c);
    let ghost p2 = p1 + seq![0x2cu8] + dec_digits(e.created_at as nat) + seq![0x2cu8]
        + dec_digits(e.kind as nat) + seq![0x2cu8];
    proof {
        assert(out@ =~= p2);
    }
    out.push(0x5b);
    let mut i: usize = 0;
    while i < e.tags.len()
        invariant
            i <= e.tags@.len(),
            tags_view == e.tags.deep_view(),
            tags_view.len() == e.tags@.len(),
            out@ == p2 + seq![0x5bu8] + joined_tags(tags_view.take(i as int)),
        decreases e.tags@.len() - i,
    {
        if i > 0 {
            out.push(0x2c);
        }
        push_tag(&mut out, &e.tags[i]);
        proof {
            lemma_joined_tags_step(tags_view, i as int);
            assert(tags_view[i as int] == e.tags@[i as int].deep_view());
            if i == 0 {
                assert(out@ =~= p2 + seq![0x5bu8] + joined_tags(tags_view.take(1)));
            } else {
                assert(out@ =~= p2 + seq![0x5bu8] + joined_tags(tags_view.take(i + 1)));
            }
        }
        i += 1;
    }
    out.push(0x5d);
    out.push(0x2c);
    proof {
        assert(tags_view.take(tags_view.len() as int) =~= tags_view);
        assert(out@ =~= p2 + tags_list_bytes(tags_view) + seq![0x2cu8]);
    }
    push_text(&mut out, e.content.as_str());
    out.push(0x5d);
    proof {
        assert(out@ =~= e.canonical());
    }
    out
}

/// Lowercase hex rendering of a byte sequence, as ASCII bytes.
pub open spec fn hex_ascii(bytes: Seq<u8>) -> Seq<u8>
    decreases bytes.len(),
{
    if bytes.len() == 0 {
        Seq::empty()
    } else {
        seq![hex_digit(bytes[0] / 16), hex_digit(bytes[0] % 16)] + hex_ascii(bytes.drop_first())
    }
}

/// Lowercase hex rendering of a byte sequence, as characters.
pub open spec fn hex_chars_of(bytes: Seq<u8>) -> Seq<char> {
    hex_ascii(bytes).map_values(|b: u8| b as char)
}

/// Unfolding step: one more byte appends its two hex digits.
proof fn lemma_hex_ascii_step(s: Seq<u8>, i: int)
    requires
        0 <= i < s.len(),
    ensures
        hex_ascii(s.take(i + 1)) == hex_ascii(s.take(i)) + seq![
            hex_digit(s[i] / 16),
            hex_digit(s[i] % 16),
        ],
    decreases i,
{
    if i == 0 {
        assert(s.take(1).drop_first() =~= Seq::<u8>::empty());
        assert(s.take(0) =~= Seq::<u8>::empty());
        assert(s.take(1)[0] == s[0]);
        assert(seq![hex_digit(s[0] / 16), hex_digit(s[0] % 16)] + Seq::<u8>::empty() =~= seq![
            hex_digit(s[0] / 16),
            hex_digit(s[0] % 16),
        ]);
        assert(hex_ascii(Seq::<u8>::empty()) + seq![hex_digit(s[0] / 16), hex_digit(s[0] % 16)]
            =~= seq![hex_digit(s[0] / 16), hex_digit(s[0] % 16)]);
    } else {
        let t = s.drop_first();
        lemma_hex_ascii_step(t, i - 1);
        assert(s.take(i + 1).drop_first() =~= t.take(i));
        assert(s.take(i).drop_first() =~= t.take(i - 1));
        assert(s.take(i + 1)[0] == s[0] && s.take(i)[0] == s[0]);
        assert(t[i - 1] == s[i]);
        let h = seq![hex_digit(s[0] / 16), hex_digit(s[0] % 16)];
        assert(hex_ascii(s.take(i + 1)) == h + hex_ascii(t.take(i)));
        assert(hex_ascii(s.take(i)) == h + hex_ascii(t.take(i - 1)));
        assert(h + (hex_ascii(t.take(i - 1)) + seq![hex_digit(s[i] / 16), hex_digit(s[i] % 16)])
            =~= (h + hex_ascii(t.take(i - 1))) + seq![hex_digit(s[i] / 16), hex_digit(s[i] % 16)]);
    }
}

/// Every hex digit byte is ASCII.
proof fn lemma_hex_ascii_range(s: Seq<u8>)
    ensures
        forall|i: int| 0 <= i < hex_ascii(s).len() ==> #[trigger] hex_ascii(s)[i] < 0x80,
        hex_ascii(s).len() == 2 * s.len(),
    decreases s.len(),
{
    if s.len() > 0 {
        lemma_hex_ascii_range(s.drop_first());
    }
}

/// Relies on `String::from_utf8`: ASCII bytes decode to exactly those
/// characters, one character per byte.
#[verifier::external_body]
fn ascii_string(v: Vec<u8>) -> (r: String)
    requires
        forall|i: int| 0 <= i < v@.len() ==> v@[i] < 0x80,
    ensures
        r@.len() == v@.len(),
        forall|i: int| 0 <= i < v@.len() ==> r@[i] == v@[i] as char,
{
    match String::from_utf8(v) {
        Ok(s) => s,
        Err(_) => String::new(),
    }
}

/// Render bytes as a lowercase hex string.
pub fn hex_string(bytes: &Vec<u8>) -> (r: String)
    ensures
        r@ == hex_chars_of(bytes@),
{
    let mut out: Vec<u8> = Vec::new();
    let mut i: usize = 0;
    while i < bytes.len()
        invariant
            i <= bytes@.len(),
            out@ == hex_ascii(bytes@.take(i as int)),
        decreases bytes@.len() - i,
    {
        let b = bytes[i];
        let hi = b / 16;
        let lo = b % 16;
        out.push(if hi < 10 { 0x30 + hi } else { 0x57 + hi });
        out.push(if lo < 10 { 0x30 + lo } else { 0x57 + lo });
        proof {
            lemma_hex_ascii_step(bytes@, i as int);
        }
        i += 1;
    }
    proof {
        assert(bytes@.take(bytes@.len() as int) =~= bytes@);
        lemma_hex_ascii_range(bytes@);
    }
    let r = ascii_string(out);
    proof {
        assert(r@ =~= hex_chars_of(bytes@));
    }
    r
}

/// Failure while hashing or signing: fatal to the one publish attempt.
#[derive(Clone, Copy, Debug, PartialEq, Eq, Structural)]
pub enum SigningError {
    /// The signing call itself reported failure.
    SignatureFailure,
    /// The produced signature did not verify against the author and the
    /// canonical bytes: an internal-consistency failure, so the event is
    /// withheld rather than sent.
    VerificationFailed,
}

/// A signed event: the unsigned fields plus the content-derived
/// identifier and the signature, both hex-rendered. Immutable once
/// constructed; one instance is broadcast to all relays unchanged.
pub struct SignedEvent {
    /// The unsigned fields, exactly as hashed and signed.
    pub event: UnsignedEvent,
    /// Hex rendering of the SHA-256 digest of the canonical bytes.
    pub id_hex: String,
    /// Hex rendering of the Schnorr signature over the identifier.
    pub sig_hex: String,
}

impl SignedEvent {
    /// The identifier is exactly the digest of the canonical bytes, and
    /// the signature verifies against the author and those bytes.
    pub open spec fn wf(&self) -> bool {
        &&& self.event.wf()
        &&& self.id_hex@ == hex_chars_of(self.event.id_of())
        &&& self.sig_hex@.len() == 128 && is_hex_seq(self.sig_hex@)
        &&& sig_ok(self.event.author_hex@, self.event.canonical(), self.sig_hex@)
    }
}

/// The canonical bytes of the note `build_and_sign` assembles: the given
/// fields, the caller's identity as author, no tags.
pub open spec fn note_canonical(pubid: Seq<char>, created_at: u64, kind: u32, content: Seq<char>) -> Seq<u8> {
    canonical_bytes(pubid, created_at, kind, Seq::empty(), content)
}

/// Signing the payload succeeds and the produced signature verifies.
pub open spec fn signing_outcome_ok(pubid: Seq<char>, canon: Seq<u8>) -> bool {
    match sign_outcome_of(pubid, canon) {
        Some(s) => sig_ok(pubid, canon, s),
        None => false,
    }
}

/// Assemble, hash and sign an event, then re-verify the signature before
/// returning: an event that does not verify is withheld. Success and each
/// error are pinned, if and only if, to what signing the canonical bytes
/// returns for this identity.
pub fn build_and_sign(kp: &Keypair, created_at: u64, kind: u32, content: &str) -> (r: Result<
    SignedEvent,
    SigningError,
>)
    requires
        kp.wf(),
    ensures
        r matches Ok(se) ==> {
            &&& se.wf()
            &&& se.event.author_hex@ == kp.public_id()
            &&& se.event.created_at == created_at
            &&& se.event.kind == kind
            &&& se.event.tags.deep_view().len() == 0
            &&& se.event.content@ == content@
            &&& Some(se.sig_hex@) == sign_outcome_of(
                kp.public_id(),
                note_canonical(kp.public_id(), created_at, kind, content@),
            )
        },
        r is Ok <==> signing_outcome_ok(
            kp.public_id(),
            note_canonical(kp.public_id(), created_at, kind, content@),
        ),
        r == Err::<SignedEvent, SigningError>(SigningError::SignatureFailure) <==> sign_outcome_of(
            kp.public_id(),
            note_canonical(kp.public_id(), created_at, kind, content@),
        ) is None,
        r == Err::<SignedEvent, SigningError>(SigningError::VerificationFailed) <==> (
        sign_outcome_of(kp.public_id(), note_canonical(kp.public_id(), created_at, kind, content@))
            is Some && !signing_outcome_ok(
            kp.public_id(),
            note_canonical(kp.public_id(), created_at, kind, content@),
        )),
{
    let author_hex = kp.public_identifier();
    let event = UnsignedEvent {
        author_hex,
        created_at,
        kind,
        tags: Vec::new(),
        content: content.to_owned(),
    };
    let canon = canonical_event_bytes(&event);
    proof {
        assert(event.tags.deep_view() =~= Seq::<Seq<Seq<char>>>::empty());
        assert(canon@ == note_canonical(kp.public_id(), created_at, kind, content@));
    }
    let id = sha256(&canon);
    let id_hex = hex_string(&id);
    let sig_hex = match kp.sign_payload(&canon) {
        Ok(s) => s,
        Err(_) => {
            return Err(SigningError::SignatureFailure);
        },
    };
    if !verify_payload(event.author_hex.as_str(), &canon, sig_hex.as_str()) {
        return Err(SigningError::VerificationFailed);
    }
    Ok(SignedEvent { event, id_hex, sig_hex })
}

/// The opening of the outbound frame through the `id` key:
/// `["EVENT",{"id":`.
pub open spec fn frame_head() -> Seq<u8> {
    seq![
        0x5bu8,
        0x22u8,
        0x45u8,
        0x56u8,
        0x45u8,
        0x4eu8,
        0x54u8,
        0x22u8,
        0x2cu8,
        0x7bu8,
        0x22u8,
        0x69u8,
        0x64u8,
        0x22u8,
        0x3au8,
    ]
}

/// The outbound relay frame: a two-element JSON array `["EVENT", ev]`
/// where `ev` carries the fields `{id, pubkey, created_at, kind, tags,
/// content, sig}` in that order, compact, fully escaped.
pub open spec fn frame_bytes(se: SignedEvent) -> Seq<u8> {
    frame_head() + json_text(se.id_hex@)
        // ,"pubkey":
         + seq![0x2cu8, 0x22u8, 0x70u8, 0x75u8, 0x62u8, 0x6bu8, 0x65u8, 0x79u8, 0x22u8, 0x3au8]
        + json_text(se.event.author_hex@)
        // ,"created_at":
         + seq![
        0x2cu8,
        0x22u8,
        0x63u8,
        0x72u8,
        0x65u8,
        0x61u8,
        0x74u8,
        0x65u8,
        0x64u8,
        0x5fu8,
        0x61u8,
        0x74u8,
        0x22u8,
        0x3au8,
    ] + dec_digits(se.event.created_at as nat)
        // ,"kind":
         + seq![0x2cu8, 0x22u8, 0x6bu8, 0x69u8, 0x6eu8, 0x64u8, 0x22u8, 0x3au8] + dec_digits(
        se.event.kind as nat,
    )
        // ,"tags":
         + seq![0x2cu8, 0x22u8, 0x74u8, 0x61u8, 0x67u8, 0x73u8, 0x22u8, 0x3au8] + tags_list_bytes(
        se.event.tags.deep_view(),
    )
        // ,"content":
         + seq![
        0x2cu8,
        0x22u8,
        0x63u8,
        0x6fu8,
        0x6eu8,
        0x74u8,
        0x65u8,
        0x6eu8,
        0x74u8,
        0x22u8,
        0x3au8,
    ] + json_text(se.event.content@)
        // ,"sig":
         + seq![0x2cu8, 0x22u8, 0x73u8, 0x69u8, 0x67u8, 0x22u8, 0x3au8] + json_text(se.sig_hex@)
        // }]
         + seq![0x7du8, 0x5du8]
}

/// Render the outbound relay frame for a signed event, as UTF-8 bytes.
pub fn event_frame_bytes(se: &SignedEvent) -> (r: Vec<u8>)
    ensures
        r@ == frame_bytes(*se),
{
    let ghost tags_view = se.event.tags.deep_view();
    let mut out: Vec<u8> = Vec::new();
    let head = [
        0x5bu8,
        0x22u8,
        0x45u8,
        0x56u8,
        0x45u8,
        0x4eu8,
        0x54u8,
        0x22u8,
        0x2cu8,
        0x7bu8,
        0x22u8,
        0x69u8,
        0x64u8,
        0x22u8,
        0x3au8,
    ];
    push_bytes(&mut out, head.as_slice());
    push_text(&mut out, se.id_hex.as_str());
    let ghost p1 = frame_head() + json_text(se.id_hex@);
    proof {
        assert(head@ =~= frame_head());
        assert(out@ =~= p1);
    }
    let key_pubkey = [0x2cu8, 0x22u8, 0x70u8, 0x75u8, 0x62u8, 0x6bu8, 0x65u8, 0x79u8, 0x22u8, 0x3au8];
    push_bytes(&mut out, key_pubkey.as_slice());
    push_text(&mut out, se.event.author_hex.as_str());
    let key_created_at = [
        0x2cu8,
        0x22u8,
        0x63u8,
        0x72u8,
        0x65u8,
        0x61u8,
        0x74u8,
        0x65u8,
        0x64u8,
        0x5fu8,
        0x61u8,
        0x74u8,
        0x22u8,
        0x3au8,
    ];
    push_bytes(&mut out, key_created_at.as_slice());
    push_dec_u64(&mut out, se.event.created_at);
    let key_kind = [0x2cu8, 0x22u8, 0x6bu8, 0x69u8, 0x6eu8, 0x64u8, 0x22u8, 0x3au8];
    push_bytes(&mut out, key_kind.as_slice());
    push_dec_u64(&mut out, se.event.kind as u64);
    let ghost p2 = p1 + key_pubkey@ + json_text(se.event.author_hex@) + key_created_at@
        + dec_digits(se.event.created_at as nat) + key_kind@ + dec_digits(se.event.kind as nat);
    proof {
        assert(out@ =~= p2);
    }
    let key_tags = [0x2cu8, 0x22u8, 0x74u8, 0x61u8, 0x67u8, 0x73u8, 0x22u8, 0x3au8];
    push_bytes(&mut out, key_tags.as_slice());
    out.push(0x5b);
    let mut i: usize = 0;
    while i < se.event.tags.len()
        invariant
            i <= se.event.tags@.len(),
            tags_view == se.event.tags.deep_view(),
            tags_view.len() == se.event.tags@.len(),
            out@ == p2 + seq![0x2cu8, 0x22u8, 0x74u8, 0x61u8, 0x67u8, 0x73u8, 0x22u8, 0x3au8]
                + seq![0x5bu8] + joined_tags(tags_view.take(i as int)),
        decreases se.event.tags@.len() - i,
    {
        if i > 0 {
            out.push(0x2c);
        }
        push_tag(&mut out, &se.event.tags[i]);
        proof {
            lemma_joined_tags_step(tags_view, i as int);
            assert(tags_view[i as int] == se.event.tags@[i as int].deep_view());
            if i == 0 {
                assert(out@ =~= p2 + seq![
                    0x2cu8,
                    0x22u8,
                    0x74u8,
                    0x61u8,
                    0x67u8,
                    0x73u8,
                    0x22u8,
                    0x3au8,
                ] + seq![0x5bu8] + joined_tags(tags_view.take(1)));
            } else {
                assert(out@ =~= p2 + seq![
                    0x2cu8,
                    0x22u8,
                    0x74u8,
                    0x61u8,
                    0x67u8,
                    0x73u8,
                    0x22u8,
                    0x3au8,
                ] + seq![0x5bu8] + joined_tags(tags_view.take(i + 1)));
            }
        }
        i += 1;
    }
    out.push(0x5d);
    let ghost p3 = p2 + key_tags@ + tags_list_bytes(tags_view);
    proof {
        assert(tags_view.take(tags_view.len() as int) =~= tags_view);
        assert(out@ =~= p3);
    }
    let key_content = [
        0x2cu8,
        0x22u8,
        0x63u8,
        0x6fu8,
        0x6eu8,
        0x74u8,
        0x65u8,
        0x6eu8,
        0x74u8,
        0x22u8,
        0x3au8,
    ];
    push_bytes(&mut out, key_content.as_slice());
    push_text(&mut out, se.event.content.as_str());
    let key_sig = [0x2cu8, 0x22u8, 0x73u8, 0x69u8, 0x67u8, 0x22u8, 0x3au8];
    push_bytes(&mut out, key_sig.as_slice());
    push_text(&mut out, se.sig_hex.as_str());
    out.push(0x7d);
    out.push(0x5d);
    proof {
        assert(out@ =~= frame_bytes(*se));
    }
    out
}

/// Relies on `std::time::SystemTime::now` and
/// `SystemTime::duration_since(UNIX_EPOCH)`: the wall clock as whole
/// seconds since the Unix epoch, zero should the clock sit before it.
/// Nothing more can be promised of a clock.
#[verifier::external_body]
fn now_unix_seconds() -> (r: u64)
{
    match std::time::SystemTime::now().duration_since(std::time::UNIX_EPOCH) {
        Ok(d) => d.as_secs(),
        Err(_) => 0,
    }
}

/// A failure of `build_and_sign` for the timestamp the clock returned:
/// either signing the canonical bytes reported failure, or its signature
/// did not verify.
pub open spec fn clock_signing_failure(
    pubid: Seq<char>,
    t: u64,
    kind: u32,
    content: Seq<char>,
    r: Result<SignedEvent, SigningError>,
) -> bool {
    let canon = note_canonical(pubid, t, kind, content);
    ||| (r == Err::<SignedEvent, SigningError>(SigningError::SignatureFailure) && sign_outcome_of(
        pubid,
        canon,
    ) is None)
    ||| (r == Err::<SignedEvent, SigningError>(SigningError::VerificationFailed)
        && sign_outcome_of(pubid, canon) is Some && !signing_outcome_ok(pubid, canon))
}

/// Build and sign a text event stamped with the current wall clock.
/// Every property of the result except the timestamp's value is pinned;
/// the clock's reading is whatever the machine reports, so a failure is
/// explained for some timestamp rather than a named one.
pub fn build_and_sign_now(kp: &Keypair, kind: u32, content: &str) -> (r: Result<
    SignedEvent,
    SigningError,
>)
    requires
        kp.wf(),
    ensures
        r matches Ok(se) ==> {
            &&& se.wf()
            &&& se.event.author_hex@ == kp.public_id()
            &&& se.event.kind == kind
            &&& se.event.tags.deep_view().len() == 0
            &&& se.event.content@ == content@
            &&& Some(se.sig_hex@) == sign_outcome_of(
                kp.public_id(),
                note_canonical(kp.public_id(), se.event.created_at, kind, content@),
            )
        },
        r is Err ==> exists|t: u64| clock_signing_failure(kp.public_id(), t, kind, content@, r),
{
    let created_at = now_unix_seconds();
    let r = build_and_sign(kp, created_at, kind, content);
    proof {
        if r is Err {
            assert(clock_signing_failure(kp.public_id(), created_at, kind, content@, r));
        }
    }
    r
}

/// The identifier is a function of the five unsigned fields alone:
/// re-running the canonical encoding and hash on equal fields yields an
/// equal identifier.
pub proof fn lemma_id_deterministic(e1: UnsignedEvent, e2: UnsignedEvent)
    requires
        e1.author_hex@ == e2.author_hex@,
        e1.created_at == e2.created_at,
        e1.kind == e2.kind,
        e1.tags.deep_view() == e2.tags.deep_view(),
        e1.content@ == e2.content@,
    ensures
        e1.id_of() == e2.id_of(),
{
}

/// Two equal middle segments flanked by equal outer segments are equal.
proof fn lemma_concat_middle(a: Seq<u8>, x: Seq<u8>, b: Seq<u8>, y: Seq<u8>)
    requires
        a + x + b == a + y + b,
        x.len() == y.len(),
    ensures
        x == y,
{
    assert forall|k: int| 0 <= k < x.len() implies x[k] == y[k] by {
        assert((a + x + b)[a.len() + k] == x[k]);
        assert((a + y + b)[a.len() + k] == y[k]);
    }
    assert(x =~= y);
}

/// Equal JSON string literals hold equal character sequences.
proof fn lemma_json_text_injective(s1: Seq<char>, s2: Seq<char>)
    requires
        json_text(s1) == json_text(s2),
    ensures
        s1 == s2,
{
    let q = seq![0x22u8];
    assert(q + escape_bytes(encode_utf8(s1)) + q =~= json_text(s1));
    assert(q + escape_bytes(encode_utf8(s2)) + q =~= json_text(s2));
    lemma_concat_middle(q, escape_bytes(encode_utf8(s1)), q, escape_bytes(encode_utf8(s2)));
    lemma_escape_bytes_injective(encode_utf8(s1), encode_utf8(s2));
    encode_utf8_decode_utf8(s1);
    encode_utf8_decode_utf8(s2);
}

/// Changing the content, all other fields equal, changes the canonical
/// encoding. (That it then changes the identifier is delegated to the
/// collision resistance of the hash.)
pub proof fn lemma_content_changes_encoding(e1: UnsignedEvent, e2: UnsignedEvent)
    requires
        e1.author_hex@ == e2.author_hex@,
        e1.created_at == e2.created_at,
        e1.kind == e2.kind,
        e1.tags.deep_view() == e2.tags.deep_view(),
        e1.content@ != e2.content@,
    ensures
        e1.canonical() != e2.canonical(),
{
    if e1.canonical() == e2.canonical() {
        let a = seq![0x5bu8, 0x30u8, 0x2cu8] + json_text(e1.author_hex@) + seq![0x2cu8]
            + dec_digits(e1.created_at as nat) + seq![0x2cu8] + dec_digits(e1.kind as nat) + seq![
            0x2cu8,
        ] + tags_list_bytes(e1.tags.deep_view()) + seq![0x2cu8];
        let b = seq![0x5du8];
        assert(a + json_text(e1.content@) + b =~= e1.canonical());
        assert(a + json_text(e2.content@) + b =~= e2.canonical());
        lemma_concat_middle(a, json_text(e1.content@), b, json_text(e2.content@));
        lemma_json_text_injective(e1.content@, e2.content@);
    }
}

/// Changing the timestamp, all other fields equal, changes the canonical
/// encoding.
pub proof fn lemma_created_at_changes_encoding(e1: UnsignedEvent, e2: UnsignedEvent)
    requires
        e1.author_hex@ == e2.author_hex@,
        e1.kind == e2.kind,
        e1.tags.deep_view() == e2.tags.deep_view(),
        e1.content@ == e2.content@,
        e1.created_at != e2.created_at,
    ensures
        e1.canonical() != e2.canonical(),
{
    if e1.canonical() == e2.canonical() {
        let a = seq![0x5bu8, 0x30u8, 0x2cu8] + json_text(e1.author_hex@) + seq![0x2cu8];
        let b = seq![0x2cu8] + dec_digits(e1.kind as nat) + seq![0x2cu8] + tags_list_bytes(
            e1.tags.deep_view(),
        ) + seq![0x2cu8] + json_text(e1.content@) + seq![0x5du8];
        assert(a + dec_digits(e1.created_at as nat) + b =~= e1.canonical());
        assert(a + dec_digits(e2.created_at as nat) + b =~= e2.canonical());
        lemma_concat_middle(a, dec_digits(e1.created_at as nat), b, dec_digits(
            e2.created_at as nat,
        ));
        lemma_dec_digits_injective(e1.created_at as nat, e2.created_at as nat);
    }
}

/// Changing the kind, all other fields equal, changes the canonical
/// encoding.
pub proof fn lemma_kind_changes_encoding(e1: UnsignedEvent, e2: UnsignedEvent)
    requires
        e1.author_hex@ == e2.author_hex@,
        e1.created_at == e2.created_at,
        e1.tags.deep_view() == e2.tags.deep_view(),
        e1.content@ == e2.content@,
        e1.kind != e2.kind,
    ensures
        e1.canonical() != e2.canonical(),
{
    if e1.canonical() == e2.canonical() {
        let a = seq![0x5bu8, 0x30u8, 0x2cu8] + json_text(e1.author_hex@) + seq![0x2cu8]
            + dec_digits(e1.created_at as nat) + seq![0x2cu8];
        let b = seq![0x2cu8] + tags_list_bytes(e1.tags.deep_view()) + seq![0x2cu8] + json_text(
            e1.content@,
        ) + seq![0x5du8];
        assert(a + dec_digits(e1.kind as nat) + b =~= e1.canonical());
        assert(a + dec_digits(e2.kind as nat) + b =~= e2.canonical());
        lemma_concat_middle(a, dec_digits(e1.kind as nat), b, dec_digits(e2.kind as nat));
        lemma_dec_digits_injective(e1.kind as nat, e2.kind as nat);
    }
}

} // verus!
