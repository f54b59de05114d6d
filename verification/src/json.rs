//! Byte-level JSON building blocks: string escaping, decimal rendering,
//! and the injectivity lemmas that make the canonical event encoding
//! unambiguous.
//!
//! All output is modelled as `Seq<u8>` (UTF-8 bytes). Escaping follows the
//! JSON rules for compact output: `"` and `\` get a two-byte escape, the
//! control characters with a short form (backspace, form feed, line feed,
//! carriage return, tab) get theirs, every other control character becomes
//! a six-byte `\u00XX` escape, and all remaining bytes pass through
//! unchanged (multi-byte UTF-8 sequences contain no byte below 0x20).

use vstd::prelude::*;

verus! {

/// Bytes that require escaping inside a JSON string literal.
pub open spec fn needs_escape(b: u8) -> bool {
    b == 0x22 || b == 0x5c || b < 0x20
}

/// Hex digit (lowercase) for a value below 16, as an ASCII byte.
pub open spec fn hex_digit(n: u8) -> u8
    recommends
        n < 16,
{
    if n < 10 {
        (0x30 + n) as u8
    } else {
        (0x57 + n) as u8
    }
}

/// The escape block a single byte contributes to a JSON string literal.
pub open spec fn escape_byte(b: u8) -> Seq<u8> {
    if b == 0x22 {
        seq![0x5cu8, 0x22u8]
    } else if b == 0x5c {
        seq![0x5cu8, 0x5cu8]
    } else if b == 0x08 {
        seq![0x5cu8, 0x62u8]
    } else if b == 0x09 {
        seq![0x5cu8, 0x74u8]
    } else if b == 0x0a {
        seq![0x5cu8, 0x6eu8]
    } else if b == 0x0c {
        seq![0x5cu8, 0x66u8]
    } else if b == 0x0d {
        seq![0x5cu8, 0x72u8]
    } else if b < 0x20 {
        seq![0x5cu8, 0x75u8, 0x30u8, 0x30u8, hex_digit(b / 16), hex_digit(b % 16)]
    } else {
        seq![b]
    }
}

/// JSON-escape a byte sequence.
pub open spec fn escape_bytes(s: Seq<u8>) -> Seq<u8>
    decreases s.len(),
{
    if s.len() == 0 {
        Seq::empty()
    } else {
        escape_byte(s[0]) + escape_bytes(s.drop_first())
    }
}

/// A complete JSON string literal: quote, escaped contents, quote.
pub open spec fn json_string_bytes(s: Seq<u8>) -> Seq<u8> {
    seq![0x22u8] + escape_bytes(s) + seq![0x22u8]
}

/// ASCII decimal digits of `n`, most significant first.
pub open spec fn dec_digits(n: nat) -> Seq<u8>
    decreases n,
{
    if n < 10 {
        seq![(0x30 + n) as u8]
    } else {
        dec_digits(n / 10) + seq![(0x30 + (n % 10)) as u8]
    }
}

/// Append the JSON escape of every byte of `src` to `out`.
pub fn push_escaped(out: &mut Vec<u8>, src: &Vec<u8>)
    ensures
        final(out)@ == old(out)@ + escape_bytes(src@),
{
    let mut i: usize = 0;
    while i < src.len()
        invariant
            i <= src@.len(),
            out@ == old(out)@ + escape_bytes(src@.take(i as int)),
        decreases src@.len() - i,
    {
        let b = src[i];
        if b == 0x22 {
            out.push(0x5c);
            out.push(0x22);
        } else if b == 0x5c {
            out.push(0x5c);
            out.push(0x5c);
        } else if b == 0x08 {
            out.push(0x5c);
            out.push(0x62);
        } else if b == 0x09 {
            out.push(0x5c);
            out.push(0x74);
        } else if b == 0x0a {
            out.push(0x5c);
            out.push(0x6e);
        } else if b == 0x0c {
            out.push(0x5c);
            out.push(0x66);
        } else if b == 0x0d {
            out.push(0x5c);
            out.push(0x72);
        } else if b < 0x20 {
            out.push(0x5c);
            out.push(0x75);
            out.push(0x30);
            out.push(0x30);
            let hi = b / 16;
            let lo = b % 16;
            out.push(if hi < 10 { 0x30 + hi } else { 0x57 + hi });
            out.push(if lo < 10 { 0x30 + lo } else { 0x57 + lo });
        } else {
            out.push(b);
        }
        proof {
            lemma_escape_take_step(src@, i as int);
        }
        i += 1;
    }
    proof {
        assert(src@.take(src@.len() as int) =~= src@);
    }
}

/// Unfolding step: escaping one more byte appends that byte's block.
proof fn lemma_escape_take_step(s: Seq<u8>, i: int)
    requires
        0 <= i < s.len(),
    ensures
        escape_bytes(s.take(i + 1)) == escape_bytes(s.take(i)) + escape_byte(s[i]),
    decreases i,
{
    if i == 0 {
        assert(s.take(1).drop_first() =~= Seq::<u8>::empty());
        assert(s.take(0) =~= Seq::<u8>::empty());
        assert(s.take(1)[0] == s[0]);
        assert(escape_bytes(s.take(1)) == escape_byte(s[0]) + escape_bytes(Seq::<u8>::empty()));
        assert(escape_byte(s[0]) + Seq::<u8>::empty() =~= escape_byte(s[0]));
        assert(escape_bytes(Seq::<u8>::empty()) + escape_byte(s[0]) =~= escape_byte(s[0]));
    } else {
        let t = s.drop_first();
        lemma_escape_take_step(t, i - 1);
        assert(s.take(i + 1).drop_first() =~= t.take(i));
        assert(s.take(i).drop_first() =~= t.take(i - 1));
        assert(escape_bytes(s.take(i + 1)) == escape_byte(s[0]) + escape_bytes(t.take(i)));
        assert(escape_bytes(s.take(i)) == escape_byte(s[0]) + escape_bytes(t.take(i - 1)));
        assert(t[i - 1] == s[i]);
        assert(escape_byte(s[0]) + (escape_bytes(t.take(i - 1)) + escape_byte(s[i])) =~= (
        escape_byte(s[0]) + escape_bytes(t.take(i - 1))) + escape_byte(s[i]));
    }
}

/// Append a JSON string literal holding `src` to `out`.
pub fn push_json_string(out: &mut Vec<u8>, src: &Vec<u8>)
    ensures
        final(out)@ == old(out)@ + json_string_bytes(src@),
{
    out.push(0x22);
    push_escaped(out, src);
    out.push(0x22);
    proof {
        assert(out@ =~= old(out)@ + json_string_bytes(src@));
    }
}

/// Append the decimal rendering of `n` to `out`.
pub fn push_dec_u64(out: &mut Vec<u8>, n: u64)
    ensures
        final(out)@ == old(out)@ + dec_digits(n as nat),
    decreases n,
{
    if n >= 10 {
        push_dec_u64(out, n / 10);
    }
    out.push(0x30 + (n % 10) as u8);
    proof {
        if n >= 10 {
            assert(out@ =~= old(out)@ + (dec_digits((n / 10) as nat) + seq![
                (0x30 + (n as nat % 10)) as u8,
            ]));
        } else {
            assert(out@ =~= old(out)@ + seq![(0x30 + (n as nat)) as u8]);
        }
    }
}

/// Append every byte of `src` to `out`.
pub fn push_bytes(out: &mut Vec<u8>, src: &[u8])
    ensures
        final(out)@ == old(out)@ + src@,
{
    let mut i: usize = 0;
    while i < src.len()
        invariant
            i <= src@.len(),
            out@ == old(out)@ + src@.take(i as int),
        decreases src@.len() - i,
    {
        out.push(src[i]);
        proof {
            assert(src@.take(i + 1) =~= src@.take(i as int) + seq![src@[i as int]]);
            assert(old(out)@ + src@.take(i + 1) =~= (old(out)@ + src@.take(i as int)) + seq![
                src@[i as int],
            ]);
        }
        i += 1;
    }
    proof {
        assert(src@.take(src@.len() as int) =~= src@);
    }
}

/// Escaping an empty sequence yields an empty sequence, and a nonempty one
/// a nonempty one.
pub proof fn lemma_escape_len(s: Seq<u8>)
    ensures
        s.len() == 0 ==> escape_bytes(s).len() == 0,
        s.len() > 0 ==> escape_bytes(s).len() > 0,
{
}

/// Every escape block is 1, 2 or 6 bytes long, starts with a backslash
/// exactly when the byte needs escaping, and never starts with one
/// otherwise.
proof fn lemma_escape_byte_shape(b: u8)
    ensures
        escape_byte(b).len() == 1 || escape_byte(b).len() == 2 || escape_byte(b).len() == 6,
        needs_escape(b) <==> escape_byte(b).len() > 1,
        needs_escape(b) ==> escape_byte(b)[0] == 0x5c,
        !needs_escape(b) ==> escape_byte(b) == seq![b],
        escape_byte(b).len() == 2 ==> escape_byte(b)[1] != 0x75,
        escape_byte(b).len() == 6 ==> escape_byte(b)[1] == 0x75,
{
}

/// Equal escape blocks come from equal bytes.
proof fn lemma_escape_byte_injective(b1: u8, b2: u8)
    requires
        escape_byte(b1) == escape_byte(b2),
    ensures
        b1 == b2,
{
    lemma_escape_byte_shape(b1);
    lemma_escape_byte_shape(b2);
    if !needs_escape(b1) && !needs_escape(b2) {
        assert(escape_byte(b1)[0] == b1 && escape_byte(b2)[0] == b2);
    } else if needs_escape(b1) && needs_escape(b2) {
        if escape_byte(b1).len() == 6 && escape_byte(b2).len() == 6 {
            assert(escape_byte(b1)[4] == hex_digit(b1 / 16) && escape_byte(b1)[5] == hex_digit(
                b1 % 16,
            ));
            assert(escape_byte(b2)[4] == hex_digit(b2 / 16) && escape_byte(b2)[5] == hex_digit(
                b2 % 16,
            ));
            assert(hex_digit(b1 / 16) == hex_digit(b2 / 16) && hex_digit(b1 % 16) == hex_digit(
                b2 % 16,
            ));
            assert(b1 / 16 == b2 / 16 && b1 % 16 == b2 % 16);
        }
    }
}

/// JSON escaping is injective: distinct byte sequences escape to distinct
/// byte sequences, so a string literal determines its contents.
pub proof fn lemma_escape_bytes_injective(s1: Seq<u8>, s2: Seq<u8>)
    requires
        escape_bytes(s1) == escape_bytes(s2),
    ensures
        s1 == s2,
    decreases s1.len(),
{
    lemma_escape_len(s1);
    lemma_escape_len(s2);
    if s1.len() == 0 || s2.len() == 0 {
        assert(s1 =~= s2);
    } else {
        let e = escape_bytes(s1);
        let b1 = s1[0];
        let b2 = s2[0];
        lemma_escape_byte_shape(b1);
        lemma_escape_byte_shape(b2);
        let n1 = escape_byte(b1).len() as int;
        let n2 = escape_byte(b2).len() as int;
        assert(e == escape_byte(b1) + escape_bytes(s1.drop_first()));
        assert(e == escape_byte(b2) + escape_bytes(s2.drop_first()));
        assert(forall|k: int|
            0 <= k < n1 ==> e[k] == #[trigger] (escape_byte(b1) + escape_bytes(s1.drop_first()))[k]);
        assert(forall|k: int| 0 <= k < n1 ==> e[k] == escape_byte(b1)[k]);
        assert(forall|k: int|
            0 <= k < n2 ==> e[k] == #[trigger] (escape_byte(b2) + escape_bytes(s2.drop_first()))[k]);
        assert(forall|k: int| 0 <= k < n2 ==> e[k] == escape_byte(b2)[k]);
        assert(n1 == n2) by {
            if n1 != n2 {
                if n1 == 1 {
                    assert(e[0] == escape_byte(b1)[0] == b1 && !needs_escape(b1));
                    assert(e[0] == escape_byte(b2)[0] == 0x5c);
                } else if n2 == 1 {
                    assert(e[0] == escape_byte(b2)[0] == b2 && !needs_escape(b2));
                    assert(e[0] == escape_byte(b1)[0] == 0x5c);
                } else if n1 == 2 {
                    assert(e[1] == escape_byte(b1)[1] && escape_byte(b1)[1] != 0x75);
                    assert(e[1] == escape_byte(b2)[1] && escape_byte(b2)[1] == 0x75);
                } else {
                    assert(e[1] == escape_byte(b1)[1] && escape_byte(b1)[1] == 0x75);
                    assert(e[1] == escape_byte(b2)[1] && escape_byte(b2)[1] != 0x75);
                }
            }
        }
        assert forall|k: int| 0 <= k < n1 implies escape_byte(b1)[k] == escape_byte(b2)[k] by {
            assert(escape_byte(b1)[k] == e[k] && escape_byte(b2)[k] == e[k]);
        }
        assert(escape_byte(b1) =~= escape_byte(b2));
        lemma_escape_byte_injective(b1, b2);
        assert(escape_bytes(s1.drop_first()) =~= escape_bytes(s2.drop_first())) by {
            assert(escape_bytes(s1.drop_first()) =~= e.skip(n1));
            assert(escape_bytes(s2.drop_first()) =~= e.skip(n2));
        }
        lemma_escape_bytes_injective(s1.drop_first(), s2.drop_first());
        assert(s1 =~= seq![b1] + s1.drop_first());
        assert(s2 =~= seq![b2] + s2.drop_first());
    }
}

/// Decimal renderings of values of ten or more are at least two digits.
proof fn lemma_dec_len(n: nat)
    ensures
        dec_digits(n).len() >= 1,
        n >= 10 ==> dec_digits(n).len() >= 2,
        forall|k: int| 0 <= k < dec_digits(n).len() ==> 0x30 <= #[trigger] dec_digits(n)[k] <= 0x39,
    decreases n,
{
    if n >= 10 {
        lemma_dec_len(n / 10);
    }
}

/// Decimal rendering is injective: equal digit strings mean equal values.
pub proof fn lemma_dec_digits_injective(a: nat, b: nat)
    requires
        dec_digits(a) == dec_digits(b),
    ensures
        a == b,
    decreases a,
{
    lemma_dec_len(a);
    lemma_dec_len(b);
    let da = dec_digits(a);
    let db = dec_digits(b);
    if a < 10 && b < 10 {
        assert(da[0] == 0x30 + a && db[0] == 0x30 + b);
    } else if a < 10 {
        assert(da.len() == 1 && db.len() >= 2);
    } else if b < 10 {
        assert(da.len() >= 2 && db.len() == 1);
    } else {
        assert(da.last() == 0x30 + a % 10 && db.last() == 0x30 + b % 10);
        assert(a % 10 == b % 10);
        assert(da.drop_last() =~= dec_digits(a / 10));
        assert(db.drop_last() =~= dec_digits(b / 10));
        lemma_dec_digits_injective(a / 10, b / 10);
    }
}

} // verus!
