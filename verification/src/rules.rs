//! Upstream filter rules: the tag convention binding a rule to an
//! identity, selection of a rule by identity, and the request payloads
//! that create and delete rules.
//!
//! A rule filtering for one identity carries the value `from:<name>` and
//! the free-text tag `from <name>`; deleting the rule for an identity
//! selects the first rule whose tag matches that convention exactly.

use crate::event::{joined_strings, json_text, lemma_joined_strings_step, push_text};
use crate::json::push_bytes;
use vstd::prelude::*;
use vstd::string::StringExecFns;

verus! {

/// One upstream filter rule, as the rule-management API reports it.
pub struct Rule {
    pub id: String,
    pub value: String,
    pub tag: String,
}

/// The match-expression a rule for one identity carries: `from:<name>`.
pub open spec fn rule_value_chars(name: Seq<char>) -> Seq<char> {
    seq!['f', 'r', 'o', 'm', ':'] + name
}

/// The label a rule for one identity carries: `from <name>`.
pub open spec fn rule_tag_chars(name: Seq<char>) -> Seq<char> {
    seq!['f', 'r', 'o', 'm', ' '] + name
}

/// Build the label `from <name>`.
pub fn make_rule_tag(name: &str) -> (r: String)
    ensures
        r@ == rule_tag_chars(name@),
{
    proof {
        reveal_strlit("from ");
    }
    let mut s = String::from_str("from ");
    s.append(name);
    proof {
        assert(s@ =~= rule_tag_chars(name@));
    }
    s
}

/// The identifier of the first rule whose tag is `tag`, if any.
pub open spec fn first_match(rules: Seq<Rule>, tag: Seq<char>) -> Option<Seq<char>>
    decreases rules.len(),
{
    if rules.len() == 0 {
        None
    } else if rules[0].tag@ == tag {
        Some(rules[0].id@)
    } else {
        first_match(rules.drop_first(), tag)
    }
}

/// With no match among the first `i` rules, the search outcome is decided
/// by the rest.
proof fn lemma_first_match_skip(rules: Seq<Rule>, tag: Seq<char>, i: int)
    requires
        0 <= i <= rules.len(),
        forall|j: int| 0 <= j < i ==> #[trigger] rules[j].tag@ != tag,
    ensures
        first_match(rules, tag) == first_match(rules.skip(i), tag),
    decreases i,
{
    if i == 0 {
        assert(rules.skip(0) =~= rules);
    } else {
        assert(rules[0].tag@ != tag);
        let rest = rules.drop_first();
        assert(forall|j: int| 0 <= j < i - 1 ==> #[trigger] rest[j].tag@ != tag) by {
            assert(forall|j: int| 0 <= j < i - 1 ==> rest[j] == rules[j + 1]);
        }
        lemma_first_match_skip(rest, tag, i - 1);
        assert(rest.skip(i - 1) =~= rules.skip(i));
    }
}

/// Find the identifier of the first rule labelled `from <name>`.
pub fn find_rule_id(rules: &Vec<Rule>, name: &str) -> (r: Option<String>)
    ensures
        r.deep_view() == first_match(rules@, rule_tag_chars(name@)),
{
    let tag = make_rule_tag(name);
    let mut i: usize = 0;
    while i < rules.len()
        invariant
            i <= rules@.len(),
            tag@ == rule_tag_chars(name@),
            forall|j: int| 0 <= j < i ==> #[trigger] rules@[j].tag@ != tag@,
        decreases rules@.len() - i,
    {
        if rules[i].tag == tag {
            proof {
                lemma_first_match_skip(rules@, tag@, i as int);
                assert(rules@.skip(i as int)[0] == rules@[i as int]);
            }
            return Some(rules[i].id.clone());
        }
        i += 1;
    }
    proof {
        lemma_first_match_skip(rules@, tag@, rules@.len() as int);
        assert(rules@.skip(rules@.len() as int).len() == 0);
    }
    None
}

/// The request payload adding the rule for one identity:
/// `{"add":[{"value":"from:<name>","tag":"from <name>"}]}`.
pub open spec fn add_rule_payload_bytes(name: Seq<char>) -> Seq<u8> {
    seq![
        0x7bu8,
        0x22u8,
        0x61u8,
        0x64u8,
        0x64u8,
        0x22u8,
        0x3au8,
        0x5bu8,
        0x7bu8,
        0x22u8,
        0x76u8,
        0x61u8,
        0x6cu8,
        0x75u8,
        0x65u8,
        0x22u8,
        0x3au8,
    ] + json_text(rule_value_chars(name)) + seq![0x2cu8, 0x22u8, 0x74u8, 0x61u8, 0x67u8, 0x22u8, 0x3au8]
        + json_text(rule_tag_chars(name)) + seq![0x7du8, 0x5du8, 0x7du8]
}

/// Build the payload adding the rule for one identity.
pub fn add_rule_payload(name: &str) -> (r: Vec<u8>)
    ensures
        r@ == add_rule_payload_bytes(name@),
{
    proof {
        reveal_strlit("from:");
        reveal_strlit("from ");
    }
    let mut out: Vec<u8> = Vec::new();
    let head = [
        0x7bu8,
        0x22u8,
        0x61u8,
        0x64u8,
        0x64u8,
        0x22u8,
        0x3au8,
        0x5bu8,
        0x7bu8,
        0x22u8,
        0x76u8,
        0x61u8,
        0x6cu8,
        0x75u8,
        0x65u8,
        0x22u8,
        0x3au8,
    ];
    push_bytes(&mut out, head.as_slice());
    let mut value = String::from_str("from:");
    value.append(name);
    push_text(&mut out, value.as_str());
    let key_tag = [0x2cu8, 0x22u8, 0x74u8, 0x61u8, 0x67u8, 0x22u8, 0x3au8];
    push_bytes(&mut out, key_tag.as_slice());
    let mut tag = String::from_str("from ");
    tag.append(name);
    push_text(&mut out, tag.as_str());
    let tail = [0x7du8, 0x5du8, 0x7du8];
    push_bytes(&mut out, tail.as_slice());
    proof {
        assert(value@ =~= rule_value_chars(name@));
        assert(tag@ =~= rule_tag_chars(name@));
        assert(out@ =~= add_rule_payload_bytes(name@));
    }
    out
}

/// The request payload deleting rules by identifier:
/// `{"delete":{"ids":["..",".."]}}`.
pub open spec fn delete_rules_payload_bytes(ids: Seq<Seq<char>>) -> Seq<u8> {
    seq![
        0x7bu8,
        0x22u8,
        0x64u8,
        0x65u8,
        0x6cu8,
        0x65u8,
        0x74u8,
        0x65u8,
        0x22u8,
        0x3au8,
        0x7bu8,
        0x22u8,
        0x69u8,
        0x64u8,
        0x73u8,
        0x22u8,
        0x3au8,
        0x5bu8,
    ] + joined_strings(ids) + seq![0x5du8, 0x7du8, 0x7du8]
}

/// Build the payload deleting the given rule identifiers.
pub fn delete_rules_payload(ids: &Vec<String>) -> (r: Vec<u8>)
    ensures
        r@ == delete_rules_payload_bytes(ids.deep_view()),
{
    let ghost items = ids.deep_view();
    let mut out: Vec<u8> = Vec::new();
    let head = [
        0x7bu8,
        0x22u8,
        0x64u8,
        0x65u8,
        0x6cu8,
        0x65u8,
        0x74u8,
        0x65u8,
        0x22u8,
        0x3au8,
        0x7bu8,
        0x22u8,
        0x69u8,
        0x64u8,
        0x73u8,
        0x22u8,
        0x3au8,
        0x5bu8,
    ];
    push_bytes(&mut out, head.as_slice());
    let mut i: usize = 0;
    while i < ids.len()
        invariant
            i <= ids@.len(),
            items == ids.deep_view(),
            items.len() == ids@.len(),
            out@ == seq![
                0x7bu8,
                0x22u8,
                0x64u8,
                0x65u8,
                0x6cu8,
                0x65u8,
                0x74u8,
                0x65u8,
                0x22u8,
                0x3au8,
                0x7bu8,
                0x22u8,
                0x69u8,
                0x64u8,
                0x73u8,
                0x22u8,
                0x3au8,
                0x5bu8,
            ] + joined_strings(items.take(i as int)),
        decreases ids@.len() - i,
    {
        if i > 0 {
            out.push(0x2c);
        }
        push_text(&mut out, ids[i].as_str());
        proof {
            lemma_joined_strings_step(items, i as int);
            assert(items[i as int] == ids@[i as int]@);
            if i == 0 {
                assert(out@ =~= seq![
                    0x7bu8,
                    0x22u8,
                    0x64u8,
                    0x65u8,
                    0x6cu8,
                    0x65u8,
                    0x74u8,
                    0x65u8,
                    0x22u8,
                    0x3au8,
                    0x7bu8,
                    0x22u8,
                    0x69u8,
                    0x64u8,
                    0x73u8,
                    0x22u8,
                    0x3au8,
                    0x5bu8,
                ] + joined_strings(items.take(1)));
            } else {
                assert(out@ =~= seq![
                    0x7bu8,
                    0x22u8,
                    0x64u8,
                    0x65u8,
                    0x6cu8,
                    0x65u8,
                    0x74u8,
                    0x65u8,
                    0x22u8,
                    0x3au8,
                    0x7bu8,
                    0x22u8,
                    0x69u8,
                    0x64u8,
                    0x73u8,
                    0x22u8,
                    0x3au8,
                    0x5bu8,
                ] + joined_strings(items.take(i + 1)));
            }
        }
        i += 1;
    }
    let tail = [0x5du8, 0x7du8, 0x7du8];
    push_bytes(&mut out, tail.as_slice());
    proof {
        assert(items.take(items.len() as int) =~= items);
        assert(out@ =~= delete_rules_payload_bytes(items));
    }
    out
}

/// The rule list a rule-management response body carries: the `(id,
/// value, tag)` triples under its `data` array, or nothing when the body
/// is not of that shape. A function of the body bytes alone.
pub uninterp spec fn rules_of(body: Seq<u8>) -> Option<Seq<(Seq<char>, Seq<char>, Seq<char>)>>;

/// Relies on `serde_json::from_slice::<Value>`, `Value`'s `Index<&str>`,
/// `Value::as_array` and `Value::as_str`: decodes the response body and
/// maps each element of its `data` array to the plain `(id, value, tag)`
/// triple, a function of the body bytes alone.
#[verifier::external_body]
pub fn extract_rules(body: &Vec<u8>) -> (r: Option<Vec<Rule>>)
    ensures
        r matches Some(v) ==> rules_of(body@) matches Some(rs) && v@.len() == rs.len()
            && forall|i: int|
            0 <= i < rs.len() ==> (
            #[trigger] v@[i].id@,
            v@[i].value@,
            v@[i].tag@,
        ) == rs[i],
        r is None ==> rules_of(body@) is None,
{
    let v: serde_json::Value = match serde_json::from_slice(body.as_slice()) {
        Ok(v) => v,
        Err(_) => return None,
    };
    let arr = v["data"].as_array()?;
    let mut out: Vec<Rule> = Vec::new();
    for item in arr {
        let id = item["id"].as_str()?.to_string();
        let value = item["value"].as_str()?.to_string();
        let tag = item["tag"].as_str()?.to_string();
        out.push(Rule { id, value, tag });
    }
    Some(out)
}

/// The payload deleting exactly the rule for one identity, when the rule
/// list holds one: the first rule labelled `from <name>` is selected, and
/// its identifier alone is deleted.
pub fn delete_payload_for_identity(rules: &Vec<Rule>, name: &str) -> (r: Option<Vec<u8>>)
    ensures
        first_match(rules@, rule_tag_chars(name@)) matches Some(id) ==> (r matches Some(p) && p@
            == delete_rules_payload_bytes(seq![id])),
        first_match(rules@, rule_tag_chars(name@)) is None ==> r is None,
{
    match find_rule_id(rules, name) {
        Some(id) => {
            let mut ids: Vec<String> = Vec::new();
            ids.push(id);
            proof {
                assert(ids.deep_view() =~= seq![
                    first_match(rules@, rule_tag_chars(name@)).unwrap(),
                ]);
            }
            Some(delete_rules_payload(&ids))
        },
        None => None,
    }
}

} // verus!
