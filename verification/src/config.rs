//! Configuration text: the key-value credential format (one `KEY=value`
//! per line, split at the first `=`) and the newline-delimited relay
//! endpoint list. Reading the files is I/O and stays with the caller;
//! the parsing of their contents is specified and verified here.

use vstd::prelude::*;
use vstd::string::StrSliceExecFns;

verus! {

/// Index of the first occurrence of `c` in `s`; `s.len()` when absent.
pub open spec fn first_occurrence(s: Seq<char>, c: char) -> int
    decreases s.len(),
{
    if s.len() == 0 {
        0
    } else if s[0] == c {
        0
    } else {
        1 + first_occurrence(s.drop_first(), c)
    }
}

/// `first_occurrence` finds the first occurrence: it is in bounds exactly
/// when the character occurs, it points at the character, and nothing
/// before it is the character.
pub proof fn lemma_first_occurrence(s: Seq<char>, c: char)
    ensures
        0 <= first_occurrence(s, c) <= s.len(),
        first_occurrence(s, c) < s.len() ==> s[first_occurrence(s, c)] == c,
        forall|j: int| 0 <= j < first_occurrence(s, c) ==> s[j] != c,
    decreases s.len(),
{
    if s.len() > 0 && s[0] != c {
        lemma_first_occurrence(s.drop_first(), c);
        assert forall|j: int| 0 <= j < first_occurrence(s, c) implies s[j] != c by {
            if j > 0 {
                assert(s.drop_first()[j - 1] == s[j]);
                assert(s.drop_first()[j - 1] != c);
            }
        }
    }
}

/// A line with its trailing carriage return, if any, removed.
pub open spec fn strip_cr(line: Seq<char>) -> Seq<char> {
    if line.len() > 0 && line.last() == '\r' {
        line.drop_last()
    } else {
        line
    }
}

/// The lines of a text: split at line feeds, a carriage return directly
/// before the line feed removed with it, the final fragment kept only
/// when nonempty. A carriage return not followed by a line feed splits
/// nothing and stays in its line, so a final fragment keeps a trailing
/// carriage return of its own.
pub open spec fn split_lines(s: Seq<char>) -> Seq<Seq<char>>
    decreases s.len(),
{
    if s.len() == 0 {
        Seq::empty()
    } else {
        let k = first_occurrence(s, '\n');
        if 0 <= k < s.len() {
            seq![strip_cr(s.take(k))] + split_lines(s.skip(k + 1))
        } else {
            seq![s]
        }
    }
}

/// Unfolding step: with no line feed before `k`, the text splits into the
/// line ending at `k` and the lines of the rest.
proof fn lemma_split_lines_first(s: Seq<char>, k: int)
    requires
        0 <= k <= s.len(),
        forall|j: int| 0 <= j < k ==> s[j] != '\n',
        k < s.len() ==> s[k] == '\n',
    ensures
        k < s.len() ==> split_lines(s) == seq![strip_cr(s.take(k))] + split_lines(s.skip(k + 1)),
        k == s.len() && s.len() > 0 ==> split_lines(s) == seq![s],
{
    lemma_first_occurrence(s, '\n');
    let f = first_occurrence(s, '\n');
    if f < k {
        assert(s[f] == '\n');
    }
    if k < f && k < s.len() {
        assert(s[k] != '\n');
    }
    assert(f == k || (f == s.len() && k == s.len()));
}

/// Split a text into its lines.
pub fn split_lines_exec(contents: &str) -> (r: Vec<String>)
    ensures
        r.deep_view() == split_lines(contents@),
{
    let ghost full = contents@;
    let n = contents.unicode_len();
    let mut out: Vec<String> = Vec::new();
    let mut start: usize = 0;
    let mut i: usize = 0;
    proof {
        assert(full.skip(0) =~= full);
        assert(out.deep_view() =~= Seq::<Seq<char>>::empty());
        assert(Seq::<Seq<char>>::empty() + split_lines(full) =~= split_lines(full));
    }
    while i < n
        invariant
            0 <= start <= i <= n,
            n == full.len(),
            full == contents@,
            forall|j: int| start <= j < i ==> full[j] != '\n',
            split_lines(full) =~= out.deep_view() + split_lines(full.skip(start as int)),
        decreases n - i,
    {
        let ch = contents.get_char(i);
        if ch == '\n' {
            let line_end = if i > start && contents.get_char(i - 1) == '\r' {
                i - 1
            } else {
                i
            };
            let line = contents.substring_char(start, line_end);
            let ghost pre = out.deep_view();
            out.push(line.to_owned());
            proof {
                let rem = full.skip(start as int);
                assert(forall|j: int|
                    0 <= j < i - start ==> rem[j] == #[trigger] full[j + start] && full[j + start]
                        != '\n');
                assert(rem[i - start] == full[i as int]);
                lemma_split_lines_first(rem, i - start);
                assert(strip_cr(rem.take(i - start)) =~= full.subrange(
                    start as int,
                    line_end as int,
                )) by {
                    assert(rem.take(i - start) =~= full.subrange(start as int, i as int));
                }
                assert(rem.skip(i - start + 1) =~= full.skip(i + 1));
                assert(line@ == full.subrange(start as int, line_end as int));
                assert(out.deep_view() =~= pre.push(line@));
                assert(pre.push(line@) + split_lines(full.skip(i + 1)) =~= pre + (seq![line@]
                    + split_lines(full.skip(i + 1))));
            }
            start = i + 1;
        }
        i += 1;
    }
    if start < n {
        let line = contents.substring_char(start, n);
        let ghost pre = out.deep_view();
        out.push(line.to_owned());
        proof {
            let rem = full.skip(start as int);
            assert(forall|j: int|
                0 <= j < rem.len() ==> rem[j] == #[trigger] full[j + start] && full[j + start]
                    != '\n');
            lemma_split_lines_first(rem, rem.len() as int);
            assert(rem =~= full.subrange(start as int, n as int));
            assert(line@ == full.subrange(start as int, n as int));
            assert(out.deep_view() =~= pre.push(line@));
            assert(pre.push(line@) =~= pre + seq![line@]);
        }
    } else {
        proof {
            assert(full.skip(start as int).len() == 0);
            assert(out.deep_view() + split_lines(full.skip(start as int)) =~= out.deep_view());
        }
    }
    out
}

/// Parse the relay endpoint list: one endpoint per line.
pub fn parse_relay_list(contents: &str) -> (r: Vec<String>)
    ensures
        r.deep_view() == split_lines(contents@),
{
    split_lines_exec(contents)
}

/// One credential line, split at its first `=` into key and value; a line
/// without `=` (an empty line included) is malformed.
pub open spec fn parse_env_line(line: Seq<char>) -> Option<(Seq<char>, Seq<char>)> {
    let k = first_occurrence(line, '=');
    if 0 <= k < line.len() {
        Some((line.take(k), line.skip(k + 1)))
    } else {
        None
    }
}

/// The key-value entries of a sequence of credential lines, in order;
/// nothing when any line is malformed.
pub open spec fn parse_env_lines(lines: Seq<Seq<char>>) -> Option<Seq<(Seq<char>, Seq<char>)>>
    decreases lines.len(),
{
    if lines.len() == 0 {
        Some(Seq::empty())
    } else {
        match (parse_env_lines(lines.drop_last()), parse_env_line(lines.last())) {
            (Some(rest), Some(kv)) => Some(rest.push(kv)),
            _ => None,
        }
    }
}

/// The entries of a whole credential file.
pub open spec fn env_entries(s: Seq<char>) -> Option<Seq<(Seq<char>, Seq<char>)>> {
    parse_env_lines(split_lines(s))
}

/// One malformed line spoils the whole file.
proof fn lemma_env_lines_fail(lines: Seq<Seq<char>>, i: int)
    requires
        0 <= i < lines.len(),
        parse_env_line(lines[i]) is None,
    ensures
        parse_env_lines(lines) is None,
    decreases lines.len(),
{
    if i < lines.len() - 1 {
        lemma_env_lines_fail(lines.drop_last(), i);
    }
}

/// Unfolding step for a growing prefix of parsed lines.
proof fn lemma_env_lines_step(lines: Seq<Seq<char>>, i: int)
    requires
        0 <= i < lines.len(),
    ensures
        parse_env_lines(lines.take(i + 1)) == (match (
            parse_env_lines(lines.take(i)),
            parse_env_line(lines[i]),
        ) {
            (Some(rest), Some(kv)) => Some(rest.push(kv)),
            _ => None,
        }),
{
    let p = lines.take(i + 1);
    assert(p.len() == i + 1);
    assert(p.drop_last() =~= lines.take(i));
    assert(p.last() == lines[i]);
}

/// A missing or malformed credential file: fatal, reported before any
/// network activity. The offending text is not carried: credential
/// material must never appear in error messages.
#[derive(Clone, Copy, Debug, PartialEq, Eq, Structural)]
pub enum ConfigError {
    MalformedLine,
}

/// Parse the credential file: one `KEY=value` entry per line, split at
/// the first `=`. Fails, and says so, exactly when some line has no `=`.
pub fn parse_env(contents: &str) -> (r: Result<Vec<(String, String)>, ConfigError>)
    ensures
        r matches Ok(v) ==> env_entries(contents@) == Some(v.deep_view()),
        r is Err ==> env_entries(contents@) is None,
{
    let lines = split_lines_exec(contents);
    let ghost lview = lines.deep_view();
    let mut out: Vec<(String, String)> = Vec::new();
    let mut i: usize = 0;
    while i < lines.len()
        invariant
            i <= lines@.len(),
            lview == lines.deep_view(),
            lview.len() == lines@.len(),
            lview == split_lines(contents@),
            parse_env_lines(lview.take(i as int)) == Some(out.deep_view()),
        decreases lines@.len() - i,
    {
        let line = &lines[i];
        let line_len = line.as_str().unicode_len();
        let ghost lchars = lview[i as int];
        proof {
            assert(lchars == lines@[i as int]@);
            lemma_first_occurrence(lchars, '=');
        }
        let mut j: usize = 0;
        let mut found: bool = false;
        while j < line_len && !found
            invariant
                0 <= j <= line_len,
                line_len == lchars.len(),
                lchars == line@,
                line@ == lines@[i as int]@,
                !found ==> forall|k: int| 0 <= k < j ==> lchars[k] != '=',
                found ==> j < line_len && lchars[j as int] == '=' && forall|k: int|
                    0 <= k < j ==> lchars[k] != '=',
            decreases line_len - j + (if found { 0int } else { 1int }),
        {
            if line.as_str().get_char(j) == '=' {
                found = true;
            } else {
                j += 1;
            }
        }
        if !found {
            proof {
                assert(first_occurrence(lchars, '=') == lchars.len()) by {
                    lemma_first_occurrence(lchars, '=');
                    if first_occurrence(lchars, '=') < lchars.len() {
                        assert(lchars[first_occurrence(lchars, '=')] == '=');
                    }
                }
                assert(parse_env_line(lchars) is None);
                lemma_env_lines_fail(lview, i as int);
            }
            return Err(ConfigError::MalformedLine);
        }
        let key = line.as_str().substring_char(0, j).to_owned();
        let value = line.as_str().substring_char(j + 1, line_len).to_owned();
        let ghost pre = out.deep_view();
        out.push((key, value));
        proof {
            assert(first_occurrence(lchars, '=') == j as int) by {
                lemma_first_occurrence(lchars, '=');
                if first_occurrence(lchars, '=') < j as int {
                    assert(lchars[first_occurrence(lchars, '=')] == '=');
                }
            }
            assert(key@ =~= lchars.take(j as int));
            assert(value@ =~= lchars.skip(j + 1));
            assert(parse_env_line(lchars) == Some((key@, value@)));
            lemma_env_lines_step(lview, i as int);
            assert(out.deep_view() =~= pre.push((key@, value@)));
        }
        i += 1;
    }
    proof {
        assert(lview.take(lview.len() as int) =~= lview);
    }
    Ok(out)
}

/// Look up a key among parsed entries: the value of its last occurrence
/// (a later duplicate key overrides an earlier one, as insertion into a
/// map would).
pub open spec fn env_lookup(entries: Seq<(Seq<char>, Seq<char>)>, key: Seq<char>) -> Option<
    Seq<char>,
>
    decreases entries.len(),
{
    if entries.len() == 0 {
        None
    } else if entries.last().0 == key {
        Some(entries.last().1)
    } else {
        env_lookup(entries.drop_last(), key)
    }
}

/// With no match among the entries from `i` on, the lookup is decided by
/// the first `i` entries.
proof fn lemma_env_lookup_take(entries: Seq<(Seq<char>, Seq<char>)>, key: Seq<char>, i: int)
    requires
        0 <= i <= entries.len(),
        forall|j: int| i <= j < entries.len() ==> (#[trigger] entries[j]).0 != key,
    ensures
        env_lookup(entries, key) == env_lookup(entries.take(i), key),
    decreases entries.len() - i,
{
    if i == entries.len() {
        assert(entries.take(i) =~= entries);
    } else {
        assert(entries.last().0 != key);
        let rest = entries.drop_last();
        assert(forall|j: int| i <= j < rest.len() ==> (#[trigger] rest[j]).0 != key) by {
            assert(forall|j: int| 0 <= j < rest.len() ==> rest[j] == entries[j]);
        }
        lemma_env_lookup_take(rest, key, i);
        assert(rest.take(i) =~= entries.take(i));
    }
}

/// Find the value for a key among parsed credential entries: the last
/// entry for the key wins.
pub fn env_get(entries: &Vec<(String, String)>, key: &String) -> (r: Option<String>)
    ensures
        r.deep_view() == env_lookup(entries.deep_view(), key@),
{
    let ghost eview = entries.deep_view();
    let mut i: usize = entries.len();
    while i > 0
        invariant
            i <= entries@.len(),
            eview == entries.deep_view(),
            eview.len() == entries@.len(),
            forall|j: int| i <= j < eview.len() ==> (#[trigger] eview[j]).0 != key@,
        decreases i,
    {
        i -= 1;
        proof {
            assert(eview[i as int] == (entries@[i as int].0@, entries@[i as int].1@));
        }
        if entries[i].0 == *key {
            proof {
                lemma_env_lookup_take(eview, key@, i + 1);
                assert(eview.take(i + 1).last() == eview[i as int]);
            }
            return Some(entries[i].1.clone());
        }
    }
    proof {
        lemma_env_lookup_take(eview, key@, 0);
        assert(eview.take(0).len() == 0);
    }
    None
}

} // verus!
