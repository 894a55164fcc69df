use vstd::prelude::*;

use crate::command::{is_digit, Command, GetArrayElements, GetKey, ListKeys, Step};
use crate::text::chars_of;

verus! {

/// A character of a bare key: ASCII letter or digit, `_` or `-`.
pub open spec fn is_word_char(c: char) -> bool {
    ('a' <= c <= 'z') || ('A' <= c <= 'Z') || is_digit(c) || c == '_' || c == '-'
}

/// A character allowed between brackets: ASCII digit or `,`.
pub open spec fn is_index_char(c: char) -> bool {
    is_digit(c) || c == ','
}

/// Where the run of key characters that starts at `i` ends.
pub open spec fn word_end(s: Seq<char>, i: int) -> int
    decreases s.len() - i,
{
    if 0 <= i < s.len() && is_word_char(s[i]) {
        word_end(s, i + 1)
    } else {
        i
    }
}

/// Where the run of index characters that starts at `i` ends.
pub open spec fn index_end(s: Seq<char>, i: int) -> int
    decreases s.len() - i,
{
    if 0 <= i < s.len() && is_index_char(s[i]) {
        index_end(s, i + 1)
    } else {
        i
    }
}

/// Whether a bracketed index expression starts at `i`.
pub open spec fn bracket_at(s: Seq<char>, i: int) -> bool {
    &&& 0 <= i < s.len()
    &&& s[i] == '['
    &&& index_end(s, i + 1) < s.len()
    &&& s[index_end(s, i + 1)] == ']'
}

/// The command that a bare word stands for.
pub open spec fn word_step(w: Seq<char>) -> Step {
    if w == "listkeys"@ {
        Step::Keys
    } else {
        Step::Key(w)
    }
}

/// The commands of the query `s` from position `i` on. At each position the
/// first shape that fits wins: a `.` (a separator, no command), a bracketed
/// index expression, a run of key characters; any other character is skipped.
pub open spec fn scan(s: Seq<char>, i: int) -> Seq<Step>
    decreases s.len() - i,
    when 0 <= i
    via scan_decreases
{
    if i >= s.len() {
        Seq::empty()
    } else if s[i] == '.' {
        scan(s, i + 1)
    } else if bracket_at(s, i) {
        let e = index_end(s, i + 1);
        seq![Step::Elements(s.subrange(i + 1, e))] + scan(s, e + 1)
    } else if is_word_char(s[i]) {
        let e = word_end(s, i);
        seq![word_step(s.subrange(i, e))] + scan(s, e)
    } else {
        scan(s, i + 1)
    }
}

proof fn lemma_word_end(s: Seq<char>, i: int)
    requires
        0 <= i <= s.len(),
    ensures
        i <= word_end(s, i) <= s.len(),
        i < s.len() && is_word_char(s[i]) ==> i < word_end(s, i),
        forall|k: int| i <= k < word_end(s, i) ==> is_word_char(#[trigger] s[k]),
    decreases s.len() - i,
{
    if i < s.len() && is_word_char(s[i]) {
        lemma_word_end(s, i + 1);
    }
}

proof fn lemma_index_end(s: Seq<char>, i: int)
    requires
        0 <= i <= s.len(),
    ensures
        i <= index_end(s, i) <= s.len(),
        forall|k: int| i <= k < index_end(s, i) ==> is_index_char(#[trigger] s[k]),
    decreases s.len() - i,
{
    if i < s.len() && is_index_char(s[i]) {
        lemma_index_end(s, i + 1);
    }
}

#[via_fn]
proof fn scan_decreases(s: Seq<char>, i: int) {
    if 0 <= i < s.len() {
        lemma_word_end(s, i);
        lemma_index_end(s, i + 1);
    }
}

/// The pictures of a sequence of commands, in order.
pub open spec fn steps(cs: Seq<Command>) -> Seq<Step> {
    cs.map_values(|c: Command| c@)
}

/// The end of the run of characters of `cs` from `i` on that are key
/// characters (`word`) or index characters (not `word`).
fn run_end(cs: &Vec<char>, i: usize, word: bool) -> (r: usize)
    requires
        i <= cs.len(),
    ensures
        word ==> r == word_end(cs@, i as int),
        !word ==> r == index_end(cs@, i as int),
{
    let mut j: usize = i;
    while j < cs.len()
        invariant
            i <= j <= cs.len(),
            word ==> word_end(cs@, i as int) == word_end(cs@, j as int),
            !word ==> index_end(cs@, i as int) == index_end(cs@, j as int),
        decreases cs.len() - j,
    {
        let c = cs[j];
        let digit = '0' <= c && c <= '9';
        let fits = if word {
            ('a' <= c && c <= 'z') || ('A' <= c && c <= 'Z') || digit || c == '_' || c == '-'
        } else {
            digit || c == ','
        };
        if !fits {
            return j;
        }
        j += 1;
    }
    j
}

/// Turns a query into its pipeline of commands. Nothing is rejected: text that
/// fits none of the shapes is skipped.
pub fn tokenize(query: &str) -> (r: Vec<Command>)
    ensures
        steps(r@) == scan(query@, 0),
{
    let cs = chars_of(query);
    let ghost s = query@;
    let mut out: Vec<Command> = Vec::new();
    let mut i: usize = 0;
    while i < cs.len()
        invariant
            cs@ == s,
            s == query@,
            i <= cs.len(),
            steps(out@) + scan(s, i as int) == scan(s, 0),
        decreases cs.len() - i,
    {
        let ghost before = steps(out@);
        let ghost at = i as int;
        let c = cs[i];
        if c == '.' {
            i += 1;
            continue;
        }
        if c == '[' {
            let e = run_end(&cs, i + 1, false);
            if e < cs.len() && cs[e] == ']' {
                proof {
                    lemma_index_end(s, i + 1);
                }
                let indices = query.substring_char(i + 1, e).to_owned();
                out.push(Command::GetArrayElements(GetArrayElements { indices }));
                assert(steps(out@) =~= before.push(Step::Elements(s.subrange(i + 1, e as int))));
                i = e + 1;
                assert(steps(out@) + scan(s, i as int) =~= before + scan(s, at));
                continue;
            }
        }
        let digit = '0' <= c && c <= '9';
        if ('a' <= c && c <= 'z') || ('A' <= c && c <= 'Z') || digit || c == '_' || c == '-' {
            let e = run_end(&cs, i, true);
            proof {
                lemma_word_end(s, i as int);
            }
            let word = query.substring_char(i, e).to_owned();
            let list_keys = "listkeys".to_owned();
            let command = if word == list_keys {
                Command::ListKeys(ListKeys {})
            } else {
                Command::GetKey(GetKey { key: word })
            };
            out.push(command);
            assert(steps(out@) =~= before.push(word_step(s.subrange(i as int, e as int))));
            i = e;
        } else {
            i += 1;
        }
    }
    assert(steps(out@) + scan(s, i as int) =~= steps(out@));
    out
}

} // verus!
