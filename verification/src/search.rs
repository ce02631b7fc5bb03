//! Free-text search: tokenization, escaping and matching.
//!
//! The search index matches the way the stored trigram index does, up to the
//! library's documented tokenization: a query is split into whitespace-
//! separated tokens, embedded quote characters are stripped to keep the query
//! syntax intact, and a row matches when every token occurs, ignoring ASCII
//! case, as a substring of the row's boss name or roster string.

use vstd::prelude::*;
use crate::codec::{join_char, push_char, split_char, split_str};

verus! {

/// Whitespace for the purpose of splitting a query into tokens.
pub open spec fn is_ws(c: char) -> bool {
    c == ' ' || c == '\t' || c == '\n' || c == '\r'
}

/// The query with every whitespace character unified to a plain space.
pub open spec fn normalize_ws(s: Seq<char>) -> Seq<char> {
    s.map_values(|c: char| if is_ws(c) { ' ' } else { c })
}

/// The whitespace-separated words of a query, empties dropped.
pub open spec fn spec_words(s: Seq<char>) -> Seq<Seq<char>> {
    split_char(normalize_ws(s), ' ').filter(|w: Seq<char>| w.len() > 0)
}

/// A word with every embedded quote character removed.
pub open spec fn strip_quotes(w: Seq<char>) -> Seq<char> {
    w.filter(|c: char| c != '"')
}

/// A stripped word wrapped in quotes, the form bound into the query.
pub open spec fn quote_word(w: Seq<char>) -> Seq<char> {
    seq!['"'] + strip_quotes(w) + seq!['"']
}

/// The escaped form of a free-text search: each word stripped of quote
/// characters, quoted, and the words joined by single spaces. Quote stripping
/// means no caller-supplied character can terminate a phrase early.
pub open spec fn spec_escape_search(s: Seq<char>) -> Seq<char> {
    join_char(spec_words(s).map_values(|w: Seq<char>| quote_word(w)), ' ')
}

/// The tokens a search matches by: the stripped words.
pub open spec fn spec_tokens(s: Seq<char>) -> Seq<Seq<char>> {
    spec_words(s).map_values(|w: Seq<char>| strip_quotes(w))
}

/// Whitespace test on one character.
pub fn is_ws_char(c: char) -> (r: bool)
    ensures
        r == is_ws(c),
{
    c == ' ' || c == '\t' || c == '\n' || c == '\r'
}

fn normalize(s: &str) -> (r: String)
    ensures
        r@ == normalize_ws(s@),
{
    let n = s.unicode_len();
    let mut out = String::new();
    let mut i: usize = 0;
    proof {
        assert(out@ =~= normalize_ws(s@.take(0)));
    }
    while i < n
        invariant
            0 <= i <= n == s@.len(),
            out@ == normalize_ws(s@.take(i as int)),
        decreases n - i,
    {
        let c = s.get_char(i);
        if is_ws_char(c) {
            push_char(&mut out, ' ');
        } else {
            push_char(&mut out, c);
        }
        proof {
            assert(out@ =~= normalize_ws(s@.take(i + 1)));
        }
        i = i + 1;
    }
    proof {
        assert(s@.take(n as int) =~= s@);
    }
    out
}

fn strip_quotes_exec(w: &str) -> (r: String)
    ensures
        r@ == strip_quotes(w@),
{
    let n = w.unicode_len();
    let mut out = String::new();
    let mut i: usize = 0;
    proof {
        reveal_with_fuel(Seq::<_>::filter, 2);
        assert(out@ =~= strip_quotes(w@.take(0)));
    }
    while i < n
        invariant
            0 <= i <= n == w@.len(),
            out@ == strip_quotes(w@.take(i as int)),
        decreases n - i,
    {
        let c = w.get_char(i);
        if c != '"' {
            push_char(&mut out, c);
        }
        proof {
            reveal_with_fuel(Seq::<_>::filter, 2);
            assert(w@.take(i + 1) =~= w@.take(i as int) + seq![w@[i as int]]);
            assert(seq![w@[i as int]].drop_last() =~= Seq::<char>::empty());
            Seq::<char>::filter_distributes_over_add(
                w@.take(i as int),
                seq![w@[i as int]],
                |c: char| c != '"',
            );
            assert(seq![w@[i as int]].filter(|c: char| c != '"') =~= if w@[i as int] != '"' {
                seq![w@[i as int]]
            } else {
                Seq::<char>::empty()
            });
        }
        i = i + 1;
    }
    proof {
        assert(w@.take(n as int) =~= w@);
    }
    out
}

/// The whitespace-separated words of a query.
pub fn words(s: &str) -> (r: Vec<String>)
    ensures
        r@.map_values(|t: String| t@) == spec_words(s@),
{
    let normalized = normalize(s);
    let parts = split_str(normalized.as_str(), ' ');
    let ghost sp = split_char(normalize_ws(s@), ' ');
    let mut out: Vec<String> = Vec::new();
    let mut i: usize = 0;
    proof {
        reveal_with_fuel(Seq::<_>::filter, 2);
        assert(out@.map_values(|t: String| t@) =~~= sp.take(0).filter(|w: Seq<char>| w.len() > 0));
    }
    while i < parts.len()
        invariant
            0 <= i <= parts.len(),
            parts@.map_values(|t: String| t@) == sp,
            sp == split_char(normalize_ws(s@), ' '),
            out@.map_values(|t: String| t@) == sp.take(i as int).filter(|w: Seq<char>| w.len() > 0),
        decreases parts.len() - i,
    {
        proof {
            reveal_with_fuel(Seq::<_>::filter, 2);
            assert(parts@[i as int]@ == sp[i as int]);
            assert(sp.take(i + 1) =~~= sp.take(i as int) + seq![sp[i as int]]);
            assert(seq![sp[i as int]].drop_last() =~~= Seq::<Seq<char>>::empty());
            Seq::<Seq<char>>::filter_distributes_over_add(
                sp.take(i as int),
                seq![sp[i as int]],
                |w: Seq<char>| w.len() > 0,
            );
            assert(seq![sp[i as int]].filter(|w: Seq<char>| w.len() > 0) =~~= if sp[i as int].len()
                > 0 {
                seq![sp[i as int]]
            } else {
                Seq::<Seq<char>>::empty()
            });
        }
        if parts[i].as_str().unicode_len() > 0 {
            let ghost prev = out@;
            out.push(parts[i].clone());
            proof {
                assert(out@.map_values(|t: String| t@)
                    =~~= prev.map_values(|t: String| t@).push(parts@[i as int]@));
            }
        }
        i = i + 1;
    }
    proof {
        assert(sp.take(parts@.len() as int) =~~= sp);
    }
    out
}

/// Escape a free-text search for binding: quote-stripped words, each quoted,
/// joined by spaces.
pub fn escape_search(s: &str) -> (r: String)
    ensures
        r@ == spec_escape_search(s@),
{
    let ws = words(s);
    let ghost quoted = spec_words(s@).map_values(|w: Seq<char>| quote_word(w));
    let mut acc = String::new();
    let mut i: usize = 0;
    proof {
        assert(acc@ =~= join_char(quoted.take(0), ' '));
    }
    while i < ws.len()
        invariant
            0 <= i <= ws.len(),
            ws@.map_values(|t: String| t@) == spec_words(s@),
            quoted == spec_words(s@).map_values(|w: Seq<char>| quote_word(w)),
            acc@ == join_char(quoted.take(i as int), ' '),
        decreases ws.len() - i,
    {
        if i > 0 {
            push_char(&mut acc, ' ');
        }
        push_char(&mut acc, '"');
        let stripped = strip_quotes_exec(ws[i].as_str());
        acc.append(stripped.as_str());
        push_char(&mut acc, '"');
        proof {
            crate::codec::lemma_join_push(quoted.take(i as int), quoted[i as int], ' ');
            assert(quoted.take(i + 1) =~~= quoted.take(i as int).push(quoted[i as int]));
            assert(ws@[i as int]@ == spec_words(s@)[i as int]);
            assert(quoted[i as int] == quote_word(ws@[i as int]@));
            assert(acc@ =~= join_char(quoted.take(i + 1), ' '));
        }
        i = i + 1;
    }
    proof {
        assert(quoted.take(ws@.len() as int) =~~= quoted);
    }
    acc
}

/// The tokens a search matches by.
pub fn search_tokens(s: &str) -> (r: Vec<String>)
    ensures
        r@.map_values(|t: String| t@) == spec_tokens(s@),
{
    let ws = words(s);
    let mut out: Vec<String> = Vec::new();
    let mut i: usize = 0;
    while i < ws.len()
        invariant
            0 <= i <= ws.len(),
            ws@.map_values(|t: String| t@) == spec_words(s@),
            out@.len() == i,
            forall|k: int| 0 <= k < i ==> out@[k]@ == #[trigger] spec_tokens(s@)[k],
        decreases ws.len() - i,
    {
        proof {
            assert(ws@[i as int]@ == spec_words(s@)[i as int]);
        }
        let t = strip_quotes_exec(ws[i].as_str());
        out.push(t);
        i = i + 1;
    }
    proof {
        assert(out@.map_values(|t: String| t@) =~~= spec_tokens(s@));
    }
    out
}

/// ASCII lowercase folding, the case under which the index matches.
pub open spec fn lower_char(c: char) -> char {
    match c {
        'A' => 'a', 'B' => 'b', 'C' => 'c', 'D' => 'd', 'E' => 'e', 'F' => 'f',
        'G' => 'g', 'H' => 'h', 'I' => 'i', 'J' => 'j', 'K' => 'k', 'L' => 'l',
        'M' => 'm', 'N' => 'n', 'O' => 'o', 'P' => 'p', 'Q' => 'q', 'R' => 'r',
        'S' => 's', 'T' => 't', 'U' => 'u', 'V' => 'v', 'W' => 'w', 'X' => 'x',
        'Y' => 'y', 'Z' => 'z', _ => c,
    }
}

/// A text folded to ASCII lowercase.
pub open spec fn lower(s: Seq<char>) -> Seq<char> {
    s.map_values(|c: char| lower_char(c))
}

fn to_lower(c: char) -> (r: char)
    ensures
        r == lower_char(c),
{
    match c {
        'A' => 'a', 'B' => 'b', 'C' => 'c', 'D' => 'd', 'E' => 'e', 'F' => 'f',
        'G' => 'g', 'H' => 'h', 'I' => 'i', 'J' => 'j', 'K' => 'k', 'L' => 'l',
        'M' => 'm', 'N' => 'n', 'O' => 'o', 'P' => 'p', 'Q' => 'q', 'R' => 'r',
        'S' => 's', 'T' => 't', 'U' => 'u', 'V' => 'v', 'W' => 'w', 'X' => 'x',
        'Y' => 'y', 'Z' => 'z', _ => c,
    }
}

/// The needle occurs in the haystack starting at position `i`.
pub open spec fn contains_at(hay: Seq<char>, needle: Seq<char>, i: int) -> bool {
    0 <= i && i + needle.len() <= hay.len() && hay.subrange(i, i + needle.len()) == needle
}

/// The needle occurs somewhere in the haystack.
pub open spec fn is_substring(hay: Seq<char>, needle: Seq<char>) -> bool {
    exists|i: int| contains_at(hay, needle, i)
}

/// One token matches a row when it occurs, case folded, in the boss name or
/// in the roster string.
pub open spec fn token_matches(tok: Seq<char>, boss: Seq<char>, players: Seq<char>) -> bool {
    is_substring(lower(boss), lower(tok)) || is_substring(lower(players), lower(tok))
}

/// A row matches a search when every token matches it.
pub open spec fn text_matches(tokens: Seq<Seq<char>>, boss: Seq<char>, players: Seq<char>) -> bool {
    forall|k: int| 0 <= k < tokens.len() ==> token_matches(#[trigger] tokens[k], boss, players)
}

fn match_at(hay: &str, needle: &str, i: usize, hn: usize, nn: usize) -> (r: bool)
    requires
        hn == hay@.len(),
        nn == needle@.len(),
        i + nn <= hn,
    ensures
        r == contains_at(lower(hay@), lower(needle@), i as int),
{
    let ghost lh = lower(hay@);
    let ghost ln = lower(needle@);
    let mut j: usize = 0;
    while j < nn
        invariant
            0 <= j <= nn,
            i + nn <= hn,
            hn == hay@.len() && nn == needle@.len(),
            lh == lower(hay@) && ln == lower(needle@),
            forall|t: int| 0 <= t < j ==> lh[i + t] == #[trigger] ln[t],
        decreases nn - j,
    {
        let hc = to_lower(hay.get_char(i + j));
        let nc = to_lower(needle.get_char(j));
        if hc != nc {
            proof {
                assert(lh[i + j] != ln[j as int]);
                if contains_at(lh, ln, i as int) {
                    assert(lh.subrange(i as int, i + ln.len())[j as int] == lh[i + j]);
                }
            }
            return false;
        }
        j = j + 1;
    }
    proof {
        assert(lh.subrange(i as int, i + nn) =~= ln);
    }
    true
}

/// Case-folded substring test.
pub fn contains_ci(hay: &str, needle: &str) -> (r: bool)
    ensures
        r == is_substring(lower(hay@), lower(needle@)),
{
    let hn = hay.unicode_len();
    let nn = needle.unicode_len();
    let ghost lh = lower(hay@);
    let ghost ln = lower(needle@);
    if nn > hn {
        proof {
            assert forall|i: int| !contains_at(lh, ln, i) by {}
        }
        return false;
    }
    if nn == 0 {
        proof {
            assert(lh.subrange(0, 0) =~= ln);
            assert(contains_at(lh, ln, 0));
        }
        return true;
    }
    let mut i: usize = 0;
    while i <= hn - nn
        invariant
            0 <= i <= hn - nn + 1,
            1 <= nn <= hn,
            hn == hay@.len() && nn == needle@.len(),
            lh == lower(hay@) && ln == lower(needle@),
            forall|k: int| 0 <= k < i ==> !contains_at(lh, ln, k),
        decreases hn - nn + 1 - i,
    {
        if match_at(hay, needle, i, hn, nn) {
            return true;
        }
        i = i + 1;
    }
    proof {
        assert forall|k: int| !contains_at(lh, ln, k) by {
            if 0 <= k && k + ln.len() <= lh.len() {
                assert(k < i);
            }
        }
    }
    false
}

/// Does the row with this boss name and roster match every token?
pub fn matches_tokens(tokens: &Vec<String>, boss: &str, players: &str) -> (r: bool)
    ensures
        r == text_matches(
            tokens@.map_values(|t: String| t@),
            boss@,
            players@,
        ),
{
    let ghost toks = tokens@.map_values(|t: String| t@);
    let mut k: usize = 0;
    while k < tokens.len()
        invariant
            0 <= k <= tokens.len(),
            toks == tokens@.map_values(|t: String| t@),
            forall|t: int| 0 <= t < k ==> token_matches(#[trigger] toks[t], boss@, players@),
        decreases tokens.len() - k,
    {
        proof {
            assert(tokens@[k as int]@ == toks[k as int]);
        }
        let in_boss = contains_ci(boss, tokens[k].as_str());
        if !in_boss {
            let in_players = contains_ci(players, tokens[k].as_str());
            if !in_players {
                return false;
            }
        }
        k = k + 1;
    }
    true
}

} // verus!
