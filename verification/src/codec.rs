//! Codec for the denormalized text columns.
//!
//! The roster of an encounter preview is stored as one comma-joined text
//! column of `class:name` pairs ordered by damage per second. This module
//! holds the character-level building blocks (decimal rendering and parsing,
//! splitting and joining) and the roster encode/decode pair, with the
//! leniency policy of the store: a malformed roster entry decodes to the
//! documented placeholder instead of failing the read.

use vstd::prelude::*;

verus! {

/// Placeholder class identifier for a roster entry whose class cannot be read.
pub const UNKNOWN_CLASS_ID: u64 = 101;

/// Largest class identifier the stored format admits.
pub const MAX_CLASS_ID: u64 = 0x7fff_ffff;

/// Relies on `String::push`: appends one character to the string.
#[verifier::external_body]
pub fn push_char(s: &mut String, c: char)
    ensures
        final(s)@ == old(s)@.push(c),
{
    s.push(c);
}

/// The decimal digit character for a value below ten.
pub open spec fn digit_char(d: int) -> char {
    if d == 0 { '0' }
    else if d == 1 { '1' }
    else if d == 2 { '2' }
    else if d == 3 { '3' }
    else if d == 4 { '4' }
    else if d == 5 { '5' }
    else if d == 6 { '6' }
    else if d == 7 { '7' }
    else if d == 8 { '8' }
    else { '9' }
}

/// The decimal rendering of a number, most significant digit first.
pub open spec fn dec_digits(n: nat) -> Seq<char>
    decreases n,
{
    if n < 10 {
        seq![digit_char(n as int)]
    } else {
        dec_digits(n / 10).push(digit_char((n % 10) as int))
    }
}

fn push_digit(s: &mut String, d: u64)
    requires
        d < 10,
    ensures
        final(s)@ == old(s)@.push(digit_char(d as int)),
{
    if d == 0 { push_char(s, '0') }
    else if d == 1 { push_char(s, '1') }
    else if d == 2 { push_char(s, '2') }
    else if d == 3 { push_char(s, '3') }
    else if d == 4 { push_char(s, '4') }
    else if d == 5 { push_char(s, '5') }
    else if d == 6 { push_char(s, '6') }
    else if d == 7 { push_char(s, '7') }
    else if d == 8 { push_char(s, '8') }
    else { push_char(s, '9') }
}

/// Render a number in decimal.
pub fn u64_to_dec(n: u64) -> (r: String)
    ensures
        r@ == dec_digits(n as nat),
    decreases n,
{
    if n < 10 {
        let mut s = String::new();
        push_digit(&mut s, n);
        assert(s@ =~= dec_digits(n as nat));
        s
    } else {
        let mut s = u64_to_dec(n / 10);
        push_digit(&mut s, n % 10);
        s
    }
}

/// A decimal digit character.
pub open spec fn is_digit(c: char) -> bool {
    '0' <= c && c <= '9'
}

/// The value of a decimal digit character.
pub open spec fn digit_val(c: char) -> int {
    c as int - '0' as int
}

/// All characters are decimal digits.
pub open spec fn all_digits(s: Seq<char>) -> bool {
    forall|i: int| 0 <= i < s.len() ==> is_digit(#[trigger] s[i])
}

/// The value of a digit string, read most significant digit first.
pub open spec fn dec_val(s: Seq<char>) -> int
    decreases s.len(),
{
    if s.len() == 0 {
        0
    } else {
        dec_val(s.drop_last()) * 10 + digit_val(s.last())
    }
}

/// What parsing a decimal number returns: the value of a non-empty
/// all-digit string whose value fits, nothing otherwise.
pub open spec fn spec_parse_u64(s: Seq<char>) -> Option<u64> {
    if s.len() > 0 && all_digits(s) && dec_val(s) <= u64::MAX {
        Some(dec_val(s) as u64)
    } else {
        None
    }
}

proof fn lemma_dec_val_nonneg(s: Seq<char>)
    requires
        all_digits(s),
    ensures
        dec_val(s) >= 0,
    decreases s.len(),
{
    if s.len() > 0 {
        assert(all_digits(s.drop_last())) by {
            assert(forall|i: int| 0 <= i < s.len() - 1 ==> s.drop_last()[i] == s[i]);
        }
        lemma_dec_val_nonneg(s.drop_last());
    }
}

proof fn lemma_dec_val_monotone(s: Seq<char>, k: int)
    requires
        all_digits(s),
        0 <= k <= s.len(),
    ensures
        dec_val(s.take(k)) <= dec_val(s),
    decreases s.len() - k,
{
    if k < s.len() {
        let t = s.take(k + 1);
        assert(t.drop_last() =~= s.take(k));
        assert(all_digits(s.take(k))) by {
            assert(forall|i: int| 0 <= i < k ==> s.take(k)[i] == s[i]);
        }
        lemma_dec_val_nonneg(s.take(k));
        assert(dec_val(t) == dec_val(s.take(k)) * 10 + digit_val(t.last()));
        assert(dec_val(s.take(k)) <= dec_val(t));
        lemma_dec_val_monotone(s, k + 1);
        assert(s.take(s.len() as int) =~= s);
    } else {
        assert(s.take(k) =~= s);
    }
}

/// Parse a decimal number, rejecting anything that is empty, not all
/// digits, or too large to represent.
pub fn parse_u64(s: &str) -> (r: Option<u64>)
    ensures
        r == spec_parse_u64(s@),
{
    let n = s.unicode_len();
    if n == 0 {
        return None;
    }
    let mut acc: u64 = 0;
    let mut i: usize = 0;
    while i < n
        invariant
            0 < n == s@.len(),
            0 <= i <= n,
            all_digits(s@.take(i as int)),
            acc as int == dec_val(s@.take(i as int)),
        decreases n - i,
    {
        let c = s.get_char(i);
        if !('0' <= c && c <= '9') {
            assert(!is_digit(s@[i as int]));
            return None;
        }
        let d: u64 = (c as u32 as u64) - 48;
        assert(d == digit_val(c)) by {
            assert(c as u32 >= '0' as u32);
        }
        proof {
            assert(s@.take(i + 1).drop_last() =~= s@.take(i as int));
            assert(s@.take(i + 1).last() == s@[i as int]);
            assert(all_digits(s@.take(i + 1)));
        }
        if acc > (u64::MAX - d) / 10 {
            proof {
                assert(acc as int * 10 + d > u64::MAX) by (nonlinear_arith)
                    requires
                        acc as int > (u64::MAX - d) / 10,
                        0 <= d <= 9,
                {}
                assert(dec_val(s@.take(i + 1)) > u64::MAX);
                if all_digits(s@) {
                    lemma_dec_val_monotone(s@, i + 1);
                }
            }
            return None;
        }
        proof {
            assert(acc as int * 10 + d <= u64::MAX) by (nonlinear_arith)
                requires
                    acc as int <= (u64::MAX - d) / 10,
                    0 <= d <= 9,
            {}
        }
        acc = acc * 10 + d;
        i = i + 1;
    }
    proof {
        assert(s@.take(n as int) =~= s@);
    }
    Some(acc)
}

/// Character-wise string equality.
pub fn str_eq(a: &str, b: &str) -> (r: bool)
    ensures
        r == (a@ == b@),
{
    let n = a.unicode_len();
    let m = b.unicode_len();
    if n != m {
        assert(a@ != b@) by {
            assert(a@.len() != b@.len());
        }
        return false;
    }
    let mut i: usize = 0;
    while i < n
        invariant
            0 <= i <= n == a@.len(),
            n == b@.len(),
            forall|j: int| 0 <= j < i ==> a@[j] == #[trigger] b@[j],
        decreases n - i,
    {
        if a.get_char(i) != b.get_char(i) {
            assert(a@[i as int] != b@[i as int]);
            return false;
        }
        i = i + 1;
    }
    proof {
        assert(a@ =~= b@);
    }
    true
}

/// Index of the first occurrence of `sep`, or a negative value if there is none.
pub open spec fn find_char(s: Seq<char>, sep: char) -> int
    decreases s.len(),
{
    if s.len() == 0 {
        -1
    } else if s[0] == sep {
        0
    } else {
        let r = find_char(s.drop_first(), sep);
        if r < 0 { -1 } else { r + 1 }
    }
}

/// `find_char` finds exactly the first occurrence.
pub proof fn lemma_find_char(s: Seq<char>, sep: char)
    ensures
        find_char(s, sep) < 0 ==> forall|j: int| 0 <= j < s.len() ==> #[trigger] s[j] != sep,
        find_char(s, sep) >= 0 ==> 0 <= find_char(s, sep) < s.len()
            && s[find_char(s, sep)] == sep
            && forall|j: int| 0 <= j < find_char(s, sep) ==> #[trigger] s[j] != sep,
    decreases s.len(),
{
    if s.len() > 0 && s[0] != sep {
        let d = s.drop_first();
        lemma_find_char(d, sep);
        assert(forall|j: int| 0 <= j < d.len() ==> #[trigger] d[j] == s[j + 1]);
        let r = find_char(d, sep);
        if r >= 0 {
            assert(find_char(s, sep) == r + 1);
            assert(s[r + 1] == d[r]);
            assert forall|j: int| 0 <= j < r + 1 implies #[trigger] s[j] != sep by {
                if j > 0 {
                    assert(d[j - 1] != sep);
                    assert(s[j] == d[j - 1]);
                }
            }
        } else {
            assert forall|j: int| 0 <= j < s.len() implies #[trigger] s[j] != sep by {
                if j > 0 {
                    assert(d[j - 1] != sep);
                    assert(s[j] == d[j - 1]);
                }
            }
        }
    }
}

/// The segments of `s` between occurrences of `sep`. A string without the
/// separator is one segment, so the result is never empty; separators at the
/// edges and adjacent separators yield empty segments.
pub open spec fn split_char(s: Seq<char>, sep: char) -> Seq<Seq<char>>
    decreases s.len(),
{
    let i = find_char(s, sep);
    if 0 <= i && i < s.len() {
        seq![s.take(i)] + split_char(s.skip(i + 1), sep)
    } else {
        seq![s]
    }
}

/// The segments joined back with `sep` between them.
pub open spec fn join_char(parts: Seq<Seq<char>>, sep: char) -> Seq<char>
    decreases parts.len(),
{
    if parts.len() == 0 {
        Seq::empty()
    } else if parts.len() == 1 {
        parts[0]
    } else {
        parts[0] + seq![sep] + join_char(parts.drop_first(), sep)
    }
}

/// Joining one more segment appends a separator and the segment.
pub proof fn lemma_join_push(parts: Seq<Seq<char>>, p: Seq<char>, sep: char)
    ensures
        join_char(parts.push(p), sep) == if parts.len() == 0 {
            p
        } else {
            join_char(parts, sep) + seq![sep] + p
        },
    decreases parts.len(),
{
    if parts.len() == 0 {
        assert(parts.push(p).len() == 1);
        assert(join_char(parts.push(p), sep) == parts.push(p)[0]);
    } else {
        lemma_join_push(parts.drop_first(), p, sep);
        assert(parts.push(p).drop_first() =~~= parts.drop_first().push(p));
        if parts.len() == 1 {
            assert(join_char(parts.push(p), sep)
                == parts[0] + seq![sep] + join_char(parts.drop_first().push(p), sep));
            assert(parts.drop_first().len() == 0);
            assert(join_char(parts.drop_first().push(p), sep) == p);
        } else {
            assert(join_char(parts, sep) + seq![sep] + p
                =~= parts[0] + seq![sep] + (join_char(parts.drop_first(), sep) + seq![sep] + p));
        }
    }
}

/// Splitting a join recovers the segments, as long as no segment holds the
/// separator and there is at least one segment.
pub proof fn lemma_split_join(parts: Seq<Seq<char>>, sep: char)
    requires
        parts.len() > 0,
        forall|k: int, j: int|
            0 <= k < parts.len() && 0 <= j < parts[k].len() ==> #[trigger] parts[k][j] != sep,
    ensures
        split_char(join_char(parts, sep), sep) == parts,
    decreases parts.len(),
{
    let s = join_char(parts, sep);
    lemma_find_char(s, sep);
    if parts.len() == 1 {
        assert(s == parts[0]);
        if find_char(s, sep) >= 0 {
            assert(s[find_char(s, sep)] == sep);
            assert(false);
        }
        assert(split_char(s, sep) =~~= seq![parts[0]]);
        assert(seq![parts[0]] =~~= parts);
    } else {
        let head = parts[0];
        let rest = join_char(parts.drop_first(), sep);
        assert(s == head + seq![sep] + rest);
        let h = head.len() as int;
        assert(s[h] == sep);
        assert(forall|j: int| 0 <= j < h ==> #[trigger] s[j] == head[j]);
        // The first separator sits exactly after the head segment.
        let f = find_char(s, sep);
        assert(f >= 0);
        assert(f >= h ==> f == h) by {
            if f > h {
                assert(s[h] == sep);
            }
        }
        assert(f <= h) by {
            if f < h {
                assert(s[f] == head[f]);
            }
        }
        assert(f == h);
        assert(s.take(h) =~= head);
        assert(s.skip(h + 1) =~= rest);
        lemma_split_join(parts.drop_first(), sep);
        assert(split_char(s, sep) == seq![head] + split_char(rest, sep));
        assert(seq![head] + parts.drop_first() =~~= parts);
    }
}

/// Find the first occurrence of `sep` at or after `start`.
fn find_from(s: &str, sep: char, start: usize, n: usize) -> (r: Option<usize>)
    requires
        n == s@.len(),
        start <= n,
    ensures
        match r {
            Some(p) => start <= p < n && s@[p as int] == sep
                && forall|j: int| start <= j < p ==> #[trigger] s@[j] != sep,
            None => forall|j: int| start <= j < n ==> #[trigger] s@[j] != sep,
        },
{
    let mut i: usize = start;
    while i < n
        invariant
            start <= i <= n == s@.len(),
            forall|j: int| start <= j < i ==> #[trigger] s@[j] != sep,
        decreases n - i,
    {
        if s.get_char(i) == sep {
            return Some(i);
        }
        i = i + 1;
    }
    None
}

/// Split into the segments between occurrences of `sep`.
pub fn split_str(s: &str, sep: char) -> (r: Vec<String>)
    ensures
        r@.map_values(|t: String| t@) == split_char(s@, sep),
        r@.len() > 0,
{
    let n = s.unicode_len();
    let mut parts: Vec<String> = Vec::new();
    let mut start: usize = 0;
    proof {
        assert(s@.skip(0) =~= s@);
    }
    loop
        invariant
            start <= n == s@.len(),
            split_char(s@, sep) =~~= parts@.map_values(|t: String| t@)
                + split_char(s@.skip(start as int), sep),
        decreases n - start,
    {
        let u = Ghost(s@.skip(start as int));
        proof {
            lemma_find_char(u@, sep);
            assert(forall|j: int| 0 <= j < u@.len() ==> #[trigger] u@[j] == s@[start + j]);
        }
        match find_from(s, sep, start, n) {
            Some(p) => {
                proof {
                    let f = find_char(u@, sep);
                    assert(u@[p - start] == sep);
                    if f < 0 {
                        assert(u@[p - start] != sep);
                    }
                    assert(f >= 0);
                    if f < p - start {
                        assert(s@[start + f] != sep);
                        assert(u@[f] == sep);
                    }
                    if f > p - start {
                        assert(u@[p - start] != sep);
                    }
                    assert(f == p - start);
                    assert(u@.take(f) =~= s@.subrange(start as int, p as int));
                    assert(u@.skip(f + 1) =~= s@.skip(p + 1));
                }
                let seg = s.substring_char(start, p).to_owned();
                let ghost prev = parts@;
                parts.push(seg);
                proof {
                    assert(parts@.map_values(|t: String| t@)
                        =~~= prev.map_values(|t: String| t@).push(seg@));
                }
                start = p + 1;
            },
            None => {
                proof {
                    let f = find_char(u@, sep);
                    if f >= 0 {
                        assert(s@[start + f] != sep);
                        assert(u@[f] == sep);
                    }
                    assert(split_char(u@, sep) == seq![u@]);
                    assert(u@ =~= s@.subrange(start as int, n as int));
                }
                let seg = s.substring_char(start, n).to_owned();
                let ghost prev = parts@;
                parts.push(seg);
                proof {
                    assert(parts@.map_values(|t: String| t@)
                        =~~= prev.map_values(|t: String| t@).push(seg@));
                    assert(split_char(s@, sep) =~~= parts@.map_values(|t: String| t@));
                }
                return parts;
            },
        }
    }
}

/// The stored text of one roster entry: class identifier, a colon, the name.
pub open spec fn entry_text(class_id: u64, name: Seq<char>) -> Seq<char> {
    dec_digits(class_id as nat) + seq![':'] + name
}

/// View of exec roster entries as class/name pairs over character sequences.
pub open spec fn roster_view(entries: Seq<(u64, String)>) -> Seq<(u64, Seq<char>)> {
    entries.map_values(|e: (u64, String)| (e.0, e.1@))
}

/// The stored roster text: entry texts joined with commas.
pub open spec fn spec_encode_roster(entries: Seq<(u64, Seq<char>)>) -> Seq<char> {
    join_char(entries.map_values(|e: (u64, Seq<char>)| entry_text(e.0, e.1)), ',')
}

/// What one roster segment decodes to. A segment that does not consist of
/// exactly two colon-separated fields, the first a well-formed class
/// identifier, yields the documented placeholder values instead of an error.
pub open spec fn spec_decode_entry(part: Seq<char>) -> (u64, Seq<char>) {
    let fields = split_char(part, ':');
    if fields.len() != 2 {
        (UNKNOWN_CLASS_ID, "Unknown"@)
    } else {
        match spec_parse_u64(fields[0]) {
            Some(v) => if v <= MAX_CLASS_ID {
                (v, fields[1])
            } else {
                (UNKNOWN_CLASS_ID, fields[1])
            },
            None => (UNKNOWN_CLASS_ID, fields[1]),
        }
    }
}

/// What a stored roster text decodes to: one class/name pair per
/// comma-separated segment.
pub open spec fn spec_decode_roster(s: Seq<char>) -> Seq<(u64, Seq<char>)> {
    split_char(s, ',').map_values(|p: Seq<char>| spec_decode_entry(p))
}

/// Encode a roster as its stored text form.
pub fn encode_roster(entries: &Vec<(u64, String)>) -> (r: String)
    ensures
        r@ == spec_encode_roster(roster_view(entries@)),
{
    let ghost texts = roster_view(entries@).map_values(|e: (u64, Seq<char>)| entry_text(e.0, e.1));
    let mut acc = String::new();
    let mut i: usize = 0;
    proof {
        assert(acc@ =~= join_char(texts.take(0), ','));
    }
    while i < entries.len()
        invariant
            0 <= i <= entries.len(),
            texts == roster_view(entries@).map_values(|e: (u64, Seq<char>)| entry_text(e.0, e.1)),
            texts.len() == entries.len(),
            acc@ == join_char(texts.take(i as int), ','),
        decreases entries.len() - i,
    {
        if i > 0 {
            push_char(&mut acc, ',');
        }
        let class_text = u64_to_dec(entries[i].0);
        acc.append(class_text.as_str());
        push_char(&mut acc, ':');
        acc.append(entries[i].1.as_str());
        proof {
            lemma_join_push(texts.take(i as int), texts[i as int], ',');
            assert(texts.take(i + 1) =~~= texts.take(i as int).push(texts[i as int]));
            assert(texts[i as int] == entry_text(entries@[i as int].0, entries@[i as int].1@));
            assert(acc@ =~= join_char(texts.take(i + 1), ','));
        }
        i = i + 1;
    }
    proof {
        assert(texts.take(entries@.len() as int) =~= texts);
    }
    acc
}

fn decode_entry(part: &str) -> (r: (u64, String))
    ensures
        (r.0, r.1@) == spec_decode_entry(part@),
{
    let fields = split_str(part, ':');
    let ghost sf = split_char(part@, ':');
    if fields.len() != 2 {
        (UNKNOWN_CLASS_ID, "Unknown".to_owned())
    } else {
        proof {
            assert(fields@[0]@ == sf[0]);
            assert(fields@[1]@ == sf[1]);
        }
        let name = fields[1].clone();
        match parse_u64(fields[0].as_str()) {
            Some(v) => {
                if v <= MAX_CLASS_ID {
                    (v, name)
                } else {
                    (UNKNOWN_CLASS_ID, name)
                }
            },
            None => (UNKNOWN_CLASS_ID, name),
        }
    }
}

/// Decode a stored roster text into its parallel class and name sequences,
/// one pair per comma-separated segment, substituting placeholders for
/// malformed segments rather than failing the read.
pub fn decode_roster(s: &str) -> (r: (Vec<u64>, Vec<String>))
    ensures
        r.0@.len() == spec_decode_roster(s@).len(),
        r.1@.len() == spec_decode_roster(s@).len(),
        forall|i: int| 0 <= i < r.0@.len()
            ==> (r.0@[i], r.1@[i]@) == #[trigger] spec_decode_roster(s@)[i],
{
    let parts = split_str(s, ',');
    let ghost sp = split_char(s@, ',');
    let mut classes: Vec<u64> = Vec::new();
    let mut names: Vec<String> = Vec::new();
    let mut i: usize = 0;
    while i < parts.len()
        invariant
            0 <= i <= parts.len(),
            parts@.map_values(|t: String| t@) == sp,
            sp == split_char(s@, ','),
            classes@.len() == i,
            names@.len() == i,
            forall|k: int| 0 <= k < i
                ==> (classes@[k], names@[k]@) == #[trigger] spec_decode_roster(s@)[k],
        decreases parts.len() - i,
    {
        proof {
            assert(parts@[i as int]@ == sp[i as int]);
        }
        let (c, n) = decode_entry(parts[i].as_str());
        classes.push(c);
        names.push(n);
        i = i + 1;
    }
    (classes, names)
}

/// A roster entry the encoder is meant for: a class identifier in range and a
/// name free of the two separator characters.
pub open spec fn wf_roster_entry(e: (u64, Seq<char>)) -> bool {
    e.0 <= MAX_CLASS_ID
    && forall|j: int| 0 <= j < e.1.len() ==> e.1[j] != ',' && #[trigger] e.1[j] != ':'
}

proof fn lemma_dec_digits_are_digits(n: nat)
    ensures
        all_digits(dec_digits(n)),
        dec_digits(n).len() > 0,
    decreases n,
{
    if n >= 10 {
        lemma_dec_digits_are_digits(n / 10);
    }
}

proof fn lemma_digit_char_val(d: int)
    requires
        0 <= d < 10,
    ensures
        digit_val(digit_char(d)) == d,
{
    assert('0' as int == 48 && '1' as int == 49 && '2' as int == 50 && '3' as int == 51
        && '4' as int == 52 && '5' as int == 53 && '6' as int == 54 && '7' as int == 55
        && '8' as int == 56 && '9' as int == 57);
}

proof fn lemma_dec_digits_value(n: nat)
    ensures
        dec_val(dec_digits(n)) == n,
    decreases n,
{
    if n < 10 {
        lemma_digit_char_val(n as int);
        let s = dec_digits(n);
        assert(s == seq![digit_char(n as int)]);
        assert(s.len() == 1);
        assert(s.last() == digit_char(n as int));
        assert(s.drop_last() =~= Seq::<char>::empty());
        assert(dec_val(s) == dec_val(s.drop_last()) * 10 + digit_val(s.last()));
        assert(dec_val(s.drop_last()) == 0);
    } else {
        lemma_dec_digits_value(n / 10);
        lemma_digit_char_val((n % 10) as int);
        let s = dec_digits(n);
        assert(s == dec_digits(n / 10).push(digit_char((n % 10) as int)));
        assert(s.len() > 0);
        assert(s.last() == digit_char((n % 10) as int));
        assert(s.drop_last() =~= dec_digits(n / 10));
        assert(dec_val(s) == dec_val(s.drop_last()) * 10 + digit_val(s.last()));
        assert(dec_val(s) == (n / 10) * 10 + (n % 10));
    }
}

proof fn lemma_decode_entry_roundtrip(e: (u64, Seq<char>))
    requires
        wf_roster_entry(e),
    ensures
        spec_decode_entry(entry_text(e.0, e.1)) == e,
{
    let ds = dec_digits(e.0 as nat);
    lemma_dec_digits_are_digits(e.0 as nat);
    lemma_dec_digits_value(e.0 as nat);
    let parts = seq![ds, e.1];
    assert(join_char(parts, ':') == ds + seq![':'] + join_char(parts.drop_first(), ':'));
    assert(parts.drop_first() =~~= seq![e.1]);
    assert(join_char(seq![e.1], ':') == e.1);
    assert forall|k: int, j: int|
        0 <= k < parts.len() && 0 <= j < parts[k].len() implies #[trigger] parts[k][j] != ':' by {
        if k == 0 {
            assert(is_digit(ds[j]));
        }
    }
    lemma_split_join(parts, ':');
    assert(split_char(entry_text(e.0, e.1), ':') == parts);
    assert(spec_parse_u64(ds) == Some(e.0));
}

/// Decoding an encoded roster gives back exactly the encoded entries: the
/// codec loses nothing on well-formed, non-empty rosters.
pub proof fn lemma_roster_roundtrip(entries: Seq<(u64, Seq<char>)>)
    requires
        entries.len() > 0,
        forall|k: int| 0 <= k < entries.len() ==> wf_roster_entry(#[trigger] entries[k]),
    ensures
        spec_decode_roster(spec_encode_roster(entries)) == entries,
{
    let texts = entries.map_values(|e: (u64, Seq<char>)| entry_text(e.0, e.1));
    assert forall|k: int, j: int|
        0 <= k < texts.len() && 0 <= j < texts[k].len() implies #[trigger] texts[k][j] != ',' by {
        let e = entries[k];
        lemma_dec_digits_are_digits(e.0 as nat);
        let ds = dec_digits(e.0 as nat);
        assert(texts[k] == ds + seq![':'] + e.1);
        if j < ds.len() {
            assert(is_digit(texts[k][j]));
        } else if j > ds.len() {
            assert(texts[k][j] == e.1[j - ds.len() - 1]);
        }
    }
    lemma_split_join(texts, ',');
    assert forall|k: int| 0 <= k < entries.len()
        implies #[trigger] spec_decode_roster(spec_encode_roster(entries))[k] == entries[k] by {
        lemma_decode_entry_roundtrip(entries[k]);
    }
    assert(spec_decode_roster(spec_encode_roster(entries)) =~= entries);
}

} // verus!
