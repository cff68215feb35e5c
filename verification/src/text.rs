//! Text as sequences of characters: splitting, trimming, searching,
//! rendering numbers and measuring encoded lengths.

use vstd::prelude::*;
use vstd::slice::slice_subrange;

verus! {

/// `String::push` of std: appends one character to the end of the text.
pub assume_specification[ String::push ](s: &mut String, ch: char)
    ensures
        final(s)@ == old(s)@.push(ch),
;

// ---------------------------------------------------------------------------
// Views of nested text.

/// The texts held by a sequence of strings.
pub open spec fn texts(items: Seq<String>) -> Seq<Seq<char>> {
    Seq::new(items.len(), |i: int| items[i]@)
}

/// The texts held by a sequence of character vectors.
pub open spec fn rows(items: Seq<Vec<char>>) -> Seq<Seq<char>> {
    Seq::new(items.len(), |i: int| items[i]@)
}

/// The view of an optional string.
pub open spec fn opt_text(value: Option<String>) -> Option<Seq<char>> {
    match value {
        Some(s) => Some(s@),
        None => None,
    }
}

/// The view of an optional string slice.
pub open spec fn opt_str(value: Option<&str>) -> Option<Seq<char>> {
    match value {
        Some(s) => Some(s@),
        None => None,
    }
}

/// The characters of a string slice.
pub fn chars_of(s: &str) -> (out: Vec<char>)
    ensures
        out@ == s@,
{
    let mut out: Vec<char> = Vec::new();
    for c in it: s.chars()
        invariant
            out@ == it.seq().take(it.index() as int),
            it.seq() == s@,
    {
        out.push(c);
    }
    proof {
        assert(s@.take(s@.len() as int) =~= s@);
    }
    out
}

/// The string with the given characters.
pub fn text_of(cs: &[char]) -> (out: String)
    ensures
        out@ == cs@,
{
    let mut out = String::new();
    let mut i: usize = 0;
    while i < cs.len()
        invariant
            i <= cs@.len(),
            out@ == cs@.take(i as int),
        decreases cs@.len() - i,
    {
        out.push(cs[i]);
        i += 1;
    }
    proof {
        assert(cs@.take(cs@.len() as int) =~= cs@);
    }
    out
}

/// A copy of a stretch of characters.
pub fn copy_range(cs: &[char], start: usize, end: usize) -> (out: Vec<char>)
    requires
        start <= end <= cs@.len(),
    ensures
        out@ == cs@.subrange(start as int, end as int),
{
    let mut out: Vec<char> = Vec::new();
    let mut i: usize = start;
    while i < end
        invariant
            start <= i <= end <= cs@.len(),
            out@ == cs@.subrange(start as int, i as int),
        decreases end - i,
    {
        out.push(cs[i]);
        i += 1;
    }
    out
}

/// Appends a stretch of characters to a vector.
pub fn push_all(out: &mut Vec<char>, cs: &[char])
    ensures
        final(out)@ == old(out)@ + cs@,
{
    let mut i: usize = 0;
    proof {
        assert(out@ =~= old(out)@ + cs@.take(0));
    }
    while i < cs.len()
        invariant
            i <= cs@.len(),
            out@ == old(out)@ + cs@.take(i as int),
        decreases cs@.len() - i,
    {
        out.push(cs[i]);
        i += 1;
        proof {
            assert(cs@.take(i as int) =~= cs@.take(i - 1).push(cs@[i - 1]));
        }
    }
    proof {
        assert(cs@.take(cs@.len() as int) =~= cs@);
    }
}

/// Whether two stretches of characters are equal.
pub fn same_chars(a: &[char], b: &[char]) -> (same: bool)
    ensures
        same == (a@ == b@),
{
    if a.len() != b.len() {
        return false;
    }
    let mut i: usize = 0;
    while i < a.len()
        invariant
            i <= a@.len(),
            a@.len() == b@.len(),
            forall|k: int| 0 <= k < i ==> a@[k] == b@[k],
        decreases a@.len() - i,
    {
        if a[i] != b[i] {
            return false;
        }
        i += 1;
    }
    proof {
        assert(a@ =~= b@);
    }
    true
}

/// Whether two string slices hold the same text.
pub fn same_text(a: &str, b: &str) -> (same: bool)
    ensures
        same == (a@ == b@),
{
    let left = chars_of(a);
    let right = chars_of(b);
    same_chars(&left, &right)
}

/// An owned copy of an optional string.
pub fn clone_opt(value: &Option<String>) -> (out: Option<String>)
    ensures
        opt_text(out) == opt_text(*value),
{
    match value {
        Some(s) => Some(s.clone()),
        None => None,
    }
}

/// An owned copy of a list of strings.
pub fn clone_texts(items: &[String]) -> (out: Vec<String>)
    ensures
        texts(out@) == texts(items@),
{
    let mut out: Vec<String> = Vec::new();
    let mut i: usize = 0;
    while i < items.len()
        invariant
            i <= items@.len(),
            texts(out@) == texts(items@).take(i as int),
        decreases items@.len() - i,
    {
        let ghost before = texts(out@);
        out.push(items[i].clone());
        i += 1;
        proof {
            assert(texts(out@) =~= before.push(items@[i - 1]@));
            assert(texts(out@) =~= texts(items@).take(i as int));
        }
    }
    proof {
        assert(texts(items@).take(items@.len() as int) =~= texts(items@));
    }
    out
}

// ---------------------------------------------------------------------------
// White space.

/// The characters with the Unicode property `White_Space`.
pub open spec fn is_white(c: char) -> bool {
    ||| '\u{9}' <= c <= '\u{d}'
    ||| c == ' '
    ||| c == '\u{85}'
    ||| c == '\u{a0}'
    ||| c == '\u{1680}'
    ||| '\u{2000}' <= c <= '\u{200a}'
    ||| c == '\u{2028}'
    ||| c == '\u{2029}'
    ||| c == '\u{202f}'
    ||| c == '\u{205f}'
    ||| c == '\u{3000}'
}

/// Whether a character is white space.
pub fn white(c: char) -> (r: bool)
    ensures
        r == is_white(c),
{
    ('\u{9}' <= c && c <= '\u{d}') || c == ' ' || c == '\u{85}' || c == '\u{a0}' || c == '\u{1680}'
        || ('\u{2000}' <= c && c <= '\u{200a}') || c == '\u{2028}' || c == '\u{2029}' || c
        == '\u{202f}' || c == '\u{205f}' || c == '\u{3000}'
}

/// The text without its leading white space.
pub open spec fn trimmed_start(s: Seq<char>) -> Seq<char> {
    s.skip(skip_white(s, 0))
}

/// The number of characters that remain when trailing white space is dropped.
pub open spec fn trimmed_len(s: Seq<char>) -> int
    decreases s.len(),
{
    if s.len() > 0 && is_white(s.last()) {
        trimmed_len(s.drop_last())
    } else {
        s.len() as int
    }
}

/// The text without its trailing white space.
pub open spec fn trimmed_end(s: Seq<char>) -> Seq<char> {
    s.take(trimmed_len(s))
}

/// The text without white space at either end.
pub open spec fn trimmed(s: Seq<char>) -> Seq<char> {
    trimmed_end(trimmed_start(s))
}

/// Whether the text holds nothing but white space.
pub open spec fn is_blank(s: Seq<char>) -> bool {
    forall|i: int| 0 <= i < s.len() ==> is_white(#[trigger] s[i])
}

/// The first position at or after `from` that holds no white space, or the
/// length of the text.
pub open spec fn skip_white(s: Seq<char>, from: int) -> int
    decreases s.len() - from,
{
    if 0 <= from < s.len() && is_white(s[from]) {
        skip_white(s, from + 1)
    } else if from < s.len() {
        from
    } else {
        s.len() as int
    }
}

/// The first position at or after `from` that holds white space, or the
/// length of the text.
pub open spec fn find_white(s: Seq<char>, from: int) -> int
    decreases s.len() - from,
{
    if 0 <= from < s.len() && !is_white(s[from]) {
        find_white(s, from + 1)
    } else if from < s.len() {
        from
    } else {
        s.len() as int
    }
}

pub proof fn lemma_skip_white(s: Seq<char>, from: int)
    requires
        0 <= from <= s.len(),
    ensures
        from <= skip_white(s, from) <= s.len(),
        forall|i: int| from <= i < skip_white(s, from) ==> is_white(#[trigger] s[i]),
        skip_white(s, from) < s.len() ==> !is_white(s[skip_white(s, from)]),
    decreases s.len() - from,
{
    if from < s.len() && is_white(s[from]) {
        lemma_skip_white(s, from + 1);
    }
}

pub proof fn lemma_find_white(s: Seq<char>, from: int)
    requires
        0 <= from <= s.len(),
    ensures
        from <= find_white(s, from) <= s.len(),
        forall|i: int| from <= i < find_white(s, from) ==> !is_white(#[trigger] s[i]),
        find_white(s, from) < s.len() ==> is_white(s[find_white(s, from)]),
    decreases s.len() - from,
{
    if from < s.len() && !is_white(s[from]) {
        lemma_find_white(s, from + 1);
    }
}

pub proof fn lemma_trimmed_len(s: Seq<char>)
    ensures
        0 <= trimmed_len(s) <= s.len(),
        forall|i: int| trimmed_len(s) <= i < s.len() ==> is_white(#[trigger] s[i]),
        trimmed_len(s) > 0 ==> !is_white(s[trimmed_len(s) - 1]),
    decreases s.len(),
{
    if s.len() > 0 && is_white(s.last()) {
        lemma_trimmed_len(s.drop_last());
        let n = trimmed_len(s);
        assert forall|i: int| n <= i < s.len() implies is_white(#[trigger] s[i]) by {
            if i < s.len() - 1 {
                assert(s[i] == s.drop_last()[i]);
            }
        }
        if n > 0 {
            assert(s[n - 1] == s.drop_last()[n - 1]);
        }
    }
}

/// The position reached by skipping white space.
pub fn skip_white_from(s: &[char], from: usize) -> (r: usize)
    requires
        from <= s@.len(),
    ensures
        r == skip_white(s@, from as int),
        from <= r <= s@.len(),
{
    let mut i: usize = from;
    while i < s.len() && white(s[i])
        invariant
            from <= i <= s@.len(),
            skip_white(s@, i as int) == skip_white(s@, from as int),
        decreases s@.len() - i,
    {
        i += 1;
    }
    i
}

/// The position reached by skipping everything but white space.
pub fn find_white_from(s: &[char], from: usize) -> (r: usize)
    requires
        from <= s@.len(),
    ensures
        r == find_white(s@, from as int),
        from <= r <= s@.len(),
{
    let mut i: usize = from;
    while i < s.len() && !white(s[i])
        invariant
            from <= i <= s@.len(),
            find_white(s@, i as int) == find_white(s@, from as int),
        decreases s@.len() - i,
    {
        i += 1;
    }
    i
}

/// Drops trailing white space.
pub fn trim_end(s: &[char]) -> (r: &[char])
    ensures
        r@ == trimmed_end(s@),
{
    let mut n: usize = s.len();
    proof {
        assert(s@.take(n as int) =~= s@);
    }
    while n > 0 && white(s[n - 1])
        invariant
            n <= s@.len(),
            trimmed_len(s@.take(n as int)) == trimmed_len(s@),
        decreases n,
    {
        proof {
            assert(s@.take(n as int).drop_last() =~= s@.take(n - 1));
        }
        n -= 1;
    }
    slice_subrange(s, 0, n)
}

/// Drops leading white space.
pub fn trim_start(s: &[char]) -> (r: &[char])
    ensures
        r@ == trimmed_start(s@),
{
    let k: usize = skip_white_from(s, 0);
    slice_subrange(s, k, s.len())
}

/// Drops white space at both ends.
pub fn trim(s: &[char]) -> (r: &[char])
    ensures
        r@ == trimmed(s@),
{
    trim_end(trim_start(s))
}

/// Whether a text holds nothing but white space.
pub fn blank(s: &[char]) -> (r: bool)
    ensures
        r == is_blank(s@),
{
    let k: usize = skip_white_from(s, 0);
    proof {
        lemma_skip_white(s@, 0);
    }
    k == s.len()
}

// ---------------------------------------------------------------------------
// Letter case.

/// The lower-case form of an ASCII letter; every other character is kept.
pub open spec fn lowered_char(c: char) -> char {
    if 'A' <= c <= 'Z' {
        ((c as u32) + 32) as char
    } else {
        c
    }
}

/// The text with its ASCII letters in lower case.
pub open spec fn lowered(s: Seq<char>) -> Seq<char> {
    s.map_values(|c: char| lowered_char(c))
}

/// Lowers one ASCII letter.
pub fn lower_char(c: char) -> (r: char)
    ensures
        r == lowered_char(c),
{
    if 'A' <= c && c <= 'Z' {
        ((c as u8) + 32) as char
    } else {
        c
    }
}

/// Lowers the ASCII letters of a text.
pub fn lower(s: &[char]) -> (out: Vec<char>)
    ensures
        out@ == lowered(s@),
{
    let mut out: Vec<char> = Vec::new();
    let mut i: usize = 0;
    while i < s.len()
        invariant
            i <= s@.len(),
            out@ == lowered(s@).take(i as int),
        decreases s@.len() - i,
    {
        out.push(lower_char(s[i]));
        i += 1;
    }
    proof {
        assert(lowered(s@).take(s@.len() as int) =~= lowered(s@));
    }
    out
}

// ---------------------------------------------------------------------------
// Searching.

/// Whether `needle` stands at position `at` of `s`.
pub open spec fn occurs_at(s: Seq<char>, needle: Seq<char>, at: int) -> bool {
    0 <= at && at + needle.len() <= s.len() && s.subrange(at, at + needle.len()) == needle
}

/// Whether `needle` stands anywhere in `s`.
pub open spec fn holds_text(s: Seq<char>, needle: Seq<char>) -> bool {
    exists|at: int| #[trigger] occurs_at(s, needle, at)
}

/// The first position at or after `from` at which `needle` stands.
pub open spec fn find_text(s: Seq<char>, needle: Seq<char>, from: int) -> Option<int>
    decreases s.len() + 1 - from,
{
    if from + needle.len() > s.len() {
        None
    } else if occurs_at(s, needle, from) {
        Some(from)
    } else {
        find_text(s, needle, from + 1)
    }
}

/// Whether a text begins with another.
pub open spec fn begins(s: Seq<char>, prefix: Seq<char>) -> bool {
    occurs_at(s, prefix, 0)
}

pub proof fn lemma_find_text(s: Seq<char>, needle: Seq<char>, from: int)
    requires
        0 <= from,
    ensures
        match find_text(s, needle, from) {
            Some(at) => from <= at && occurs_at(s, needle, at) && forall|k: int|
                from <= k < at ==> !#[trigger] occurs_at(s, needle, k),
            None => forall|k: int| from <= k ==> !#[trigger] occurs_at(s, needle, k),
        },
    decreases s.len() + 1 - from,
{
    if from + needle.len() > s.len() {
    } else if occurs_at(s, needle, from) {
    } else {
        lemma_find_text(s, needle, from + 1);
    }
}

/// Whether `needle` stands at a position.
pub fn matches_at(s: &[char], needle: &[char], at: usize) -> (r: bool)
    requires
        at <= s@.len(),
    ensures
        r == occurs_at(s@, needle@, at as int),
{
    if s.len() - at < needle.len() {
        return false;
    }
    let piece = slice_subrange(s, at, at + needle.len());
    same_chars(piece, needle)
}

/// The first position at or after `from` at which `needle` stands.
pub fn find_text_from(s: &[char], needle: &[char], from: usize) -> (r: Option<usize>)
    requires
        from <= s@.len(),
    ensures
        match r {
            Some(at) => find_text(s@, needle@, from as int) == Some(at as int) && from <= at && at
                + needle@.len() <= s@.len(),
            None => find_text(s@, needle@, from as int) is None,
        },
{
    let mut at: usize = from;
    while at <= s.len() && needle.len() <= s.len() - at
        invariant
            from <= at <= s@.len() + 1,
            find_text(s@, needle@, at as int) == find_text(s@, needle@, from as int),
        decreases s@.len() + 1 - at,
    {
        if matches_at(s, needle, at) {
            return Some(at);
        }
        if at == s.len() {
            proof {
                assert(find_text(s@, needle@, at + 1) is None);
            }
            return None;
        }
        at += 1;
    }
    None
}

/// Whether a text holds another.
pub fn has_text(s: &[char], needle: &[char]) -> (r: bool)
    ensures
        r == holds_text(s@, needle@),
{
    let found = find_text_from(s, needle, 0);
    proof {
        lemma_find_text(s@, needle@, 0);
    }
    found.is_some()
}

/// Whether a text holds a string.
pub fn has_str(s: &[char], needle: &str) -> (r: bool)
    ensures
        r == holds_text(s@, needle@),
{
    let needle = chars_of(needle);
    has_text(s, &needle)
}

/// Whether a text begins with another.
pub fn starts_with(s: &[char], prefix: &[char]) -> (r: bool)
    ensures
        r == begins(s@, prefix@),
{
    matches_at(s, prefix, 0)
}

/// The starts of the leftmost occurrences of `needle`, at or after `from`,
/// that do not overlap.
pub open spec fn match_starts(s: Seq<char>, needle: Seq<char>, from: int) -> Seq<int>
    decreases s.len() - from,
{
    match find_text(s, needle, from) {
        Some(at) => if 0 <= from <= at && needle.len() > 0 && at + needle.len() <= s.len() {
            seq![at] + match_starts(s, needle, at + needle.len())
        } else {
            seq![]
        },
        None => seq![],
    }
}

/// The text from `from` on with every leftmost occurrence of `needle`
/// replaced.
pub open spec fn replaced_from(
    s: Seq<char>,
    needle: Seq<char>,
    by: Seq<char>,
    from: int,
) -> Seq<char>
    decreases s.len() - from,
{
    match find_text(s, needle, from) {
        Some(at) => if 0 <= from <= at && needle.len() > 0 && at + needle.len() <= s.len() {
            s.subrange(from, at) + by + replaced_from(s, needle, by, at + needle.len())
        } else {
            s.skip(from)
        },
        None => s.skip(from),
    }
}

/// The text with every leftmost occurrence of `needle` replaced.
pub open spec fn replaced(s: Seq<char>, needle: Seq<char>, by: Seq<char>) -> Seq<char> {
    replaced_from(s, needle, by, 0)
}

/// Replaces every leftmost occurrence of a text that is not empty.
pub fn replace(s: &[char], needle: &[char], by: &[char]) -> (out: Vec<char>)
    requires
        needle@.len() > 0,
    ensures
        out@ == replaced(s@, needle@, by@),
{
    let mut out: Vec<char> = Vec::new();
    let mut from: usize = 0;
    let n: usize = s.len();
    proof {
        assert(out@ + replaced_from(s@, needle@, by@, 0) =~= replaced(s@, needle@, by@));
    }
    loop
        invariant
            from <= n == s@.len(),
            needle@.len() > 0,
            out@ + replaced_from(s@, needle@, by@, from as int) == replaced(s@, needle@, by@),
        decreases s@.len() - from,
    {
        match find_text_from(s, needle, from) {
            Some(at) => {
                let ghost before = out@;
                push_all(&mut out, slice_subrange(s, from, at));
                push_all(&mut out, by);
                proof {
                    assert(out@ + replaced_from(s@, needle@, by@, at + needle@.len()) =~= before
                        + replaced_from(s@, needle@, by@, from as int));
                }
                from = at + needle.len();
            },
            None => {
                push_all(&mut out, slice_subrange(s, from, s.len()));
                return out;
            },
        }
    }
}

/// The starts of the leftmost occurrences of a text that is not empty.
pub fn match_positions(s: &[char], needle: &[char]) -> (out: Vec<usize>)
    requires
        needle@.len() > 0,
    ensures
        out@.map_values(|i: usize| i as int) == match_starts(s@, needle@, 0),
        forall|i: int| 0 <= i < out@.len() ==> #[trigger] out@[i] + needle@.len() <= s@.len(),
        forall|i: int, j: int| 0 <= i < j < out@.len() ==> out@[i] + needle@.len() <= out@[j],
{
    let mut out: Vec<usize> = Vec::new();
    let mut from: usize = 0;
    let n: usize = s.len();
    proof {
        assert(out@.map_values(|i: usize| i as int) + match_starts(s@, needle@, 0) =~= match_starts(s@, needle@, 0));
    }
    loop
        invariant
            from <= n == s@.len(),
            needle@.len() > 0,
            out@.map_values(|i: usize| i as int) + match_starts(s@, needle@, from as int)
                == match_starts(s@, needle@, 0),
            forall|i: int| 0 <= i < out@.len() ==> #[trigger] out@[i] + needle@.len() <= from,
            forall|i: int, j: int| 0 <= i < j < out@.len() ==> out@[i] + needle@.len() <= out@[j],
        decreases s@.len() - from,
    {
        match find_text_from(s, needle, from) {
            Some(at) => {
                let ghost before = out@.map_values(|i: usize| i as int);
                out.push(at);
                proof {
                    assert(out@.map_values(|i: usize| i as int) =~= before + seq![at as int]);
                    assert(out@.map_values(|i: usize| i as int) + match_starts(
                        s@,
                        needle@,
                        at + needle@.len(),
                    ) =~= before + match_starts(s@, needle@, from as int));
                }
                from = at + needle.len();
            },
            None => {
                proof {
                    assert(out@.map_values(|i: usize| i as int) + match_starts(
                        s@,
                        needle@,
                        from as int,
                    ) =~= out@.map_values(|i: usize| i as int));
                }
                return out;
            },
        }
    }
}

// ---------------------------------------------------------------------------
// Splitting and joining.

/// The first position at or after `from` that holds `c`, or the length.
pub open spec fn find_char(s: Seq<char>, c: char, from: int) -> int
    decreases s.len() - from,
{
    if 0 <= from < s.len() && s[from] != c {
        find_char(s, c, from + 1)
    } else if from < s.len() {
        from
    } else {
        s.len() as int
    }
}

pub proof fn lemma_find_char(s: Seq<char>, c: char, from: int)
    requires
        0 <= from <= s.len(),
    ensures
        from <= find_char(s, c, from) <= s.len(),
        forall|i: int| from <= i < find_char(s, c, from) ==> #[trigger] s[i] != c,
        find_char(s, c, from) < s.len() ==> s[find_char(s, c, from)] == c,
    decreases s.len() - from,
{
    if from < s.len() && s[from] != c {
        lemma_find_char(s, c, from + 1);
    }
}

/// The first position of a character.
pub fn find_char_from(s: &[char], c: char, from: usize) -> (r: usize)
    requires
        from <= s@.len(),
    ensures
        r == find_char(s@, c, from as int),
        from <= r <= s@.len(),
{
    let mut i: usize = from;
    while i < s.len() && s[i] != c
        invariant
            from <= i <= s@.len(),
            find_char(s@, c, i as int) == find_char(s@, c, from as int),
        decreases s@.len() - i,
    {
        i += 1;
    }
    i
}

/// The pieces between the occurrences of `c` in the text from `from` on.
pub open spec fn split_from(s: Seq<char>, c: char, from: int) -> Seq<Seq<char>>
    decreases s.len() - from,
{
    let end = find_char(s, c, from);
    if 0 <= from <= end < s.len() {
        seq![s.subrange(from, end)] + split_from(s, c, end + 1)
    } else {
        seq![s.subrange(from, s.len() as int)]
    }
}

/// The pieces between the occurrences of `c`.
pub open spec fn split_at(s: Seq<char>, c: char) -> Seq<Seq<char>> {
    split_from(s, c, 0)
}

/// Splits a text at every occurrence of a character.
pub fn split_on(s: &[char], c: char) -> (out: Vec<Vec<char>>)
    ensures
        rows(out@) == split_at(s@, c),
        out@.len() > 0,
{
    let mut out: Vec<Vec<char>> = Vec::new();
    let mut from: usize = 0;
    proof {
        assert(rows(out@) + split_from(s@, c, 0) =~= split_at(s@, c));
    }
    loop
        invariant
            from <= s@.len(),
            rows(out@) + split_from(s@, c, from as int) == split_at(s@, c),
        decreases s@.len() - from,
    {
        let end: usize = find_char_from(s, c, from);
        let ghost before = rows(out@);
        out.push(copy_range(s, from, end));
        proof {
            assert(rows(out@) =~= before.push(s@.subrange(from as int, end as int)));
        }
        if end == s.len() {
            proof {
                assert(rows(out@) =~= before + split_from(s@, c, from as int));
            }
            return out;
        }
        proof {
            assert(rows(out@) + split_from(s@, c, end + 1) =~= before + split_from(
                s@,
                c,
                from as int,
            ));
        }
        from = end + 1;
    }
}

/// The spans of the lines of a text from `from` on, without their newlines.
/// A newline at the very end starts no further line.
pub open spec fn line_spans(s: Seq<char>, from: int) -> Seq<(int, int)>
    decreases s.len() + 1 - from,
{
    let end = find_char(s, '\n', from);
    if 0 <= from <= end <= s.len() && from < s.len() {
        seq![(from, end)] + line_spans(s, end + 1)
    } else {
        seq![]
    }
}

/// The spans of a list of index pairs.
pub open spec fn span_ints(spans: Seq<(usize, usize)>) -> Seq<(int, int)> {
    Seq::new(spans.len(), |i: int| (spans[i].0 as int, spans[i].1 as int))
}

pub proof fn lemma_line_spans(s: Seq<char>, from: int)
    requires
        0 <= from,
    ensures
        forall|i: int|
            0 <= i < line_spans(s, from).len() ==> {
                let span = #[trigger] line_spans(s, from)[i];
                &&& from <= span.0 <= span.1 <= s.len()
                &&& span.0 < s.len()
                &&& span.1 < s.len() ==> s[span.1] == '\n'
                &&& forall|k: int| span.0 <= k < span.1 ==> #[trigger] s[k] != '\n'
            },
        forall|i: int, j: int|
            0 <= i < j < line_spans(s, from).len() ==> #[trigger] line_spans(s, from)[i].1
                < #[trigger] line_spans(s, from)[j].0,
        line_spans(s, from).len() <= s.len(),
    decreases s.len() + 1 - from,
{
    if from < s.len() {
        lemma_find_char(s, '\n', from);
        let end = find_char(s, '\n', from);
        lemma_line_spans(s, end + 1);
        let rest = line_spans(s, end + 1);
        lemma_line_spans_len(s, from);
        lemma_line_spans_len(s, end + 1);
        assert forall|i: int| 0 <= i < line_spans(s, from).len() implies {
            let span = #[trigger] line_spans(s, from)[i];
            &&& from <= span.0 <= span.1 <= s.len()
            &&& span.0 < s.len()
            &&& span.1 < s.len() ==> s[span.1] == '\n'
            &&& forall|k: int| span.0 <= k < span.1 ==> #[trigger] s[k] != '\n'
        } by {
            if i > 0 {
                assert(line_spans(s, from)[i] == rest[i - 1]);
            }
        }
        assert forall|i: int, j: int|
            0 <= i < j < line_spans(s, from).len() implies #[trigger] line_spans(s, from)[i].1
            < #[trigger] line_spans(s, from)[j].0 by {
            assert(line_spans(s, from)[j] == rest[j - 1]);
            if i > 0 {
                assert(line_spans(s, from)[i] == rest[i - 1]);
            }
        }
    }
}

proof fn lemma_line_spans_len(s: Seq<char>, from: int)
    requires
        0 <= from,
    ensures
        line_spans(s, from).len() <= if from < s.len() {
            s.len() - from
        } else {
            0
        },
    decreases s.len() + 1 - from,
{
    if from < s.len() {
        lemma_find_char(s, '\n', from);
        lemma_line_spans_len(s, find_char(s, '\n', from) + 1);
    }
}

/// The spans of the lines of a text.
pub fn line_ranges(s: &[char]) -> (out: Vec<(usize, usize)>)
    ensures
        span_ints(out@) == line_spans(s@, 0),
{
    let mut out: Vec<(usize, usize)> = Vec::new();
    let mut from: usize = 0;
    proof {
        assert(span_ints(out@) + line_spans(s@, 0) =~= line_spans(s@, 0));
    }
    while from < s.len()
        invariant
            from <= s@.len(),
            span_ints(out@) + line_spans(s@, from as int) == line_spans(s@, 0),
        decreases s@.len() - from,
    {
        let end: usize = find_char_from(s, '\n', from);
        let ghost before = span_ints(out@);
        out.push((from, end));
        proof {
            assert(span_ints(out@) =~= before.push((from as int, end as int)));
            assert(span_ints(out@) + line_spans(s@, end + 1) =~= before + line_spans(
                s@,
                from as int,
            ));
        }
        if end == s.len() {
            proof {
                assert(span_ints(out@) + line_spans(s@, end + 1) =~= span_ints(out@));
            }
            return out;
        }
        from = end + 1;
    }
    proof {
        assert(span_ints(out@) + line_spans(s@, from as int) =~= span_ints(out@));
    }
    out
}

/// The lines of a text, without their newlines.
pub open spec fn plain_lines(s: Seq<char>) -> Seq<Seq<char>> {
    let spans = line_spans(s, 0);
    Seq::new(spans.len(), |i: int| s.subrange(spans[i].0, spans[i].1))
}

/// A line whose newline stands at `span.1`, without a carriage return before
/// that newline.
pub open spec fn bare_line(s: Seq<char>, span: (int, int)) -> Seq<char> {
    if span.1 < s.len() && span.0 < span.1 && s[span.1 - 1] == '\r' {
        s.subrange(span.0, span.1 - 1)
    } else {
        s.subrange(span.0, span.1)
    }
}

/// The lines of a text, without their line endings, which are a newline or a
/// carriage return and a newline.
pub open spec fn bare_lines(s: Seq<char>) -> Seq<Seq<char>> {
    let spans = line_spans(s, 0);
    Seq::new(spans.len(), |i: int| bare_line(s, spans[i]))
}

/// Splits a text into lines, keeping carriage returns.
pub fn split_plain_lines(s: &[char]) -> (out: Vec<Vec<char>>)
    ensures
        rows(out@) == plain_lines(s@),
{
    let spans = line_ranges(s);
    proof {
        lemma_line_spans(s@, 0);
    }
    let mut out: Vec<Vec<char>> = Vec::new();
    let mut i: usize = 0;
    while i < spans.len()
        invariant
            i <= spans@.len(),
            span_ints(spans@) == line_spans(s@, 0),
            forall|k: int|
                0 <= k < spans@.len() ==> (#[trigger] span_ints(spans@)[k]).0 <= span_ints(
                    spans@,
                )[k].1 <= s@.len(),
            rows(out@) == plain_lines(s@).take(i as int),
        decreases spans@.len() - i,
    {
        proof {
            assert(span_ints(spans@)[i as int] == (spans@[i as int].0 as int, spans@[i as int].1 as int));
        }
        let (start, end): (usize, usize) = spans[i];
        let ghost before = rows(out@);
        out.push(copy_range(s, start, end));
        i += 1;
        proof {
            assert(rows(out@) =~= before.push(plain_lines(s@)[i - 1]));
            assert(rows(out@) =~= plain_lines(s@).take(i as int));
        }
    }
    proof {
        assert(plain_lines(s@).take(spans@.len() as int) =~= plain_lines(s@));
    }
    out
}

/// Splits a text into lines, dropping both forms of line ending.
pub fn split_bare_lines(s: &[char]) -> (out: Vec<Vec<char>>)
    ensures
        rows(out@) == bare_lines(s@),
{
    let spans = line_ranges(s);
    proof {
        lemma_line_spans(s@, 0);
    }
    let mut out: Vec<Vec<char>> = Vec::new();
    let mut i: usize = 0;
    while i < spans.len()
        invariant
            i <= spans@.len(),
            span_ints(spans@) == line_spans(s@, 0),
            forall|k: int|
                0 <= k < spans@.len() ==> (#[trigger] span_ints(spans@)[k]).0 <= span_ints(
                    spans@,
                )[k].1 <= s@.len(),
            rows(out@) == bare_lines(s@).take(i as int),
        decreases spans@.len() - i,
    {
        proof {
            assert(span_ints(spans@)[i as int] == (spans@[i as int].0 as int, spans@[i as int].1 as int));
        }
        let (start, end): (usize, usize) = spans[i];
        let ghost before = rows(out@);
        if end < s.len() && start < end && s[end - 1] == '\r' {
            out.push(copy_range(s, start, end - 1));
        } else {
            out.push(copy_range(s, start, end));
        }
        i += 1;
        proof {
            assert(rows(out@) =~= before.push(bare_lines(s@)[i - 1]));
            assert(rows(out@) =~= bare_lines(s@).take(i as int));
        }
    }
    proof {
        assert(bare_lines(s@).take(spans@.len() as int) =~= bare_lines(s@));
    }
    out
}

/// The pieces joined with a separator between neighbours.
pub open spec fn joined(parts: Seq<Seq<char>>, sep: Seq<char>) -> Seq<char>
    decreases parts.len(),
{
    if parts.len() == 0 {
        Seq::empty()
    } else if parts.len() == 1 {
        parts[0]
    } else {
        joined(parts.drop_last(), sep) + sep + parts.last()
    }
}

proof fn lemma_joined_first(first: Seq<char>, rest: Seq<Seq<char>>, sep: Seq<char>)
    requires
        rest.len() > 0,
    ensures
        joined(seq![first] + rest, sep) == first + sep + joined(rest, sep),
    decreases rest.len(),
{
    let all = seq![first] + rest;
    assert(all.last() == rest.last());
    if rest.len() == 1 {
        assert(all.drop_last() =~= seq![first]);
        assert(joined(seq![first], sep) == first);
        assert(rest.last() == rest[0]);
    } else {
        assert(all.drop_last() =~= seq![first] + rest.drop_last());
        lemma_joined_first(first, rest.drop_last(), sep);
        assert(first + sep + joined(rest.drop_last(), sep) + sep + rest.last() =~= first + sep + (
        joined(rest.drop_last(), sep) + sep + rest.last()));
    }
}

/// Joining the pieces of a text puts it together again.
pub proof fn lemma_split_joins(s: Seq<char>, c: char, from: int)
    requires
        0 <= from <= s.len(),
    ensures
        split_from(s, c, from).len() > 0,
        joined(split_from(s, c, from), seq![c]) == s.skip(from),
        from < s.len() && s.last() == c ==> split_from(s, c, from).len() > 1 && split_from(
            s,
            c,
            from,
        ).last() == Seq::<char>::empty(),
        from == s.len() ==> split_from(s, c, from).last() == Seq::<char>::empty(),
    decreases s.len() - from,
{
    let end = find_char(s, c, from);
    lemma_find_char(s, c, from);
    if end < s.len() {
        lemma_split_joins(s, c, end + 1);
        let rest = split_from(s, c, end + 1);
        lemma_joined_first(s.subrange(from, end), rest, seq![c]);
        assert(s.subrange(from, end) + seq![c] + s.skip(end + 1) =~= s.skip(from));
        assert((seq![s.subrange(from, end)] + rest).last() == rest.last());
    } else {
        assert(s.subrange(from, s.len() as int) =~= s.skip(from));
    }
}

/// The pieces of a text do not hold the character that it is split at.
pub proof fn lemma_pieces_are_free(s: Seq<char>, c: char, from: int)
    requires
        0 <= from <= s.len(),
    ensures
        forall|i: int|
            0 <= i < split_from(s, c, from).len() ==> !(#[trigger] split_from(
                s,
                c,
                from,
            )[i]).contains(c),
    decreases s.len() - from,
{
    let end = find_char(s, c, from);
    lemma_find_char(s, c, from);
    let pieces = split_from(s, c, from);
    let first = s.subrange(from, end);
    assert(!first.contains(c)) by {
        if first.contains(c) {
            let k = choose|k: int| 0 <= k < first.len() && first[k] == c;
            assert(s[from + k] == c);
        }
    }
    if end < s.len() {
        lemma_pieces_are_free(s, c, end + 1);
        let rest = split_from(s, c, end + 1);
        assert forall|i: int| 0 <= i < pieces.len() implies !(#[trigger] pieces[i]).contains(c) by {
            if i > 0 {
                assert(pieces[i] == rest[i - 1]);
            }
        }
    }
}

/// Splitting what was joined gives the parts again, where none holds the
/// separator.
pub proof fn lemma_joined_splits(before: Seq<char>, parts: Seq<Seq<char>>, c: char)
    requires
        parts.len() > 0,
        forall|i: int| 0 <= i < parts.len() ==> !(#[trigger] parts[i]).contains(c),
    ensures
        split_from(before + joined(parts, seq![c]), c, before.len() as int) == parts,
    decreases parts.len(),
{
    let s = before + joined(parts, seq![c]);
    let from = before.len() as int;
    let first = parts[0];
    let end = from + first.len();
    lemma_find_char(s, c, from);
    if parts.len() == 1 {
        assert(s == before + first);
        assert(find_char(s, c, from) == s.len()) by {
            let other = find_char(s, c, from);
            if other < s.len() {
                assert(first[other - from] == c);
            }
        }
        assert(s.subrange(from, s.len() as int) =~= first);
        assert(split_from(s, c, from) =~= parts);
    } else {
        let rest = parts.drop_first();
        lemma_joined_first(first, rest, seq![c]);
        assert(parts =~= seq![first] + rest);
        assert forall|i: int| 0 <= i < rest.len() implies !(#[trigger] rest[i]).contains(c) by {
            assert(rest[i] == parts[i + 1]);
        }
        let until = before + first + seq![c];
        assert(s =~= until + joined(rest, seq![c]));
        assert(s[end] == c);
        assert(find_char(s, c, from) == end) by {
            let other = find_char(s, c, from);
            if other < end {
                assert(first[other - from] == c);
            }
        }
        lemma_joined_splits(until, rest, c);
        assert(s.subrange(from, end) =~= first);
        assert(split_from(s, c, from) =~= parts);
    }
}

/// Joins rows of characters.
pub fn join_rows(parts: &[Vec<char>], sep: &[char]) -> (out: Vec<char>)
    ensures
        out@ == joined(rows(parts@), sep@),
{
    let mut out: Vec<char> = Vec::new();
    let mut i: usize = 0;
    while i < parts.len()
        invariant
            i <= parts@.len(),
            out@ == joined(rows(parts@).take(i as int), sep@),
        decreases parts@.len() - i,
    {
        proof {
            assert(rows(parts@).take(i + 1).drop_last() =~= rows(parts@).take(i as int));
        }
        if i > 0 {
            push_all(&mut out, sep);
        }
        push_all(&mut out, &parts[i]);
        i += 1;
    }
    proof {
        assert(rows(parts@).take(parts@.len() as int) =~= rows(parts@));
    }
    out
}

/// Joins strings.
pub fn join_texts(parts: &[String], sep: &str) -> (out: String)
    ensures
        out@ == joined(texts(parts@), sep@),
{
    let mut out = String::new();
    let mut i: usize = 0;
    while i < parts.len()
        invariant
            i <= parts@.len(),
            out@ == joined(texts(parts@).take(i as int), sep@),
        decreases parts@.len() - i,
    {
        proof {
            assert(texts(parts@).take(i + 1).drop_last() =~= texts(parts@).take(i as int));
        }
        if i > 0 {
            out.append(sep);
        }
        out.append(parts[i].as_str());
        i += 1;
    }
    proof {
        assert(texts(parts@).take(parts@.len() as int) =~= texts(parts@));
    }
    out
}

/// The words of a text from `from` on: the longest stretches without white
/// space.
pub open spec fn words_from(s: Seq<char>, from: int) -> Seq<Seq<char>>
    decreases s.len() - from,
{
    let start = skip_white(s, from);
    let end = find_white(s, start);
    if 0 <= from <= start < end <= s.len() {
        seq![s.subrange(start, end)] + words_from(s, end)
    } else {
        seq![]
    }
}

/// The words of a text.
pub open spec fn words_of(s: Seq<char>) -> Seq<Seq<char>> {
    words_from(s, 0)
}

/// Splits a text into words.
pub fn split_words(s: &[char]) -> (out: Vec<Vec<char>>)
    ensures
        rows(out@) == words_of(s@),
{
    let mut out: Vec<Vec<char>> = Vec::new();
    let mut from: usize = 0;
    proof {
        assert(rows(out@) + words_from(s@, 0) =~= words_of(s@));
    }
    loop
        invariant
            from <= s@.len(),
            rows(out@) + words_from(s@, from as int) == words_of(s@),
        decreases s@.len() - from,
    {
        let start: usize = skip_white_from(s, from);
        let end: usize = find_white_from(s, start);
        proof {
            lemma_skip_white(s@, from as int);
            lemma_find_white(s@, start as int);
        }
        if start == s.len() {
            proof {
                assert(rows(out@) + words_from(s@, from as int) =~= rows(out@));
            }
            return out;
        }
        let ghost before = rows(out@);
        out.push(copy_range(s, start, end));
        proof {
            assert(start < end);
            assert(rows(out@) =~= before.push(s@.subrange(start as int, end as int)));
            assert(rows(out@) + words_from(s@, end as int) =~= before + words_from(
                s@,
                from as int,
            ));
        }
        from = end;
    }
}

// ---------------------------------------------------------------------------
// Numbers.

/// The character of a decimal digit.
pub open spec fn digit_char(d: nat) -> char {
    (48 + d) as char
}

/// The decimal numeral of a natural number.
pub open spec fn decimal(n: nat) -> Seq<char>
    decreases n,
{
    if n < 10 {
        seq![digit_char(n)]
    } else {
        decimal(n / 10).push(digit_char(n % 10))
    }
}

/// The decimal numeral of an integer.
pub open spec fn decimal_int(n: int) -> Seq<char> {
    if n < 0 {
        seq!['-'] + decimal((-n) as nat)
    } else {
        decimal(n as nat)
    }
}

fn push_decimal(out: &mut String, n: u64)
    ensures
        final(out)@ == old(out)@ + decimal(n as nat),
    decreases n,
{
    if n < 10 {
        out.push(((n as u8) + 48) as char);
    } else {
        push_decimal(out, n / 10);
        out.push((((n % 10) as u8) + 48) as char);
    }
    proof {
        assert(out@ =~= old(out)@ + decimal(n as nat));
    }
}

/// Renders a number in decimal.
pub fn render_u64(n: u64) -> (out: String)
    ensures
        out@ == decimal(n as nat),
{
    let mut out = String::new();
    push_decimal(&mut out, n);
    proof {
        assert(Seq::<char>::empty() + decimal(n as nat) =~= decimal(n as nat));
    }
    out
}

/// Renders a number in decimal.
pub fn render_usize(n: usize) -> (out: String)
    ensures
        out@ == decimal(n as nat),
{
    render_u64(n as u64)
}

/// Renders a signed number in decimal.
pub fn render_i64(n: i64) -> (out: String)
    ensures
        out@ == decimal_int(n as int),
{
    if n < 0 {
        let magnitude: u64 = if n == i64::MIN {
            9_223_372_036_854_775_808
        } else {
            (-n) as u64
        };
        let mut out = String::new();
        out.push('-');
        push_decimal(&mut out, magnitude);
        proof {
            assert(out@ =~= seq!['-'] + decimal(magnitude as nat));
        }
        out
    } else {
        render_u64(n as u64)
    }
}

/// The word for a truth value.
pub open spec fn bool_word(b: bool) -> Seq<char> {
    if b {
        "true"@
    } else {
        "false"@
    }
}

/// Renders a truth value.
pub fn render_bool(b: bool) -> (out: String)
    ensures
        out@ == bool_word(b),
{
    if b {
        "true".to_string()
    } else {
        "false".to_string()
    }
}

/// Whether a character is a decimal digit.
pub open spec fn is_digit(c: char) -> bool {
    '0' <= c <= '9'
}

/// The number that a sequence of digits denotes.
pub open spec fn digits_value(s: Seq<char>) -> nat
    decreases s.len(),
{
    if s.len() == 0 {
        0
    } else {
        digits_value(s.drop_last()) * 10 + (s.last() as nat - 48) as nat
    }
}

/// The number that a numeral denotes: digits, at least one, perhaps after a
/// plus sign.
pub open spec fn numeral_value(s: Seq<char>) -> Option<nat> {
    let digits = numeral_digits(s);
    if digits.len() > 0 && all_digits(digits) {
        Some(digits_value(digits))
    } else {
        None
    }
}

/// A numeral without its plus sign.
pub open spec fn numeral_digits(s: Seq<char>) -> Seq<char> {
    if s.len() > 0 && s[0] == '+' {
        s.skip(1)
    } else {
        s
    }
}

/// Whether every character is a digit.
pub open spec fn all_digits(s: Seq<char>) -> bool {
    forall|i: int| 0 <= i < s.len() ==> is_digit(#[trigger] s[i])
}

proof fn lemma_digits_value_grows(s: Seq<char>, i: int)
    requires
        0 <= i <= s.len(),
        forall|k: int| 0 <= k < s.len() ==> is_digit(#[trigger] s[k]),
    ensures
        digits_value(s.take(i)) <= digits_value(s),
    decreases s.len() - i,
{
    if i < s.len() {
        lemma_digits_value_grows(s, i + 1);
        assert(s.take(i + 1).drop_last() =~= s.take(i));
    } else {
        assert(s.take(i) =~= s);
    }
}

/// Parses a numeral that fits in 64 bits.
pub fn parse_u64(s: &[char]) -> (r: Option<u64>)
    ensures
        match r {
            Some(n) => numeral_value(s@) == Some(n as nat),
            None => numeral_value(s@) is None || numeral_value(s@).unwrap() > u64::MAX,
        },
{
    let start: usize = if s.len() > 0 && s[0] == '+' {
        1
    } else {
        0
    };
    let digits = slice_subrange(s, start, s.len());
    proof {
        assert(digits@ =~= numeral_digits(s@));
    }
    if digits.len() == 0 {
        return None;
    }
    let mut i: usize = 0;
    while i < digits.len()
        invariant
            i <= digits@.len(),
            digits@ == numeral_digits(s@),
            forall|k: int| 0 <= k < i ==> is_digit(#[trigger] digits@[k]),
        decreases digits@.len() - i,
    {
        let c = digits[i];
        if c < '0' || c > '9' {
            proof {
                assert(!is_digit(digits@[i as int]));
            }
            return None;
        }
        i += 1;
    }
    let mut value: u64 = 0;
    let mut j: usize = 0;
    while j < digits.len()
        invariant
            j <= digits@.len(),
            forall|k: int| 0 <= k < digits@.len() ==> is_digit(#[trigger] digits@[k]),
            value == digits_value(digits@.take(j as int)),
            numeral_value(s@) == Some(digits_value(digits@)),
        decreases digits@.len() - j,
    {
        let d: u64 = (digits[j] as u64) - 48;
        proof {
            assert(digits@.take(j + 1).drop_last() =~= digits@.take(j as int));
            lemma_digits_value_grows(digits@, j + 1);
        }
        match value.checked_mul(10) {
            Some(scaled) => match scaled.checked_add(d) {
                Some(sum) => {
                    value = sum;
                },
                None => {
                    return None;
                },
            },
            None => {
                return None;
            },
        }
        j += 1;
    }
    proof {
        assert(digits@.take(digits@.len() as int) =~= digits@);
    }
    Some(value)
}

// ---------------------------------------------------------------------------
// Encoded lengths.

/// The number of bytes of a character in UTF-8.
pub open spec fn utf8_width(c: char) -> nat {
    if (c as u32) < 0x80 {
        1
    } else if (c as u32) < 0x800 {
        2
    } else if (c as u32) < 0x10000 {
        3
    } else {
        4
    }
}

/// The number of bytes of a text in UTF-8.
pub open spec fn utf8_len(s: Seq<char>) -> nat
    decreases s.len(),
{
    if s.len() == 0 {
        0
    } else {
        utf8_len(s.drop_last()) + utf8_width(s.last())
    }
}

/// The number of 16-bit units of a character in UTF-16.
pub open spec fn utf16_width(c: char) -> nat {
    if (c as u32) < 0x10000 {
        1
    } else {
        2
    }
}

/// The number of 16-bit units of a text in UTF-16.
pub open spec fn utf16_len(s: Seq<char>) -> nat
    decreases s.len(),
{
    if s.len() == 0 {
        0
    } else {
        utf16_len(s.drop_last()) + utf16_width(s.last())
    }
}

pub proof fn lemma_utf8_len_add(a: Seq<char>, b: Seq<char>)
    ensures
        utf8_len(a + b) == utf8_len(a) + utf8_len(b),
    decreases b.len(),
{
    if b.len() == 0 {
        assert(a + b =~= a);
    } else {
        assert((a + b).drop_last() =~= a + b.drop_last());
        lemma_utf8_len_add(a, b.drop_last());
    }
}

/// A longer prefix takes more bytes.
pub proof fn lemma_utf8_len_grows(s: Seq<char>, i: int, j: int)
    requires
        0 <= i <= j <= s.len(),
    ensures
        utf8_len(s.take(i)) + (j - i) <= utf8_len(s.take(j)),
    decreases j - i,
{
    if i < j {
        lemma_utf8_len_grows(s, i, j - 1);
        assert(s.take(j).drop_last() =~= s.take(j - 1));
    }
}

proof fn lemma_utf8_width_encodes(c: char)
    ensures
        vstd::utf8::encode_scalar(c as u32).len() == utf8_width(c),
{
}

proof fn lemma_utf8_len_encodes(s: Seq<char>)
    ensures
        vstd::utf8::encode_utf8(s).len() == utf8_len(s),
    decreases s.len(),
{
    if s.len() > 0 {
        lemma_utf8_len_encodes(s.drop_first());
        assert(s =~= seq![s[0]] + s.drop_first());
        lemma_utf8_len_add(seq![s[0]], s.drop_first());
        lemma_utf8_width_encodes(s[0]);
        assert(utf8_len(seq![s[0]]) == utf8_width(s[0])) by {
            reveal_with_fuel(utf8_len, 2);
        }
    }
}

/// The number of bytes of a string.
pub fn byte_len(s: &str) -> (n: usize)
    ensures
        n == utf8_len(s@),
{
    let bytes = s.as_bytes();
    proof {
        lemma_utf8_len_encodes(s@);
    }
    bytes.len()
}

/// The number of bytes of a character.
pub fn char_bytes(c: char) -> (n: usize)
    ensures
        n == utf8_width(c),
        1 <= n <= 4,
{
    let code: u32 = c as u32;
    if code < 0x80 {
        1
    } else if code < 0x800 {
        2
    } else if code < 0x10000 {
        3
    } else {
        4
    }
}

/// The number of 16-bit units of a character.
pub fn char_units(c: char) -> (n: usize)
    ensures
        n == utf16_width(c),
        1 <= n <= 2,
{
    if (c as u32) < 0x10000 {
        1
    } else {
        2
    }
}

/// The position of the character that starts at a byte offset of the text,
/// counted from position `from` on.
pub open spec fn char_at_byte(s: Seq<char>, from: int, offset: int) -> Option<int>
    decreases s.len() - from,
{
    if utf8_len(s.take(from)) == offset {
        Some(from)
    } else if 0 <= from < s.len() && utf8_len(s.take(from)) < offset {
        char_at_byte(s, from + 1, offset)
    } else {
        None
    }
}

/// The position of the character that starts at a byte offset.
pub fn position_of_byte(s: &[char], offset: usize) -> (r: Option<usize>)
    ensures
        match r {
            Some(i) => char_at_byte(s@, 0, offset as int) == Some(i as int) && i <= s@.len()
                && utf8_len(s@.take(i as int)) == offset,
            None => char_at_byte(s@, 0, offset as int) is None,
        },
{
    let mut i: usize = 0;
    let mut at: usize = 0;
    proof {
        assert(s@.take(0) =~= Seq::<char>::empty());
    }
    loop
        invariant
            i <= s@.len(),
            at == utf8_len(s@.take(i as int)),
            at <= offset,
            char_at_byte(s@, 0, offset as int) == char_at_byte(s@, i as int, offset as int),
        decreases s@.len() - i,
    {
        if at == offset {
            return Some(i);
        }
        if i == s.len() {
            return None;
        }
        let width: usize = char_bytes(s[i]);
        proof {
            assert(s@.take(i + 1).drop_last() =~= s@.take(i as int));
        }
        if offset - at < width {
            proof {
                assert(char_at_byte(s@, i + 1, offset as int) is None);
            }
            return None;
        }
        at += width;
        i += 1;
    }
}

// ---------------------------------------------------------------------------
// What the parts of a text are.

/// Trimming takes away white space at the ends and nothing else.
pub proof fn trimming_takes_the_ends(s: Seq<char>)
    ensures
        exists|a: Seq<char>, b: Seq<char>| #[trigger]
            is_blank(a) && #[trigger] is_blank(b) && s == a + trimmed(s) + b,
        trimmed(s).len() > 0 ==> !is_white(trimmed(s)[0]) && !is_white(trimmed(s).last()),
        trimmed(s).len() == 0 <==> is_blank(s),
        s == s.take(s.len() - trimmed_start(s).len()) + trimmed_start(s),
        trimmed_start(s).len() > 0 ==> !is_white(trimmed_start(s)[0]),
        trimmed_end(s).len() > 0 ==> !is_white(trimmed_end(s).last()),
{
    lemma_skip_white(s, 0);
    let n = skip_white(s, 0);
    let rest = trimmed_start(s);
    lemma_trimmed_len(rest);
    lemma_trimmed_len(s);
    let m = trimmed_len(rest);
    let a = s.take(n);
    let b = rest.skip(m);
    assert(is_blank(a)) by {
        assert forall|i: int| 0 <= i < a.len() implies is_white(#[trigger] a[i]) by {
            assert(a[i] == s[i]);
        }
    }
    assert(is_blank(b)) by {
        assert forall|i: int| 0 <= i < b.len() implies is_white(#[trigger] b[i]) by {
            assert(b[i] == rest[m + i]);
        }
    }
    assert(s =~= a + trimmed(s) + b);
    assert(s =~= a + rest);
    if m > 0 {
        assert(rest[0] == s[n]);
        assert(trimmed(s)[0] == rest[0]);
        assert(trimmed(s).last() == rest[m - 1]);
        assert(!is_white(s[n]));
    } else {
        assert forall|i: int| 0 <= i < s.len() implies is_white(#[trigger] s[i]) by {
            if i >= n {
                assert(rest[i - n] == s[i]);
            }
        }
    }
    if rest.len() > 0 {
        assert(rest[0] == s[n]);
    }
    if trimmed_len(s) > 0 {
        assert(trimmed_end(s).last() == s[trimmed_len(s) - 1]);
    }
    if is_blank(s) && m > 0 {
        assert(is_white(s[n]));
    }
}

/// The lines of a text are the pieces between its newlines; what is behind the
/// last newline is a line only where something is.
pub proof fn lines_lie_between_newlines(line: Seq<char>, rest: Seq<char>)
    requires
        !line.contains('\n'),
    ensures
        plain_lines(Seq::empty()).len() == 0,
        line.len() > 0 ==> plain_lines(line) == seq![line],
        plain_lines(line + seq!['\n'] + rest) == seq![line] + plain_lines(rest),
        bare_lines(line + seq!['\n'] + rest) == seq![
            if line.len() > 0 && line.last() == '\r' {
                line.drop_last()
            } else {
                line
            },
        ] + bare_lines(rest),
        line.len() > 0 ==> bare_lines(line) == seq![line],
{
    let none = Seq::<char>::empty();
    assert(line_spans(none, 0).len() == 0);
    lemma_find_char(line, '\n', 0);
    let end = find_char(line, '\n', 0);
    if end < line.len() {
        assert(line.contains(line[end]));
    }
    if line.len() > 0 {
        assert(line_spans(line, end + 1) =~= Seq::<(int, int)>::empty());
        assert(line_spans(line, 0) =~= seq![(0int, line.len() as int)]);
        assert(line.subrange(0, line.len() as int) =~= line);
        assert(plain_lines(line) =~= seq![line]);
        assert(bare_lines(line) =~= seq![line]);
    }
    let s = line + seq!['\n'] + rest;
    let head = line + seq!['\n'];
    lemma_find_char(s, '\n', 0);
    let first = find_char(s, '\n', 0);
    assert(s[line.len() as int] == '\n');
    if first < line.len() {
        assert(s[first] == line[first]);
        assert(line.contains(line[first]));
    }
    assert(first == line.len());
    assert(s =~= head + rest);
    lemma_line_spans_shift(head, rest, 0);
    let here = line_spans(s, 0);
    let behind = line_spans(rest, 0);
    assert(here.len() == behind.len() + 1);
    assert(here[0] == (0int, line.len() as int));
    assert forall|i: int| 0 <= i < behind.len() implies #[trigger] here[i + 1] == (
        behind[i].0 + head.len(),
        behind[i].1 + head.len(),
    ) by {}
    lemma_line_spans(rest, 0);
    assert(s.subrange(0, line.len() as int) =~= line);
    assert forall|i: int| 0 <= i < behind.len() + 1 implies #[trigger] plain_lines(s)[i] == (seq![
        line,
    ] + plain_lines(rest))[i] by {
        if i > 0 {
            let span = behind[i - 1];
            assert(here[i] == (span.0 + head.len(), span.1 + head.len()));
            assert(s.subrange(span.0 + head.len(), span.1 + head.len()) =~= rest.subrange(
                span.0,
                span.1,
            ));
        }
    }
    assert(plain_lines(s) =~= seq![line] + plain_lines(rest));
    let bare = if line.len() > 0 && line.last() == '\r' {
        line.drop_last()
    } else {
        line
    };
    assert(bare_lines(s)[0] =~= bare) by {
        if line.len() > 0 {
            assert(s[line.len() - 1] == line.last());
            assert(s.subrange(0, line.len() - 1) =~= line.drop_last());
        }
    }
    assert forall|i: int| 0 <= i < behind.len() + 1 implies #[trigger] bare_lines(s)[i] == (seq![
        bare,
    ] + bare_lines(rest))[i] by {
        if i > 0 {
            let span = behind[i - 1];
            let h = head.len() as int;
            assert(here[i] == (span.0 + h, span.1 + h));
            assert(s.subrange(span.0 + h, span.1 + h) =~= rest.subrange(span.0, span.1));
            if span.0 < span.1 {
                assert(s[span.1 + h - 1] == rest[span.1 - 1]);
                assert(s.subrange(span.0 + h, span.1 + h - 1) =~= rest.subrange(
                    span.0,
                    span.1 - 1,
                ));
            }
        }
    }
    assert(bare_lines(s) =~= seq![bare] + bare_lines(rest));
}

proof fn lemma_find_char_shift(head: Seq<char>, rest: Seq<char>, c: char, from: int)
    requires
        0 <= from <= rest.len(),
    ensures
        find_char(head + rest, c, head.len() + from) == head.len() + find_char(rest, c, from),
    decreases rest.len() - from,
{
    if from < rest.len() {
        assert((head + rest)[head.len() + from] == rest[from]);
        if rest[from] != c {
            lemma_find_char_shift(head, rest, c, from + 1);
        }
    }
}

proof fn lemma_line_spans_shift(head: Seq<char>, rest: Seq<char>, from: int)
    requires
        0 <= from,
    ensures
        line_spans(head + rest, head.len() + from).len() == line_spans(rest, from).len(),
        forall|i: int|
            0 <= i < line_spans(rest, from).len() ==> #[trigger] line_spans(
                head + rest,
                head.len() + from,
            )[i] == (
                line_spans(rest, from)[i].0 + head.len(),
                line_spans(rest, from)[i].1 + head.len(),
            ),
    decreases rest.len() + 1 - from,
{
    if from < rest.len() {
        lemma_find_char_shift(head, rest, '\n', from);
        lemma_find_char(rest, '\n', from);
        let end = find_char(rest, '\n', from);
        lemma_line_spans_shift(head, rest, end + 1);
        let a = line_spans(head + rest, head.len() + from);
        let b = line_spans(rest, from);
        let c = line_spans(head + rest, head.len() + (end + 1));
        let d = line_spans(rest, end + 1);
        assert(a == seq![(head.len() + from, head.len() + end)] + c);
        assert(b == seq![(from, end)] + d);
        assert forall|i: int| 0 <= i < b.len() implies #[trigger] a[i] == (
            b[i].0 + head.len(),
            b[i].1 + head.len(),
        ) by {
            if i > 0 {
                assert(a[i] == c[i - 1]);
                assert(b[i] == d[i - 1]);
            }
        }
    }
}

/// A numeral denotes its number, in digits, without a zero in front.
pub proof fn numerals_denote_their_number(n: nat)
    ensures
        decimal(n).len() > 0,
        all_digits(decimal(n)),
        digits_value(decimal(n)) == n,
        n > 0 ==> decimal(n)[0] != '0',
    decreases n,
{
    if n < 10 {
        assert(decimal(n).drop_last() =~= Seq::<char>::empty());
        assert(decimal(n).last() == digit_char(n));
        assert(digits_value(Seq::<char>::empty()) == 0);
        assert(digit_char(n) as nat == 48 + n);
    } else {
        assert(digit_char(n % 10) as nat == 48 + n % 10);
        assert(decimal(n).last() == digit_char(n % 10));
        numerals_denote_their_number(n / 10);
        assert(decimal(n).drop_last() =~= decimal(n / 10));
        assert(decimal(n)[0] == decimal(n / 10)[0]);
        assert forall|i: int| 0 <= i < decimal(n).len() implies is_digit(
            #[trigger] decimal(n)[i],
        ) by {
            if i < decimal(n).len() - 1 {
                assert(decimal(n)[i] == decimal(n / 10)[i]);
            }
        }
    }
}


/// A byte offset of a text is the position of the character that has as many
/// bytes before it, and of none where no character starts there.
pub proof fn byte_offsets_are_places_of_characters(s: Seq<char>, i: int, offset: int)
    requires
        0 <= i <= s.len(),
    ensures
        char_at_byte(s, 0, utf8_len(s.take(i)) as int) == Some(i),
        (forall|k: int| 0 <= k <= s.len() ==> utf8_len(#[trigger] s.take(k)) != offset)
            ==> char_at_byte(s, 0, offset) is None,
{
    lemma_char_at_place(s, 0, i);
    if forall|k: int| 0 <= k <= s.len() ==> utf8_len(#[trigger] s.take(k)) != offset {
        lemma_no_char_at(s, 0, offset);
    }
}

proof fn lemma_char_at_place(s: Seq<char>, from: int, i: int)
    requires
        0 <= from <= i <= s.len(),
    ensures
        char_at_byte(s, from, utf8_len(s.take(i)) as int) == Some(i),
    decreases i - from,
{
    if from < i {
        lemma_utf8_len_grows(s, from, i);
        lemma_char_at_place(s, from + 1, i);
    }
}

proof fn lemma_no_char_at(s: Seq<char>, from: int, offset: int)
    requires
        0 <= from <= s.len(),
        forall|k: int| 0 <= k <= s.len() ==> utf8_len(#[trigger] s.take(k)) != offset,
    ensures
        char_at_byte(s, from, offset) is None,
    decreases s.len() - from,
{
    if from < s.len() {
        lemma_no_char_at(s, from + 1, offset);
    }
}

/// The words of a text are those of its parts, where white space stands
/// between them.
pub proof fn words_are_parted_by_white_space(word: Seq<char>, white: Seq<char>, rest: Seq<char>)
    requires
        word.len() > 0,
        forall|i: int| 0 <= i < word.len() ==> !is_white(#[trigger] word[i]),
        white.len() > 0,
        is_blank(white),
    ensures
        words_of(word) == seq![word],
        words_of(white) == Seq::<Seq<char>>::empty(),
        words_of(white + rest) == words_of(rest),
        words_of(word + white + rest) == seq![word] + words_of(rest),
{
    let none = Seq::<char>::empty();
    let s = word + white + rest;
    lemma_skip_white(white, 0);
    lemma_words_behind(white, rest, 0);
    lemma_white_skipped(white, rest, 0);
    assert(words_of(white + rest) == words_of(rest));
    assert(white + none =~= white);
    lemma_white_skipped(white, none, 0);
    lemma_words_behind(white, none, 0);
    assert(words_of(none) =~= Seq::<Seq<char>>::empty());

    lemma_word_found(word, none, 0);
    assert(word + none =~= word);
    assert(skip_white(word, 0) == 0);
    assert(find_white(word, 0) == word.len());
    assert(word.subrange(0, word.len() as int) =~= word);
    assert(words_from(word, word.len() as int) =~= Seq::<Seq<char>>::empty());
    assert(words_of(word) =~= seq![word]);

    let tail = white + rest;
    assert(s =~= word + tail);
    assert(tail[0] == white[0]);
    lemma_word_found(word, tail, 0);
    assert(s[0] == word[0]);
    assert(skip_white(s, 0) == 0);
    assert(s.subrange(0, word.len() as int) =~= word);
    lemma_words_behind(word, tail, 0);
}

proof fn lemma_white_skipped(white: Seq<char>, rest: Seq<char>, i: int)
    requires
        0 <= i <= white.len(),
        is_blank(white),
    ensures
        words_from(white + rest, i) == words_from(white + rest, white.len() as int),
    decreases white.len() - i,
{
    let s = white + rest;
    lemma_skip_white(white, 0);
    if i < white.len() {
        assert(s[i] == white[i]);
        assert(is_white(white[i]));
        lemma_white_skipped(white, rest, i + 1);
        assert(skip_white(s, i) == skip_white(s, i + 1));
    }
}

proof fn lemma_word_found(word: Seq<char>, tail: Seq<char>, i: int)
    requires
        0 <= i <= word.len(),
        forall|i: int| 0 <= i < word.len() ==> !is_white(#[trigger] word[i]),
        tail.len() == 0 || is_white(tail[0]),
    ensures
        find_white(word + tail, i) == word.len(),
    decreases word.len() - i,
{
    let s = word + tail;
    if i < word.len() {
        assert(s[i] == word[i]);
        lemma_word_found(word, tail, i + 1);
    } else if tail.len() > 0 {
        assert(s[i] == tail[0]);
    }
}

proof fn lemma_skips_behind(before: Seq<char>, s: Seq<char>, i: int)
    requires
        0 <= i <= s.len(),
    ensures
        skip_white(before + s, before.len() + i) == before.len() + skip_white(s, i),
        find_white(before + s, before.len() + i) == before.len() + find_white(s, i),
    decreases s.len() - i,
{
    let t = before + s;
    if i < s.len() {
        assert(t[before.len() + i] == s[i]);
        lemma_skips_behind(before, s, i + 1);
    }
}

proof fn lemma_words_behind(before: Seq<char>, s: Seq<char>, i: int)
    requires
        0 <= i <= s.len(),
    ensures
        words_from(before + s, before.len() + i) == words_from(s, i),
    decreases s.len() - i,
{
    let t = before + s;
    let n = before.len() as int;
    lemma_skips_behind(before, s, i);
    lemma_skip_white(s, i);
    let start = skip_white(s, i);
    lemma_skips_behind(before, s, start);
    lemma_find_white(s, start);
    let end = find_white(s, start);
    if start < end {
        lemma_words_behind(before, s, end);
        assert(t.subrange(n + start, n + end) =~= s.subrange(start, end));
    }
    assert(words_from(t, n + i) =~= words_from(s, i));
}

} // verus!
