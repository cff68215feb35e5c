//! File paths of Unix-like systems as text. Two paths are the same where they
//! agree in whether they start at the root and in their parts; repeated and
//! trailing separators and `.` parts do not count.

use vstd::prelude::*;
use vstd::slice::slice_subrange;

use crate::text;
use crate::text_order;

verus! {

/// Whether a path starts at the root.
pub open spec fn absolute(p: Seq<char>) -> bool {
    p.len() > 0 && p[0] == '/'
}

/// Whether the stretch between two separators is a part of the path: it is
/// not empty, and a lone dot counts only at the very start.
pub open spec fn is_part(p: Seq<char>, from: int, end: int) -> bool {
    from < end && !(from > 0 && end == from + 1 && p[from] == '.')
}

/// The spans of the parts of a path from position `from` on.
pub open spec fn part_spans(p: Seq<char>, from: int) -> Seq<(int, int)>
    decreases p.len() + 1 - from,
{
    let end = text::find_char(p, '/', from);
    if 0 <= from <= end <= p.len() {
        (if is_part(p, from, end) {
            seq![(from, end)]
        } else {
            seq![]
        }) + part_spans(p, end + 1)
    } else {
        seq![]
    }
}

/// The parts of a path.
pub open spec fn parts(p: Seq<char>) -> Seq<Seq<char>> {
    let spans = part_spans(p, 0);
    Seq::new(spans.len(), |i: int| p.subrange(spans[i].0, spans[i].1))
}

/// Whether two texts name the same path.
pub open spec fn same(a: Seq<char>, b: Seq<char>) -> bool {
    absolute(a) == absolute(b) && parts(a) == parts(b)
}

/// Whether a path is another or lies below it.
pub open spec fn below(p: Seq<char>, prefix: Seq<char>) -> bool {
    let short = parts(prefix);
    &&& absolute(prefix) == absolute(p) || (!absolute(prefix) && short.len() == 0)
    &&& short.len() <= parts(p).len()
    &&& parts(p).take(short.len() as int) == short
}

/// The last part of a path, where it names something.
pub open spec fn name_of(p: Seq<char>) -> Option<Seq<char>> {
    let all = parts(p);
    if all.len() > 0 && all.last() != seq!['.'] && all.last() != seq!['.', '.'] {
        Some(all.last())
    } else {
        None
    }
}

/// The path without its last part.
pub open spec fn parent_of(p: Seq<char>) -> Option<Seq<char>> {
    let spans = part_spans(p, 0);
    if spans.len() == 0 {
        None
    } else if spans.len() > 1 {
        Some(p.take(spans[spans.len() - 2].1))
    } else if absolute(p) {
        Some(seq!['/'])
    } else {
        Some(Seq::empty())
    }
}

/// A path taken relative to a base.
pub open spec fn joined(base: Seq<char>, p: Seq<char>) -> Seq<char> {
    if absolute(p) {
        p
    } else if base.len() > 0 && base.last() != '/' {
        base.push('/') + p
    } else {
        base + p
    }
}

/// The position of the last dot of a name, beyond `from`.
pub open spec fn last_dot(name: Seq<char>, len: int) -> Option<int>
    decreases len,
{
    if len <= 0 || len > name.len() {
        None
    } else if name[len - 1] == '.' {
        Some(len - 1)
    } else {
        last_dot(name, len - 1)
    }
}

/// What follows the last dot of a file name, unless that dot is its first
/// character.
pub open spec fn extension_of(p: Seq<char>) -> Option<Seq<char>> {
    match name_of(p) {
        Some(name) => match last_dot(name, name.len() as int) {
            Some(i) => if i > 0 {
                Some(name.skip(i + 1))
            } else {
                None
            },
            None => None,
        },
        None => None,
    }
}

/// What is left of a path below a prefix.
pub open spec fn stripped(p: Seq<char>, prefix: Seq<char>) -> Option<Seq<char>> {
    let spans = part_spans(p, 0);
    let k = parts(prefix).len() as int;
    if !below(p, prefix) {
        None
    } else if absolute(p) && !absolute(prefix) {
        if spans.len() == 0 {
            Some(seq!['/'])
        } else {
            Some(p.take(spans.last().1))
        }
    } else if k == spans.len() {
        Some(Seq::empty())
    } else {
        Some(p.subrange(spans[k].0, spans.last().1))
    }
}

pub proof fn lemma_part_spans(p: Seq<char>, from: int)
    requires
        0 <= from,
    ensures
        forall|i: int|
            0 <= i < part_spans(p, from).len() ==> from <= (#[trigger] part_spans(p, from)[i]).0
                < part_spans(p, from)[i].1 <= p.len(),
        forall|i: int, j: int|
            0 <= i < j < part_spans(p, from).len() ==> #[trigger] part_spans(p, from)[i].1
                < #[trigger] part_spans(p, from)[j].0,
    decreases p.len() + 1 - from,
{
    let spans = part_spans(p, from);
    if from <= p.len() {
        text::lemma_find_char(p, '/', from);
        let end = text::find_char(p, '/', from);
        lemma_part_spans(p, end + 1);
        let rest = part_spans(p, end + 1);
        if is_part(p, from, end) {
            assert(spans == seq![(from, end)] + rest);
            assert forall|i: int| 0 <= i < spans.len() implies from <= (#[trigger] spans[i]).0
                < spans[i].1 <= p.len() by {
                if i > 0 {
                    assert(spans[i] == rest[i - 1]);
                }
            }
            assert forall|i: int, j: int| 0 <= i < j < spans.len() implies #[trigger] spans[i].1
                < #[trigger] spans[j].0 by {
                assert(spans[j] == rest[j - 1]);
                if i > 0 {
                    assert(spans[i] == rest[i - 1]);
                }
            }
        } else {
            assert(spans =~= rest);
        }
    }
}

/// The first part of an absolute path starts behind its first separator.
pub proof fn lemma_first_part(p: Seq<char>)
    requires
        absolute(p),
    ensures
        forall|i: int| 0 <= i < part_spans(p, 0).len() ==> (#[trigger] part_spans(p, 0)[i]).0 >= 1,
{
    assert(text::find_char(p, '/', 0) == 0);
    assert(part_spans(p, 0) =~= part_spans(p, 1));
    lemma_part_spans(p, 1);
}

/// The spans of parts, all moved to the right.
spec fn moved_spans(spans: Seq<(int, int)>, by: int) -> Seq<(int, int)> {
    Seq::new(spans.len(), |i: int| (spans[i].0 + by, spans[i].1 + by))
}

/// The spans behind a stretch that ends with a separator come last.
proof fn lemma_spans_before(x: Seq<char>, y: Seq<char>, from: int)
    requires
        0 <= from <= x.len(),
        x.len() > 0 && x.last() == '/',
    ensures
        part_spans(x + y, from) == part_spans(x, from) + part_spans(x + y, x.len() as int),
    decreases x.len() - from,
{
    let t = x + y;
    let n = x.len() as int;
    if from == n {
        text::lemma_find_char(x, '/', n);
        assert(part_spans(x, n + 1) =~= seq![]);
        assert(part_spans(x, n) =~= seq![]);
        assert(part_spans(x, from) + part_spans(t, n) =~= part_spans(t, n));
    } else {
        text::lemma_find_char(x, '/', from);
        text::lemma_find_char(t, '/', from);
        let end = text::find_char(x, '/', from);
        assert(x[n - 1] == '/');
        assert(end < n);
        assert(t[end] == x[end]);
        assert(text::find_char(t, '/', from) == end) by {
            let other = text::find_char(t, '/', from);
            if other < end {
                assert(t[other] == x[other]);
            }
        }
        assert(t[from] == x[from]);
        lemma_spans_before(x, y, end + 1);
        let first = if is_part(x, from, end) {
            seq![(from, end)]
        } else {
            seq![]
        };
        assert(part_spans(t, from) == first + part_spans(t, end + 1));
        assert(part_spans(x, from) == first + part_spans(x, end + 1));
        assert(part_spans(t, from) =~= part_spans(x, from) + part_spans(t, n));
    }
}

/// A separator at the end adds no part.
proof fn lemma_spans_separated(b: Seq<char>, from: int)
    requires
        0 <= from <= b.len(),
    ensures
        part_spans(b.push('/'), from) == part_spans(b, from),
    decreases b.len() - from,
{
    let t = b.push('/');
    let n = b.len() as int;
    text::lemma_find_char(b, '/', from);
    text::lemma_find_char(t, '/', from);
    let end = text::find_char(b, '/', from);
    assert(t[n] == '/');
    assert(text::find_char(t, '/', from) == end) by {
        let other = text::find_char(t, '/', from);
        if other < end {
            assert(t[other] == b[other]);
        }
        if end < n {
            assert(t[end] == b[end]);
        }
    }
    if end == n {
        text::lemma_find_char(t, '/', n + 1);
        assert(part_spans(t, n + 2) =~= seq![]);
        assert(part_spans(t, n + 1) =~= seq![]);
        assert(part_spans(b, n + 1) =~= seq![]);
    } else {
        lemma_spans_separated(b, end + 1);
    }
}

/// The spans of a text that stands behind another are those of its own, moved,
/// unless it starts with a lone dot.
proof fn lemma_spans_behind(x: Seq<char>, y: Seq<char>, from: int)
    requires
        0 <= from <= y.len(),
        x.len() > 0,
        from > 0 || !(y.len() > 0 && y[0] == '.' && text::find_char(y, '/', 0) == 1),
    ensures
        part_spans(x + y, x.len() + from) == moved_spans(part_spans(y, from), x.len() as int),
    decreases y.len() - from,
{
    let t = x + y;
    let n = x.len() as int;
    text::lemma_find_char(y, '/', from);
    text::lemma_find_char(t, '/', n + from);
    let end = text::find_char(y, '/', from);
    assert(text::find_char(t, '/', n + from) == n + end) by {
        let other = text::find_char(t, '/', n + from);
        if other < n + end {
            assert(t[other] == y[other - n]);
        }
        if end < y.len() {
            assert(t[n + end] == y[end]);
        }
    }
    if from < y.len() {
        assert(t[n + from] == y[from]);
    }
    let rest = part_spans(y, end + 1);
    if end == y.len() {
        assert(rest =~= seq![]);
        assert(part_spans(t, n + end + 1) =~= seq![]);
        assert(part_spans(t, n + end + 1) =~= moved_spans(rest, n));
    } else {
        lemma_spans_behind(x, y, end + 1);
    }
    assert(part_spans(t, n + from) =~= moved_spans(part_spans(y, from), n));
}

/// From the start of a part on, the spans are those from that part on.
proof fn lemma_spans_from(p: Seq<char>, from: int, k: int)
    requires
        0 <= from,
        0 <= k < part_spans(p, from).len(),
    ensures
        part_spans(p, part_spans(p, from)[k].0) == part_spans(p, from).skip(k),
    decreases p.len() + 1 - from,
{
    let spans = part_spans(p, from);
    text::lemma_find_char(p, '/', from);
    let end = text::find_char(p, '/', from);
    let rest = part_spans(p, end + 1);
    if is_part(p, from, end) {
        if k == 0 {
            assert(spans.skip(0) =~= spans);
        } else {
            lemma_spans_from(p, end + 1, k - 1);
            assert(spans[k] == rest[k - 1]);
            assert(spans.skip(k) =~= rest.skip(k - 1));
        }
    } else {
        assert(spans =~= rest);
        lemma_spans_from(p, end + 1, k);
    }
}

/// What follows the last part has no parts.
proof fn lemma_spans_until(p: Seq<char>, from: int)
    requires
        0 <= from,
        part_spans(p, from).len() > 0,
    ensures
        part_spans(p.take(part_spans(p, from).last().1), from) == part_spans(p, from),
    decreases p.len() + 1 - from,
{
    let spans = part_spans(p, from);
    lemma_part_spans(p, from);
    let hi = spans.last().1;
    let t = p.take(hi);
    text::lemma_find_char(p, '/', from);
    text::lemma_find_char(t, '/', from);
    let end = text::find_char(p, '/', from);
    let rest = part_spans(p, end + 1);
    lemma_part_spans(p, end + 1);
    if rest.len() == 0 {
        assert(is_part(p, from, end));
        assert(spans =~= seq![(from, end)]);
        assert(text::find_char(t, '/', from) == end) by {
            let other = text::find_char(t, '/', from);
            if other < end {
                assert(t[other] == p[other]);
            }
        }
        assert(part_spans(t, end + 1) =~= seq![]);
        assert(part_spans(t, from) =~= spans);
    } else {
        assert(spans.last() == rest.last());
        assert(end < hi);
        assert(p[end] == '/');
        assert(text::find_char(t, '/', from) == end) by {
            let other = text::find_char(t, '/', from);
            assert(t[end] == p[end]);
            if other < end {
                assert(t[other] == p[other]);
            }
        }
        lemma_spans_until(p, end + 1);
        if from < hi {
            assert(t[from] == p[from]);
        }
        assert(part_spans(t, from) =~= spans);
    }
}

/// What is left of a path has the parts that the prefix has not, and does not
/// start at the root, nor with a lone dot unless the path does.
#[verifier::rlimit(60)]
#[verifier::spinoff_prover]
proof fn lemma_stripped(p: Seq<char>, prefix: Seq<char>)
    requires
        below(p, prefix),
        absolute(p) == absolute(prefix),
    ensures
        stripped(p, prefix) is Some,
        !absolute(stripped(p, prefix)->Some_0),
        parts(stripped(p, prefix)->Some_0) == parts(p).skip(parts(prefix).len() as int),
        prefix.len() > 0 && parts(stripped(p, prefix)->Some_0).len() > 0 ==> parts(
            stripped(p, prefix)->Some_0,
        )[0] != seq!['.'],
{
    let spans = part_spans(p, 0);
    let k = parts(prefix).len() as int;
    let s = stripped(p, prefix)->Some_0;
    lemma_part_spans(p, 0);
    if k == spans.len() {
        text::lemma_find_char(s, '/', 0);
        assert(part_spans(s, 1) =~= seq![]);
        assert(part_spans(s, 0) =~= seq![]);
        assert(parts(s) =~= parts(p).skip(k));
    } else {
        let lo = spans[k].0;
        let hi = spans.last().1;
        let x = p.take(lo);
        let t = p.take(hi);
        lemma_spans_from(p, 0, k);
        let tail = part_spans(p, lo);
        assert(tail.last() == spans.last());
        lemma_spans_until(p, lo);
        assert(part_spans(t, lo) == tail);
        assert(s == p.subrange(lo, hi));
        assert(t =~= x + s);
        text::lemma_find_char(p, '/', lo);
        text::lemma_find_char(s, '/', 0);
        assert(tail[0] == spans[k]);
        let end = text::find_char(p, '/', lo);
        lemma_part_spans(p, end + 1);
        assert(is_part(p, lo, end)) by {
            if !is_part(p, lo, end) {
                assert(tail =~= part_spans(p, end + 1));
                assert(part_spans(p, end + 1)[0].0 >= end + 1);
            }
        }
        assert(tail =~= seq![(lo, end)] + part_spans(p, end + 1));
        assert(end <= hi) by {
            assert(tail[0].1 == end);
        }
        assert(s[0] == p[lo]);
        assert(text::find_char(s, '/', 0) == end - lo) by {
            let other = text::find_char(s, '/', 0);
            if other < end - lo {
                assert(s[other] == p[lo + other]);
            }
            if end < hi {
                assert(s[end - lo] == p[end]);
            }
        }
        if lo > 0 {
            lemma_spans_behind(x, s, 0);
            assert(moved_spans(part_spans(s, 0), lo) == tail);
        } else {
            assert(t =~= s);
            assert(moved_spans(part_spans(s, 0), 0) =~= part_spans(s, 0));
        }
        let own = part_spans(s, 0);
        assert(own.len() == tail.len());
        lemma_part_spans(s, 0);
        assert forall|i: int| 0 <= i < own.len() implies #[trigger] parts(s)[i] == parts(p).skip(
            k,
        )[i] by {
            assert(moved_spans(own, lo)[i] == tail[i]);
            assert(tail[i] == spans[k + i]);
            assert(s.subrange(own[i].0, own[i].1) =~= p.subrange(spans[k + i].0, spans[k + i].1));
        }
        assert(parts(s) =~= parts(p).skip(k));
        if prefix.len() > 0 {
            if absolute(p) {
                lemma_first_part(p);
            } else {
                text::lemma_find_char(prefix, '/', 0);
                assert(part_spans(prefix, 0).len() > 0);
            }
            assert(lo > 0);
            assert(parts(s)[0] == p.subrange(lo, end));
            if parts(s)[0] == seq!['.'] {
                assert(p.subrange(lo, end).len() == 1);
                assert(p.subrange(lo, end)[0] == p[lo]);
            }
        }
    }
}

/// A path that is joined to a base adds its parts to those of the base.
proof fn lemma_joined(base: Seq<char>, s: Seq<char>)
    requires
        !absolute(s),
        parts(s).len() > 0 ==> parts(s)[0] != seq!['.'],
    ensures
        absolute(joined(base, s)) == absolute(base),
        parts(joined(base, s)) == parts(base) + parts(s),
{
    let t = joined(base, s);
    if base.len() == 0 {
        text::lemma_find_char(base, '/', 0);
        assert(part_spans(base, 1) =~= seq![]);
        assert(part_spans(base, 0) =~= seq![]);
        assert(t =~= s);
        assert(parts(t) =~= parts(base) + parts(s));
    } else {
        let x = if base.last() != '/' {
            base.push('/')
        } else {
            base
        };
        let n = x.len() as int;
        assert(t == x + s);
        assert(t[0] == base[0]);
        if base.last() != '/' {
            lemma_spans_separated(base, 0);
        }
        lemma_spans_before(x, s, 0);
        let own = part_spans(s, 0);
        if s.len() > 0 {
            text::lemma_find_char(s, '/', 0);
            let end = text::find_char(s, '/', 0);
            assert(own =~= seq![(0int, end)] + part_spans(s, end + 1));
            assert(parts(s)[0] == s.subrange(0, end));
            if end == 1 && s[0] == '.' {
                assert(s.subrange(0, end) =~= seq!['.']);
            }
        }
        lemma_spans_behind(x, s, 0);
        lemma_part_spans(s, 0);
        lemma_part_spans(base, 0);
        let first = part_spans(base, 0);
        assert(part_spans(t, 0) == first + moved_spans(own, n));
        assert forall|i: int| 0 <= i < first.len() + own.len() implies #[trigger] parts(t)[i] == (
        parts(base) + parts(s))[i] by {
            if i < first.len() {
                assert(t.subrange(first[i].0, first[i].1) =~= base.subrange(
                    first[i].0,
                    first[i].1,
                ));
            } else {
                let j = i - first.len();
                assert(part_spans(t, 0)[i] == moved_spans(own, n)[j]);
                assert(t.subrange(own[j].0 + n, own[j].1 + n) =~= s.subrange(own[j].0, own[j].1));
            }
        }
        assert(parts(t) =~= parts(base) + parts(s));
    }
}

/// Taking a path from below one base to below another, and back, gives the
/// same path. Where only the old base is empty, the path may start neither at
/// the root nor with a lone dot.
pub proof fn rebased_paths_come_back(p: Seq<char>, old_base: Seq<char>, new_base: Seq<char>)
    requires
        below(p, old_base),
        old_base.len() == 0 && new_base.len() > 0 ==> !absolute(p) && !(parts(p).len() > 0
            && parts(p)[0] == seq!['.']),
    ensures
        stripped(p, old_base) is Some,
        ({
            let there = joined(new_base, stripped(p, old_base)->Some_0);
            &&& below(there, new_base)
            &&& stripped(there, new_base) is Some
            &&& same(joined(old_base, stripped(there, new_base)->Some_0), p)
        }),
{
    if old_base.len() == 0 {
        lemma_no_parts(old_base);
    } else if !absolute(old_base) {
        text::lemma_find_char(old_base, '/', 0);
        assert(part_spans(old_base, 0).len() > 0);
        assert(parts(old_base).len() > 0);
    }
    if old_base.len() == 0 && new_base.len() == 0 {
        assert(old_base =~= Seq::empty());
        assert(new_base =~= Seq::empty());
        lemma_trimmed_path(p);
        let there = joined(new_base, stripped(p, old_base)->Some_0);
        lemma_trimmed_path(there);
    } else {
        lemma_stripped(p, old_base);
        let s = stripped(p, old_base)->Some_0;
        if old_base.len() == 0 {
            assert(parts(s) =~= parts(p));
        }
        lemma_joined(new_base, s);
        let there = joined(new_base, s);
        assert(parts(there).take(parts(new_base).len() as int) =~= parts(new_base));
        lemma_stripped(there, new_base);
        let back = stripped(there, new_base)->Some_0;
        assert(parts(back) =~= parts(s));
        lemma_joined(old_base, back);
        assert(parts(old_base) + parts(s) =~= parts(p));
    }
}

proof fn lemma_no_parts(p: Seq<char>)
    requires
        p.len() == 0,
    ensures
        parts(p) == Seq::<Seq<char>>::empty(),
{
    text::lemma_find_char(p, '/', 0);
    assert(part_spans(p, 1) =~= seq![]);
    assert(part_spans(p, 0) =~= seq![]);
    assert(parts(p) =~= seq![]);
}

/// What is left of a path without the empty prefix is the same path.
proof fn lemma_trimmed_path(p: Seq<char>)
    ensures
        below(p, Seq::empty()),
        stripped(p, Seq::empty()) is Some,
        same(joined(Seq::empty(), stripped(p, Seq::empty())->Some_0), p),
{
    let none = Seq::<char>::empty();
    lemma_no_parts(none);
    assert(parts(p).take(0) =~= parts(none));
    let s = stripped(p, none)->Some_0;
    assert(joined(none, s) =~= s);
    if absolute(p) {
        let spans = part_spans(p, 0);
        lemma_part_spans(p, 0);
        if spans.len() == 0 {
            lemma_root_has_no_parts();
            assert(parts(s) =~= parts(p));
        } else {
            let hi = spans.last().1;
            lemma_spans_until(p, 0);
            assert(s == p.take(hi));
            assert forall|i: int| 0 <= i < spans.len() implies #[trigger] parts(s)[i] == parts(p)[i] by {
                assert(spans[i].1 <= hi);
                assert(s.subrange(spans[i].0, spans[i].1) =~= p.subrange(spans[i].0, spans[i].1));
            }
            assert(parts(s) =~= parts(p));
        }
    } else {
        lemma_stripped(p, none);
        assert(parts(p).skip(0) =~= parts(p));
    }
}

proof fn lemma_root_has_no_parts()
    ensures
        parts(seq!['/']) == Seq::<Seq<char>>::empty(),
{
    let root = seq!['/'];
    text::lemma_find_char(root, '/', 0);
    text::lemma_find_char(root, '/', 1);
    assert(root[0] == '/');
    assert(text::find_char(root, '/', 0) == 0);
    assert(part_spans(root, 2) =~= seq![]);
    assert(part_spans(root, 1) =~= seq![]);
    assert(part_spans(root, 0) =~= seq![]);
    assert(parts(root) =~= seq![]);
}

fn part_ranges(p: &[char]) -> (out: Vec<(usize, usize)>)
    ensures
        text::span_ints(out@) == part_spans(p@, 0),
        forall|i: int| 0 <= i < out@.len() ==> (#[trigger] out@[i]).0 < out@[i].1 <= p@.len(),
        forall|i: int, j: int|
            0 <= i < j < out@.len() ==> (#[trigger] out@[i]).1 < (#[trigger] out@[j]).0,
{
    let mut out: Vec<(usize, usize)> = Vec::new();
    let mut from: usize = 0;
    let ghost all = part_spans(p@, 0);
    proof {
        assert(text::span_ints(out@) + all =~= all);
    }
    loop
        invariant_except_break
            text::span_ints(out@) + part_spans(p@, from as int) == all,
        invariant
            from <= p@.len(),
            all == part_spans(p@, 0),
        ensures
            text::span_ints(out@) == all,
        decreases p@.len() - from,
    {
        let end: usize = text::find_char_from(p, '/', from);
        let ghost before = text::span_ints(out@);
        let ghost rest = part_spans(p@, end + 1);
        if from < end && !(from > 0 && end - from == 1 && p[from] == '.') {
            out.push((from, end));
            proof {
                assert(text::span_ints(out@) =~= before.push((from as int, end as int)));
                assert(text::span_ints(out@) + rest =~= before + (seq![(from as int, end as int)]
                    + rest));
            }
        } else {
            proof {
                assert(before + rest =~= before + (Seq::<(int, int)>::empty() + rest));
            }
        }
        if end == p.len() {
            proof {
                assert(rest =~= Seq::<(int, int)>::empty());
                assert(text::span_ints(out@) + rest =~= text::span_ints(out@));
            }
            break;
        }
        from = end + 1;
    }
    proof {
        lemma_part_spans(p@, 0);
        assert forall|i: int| 0 <= i < out@.len() implies (#[trigger] out@[i]).0 < out@[i].1
            <= p@.len() by {
            assert(text::span_ints(out@)[i] == (out@[i].0 as int, out@[i].1 as int));
        }
        assert forall|i: int, j: int| 0 <= i < j < out@.len() implies (#[trigger] out@[i]).1 < (
        #[trigger] out@[j]).0 by {
            assert(text::span_ints(out@)[i] == (out@[i].0 as int, out@[i].1 as int));
            assert(text::span_ints(out@)[j] == (out@[j].0 as int, out@[j].1 as int));
        }
    }
    out
}

/// The parts of a path.
pub fn path_parts(p: &str) -> (out: Vec<Vec<char>>)
    ensures
        text::rows(out@) == parts(p@),
{
    let chars = text::chars_of(p);
    let spans = part_ranges(&chars);
    let mut out: Vec<Vec<char>> = Vec::new();
    let mut i: usize = 0;
    while i < spans.len()
        invariant
            i <= spans@.len(),
            chars@ == p@,
            text::span_ints(spans@) == part_spans(p@, 0),
            forall|k: int|
                0 <= k < spans@.len() ==> (#[trigger] spans@[k]).0 < spans@[k].1 <= chars@.len(),
            text::rows(out@) == parts(p@).take(i as int),
        decreases spans@.len() - i,
    {
        let ghost before = text::rows(out@);
        let (start, end): (usize, usize) = spans[i];
        out.push(text::copy_range(&chars, start, end));
        proof {
            assert(text::span_ints(spans@)[i as int] == (start as int, end as int));
            assert(text::rows(out@) =~= before.push(parts(p@)[i as int]));
            assert(text::rows(out@) =~= parts(p@).take(i + 1));
        }
        i += 1;
    }
    proof {
        assert(text::span_ints(spans@).len() == spans@.len());
        assert(parts(p@).take(spans@.len() as int) =~= parts(p@));
    }
    out
}

/// Whether a path starts at the root.
pub fn is_absolute(p: &str) -> (r: bool)
    ensures
        r == absolute(p@),
{
    let chars = text::chars_of(p);
    chars.len() > 0 && chars[0] == '/'
}

/// Whether two texts name the same path.
pub fn same_path(a: &str, b: &str) -> (r: bool)
    ensures
        r == same(a@, b@),
{
    if is_absolute(a) != is_absolute(b) {
        return false;
    }
    let left = path_parts(a);
    let right = path_parts(b);
    proof {
        assert(text::rows(left@).len() == left@.len());
        assert(text::rows(right@).len() == right@.len());
    }
    if left.len() != right.len() {
        return false;
    }
    let same_rows: bool = same_prefix(&left, &right);
    proof {
        assert(text::rows(left@).take(right@.len() as int) =~= text::rows(left@));
    }
    same_rows
}

fn same_prefix(long: &[Vec<char>], short: &[Vec<char>]) -> (r: bool)
    requires
        short@.len() <= long@.len(),
    ensures
        r == (text::rows(long@).take(short@.len() as int) == text::rows(short@)),
{
    let mut i: usize = 0;
    while i < short.len()
        invariant
            i <= short@.len() <= long@.len(),
            forall|k: int| 0 <= k < i ==> text::rows(long@)[k] == #[trigger] text::rows(short@)[k],
        decreases short@.len() - i,
    {
        if !text::same_chars(&long[i], &short[i]) {
            proof {
                assert(text::rows(long@).take(short@.len() as int)[i as int] != text::rows(
                    short@,
                )[i as int]);
            }
            return false;
        }
        i += 1;
    }
    proof {
        assert(text::rows(long@).take(short@.len() as int) =~= text::rows(short@));
    }
    true
}

/// Whether a path is another or lies below it.
pub fn starts_with(p: &str, prefix: &str) -> (r: bool)
    ensures
        r == below(p@, prefix@),
{
    let long = path_parts(p);
    let short = path_parts(prefix);
    proof {
        assert(text::rows(long@).len() == long@.len());
        assert(text::rows(short@).len() == short@.len());
    }
    let rooted: bool = is_absolute(prefix);
    if rooted != is_absolute(p) && (rooted || short.len() > 0) {
        return false;
    }
    if short.len() > long.len() {
        return false;
    }
    same_prefix(&long, &short)
}

/// The last part of a path, where it names something.
pub fn file_name(p: &str) -> (name: Option<String>)
    ensures
        text::opt_text(name) == name_of(p@),
{
    let all = path_parts(p);
    let n: usize = all.len();
    proof {
        assert(text::rows(all@).len() == n);
    }
    if n == 0 {
        return None;
    }
    let last = &all[n - 1];
    proof {
        assert(text::rows(all@).last() == last@);
    }
    let dot: bool = last.len() == 1 && last[0] == '.';
    let dots: bool = last.len() == 2 && last[0] == '.' && last[1] == '.';
    proof {
        assert(dot == (last@ =~= seq!['.']));
        assert(dots == (last@ =~= seq!['.', '.']));
    }
    if dot || dots {
        None
    } else {
        Some(text::text_of(last))
    }
}

/// The path without its last part.
pub fn parent(p: &str) -> (up: Option<String>)
    ensures
        text::opt_text(up) == parent_of(p@),
{
    let chars = text::chars_of(p);
    let spans = part_ranges(&chars);
    let n: usize = spans.len();
    proof {
        assert(text::span_ints(spans@).len() == n);
    }
    if n == 0 {
        None
    } else if n > 1 {
        proof {
            assert(text::span_ints(spans@)[n - 2] == (
                spans@[n - 2].0 as int,
                spans@[n - 2].1 as int,
            ));
        }
        Some(text::text_of(slice_subrange(&chars, 0, spans[n - 2].1)))
    } else if is_absolute(p) {
        let mut root = String::new();
        root.push('/');
        proof {
            assert(root@ =~= seq!['/']);
        }
        Some(root)
    } else {
        Some(String::new())
    }
}

/// A path taken relative to a base.
pub fn join(base: &str, p: &str) -> (out: String)
    ensures
        out@ == joined(base@, p@),
{
    if is_absolute(p) {
        return p.to_string();
    }
    let chars = text::chars_of(base);
    let mut out = base.to_string();
    if chars.len() > 0 && chars[chars.len() - 1] != '/' {
        out.push('/');
    }
    out.append(p);
    out
}

/// What follows the last dot of a file name.
pub fn extension(p: &str) -> (ext: Option<String>)
    ensures
        text::opt_text(ext) == extension_of(p@),
{
    match file_name(p) {
        Some(name) => {
            let chars = text::chars_of(name.as_str());
            let mut len: usize = chars.len();
            while len > 0
                invariant
                    len <= chars@.len(),
                    chars@ == name@,
                    name_of(p@) == Some(name@),
                    last_dot(name@, name@.len() as int) == last_dot(name@, len as int),
                decreases len,
            {
                if chars[len - 1] == '.' {
                    if len == 1 {
                        return None;
                    }
                    proof {
                        assert(chars@.subrange(len as int, chars@.len() as int) =~= name@.skip(
                            len as int,
                        ));
                    }
                    return Some(text::text_of(slice_subrange(&chars, len, chars.len())));
                }
                len -= 1;
            }
            None
        },
        None => None,
    }
}

/// What is left of a path below a prefix.
pub fn strip_prefix(p: &str, prefix: &str) -> (rest: Option<String>)
    ensures
        text::opt_text(rest) == stripped(p@, prefix@),
{
    if !starts_with(p, prefix) {
        return None;
    }
    let chars = text::chars_of(p);
    let spans = part_ranges(&chars);
    let n: usize = spans.len();
    let short = path_parts(prefix);
    let k: usize = short.len();
    proof {
        assert(text::span_ints(spans@).len() == n);
        assert(text::rows(short@).len() == k);
    }
    if is_absolute(p) && !is_absolute(prefix) {
        if n == 0 {
            let mut root = String::new();
            root.push('/');
            proof {
                assert(root@ =~= seq!['/']);
            }
            return Some(root);
        }
        proof {
            assert(text::span_ints(spans@)[n - 1] == (
                spans@[n - 1].0 as int,
                spans@[n - 1].1 as int,
            ));
        }
        return Some(text::text_of(slice_subrange(&chars, 0, spans[n - 1].1)));
    }
    if k == n {
        return Some(String::new());
    }
    proof {
        assert(text::span_ints(spans@)[n - 1] == (spans@[n - 1].0 as int, spans@[n - 1].1 as int));
        assert(text::span_ints(spans@)[k as int] == (
            spans@[k as int].0 as int,
            spans@[k as int].1 as int,
        ));
        if k < n - 1 {
            assert(spans@[k as int].1 < spans@[n - 1].0);
        }
    }
    Some(text::text_of(slice_subrange(&chars, spans[k].0, spans[n - 1].1)))
}

/// Whether a path is one of a list.
pub open spec fn listed(paths: Seq<Seq<char>>, p: Seq<char>) -> bool {
    exists|i: int| 0 <= i < paths.len() && same(#[trigger] paths[i], p)
}

/// Whether a path is one of a list.
pub fn is_listed(paths: &[String], p: &str) -> (r: bool)
    ensures
        r == listed(text::texts(paths@), p@),
{
    let mut i: usize = 0;
    while i < paths.len()
        invariant
            i <= paths@.len(),
            forall|k: int| 0 <= k < i ==> !same(#[trigger] text::texts(paths@)[k], p@),
        decreases paths@.len() - i,
    {
        if same_path(paths[i].as_str(), p) {
            proof {
                assert(same(text::texts(paths@)[i as int], p@));
            }
            return true;
        }
        i += 1;
    }
    false
}

/// The paths of a list without those that came before.
pub open spec fn deduped(paths: Seq<Seq<char>>) -> Seq<Seq<char>>
    decreases paths.len(),
{
    if paths.len() == 0 {
        seq![]
    } else {
        let earlier = deduped(paths.drop_last());
        if listed(earlier, paths.last()) {
            earlier
        } else {
            earlier.push(paths.last())
        }
    }
}

/// Drops every path that equals an earlier one.
pub fn dedupe_paths(paths: &[String]) -> (out: Vec<String>)
    ensures
        text::texts(out@) == deduped(text::texts(paths@)),
{
    let mut out: Vec<String> = Vec::new();
    let mut i: usize = 0;
    let ghost all = text::texts(paths@);
    proof {
        assert(text::texts(out@) =~= deduped(all.take(0)));
    }
    while i < paths.len()
        invariant
            i <= paths@.len(),
            all == text::texts(paths@),
            text::texts(out@) == deduped(all.take(i as int)),
        decreases paths@.len() - i,
    {
        proof {
            assert(all.take(i + 1).drop_last() =~= all.take(i as int));
            assert(all.take(i + 1).last() == paths@[i as int]@);
        }
        let ghost before = text::texts(out@);
        if !is_listed(&out, paths[i].as_str()) {
            out.push(paths[i].clone());
            proof {
                assert(text::texts(out@) =~= before.push(paths@[i as int]@));
            }
        }
        i += 1;
    }
    proof {
        assert(all.take(paths@.len() as int) =~= all);
    }
    out
}

// ---------------------------------------------------------------------------
// Order.

/// The rank of a part: the directory itself, the one above it, any other.
pub open spec fn part_rank(part: Seq<char>) -> int {
    if part == seq!['.'] {
        0
    } else if part == seq!['.', '.'] {
        1
    } else {
        2
    }
}

/// Whether one part comes before another: by rank, then by name.
pub open spec fn part_before(a: Seq<char>, b: Seq<char>) -> bool {
    if part_rank(a) != part_rank(b) {
        part_rank(a) < part_rank(b)
    } else {
        text_order::before(a, b)
    }
}

/// Whether one list of parts comes before another, from the `i`-th part on.
pub open spec fn parts_before(a: Seq<Seq<char>>, b: Seq<Seq<char>>, i: int) -> bool
    decreases b.len() - i,
{
    if i < 0 || i >= b.len() {
        false
    } else if i >= a.len() {
        true
    } else if a[i] == b[i] {
        parts_before(a, b, i + 1)
    } else {
        part_before(a[i], b[i])
    }
}

/// Whether one path comes before another: part by part, the root before all
/// other parts, and a path before those that go on.
pub open spec fn before(a: Seq<char>, b: Seq<char>) -> bool {
    if absolute(a) && !absolute(b) {
        parts(b).len() > 0
    } else if absolute(b) && !absolute(a) {
        parts(a).len() == 0
    } else {
        parts_before(parts(a), parts(b), 0)
    }
}

fn rank_of(part: &[char]) -> (rank: u8)
    ensures
        rank == part_rank(part@),
{
    if part.len() == 1 && part[0] == '.' {
        proof {
            assert(part@ =~= seq!['.']);
        }
        return 0;
    }
    if part.len() == 2 && part[0] == '.' && part[1] == '.' {
        proof {
            assert(part@ =~= seq!['.', '.']);
            assert(part@.len() != seq!['.'].len());
        }
        return 1;
    }
    2
}

/// Whether one path comes before another.
pub fn path_before(a: &str, b: &str) -> (r: bool)
    ensures
        r == before(a@, b@),
{
    let first = path_parts(a);
    let second = path_parts(b);
    proof {
        assert(text::rows(first@).len() == first@.len());
        assert(text::rows(second@).len() == second@.len());
    }
    let rooted: bool = is_absolute(a);
    if rooted && !is_absolute(b) {
        return second.len() > 0;
    }
    if is_absolute(b) && !rooted {
        return first.len() == 0;
    }
    let ghost x = parts(a@);
    let ghost y = parts(b@);
    let mut i: usize = 0;
    while i < second.len()
        invariant
            i <= second@.len(),
            i <= first@.len(),
            absolute(a@) == absolute(b@),
            x == parts(a@),
            y == parts(b@),
            text::rows(first@) == x,
            text::rows(second@) == y,
            parts_before(x, y, 0) == parts_before(x, y, i as int),
        decreases second@.len() - i,
    {
        proof {
            assert(y[i as int] == second@[i as int]@);
            assert(x.len() == first@.len());
        }
        if i >= first.len() {
            return true;
        }
        proof {
            assert(x[i as int] == first@[i as int]@);
        }
        if !text::same_chars(&first[i], &second[i]) {
            let left_rank: u8 = rank_of(&first[i]);
            let right_rank: u8 = rank_of(&second[i]);
            if left_rank != right_rank {
                return left_rank < right_rank;
            }
            let left = text::text_of(&first[i]);
            let right = text::text_of(&second[i]);
            return text_order::text_not_after(left.as_str(), right.as_str());
        }
        i += 1;
    }
    proof {
        assert(y.len() == second@.len());
    }
    false
}

/// The list with a path put in its place, unless it is there already.
pub open spec fn inserted(list: Seq<Seq<char>>, p: Seq<char>) -> Seq<Seq<char>>
    decreases list.len(),
{
    if list.len() == 0 {
        seq![p]
    } else if same(p, list[0]) {
        list
    } else if before(p, list[0]) {
        seq![p] + list
    } else {
        seq![list[0]] + inserted(list.skip(1), p)
    }
}

/// The paths in order, each once.
pub open spec fn sorted_set(list: Seq<Seq<char>>) -> Seq<Seq<char>>
    decreases list.len(),
{
    if list.len() == 0 {
        seq![]
    } else {
        inserted(sorted_set(list.drop_last()), list.last())
    }
}

proof fn lemma_inserted_at(list: Seq<Seq<char>>, p: Seq<char>, at: int)
    requires
        0 <= at <= list.len(),
        forall|k: int|
            0 <= k < at ==> !same(p, #[trigger] list[k]) && !before(p, list[k]),
        at < list.len() ==> before(p, list[at]) || same(p, list[at]),
    ensures
        inserted(list, p) == if at < list.len() && same(p, list[at]) {
            list
        } else {
            list.insert(at, p)
        },
    decreases list.len(),
{
    if list.len() == 0 {
        assert(list.insert(0, p) =~= seq![p]);
    } else if at == 0 {
        if !same(p, list[0]) {
            assert(list.insert(0, p) =~= seq![p] + list);
        }
    } else {
        let rest = list.skip(1);
        assert forall|k: int| 0 <= k < at - 1 implies !same(p, #[trigger] rest[k]) && !before(
            p,
            rest[k],
        ) by {
            assert(rest[k] == list[k + 1]);
        }
        if at < list.len() {
            assert(rest[at - 1] == list[at]);
        }
        lemma_inserted_at(rest, p, at - 1);
        assert(!same(p, list[0]) && !before(p, list[0]));
        if at < list.len() && same(p, list[at]) {
            assert(seq![list[0]] + rest =~= list);
        } else {
            assert(seq![list[0]] + rest.insert(at - 1, p) =~= list.insert(at, p));
        }
    }
}

/// Sorts paths, keeping each once.
pub fn sort_paths(list: &[String]) -> (out: Vec<String>)
    ensures
        text::texts(out@) == sorted_set(text::texts(list@)),
{
    let mut out: Vec<String> = Vec::new();
    let ghost all = text::texts(list@);
    let mut i: usize = 0;
    proof {
        assert(text::texts(out@) =~= sorted_set(all.take(0)));
    }
    while i < list.len()
        invariant
            i <= list@.len(),
            all == text::texts(list@),
            text::texts(out@) == sorted_set(all.take(i as int)),
        decreases list@.len() - i,
    {
        let ghost held = text::texts(out@);
        let path = list[i].as_str();
        let mut at: usize = 0;
        while at < out.len() && !same_path(path, out[at].as_str()) && !path_before(
            path,
            out[at].as_str(),
        )
            invariant
                at <= out@.len(),
                held == text::texts(out@),
                forall|k: int|
                    0 <= k < at ==> !same(path@, #[trigger] held[k]) && !before(path@, held[k]),
            decreases out@.len() - at,
        {
            proof {
                assert(held[at as int] == out@[at as int]@);
            }
            at += 1;
        }
        proof {
            if at < out@.len() {
                assert(held[at as int] == out@[at as int]@);
            }
            lemma_inserted_at(held, path@, at as int);
            assert(all.take(i + 1).drop_last() =~= all.take(i as int));
            assert(all.take(i + 1).last() == path@);
        }
        if at >= out.len() || !same_path(path, out[at].as_str()) {
            out.insert(at, list[i].clone());
            proof {
                assert(text::texts(out@) =~= held.insert(at as int, path@));
            }
        }
        i += 1;
    }
    proof {
        assert(all.take(i as int) =~= all);
    }
    out
}

proof fn lemma_inserted_lists(list: Seq<Seq<char>>, p: Seq<char>, q: Seq<char>)
    ensures
        listed(inserted(list, p), q) <==> listed(list, q) || same(p, q),
    decreases list.len(),
{
    let out = inserted(list, p);
    if list.len() == 0 {
        assert(out[0] == p);
    } else if same(p, list[0]) {
        if same(p, q) {
            assert(same(list[0], q));
        }
    } else if before(p, list[0]) {
        assert(out[0] == p);
        assert forall|k: int| 0 <= k < list.len() implies #[trigger] out[k + 1] == list[k] by {}
        if listed(list, q) {
            let k = choose|k: int| 0 <= k < list.len() && same(#[trigger] list[k], q);
            assert(same(out[k + 1], q));
        }
        if listed(out, q) {
            let k = choose|k: int| 0 <= k < out.len() && same(#[trigger] out[k], q);
            if k > 0 {
                assert(list[k - 1] == out[k]);
            }
        }
    } else {
        let rest = list.skip(1);
        let tail = inserted(rest, p);
        lemma_inserted_lists(rest, p, q);
        if listed(list, q) {
            let k = choose|k: int| 0 <= k < list.len() && same(#[trigger] list[k], q);
            if k == 0 {
                assert(same(out[0], q));
            } else {
                assert(rest[k - 1] == list[k]);
                assert(listed(rest, q));
            }
        }
        if listed(tail, q) {
            let k = choose|k: int| 0 <= k < tail.len() && same(#[trigger] tail[k], q);
            assert(out[k + 1] == tail[k]);
        }
        if listed(out, q) {
            let k = choose|k: int| 0 <= k < out.len() && same(#[trigger] out[k], q);
            if k == 0 {
                assert(same(list[0], q));
            } else {
                assert(tail[k - 1] == out[k]);
                assert(listed(tail, q));
            }
        }
        if listed(rest, q) {
            let k = choose|k: int| 0 <= k < rest.len() && same(#[trigger] rest[k], q);
            assert(list[k + 1] == rest[k]);
        }
    }
}

/// A sorted set of paths lists just those that it was made of.
pub proof fn sorted_sets_list_their_paths(list: Seq<Seq<char>>, q: Seq<char>)
    ensures
        listed(sorted_set(list), q) <==> listed(list, q),
    decreases list.len(),
{
    if list.len() > 0 {
        let front = list.drop_last();
        sorted_sets_list_their_paths(front, q);
        lemma_inserted_lists(sorted_set(front), list.last(), q);
        if listed(list, q) {
            let k = choose|k: int| 0 <= k < list.len() && same(#[trigger] list[k], q);
            if k < front.len() {
                assert(front[k] == list[k]);
            }
        }
        if listed(front, q) {
            let k = choose|k: int| 0 <= k < front.len() && same(#[trigger] front[k], q);
            assert(list[k] == front[k]);
        }
        assert(list[list.len() - 1] == list.last());
    }
}

// ---------------------------------------------------------------------------
// Files and directories.

/// Whether a text is the name of something in a directory.
pub open spec fn is_name(name: Seq<char>) -> bool {
    name.len() > 0 && !name.contains('/') && name != seq!['.'] && name != seq!['.', '.']
}

proof fn lemma_name_parts(name: Seq<char>)
    requires
        is_name(name),
    ensures
        !absolute(name),
        parts(name) == seq![name],
{
    assert(name.contains(name[0]));
    text::lemma_find_char(name, '/', 0);
    let end = text::find_char(name, '/', 0);
    if end < name.len() {
        assert(name.contains(name[end]));
    }
    assert(part_spans(name, end + 1) =~= Seq::<(int, int)>::empty());
    assert(part_spans(name, 0) =~= seq![(0int, name.len() as int)]);
    assert(name.subrange(0, name.len() as int) =~= name);
    assert(parts(name) =~= seq![name]);
}

/// A name joined to a directory is in it: it has the parts of the directory and
/// then the name, it is called by the name, and it lies below the directory and
/// all that the directory lies below.
pub proof fn files_lie_in_their_directory(dir: Seq<char>, name: Seq<char>, above: Seq<char>)
    requires
        is_name(name),
    ensures
        parts(joined(dir, name)) == parts(dir).push(name),
        absolute(joined(dir, name)) == absolute(dir),
        name_of(joined(dir, name)) == Some(name),
        below(joined(dir, name), dir),
        below(dir, above) ==> below(joined(dir, name), above),
        !same(joined(dir, name), dir),
        below(dir, dir),
{
    lemma_name_parts(name);
    assert(name[0] != '/' || name.contains('/'));
    lemma_joined(dir, name);
    let p = joined(dir, name);
    assert(parts(dir) + seq![name] =~= parts(dir).push(name));
    assert(parts(p).take(parts(dir).len() as int) =~= parts(dir));
    assert(parts(dir).take(parts(dir).len() as int) =~= parts(dir));
    if below(dir, above) {
        let short = parts(above);
        assert(parts(p).take(short.len() as int) =~= parts(dir).take(short.len() as int));
    }
    assert(parts(p).len() == parts(dir).len() + 1);
}

proof fn lemma_last_dot(stem: Seq<char>, extension: Seq<char>, len: int)
    requires
        !extension.contains('.'),
        stem.len() + 1 <= len <= stem.len() + 1 + extension.len(),
    ensures
        last_dot(stem + seq!['.'] + extension, len) == Some(stem.len() as int),
    decreases len,
{
    let name = stem + seq!['.'] + extension;
    if len > stem.len() + 1 {
        let c = extension[len - 1 - (stem.len() + 1)];
        assert(name[len - 1] == c);
        assert(extension.contains(c));
        lemma_last_dot(stem, extension, len - 1);
    } else {
        assert(name[len - 1] == '.');
    }
}

/// The extension of a file is what follows the last dot of its name, unless that
/// dot comes first.
pub proof fn extensions_follow_the_last_dot(
    dir: Seq<char>,
    stem: Seq<char>,
    extension: Seq<char>,
    name: Seq<char>,
)
    requires
        !extension.contains('.'),
        is_name(stem + seq!['.'] + extension),
        is_name(name),
        !name.contains('.'),
    ensures
        stem.len() > 0 ==> extension_of(joined(dir, stem + seq!['.'] + extension)) == Some(
            extension,
        ),
        stem.len() == 0 ==> extension_of(joined(dir, stem + seq!['.'] + extension)) is None,
        extension_of(joined(dir, name)) is None,
{
    let full = stem + seq!['.'] + extension;
    files_lie_in_their_directory(dir, full, dir);
    files_lie_in_their_directory(dir, name, dir);
    lemma_last_dot(stem, extension, full.len() as int);
    assert(full.skip(stem.len() as int + 1) =~= extension);
    lemma_no_dot(name, name.len() as int);
}

proof fn lemma_no_dot(name: Seq<char>, len: int)
    requires
        !name.contains('.'),
        0 <= len <= name.len(),
    ensures
        last_dot(name, len) is None,
    decreases len,
{
    if len > 0 {
        assert(name.contains(name[len - 1]));
        lemma_no_dot(name, len - 1);
    }
}

/// Of paths that are the same only the first is kept, and every path is still
/// listed.
pub proof fn paths_are_kept_once(paths: Seq<Seq<char>>, q: Seq<char>)
    ensures
        listed(deduped(paths), q) <==> listed(paths, q),
        forall|i: int, j: int|
            0 <= i < j < deduped(paths).len() ==> !same(
                #[trigger] deduped(paths)[i],
                #[trigger] deduped(paths)[j],
            ),
        forall|i: int| 0 <= i < deduped(paths).len() ==> paths.contains(#[trigger] deduped(paths)[i]),
    decreases paths.len(),
{
    if paths.len() > 0 {
        let front = paths.drop_last();
        let last = paths.last();
        let kept = deduped(paths);
        let earlier = deduped(front);
        paths_are_kept_once(front, q);
        paths_are_kept_once(front, last);
        if listed(paths, q) {
            let k = choose|k: int| 0 <= k < paths.len() && same(#[trigger] paths[k], q);
            if k < front.len() {
                assert(front[k] == paths[k]);
                let m = choose|m: int| 0 <= m < earlier.len() && same(#[trigger] earlier[m], q);
                assert(kept[m] == earlier[m]);
            } else if listed(earlier, last) {
                let m = choose|m: int|
                    0 <= m < earlier.len() && same(#[trigger] earlier[m], last);
                assert(same(kept[m], q));
            } else {
                assert(kept[earlier.len() as int] == last);
            }
        }
        if listed(kept, q) {
            let m = choose|m: int| 0 <= m < kept.len() && same(#[trigger] kept[m], q);
            if m < earlier.len() {
                assert(earlier[m] == kept[m]);
                let k = choose|k: int| 0 <= k < front.len() && same(#[trigger] front[k], q);
                assert(paths[k] == front[k]);
            } else {
                assert(paths[paths.len() - 1] == last);
            }
        }
        assert forall|i: int, j: int| 0 <= i < j < kept.len() implies !same(
            #[trigger] kept[i],
            #[trigger] kept[j],
        ) by {
            assert(kept[i] == earlier[i]);
            if j < earlier.len() {
                assert(kept[j] == earlier[j]);
            } else if same(kept[i], kept[j]) {
                assert(same(earlier[i], last));
            }
        }
        assert forall|i: int| 0 <= i < kept.len() implies paths.contains(#[trigger] kept[i]) by {
            if i < earlier.len() {
                assert(kept[i] == earlier[i]);
                let k = choose|k: int| 0 <= k < front.len() && front[k] == earlier[i];
                assert(paths[k] == kept[i]);
            } else {
                assert(paths[paths.len() - 1] == kept[i]);
            }
        }
    }
}

} // verus!
