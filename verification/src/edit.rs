//! Edits of a file by search and replace. A passage is looked for exactly and
//! then, step by step, more leniently; what replaces a leniently found passage
//! takes on its indentation.

use vstd::prelude::*;
use vstd::slice::slice_subrange;

use crate::errors;
use crate::errors::FunctionCallError;
use crate::text;

verus! {

/// How a passage was found.
#[derive(Clone, Copy, Debug, PartialEq, Eq, Structural)]
pub enum MatchStrategy {
    Exact,
    LineTrimmed,
    WhitespaceNormalized,
    IndentationFlexible,
    ContextAnchor,
}

/// One replacement that an edit asks for.
#[derive(Clone, Debug)]
pub struct EditOperation {
    pub old_text: String,
    pub new_text: String,
    pub replace_all: bool,
}

/// The passages found for an edit, as pairs of character positions in order of
/// their starts, and how they were found.
pub struct Candidates {
    pub strategy: MatchStrategy,
    pub spans: Vec<(usize, usize)>,
}

/// What [`Candidates`] stand for.
#[verifier::ext_equal]
pub ghost struct CandidatesView {
    pub strategy: MatchStrategy,
    pub spans: Seq<(int, int)>,
}

impl View for Candidates {
    type V = CandidatesView;

    open spec fn view(&self) -> CandidatesView {
        CandidatesView { strategy: self.strategy, spans: text::span_ints(self.spans@) }
    }
}

// ---------------------------------------------------------------------------
// Edit distance.

/// The least number of insertions, deletions and substitutions that turn one
/// text into the other.
pub open spec fn distance(a: Seq<char>, b: Seq<char>) -> nat
    decreases a.len() + b.len(),
{
    if a.len() == 0 {
        b.len()
    } else if b.len() == 0 {
        a.len()
    } else {
        let drop_left = distance(a.drop_last(), b) + 1;
        let drop_right = distance(a, b.drop_last()) + 1;
        let both = distance(a.drop_last(), b.drop_last()) + if a.last() == b.last() {
            0nat
        } else {
            1nat
        };
        let least = if drop_left <= drop_right {
            drop_left
        } else {
            drop_right
        };
        if both <= least {
            both
        } else {
            least
        }
    }
}

/// The distance that is reported: where one text is empty, the number of bytes
/// of the other.
pub open spec fn reported_distance(a: Seq<char>, b: Seq<char>) -> nat {
    if a.len() == 0 || b.len() == 0 {
        if text::utf8_len(a) >= text::utf8_len(b) {
            text::utf8_len(a)
        } else {
            text::utf8_len(b)
        }
    } else {
        distance(a, b)
    }
}

/// The distance never exceeds the length of the longer text.
pub proof fn distance_is_bounded(a: Seq<char>, b: Seq<char>)
    ensures
        distance(a, b) <= a.len() || distance(a, b) <= b.len(),
    decreases a.len() + b.len(),
{
    if a.len() > 0 && b.len() > 0 {
        distance_is_bounded(a.drop_last(), b.drop_last());
    }
}

/// The distance does not depend on the order of the texts.
pub proof fn distance_is_symmetric(a: Seq<char>, b: Seq<char>)
    ensures
        distance(a, b) == distance(b, a),
    decreases a.len() + b.len(),
{
    if a.len() > 0 && b.len() > 0 {
        distance_is_symmetric(a.drop_last(), b);
        distance_is_symmetric(a, b.drop_last());
        distance_is_symmetric(a.drop_last(), b.drop_last());
    }
}

/// The distance is zero exactly between equal texts.
pub proof fn distance_separates(a: Seq<char>, b: Seq<char>)
    ensures
        (distance(a, b) == 0) == (a == b),
    decreases a.len() + b.len(),
{
    if a.len() > 0 && b.len() > 0 {
        distance_separates(a.drop_last(), b.drop_last());
        assert(a =~= a.drop_last().push(a.last()));
        assert(b =~= b.drop_last().push(b.last()));
    } else if a.len() == 0 && b.len() == 0 {
        assert(a =~= b);
    }
}

fn least_of(a: usize, b: usize) -> (m: usize)
    ensures
        m == if a <= b {
            a
        } else {
            b
        },
{
    if a <= b {
        a
    } else {
        b
    }
}

/// The edit distance of two texts, over characters; where one text is empty,
/// the number of bytes of the other.
pub fn levenshtein(left: &str, right: &str) -> (d: usize)
    ensures
        d == reported_distance(left@, right@),
{
    let left_bytes: usize = text::byte_len(left);
    let right_bytes: usize = text::byte_len(right);
    let a = text::chars_of(left);
    let b = text::chars_of(right);
    if a.len() == 0 || b.len() == 0 {
        if left_bytes >= right_bytes {
            return left_bytes;
        }
        return right_bytes;
    }
    let mut row: Vec<usize> = Vec::new();
    let mut j: usize = 0;
    while j < b.len()
        invariant
            j <= b@.len(),
            row@.len() == j,
            forall|k: int| 0 <= k < j ==> #[trigger] row@[k] == k + 1,
        decreases b@.len() - j,
    {
        row.push(j + 1);
        j += 1;
    }
    proof {
        assert(a@.take(0) =~= Seq::<char>::empty());
        assert forall|k: int| 0 <= k < b@.len() implies #[trigger] row@[k] == distance(
            a@.take(0),
            b@.take(k + 1),
        ) by {
        }
    }
    let mut i: usize = 0;
    while i < a.len()
        invariant
            i <= a@.len(),
            row@.len() == b@.len(),
            b@.len() > 0,
            forall|k: int|
                0 <= k < b@.len() ==> #[trigger] row@[k] == distance(
                    a@.take(i as int),
                    b@.take(k + 1),
                ),
        decreases a@.len() - i,
    {
        let ghost old_row = row@;
        let ghost a0 = a@.take(i as int);
        let ghost a1 = a@.take(i + 1);
        // The entry of the row above, one column to the left.
        let mut diagonal: usize = i;
        // The entry of this row, one column to the left.
        let mut before: usize = i + 1;
        let mut k: usize = 0;
        proof {
            assert(a1.drop_last() =~= a0);
            assert(b@.take(0) =~= Seq::<char>::empty());
        }
        while k < b.len()
            invariant
                k <= b@.len(),
                i < a@.len(),
                i < usize::MAX,
                a0 == a@.take(i as int),
                a1 == a@.take(i + 1),
                a1.drop_last() == a0,
                row@.len() == b@.len(),
                old_row.len() == b@.len(),
                diagonal == distance(a0, b@.take(k as int)),
                before == distance(a1, b@.take(k as int)),
                forall|q: int|
                    0 <= q < b@.len() ==> #[trigger] old_row[q] == distance(a0, b@.take(q + 1)),
                forall|q: int| k <= q < b@.len() ==> #[trigger] row@[q] == old_row[q],
                forall|q: int|
                    0 <= q < k ==> #[trigger] row@[q] == distance(a1, b@.take(q + 1)),
            decreases b@.len() - k,
        {
            let above: usize = row[k];
            proof {
                assert(row@[k as int] == old_row[k as int]);
                assert(b@.take(k + 1).drop_last() =~= b@.take(k as int));
                assert(b@.take(k + 1).last() == b@[k as int]);
                assert(a1.last() == a@[i as int]);
                distance_is_bounded(a0, b@.take(k as int));
            }
            let cost: usize = if a[i] == b[k] {
                0
            } else {
                1
            };
            let nearer: usize = least_of(above, before);
            let step: usize = nearer.saturating_add(1);
            let value: usize = least_of(step, diagonal + cost);
            row.set(k, value);
            diagonal = above;
            before = value;
            k += 1;
        }
        i += 1;
    }
    proof {
        assert(a@.take(a@.len() as int) =~= a@);
        assert(b@.take(b@.len() as int) =~= b@);
        assert(row@[b@.len() - 1] == distance(a@, b@.take(b@.len() - 1 + 1)));
    }
    row[b.len() - 1]
}

// ---------------------------------------------------------------------------
// Indentation.

/// The number of white-space characters at the start of a line.
pub open spec fn indent_len(line: Seq<char>) -> int {
    text::skip_white(line, 0)
}

/// The white space at the start of a line.
pub open spec fn indent_of(line: Seq<char>) -> Seq<char> {
    line.take(indent_len(line))
}

/// The least indentation among the lines that are not blank.
pub open spec fn least_indent(lines: Seq<Seq<char>>) -> Option<int>
    decreases lines.len(),
{
    if lines.len() == 0 {
        None
    } else {
        let earlier = least_indent(lines.drop_last());
        let line = lines.last();
        if text::is_blank(line) {
            earlier
        } else {
            match earlier {
                Some(n) => if n <= indent_len(line) {
                    Some(n)
                } else {
                    Some(indent_len(line))
                },
                None => Some(indent_len(line)),
            }
        }
    }
}

/// A line without its first `n` characters; a blank line is kept.
pub open spec fn dedented_line(line: Seq<char>, n: int) -> Seq<char> {
    if text::is_blank(line) {
        line
    } else {
        line.skip(n)
    }
}

/// The text without the indentation that all its lines share, blank lines
/// aside.
pub open spec fn dedented(value: Seq<char>) -> Seq<char> {
    let lines = text::split_at(value, '\n');
    match least_indent(lines) {
        Some(n) => text::joined(
            Seq::new(lines.len(), |i: int| dedented_line(lines[i], n)),
            seq!['\n'],
        ),
        None => value,
    }
}

proof fn lemma_least_indent(lines: Seq<Seq<char>>)
    ensures
        match least_indent(lines) {
            Some(n) => 0 <= n && forall|i: int|
                0 <= i < lines.len() && !text::is_blank(#[trigger] lines[i]) ==> n <= indent_len(
                    lines[i],
                ) <= lines[i].len(),
            None => forall|i: int| 0 <= i < lines.len() ==> text::is_blank(#[trigger] lines[i]),
        },
    decreases lines.len(),
{
    if lines.len() > 0 {
        lemma_least_indent(lines.drop_last());
        text::lemma_skip_white(lines.last(), 0);
        assert forall|i: int| 0 <= i < lines.len() - 1 implies #[trigger] lines[i]
            == lines.drop_last()[i] by {
        }
    }
}

/// Removes the indentation that the lines of a text share.
pub fn remove_shared_indentation(value: &[char]) -> (out: Vec<char>)
    ensures
        out@ == dedented(value@),
{
    let lines = text::split_on(value, '\n');
    let ghost views = text::rows(lines@);
    let mut least: Option<usize> = None;
    let mut i: usize = 0;
    while i < lines.len()
        invariant
            i <= lines@.len(),
            views == text::rows(lines@),
            match least {
                Some(n) => least_indent(views.take(i as int)) == Some(n as int),
                None => least_indent(views.take(i as int)) is None,
            },
        decreases lines@.len() - i,
    {
        proof {
            assert(views.take(i + 1).drop_last() =~= views.take(i as int));
            assert(views.take(i + 1).last() == lines@[i as int]@);
        }
        if !text::blank(&lines[i]) {
            let n: usize = text::skip_white_from(&lines[i], 0);
            least = match least {
                Some(m) => if m <= n {
                    Some(m)
                } else {
                    Some(n)
                },
                None => Some(n),
            };
        }
        i += 1;
    }
    proof {
        assert(views.take(lines@.len() as int) =~= views);
        lemma_least_indent(views);
    }
    match least {
        Some(n) => {
            let mut out: Vec<Vec<char>> = Vec::new();
            let mut j: usize = 0;
            let ghost wanted = Seq::new(views.len(), |k: int| dedented_line(views[k], n as int));
            while j < lines.len()
                invariant
                    j <= lines@.len(),
                    views == text::rows(lines@),
                    wanted == Seq::new(views.len(), |k: int| dedented_line(views[k], n as int)),
                    text::rows(out@) == wanted.take(j as int),
                    forall|k: int|
                        0 <= k < views.len() && !text::is_blank(#[trigger] views[k]) ==> n
                            <= views[k].len(),
                decreases lines@.len() - j,
            {
                let ghost before = text::rows(out@);
                let line = &lines[j];
                proof {
                    assert(views[j as int] == line@);
                }
                if text::blank(line) {
                    out.push(text::copy_range(line, 0, line.len()));
                } else {
                    out.push(text::copy_range(line, n, line.len()));
                }
                proof {
                    assert(out@.last()@ =~= wanted[j as int]);
                    assert(text::rows(out@) =~= before.push(wanted[j as int]));
                    assert(text::rows(out@) =~= wanted.take(j + 1));
                }
                j += 1;
            }
            proof {
                assert(wanted.take(lines@.len() as int) =~= wanted);
            }
            let mut newline: Vec<char> = Vec::new();
            newline.push('\n');
            proof {
                assert(newline@ =~= seq!['\n']);
            }
            text::join_rows(&out, &newline)
        },
        None => text::copy_range(value, 0, value.len()),
    }
}

/// A text with the same white space put before every line that is not blank.
pub open spec fn indented(value: Seq<char>, indent: Seq<char>) -> Seq<char> {
    let lines = text::split_at(value, '\n');
    text::joined(
        Seq::new(
            lines.len(),
            |i: int|
                if text::is_blank(lines[i]) {
                    lines[i]
                } else {
                    indent + lines[i]
                },
        ),
        seq!['\n'],
    )
}

/// Where blank lines stay blank and all others move by as much, so does the
/// least indentation.
proof fn lemma_least_indent_moves(lines: Seq<Seq<char>>, moved: Seq<Seq<char>>, by: int)
    requires
        lines.len() == moved.len(),
        forall|i: int|
            #![trigger lines[i]]
            #![trigger moved[i]]
            0 <= i < lines.len() ==> text::is_blank(lines[i]) == text::is_blank(moved[i]) && (
            !text::is_blank(lines[i]) ==> indent_len(moved[i]) == indent_len(lines[i]) + by),
    ensures
        least_indent(moved) == match least_indent(lines) {
            Some(n) => Some(n + by),
            None => None,
        },
    decreases lines.len(),
{
    if lines.len() > 0 {
        let l = lines.drop_last();
        let m = moved.drop_last();
        assert forall|i: int|
            #![trigger l[i]]
            #![trigger m[i]]
            0 <= i < l.len() implies text::is_blank(l[i]) == text::is_blank(m[i]) && (
        !text::is_blank(l[i]) ==> indent_len(m[i]) == indent_len(l[i]) + by) by {
            assert(l[i] == lines[i]);
            assert(m[i] == moved[i]);
        }
        lemma_least_indent_moves(l, m, by);
        assert(lines.last() == lines[lines.len() - 1]);
        assert(moved.last() == moved[lines.len() - 1]);
    }
}

/// Taking white space off the start of a line that is not blank, but no more
/// than it has, moves its indentation.
proof fn lemma_line_loses(line: Seq<char>, n: int)
    requires
        !text::is_blank(line),
        0 <= n <= indent_len(line),
    ensures
        !text::is_blank(line.skip(n)),
        indent_len(line.skip(n)) == indent_len(line) - n,
{
    text::lemma_skip_white(line, 0);
    let rest = line.skip(n);
    let k = indent_len(line);
    assert(k < line.len());
    assert(rest[k - n] == line[k]);
    assert forall|i: int| 0 <= i < k - n implies text::is_white(#[trigger] rest[i]) by {
        assert(rest[i] == line[i + n]);
    }
    lemma_indent_is(rest, k - n);
}

/// Removing the shared indentation a second time changes nothing.
pub proof fn shared_indentation_is_removed_once(value: Seq<char>)
    ensures
        dedented(dedented(value)) == dedented(value),
{
    let lines = text::split_at(value, '\n');
    text::lemma_split_joins(value, '\n', 0);
    text::lemma_pieces_are_free(value, '\n', 0);
    lemma_least_indent(lines);
    if let Some(n) = least_indent(lines) {
        let fewer = Seq::new(lines.len(), |i: int| dedented_line(lines[i], n));
        assert forall|i: int| 0 <= i < fewer.len() implies !(#[trigger] fewer[i]).contains('\n') by {
            if fewer[i].contains('\n') {
                let k = choose|k: int| 0 <= k < fewer[i].len() && fewer[i][k] == '\n';
                if !text::is_blank(lines[i]) {
                    assert(lines[i][k + n] == '\n');
                }
                assert(lines[i].contains('\n'));
            }
        }
        text::lemma_joined_splits(Seq::empty(), fewer, '\n');
        let out = dedented(value);
        assert(out == text::joined(fewer, seq!['\n']));
        assert(Seq::<char>::empty() + out =~= out);
        assert(text::split_at(out, '\n') == fewer);
        assert forall|i: int|
            #![trigger lines[i]]
            #![trigger fewer[i]]
            0 <= i < lines.len() implies text::is_blank(lines[i]) == text::is_blank(fewer[i]) && (
        !text::is_blank(lines[i]) ==> indent_len(fewer[i]) == indent_len(lines[i]) + (-n)) by {
            if !text::is_blank(lines[i]) {
                lemma_line_loses(lines[i], n);
            }
        }
        lemma_least_indent_moves(lines, fewer, -n);
        assert(Seq::new(fewer.len(), |i: int| dedented_line(fewer[i], 0)) =~= fewer) by {
            assert forall|i: int| 0 <= i < fewer.len() implies #[trigger] dedented_line(fewer[i], 0)
                == fewer[i] by {
                assert(fewer[i].skip(0) =~= fewer[i]);
            }
        }
    }
}

/// Indentation that all lines share does not matter: putting the same white
/// space before every line that is not blank leaves what remains without it.
pub proof fn shared_indentation_does_not_matter(value: Seq<char>, indent: Seq<char>)
    requires
        text::is_blank(indent),
        !indent.contains('\n'),
    ensures
        dedented(indented(value, indent)) == dedented(value),
{
    let lines = text::split_at(value, '\n');
    text::lemma_split_joins(value, '\n', 0);
    text::lemma_pieces_are_free(value, '\n', 0);
    lemma_least_indent(lines);
    let by = indent.len() as int;
    let more = Seq::new(
        lines.len(),
        |i: int|
            if text::is_blank(lines[i]) {
                lines[i]
            } else {
                indent + lines[i]
            },
    );
    assert forall|i: int| 0 <= i < more.len() implies !(#[trigger] more[i]).contains('\n') by {
        if more[i].contains('\n') {
            let k = choose|k: int| 0 <= k < more[i].len() && more[i][k] == '\n';
            if text::is_blank(lines[i]) {
                assert(lines[i].contains('\n'));
            } else if k < by {
                assert(indent[k] == '\n');
            } else {
                assert(lines[i][k - by] == '\n');
            }
        }
    }
    text::lemma_joined_splits(Seq::empty(), more, '\n');
    let out = indented(value, indent);
    assert(out == text::joined(more, seq!['\n']));
    assert(Seq::<char>::empty() + out =~= out);
    assert(text::split_at(out, '\n') == more);
    assert forall|i: int|
        #![trigger lines[i]]
        #![trigger more[i]]
        0 <= i < lines.len() implies text::is_blank(lines[i]) == text::is_blank(more[i]) && (
    !text::is_blank(lines[i]) ==> indent_len(more[i]) == indent_len(lines[i]) + by) by {
        if !text::is_blank(lines[i]) {
            let line = lines[i];
            text::lemma_skip_white(line, 0);
            let k = indent_len(line);
            assert(k < line.len());
            assert(more[i][by + k] == line[k]);
            assert forall|j: int| 0 <= j < by + k implies text::is_white(#[trigger] more[i][j]) by {
                if j < by {
                    assert(more[i][j] == indent[j]);
                } else {
                    assert(more[i][j] == line[j - by]);
                }
            }
            lemma_indent_is(more[i], by + k);
        }
    }
    lemma_least_indent_moves(lines, more, by);
    match least_indent(lines) {
        Some(n) => {
            let fewer = Seq::new(lines.len(), |i: int| dedented_line(lines[i], n));
            assert(Seq::new(more.len(), |i: int| dedented_line(more[i], n + by)) =~= fewer) by {
                assert forall|i: int| 0 <= i < lines.len() implies #[trigger] dedented_line(
                    more[i],
                    n + by,
                ) == dedented_line(lines[i], n) by {
                    if !text::is_blank(lines[i]) {
                        assert(more[i].skip(n + by) =~= lines[i].skip(n));
                    }
                }
            }
        },
        None => {
            assert(more =~= lines);
            assert(value.skip(0) =~= value);
        },
    }
}

/// The length of the longest common prefix of two texts, beyond `from`.
pub open spec fn common_len(a: Seq<char>, b: Seq<char>, from: int) -> int
    decreases a.len() - from,
{
    if 0 <= from < a.len() && from < b.len() && a[from] == b[from] {
        common_len(a, b, from + 1)
    } else {
        from
    }
}

/// The longest common prefix of two texts.
pub open spec fn common_prefix(a: Seq<char>, b: Seq<char>) -> Seq<char> {
    a.take(common_len(a, b, 0))
}

/// The indentation that begins every line that is not blank, if there is such
/// a line.
pub open spec fn common_indent(lines: Seq<Seq<char>>) -> Option<Seq<char>>
    decreases lines.len(),
{
    if lines.len() == 0 {
        None
    } else {
        let earlier = common_indent(lines.drop_last());
        let line = lines.last();
        if text::is_blank(line) {
            earlier
        } else {
            match earlier {
                Some(prefix) => Some(common_prefix(prefix, indent_of(line))),
                None => Some(indent_of(line)),
            }
        }
    }
}

/// The indentation that all lines of a text share, blank lines aside.
pub open spec fn shared_indent(value: Seq<char>) -> Seq<char> {
    match common_indent(text::bare_lines(value)) {
        Some(prefix) => prefix,
        None => Seq::empty(),
    }
}

fn leading_whitespace(line: &[char]) -> (prefix: &[char])
    ensures
        prefix@ == indent_of(line@),
{
    let n: usize = text::skip_white_from(line, 0);
    slice_subrange(line, 0, n)
}

fn shared_prefix(left: &[char], right: &[char]) -> (prefix: Vec<char>)
    ensures
        prefix@ == common_prefix(left@, right@),
{
    let mut i: usize = 0;
    while i < left.len() && i < right.len() && left[i] == right[i]
        invariant
            i <= left@.len(),
            common_len(left@, right@, i as int) == common_len(left@, right@, 0),
        decreases left@.len() - i,
    {
        i += 1;
    }
    text::copy_range(left, 0, i)
}

/// The indentation that all lines of a text share, blank lines aside.
pub fn shared_indentation_prefix(value: &[char]) -> (prefix: Vec<char>)
    ensures
        prefix@ == shared_indent(value@),
{
    let lines = text::split_bare_lines(value);
    let ghost views = text::rows(lines@);
    let mut prefix: Option<Vec<char>> = None;
    let mut i: usize = 0;
    while i < lines.len()
        invariant
            i <= lines@.len(),
            views == text::rows(lines@),
            match prefix {
                Some(p) => common_indent(views.take(i as int)) == Some(p@),
                None => common_indent(views.take(i as int)) is None,
            },
        decreases lines@.len() - i,
    {
        proof {
            assert(views.take(i + 1).drop_last() =~= views.take(i as int));
            assert(views.take(i + 1).last() == lines@[i as int]@);
        }
        if !text::blank(&lines[i]) {
            let indent = leading_whitespace(&lines[i]);
            prefix = match prefix {
                Some(p) => Some(shared_prefix(&p, indent)),
                None => Some(text::copy_range(indent, 0, indent.len())),
            };
        }
        i += 1;
    }
    proof {
        assert(views.take(lines@.len() as int) =~= views);
    }
    match prefix {
        Some(p) => p,
        None => Vec::new(),
    }
}

/// A line moved to the right by so many characters, or to the left as far as
/// it is indented.
pub open spec fn shifted_line(line: Seq<char>, delta: int) -> Seq<char> {
    if text::is_blank(line) {
        line
    } else if delta >= 0 {
        Seq::new(delta as nat, |i: int| ' ') + line
    } else if -delta <= indent_len(line) {
        line.skip(-delta)
    } else {
        line.skip(indent_len(line))
    }
}

/// A line whose indentation is changed from one prefix to another.
pub open spec fn reindented_line(
    line: Seq<char>,
    old_prefix: Seq<char>,
    new_prefix: Seq<char>,
) -> Seq<char> {
    if text::is_blank(line) {
        line
    } else if text::begins(line, old_prefix) {
        new_prefix + line.skip(old_prefix.len() as int)
    } else {
        shifted_line(line, new_prefix.len() - old_prefix.len())
    }
}

/// The lines of a replacement, without the piece behind a last newline.
pub open spec fn replacement_lines(new_text: Seq<char>) -> Seq<Seq<char>> {
    let pieces = text::split_at(new_text, '\n');
    if ends_with_newline(new_text) {
        pieces.drop_last()
    } else {
        pieces
    }
}

/// Whether a text ends with a newline.
pub open spec fn ends_with_newline(s: Seq<char>) -> bool {
    s.len() > 0 && s.last() == '\n'
}

/// The replacement for a passage that was found leniently: where the passage
/// is indented otherwise than the text that was asked for, so is the
/// replacement.
pub open spec fn reindented(
    matched: Seq<char>,
    old_text: Seq<char>,
    new_text: Seq<char>,
) -> Seq<char> {
    let old_prefix = shared_indent(old_text);
    let new_prefix = shared_indent(matched);
    if old_prefix == new_prefix {
        new_text
    } else {
        let lines = replacement_lines(new_text);
        let adjusted = text::joined(
            Seq::new(lines.len(), |i: int| reindented_line(lines[i], old_prefix, new_prefix)),
            seq!['\n'],
        );
        if ends_with_newline(new_text) {
            adjusted.push('\n')
        } else {
            adjusted
        }
    }
}

fn shift_between(line: &[char], old_len: usize, new_len: usize) -> (out: Vec<char>)
    ensures
        out@ == shifted_line(line@, new_len - old_len),
{
    if text::blank(line) {
        return text::copy_range(line, 0, line.len());
    }
    if new_len >= old_len {
        let extra: usize = new_len - old_len;
        let mut out: Vec<char> = Vec::new();
        let mut i: usize = 0;
        while i < extra
            invariant
                i <= extra,
                out@ == Seq::new(i as nat, |k: int| ' '),
            decreases extra - i,
        {
            out.push(' ');
            i += 1;
            proof {
                assert(out@ =~= Seq::new(i as nat, |k: int| ' '));
            }
        }
        text::push_all(&mut out, line);
        return out;
    }
    let less: usize = old_len - new_len;
    let indent: usize = text::skip_white_from(line, 0);
    if less <= indent {
        text::copy_range(line, less, line.len())
    } else {
        text::copy_range(line, indent, line.len())
    }
}

/// Moves a line to the right by so many characters, or to the left as far as
/// it is indented.
pub fn shift_line_indentation(line: &[char], delta: isize) -> (out: Vec<char>)
    requires
        delta > isize::MIN,
    ensures
        out@ == shifted_line(line@, delta as int),
{
    if delta >= 0 {
        shift_between(line, 0, delta as usize)
    } else {
        shift_between(line, (-delta) as usize, 0)
    }
}

proof fn lemma_indent_is(line: Seq<char>, n: int)
    requires
        0 <= n <= line.len(),
        forall|i: int| 0 <= i < n ==> text::is_white(#[trigger] line[i]),
        n < line.len() ==> !text::is_white(line[n]),
    ensures
        indent_len(line) == n,
{
    text::lemma_skip_white(line, 0);
}

/// Moving a line to the right and back to the left by as much gives the line
/// again.
pub proof fn lines_shifted_there_and_back_are_the_same(line: Seq<char>, by: nat)
    ensures
        shifted_line(shifted_line(line, by as int), -by) == line,
{
    if !text::is_blank(line) {
        let moved = shifted_line(line, by as int);
        let k = choose|k: int| 0 <= k < line.len() && !text::is_white(#[trigger] line[k]);
        assert(moved[by + k] == line[k]);
        text::lemma_skip_white(line, 0);
        assert forall|i: int| 0 <= i < by + indent_len(line) implies text::is_white(
            #[trigger] moved[i],
        ) by {
            if i >= by {
                assert(moved[i] == line[i - by]);
            }
        }
        lemma_indent_is(moved, by + indent_len(line));
        assert(moved.skip(by as int) =~= line);
    }
}

/// Moving a line adds and removes nothing but white space at its start.
pub proof fn shifting_changes_only_leading_white_space(line: Seq<char>, delta: int)
    ensures
        text::trimmed_start(shifted_line(line, delta)) == text::trimmed_start(line),
{
    let moved = shifted_line(line, delta);
    text::lemma_skip_white(line, 0);
    if !text::is_blank(line) {
        let kept = moved.len() - (line.len() - indent_len(line));
        assert forall|i: int| 0 <= i < kept implies text::is_white(#[trigger] moved[i]) by {
            if delta >= 0 {
                if i >= delta {
                    assert(moved[i] == line[i - delta]);
                }
            } else {
                assert(moved[i] == line[i + indent_len(line) - kept]);
            }
        }
        lemma_indent_is(moved, kept);
        assert(text::trimmed_start(moved) =~= text::trimmed_start(line));
    }
}

fn preserve_line_indentation(line: &[char], old_prefix: &[char], matched_prefix: &[char]) -> (out:
    Vec<char>)
    ensures
        out@ == reindented_line(line@, old_prefix@, matched_prefix@),
{
    if text::blank(line) {
        return text::copy_range(line, 0, line.len());
    }
    if text::starts_with(line, old_prefix) {
        let mut out = text::copy_range(matched_prefix, 0, matched_prefix.len());
        text::push_all(&mut out, slice_subrange(line, old_prefix.len(), line.len()));
        return out;
    }
    shift_between(line, old_prefix.len(), matched_prefix.len())
}

/// Gives a replacement the indentation of the passage that it replaces.
pub fn preserve_fuzzy_match_indentation(
    matched_text: &[char],
    old_text: &[char],
    new_text: &[char],
) -> (out: Vec<char>)
    ensures
        out@ == reindented(matched_text@, old_text@, new_text@),
{
    let old_prefix = shared_indentation_prefix(old_text);
    let matched_prefix = shared_indentation_prefix(matched_text);
    if text::same_chars(&old_prefix, &matched_prefix) {
        return text::copy_range(new_text, 0, new_text.len());
    }
    let newline_last: bool = new_text.len() > 0 && new_text[new_text.len() - 1] == '\n';
    let mut lines = text::split_on(new_text, '\n');
    if newline_last {
        let _ = lines.pop();
    }
    let ghost views = replacement_lines(new_text@);
    proof {
        assert(text::rows(lines@) =~= views);
    }
    let ghost wanted = Seq::new(
        views.len(),
        |i: int| reindented_line(views[i], old_prefix@, matched_prefix@),
    );
    let mut adjusted: Vec<Vec<char>> = Vec::new();
    let mut i: usize = 0;
    while i < lines.len()
        invariant
            i <= lines@.len(),
            text::rows(lines@) == views,
            wanted == Seq::new(
                views.len(),
                |i: int| reindented_line(views[i], old_prefix@, matched_prefix@),
            ),
            text::rows(adjusted@) == wanted.take(i as int),
        decreases lines@.len() - i,
    {
        let ghost before = text::rows(adjusted@);
        adjusted.push(preserve_line_indentation(&lines[i], &old_prefix, &matched_prefix));
        proof {
            assert(views[i as int] == lines@[i as int]@);
            assert(text::rows(adjusted@) =~= before.push(wanted[i as int]));
            assert(text::rows(adjusted@) =~= wanted.take(i + 1));
        }
        i += 1;
    }
    proof {
        assert(wanted.take(lines@.len() as int) =~= wanted);
    }
    let mut newline: Vec<char> = Vec::new();
    newline.push('\n');
    proof {
        assert(newline@ =~= seq!['\n']);
    }
    let mut out = text::join_rows(&adjusted, &newline);
    if newline_last {
        out.push('\n');
    }
    out
}

// ---------------------------------------------------------------------------
// Looking for a passage.

/// The text with its words set apart by single spaces.
pub open spec fn normalized(s: Seq<char>) -> Seq<char> {
    text::joined(text::words_of(s), seq![' '])
}

/// Sets the words of a text apart by single spaces.
pub fn normalize_whitespace(value: &[char]) -> (out: Vec<char>)
    ensures
        out@ == normalized(value@),
{
    let words = text::split_words(value);
    let mut space: Vec<char> = Vec::new();
    space.push(' ');
    proof {
        assert(space@ =~= seq![' ']);
    }
    text::join_rows(&words, &space)
}

/// The text of line `i` of the content.
pub open spec fn line_at(content: Seq<char>, i: int) -> Seq<char> {
    let span = text::line_spans(content, 0)[i];
    content.subrange(span.0, span.1)
}

/// The text of `n` neighbouring lines of the content, from line `w` on.
pub open spec fn block_at(content: Seq<char>, w: int, n: int) -> Seq<char> {
    let spans = text::line_spans(content, 0);
    content.subrange(spans[w].0, spans[w + n - 1].1)
}

/// The span of `n` neighbouring lines from line `w` on, with the newline
/// behind them where one is wanted and there.
pub open spec fn window_span(content: Seq<char>, w: int, n: int, newline: bool) -> (int, int) {
    let spans = text::line_spans(content, 0);
    let end = spans[w + n - 1].1;
    (
        spans[w].0,
        if newline && end < content.len() && content[end] == '\n' {
            end + 1
        } else {
            end
        },
    )
}

/// The text that is looked for, without a newline at its end.
pub open spec fn search_block(old_text: Seq<char>) -> Seq<char> {
    if ends_with_newline(old_text) {
        old_text.drop_last()
    } else {
        old_text
    }
}

/// The least number of lines for which a strategy looks at windows.
pub open spec fn least_window(strategy: MatchStrategy) -> int {
    match strategy {
        MatchStrategy::WhitespaceNormalized => 2,
        MatchStrategy::ContextAnchor => 3,
        _ => 1,
    }
}

/// Whether the window of lines from line `w` on is what a strategy looks for.
pub open spec fn window_matches(
    strategy: MatchStrategy,
    content: Seq<char>,
    old_text: Seq<char>,
    w: int,
) -> bool {
    let search = text::plain_lines(old_text);
    let n = search.len() as int;
    match strategy {
        MatchStrategy::Exact => false,
        MatchStrategy::LineTrimmed => forall|k: int|
            0 <= k < n ==> text::trimmed(#[trigger] line_at(content, w + k)) == text::trimmed(
                search[k],
            ),
        MatchStrategy::WhitespaceNormalized => normalized(block_at(content, w, n)) == normalized(
            old_text,
        ),
        MatchStrategy::IndentationFlexible => dedented(block_at(content, w, n)) == dedented(
            search_block(old_text),
        ),
        MatchStrategy::ContextAnchor => text::trimmed(line_at(content, w)) == text::trimmed(
            search[0],
        ) && text::trimmed(line_at(content, w + n - 1)) == text::trimmed(search[n - 1]),
    }
}

/// The first lines, from line `w` on, of the windows that a strategy looks
/// for.
pub open spec fn matching_windows(
    strategy: MatchStrategy,
    content: Seq<char>,
    old_text: Seq<char>,
    w: int,
) -> Seq<int>
    decreases text::line_spans(content, 0).len() - w,
{
    let n = text::plain_lines(old_text).len() as int;
    if n < least_window(strategy) || w < 0 || w + n > text::line_spans(content, 0).len() {
        seq![]
    } else {
        (if window_matches(strategy, content, old_text, w) {
            seq![w]
        } else {
            seq![]
        }) + matching_windows(strategy, content, old_text, w + 1)
    }
}

/// The spans of the windows that a strategy looks for.
pub open spec fn window_spans(
    strategy: MatchStrategy,
    content: Seq<char>,
    old_text: Seq<char>,
) -> Seq<(int, int)> {
    let starts = matching_windows(strategy, content, old_text, 0);
    let n = text::plain_lines(old_text).len() as int;
    Seq::new(
        starts.len(),
        |i: int| window_span(content, starts[i], n, ends_with_newline(old_text)),
    )
}

/// The spans of the exact occurrences of a text. An empty text occurs between
/// any two characters and at both ends.
pub open spec fn exact_spans(content: Seq<char>, old_text: Seq<char>) -> Seq<(int, int)> {
    if old_text.len() == 0 {
        Seq::new(content.len() + 1, |i: int| (i, i))
    } else {
        let starts = text::match_starts(content, old_text, 0);
        Seq::new(starts.len(), |i: int| (starts[i], starts[i] + old_text.len()))
    }
}

/// The spans, from line `w` on, of what equals the text up to white space: a
/// single line, or as many lines as the text has.
pub open spec fn normalized_spans(content: Seq<char>, old_text: Seq<char>, w: int) -> Seq<
    (int, int),
>
    decreases text::line_spans(content, 0).len() - w,
{
    let spans = text::line_spans(content, 0);
    let n = text::plain_lines(old_text).len() as int;
    if normalized(old_text).len() == 0 || w < 0 || w >= spans.len() {
        seq![]
    } else {
        (if normalized(line_at(content, w)) == normalized(old_text) {
            seq![spans[w]]
        } else {
            seq![]
        }) + (if n > 1 && w + n <= spans.len() && window_matches(
            MatchStrategy::WhitespaceNormalized,
            content,
            old_text,
            w,
        ) {
            seq![window_span(content, w, n, ends_with_newline(old_text))]
        } else {
            seq![]
        }) + normalized_spans(content, old_text, w + 1)
    }
}

/// The window that was chosen among those whose first and last lines match.
pub open spec fn anchored_spans(
    content: Seq<char>,
    old_text: Seq<char>,
    choice: Option<int>,
) -> Seq<(int, int)> {
    let windows = window_spans(MatchStrategy::ContextAnchor, content, old_text);
    match choice {
        Some(k) => if 0 <= k < windows.len() {
            seq![windows[k]]
        } else {
            seq![]
        },
        None => seq![],
    }
}

/// The passages that the first strategy with any result finds.
pub open spec fn candidates(
    content: Seq<char>,
    old_text: Seq<char>,
    choice: Option<int>,
) -> CandidatesView {
    let exact = exact_spans(content, old_text);
    let trimmed = window_spans(MatchStrategy::LineTrimmed, content, old_text);
    let spaced = normalized_spans(content, old_text, 0);
    let indented = window_spans(MatchStrategy::IndentationFlexible, content, old_text);
    if exact.len() > 0 {
        CandidatesView { strategy: MatchStrategy::Exact, spans: exact }
    } else if trimmed.len() > 0 {
        CandidatesView { strategy: MatchStrategy::LineTrimmed, spans: trimmed }
    } else if spaced.len() > 0 {
        CandidatesView { strategy: MatchStrategy::WhitespaceNormalized, spans: spaced }
    } else if indented.len() > 0 {
        CandidatesView { strategy: MatchStrategy::IndentationFlexible, spans: indented }
    } else {
        CandidatesView {
            strategy: MatchStrategy::ContextAnchor,
            spans: anchored_spans(content, old_text, choice),
        }
    }
}

/// The optional index as an integer.
pub open spec fn opt_int(i: Option<usize>) -> Option<int> {
    match i {
        Some(n) => Some(n as int),
        None => None,
    }
}

/// Content and search text, split into lines.
struct Search<'a> {
    content: &'a [char],
    old_text: &'a [char],
    spans: Vec<(usize, usize)>,
    lines: Vec<Vec<char>>,
    newline: bool,
}

impl<'a> Search<'a> {
    spec fn wf(&self) -> bool {
        &&& text::span_ints(self.spans@) == text::line_spans(self.content@, 0)
        &&& text::rows(self.lines@) == text::plain_lines(self.old_text@)
        &&& self.newline == ends_with_newline(self.old_text@)
    }

    fn new(content: &'a [char], old_text: &'a [char]) -> (s: Self)
        ensures
            s.wf(),
            s.content == content,
            s.old_text == old_text,
    {
        let spans = text::line_ranges(content);
        let lines = text::split_plain_lines(old_text);
        let newline: bool = old_text.len() > 0 && old_text[old_text.len() - 1] == '\n';
        Search { content, old_text, spans, lines, newline }
    }

    fn line(&self, i: usize) -> (line: &[char])
        requires
            self.wf(),
            i < self.spans@.len(),
        ensures
            line@ == line_at(self.content@, i as int),
    {
        proof {
            text::lemma_line_spans(self.content@, 0);
            assert(text::span_ints(self.spans@)[i as int] == text::line_spans(self.content@, 0)[i as int]);
        }
        let (start, end): (usize, usize) = self.spans[i];
        slice_subrange(self.content, start, end)
    }

    fn block(&self, w: usize) -> (block: &[char])
        requires
            self.wf(),
            0 < self.lines@.len(),
            w + self.lines@.len() <= self.spans@.len(),
        ensures
            block@ == block_at(self.content@, w as int, self.lines@.len() as int),
    {
        let count: usize = self.spans.len();
        let last: usize = w + (self.lines.len() - 1);
        proof {
            text::lemma_line_spans(self.content@, 0);
            assert(text::span_ints(self.spans@)[w as int] == text::line_spans(self.content@, 0)[w as int]);
            assert(text::span_ints(self.spans@)[last as int] == text::line_spans(self.content@, 0)[last as int]);
        }
        slice_subrange(self.content, self.spans[w].0, self.spans[last].1)
    }

    fn window_range(&self, w: usize) -> (span: (usize, usize))
        requires
            self.wf(),
            0 < self.lines@.len(),
            w + self.lines@.len() <= self.spans@.len(),
        ensures
            (span.0 as int, span.1 as int) == window_span(
                self.content@,
                w as int,
                self.lines@.len() as int,
                ends_with_newline(self.old_text@),
            ),
    {
        let count: usize = self.spans.len();
        let last: usize = w + (self.lines.len() - 1);
        proof {
            text::lemma_line_spans(self.content@, 0);
            assert(text::span_ints(self.spans@)[w as int] == text::line_spans(self.content@, 0)[w as int]);
            assert(text::span_ints(self.spans@)[last as int] == text::line_spans(self.content@, 0)[last as int]);
        }
        let start: usize = self.spans[w].0;
        let end: usize = self.spans[last].1;
        if self.newline && end < self.content.len() && self.content[end] == '\n' {
            (start, end + 1)
        } else {
            (start, end)
        }
    }

    fn same_trimmed(&self, i: usize, k: usize) -> (same: bool)
        requires
            self.wf(),
            i < self.spans@.len(),
            k < self.lines@.len(),
        ensures
            same == (text::trimmed(line_at(self.content@, i as int)) == text::trimmed(
                text::plain_lines(self.old_text@)[k as int],
            )),
    {
        proof {
            assert(text::rows(self.lines@)[k as int] == self.lines@[k as int]@);
        }
        text::same_chars(text::trim(self.line(i)), text::trim(&self.lines[k]))
    }

    fn fits(&self, strategy: MatchStrategy, w: usize) -> (fits: bool)
        requires
            self.wf(),
            0 < self.lines@.len(),
            w + self.lines@.len() <= self.spans@.len(),
        ensures
            fits == window_matches(strategy, self.content@, self.old_text@, w as int),
    {
        let n: usize = self.lines.len();
        let count: usize = self.spans.len();
        proof {
            assert(n == text::plain_lines(self.old_text@).len()) by {
                assert(text::rows(self.lines@).len() == n);
            }
        }
        match strategy {
            MatchStrategy::Exact => false,
            MatchStrategy::LineTrimmed => {
                let mut k: usize = 0;
                while k < n
                    invariant
                        k <= n,
                        self.wf(),
                        n == self.lines@.len(),
                        n == text::plain_lines(self.old_text@).len(),
                        w + n <= self.spans@.len(),
                        count == self.spans@.len(),
                        strategy == MatchStrategy::LineTrimmed,
                        forall|q: int|
                            0 <= q < k ==> text::trimmed(#[trigger] line_at(self.content@, w + q))
                                == text::trimmed(text::plain_lines(self.old_text@)[q]),
                    decreases n - k,
                {
                    if !self.same_trimmed(w + k, k) {
                        proof {
                            assert(text::trimmed(line_at(self.content@, w + k)) != text::trimmed(
                                text::plain_lines(self.old_text@)[k as int],
                            ));
                        }
                        return false;
                    }
                    k += 1;
                }
                true
            },
            MatchStrategy::WhitespaceNormalized => {
                let found = normalize_whitespace(self.block(w));
                let wanted = normalize_whitespace(self.old_text);
                text::same_chars(&found, &wanted)
            },
            MatchStrategy::IndentationFlexible => {
                let found = remove_shared_indentation(self.block(w));
                let end: usize = if self.newline {
                    self.old_text.len() - 1
                } else {
                    self.old_text.len()
                };
                let block = slice_subrange(self.old_text, 0, end);
                proof {
                    assert(block@ =~= search_block(self.old_text@));
                }
                let wanted = remove_shared_indentation(block);
                text::same_chars(&found, &wanted)
            },
            MatchStrategy::ContextAnchor => self.same_trimmed(w, 0) && self.same_trimmed(
                w + (n - 1),
                n - 1,
            ),
        }
    }

    fn window_starts(&self, strategy: MatchStrategy) -> (starts: Vec<usize>)
        requires
            self.wf(),
        ensures
            starts@.map_values(|i: usize| i as int) == matching_windows(
                strategy,
                self.content@,
                self.old_text@,
                0,
            ),
            forall|i: int|
                0 <= i < starts@.len() ==> 0 < self.lines@.len() && #[trigger] starts@[i]
                    + self.lines@.len() <= self.spans@.len(),
    {
        let mut starts: Vec<usize> = Vec::new();
        let n: usize = self.lines.len();
        let least: usize = match strategy {
            MatchStrategy::WhitespaceNormalized => 2,
            MatchStrategy::ContextAnchor => 3,
            _ => 1,
        };
        let ghost all = matching_windows(strategy, self.content@, self.old_text@, 0);
        proof {
            assert(text::rows(self.lines@).len() == n);
            assert(text::span_ints(self.spans@).len() == self.spans@.len());
            assert(starts@.map_values(|i: usize| i as int) =~= Seq::<int>::empty());
            assert(starts@.map_values(|i: usize| i as int) + all =~= all);
        }
        if n < least {
            return starts;
        }
        let mut w: usize = 0;
        while w <= self.spans.len() && n <= self.spans.len() - w
            invariant
                self.wf(),
                n == self.lines@.len(),
                n == text::plain_lines(self.old_text@).len(),
                self.spans@.len() == text::line_spans(self.content@, 0).len(),
                n >= least == least_window(strategy),
                least >= 1,
                w <= self.spans@.len(),
                all == matching_windows(strategy, self.content@, self.old_text@, 0),
                starts@.map_values(|i: usize| i as int) + matching_windows(
                    strategy,
                    self.content@,
                    self.old_text@,
                    w as int,
                ) == all,
                forall|i: int|
                    0 <= i < starts@.len() ==> 0 < self.lines@.len() && #[trigger] starts@[i]
                        + self.lines@.len() <= self.spans@.len(),
            decreases self.spans@.len() - w,
        {
            let ghost before = starts@.map_values(|i: usize| i as int);
            let ghost rest = matching_windows(strategy, self.content@, self.old_text@, w + 1);
            if self.fits(strategy, w) {
                starts.push(w);
                proof {
                    assert(starts@.map_values(|i: usize| i as int) =~= before.push(w as int));
                    assert(before.push(w as int) + rest =~= before + (seq![w as int] + rest));
                }
            } else {
                proof {
                    assert(before + rest =~= before + (Seq::<int>::empty() + rest));
                }
            }
            w += 1;
        }
        proof {
            assert(matching_windows(strategy, self.content@, self.old_text@, w as int)
                =~= Seq::<int>::empty());
            assert(starts@.map_values(|i: usize| i as int) + Seq::<int>::empty() =~= starts@.map_values(
                |i: usize| i as int,
            ));
        }
        starts
    }

    fn window_ranges(&self, strategy: MatchStrategy) -> (out: Vec<(usize, usize)>)
        requires
            self.wf(),
        ensures
            text::span_ints(out@) == window_spans(strategy, self.content@, self.old_text@),
    {
        let starts = self.window_starts(strategy);
        let ghost wanted = window_spans(strategy, self.content@, self.old_text@);
        let mut out: Vec<(usize, usize)> = Vec::new();
        let mut i: usize = 0;
        proof {
            assert(text::rows(self.lines@).len() == self.lines@.len());
            assert(starts@.map_values(|i: usize| i as int).len() == starts@.len());
        }
        while i < starts.len()
            invariant
                i <= starts@.len(),
                self.wf(),
                self.lines@.len() == text::plain_lines(self.old_text@).len(),
                starts@.map_values(|i: usize| i as int) == matching_windows(
                    strategy,
                    self.content@,
                    self.old_text@,
                    0,
                ),
                wanted == window_spans(strategy, self.content@, self.old_text@),
                wanted.len() == starts@.len(),
                forall|i: int|
                    0 <= i < starts@.len() ==> 0 < self.lines@.len() && #[trigger] starts@[i]
                        + self.lines@.len() <= self.spans@.len(),
                text::span_ints(out@) == wanted.take(i as int),
            decreases starts@.len() - i,
        {
            let ghost before = text::span_ints(out@);
            proof {
                assert(starts@.map_values(|i: usize| i as int)[i as int] == starts@[i as int]);
            }
            out.push(self.window_range(starts[i]));
            proof {
                assert(text::span_ints(out@) =~= before.push(wanted[i as int]));
                assert(text::span_ints(out@) =~= wanted.take(i + 1));
            }
            i += 1;
        }
        proof {
            assert(wanted.take(starts@.len() as int) =~= wanted);
        }
        out
    }

    fn normalized_ranges(&self) -> (out: Vec<(usize, usize)>)
        requires
            self.wf(),
        ensures
            text::span_ints(out@) == normalized_spans(self.content@, self.old_text@, 0),
    {
        let mut out: Vec<(usize, usize)> = Vec::new();
        let wanted = normalize_whitespace(self.old_text);
        let n: usize = self.lines.len();
        let ghost all = normalized_spans(self.content@, self.old_text@, 0);
        proof {
            assert(text::rows(self.lines@).len() == n);
            assert(text::span_ints(self.spans@).len() == self.spans@.len());
            assert(text::span_ints(out@) =~= Seq::<(int, int)>::empty());
            assert(text::span_ints(out@) + all =~= all);
        }
        if wanted.len() == 0 {
            return out;
        }
        let mut w: usize = 0;
        while w < self.spans.len()
            invariant
                self.wf(),
                w <= self.spans@.len(),
                n == self.lines@.len(),
                n == text::plain_lines(self.old_text@).len(),
                self.spans@.len() == text::line_spans(self.content@, 0).len(),
                wanted@ == normalized(self.old_text@),
                wanted@.len() > 0,
                all == normalized_spans(self.content@, self.old_text@, 0),
                text::span_ints(out@) + normalized_spans(self.content@, self.old_text@, w as int)
                    == all,
            decreases self.spans@.len() - w,
        {
            let ghost before = text::span_ints(out@);
            let ghost rest = normalized_spans(self.content@, self.old_text@, w + 1);
            let line = normalize_whitespace(self.line(w));
            proof {
                assert(text::span_ints(self.spans@)[w as int] == text::line_spans(self.content@, 0)[w as int]);
            }
            if text::same_chars(&line, &wanted) {
                out.push(self.spans[w]);
                proof {
                    assert(text::span_ints(out@) =~= before.push(text::line_spans(
                        self.content@,
                        0,
                    )[w as int]));
                }
            }
            let ghost middle = text::span_ints(out@);
            if n > 1 && n <= self.spans.len() - w && self.fits(
                MatchStrategy::WhitespaceNormalized,
                w,
            ) {
                out.push(self.window_range(w));
                proof {
                    assert(text::span_ints(out@) =~= middle.push(
                        window_span(
                            self.content@,
                            w as int,
                            n as int,
                            ends_with_newline(self.old_text@),
                        ),
                    ));
                }
            }
            proof {
                assert(text::span_ints(out@) + rest =~= before + normalized_spans(
                    self.content@,
                    self.old_text@,
                    w as int,
                ));
            }
            w += 1;
        }
        proof {
            assert(normalized_spans(self.content@, self.old_text@, w as int) =~= Seq::<
                (int, int),
            >::empty());
            assert(text::span_ints(out@) + Seq::<(int, int)>::empty() =~= text::span_ints(out@));
        }
        out
    }
}

/// The spans of the occurrences of an empty text.
fn empty_ranges(content: &[char]) -> (out: Vec<(usize, usize)>)
    ensures
        text::span_ints(out@) == Seq::new(content@.len() + 1, |i: int| (i, i)),
{
    let ghost wanted = Seq::new(content@.len() + 1, |i: int| (i, i));
    let mut out: Vec<(usize, usize)> = Vec::new();
    let mut i: usize = 0;
    proof {
        assert(text::span_ints(out@) =~= wanted.take(0));
    }
    while i < content.len()
        invariant
            i <= content@.len(),
            wanted == Seq::new(content@.len() + 1, |i: int| (i, i)),
            text::span_ints(out@) == wanted.take(i as int),
        decreases content@.len() - i,
    {
        let ghost before = text::span_ints(out@);
        out.push((i, i));
        proof {
            assert(text::span_ints(out@) =~= before.push(wanted[i as int]));
            assert(text::span_ints(out@) =~= wanted.take(i + 1));
        }
        i += 1;
    }
    let ghost before = text::span_ints(out@);
    out.push((i, i));
    proof {
        assert(text::span_ints(out@) =~= before.push(wanted[i as int]));
        assert(text::span_ints(out@) =~= wanted);
    }
    out
}

/// The spans of the exact occurrences of a text.
pub fn exact_match_ranges(content: &[char], old_text: &[char]) -> (out: Vec<(usize, usize)>)
    ensures
        text::span_ints(out@) == exact_spans(content@, old_text@),
{
    if old_text.len() == 0 {
        return empty_ranges(content);
    }
    let starts = text::match_positions(content, old_text);
    let size: usize = content.len();
    let ghost wanted = exact_spans(content@, old_text@);
    let mut out: Vec<(usize, usize)> = Vec::new();
    let mut i: usize = 0;
    proof {
        assert(starts@.map_values(|i: usize| i as int).len() == starts@.len());
    }
    while i < starts.len()
        invariant
            i <= starts@.len(),
            size == content@.len(),
            starts@.map_values(|i: usize| i as int) == text::match_starts(content@, old_text@, 0),
            old_text@.len() > 0,
            wanted == exact_spans(content@, old_text@),
            wanted.len() == starts@.len(),
            forall|k: int|
                0 <= k < starts@.len() ==> #[trigger] starts@[k] + old_text@.len() <= content@.len(),
            text::span_ints(out@) == wanted.take(i as int),
        decreases starts@.len() - i,
    {
        let ghost before = text::span_ints(out@);
        proof {
            assert(starts@.map_values(|i: usize| i as int)[i as int] == starts@[i as int]);
        }
        out.push((starts[i], starts[i] + old_text.len()));
        proof {
            assert(text::span_ints(out@) =~= before.push(wanted[i as int]));
            assert(text::span_ints(out@) =~= wanted.take(i + 1));
        }
        i += 1;
    }
    proof {
        assert(wanted.take(starts@.len() as int) =~= wanted);
    }
    out
}

/// The passages that stand for a text, by the first strategy that finds any.
/// The last strategy takes the window numbered `choice` among those of
/// [`context_anchor_windows`].
pub fn find_candidate_ranges(content: &[char], old_text: &[char], choice: Option<usize>) -> (found:
    Candidates)
    ensures
        found@ == candidates(content@, old_text@, opt_int(choice)),
{
    let exact = exact_match_ranges(content, old_text);
    proof {
        assert(text::span_ints(exact@).len() == exact@.len());
    }
    if exact.len() > 0 {
        return Candidates { strategy: MatchStrategy::Exact, spans: exact };
    }
    let search = Search::new(content, old_text);
    let trimmed = search.window_ranges(MatchStrategy::LineTrimmed);
    proof {
        assert(text::span_ints(trimmed@).len() == trimmed@.len());
    }
    if trimmed.len() > 0 {
        return Candidates { strategy: MatchStrategy::LineTrimmed, spans: trimmed };
    }
    let spaced = search.normalized_ranges();
    proof {
        assert(text::span_ints(spaced@).len() == spaced@.len());
    }
    if spaced.len() > 0 {
        return Candidates { strategy: MatchStrategy::WhitespaceNormalized, spans: spaced };
    }
    let indented = search.window_ranges(MatchStrategy::IndentationFlexible);
    proof {
        assert(text::span_ints(indented@).len() == indented@.len());
    }
    if indented.len() > 0 {
        return Candidates { strategy: MatchStrategy::IndentationFlexible, spans: indented };
    }
    let windows = search.window_ranges(MatchStrategy::ContextAnchor);
    let mut spans: Vec<(usize, usize)> = Vec::new();
    proof {
        assert(text::span_ints(windows@).len() == windows@.len());
        assert(text::span_ints(spans@) =~= Seq::<(int, int)>::empty());
    }
    if let Some(k) = choice {
        if k < windows.len() {
            spans.push(windows[k]);
            proof {
                assert(text::span_ints(spans@) =~= seq![text::span_ints(windows@)[k as int]]);
            }
        }
    }
    Candidates { strategy: MatchStrategy::ContextAnchor, spans }
}

// ---------------------------------------------------------------------------
// Windows between matching first and last lines.

/// How far a line of a window is from the line that was asked for.
#[derive(Clone, Copy, Debug, PartialEq, Eq, Structural)]
pub struct LineScore {
    /// The edit distance of the two lines, without white space at their ends.
    pub distance: usize,
    /// The number of bytes of the longer of the two.
    pub longest: usize,
}

/// The scores of the lines between the first and the last line of a window.
pub struct AnchorWindow {
    pub scores: Vec<LineScore>,
}

/// The score of two lines.
pub open spec fn line_score(found: Seq<char>, wanted: Seq<char>) -> (nat, nat) {
    let a = text::trimmed(found);
    let b = text::trimmed(wanted);
    (
        reported_distance(a, b),
        if text::utf8_len(a) >= text::utf8_len(b) {
            text::utf8_len(a)
        } else {
            text::utf8_len(b)
        },
    )
}

/// The scores of the inner lines of the window from line `w` on.
pub open spec fn window_scores(content: Seq<char>, old_text: Seq<char>, w: int) -> Seq<(nat, nat)> {
    let search = text::plain_lines(old_text);
    Seq::new(
        (search.len() - 2) as nat,
        |k: int| line_score(line_at(content, w + k + 1), search[k + 1]),
    )
}

/// The numbers of a list of scores.
pub open spec fn score_numbers(scores: Seq<LineScore>) -> Seq<(nat, nat)> {
    Seq::new(scores.len(), |i: int| (scores[i].distance as nat, scores[i].longest as nat))
}

fn score_lines(found: &[char], wanted: &[char]) -> (score: LineScore)
    ensures
        (score.distance as nat, score.longest as nat) == line_score(found@, wanted@),
{
    let left = text::text_of(text::trim(found));
    let right = text::text_of(text::trim(wanted));
    let left_len: usize = text::byte_len(left.as_str());
    let right_len: usize = text::byte_len(right.as_str());
    let distance: usize = levenshtein(left.as_str(), right.as_str());
    let longest: usize = if left_len >= right_len {
        left_len
    } else {
        right_len
    };
    LineScore { distance, longest }
}

/// The windows whose first and last lines equal those of a text of at least
/// three lines, up to white space at the ends of the lines, with the scores of
/// the lines in between.
pub fn context_anchor_windows(content: &str, old_text: &str) -> (windows: Vec<AnchorWindow>)
    ensures
        windows@.len() == matching_windows(MatchStrategy::ContextAnchor, content@, old_text@, 0).len(),
        forall|i: int|
            0 <= i < windows@.len() ==> score_numbers((#[trigger] windows@[i]).scores@)
                == window_scores(
                content@,
                old_text@,
                matching_windows(MatchStrategy::ContextAnchor, content@, old_text@, 0)[i],
            ),
{
    let content = text::chars_of(content);
    let old_text = text::chars_of(old_text);
    let search = Search::new(&content, &old_text);
    let starts = search.window_starts(MatchStrategy::ContextAnchor);
    let n: usize = search.lines.len();
    let mut windows: Vec<AnchorWindow> = Vec::new();
    let ghost all = matching_windows(MatchStrategy::ContextAnchor, content@, old_text@, 0);
    proof {
        assert(text::rows(search.lines@).len() == n);
        assert(starts@.map_values(|i: usize| i as int).len() == starts@.len());
    }
    if n < 3 {
        return windows;
    }
    let mut i: usize = 0;
    while i < starts.len()
        invariant
            i <= starts@.len(),
            search.wf(),
            search.content@ == content@,
            search.old_text@ == old_text@,
            n == search.lines@.len(),
            n >= 3,
            n == text::plain_lines(old_text@).len(),
            all == matching_windows(MatchStrategy::ContextAnchor, content@, old_text@, 0),
            starts@.map_values(|i: usize| i as int) == all,
            forall|k: int|
                0 <= k < starts@.len() ==> 0 < search.lines@.len() && #[trigger] starts@[k]
                    + search.lines@.len() <= search.spans@.len(),
            windows@.len() == i,
            forall|k: int|
                0 <= k < i ==> score_numbers((#[trigger] windows@[k]).scores@) == window_scores(
                    content@,
                    old_text@,
                    all[k],
                ),
        decreases starts@.len() - i,
    {
        let w: usize = starts[i];
        let count: usize = search.spans.len();
        let ghost wanted = window_scores(content@, old_text@, w as int);
        let mut scores: Vec<LineScore> = Vec::new();
        let mut k: usize = 0;
        while k < n - 2
            invariant
                k <= n - 2,
                n >= 3,
                search.wf(),
                search.content@ == content@,
                search.old_text@ == old_text@,
                n == search.lines@.len(),
                n == text::plain_lines(old_text@).len(),
                w + n <= search.spans@.len() == count,
                wanted == window_scores(content@, old_text@, w as int),
                score_numbers(scores@) == wanted.take(k as int),
            decreases n - k,
        {
            let ghost before = score_numbers(scores@);
            proof {
                assert(text::rows(search.lines@)[k + 1] == search.lines@[k + 1]@);
            }
            scores.push(score_lines(search.line(w + k + 1), &search.lines[k + 1]));
            proof {
                assert(score_numbers(scores@) =~= before.push(wanted[k as int]));
                assert(score_numbers(scores@) =~= wanted.take(k + 1));
            }
            k += 1;
        }
        proof {
            assert(wanted.take(n - 2) =~= wanted);
            assert(starts@.map_values(|i: usize| i as int)[i as int] == starts@[i as int]);
        }
        windows.push(AnchorWindow { scores });
        i += 1;
    }
    windows
}

// ---------------------------------------------------------------------------
// Replacing.

/// What replaces a passage.
pub open spec fn replacement(
    strategy: MatchStrategy,
    matched: Seq<char>,
    old_text: Seq<char>,
    new_text: Seq<char>,
) -> Seq<char> {
    if strategy is Exact || new_text.len() == 0 {
        new_text
    } else {
        reindented(matched, old_text, new_text)
    }
}

/// The text with the stretch from `i` to `j` replaced.
pub open spec fn spliced(s: Seq<char>, i: int, j: int, by: Seq<char>) -> Seq<char> {
    s.take(i) + by + s.skip(j)
}

/// The result of replacing the passages from the last to the first. Passages
/// are found again by their byte offsets in the content; there is no result
/// where an earlier replacement has moved such an offset off a character.
pub open spec fn replaced_passages(
    content: Seq<char>,
    current: Seq<char>,
    found: CandidatesView,
    old_text: Seq<char>,
    new_text: Seq<char>,
) -> Option<Seq<char>>
    decreases found.spans.len(),
{
    if found.spans.len() == 0 {
        Some(current)
    } else {
        let (i, j) = found.spans.last();
        let start = text::char_at_byte(current, 0, text::utf8_len(content.take(i)) as int);
        let end = text::char_at_byte(current, 0, text::utf8_len(content.take(j)) as int);
        match (start, end) {
            (Some(a), Some(b)) => replaced_passages(
                content,
                spliced(
                    current,
                    a,
                    b,
                    replacement(found.strategy, current.subrange(a, b), old_text, new_text),
                ),
                CandidatesView { strategy: found.strategy, spans: found.spans.drop_last() },
                old_text,
                new_text,
            ),
            _ => None,
        }
    }
}

/// A message about the edit with the given index.
pub open spec fn edit_message(index: int, rest: Seq<char>) -> Seq<char> {
    "edit "@ + text::decimal((index + 1) as nat) + rest
}

/// The outcome of one edit of the content.
pub open spec fn edit_outcome(
    content: Seq<char>,
    old_text: Seq<char>,
    new_text: Seq<char>,
    replace_all: bool,
    index: int,
    choice: Option<int>,
) -> Result<Seq<char>, errors::CallFault> {
    let found = candidates(content, old_text, choice);
    if old_text.len() == 0 {
        Err(
            errors::CallFault::RespondToModel(
                edit_message(
                    index,
                    " has empty old_text; use write_file to create or rewrite files"@,
                ),
            ),
        )
    } else if old_text == new_text {
        Err(
            errors::CallFault::RespondToModel(edit_message(index, " would not change the file"@)),
        )
    } else if found.spans.len() == 0 {
        Err(
            errors::CallFault::RespondToModel(
                edit_message(index, " old_text was not found in the file"@),
            ),
        )
    } else if found.spans.len() > 1 && !replace_all {
        Err(
            errors::CallFault::RespondToModel(
                edit_message(
                    index,
                    " old_text matched multiple locations; provide more context or set replace_all"@,
                ),
            ),
        )
    } else {
        match replaced_passages(content, content, found, old_text, new_text) {
            Some(updated) => Ok(updated),
            None => Err(
                errors::CallFault::RespondToModel(
                    edit_message(index, " replaces passages that overlap"@),
                ),
            ),
        }
    }
}

/// The choice made for the edit with the given index.
pub open spec fn choice_at(choices: Seq<Option<usize>>, index: int) -> Option<int> {
    if 0 <= index < choices.len() {
        opt_int(choices[index])
    } else {
        None
    }
}

/// The outcome of the first `count` edits: each works on the result of the one
/// before it, and the first failure ends the work.
pub open spec fn edits_outcome(
    content: Seq<char>,
    edits: Seq<EditOperation>,
    choices: Seq<Option<usize>>,
    count: int,
) -> Result<Seq<char>, errors::CallFault>
    decreases count,
{
    if count <= 0 {
        Ok(content)
    } else {
        match edits_outcome(content, edits, choices, count - 1) {
            Ok(current) => {
                let edit = edits[count - 1];
                edit_outcome(
                    current,
                    edit.old_text@,
                    edit.new_text@,
                    edit.replace_all,
                    count - 1,
                    choice_at(choices, count - 1),
                )
            },
            Err(fault) => Err(fault),
        }
    }
}

fn edit_failure(index: usize, rest: &str) -> (message: String)
    requires
        index < usize::MAX,
    ensures
        message@ == edit_message(index as int, rest@),
{
    let mut message = "edit ".to_string();
    message.append(text::render_usize(index + 1).as_str());
    message.append(rest);
    message
}

/// The byte offset of a character position.
fn byte_offset(s: &[char], i: usize) -> (offset: usize)
    requires
        i <= s@.len(),
        text::utf8_len(s@) <= usize::MAX,
    ensures
        offset == text::utf8_len(s@.take(i as int)),
{
    let mut k: usize = 0;
    let mut offset: usize = 0;
    proof {
        assert(s@.take(0) =~= Seq::<char>::empty());
        assert(s@.take(s@.len() as int) =~= s@);
    }
    while k < i
        invariant
            k <= i <= s@.len(),
            text::utf8_len(s@.take(s@.len() as int)) <= usize::MAX,
            offset == text::utf8_len(s@.take(k as int)),
        decreases i - k,
    {
        proof {
            assert(s@.take(k + 1).drop_last() =~= s@.take(k as int));
            text::lemma_utf8_len_grows(s@, k + 1, s@.len() as int);
        }
        offset += text::char_bytes(s[k]);
        k += 1;
    }
    offset
}

/// The text that replaces a passage: as it was given where the passage was
/// found exactly, with the passage's own indentation otherwise.
pub fn replacement_for_match(
    matched: &[char],
    strategy: MatchStrategy,
    old_text: &[char],
    new_text: &[char],
) -> (out: Vec<char>)
    ensures
        out@ == replacement(strategy, matched@, old_text@, new_text@),
{
    if strategy == MatchStrategy::Exact || new_text.len() == 0 {
        return text::copy_range(new_text, 0, new_text.len());
    }
    preserve_fuzzy_match_indentation(matched, old_text, new_text)
}

fn splice(s: &[char], i: usize, j: usize, by: &[char]) -> (out: Vec<char>)
    requires
        i <= j <= s@.len(),
    ensures
        out@ == spliced(s@, i as int, j as int, by@),
{
    let mut out = text::copy_range(s, 0, i);
    text::push_all(&mut out, by);
    text::push_all(&mut out, slice_subrange(s, j, s.len()));
    out
}

proof fn lemma_byte_order(s: Seq<char>, i: int, j: int)
    requires
        0 <= i <= s.len(),
        0 <= j <= s.len(),
        text::utf8_len(s.take(i)) <= text::utf8_len(s.take(j)),
    ensures
        i <= j,
{
    if j < i {
        text::lemma_utf8_len_grows(s, j, i);
    }
}

proof fn lemma_spans_in_bounds(content: Seq<char>, old_text: Seq<char>, choice: Option<int>)
    requires
        old_text.len() > 0,
    ensures
        spans_in_bounds(candidates(content, old_text, choice).spans, content.len() as int),
{
    text::lemma_line_spans(content, 0);
    lemma_match_starts(content, old_text, 0);
    lemma_matching_windows(MatchStrategy::LineTrimmed, content, old_text, 0);
    lemma_matching_windows(MatchStrategy::IndentationFlexible, content, old_text, 0);
    lemma_matching_windows(MatchStrategy::ContextAnchor, content, old_text, 0);
    lemma_normalized_spans(content, old_text, 0);
}

/// Whether every span lies within a text of the given length.
pub open spec fn spans_in_bounds(spans: Seq<(int, int)>, len: int) -> bool {
    forall|i: int|
        0 <= i < spans.len() ==> 0 <= (#[trigger] spans[i]).0 <= spans[i].1 <= len
}

proof fn lemma_match_starts(s: Seq<char>, needle: Seq<char>, from: int)
    requires
        needle.len() > 0,
        0 <= from,
    ensures
        forall|i: int|
            0 <= i < text::match_starts(s, needle, from).len() ==> from
                <= #[trigger] text::match_starts(s, needle, from)[i] && text::match_starts(
                s,
                needle,
                from,
            )[i] + needle.len() <= s.len(),
        forall|i: int, j: int|
            0 <= i < j < text::match_starts(s, needle, from).len()
                ==> #[trigger] text::match_starts(s, needle, from)[i] + needle.len()
                <= #[trigger] text::match_starts(s, needle, from)[j],
    decreases s.len() - from,
{
    text::lemma_find_text(s, needle, from);
    if let Some(at) = text::find_text(s, needle, from) {
        let rest = text::match_starts(s, needle, at + needle.len());
        lemma_match_starts(s, needle, at + needle.len());
        let all = text::match_starts(s, needle, from);
        assert(all == seq![at] + rest);
        assert forall|i: int| 0 <= i < all.len() implies from <= #[trigger] all[i] && all[i]
            + needle.len() <= s.len() by {
            if i > 0 {
                assert(all[i] == rest[i - 1]);
            }
        }
        assert forall|i: int, j: int| 0 <= i < j < all.len() implies #[trigger] all[i]
            + needle.len() <= #[trigger] all[j] by {
            assert(all[j] == rest[j - 1]);
            if i > 0 {
                assert(all[i] == rest[i - 1]);
            }
        }
    }
}

proof fn lemma_matching_windows(
    strategy: MatchStrategy,
    content: Seq<char>,
    old_text: Seq<char>,
    w: int,
)
    requires
        0 <= w,
    ensures
        ({
            let starts = matching_windows(strategy, content, old_text, w);
            let n = text::plain_lines(old_text).len();
            &&& forall|i: int|
                0 <= i < starts.len() ==> 0 < n && w <= #[trigger] starts[i] && starts[i] + n
                    <= text::line_spans(content, 0).len()
            &&& forall|i: int, j: int| 0 <= i < j < starts.len() ==> starts[i] < starts[j]
        }),
    decreases text::line_spans(content, 0).len() - w,
{
    let n = text::plain_lines(old_text).len() as int;
    let starts = matching_windows(strategy, content, old_text, w);
    if n < least_window(strategy) || w + n > text::line_spans(content, 0).len() {
    } else {
        lemma_matching_windows(strategy, content, old_text, w + 1);
        let rest = matching_windows(strategy, content, old_text, w + 1);
        if window_matches(strategy, content, old_text, w) {
            assert(starts == seq![w] + rest);
            assert forall|i: int| 0 <= i < starts.len() implies 0 < n && w <= #[trigger] starts[i]
                && starts[i] + n <= text::line_spans(content, 0).len() by {
                if i > 0 {
                    assert(starts[i] == rest[i - 1]);
                }
            }
            assert forall|i: int, j: int| 0 <= i < j < starts.len() implies starts[i]
                < starts[j] by {
                assert(starts[j] == rest[j - 1]);
                if i > 0 {
                    assert(starts[i] == rest[i - 1]);
                }
            }
        } else {
            assert(starts =~= rest);
        }
    }
}

proof fn lemma_normalized_spans(content: Seq<char>, old_text: Seq<char>, w: int)
    requires
        0 <= w,
    ensures
        spans_in_bounds(normalized_spans(content, old_text, w), content.len() as int),
    decreases text::line_spans(content, 0).len() - w,
{
    text::lemma_line_spans(content, 0);
    if normalized(old_text).len() > 0 && w < text::line_spans(content, 0).len() {
        lemma_normalized_spans(content, old_text, w + 1);
    }
}

fn replace_passages(content: &[char], found: &Candidates, old_text: &[char], new_text: &[char])
    -> (out: Option<Vec<char>>)
    requires
        text::utf8_len(content@) <= usize::MAX,
        spans_in_bounds(found@.spans, content@.len() as int),
    ensures
        match out {
            Some(updated) => replaced_passages(content@, content@, found@, old_text@, new_text@)
                == Some(updated@),
            None => replaced_passages(content@, content@, found@, old_text@, new_text@) is None,
        },
{
    let mut current = text::copy_range(content, 0, content.len());
    let mut left: usize = found.spans.len();
    proof {
        assert(current@ =~= content@);
        assert(found@.spans.take(left as int) =~= found@.spans);
    }
    while left > 0
        invariant
            left <= found.spans@.len(),
            text::utf8_len(content@) <= usize::MAX,
            spans_in_bounds(found@.spans, content@.len() as int),
            replaced_passages(content@, content@, found@, old_text@, new_text@)
                == replaced_passages(
                content@,
                current@,
                CandidatesView {
                    strategy: found.strategy,
                    spans: found@.spans.take(left as int),
                },
                old_text@,
                new_text@,
            ),
        decreases left,
    {
        let ghost view = found@.spans.take(left as int);
        proof {
            assert(found@.spans[left - 1] == (
                found.spans@[left - 1].0 as int,
                found.spans@[left - 1].1 as int,
            ));
            assert(view.last() == found@.spans[left - 1]);
            assert(view.drop_last() =~= found@.spans.take(left - 1));
        }
        left -= 1;
        let (start, end): (usize, usize) = found.spans[left];
        let first: usize = byte_offset(content, start);
        let past: usize = byte_offset(content, end);
        match (text::position_of_byte(&current, first), text::position_of_byte(&current, past)) {
            (Some(i), Some(j)) => {
                proof {
                    text::lemma_utf8_len_grows(content@, start as int, end as int);
                    lemma_byte_order(current@, i as int, j as int);
                }
                let by = replacement_for_match(
                    slice_subrange(&current, i, j),
                    found.strategy,
                    old_text,
                    new_text,
                );
                current = splice(&current, i, j, &by);
            },
            _ => {
                return None;
            },
        }
    }
    Some(current)
}

/// Applies one edit, the one with the given index, to the content.
pub fn apply_edit(content: String, edit: &EditOperation, index: usize, choice: Option<usize>) -> (r:
    Result<String, FunctionCallError>)
    requires
        index < usize::MAX,
    ensures
        errors::text_outcome(r) == edit_outcome(
            content@,
            edit.old_text@,
            edit.new_text@,
            edit.replace_all,
            index as int,
            opt_int(choice),
        ),
{
    let old_text = text::chars_of(edit.old_text.as_str());
    let new_text = text::chars_of(edit.new_text.as_str());
    if old_text.len() == 0 {
        return Err(
            FunctionCallError::RespondToModel(
                edit_failure(
                    index,
                    " has empty old_text; use write_file to create or rewrite files",
                ),
            ),
        );
    }
    if text::same_chars(&old_text, &new_text) {
        return Err(
            FunctionCallError::RespondToModel(edit_failure(index, " would not change the file")),
        );
    }
    let bytes: usize = text::byte_len(content.as_str());
    let chars = text::chars_of(content.as_str());
    let found = find_candidate_ranges(&chars, &old_text, choice);
    proof {
        assert(found@.spans.len() == found.spans@.len());
        assert(text::utf8_len(chars@) == bytes);
        lemma_spans_in_bounds(chars@, old_text@, opt_int(choice));
    }
    if found.spans.len() == 0 {
        return Err(
            FunctionCallError::RespondToModel(
                edit_failure(index, " old_text was not found in the file"),
            ),
        );
    }
    if found.spans.len() > 1 && !edit.replace_all {
        return Err(
            FunctionCallError::RespondToModel(
                edit_failure(
                    index,
                    " old_text matched multiple locations; provide more context or set replace_all",
                ),
            ),
        );
    }
    match replace_passages(&chars, &found, &old_text, &new_text) {
        Some(updated) => Ok(text::text_of(&updated)),
        None => Err(
            FunctionCallError::RespondToModel(
                edit_failure(index, " replaces passages that overlap"),
            ),
        ),
    }
}

/// Applies a list of edits, one after the other. `choices` gives, for each
/// edit, the window that [`context_anchor_windows`] offers and that is taken
/// where nothing closer was found.
pub fn apply_edits(content: String, edits: &[EditOperation], choices: &[Option<usize>]) -> (r:
    Result<String, FunctionCallError>)
    ensures
        errors::text_outcome(r) == edits_outcome(
            content@,
            edits@,
            choices@,
            edits@.len() as int,
        ),
{
    let ghost given = content@;
    let mut current = content;
    let mut i: usize = 0;
    let n: usize = edits.len();
    while i < n
        invariant
            i <= n == edits@.len(),
            given == content@,
            edits_outcome(given, edits@, choices@, i as int) == Ok::<_, errors::CallFault>(current@),
        decreases n - i,
    {
        let choice: Option<usize> = if i < choices.len() {
            choices[i]
        } else {
            None
        };
        let ghost before = current@;
        let ghost step = edit_outcome(
            before,
            edits@[i as int].old_text@,
            edits@[i as int].new_text@,
            edits@[i as int].replace_all,
            i as int,
            opt_int(choice),
        );
        proof {
            assert(edits_outcome(given, edits@, choices@, i + 1) == step);
        }
        match apply_edit(current, &edits[i], i, choice) {
            Ok(updated) => {
                current = updated;
            },
            Err(e) => {
                proof {
                    lemma_failure_lasts(given, edits@, choices@, i + 1, n as int);
                }
                return Err(e);
            },
        }
        i += 1;
    }
    Ok(current)
}

/// Once an edit has failed, the later ones are not tried.
pub proof fn lemma_failure_lasts(
    content: Seq<char>,
    edits: Seq<EditOperation>,
    choices: Seq<Option<usize>>,
    from: int,
    to: int,
)
    requires
        0 <= from <= to,
        edits_outcome(content, edits, choices, from) is Err,
    ensures
        edits_outcome(content, edits, choices, to) == edits_outcome(content, edits, choices, from),
    decreases to - from,
{
    if from < to {
        lemma_failure_lasts(content, edits, choices, from, to - 1);
    }
}

// ---------------------------------------------------------------------------
// Laws.

/// Whether each passage ends before the next one starts.
pub open spec fn spans_apart(spans: Seq<(int, int)>) -> bool {
    forall|i: int, j: int|
        0 <= i < j < spans.len() ==> (#[trigger] spans[i]).1 <= (#[trigger] spans[j]).0
}

/// The content from `from` to `to`, every passage replaced and the rest kept.
pub open spec fn woven(
    content: Seq<char>,
    found: CandidatesView,
    old_text: Seq<char>,
    new_text: Seq<char>,
    from: int,
    to: int,
) -> Seq<char>
    decreases found.spans.len(),
{
    if found.spans.len() == 0 {
        content.subrange(from, to)
    } else {
        let (i, j) = found.spans.last();
        woven(
            content,
            CandidatesView { strategy: found.strategy, spans: found.spans.drop_last() },
            old_text,
            new_text,
            from,
            i,
        ) + replacement(found.strategy, content.subrange(i, j), old_text, new_text)
            + content.subrange(j, to)
    }
}

proof fn lemma_byte_lookup(s: Seq<char>, t: Seq<char>, i: int, from: int)
    requires
        0 <= from <= i <= s.len(),
        i <= t.len(),
        s.take(i) == t.take(i),
    ensures
        text::char_at_byte(t, from, text::utf8_len(s.take(i)) as int) == Some(i),
    decreases i - from,
{
    if from < i {
        text::lemma_utf8_len_grows(t, from, i);
        lemma_byte_lookup(s, t, i, from + 1);
    }
}

proof fn lemma_replaced_passages(
    content: Seq<char>,
    tail: Seq<char>,
    found: CandidatesView,
    old_text: Seq<char>,
    new_text: Seq<char>,
    to: int,
)
    requires
        0 <= to <= content.len(),
        spans_in_bounds(found.spans, to),
        spans_apart(found.spans),
    ensures
        replaced_passages(content, content.take(to) + tail, found, old_text, new_text) == Some(
            woven(content, found, old_text, new_text, 0, to) + tail,
        ),
    decreases found.spans.len(),
{
    let current = content.take(to) + tail;
    if found.spans.len() > 0 {
        let (i, j) = found.spans.last();
        let rest = CandidatesView { strategy: found.strategy, spans: found.spans.drop_last() };
        assert(found.spans[found.spans.len() - 1] == (i, j));
        assert(content.take(i) =~= current.take(i));
        assert(content.take(j) =~= current.take(j));
        lemma_byte_lookup(content, current, i, 0);
        lemma_byte_lookup(content, current, j, 0);
        assert(current.subrange(i, j) =~= content.subrange(i, j));
        let by = replacement(found.strategy, content.subrange(i, j), old_text, new_text);
        let new_tail = by + content.subrange(j, to) + tail;
        assert(spliced(current, i, j, by) =~= content.take(i) + new_tail);
        assert forall|k: int| 0 <= k < rest.spans.len() implies 0 <= (#[trigger] rest.spans[k]).0
            <= rest.spans[k].1 <= i by {
            assert(rest.spans[k] == found.spans[k]);
        }
        assert(spans_apart(rest.spans)) by {
            assert forall|a: int, b: int| 0 <= a < b < rest.spans.len() implies (
            #[trigger] rest.spans[a]).1 <= (#[trigger] rest.spans[b]).0 by {
                assert(rest.spans[a] == found.spans[a]);
                assert(rest.spans[b] == found.spans[b]);
            }
        }
        lemma_replaced_passages(content, new_tail, rest, old_text, new_text, i);
        assert(woven(content, rest, old_text, new_text, 0, i) + new_tail =~= woven(
            content,
            found,
            old_text,
            new_text,
            0,
            to,
        ) + tail);
    } else {
        assert(content.subrange(0, to) =~= content.take(to));
    }
}

/// The text of lines, with a newline at the end or without.
pub open spec fn text_of_lines(lines: Seq<Seq<char>>, newline: bool) -> Seq<char> {
    let body = text::joined(lines, seq!['\n']);
    if newline {
        body.push('\n')
    } else {
        body
    }
}

/// A replacement whose lines are indented as the text that was asked for is put
/// in with the indentation of the passage that was found: in every line that is
/// not blank the one indentation is exchanged for the other, and what stands
/// behind it is kept.
pub proof fn replacements_take_the_indentation_found(
    matched: Seq<char>,
    old_text: Seq<char>,
    new_text: Seq<char>,
)
    requires
        forall|i: int|
            0 <= i < replacement_lines(new_text).len() ==> text::is_blank(
                #[trigger] replacement_lines(new_text)[i],
            ) || text::begins(replacement_lines(new_text)[i], shared_indent(old_text)),
    ensures
        reindented(matched, old_text, new_text) == text_of_lines(
            Seq::new(
                replacement_lines(new_text).len(),
                |i: int|
                    if text::is_blank(replacement_lines(new_text)[i]) {
                        replacement_lines(new_text)[i]
                    } else {
                        shared_indent(matched) + replacement_lines(new_text)[i].skip(
                            shared_indent(old_text).len() as int,
                        )
                    },
            ),
            ends_with_newline(new_text),
        ),
{
    let old_prefix = shared_indent(old_text);
    let new_prefix = shared_indent(matched);
    let lines = replacement_lines(new_text);
    let moved = Seq::new(
        lines.len(),
        |i: int|
            if text::is_blank(lines[i]) {
                lines[i]
            } else {
                new_prefix + lines[i].skip(old_prefix.len() as int)
            },
    );
    if old_prefix == new_prefix {
        assert forall|i: int| 0 <= i < lines.len() implies #[trigger] moved[i] == lines[i] by {
            if !text::is_blank(lines[i]) {
                assert(lines[i].subrange(0, old_prefix.len() as int) =~= old_prefix);
                assert(new_prefix + lines[i].skip(old_prefix.len() as int) =~= lines[i]);
            }
        }
        assert(moved =~= lines);
        text::lemma_split_joins(new_text, '\n', 0);
        let pieces = text::split_at(new_text, '\n');
        assert(new_text.skip(0) =~= new_text);
        if ends_with_newline(new_text) {
            assert(text::joined(pieces.drop_last(), seq!['\n']) + seq!['\n'] + Seq::<char>::empty()
                =~= text::joined(pieces.drop_last(), seq!['\n']).push('\n'));
        }
    } else {
        let adjusted = Seq::new(
            lines.len(),
            |i: int| reindented_line(lines[i], old_prefix, new_prefix),
        );
        assert(adjusted =~= moved);
    }
}

/// Passages that do not overlap are replaced each on its own: the result holds
/// every replacement in its place and the rest of the content unchanged, and
/// the edit cannot fail for overlapping.
pub proof fn separate_passages_are_replaced_in_place(
    content: Seq<char>,
    found: CandidatesView,
    old_text: Seq<char>,
    new_text: Seq<char>,
)
    requires
        spans_in_bounds(found.spans, content.len() as int),
        spans_apart(found.spans),
    ensures
        replaced_passages(content, content, found, old_text, new_text) == Some(
            woven(content, found, old_text, new_text, 0, content.len() as int),
        ),
{
    lemma_replaced_passages(
        content,
        Seq::empty(),
        found,
        old_text,
        new_text,
        content.len() as int,
    );
    assert(content.take(content.len() as int) + Seq::<char>::empty() =~= content);
    let all = woven(content, found, old_text, new_text, 0, content.len() as int);
    assert(all + Seq::<char>::empty() =~= all);
}

proof fn lemma_woven_first(
    content: Seq<char>,
    found: CandidatesView,
    old_text: Seq<char>,
    new_text: Seq<char>,
    from: int,
    to: int,
)
    requires
        found.spans.len() > 0,
    ensures
        woven(content, found, old_text, new_text, from, to) == content.subrange(
            from,
            found.spans[0].0,
        ) + replacement(
            found.strategy,
            content.subrange(found.spans[0].0, found.spans[0].1),
            old_text,
            new_text,
        ) + woven(
            content,
            CandidatesView { strategy: found.strategy, spans: found.spans.drop_first() },
            old_text,
            new_text,
            found.spans[0].1,
            to,
        ),
    decreases found.spans.len(),
{
    let rest = CandidatesView { strategy: found.strategy, spans: found.spans.drop_first() };
    let front = CandidatesView { strategy: found.strategy, spans: found.spans.drop_last() };
    if found.spans.len() == 1 {
        assert(front.spans =~= Seq::<(int, int)>::empty());
        assert(rest.spans =~= Seq::<(int, int)>::empty());
        assert(found.spans.last() == found.spans[0]);
        assert(woven(content, front, old_text, new_text, from, found.spans[0].0)
            == content.subrange(from, found.spans[0].0));
        assert(woven(content, rest, old_text, new_text, found.spans[0].1, to) == content.subrange(
            found.spans[0].1,
            to,
        ));
    } else {
        let (i, j) = found.spans.last();
        lemma_woven_first(content, front, old_text, new_text, from, i);
        assert(front.spans[0] == found.spans[0]);
        assert(front.spans.drop_first() =~= rest.spans.drop_last());
        assert(rest.spans.last() == found.spans.last());
        assert(woven(content, found, old_text, new_text, from, to) =~= content.subrange(
            from,
            found.spans[0].0,
        ) + replacement(
            found.strategy,
            content.subrange(found.spans[0].0, found.spans[0].1),
            old_text,
            new_text,
        ) + woven(content, rest, old_text, new_text, found.spans[0].1, to));
    }
}

proof fn lemma_woven_replaces(
    content: Seq<char>,
    old_text: Seq<char>,
    new_text: Seq<char>,
    from: int,
)
    requires
        old_text.len() > 0,
        0 <= from <= content.len(),
    ensures
        ({
            let starts = text::match_starts(content, old_text, from);
            let spans = Seq::new(starts.len(), |i: int| (starts[i], starts[i] + old_text.len()));
            woven(
                content,
                CandidatesView { strategy: MatchStrategy::Exact, spans },
                old_text,
                new_text,
                from,
                content.len() as int,
            ) == text::replaced_from(content, old_text, new_text, from)
        }),
    decreases content.len() - from,
{
    let starts = text::match_starts(content, old_text, from);
    let spans = Seq::new(starts.len(), |i: int| (starts[i], starts[i] + old_text.len()));
    let found = CandidatesView { strategy: MatchStrategy::Exact, spans };
    text::lemma_find_text(content, old_text, from);
    match text::find_text(content, old_text, from) {
        Some(at) => {
            let next = at + old_text.len() as int;
            let rest_starts = text::match_starts(content, old_text, next);
            let rest_spans = Seq::new(
                rest_starts.len(),
                |i: int| (rest_starts[i], rest_starts[i] + old_text.len()),
            );
            assert(starts == seq![at] + rest_starts);
            assert(spans.drop_first() =~= rest_spans);
            lemma_woven_replaces(content, old_text, new_text, next);
            lemma_woven_first(content, found, old_text, new_text, from, content.len() as int);
        },
        None => {
            assert(spans =~= Seq::<(int, int)>::empty());
            assert(content.subrange(from, content.len() as int) =~= content.skip(from));
        },
    }
}

/// An edit with `replace_all` whose text stands in the content exactly
/// replaces every occurrence, as a plain search and replace does.
pub proof fn replace_all_replaces_every_exact_match(
    content: Seq<char>,
    old_text: Seq<char>,
    new_text: Seq<char>,
    index: int,
    choice: Option<int>,
)
    requires
        old_text.len() > 0,
        old_text != new_text,
        text::holds_text(content, old_text),
    ensures
        edit_outcome(content, old_text, new_text, true, index, choice) == Ok::<
            _,
            errors::CallFault,
        >(text::replaced(content, old_text, new_text)),
{
    text::lemma_find_text(content, old_text, 0);
    lemma_match_starts(content, old_text, 0);
    let found = candidates(content, old_text, choice);
    let starts = text::match_starts(content, old_text, 0);
    assert(starts.len() > 0);
    assert(found.strategy == MatchStrategy::Exact);
    assert(found.spans == exact_spans(content, old_text));
    assert(spans_in_bounds(found.spans, content.len() as int));
    assert(spans_apart(found.spans));
    separate_passages_are_replaced_in_place(content, found, old_text, new_text);
    lemma_woven_replaces(content, old_text, new_text, 0);
}

/// Where a text occurs more than once and `replace_all` is not set, the edit
/// is refused.
pub proof fn ambiguous_edits_are_refused(
    content: Seq<char>,
    old_text: Seq<char>,
    new_text: Seq<char>,
    index: int,
    choice: Option<int>,
)
    requires
        old_text.len() > 0,
        old_text != new_text,
        candidates(content, old_text, choice).spans.len() > 1,
    ensures
        edit_outcome(content, old_text, new_text, false, index, choice) == Err::<Seq<char>, _>(
            errors::CallFault::RespondToModel(
                edit_message(
                    index,
                    " old_text matched multiple locations; provide more context or set replace_all"@,
                ),
            ),
        ),
{
}

/// Whether a fault tells the model about the edit with the given index.
pub open spec fn tells_of_edit(fault: errors::CallFault, index: int) -> bool {
    exists|rest: Seq<char>|
        fault == errors::CallFault::RespondToModel(#[trigger] edit_message(index, rest))
}

/// Edits that fail tell the model which one failed first: all before it went
/// well.
pub proof fn the_first_failing_edit_is_named(
    content: Seq<char>,
    edits: Seq<EditOperation>,
    choices: Seq<Option<usize>>,
    count: int,
)
    ensures
        edits_outcome(content, edits, choices, count) matches Err(fault) ==> exists|k: int|
            0 <= k < count && edits_outcome(content, edits, choices, k) is Ok && edits_outcome(
                content,
                edits,
                choices,
                k + 1,
            ) is Err && #[trigger] tells_of_edit(fault, k),
    decreases count,
{
    if count > 0 {
        the_first_failing_edit_is_named(content, edits, choices, count - 1);
        if let Err(fault) = edits_outcome(content, edits, choices, count) {
            if edits_outcome(content, edits, choices, count - 1) is Ok {
                assert(tells_of_edit(fault, count - 1));
            }
        }
    }
}

// ---------------------------------------------------------------------------
// What edits put in.

/// The content from `from` to `to` with pieces in place of the passages.
pub open spec fn interleaved(
    content: Seq<char>,
    spans: Seq<(int, int)>,
    pieces: Seq<Seq<char>>,
    from: int,
    to: int,
) -> Seq<char>
    decreases spans.len(),
{
    if spans.len() == 0 {
        content.subrange(from, to)
    } else {
        let (i, j) = spans.last();
        interleaved(content, spans.drop_last(), pieces, from, i) + pieces[spans.len() - 1]
            + content.subrange(j, to)
    }
}

/// A text in whose lines one indentation is exchanged for another; blank lines
/// are kept.
pub open spec fn with_indentation(value: Seq<char>, old: Seq<char>, new: Seq<char>) -> Seq<char> {
    let lines = text::split_at(value, '\n');
    text::joined(
        Seq::new(
            lines.len(),
            |i: int|
                if text::is_blank(lines[i]) {
                    lines[i]
                } else {
                    new + lines[i].skip(old.len() as int)
                },
        ),
        seq!['\n'],
    )
}

proof fn lemma_woven_is_interleaved(
    content: Seq<char>,
    found: CandidatesView,
    old_text: Seq<char>,
    new_text: Seq<char>,
    pieces: Seq<Seq<char>>,
    from: int,
    to: int,
)
    requires
        found.spans.len() <= pieces.len(),
        forall|k: int|
            0 <= k < found.spans.len() ==> #[trigger] pieces[k] == replacement(
                found.strategy,
                content.subrange(found.spans[k].0, found.spans[k].1),
                old_text,
                new_text,
            ),
    ensures
        woven(content, found, old_text, new_text, from, to) == interleaved(
            content,
            found.spans,
            pieces,
            from,
            to,
        ),
    decreases found.spans.len(),
{
    if found.spans.len() > 0 {
        let rest = CandidatesView { strategy: found.strategy, spans: found.spans.drop_last() };
        let (i, j) = found.spans.last();
        assert forall|k: int| 0 <= k < rest.spans.len() implies #[trigger] pieces[k]
            == replacement(
            found.strategy,
            content.subrange(rest.spans[k].0, rest.spans[k].1),
            old_text,
            new_text,
        ) by {
            assert(rest.spans[k] == found.spans[k]);
        }
        lemma_woven_is_interleaved(content, rest, old_text, new_text, pieces, from, i);
        assert(pieces[found.spans.len() - 1] == replacement(
            found.strategy,
            content.subrange(i, j),
            old_text,
            new_text,
        ));
    }
}

/// Whether an edit may replace the passages that were found for it: there is
/// one, or there are several apart from each other and all may be replaced.
pub open spec fn may_replace(spans: Seq<(int, int)>, replace_all: bool) -> bool {
    spans.len() == 1 || (spans.len() > 1 && replace_all && spans_apart(spans))
}

/// An edit whose text stands nowhere in the content as it is, but was found
/// leniently, puts its replacement in with the indentation of each passage, by
/// whatever strategy that was found: in every line that is not blank, the
/// indentation of the passage stands in place of that of the text asked for.
pub proof fn lenient_edits_keep_the_indentation_found(
    content: Seq<char>,
    old_text: Seq<char>,
    new_text: Seq<char>,
    replace_all: bool,
    index: int,
    choice: Option<int>,
)
    requires
        old_text.len() > 0,
        old_text != new_text,
        !text::holds_text(content, old_text),
        may_replace(candidates(content, old_text, choice).spans, replace_all),
        forall|i: int|
            0 <= i < text::split_at(new_text, '\n').len() ==> text::is_blank(
                #[trigger] text::split_at(new_text, '\n')[i],
            ) || text::begins(text::split_at(new_text, '\n')[i], shared_indent(old_text)),
    ensures
        ({
            let spans = candidates(content, old_text, choice).spans;
            edit_outcome(content, old_text, new_text, replace_all, index, choice) == Ok::<
                _,
                errors::CallFault,
            >(
                interleaved(
                    content,
                    spans,
                    Seq::new(
                        spans.len(),
                        |k: int|
                            with_indentation(
                                new_text,
                                shared_indent(old_text),
                                shared_indent(content.subrange(spans[k].0, spans[k].1)),
                            ),
                    ),
                    0,
                    content.len() as int,
                ),
            )
        }),
{
    let found = candidates(content, old_text, choice);
    let spans = found.spans;
    let old_prefix = shared_indent(old_text);
    let pieces = Seq::new(
        spans.len(),
        |k: int|
            with_indentation(
                new_text,
                old_prefix,
                shared_indent(content.subrange(spans[k].0, spans[k].1)),
            ),
    );
    lemma_no_exact_spans(content, old_text);
    lemma_spans_in_bounds(content, old_text, choice);
    let all = text::split_at(new_text, '\n');
    text::lemma_split_joins(new_text, '\n', 0);
    assert(new_text.skip(0) =~= new_text);
    let lines = replacement_lines(new_text);
    assert forall|i: int| 0 <= i < lines.len() implies text::is_blank(#[trigger] lines[i])
        || text::begins(lines[i], old_prefix) by {
        assert(lines[i] == all[i]);
    }
    assert forall|k: int| 0 <= k < spans.len() implies #[trigger] pieces[k] == replacement(
        found.strategy,
        content.subrange(spans[k].0, spans[k].1),
        old_text,
        new_text,
    ) by {
        let matched = content.subrange(spans[k].0, spans[k].1);
        let new_prefix = shared_indent(matched);
        lemma_with_indentation(new_text, old_prefix, new_prefix);
        replacements_take_the_indentation_found(matched, old_text, new_text);
        if new_text.len() == 0 {
            assert(pieces[k] =~= new_text);
        }
    }
    separate_passages_are_replaced_in_place(content, found, old_text, new_text);
    lemma_woven_is_interleaved(
        content,
        found,
        old_text,
        new_text,
        pieces,
        0,
        content.len() as int,
    );
}

proof fn lemma_with_indentation(value: Seq<char>, old: Seq<char>, new: Seq<char>)
    ensures
        value.len() == 0 ==> with_indentation(value, old, new) == value,
        with_indentation(value, old, new) == text_of_lines(
            Seq::new(
                replacement_lines(value).len(),
                |i: int|
                    if text::is_blank(replacement_lines(value)[i]) {
                        replacement_lines(value)[i]
                    } else {
                        new + replacement_lines(value)[i].skip(old.len() as int)
                    },
            ),
            ends_with_newline(value),
        ),
{
    let all = text::split_at(value, '\n');
    text::lemma_split_joins(value, '\n', 0);
    let moved = Seq::new(
        all.len(),
        |i: int|
            if text::is_blank(all[i]) {
                all[i]
            } else {
                new + all[i].skip(old.len() as int)
            },
    );
    let lines = replacement_lines(value);
    let fewer = Seq::new(
        lines.len(),
        |i: int|
            if text::is_blank(lines[i]) {
                lines[i]
            } else {
                new + lines[i].skip(old.len() as int)
            },
    );
    if value.len() == 0 {
        assert(text::find_char(value, '\n', 0) == 0);
        assert(all =~= seq![value.subrange(0, 0)]);
        assert(value.subrange(0, 0) =~= value);
        assert(moved =~= seq![value]);
    }
    if ends_with_newline(value) {
        assert(moved.drop_last() =~= fewer);
        assert(moved.last() == all.last());
        let body = text::joined(fewer, seq!['\n']);
        assert(body + seq!['\n'] + Seq::<char>::empty() =~= body.push('\n'));
    } else {
        assert(moved =~= fewer);
    }
}

proof fn lemma_no_exact_spans(content: Seq<char>, old_text: Seq<char>)
    requires
        old_text.len() > 0,
    ensures
        (exact_spans(content, old_text).len() > 0) == text::holds_text(content, old_text),
{
    text::lemma_find_text(content, old_text, 0);
    if text::holds_text(content, old_text) {
        let at = choose|at: int| #[trigger] text::occurs_at(content, old_text, at);
        assert(text::find_text(content, old_text, 0) is Some);
    } else {
        if let Some(at) = text::find_text(content, old_text, 0) {
            assert(text::occurs_at(content, old_text, at));
        }
    }
}

/// The indentation that the lines of a text share begins every line that is
/// not blank, is white space, and is the longest such: none where all lines
/// are blank.
pub proof fn shared_indentation_is_the_longest(value: Seq<char>, other: Seq<char>)
    ensures
        ({
            let lines = text::bare_lines(value);
            let shared = shared_indent(value);
            &&& text::is_blank(shared)
            &&& forall|i: int|
                0 <= i < lines.len() && !text::is_blank(#[trigger] lines[i]) ==> text::begins(
                    lines[i],
                    shared,
                )
            &&& (forall|i: int| 0 <= i < lines.len() ==> text::is_blank(#[trigger] lines[i]))
                ==> shared.len() == 0
            &&& text::is_blank(other) && (exists|i: int|
                0 <= i < lines.len() && !text::is_blank(#[trigger] lines[i])) && (forall|i: int|
                0 <= i < lines.len() && !text::is_blank(#[trigger] lines[i]) ==> text::begins(
                    lines[i],
                    other,
                )) ==> other.len() <= shared.len()
        }),
{
    let lines = text::bare_lines(value);
    lemma_common_indent(lines, other);
    match common_indent(lines) {
        Some(prefix) => {},
        None => {},
    }
}

proof fn lemma_common_len(a: Seq<char>, b: Seq<char>, from: int)
    requires
        0 <= from <= a.len(),
        from <= b.len(),
        a.take(from) == b.take(from),
    ensures
        from <= common_len(a, b, from) <= a.len(),
        common_len(a, b, from) <= b.len(),
        a.take(common_len(a, b, from)) == b.take(common_len(a, b, from)),
        forall|n: int|
            from <= n <= a.len() && n <= b.len() && a.take(n) == #[trigger] b.take(n) ==> n
                <= common_len(a, b, from),
    decreases a.len() - from,
{
    if from < a.len() && from < b.len() && a[from] == b[from] {
        assert(a.take(from + 1) =~= b.take(from + 1)) by {
            assert forall|k: int| 0 <= k < from + 1 implies a[k] == b[k] by {
                if k < from {
                    assert(a.take(from)[k] == a[k]);
                    assert(b.take(from)[k] == b[k]);
                }
            }
        }
        lemma_common_len(a, b, from + 1);
    } else {
        assert forall|n: int|
            from <= n <= a.len() && n <= b.len() && a.take(n) == #[trigger] b.take(n) implies n
            <= from by {
            if n > from {
                assert(a.take(n)[from] == b.take(n)[from]);
            }
        }
    }
}

proof fn lemma_begins(line: Seq<char>, p: Seq<char>, q: Seq<char>)
    requires
        text::begins(line, p),
        text::begins(line, q),
        p.len() <= q.len(),
    ensures
        text::begins(q, p),
        q.take(p.len() as int) == p,
{
    assert(line.subrange(0, p.len() as int) == p);
    assert(line.subrange(0, q.len() as int) == q);
    assert(q.take(p.len() as int) =~= p);
    assert(q.subrange(0, p.len() as int) =~= p);
}

proof fn lemma_indent_of(line: Seq<char>, other: Seq<char>)
    requires
        !text::is_blank(line),
    ensures
        text::is_blank(indent_of(line)),
        text::begins(line, indent_of(line)),
        text::is_blank(other) && text::begins(line, other) ==> other.len() <= indent_of(line).len(),
{
    text::lemma_skip_white(line, 0);
    let n = indent_len(line);
    assert(line.subrange(0, n) =~= indent_of(line));
    assert forall|i: int| 0 <= i < n implies text::is_white(#[trigger] indent_of(line)[i]) by {
        assert(indent_of(line)[i] == line[i]);
    }
    if text::is_blank(other) && text::begins(line, other) && other.len() > n {
        assert(line.subrange(0, other.len() as int)[n] == line[n]);
        assert(other[n] == line[n]);
        assert(text::is_white(other[n]));
    }
}

proof fn lemma_common_indent(lines: Seq<Seq<char>>, other: Seq<char>)
    ensures
        match common_indent(lines) {
            Some(prefix) => {
                &&& text::is_blank(prefix)
                &&& exists|i: int| 0 <= i < lines.len() && !text::is_blank(#[trigger] lines[i])
                &&& forall|i: int|
                    0 <= i < lines.len() && !text::is_blank(#[trigger] lines[i]) ==> text::begins(
                        lines[i],
                        prefix,
                    )
                &&& text::is_blank(other) && (forall|i: int|
                    0 <= i < lines.len() && !text::is_blank(#[trigger] lines[i]) ==> text::begins(
                        lines[i],
                        other,
                    )) ==> other.len() <= prefix.len() && text::begins(prefix, other)
            },
            None => forall|i: int| 0 <= i < lines.len() ==> text::is_blank(#[trigger] lines[i]),
        },
    decreases lines.len(),
{
    if lines.len() > 0 {
        let front = lines.drop_last();
        let line = lines.last();
        lemma_common_indent(front, other);
        assert forall|i: int| 0 <= i < front.len() implies #[trigger] lines[i] == front[i] by {}
        assert(lines[lines.len() - 1] == line);
        let all_begin = forall|i: int|
            0 <= i < lines.len() && !text::is_blank(#[trigger] lines[i]) ==> text::begins(
                lines[i],
                other,
            );
        if all_begin {
            assert forall|i: int|
                0 <= i < front.len() && !text::is_blank(#[trigger] front[i]) implies text::begins(
                front[i],
                other,
            ) by {
                assert(lines[i] == front[i]);
            }
        }
        if !text::is_blank(line) {
            lemma_indent_of(line, other);
            let own = indent_of(line);
            match common_indent(front) {
                Some(earlier) => {
                    assert(earlier.take(0) =~= own.take(0));
                    lemma_common_len(earlier, own, 0);
                    let n = common_len(earlier, own, 0);
                    let prefix = common_prefix(earlier, own);
                    assert(prefix == earlier.take(n));
                    assert forall|i: int| 0 <= i < prefix.len() implies text::is_white(
                        #[trigger] prefix[i],
                    ) by {
                        assert(prefix[i] == earlier[i]);
                    }
                    assert(line.subrange(0, n) =~= own.take(n));
                    assert(text::begins(line, prefix));
                    assert forall|i: int|
                        0 <= i < lines.len() && !text::is_blank(
                            #[trigger] lines[i],
                        ) implies text::begins(lines[i], prefix) by {
                        if i < front.len() {
                            assert(lines[i] == front[i]);
                            assert(front[i].subrange(0, earlier.len() as int) == earlier);
                            assert(front[i].subrange(0, n) =~= earlier.take(n));
                        }
                    }
                    if text::is_blank(other) && all_begin {
                        assert(text::begins(line, other));
                        lemma_begins(line, other, own);
                        assert(earlier.subrange(0, other.len() as int) == other);
                        assert(earlier.take(other.len() as int) =~= own.take(other.len() as int));
                        assert(prefix.subrange(0, other.len() as int) =~= other);
                    }
                },
                None => {
                    if text::is_blank(other) && all_begin {
                        assert(text::begins(line, other));
                        lemma_begins(line, other, own);
                    }
                },
            }
        } else {
            if let Some(prefix) = common_indent(front) {
                let k = choose|k: int|
                    0 <= k < front.len() && !text::is_blank(#[trigger] front[k]);
                assert(lines[k] == front[k]);
            }
        }
    }
}

/// A line that does not begin with the indentation it should have had is moved
/// by the difference of the two lengths, but never loses more than its white
/// space; one that does exchanges the one for the other. Either way, what
/// stands behind its white space is kept.
pub proof fn lines_move_by_the_difference(line: Seq<char>, old: Seq<char>, new: Seq<char>)
    requires
        !text::is_blank(line),
        text::is_blank(old),
        text::is_blank(new),
    ensures
        ({
            let moved = reindented_line(line, old, new);
            &&& text::trimmed_start(moved) == text::trimmed_start(line)
            &&& moved.len() == if line.len() - text::trimmed_start(line).len() >= old.len()
                - new.len() {
                line.len() + new.len() - old.len()
            } else {
                text::trimmed_start(line).len() as int
            }
            &&& text::begins(line, old) ==> text::begins(moved, new)
        }),
{
    text::lemma_skip_white(line, 0);
    let moved = reindented_line(line, old, new);
    let n = indent_len(line);
    if text::begins(line, old) {
        lemma_indent_of(line, old);
        let rest = line.skip(old.len() as int);
        assert(moved == new + rest);
        let k = new.len() + n - old.len();
        assert forall|i: int| 0 <= i < k implies text::is_white(#[trigger] moved[i]) by {
            if i < new.len() {
                assert(moved[i] == new[i]);
            } else {
                assert(moved[i] == line[i - new.len() + old.len()]);
            }
        }
        assert(moved[k] == line[n]);
        lemma_indent_is(moved, k);
        assert(moved.skip(k) =~= line.skip(n));
        assert(moved.subrange(0, new.len() as int) =~= new);
    } else {
        shifting_changes_only_leading_white_space(line, new.len() - old.len());
    }
}

/// Removing the shared indentation takes equally many characters off the start
/// of every line that is not blank: as many as the least indented has.
pub proof fn shared_indentation_is_removed_evenly(value: Seq<char>)
    ensures
        ({
            let lines = text::split_at(value, '\n');
            let out = text::split_at(dedented(value), '\n');
            &&& out.len() == lines.len()
            &&& forall|i: int|
                0 <= i < lines.len() && text::is_blank(#[trigger] lines[i]) ==> out[i] == lines[i]
            &&& forall|i: int, j: int|
                0 <= i < lines.len() && 0 <= j < lines.len() && !text::is_blank(
                    #[trigger] lines[i],
                ) && !text::is_blank(#[trigger] lines[j]) ==> lines[i].len() - out[i].len()
                    == lines[j].len() - out[j].len()
            &&& forall|i: int|
                0 <= i < lines.len() && !text::is_blank(#[trigger] lines[i]) ==> out[i].len()
                    <= lines[i].len() && out[i] == lines[i].skip(lines[i].len() - out[i].len())
                    && text::trimmed_start(out[i]) == text::trimmed_start(lines[i])
            &&& (exists|i: int| 0 <= i < lines.len() && !text::is_blank(#[trigger] lines[i])) ==> (
            exists|i: int|
                0 <= i < lines.len() && !text::is_blank(#[trigger] lines[i])
                    && text::trimmed_start(out[i]) == out[i])
        }),
{
    let lines = text::split_at(value, '\n');
    text::lemma_split_joins(value, '\n', 0);
    text::lemma_pieces_are_free(value, '\n', 0);
    lemma_least_indent(lines);
    lemma_least_indent_is_one(lines);
    if let Some(n) = least_indent(lines) {
        let fewer = Seq::new(lines.len(), |i: int| dedented_line(lines[i], n));
        assert forall|i: int| 0 <= i < fewer.len() implies !(#[trigger] fewer[i]).contains('\n') by {
            if fewer[i].contains('\n') {
                let k = choose|k: int| 0 <= k < fewer[i].len() && fewer[i][k] == '\n';
                if !text::is_blank(lines[i]) {
                    assert(lines[i][k + n] == '\n');
                }
                assert(lines[i].contains('\n'));
            }
        }
        text::lemma_joined_splits(Seq::empty(), fewer, '\n');
        assert(Seq::<char>::empty() + dedented(value) =~= dedented(value));
        let out = text::split_at(dedented(value), '\n');
        assert(out == fewer);
        assert forall|i: int| 0 <= i < lines.len() && !text::is_blank(#[trigger] lines[i]) implies
            out[i].len() <= lines[i].len() && out[i] == lines[i].skip(
            lines[i].len() - out[i].len(),
        ) && text::trimmed_start(out[i]) == text::trimmed_start(lines[i]) by {
            lemma_line_loses(lines[i], n);
            text::lemma_skip_white(lines[i], 0);
            assert(out[i].skip(indent_len(lines[i]) - n) =~= lines[i].skip(indent_len(lines[i])));
        }
        let k = choose|k: int|
            0 <= k < lines.len() && !text::is_blank(#[trigger] lines[k]) && indent_len(lines[k])
                == n;
        lemma_line_loses(lines[k], n);
        assert(out[k].skip(0) =~= out[k]);
        assert(text::trimmed_start(out[k]) == out[k]);
    }
}

proof fn lemma_least_indent_is_one(lines: Seq<Seq<char>>)
    ensures
        least_indent(lines) matches Some(n) ==> exists|i: int|
            0 <= i < lines.len() && !text::is_blank(#[trigger] lines[i]) && indent_len(lines[i])
                == n,
    decreases lines.len(),
{
    if lines.len() > 0 {
        let front = lines.drop_last();
        lemma_least_indent_is_one(front);
        if let Some(n) = least_indent(lines) {
            if least_indent(front) == Some(n) {
                let k = choose|k: int|
                    0 <= k < front.len() && !text::is_blank(#[trigger] front[k]) && indent_len(
                        front[k],
                    ) == n;
                assert(lines[k] == front[k]);
            } else {
                assert(lines[lines.len() - 1] == lines.last());
            }
        }
    }
}

// ---------------------------------------------------------------------------
// What edits find.

/// A text that stands in the content as it is is found there, whatever else it
/// might be taken for: every passage found is the text, and every place where
/// it stands lies in a passage.
pub proof fn exact_passages_come_first(content: Seq<char>, old_text: Seq<char>, choice: Option<int>)
    requires
        old_text.len() > 0,
        text::holds_text(content, old_text),
    ensures
        ({
            let found = candidates(content, old_text, choice);
            &&& found.strategy is Exact
            &&& found.spans.len() > 0
            &&& forall|k: int|
                0 <= k < found.spans.len() ==> 0 <= (#[trigger] found.spans[k]).0
                    && found.spans[k].1 <= content.len() && content.subrange(
                    found.spans[k].0,
                    found.spans[k].1,
                ) == old_text
            &&& forall|at: int| #[trigger]
                text::occurs_at(content, old_text, at) ==> exists|k: int|
                    0 <= k < found.spans.len() && (#[trigger] found.spans[k]).0 <= at
                        < found.spans[k].1
        }),
{
    lemma_no_exact_spans(content, old_text);
    lemma_match_starts(content, old_text, 0);
    let found = candidates(content, old_text, choice);
    let starts = text::match_starts(content, old_text, 0);
    assert forall|k: int| 0 <= k < found.spans.len() implies 0 <= (#[trigger] found.spans[k]).0
        && found.spans[k].1 <= content.len() && content.subrange(
        found.spans[k].0,
        found.spans[k].1,
    ) == old_text by {
        lemma_starts_occur(content, old_text, 0, k);
        assert(found.spans[k] == (starts[k], starts[k] + old_text.len()));
    }
    assert forall|at: int| #[trigger] text::occurs_at(content, old_text, at) implies exists|k: int|
        0 <= k < found.spans.len() && (#[trigger] found.spans[k]).0 <= at < found.spans[k].1 by {
        let k = lemma_starts_cover(content, old_text, 0, at);
        assert(found.spans[k] == (starts[k], starts[k] + old_text.len()));
    }
}

proof fn lemma_starts_occur(s: Seq<char>, needle: Seq<char>, from: int, k: int)
    requires
        needle.len() > 0,
        0 <= from,
        0 <= k < text::match_starts(s, needle, from).len(),
    ensures
        text::occurs_at(s, needle, text::match_starts(s, needle, from)[k]),
    decreases s.len() - from,
{
    text::lemma_find_text(s, needle, from);
    let at = text::find_text(s, needle, from)->Some_0;
    if k > 0 {
        lemma_starts_occur(s, needle, at + needle.len(), k - 1);
    }
}

proof fn lemma_starts_cover(s: Seq<char>, needle: Seq<char>, from: int, at: int) -> (k: int)
    requires
        needle.len() > 0,
        0 <= from <= at,
        text::occurs_at(s, needle, at),
    ensures
        0 <= k < text::match_starts(s, needle, from).len(),
        text::match_starts(s, needle, from)[k] <= at < text::match_starts(s, needle, from)[k]
            + needle.len(),
    decreases s.len() - from,
{
    text::lemma_find_text(s, needle, from);
    let first = text::find_text(s, needle, from)->Some_0;
    if at < first + needle.len() {
        0
    } else {
        let k = lemma_starts_cover(s, needle, first + needle.len(), at);
        assert(text::match_starts(s, needle, from)[k + 1] == text::match_starts(
            s,
            needle,
            first + needle.len(),
        )[k]);
        k + 1
    }
}

/// An edit whose text stands in the content just once puts its replacement
/// there, and leaves what is before and behind it.
pub proof fn single_passages_are_replaced(
    before: Seq<char>,
    old_text: Seq<char>,
    behind: Seq<char>,
    new_text: Seq<char>,
    replace_all: bool,
    index: int,
    choice: Option<int>,
)
    requires
        old_text.len() > 0,
        old_text != new_text,
        forall|at: int| #[trigger]
            text::occurs_at(before + old_text + behind, old_text, at) ==> at == before.len(),
    ensures
        edit_outcome(before + old_text + behind, old_text, new_text, replace_all, index, choice)
            == Ok::<_, errors::CallFault>(before + new_text + behind),
{
    let content = before + old_text + behind;
    let at = before.len() as int;
    assert(content.subrange(at, at + old_text.len()) =~= old_text);
    assert(text::occurs_at(content, old_text, at));
    exact_passages_come_first(content, old_text, choice);
    let found = candidates(content, old_text, choice);
    lemma_match_starts(content, old_text, 0);
    let starts = text::match_starts(content, old_text, 0);
    assert forall|k: int| 0 <= k < starts.len() implies #[trigger] starts[k] == at by {
        lemma_starts_occur(content, old_text, 0, k);
    }
    if starts.len() > 1 {
        assert(starts[0] + old_text.len() <= starts[1]);
    }
    assert(found.spans =~= seq![(at, at + old_text.len())]);
    separate_passages_are_replaced_in_place(content, found, old_text, new_text);
    assert(found.spans.drop_last() =~= Seq::<(int, int)>::empty());
    assert(found.spans.last() == (at, at + old_text.len()));
    let none = CandidatesView { strategy: found.strategy, spans: found.spans.drop_last() };
    assert(woven(content, none, old_text, new_text, 0, at) == content.subrange(0, at));
    assert(content.subrange(0, at) =~= before);
    assert(content.subrange(at + old_text.len(), content.len() as int) =~= behind);
}

/// Whether the lines of the content from line `w` on are those of a text, up to
/// white space at their ends.
pub open spec fn lines_agree(content: Seq<char>, old_text: Seq<char>, w: int) -> bool {
    let here = text::plain_lines(content);
    let wanted = text::plain_lines(old_text);
    &&& 0 < wanted.len()
    &&& 0 <= w
    &&& w + wanted.len() <= here.len()
    &&& forall|k: int|
        0 <= k < wanted.len() ==> text::trimmed(#[trigger] here[w + k]) == text::trimmed(wanted[k])
}

/// The passage of as many lines as a text has, from line `w` on: with the
/// newline behind it where the text ends with one.
pub open spec fn passage_from(content: Seq<char>, old_text: Seq<char>, w: int) -> (int, int) {
    let spans = text::line_spans(content, 0);
    let end = spans[w + text::plain_lines(old_text).len() - 1].1;
    (
        spans[w].0,
        if old_text.last() == '\n' && end < content.len() {
            end + 1
        } else {
            end
        },
    )
}

proof fn lemma_passage_from(content: Seq<char>, old_text: Seq<char>, w: int)
    requires
        old_text.len() > 0,
        0 < text::plain_lines(old_text).len(),
        0 <= w,
        w + text::plain_lines(old_text).len() <= text::line_spans(content, 0).len(),
    ensures
        passage_from(content, old_text, w) == window_span(
            content,
            w,
            text::plain_lines(old_text).len() as int,
            ends_with_newline(old_text),
        ),
{
    let n = text::plain_lines(old_text).len() as int;
    lemma_line_ends(content, 0, w + n - 1);
}

proof fn lemma_line_ends(s: Seq<char>, from: int, i: int)
    requires
        0 <= from,
        0 <= i < text::line_spans(s, from).len(),
    ensures
        text::line_spans(s, from)[i].1 <= s.len(),
        text::line_spans(s, from)[i].1 < s.len() ==> s[text::line_spans(s, from)[i].1] == '\n',
    decreases s.len() + 1 - from,
{
    if from <= s.len() {
        text::lemma_find_char(s, '\n', from);
    }
    let end = text::find_char(s, '\n', from);
    if i > 0 {
        lemma_line_ends(s, end + 1, i - 1);
        assert(text::line_spans(s, from)[i] == text::line_spans(s, end + 1)[i - 1]);
    }
}

proof fn lemma_windows_complete(
    strategy: MatchStrategy,
    content: Seq<char>,
    old_text: Seq<char>,
    from: int,
    w: int,
)
    requires
        0 <= from <= w,
        least_window(strategy) <= text::plain_lines(old_text).len(),
        w + text::plain_lines(old_text).len() <= text::line_spans(content, 0).len(),
        window_matches(strategy, content, old_text, w),
    ensures
        matching_windows(strategy, content, old_text, from).contains(w),
    decreases w - from,
{
    let starts = matching_windows(strategy, content, old_text, from);
    if from == w {
        assert(starts[0] == w);
    } else {
        lemma_windows_complete(strategy, content, old_text, from + 1, w);
        let rest = matching_windows(strategy, content, old_text, from + 1);
        let k = choose|k: int| 0 <= k < rest.len() && rest[k] == w;
        if window_matches(strategy, content, old_text, from) {
            assert(starts[k + 1] == w);
        } else {
            assert(starts[k] == w);
        }
    }
}

proof fn lemma_windows_sound(
    strategy: MatchStrategy,
    content: Seq<char>,
    old_text: Seq<char>,
    from: int,
    i: int,
)
    requires
        0 <= from,
        0 <= i < matching_windows(strategy, content, old_text, from).len(),
    ensures
        window_matches(
            strategy,
            content,
            old_text,
            matching_windows(strategy, content, old_text, from)[i],
        ),
        least_window(strategy) <= text::plain_lines(old_text).len(),
    decreases text::line_spans(content, 0).len() - from,
{
    let starts = matching_windows(strategy, content, old_text, from);
    let rest = matching_windows(strategy, content, old_text, from + 1);
    if window_matches(strategy, content, old_text, from) {
        if i > 0 {
            lemma_windows_sound(strategy, content, old_text, from + 1, i - 1);
            assert(starts[i] == rest[i - 1]);
        }
    } else {
        lemma_windows_sound(strategy, content, old_text, from + 1, i);
        assert(starts[i] == rest[i]);
    }
}

proof fn lemma_lines_agree(content: Seq<char>, old_text: Seq<char>, w: int)
    requires
        0 < text::plain_lines(old_text).len(),
        0 <= w,
        w + text::plain_lines(old_text).len() <= text::line_spans(content, 0).len(),
    ensures
        lines_agree(content, old_text, w) == window_matches(
            MatchStrategy::LineTrimmed,
            content,
            old_text,
            w,
        ),
{
    let here = text::plain_lines(content);
    let wanted = text::plain_lines(old_text);
    assert forall|k: int| 0 <= k < wanted.len() implies #[trigger] here[w + k] == line_at(
        content,
        w + k,
    ) by {}
    if window_matches(MatchStrategy::LineTrimmed, content, old_text, w) {
        assert forall|k: int| 0 <= k < wanted.len() implies text::trimmed(#[trigger] here[w + k])
            == text::trimmed(wanted[k]) by {
            assert(here[w + k] == line_at(content, w + k));
        }
    }
    if lines_agree(content, old_text, w) {
        assert forall|k: int| 0 <= k < wanted.len() implies text::trimmed(
            #[trigger] line_at(content, w + k),
        ) == text::trimmed(wanted[k]) by {
            assert(here[w + k] == line_at(content, w + k));
        }
    }
}

/// A text that does not stand in the content as it is, but does line by line up
/// to white space at the ends of the lines, is found so: just those passages
/// whose lines agree.
pub proof fn lines_are_found_up_to_their_ends(
    content: Seq<char>,
    old_text: Seq<char>,
    choice: Option<int>,
    w: int,
)
    requires
        old_text.len() > 0,
        !text::holds_text(content, old_text),
        lines_agree(content, old_text, w),
    ensures
        ({
            let found = candidates(content, old_text, choice);
            &&& found.strategy is LineTrimmed
            &&& found.spans.contains(passage_from(content, old_text, w))
            &&& forall|k: int|
                0 <= k < found.spans.len() ==> exists|v: int| #[trigger]
                    lines_agree(content, old_text, v) && #[trigger] found.spans[k]
                        == passage_from(content, old_text, v)
        }),
{
    let strategy = MatchStrategy::LineTrimmed;
    let n = text::plain_lines(old_text).len() as int;
    lemma_no_exact_spans(content, old_text);
    assert(text::plain_lines(content).len() == text::line_spans(content, 0).len());
    lemma_lines_agree(content, old_text, w);
    lemma_windows_complete(strategy, content, old_text, 0, w);
    lemma_passage_from(content, old_text, w);
    lemma_matching_windows(strategy, content, old_text, 0);
    let starts = matching_windows(strategy, content, old_text, 0);
    let found = candidates(content, old_text, choice);
    let trimmed = window_spans(strategy, content, old_text);
    let i = choose|i: int| 0 <= i < starts.len() && starts[i] == w;
    assert(trimmed[i] == passage_from(content, old_text, w));
    assert(found.spans == trimmed);
    assert forall|k: int| 0 <= k < found.spans.len() implies exists|v: int| #[trigger]
        lines_agree(content, old_text, v) && #[trigger] found.spans[k] == passage_from(
        content,
        old_text,
        v,
    ) by {
        lemma_windows_sound(strategy, content, old_text, 0, k);
        lemma_lines_agree(content, old_text, starts[k]);
        lemma_passage_from(content, old_text, starts[k]);
        assert(lines_agree(content, old_text, starts[k]));
    }
}

/// A text that is not found line by line, but one line of the content, or as
/// many lines as the text has, holds the same words, is found there.
pub proof fn words_are_found_whatever_is_between_them(
    content: Seq<char>,
    old_text: Seq<char>,
    choice: Option<int>,
    w: int,
)
    requires
        old_text.len() > 0,
        !text::holds_text(content, old_text),
        forall|v: int| !#[trigger] lines_agree(content, old_text, v),
        text::words_of(old_text).len() > 0,
        0 <= w < text::plain_lines(content).len(),
    ensures
        ({
            let found = candidates(content, old_text, choice);
            let spans = text::line_spans(content, 0);
            let n = text::plain_lines(old_text).len();
            &&& text::words_of(text::plain_lines(content)[w]) == text::words_of(old_text)
                ==> found.strategy is WhitespaceNormalized && found.spans.contains(spans[w])
            &&& n > 1 && w + n <= spans.len() && text::words_of(
                content.subrange(spans[w].0, spans[w + n - 1].1),
            ) == text::words_of(old_text) ==> found.strategy is WhitespaceNormalized
                && found.spans.contains(passage_from(content, old_text, w))
        }),
{
    let strategy = MatchStrategy::LineTrimmed;
    let n = text::plain_lines(old_text).len() as int;
    lemma_no_exact_spans(content, old_text);
    let starts = matching_windows(strategy, content, old_text, 0);
    lemma_matching_windows(strategy, content, old_text, 0);
    if starts.len() > 0 {
        lemma_windows_sound(strategy, content, old_text, 0, 0);
        lemma_lines_agree(content, old_text, starts[0]);
    }
    lemma_words_show(old_text);
    assert(text::plain_lines(content)[w] == line_at(content, w));
    lemma_normalized_spans_hold(content, old_text, 0, w);
    if n > 1 && w + n <= text::line_spans(content, 0).len() {
        lemma_passage_from(content, old_text, w);
    }
}

proof fn lemma_words_show(s: Seq<char>)
    requires
        text::words_of(s).len() > 0,
    ensures
        normalized(s).len() > 0,
{
    lemma_words_are_long(s, 0);
    let words = text::words_of(s);
    lemma_joined_is_long(words, seq![' ']);
}

proof fn lemma_words_are_long(s: Seq<char>, from: int)
    requires
        0 <= from <= s.len(),
    ensures
        forall|i: int|
            0 <= i < text::words_from(s, from).len() ==> (#[trigger] text::words_from(
                s,
                from,
            )[i]).len() > 0,
    decreases s.len() - from,
{
    text::lemma_skip_white(s, from);
    let start = text::skip_white(s, from);
    text::lemma_find_white(s, start);
    let end = text::find_white(s, start);
    if start < end {
        lemma_words_are_long(s, end);
        let words = text::words_from(s, from);
        let rest = text::words_from(s, end);
        assert forall|i: int| 0 <= i < words.len() implies (#[trigger] words[i]).len() > 0 by {
            if i > 0 && i - 1 < rest.len() {
                assert(words[i] == rest[i - 1]);
            }
        }
    }
}

proof fn lemma_joined_is_long(parts: Seq<Seq<char>>, sep: Seq<char>)
    requires
        parts.len() > 0,
        forall|i: int| 0 <= i < parts.len() ==> (#[trigger] parts[i]).len() > 0,
    ensures
        text::joined(parts, sep).len() > 0,
{
    assert(parts[parts.len() - 1].len() > 0);
}

proof fn lemma_normalized_spans_hold(content: Seq<char>, old_text: Seq<char>, from: int, w: int)
    requires
        0 <= from <= w < text::line_spans(content, 0).len(),
        normalized(old_text).len() > 0,
    ensures
        ({
            let spans = text::line_spans(content, 0);
            let n = text::plain_lines(old_text).len() as int;
            let all = normalized_spans(content, old_text, from);
            &&& normalized(line_at(content, w)) == normalized(old_text) ==> all.contains(spans[w])
            &&& n > 1 && w + n <= spans.len() && normalized(block_at(content, w, n))
                == normalized(old_text) ==> all.contains(
                window_span(content, w, n, ends_with_newline(old_text)),
            )
        }),
    decreases w - from,
{
    let spans = text::line_spans(content, 0);
    let n = text::plain_lines(old_text).len() as int;
    let all = normalized_spans(content, old_text, from);
    let rest = normalized_spans(content, old_text, from + 1);
    let own = (if normalized(line_at(content, from)) == normalized(old_text) {
        seq![spans[from]]
    } else {
        seq![]
    });
    let block = (if n > 1 && from + n <= spans.len() && window_matches(
        MatchStrategy::WhitespaceNormalized,
        content,
        old_text,
        from,
    ) {
        seq![window_span(content, from, n, ends_with_newline(old_text))]
    } else {
        seq![]
    });
    assert(all == own + block + rest);
    if from < w {
        lemma_normalized_spans_hold(content, old_text, from + 1, w);
        assert forall|x: (int, int)| rest.contains(x) implies all.contains(x) by {
            let k = choose|k: int| 0 <= k < rest.len() && rest[k] == x;
            assert(all[own.len() + block.len() + k] == x);
        }
    } else {
        if own.len() > 0 {
            assert(all[0] == spans[w]);
        }
        if block.len() > 0 {
            assert(all[own.len() as int] == block[0]);
        }
    }
}

/// What an edit is refused for, and how: each fault names the edit by its
/// number, which counts from one.
pub proof fn edits_are_refused_for_a_reason(
    content: Seq<char>,
    old_text: Seq<char>,
    new_text: Seq<char>,
    replace_all: bool,
    index: nat,
    choice: Option<int>,
)
    ensures
        ({
            let outcome = edit_outcome(
                content,
                old_text,
                new_text,
                replace_all,
                index as int,
                choice,
            );
            let spans = candidates(content, old_text, choice).spans;
            let told = |why: Seq<char>|
                Err::<Seq<char>, _>(
                    errors::CallFault::RespondToModel(
                        "edit "@ + text::decimal(index + 1) + why,
                    ),
                );
            &&& old_text.len() == 0 ==> outcome == told(
                " has empty old_text; use write_file to create or rewrite files"@,
            )
            &&& old_text.len() > 0 && old_text == new_text ==> outcome == told(
                " would not change the file"@,
            )
            &&& old_text.len() > 0 && old_text != new_text && spans.len() == 0 ==> outcome == told(
                " old_text was not found in the file"@,
            )
            &&& old_text.len() > 0 && old_text != new_text && spans.len() > 1 && !replace_all
                ==> outcome == told(
                " old_text matched multiple locations; provide more context or set replace_all"@,
            )
            &&& old_text.len() > 0 && old_text != new_text && may_replace(spans, replace_all)
                ==> outcome is Ok
        }),
{
    let spans = candidates(content, old_text, choice).spans;
    if old_text.len() > 0 && old_text != new_text && may_replace(spans, replace_all) {
        lemma_spans_in_bounds(content, old_text, choice);
        separate_passages_are_replaced_in_place(
            content,
            candidates(content, old_text, choice),
            old_text,
            new_text,
        );
    }
}

/// Edits are made one after the other: what the earlier ones made of the
/// content is what the next one works on, and no edits change nothing.
pub proof fn edits_build_on_each_other(
    content: Seq<char>,
    edits: Seq<EditOperation>,
    choices: Seq<Option<usize>>,
    count: int,
    current: Seq<char>,
)
    requires
        0 <= count < edits.len(),
        count < choices.len(),
        edits_outcome(content, edits, choices, count) == Ok::<_, errors::CallFault>(current),
    ensures
        edits_outcome(content, edits, choices, 0) == Ok::<_, errors::CallFault>(content),
        edits_outcome(content, edits, choices, count + 1) == edit_outcome(
            current,
            edits[count].old_text@,
            edits[count].new_text@,
            edits[count].replace_all,
            count,
            opt_int(choices[count]),
        ),
{
}


/// A line as it stands once its text has moved from the indentation `old` to
/// the indentation `new`: `new` in place of `old` where the line begins with
/// it, and otherwise as many leading characters more, or fewer, as they differ.
pub open spec fn moved_line(line: Seq<char>, old: Seq<char>, new: Seq<char>) -> Seq<char> {
    let white = line.len() - text::trimmed_start(line).len();
    let less = old.len() - new.len();
    if text::is_blank(line) {
        line
    } else if text::begins(line, old) {
        new + line.skip(old.len() as int)
    } else if less <= 0 {
        Seq::new((-less) as nat, |i: int| ' ') + line
    } else {
        line.skip(
            if less <= white {
                less
            } else {
                white
            },
        )
    }
}

/// A text all of whose lines have moved from one indentation to another.
pub open spec fn moved_lines(value: Seq<char>, old: Seq<char>, new: Seq<char>) -> Seq<char> {
    let lines = text::split_at(value, '\n');
    text::joined(Seq::new(lines.len(), |i: int| moved_line(lines[i], old, new)), seq!['\n'])
}

proof fn lemma_moved_line(line: Seq<char>, old: Seq<char>, new: Seq<char>)
    ensures
        moved_line(line, old, new) == reindented_line(line, old, new),
        old == new ==> moved_line(line, old, new) == line,
{
    text::lemma_skip_white(line, 0);
    let less = old.len() - new.len();
    if !text::is_blank(line) {
        if text::begins(line, old) {
            if old == new {
                assert(line.subrange(0, old.len() as int) =~= old);
                assert(new + line.skip(old.len() as int) =~= line);
            }
        } else if less <= 0 {
            assert(Seq::new((-less) as nat, |i: int| ' ') + line =~= Seq::new(
                (new.len() - old.len()) as nat,
                |i: int| ' ',
            ) + line);
            if less == 0 {
                assert(Seq::new(0nat, |i: int| ' ') + line =~= line);
                assert(Seq::new((-less) as nat, |i: int| ' ') + line =~= line);
            }
        }
    }
}

proof fn lemma_moved_lines(matched: Seq<char>, old_text: Seq<char>, new_text: Seq<char>)
    ensures
        reindented(matched, old_text, new_text) == moved_lines(
            new_text,
            shared_indent(old_text),
            shared_indent(matched),
        ),
{
    let old = shared_indent(old_text);
    let new = shared_indent(matched);
    let all = text::split_at(new_text, '\n');
    text::lemma_split_joins(new_text, '\n', 0);
    assert(new_text.skip(0) =~= new_text);
    let moved = Seq::new(all.len(), |i: int| moved_line(all[i], old, new));
    assert forall|i: int| 0 <= i < all.len() implies #[trigger] moved[i] == reindented_line(
        all[i],
        old,
        new,
    ) && (old == new ==> moved[i] == all[i]) by {
        lemma_moved_line(all[i], old, new);
    }
    let lines = replacement_lines(new_text);
    let adjusted = Seq::new(lines.len(), |i: int| reindented_line(lines[i], old, new));
    if old == new {
        assert(moved =~= all);
    } else if ends_with_newline(new_text) {
        assert(moved.drop_last() =~= adjusted);
        assert(moved.last() == all.last());
        let body = text::joined(adjusted, seq!['\n']);
        assert(body + seq!['\n'] + Seq::<char>::empty() =~= body.push('\n'));
    } else {
        assert(moved =~= adjusted);
    }
}

/// Whatever indentation the lines of a replacement have, an edit whose text was
/// found leniently moves each of them from the indentation of the text asked
/// for to that of the passage, and leaves all else in the content as it was.
pub proof fn lenient_edits_move_their_lines(
    content: Seq<char>,
    old_text: Seq<char>,
    new_text: Seq<char>,
    replace_all: bool,
    index: int,
    choice: Option<int>,
)
    requires
        old_text.len() > 0,
        old_text != new_text,
        !text::holds_text(content, old_text),
        may_replace(candidates(content, old_text, choice).spans, replace_all),
    ensures
        ({
            let spans = candidates(content, old_text, choice).spans;
            edit_outcome(content, old_text, new_text, replace_all, index, choice) == Ok::<
                _,
                errors::CallFault,
            >(
                interleaved(
                    content,
                    spans,
                    Seq::new(
                        spans.len(),
                        |k: int|
                            moved_lines(
                                new_text,
                                shared_indent(old_text),
                                shared_indent(content.subrange(spans[k].0, spans[k].1)),
                            ),
                    ),
                    0,
                    content.len() as int,
                ),
            )
        }),
{
    let found = candidates(content, old_text, choice);
    let spans = found.spans;
    let old = shared_indent(old_text);
    let pieces = Seq::new(
        spans.len(),
        |k: int|
            moved_lines(new_text, old, shared_indent(content.subrange(spans[k].0, spans[k].1))),
    );
    lemma_no_exact_spans(content, old_text);
    lemma_spans_in_bounds(content, old_text, choice);
    assert forall|k: int| 0 <= k < spans.len() implies #[trigger] pieces[k] == replacement(
        found.strategy,
        content.subrange(spans[k].0, spans[k].1),
        old_text,
        new_text,
    ) by {
        let matched = content.subrange(spans[k].0, spans[k].1);
        lemma_moved_lines(matched, old_text, new_text);
        if new_text.len() == 0 {
            let all = text::split_at(new_text, '\n');
            assert(text::find_char(new_text, '\n', 0) == 0);
            assert(all =~= seq![new_text.subrange(0, 0)]);
            assert(new_text.subrange(0, 0) =~= new_text);
            lemma_blank_moves(all, old, shared_indent(matched));
        }
    }
    separate_passages_are_replaced_in_place(content, found, old_text, new_text);
    lemma_woven_is_interleaved(
        content,
        found,
        old_text,
        new_text,
        pieces,
        0,
        content.len() as int,
    );
}

proof fn lemma_blank_moves(lines: Seq<Seq<char>>, old: Seq<char>, new: Seq<char>)
    requires
        lines.len() == 1,
        lines[0].len() == 0,
    ensures
        text::joined(Seq::new(lines.len(), |i: int| moved_line(lines[i], old, new)), seq!['\n'])
            == lines[0],
{
    let moved = Seq::new(lines.len(), |i: int| moved_line(lines[i], old, new));
    text::lemma_skip_white(lines[0], 0);
    assert(text::is_blank(lines[0]));
    assert(moved =~= seq![lines[0]]);
    assert(text::joined(moved, seq!['\n']) =~= lines[0]);
}

/// A text without the newline at its end, where it has one.
pub open spec fn without_last_newline(value: Seq<char>) -> Seq<char> {
    if value.len() > 0 && value.last() == '\n' {
        value.drop_last()
    } else {
        value
    }
}

/// A text that is found neither as it is, nor line by line, nor by its words,
/// is found where as many lines as it has differ from it only by the
/// indentation that they share, there alone, and before any search by its first
/// and last line.
pub proof fn passages_are_found_at_any_indentation(
    content: Seq<char>,
    old_text: Seq<char>,
    choice: Option<int>,
    w: int,
)
    requires
        old_text.len() > 0,
        candidates(content, old_text, choice).strategy is IndentationFlexible || candidates(
            content,
            old_text,
            choice,
        ).strategy is ContextAnchor,
        0 < text::plain_lines(old_text).len(),
        0 <= w,
        w + text::plain_lines(old_text).len() <= text::line_spans(content, 0).len(),
    ensures
        ({
            let found = candidates(content, old_text, choice);
            let spans = text::line_spans(content, 0);
            let n = text::plain_lines(old_text).len();
            (dedented(content.subrange(spans[w].0, spans[w + n - 1].1)) == dedented(
                without_last_newline(old_text),
            )) == (found.strategy is IndentationFlexible && found.spans.contains(
                passage_from(content, old_text, w),
            ))
        }),
{
    let strategy = MatchStrategy::IndentationFlexible;
    let n = text::plain_lines(old_text).len() as int;
    let found = candidates(content, old_text, choice);
    let starts = matching_windows(strategy, content, old_text, 0);
    lemma_matching_windows(strategy, content, old_text, 0);
    lemma_passage_from(content, old_text, w);
    if window_matches(strategy, content, old_text, w) {
        lemma_windows_complete(strategy, content, old_text, 0, w);
        let k = choose|k: int| 0 <= k < starts.len() && starts[k] == w;
        assert(window_spans(strategy, content, old_text)[k] == passage_from(content, old_text, w));
    }
    if found.strategy is IndentationFlexible && found.spans.contains(
        passage_from(content, old_text, w),
    ) {
        let k = choose|k: int|
            0 <= k < found.spans.len() && found.spans[k] == passage_from(content, old_text, w);
        lemma_windows_sound(strategy, content, old_text, 0, k);
        text::lemma_line_spans(content, 0);
        lemma_line_starts(content, 0, starts[k], w);
    }
}

proof fn lemma_line_starts(s: Seq<char>, from: int, i: int, j: int)
    requires
        0 <= from,
        0 <= i < text::line_spans(s, from).len(),
        0 <= j < text::line_spans(s, from).len(),
    ensures
        from <= text::line_spans(s, from)[i].0,
        text::line_spans(s, from)[i].0 == text::line_spans(s, from)[j].0 ==> i == j,
    decreases s.len() + 1 - from,
{
    if from <= s.len() {
        text::lemma_find_char(s, '\n', from);
    }
    let end = text::find_char(s, '\n', from);
    let all = text::line_spans(s, from);
    let rest = text::line_spans(s, end + 1);
    if i > 0 {
        assert(all[i] == rest[i - 1]);
        lemma_line_starts(s, end + 1, i - 1, i - 1);
    }
    if j > 0 {
        assert(all[j] == rest[j - 1]);
        lemma_line_starts(s, end + 1, j - 1, j - 1);
    }
    if i > 0 && j > 0 {
        lemma_line_starts(s, end + 1, i - 1, j - 1);
    }
}

/// A text of three lines or more is framed by a passage of as many lines whose
/// first and last line agree with its own, up to white space at their ends.
pub open spec fn frames(content: Seq<char>, old_text: Seq<char>, w: int) -> bool {
    let here = text::plain_lines(content);
    let wanted = text::plain_lines(old_text);
    &&& 3 <= wanted.len()
    &&& 0 <= w
    &&& w + wanted.len() <= here.len()
    &&& text::trimmed(here[w]) == text::trimmed(wanted.first())
    &&& text::trimmed(here[w + wanted.len() - 1]) == text::trimmed(wanted.last())
}

/// A text that is found in no other way is found in at most one place: in one
/// that frames it, and in none unless one was chosen. Every place that frames
/// it can be chosen.
pub proof fn framed_passages_can_be_chosen(
    content: Seq<char>,
    old_text: Seq<char>,
    choice: Option<int>,
    w: int,
)
    requires
        old_text.len() > 0,
        candidates(content, old_text, choice).strategy is ContextAnchor,
    ensures
        candidates(content, old_text, None).spans.len() == 0,
        candidates(content, old_text, choice).spans.len() <= 1,
        forall|k: int|
            0 <= k < candidates(content, old_text, choice).spans.len() ==> exists|v: int|
                #[trigger] frames(content, old_text, v) && passage_from(content, old_text, v)
                    == #[trigger] candidates(content, old_text, choice).spans[k],
        frames(content, old_text, w) ==> exists|k: int|
            (#[trigger] candidates(content, old_text, Some(k))).spans == seq![
                passage_from(content, old_text, w),
            ],
{
    let strategy = MatchStrategy::ContextAnchor;
    let n = text::plain_lines(old_text).len() as int;
    let found = candidates(content, old_text, choice);
    let starts = matching_windows(strategy, content, old_text, 0);
    lemma_matching_windows(strategy, content, old_text, 0);
    assert forall|k: int| 0 <= k < found.spans.len() implies exists|v: int|
        #[trigger] frames(content, old_text, v) && passage_from(content, old_text, v)
            == #[trigger] found.spans[k] by {
        let c = choice.unwrap();
        lemma_windows_sound(strategy, content, old_text, 0, c);
        lemma_passage_from(content, old_text, starts[c]);
        assert(text::plain_lines(content)[starts[c]] == line_at(content, starts[c]));
        assert(text::plain_lines(content)[starts[c] + n - 1] == line_at(
            content,
            starts[c] + n - 1,
        ));
        assert(frames(content, old_text, starts[c]));
    }
    if frames(content, old_text, w) {
        assert(text::plain_lines(content)[w] == line_at(content, w));
        assert(text::plain_lines(content)[w + n - 1] == line_at(content, w + n - 1));
        lemma_windows_complete(strategy, content, old_text, 0, w);
        lemma_passage_from(content, old_text, w);
        let k = choose|k: int| 0 <= k < starts.len() && starts[k] == w;
        assert(candidates(content, old_text, Some(k)).spans =~= seq![
            passage_from(content, old_text, w),
        ]);
    }
}

/// What is found by its words holds the words of the text asked for, and no
/// others.
pub proof fn passages_found_by_words_hold_the_words(
    content: Seq<char>,
    old_text: Seq<char>,
    choice: Option<int>,
    k: int,
)
    requires
        candidates(content, old_text, choice).strategy is WhitespaceNormalized,
        0 <= k < candidates(content, old_text, choice).spans.len(),
    ensures
        ({
            let (i, j) = candidates(content, old_text, choice).spans[k];
            normalized(content.subrange(i, j)) == normalized(old_text) || (j > i && content[j - 1]
                == '\n' && normalized(content.subrange(i, j - 1)) == normalized(old_text))
        }),
{
    lemma_word_spans_sound(content, old_text, 0, k);
}

proof fn lemma_word_spans_sound(content: Seq<char>, old_text: Seq<char>, from: int, k: int)
    requires
        0 <= from,
        0 <= k < normalized_spans(content, old_text, from).len(),
    ensures
        ({
            let (i, j) = normalized_spans(content, old_text, from)[k];
            normalized(content.subrange(i, j)) == normalized(old_text) || (j > i && content[j - 1]
                == '\n' && normalized(content.subrange(i, j - 1)) == normalized(old_text))
        }),
    decreases text::line_spans(content, 0).len() - from,
{
    let spans = text::line_spans(content, 0);
    let n = text::plain_lines(old_text).len() as int;
    let all = normalized_spans(content, old_text, from);
    let rest = normalized_spans(content, old_text, from + 1);
    text::lemma_line_spans(content, 0);
    let own = (if normalized(line_at(content, from)) == normalized(old_text) {
        seq![spans[from]]
    } else {
        seq![]
    });
    let block = (if n > 1 && from + n <= spans.len() && window_matches(
        MatchStrategy::WhitespaceNormalized,
        content,
        old_text,
        from,
    ) {
        seq![window_span(content, from, n, ends_with_newline(old_text))]
    } else {
        seq![]
    });
    assert(all =~= own + block + rest);
    if k < own.len() {
        assert(all[k] == spans[from]);
    } else if k < own.len() + block.len() {
        assert(all[k] == window_span(content, from, n, ends_with_newline(old_text)));
        assert(spans[from].0 <= spans[from + n - 1].1);
    } else {
        lemma_word_spans_sound(content, old_text, from + 1, k - own.len() - block.len());
        assert(all[k] == rest[k - own.len() - block.len()]);
    }
}

/// The distance of two texts counts single characters put in, taken out or
/// exchanged: one more character at the end of one text changes it by at most
/// one, the same character at the end of both not at all, and different ones
/// cost one step more than the cheapest of leaving out either or both.
pub proof fn distance_counts_steps(a: Seq<char>, b: Seq<char>, x: char, y: char)
    ensures
        distance(a, Seq::empty()) == a.len(),
        distance(a.push(x), b) <= distance(a, b) + 1,
        distance(a, b) <= distance(a.push(x), b) + 1,
        distance(a.push(x), b.push(x)) == distance(a, b),
        x != y ==> {
            let both = distance(a.push(x), b.push(y));
            &&& both <= distance(a, b) + 1
            &&& both <= distance(a.push(x), b) + 1
            &&& both <= distance(a, b.push(y)) + 1
            &&& both == distance(a, b) + 1 || both == distance(a.push(x), b) + 1 || both
                == distance(a, b.push(y)) + 1
        },
{
    lemma_one_step(a, b, x);
    lemma_one_step(b, a, x);
    distance_is_symmetric(a, b);
    distance_is_symmetric(b.push(x), a);
    assert(a.push(x).drop_last() =~= a);
    assert(b.push(x).drop_last() =~= b);
    assert(b.push(y).drop_last() =~= b);
    assert(distance(a.push(x), b.push(x)) == distance(a, b));
}

proof fn lemma_one_step(a: Seq<char>, b: Seq<char>, x: char)
    ensures
        distance(a.push(x), b) <= distance(a, b) + 1,
        distance(a, b) <= distance(a.push(x), b) + 1,
    decreases b.len(),
{
    assert(a.push(x).drop_last() =~= a);
    if b.len() > 0 {
        let c = b.drop_last();
        lemma_one_step(a, c, x);
        assert(distance(a, b) <= distance(a, c) + 1) by {
            if a.len() > 0 {
            }
        }
    }
}

/// Two lines compare by what is left of them without white space at their ends:
/// the distance is none where that is equal and never more than the longest,
/// which is the greater of the two lengths in bytes; it does not matter which
/// line is which.
pub proof fn scores_compare_what_lines_say(found: Seq<char>, wanted: Seq<char>)
    ensures
        ({
            let (steps, longest) = line_score(found, wanted);
            &&& (steps == 0) == (text::trimmed(found) == text::trimmed(wanted))
            &&& steps <= longest
            &&& longest >= text::utf8_len(text::trimmed(found))
            &&& longest >= text::utf8_len(text::trimmed(wanted))
            &&& longest == text::utf8_len(text::trimmed(found)) || longest == text::utf8_len(
                text::trimmed(wanted),
            )
            &&& line_score(wanted, found) == line_score(found, wanted)
        }),
{
    let a = text::trimmed(found);
    let b = text::trimmed(wanted);
    distance_is_bounded(a, b);
    distance_is_symmetric(a, b);
    distance_separates(a, b);
    lemma_bytes_of(a);
    lemma_bytes_of(b);
    if a.len() == 0 && b.len() == 0 {
        assert(a =~= b);
    }
}

proof fn lemma_bytes_of(s: Seq<char>)
    ensures
        s.len() <= text::utf8_len(s),
        s.len() == 0 ==> text::utf8_len(s) == 0,
    decreases s.len(),
{
    if s.len() > 0 {
        lemma_bytes_of(s.drop_last());
    }
}

/// The lines between the first and the last of a framed text are compared each
/// with the line at the same place of the passage.
pub proof fn scores_are_of_the_lines_between(
    content: Seq<char>,
    old_text: Seq<char>,
    w: int,
    k: int,
)
    requires
        frames(content, old_text, w),
        0 < k < text::plain_lines(old_text).len() - 1,
    ensures
        window_scores(content, old_text, w).len() + 2 == text::plain_lines(old_text).len(),
        window_scores(content, old_text, w)[k - 1] == line_score(
            text::plain_lines(content)[w + k],
            text::plain_lines(old_text)[k],
        ),
{
    assert(text::plain_lines(content)[w + k] == line_at(content, w + k));
}

} // verus!
