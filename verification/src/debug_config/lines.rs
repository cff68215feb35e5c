//! Lines of a report, each in one style.

use vstd::prelude::*;

use crate::text;

verus! {

/// How a line is shown.
#[derive(Clone, Copy, Debug, PartialEq, Eq, Structural)]
pub enum LineStyle {
    Plain,
    Bold,
    Dim,
    Magenta,
}

/// A line of a report.
#[derive(Clone, Debug, PartialEq, Eq)]
pub struct StyledLine {
    pub text: String,
    pub style: LineStyle,
}

/// What a [`StyledLine`] stands for.
#[verifier::ext_equal]
pub ghost struct LineView {
    pub text: Seq<char>,
    pub style: LineStyle,
}

impl View for StyledLine {
    type V = LineView;

    open spec fn view(&self) -> LineView {
        LineView { text: self.text@, style: self.style }
    }
}

/// The views of lines.
pub open spec fn line_views(lines: Seq<StyledLine>) -> Seq<LineView> {
    Seq::new(lines.len(), |i: int| lines[i]@)
}

/// A plain line.
pub open spec fn plain(text: Seq<char>) -> LineView {
    LineView { text, style: LineStyle::Plain }
}

/// A bold line.
pub open spec fn bold(text: Seq<char>) -> LineView {
    LineView { text, style: LineStyle::Bold }
}

/// A dim line.
pub open spec fn dim(text: Seq<char>) -> LineView {
    LineView { text, style: LineStyle::Dim }
}

/// Adds a line.
pub fn push_line(lines: &mut Vec<StyledLine>, text: String, style: LineStyle)
    ensures
        line_views(final(lines)@) == line_views(old(lines)@).push((LineView { text: text@, style })),
{
    let ghost before = line_views(lines@);
    let ghost shown = text@;
    lines.push(StyledLine { text, style });
    proof {
        assert(line_views(lines@) =~= before.push(LineView { text: shown, style }));
    }
}

/// Adds a plain line.
pub fn push_plain(lines: &mut Vec<StyledLine>, text: &str)
    ensures
        line_views(final(lines)@) == line_views(old(lines)@).push(plain(text@)),
{
    push_line(lines, text.to_string(), LineStyle::Plain);
}

/// Adds a dim line.
pub fn push_dim(lines: &mut Vec<StyledLine>, text: &str)
    ensures
        line_views(final(lines)@) == line_views(old(lines)@).push(dim(text@)),
{
    push_line(lines, text.to_string(), LineStyle::Dim);
}

/// Adds lines.
pub fn push_lines(lines: &mut Vec<StyledLine>, more: Vec<StyledLine>)
    ensures
        line_views(final(lines)@) == line_views(old(lines)@) + line_views(more@),
{
    let ghost before = line_views(lines@);
    let ghost added = line_views(more@);
    let mut more = more;
    lines.append(&mut more);
    proof {
        assert(line_views(lines@) =~= before + added);
    }
}

/// Two texts, one behind the other.
pub fn concat(a: &str, b: &str) -> (out: String)
    ensures
        out@ == a@ + b@,
{
    let mut out = a.to_string();
    out.append(b);
    out
}

/// Lines of a text behind an indent.
pub open spec fn indented_lines(lines: Seq<Seq<char>>, indent: Seq<char>) -> Seq<LineView> {
    Seq::new(lines.len(), |i: int| plain(indent + lines[i]))
}

/// A text behind an indent, line by line.
pub open spec fn text_block(indent: Seq<char>, s: Seq<char>) -> Seq<LineView> {
    if s.len() == 0 {
        seq![dim(indent + "<empty>"@)]
    } else {
        indented_lines(text::bare_lines(s), indent)
    }
}

/// Puts the lines of a text behind an indent.
pub fn indent_lines(s: &str, indent: &str) -> (out: Vec<StyledLine>)
    ensures
        line_views(out@) == indented_lines(text::bare_lines(s@), indent@),
{
    let rows = text::split_bare_lines(&text::chars_of(s));
    let ghost all = indented_lines(text::bare_lines(s@), indent@);
    let mut out: Vec<StyledLine> = Vec::new();
    let mut i: usize = 0;
    proof {
        assert(line_views(out@) =~= all.take(0));
    }
    while i < rows.len()
        invariant
            i <= rows@.len(),
            text::rows(rows@) == text::bare_lines(s@),
            all == indented_lines(text::bare_lines(s@), indent@),
            line_views(out@) == all.take(i as int),
        decreases rows@.len() - i,
    {
        let line = text::text_of(&rows[i]);
        push_line(&mut out, concat(indent, line.as_str()), LineStyle::Plain);
        proof {
            assert(text::rows(rows@)[i as int] == rows@[i as int]@);
            assert(all.take(i as int).push(all[i as int]) =~= all.take(i + 1));
        }
        i += 1;
    }
    proof {
        assert(text::rows(rows@).len() == rows@.len());
        assert(all.take(i as int) =~= all);
    }
    out
}

/// Puts a text behind an indent, line by line.
pub fn render_text_block(indent: &str, s: &str) -> (out: Vec<StyledLine>)
    ensures
        line_views(out@) == text_block(indent@, s@),
{
    if text::chars_of(s).len() == 0 {
        let mut out: Vec<StyledLine> = Vec::new();
        push_line(&mut out, concat(indent, "<empty>"), LineStyle::Dim);
        proof {
            assert(line_views(out@) =~= text_block(indent@, s@));
        }
        return out;
    }
    indent_lines(s, indent)
}

/// The values in one line, or a word that there are none.
pub open spec fn joined_or_empty(values: Seq<Seq<char>>) -> Seq<char> {
    if values.len() == 0 {
        "<empty>"@
    } else {
        text::joined(values, ", "@)
    }
}

/// Puts values in one line.
pub fn join_or_empty(values: &[String]) -> (out: String)
    ensures
        out@ == joined_or_empty(text::texts(values@)),
{
    if values.len() == 0 {
        "<empty>".to_string()
    } else {
        text::join_texts(values, ", ")
    }
}

/// A text is shown line by line behind its indentation, an empty one as empty,
/// and so is an empty list.
pub proof fn texts_are_shown_line_by_line(
    indent: Seq<char>,
    s: Seq<char>,
    values: Seq<Seq<char>>,
    i: int,
)
    ensures
        text_block(indent, Seq::empty()) == seq![
            (LineView { text: indent + "<empty>"@, style: LineStyle::Dim }),
        ],
        s.len() > 0 ==> text_block(indent, s).len() == text::bare_lines(s).len(),
        s.len() > 0 && 0 <= i < text::bare_lines(s).len() ==> text_block(indent, s)[i] == (
        LineView { text: indent + text::bare_lines(s)[i], style: LineStyle::Plain }),
        joined_or_empty(Seq::empty()) == "<empty>"@,
        values.len() > 0 ==> joined_or_empty(values) == text::joined(values, ", "@),
{
}

} // verus!
