//! Workspace settings: JSON with comments, variables for the workspace folder
//! and dotted keys.

use vstd::prelude::*;
use vstd::slice::slice_subrange;

use crate::json;
use crate::json::Json;
use crate::json_text;
use crate::lsp::providers;
use crate::paths;
use crate::text;

verus! {

// ---------------------------------------------------------------------------
// Comments and trailing commas.

/// Where a scanner stands in a text of JSON with comments.
pub enum Scan {
    Code,
    /// In a string; whether the next character is escaped.
    InString(bool),
    LineComment,
    /// In a block comment; whether the last character was a star.
    BlockComment(bool),
}

/// The scanner's place behind a character of a string.
pub open spec fn behind_string_char(c: char, escaped: bool) -> Scan {
    if escaped {
        Scan::InString(false)
    } else if c == '\\' {
        Scan::InString(true)
    } else if c == '"' {
        Scan::Code
    } else {
        Scan::InString(false)
    }
}

/// The text from position `i` on without comments, but with the newlines in
/// them.
pub open spec fn uncommented(s: Seq<char>, i: int, place: Scan) -> Seq<char>
    decreases s.len() - i,
{
    if i < 0 || i >= s.len() {
        seq![]
    } else {
        let c = s[i];
        match place {
            Scan::Code => if c == '/' && i + 1 < s.len() && s[i + 1] == '/' {
                uncommented(s, i + 2, Scan::LineComment)
            } else if c == '/' && i + 1 < s.len() && s[i + 1] == '*' {
                uncommented(s, i + 2, Scan::BlockComment(false))
            } else if c == '"' {
                seq![c] + uncommented(s, i + 1, Scan::InString(false))
            } else {
                seq![c] + uncommented(s, i + 1, Scan::Code)
            },
            Scan::InString(escaped) => seq![c] + uncommented(
                s,
                i + 1,
                behind_string_char(c, escaped),
            ),
            Scan::LineComment => if c == '\n' {
                seq![c] + uncommented(s, i + 1, Scan::Code)
            } else {
                uncommented(s, i + 1, Scan::LineComment)
            },
            Scan::BlockComment(star) => if star && c == '/' {
                uncommented(s, i + 1, Scan::Code)
            } else if c == '\n' {
                seq![c] + uncommented(s, i + 1, Scan::BlockComment(false))
            } else {
                uncommented(s, i + 1, Scan::BlockComment(c == '*'))
            },
        }
    }
}

/// Whether what follows position `i`, white space aside, closes a list or an
/// object or ends the text.
pub open spec fn closes(s: Seq<char>, i: int) -> bool {
    let next = text::skip_white(s, i);
    next >= s.len() || s[next] == '}' || s[next] == ']'
}

/// The text from position `i` on without commas before a closing bracket.
pub open spec fn without_trailing_commas(s: Seq<char>, i: int, place: Scan) -> Seq<char>
    decreases s.len() - i,
{
    if i < 0 || i >= s.len() {
        seq![]
    } else {
        let c = s[i];
        match place {
            Scan::InString(escaped) => seq![c] + without_trailing_commas(
                s,
                i + 1,
                behind_string_char(c, escaped),
            ),
            _ => if c == '"' {
                seq![c] + without_trailing_commas(s, i + 1, Scan::InString(false))
            } else if c == ',' && closes(s, i + 1) {
                without_trailing_commas(s, i + 1, Scan::Code)
            } else {
                seq![c] + without_trailing_commas(s, i + 1, Scan::Code)
            },
        }
    }
}

/// The text without byte order marks at its start.
pub open spec fn without_marks(s: Seq<char>) -> Seq<char>
    decreases s.len(),
{
    if s.len() > 0 && s[0] == '\u{feff}' {
        without_marks(s.skip(1))
    } else {
        s
    }
}

/// The plain JSON in a text of JSON with comments and trailing commas.
pub open spec fn plain_json(s: Seq<char>) -> Seq<char> {
    without_trailing_commas(uncommented(without_marks(s), 0, Scan::Code), 0, Scan::Code)
}

fn next_in_string(c: char, escaped: bool) -> (place: Scan)
    ensures
        place == behind_string_char(c, escaped),
{
    if escaped {
        Scan::InString(false)
    } else if c == '\\' {
        Scan::InString(true)
    } else if c == '"' {
        Scan::Code
    } else {
        Scan::InString(false)
    }
}

/// Removes comments, keeping the newlines in them.
pub fn strip_jsonc_comments(s: &[char]) -> (out: Vec<char>)
    ensures
        out@ == uncommented(s@, 0, Scan::Code),
{
    let mut out: Vec<char> = Vec::new();
    let mut place = Scan::Code;
    let mut i: usize = 0;
    let ghost all = uncommented(s@, 0, Scan::Code);
    proof {
        assert(out@ + all =~= all);
    }
    while i < s.len()
        invariant
            i <= s@.len(),
            all == uncommented(s@, 0, Scan::Code),
            out@ + uncommented(s@, i as int, place) == all,
        decreases s@.len() - i,
    {
        let c = s[i];
        let ghost before = out@;
        let ghost here = uncommented(s@, i as int, place);
        match place {
            Scan::Code => {
                if c == '/' && s.len() - i > 1 && s[i + 1] == '/' {
                    place = Scan::LineComment;
                    i += 2;
                } else if c == '/' && s.len() - i > 1 && s[i + 1] == '*' {
                    place = Scan::BlockComment(false);
                    i += 2;
                } else {
                    out.push(c);
                    if c == '"' {
                        place = Scan::InString(false);
                    } else {
                        place = Scan::Code;
                    }
                    i += 1;
                }
            },
            Scan::InString(escaped) => {
                out.push(c);
                place = next_in_string(c, escaped);
                i += 1;
            },
            Scan::LineComment => {
                if c == '\n' {
                    out.push(c);
                    place = Scan::Code;
                } else {
                    place = Scan::LineComment;
                }
                i += 1;
            },
            Scan::BlockComment(star) => {
                if star && c == '/' {
                    place = Scan::Code;
                } else if c == '\n' {
                    out.push(c);
                    place = Scan::BlockComment(false);
                } else {
                    place = Scan::BlockComment(c == '*');
                }
                i += 1;
            },
        }
        proof {
            assert(out@ + uncommented(s@, i as int, place) =~= before + here);
        }
    }
    proof {
        assert(uncommented(s@, i as int, place) =~= Seq::<char>::empty());
        assert(out@ + Seq::<char>::empty() =~= out@);
    }
    out
}

/// Removes commas before a closing bracket.
pub fn strip_trailing_json_commas(s: &[char]) -> (out: Vec<char>)
    ensures
        out@ == without_trailing_commas(s@, 0, Scan::Code),
{
    let mut out: Vec<char> = Vec::new();
    let mut place = Scan::Code;
    let mut i: usize = 0;
    let ghost all = without_trailing_commas(s@, 0, Scan::Code);
    proof {
        assert(out@ + all =~= all);
    }
    while i < s.len()
        invariant
            i <= s@.len(),
            place is Code || place is InString,
            all == without_trailing_commas(s@, 0, Scan::Code),
            out@ + without_trailing_commas(s@, i as int, place) == all,
        decreases s@.len() - i,
    {
        let c = s[i];
        let ghost before = out@;
        let ghost here = without_trailing_commas(s@, i as int, place);
        match place {
            Scan::InString(escaped) => {
                out.push(c);
                place = next_in_string(c, escaped);
            },
            _ => {
                place = Scan::Code;
                if c == '"' {
                    out.push(c);
                    place = Scan::InString(false);
                } else if c == ',' {
                    let next: usize = text::skip_white_from(s, i + 1);
                    if !(next >= s.len() || s[next] == '}' || s[next] == ']') {
                        out.push(c);
                    }
                } else {
                    out.push(c);
                }
            },
        }
        i += 1;
        proof {
            assert(out@ + without_trailing_commas(s@, i as int, place) =~= before + here);
        }
    }
    proof {
        assert(without_trailing_commas(s@, i as int, place) =~= Seq::<char>::empty());
        assert(out@ + Seq::<char>::empty() =~= out@);
    }
    out
}

/// The plain JSON in a text of JSON with comments and trailing commas.
pub fn jsonc_to_json(content: &str) -> (out: String)
    ensures
        out@ == plain_json(content@),
{
    let chars = text::chars_of(content);
    let mut from: usize = 0;
    proof {
        assert(chars@.skip(0) =~= chars@);
    }
    while from < chars.len() && chars[from] == '\u{feff}'
        invariant
            from <= chars@.len(),
            without_marks(chars@.skip(from as int)) == without_marks(chars@),
        decreases chars@.len() - from,
    {
        proof {
            assert(chars@.skip(from as int).skip(1) =~= chars@.skip(from + 1));
        }
        from += 1;
    }
    let rest = slice_subrange(&chars, from, chars.len());
    proof {
        assert(rest@ =~= chars@.skip(from as int));
    }
    let bare = strip_jsonc_comments(rest);
    let plain = strip_trailing_json_commas(&bare);
    text::text_of(&plain)
}

/// The number of newlines in a text.
pub open spec fn newlines(s: Seq<char>) -> nat
    decreases s.len(),
{
    if s.len() == 0 {
        0
    } else {
        newlines(s.drop_last()) + if s.last() == '\n' {
            1nat
        } else {
            0nat
        }
    }
}

proof fn lemma_newlines_add(a: Seq<char>, b: Seq<char>)
    ensures
        newlines(a + b) == newlines(a) + newlines(b),
    decreases b.len(),
{
    if b.len() == 0 {
        assert(a + b =~= a);
    } else {
        assert((a + b).drop_last() =~= a + b.drop_last());
        lemma_newlines_add(a, b.drop_last());
    }
}

proof fn lemma_uncommented_newlines(s: Seq<char>, i: int, place: Scan)
    requires
        0 <= i <= s.len(),
    ensures
        newlines(uncommented(s, i, place)) == newlines(s.skip(i)),
    decreases s.len() - i,
{
    if i < s.len() {
        let c = s[i];
        assert(s.skip(i) =~= seq![c] + s.skip(i + 1));
        lemma_newlines_add(seq![c], s.skip(i + 1));
        assert(newlines(seq![c]) == if c == '\n' {
            1nat
        } else {
            0nat
        }) by {
            reveal_with_fuel(newlines, 2);
        }
        let next = match place {
            Scan::Code => if c == '"' {
                Scan::InString(false)
            } else {
                Scan::Code
            },
            Scan::InString(escaped) => behind_string_char(c, escaped),
            Scan::LineComment => if c == '\n' {
                Scan::Code
            } else {
                Scan::LineComment
            },
            Scan::BlockComment(star) => if star && c == '/' {
                Scan::Code
            } else if c == '\n' {
                Scan::BlockComment(false)
            } else {
                Scan::BlockComment(c == '*')
            },
        };
        lemma_uncommented_newlines(s, i + 1, next);
        lemma_newlines_add(seq![c], uncommented(s, i + 1, next));
        if place is Code && c == '/' && i + 1 < s.len() && (s[i + 1] == '/' || s[i + 1] == '*') {
            let d = s[i + 1];
            assert(s.skip(i + 1) =~= seq![d] + s.skip(i + 2));
            lemma_newlines_add(seq![d], s.skip(i + 2));
            assert(newlines(seq![d]) == 0) by {
                reveal_with_fuel(newlines, 2);
            }
            lemma_uncommented_newlines(s, i + 2, Scan::LineComment);
            lemma_uncommented_newlines(s, i + 2, Scan::BlockComment(false));
        }
    } else {
        assert(s.skip(i) =~= Seq::<char>::empty());
    }
}

/// Removing comments keeps the number of lines, so that a line number in the
/// result means the same line of the settings file.
pub proof fn stripping_comments_keeps_lines(s: Seq<char>)
    ensures
        newlines(uncommented(s, 0, Scan::Code)) == newlines(s),
{
    lemma_uncommented_newlines(s, 0, Scan::Code);
    assert(s.skip(0) =~= s);
}

/// What stands before a text does not matter once the scanner is behind it.
proof fn lemma_uncommented_behind(before: Seq<char>, s: Seq<char>, i: int, place: Scan)
    requires
        0 <= i,
    ensures
        uncommented(before + s, before.len() + i, place) == uncommented(s, i, place),
    decreases s.len() - i,
{
    let t = before + s;
    let n = before.len() as int;
    if i < s.len() {
        let c = s[i];
        assert(t[n + i] == c);
        if i + 1 < s.len() {
            assert(t[n + i + 1] == s[i + 1]);
        }
        match place {
            Scan::Code => {
                if i + 1 < s.len() {
                    lemma_uncommented_behind(before, s, i + 2, Scan::LineComment);
                    lemma_uncommented_behind(before, s, i + 2, Scan::BlockComment(false));
                }
                lemma_uncommented_behind(before, s, i + 1, Scan::InString(false));
                lemma_uncommented_behind(before, s, i + 1, Scan::Code);
            },
            Scan::InString(escaped) => {
                lemma_uncommented_behind(before, s, i + 1, behind_string_char(c, escaped));
            },
            Scan::LineComment => {
                lemma_uncommented_behind(before, s, i + 1, Scan::Code);
                lemma_uncommented_behind(before, s, i + 1, Scan::LineComment);
            },
            Scan::BlockComment(star) => {
                lemma_uncommented_behind(before, s, i + 1, Scan::Code);
                lemma_uncommented_behind(before, s, i + 1, Scan::BlockComment(false));
                lemma_uncommented_behind(before, s, i + 1, Scan::BlockComment(c == '*'));
            },
        }
    }
}

/// The scanner's place at the start of what is left of a text: comments are
/// gone from it.
spec fn place_in_bare(place: Scan) -> Scan {
    match place {
        Scan::InString(escaped) => Scan::InString(escaped),
        _ => Scan::Code,
    }
}

proof fn lemma_bare_char(c: char, rest: Seq<char>, place: Scan, next: Scan)
    requires
        match place {
            Scan::InString(escaped) => next == behind_string_char(c, escaped),
            Scan::Code => {
                &&& c == '/' ==> rest.len() == 0 || (rest[0] != '/' && rest[0] != '*')
                &&& next == if c == '"' {
                    Scan::InString(false)
                } else {
                    Scan::Code
                }
            },
            _ => false,
        },
        uncommented(rest, 0, next) == rest,
    ensures
        uncommented(seq![c] + rest, 0, place) == seq![c] + rest,
{
    let t = seq![c] + rest;
    assert(t[0] == c);
    if rest.len() > 0 {
        assert(t[1] == rest[0]);
    }
    lemma_uncommented_behind(seq![c], rest, 0, next);
}

proof fn lemma_uncommented_again(s: Seq<char>, i: int, place: Scan)
    requires
        0 <= i,
    ensures
        uncommented(uncommented(s, i, place), 0, place_in_bare(place)) == uncommented(s, i, place),
    decreases s.len() - i,
{
    if i < s.len() {
        let c = s[i];
        match place {
            Scan::Code => {
                if c == '/' && i + 1 < s.len() && s[i + 1] == '/' {
                    lemma_uncommented_again(s, i + 2, Scan::LineComment);
                } else if c == '/' && i + 1 < s.len() && s[i + 1] == '*' {
                    lemma_uncommented_again(s, i + 2, Scan::BlockComment(false));
                } else {
                    let next = if c == '"' {
                        Scan::InString(false)
                    } else {
                        Scan::Code
                    };
                    lemma_uncommented_again(s, i + 1, next);
                    lemma_bare_char(c, uncommented(s, i + 1, next), Scan::Code, next);
                }
            },
            Scan::InString(escaped) => {
                let next = behind_string_char(c, escaped);
                lemma_uncommented_again(s, i + 1, next);
                lemma_bare_char(c, uncommented(s, i + 1, next), place, next);
            },
            Scan::LineComment => {
                if c == '\n' {
                    lemma_uncommented_again(s, i + 1, Scan::Code);
                    lemma_bare_char(c, uncommented(s, i + 1, Scan::Code), Scan::Code, Scan::Code);
                } else {
                    lemma_uncommented_again(s, i + 1, Scan::LineComment);
                }
            },
            Scan::BlockComment(star) => {
                if star && c == '/' {
                    lemma_uncommented_again(s, i + 1, Scan::Code);
                } else if c == '\n' {
                    let next = Scan::BlockComment(false);
                    lemma_uncommented_again(s, i + 1, next);
                    lemma_bare_char(c, uncommented(s, i + 1, next), Scan::Code, Scan::Code);
                } else {
                    lemma_uncommented_again(s, i + 1, Scan::BlockComment(c == '*'));
                }
            },
        }
    }
}

/// Removing comments a second time changes nothing.
pub proof fn comments_are_stripped_once(s: Seq<char>)
    ensures
        uncommented(uncommented(s, 0, Scan::Code), 0, Scan::Code) == uncommented(
            s,
            0,
            Scan::Code,
        ),
{
    lemma_uncommented_again(s, 0, Scan::Code);
}

// ---------------------------------------------------------------------------
// Variables.

/// Whether a character separates the parts of a path on some system.
pub open spec fn is_separator(c: char) -> bool {
    c == '/' || c == '\\'
}

/// The first position that holds no separator.
pub open spec fn skip_separators(s: Seq<char>, from: int) -> int
    decreases s.len() - from,
{
    if 0 <= from < s.len() && is_separator(s[from]) {
        skip_separators(s, from + 1)
    } else if from < s.len() {
        from
    } else {
        s.len() as int
    }
}

/// The text with `/` for every separator.
pub open spec fn with_slashes(s: Seq<char>) -> Seq<char> {
    s.map_values(
        |c: char|
            if is_separator(c) {
                '/'
            } else {
                c
            },
    )
}

/// A path below a variable: the text is the variable, a separator and more.
pub open spec fn path_below_variable(value: Seq<char>, variable: Seq<char>, folder: Seq<char>)
    -> Option<Seq<char>> {
    if text::begins(value, variable) {
        let suffix = value.skip(variable.len() as int);
        let start = skip_separators(suffix, 0);
        if start > 0 {
            Some(paths::joined(folder, with_slashes(suffix.skip(start))))
        } else {
            None
        }
    } else {
        None
    }
}

/// The name of the workspace folder, or nothing.
pub open spec fn folder_name(folder: Seq<char>) -> Seq<char> {
    match paths::name_of(folder) {
        Some(name) => name,
        None => Seq::empty(),
    }
}

/// A string of the settings with the variables for the workspace folder
/// filled in. A path below the folder is joined to it.
pub open spec fn expanded_text(value: Seq<char>, folder: Seq<char>) -> Seq<char> {
    match path_below_variable(value, "${workspaceFolder}"@, folder) {
        Some(path) => path,
        None => match path_below_variable(value, "${workspaceRoot}"@, folder) {
            Some(path) => path,
            None => text::replaced(
                text::replaced(
                    text::replaced(value, "${workspaceFolder}"@, folder),
                    "${workspaceRoot}"@,
                    folder,
                ),
                "${workspaceFolderBasename}"@,
                folder_name(folder),
            ),
        },
    }
}

/// Settings with the variables for the workspace folder filled in.
pub open spec fn expanded(value: json::JsonView, folder: Seq<char>) -> json::JsonView
    decreases value,
{
    match value {
        json::JsonView::Str(s) => json::JsonView::Str(expanded_text(s, folder)),
        json::JsonView::Array(items) => json::JsonView::Array(
            Seq::new(
                items.len(),
                |i: int|
                    if 0 <= i < items.len() {
                        expanded(items[i], folder)
                    } else {
                        json::JsonView::Null
                    },
            ),
        ),
        json::JsonView::Object(entries) => json::JsonView::Object(
            Seq::new(
                entries.len(),
                |i: int|
                    if 0 <= i < entries.len() {
                        (entries[i].0, expanded(entries[i].1, folder))
                    } else {
                        (Seq::empty(), json::JsonView::Null)
                    },
            ),
        ),
        _ => value,
    }
}

fn replace_variable(value: &[char], variable: &str, by: &[char]) -> (out: Vec<char>)
    requires
        variable@.len() > 0,
    ensures
        out@ == text::replaced(value@, variable@, by@),
{
    let variable = text::chars_of(variable);
    text::replace(value, &variable, by)
}

fn join_below_variable(value: &[char], variable: &str, folder: &str) -> (r: Option<String>)
    ensures
        text::opt_text(r) == path_below_variable(value@, variable@, folder@),
{
    let variable = text::chars_of(variable);
    if !text::starts_with(value, &variable) {
        return None;
    }
    let suffix = slice_subrange(value, variable.len(), value.len());
    proof {
        assert(suffix@ =~= value@.skip(variable@.len() as int));
    }
    let mut start: usize = 0;
    while start < suffix.len() && (suffix[start] == '/' || suffix[start] == '\\')
        invariant
            start <= suffix@.len(),
            skip_separators(suffix@, start as int) == skip_separators(suffix@, 0),
        decreases suffix@.len() - start,
    {
        start += 1;
    }
    if start == 0 {
        return None;
    }
    let mut tail: Vec<char> = Vec::new();
    let ghost wanted = with_slashes(suffix@.skip(start as int));
    let mut i: usize = start;
    while i < suffix.len()
        invariant
            start <= i <= suffix@.len(),
            wanted == with_slashes(suffix@.skip(start as int)),
            tail@ == wanted.take(i - start),
        decreases suffix@.len() - i,
    {
        let c = suffix[i];
        if c == '/' || c == '\\' {
            tail.push('/');
        } else {
            tail.push(c);
        }
        proof {
            assert(tail@ =~= wanted.take(i + 1 - start));
        }
        i += 1;
    }
    proof {
        assert(wanted.take(suffix@.len() - start) =~= wanted);
    }
    let tail = text::text_of(&tail);
    Some(paths::join(folder, tail.as_str()))
}

/// Fills the variables for the workspace folder into a string.
pub fn expand_workspace_variables_in_string(value: &str, workspace_folder: &str) -> (out: String)
    ensures
        out@ == expanded_text(value@, workspace_folder@),
{
    let chars = text::chars_of(value);
    match join_below_variable(&chars, "${workspaceFolder}", workspace_folder) {
        Some(path) => {
            return path;
        },
        None => {},
    }
    match join_below_variable(&chars, "${workspaceRoot}", workspace_folder) {
        Some(path) => {
            return path;
        },
        None => {},
    }
    let folder = text::chars_of(workspace_folder);
    let name = match paths::file_name(workspace_folder) {
        Some(name) => text::chars_of(name.as_str()),
        None => Vec::new(),
    };
    proof {
        reveal_strlit("${workspaceFolder}");
        reveal_strlit("${workspaceRoot}");
        reveal_strlit("${workspaceFolderBasename}");
    }
    let chars = replace_variable(&chars, "${workspaceFolder}", &folder);
    let chars = replace_variable(&chars, "${workspaceRoot}", &folder);
    let chars = replace_variable(&chars, "${workspaceFolderBasename}", &name);
    text::text_of(&chars)
}

/// Fills the variables for the workspace folder into every string.
pub fn expand_workspace_variables(value: &Json, workspace_folder: &str) -> (out: Json)
    ensures
        out@ == expanded(value@, workspace_folder@),
    decreases value,
{
    match value {
        Json::Str(s) => Json::Str(
            expand_workspace_variables_in_string(s.as_str(), workspace_folder),
        ),
        Json::Array(items) => {
            let mut out: Vec<Json> = Vec::new();
            let mut i: usize = 0;
            while i < items.len()
                invariant
                    *value == Json::Array(*items),
                    i <= items@.len(),
                    out@.len() == i,
                    forall|k: int|
                        0 <= k < i ==> #[trigger] out@[k]@ == expanded(
                            items@[k]@,
                            workspace_folder@,
                        ),
                decreases items@.len() - i,
            {
                proof {
                    assert(decreases_to!(*value => value->Array_0));
                }
                out.push(expand_workspace_variables(&items[i], workspace_folder));
                i += 1;
            }
            proof {
                json::lemma_array_view(*items);
                json::lemma_array_view(out);
                assert(json::views(out@) =~= expanded(value@, workspace_folder@)->Array_0);
            }
            Json::Array(out)
        },
        Json::Object(entries) => {
            let mut out: Vec<(String, Json)> = Vec::new();
            let mut i: usize = 0;
            while i < entries.len()
                invariant
                    *value == Json::Object(*entries),
                    i <= entries@.len(),
                    out@.len() == i,
                    forall|k: int|
                        0 <= k < i ==> (#[trigger] out@[k]).0@ == entries@[k].0@ && out@[k].1@
                            == expanded(entries@[k].1@, workspace_folder@),
                decreases entries@.len() - i,
            {
                proof {
                    assert(decreases_to!(*value => value->Object_0));
                }
                let key = entries[i].0.clone();
                let inner = expand_workspace_variables(&entries[i].1, workspace_folder);
                out.push((key, inner));
                i += 1;
            }
            proof {
                json::lemma_object_view(*entries);
                json::lemma_object_view(out);
                assert(json::entry_views(out@) =~= expanded(value@, workspace_folder@)->Object_0);
            }
            Json::Object(out)
        },
        _ => value.duplicate(),
    }
}

// ---------------------------------------------------------------------------
// Dotted keys.

/// The segments of a dotted key, the first `n` of its pieces considered.
pub open spec fn segments_of(pieces: Seq<Seq<char>>) -> Seq<Seq<char>>
    decreases pieces.len(),
{
    if pieces.len() == 0 {
        seq![]
    } else {
        let earlier = segments_of(pieces.drop_last());
        if pieces.last().len() > 0 {
            earlier.push(pieces.last())
        } else {
            earlier
        }
    }
}

/// The segments of a dotted key: the pieces between its dots that are not
/// empty.
pub open spec fn key_segments(key: Seq<char>) -> Seq<Seq<char>> {
    segments_of(text::split_at(key, '.'))
}

/// One value laid over another: objects are merged entry by entry, and
/// anything else is replaced.
pub open spec fn merged(existing: json::JsonView, incoming: json::JsonView) -> json::JsonView
    decreases incoming, 0nat,
{
    match (existing, incoming) {
        (json::JsonView::Object(old_entries), json::JsonView::Object(new_entries)) =>
            json::JsonView::Object(merged_entries(old_entries, new_entries)),
        _ => incoming,
    }
}

/// Entries laid over others.
pub open spec fn merged_entries(
    old_entries: Seq<(Seq<char>, json::JsonView)>,
    new_entries: Seq<(Seq<char>, json::JsonView)>,
) -> Seq<(Seq<char>, json::JsonView)>
    decreases new_entries, 1nat,
{
    if new_entries.len() == 0 {
        old_entries
    } else {
        let earlier = merged_entries(old_entries, new_entries.drop_last());
        let (key, value) = new_entries.last();
        match json::lookup(earlier, key, 0) {
            Some(existing) => json::with_entry(earlier, key, merged(existing, value)),
            None => earlier.push((key, value)),
        }
    }
}

/// The entries below a value, none where it is no object.
pub open spec fn entries_of(value: Option<json::JsonView>) -> Seq<(Seq<char>, json::JsonView)> {
    match value {
        Some(json::JsonView::Object(entries)) => entries,
        _ => seq![],
    }
}

/// The entries with a value put under a path of segments.
pub open spec fn with_setting(
    root: Seq<(Seq<char>, json::JsonView)>,
    segments: Seq<Seq<char>>,
    value: json::JsonView,
) -> Seq<(Seq<char>, json::JsonView)>
    decreases segments.len(),
{
    if segments.len() == 0 {
        root
    } else if segments.len() == 1 {
        match json::lookup(root, segments[0], 0) {
            Some(existing) => json::with_entry(root, segments[0], merged(existing, value)),
            None => root.push((segments[0], value)),
        }
    } else {
        let child = entries_of(json::lookup(root, segments[0], 0));
        json::with_entry(
            root,
            segments[0],
            json::JsonView::Object(with_setting(child, segments.skip(1), value)),
        )
    }
}

/// Settings in which every dotted key has become a path of objects.
pub open spec fn normalized(value: json::JsonView) -> json::JsonView
    decreases value, 0nat,
{
    match value {
        json::JsonView::Object(entries) => json::JsonView::Object(normalized_entries(entries)),
        json::JsonView::Array(items) => json::JsonView::Array(
            Seq::new(
                items.len(),
                |i: int|
                    if 0 <= i < items.len() {
                        normalized(items[i])
                    } else {
                        json::JsonView::Null
                    },
            ),
        ),
        _ => value,
    }
}

/// The entries of settings put, one after the other, under the paths that
/// their keys name.
pub open spec fn normalized_entries(entries: Seq<(Seq<char>, json::JsonView)>) -> Seq<
    (Seq<char>, json::JsonView),
>
    decreases entries, 1nat,
{
    if entries.len() == 0 {
        seq![]
    } else {
        with_setting(
            normalized_entries(entries.drop_last()),
            key_segments(entries.last().0),
            normalized(entries.last().1),
        )
    }
}

/// The value under a path of segments.
pub open spec fn setting_at(value: json::JsonView, segments: Seq<Seq<char>>) -> Option<
    json::JsonView,
>
    decreases segments.len(),
{
    if segments.len() == 0 {
        Some(value)
    } else {
        match value.get(segments[0]) {
            Some(inner) => setting_at(inner, segments.skip(1)),
            None => None,
        }
    }
}

fn split_key(key: &str) -> (segments: Vec<String>)
    ensures
        text::texts(segments@) == key_segments(key@),
{
    let chars = text::chars_of(key);
    let pieces = text::split_on(&chars, '.');
    let ghost all = text::rows(pieces@);
    let mut segments: Vec<String> = Vec::new();
    let mut i: usize = 0;
    proof {
        assert(text::texts(segments@) =~= segments_of(all.take(0)));
    }
    while i < pieces.len()
        invariant
            i <= pieces@.len(),
            all == text::rows(pieces@),
            text::texts(segments@) == segments_of(all.take(i as int)),
        decreases pieces@.len() - i,
    {
        let ghost before = text::texts(segments@);
        proof {
            assert(all.take(i + 1).drop_last() =~= all.take(i as int));
            assert(all.take(i + 1).last() == pieces@[i as int]@);
        }
        if pieces[i].len() > 0 {
            segments.push(text::text_of(&pieces[i]));
            proof {
                assert(text::texts(segments@) =~= before.push(pieces@[i as int]@));
            }
        }
        i += 1;
    }
    proof {
        assert(all.take(pieces@.len() as int) =~= all);
    }
    segments
}

fn find_entry(entries: &Vec<(String, Json)>, key: &str) -> (r: Option<usize>)
    ensures
        match r {
            Some(i) => i < entries@.len() && json::entry_index(
                json::entry_views(entries@),
                key@,
                0,
            ) == Some(i as int) && entries@[i as int].0@ == key@ && json::lookup(
                json::entry_views(entries@),
                key@,
                0,
            ) == Some(entries@[i as int].1@),
            None => json::entry_index(json::entry_views(entries@), key@, 0) is None
                && json::lookup(json::entry_views(entries@), key@, 0) is None,
        },
{
    let ghost all = json::entry_views(entries@);
    let mut i: usize = 0;
    while i < entries.len()
        invariant
            i <= entries@.len(),
            all == json::entry_views(entries@),
            json::entry_index(all, key@, 0) == json::entry_index(all, key@, i as int),
            json::lookup(all, key@, 0) == json::lookup(all, key@, i as int),
        decreases entries@.len() - i,
    {
        proof {
            assert(all[i as int] == (entries@[i as int].0@, entries@[i as int].1@));
        }
        if text::same_text(entries[i].0.as_str(), key) {
            return Some(i);
        }
        i += 1;
    }
    None
}

/// Lays a value over another.
pub fn merge_json_value(existing: Json, incoming: Json) -> (out: Json)
    ensures
        out@ == merged(existing@, incoming@),
    decreases incoming,
{
    match (existing, incoming) {
        (Json::Object(old_entries), Json::Object(new_entries)) => {
            proof {
                json::lemma_object_view(old_entries);
                json::lemma_object_view(new_entries);
            }
            let out = merge_entries(old_entries, new_entries);
            proof {
                json::lemma_object_view(out);
            }
            Json::Object(out)
        },
        (_, incoming) => incoming,
    }
}

fn merge_entries(old_entries: Vec<(String, Json)>, new_entries: Vec<(String, Json)>) -> (out: Vec<
    (String, Json),
>)
    ensures
        json::entry_views(out@) == merged_entries(
            json::entry_views(old_entries@),
            json::entry_views(new_entries@),
        ),
    decreases new_entries,
{
    let ghost old_views = json::entry_views(old_entries@);
    let ghost new_views = json::entry_views(new_entries@);
    let ghost given = new_entries;
    let mut out = old_entries;
    let mut left = new_entries;
    let ghost mut done: int = 0;
    proof {
        assert(new_views.take(0) =~= seq![]);
        assert(given@.skip(0) =~= given@);
    }
    while left.len() > 0
        invariant
            0 <= done <= given@.len(),
            given == new_entries,
            new_views == json::entry_views(given@),
            left@ == given@.skip(done),
            json::entry_views(out@) == merged_entries(old_views, new_views.take(done)),
        decreases left@.len(),
    {
        proof {
            assert(decreases_to!(new_entries => new_entries@));
            assert(decreases_to!(new_entries@ => new_entries@[done]));
            assert(left@[0] == given@[done]);
        }
        let (key, value) = left.remove(0);
        let ghost before = json::entry_views(out@);
        proof {
            assert(new_views.take(done + 1).drop_last() =~= new_views.take(done));
            assert(new_views.take(done + 1).last() == (key@, value@));
        }
        let ghost value_view = value@;
        match find_entry(&out, key.as_str()) {
            Some(i) => {
                let (old_key, old_value) = out.remove(i);
                let ghost old_view = old_value@;
                let laid = merge_json_value(old_value, value);
                out.insert(i, (old_key, laid));
                proof {
                    assert(json::entry_views(out@) =~= before.update(
                        i as int,
                        (key@, merged(old_view, value_view)),
                    ));
                }
            },
            None => {
                out.push((key, value));
                proof {
                    assert(json::entry_views(out@) =~= before.push((key@, value_view)));
                }
            },
        }
        proof {
            assert(left@ =~= given@.skip(done + 1));
            done = done + 1;
        }
    }
    proof {
        assert(new_views.take(done) =~= new_views);
    }
    out
}

/// Puts a value under a path of segments.
fn insert_workspace_setting_segments(
    root: Vec<(String, Json)>,
    segments: &[String],
    value: Json,
) -> (out: Vec<(String, Json)>)
    ensures
        json::entry_views(out@) == with_setting(
            json::entry_views(root@),
            text::texts(segments@),
            value@,
        ),
    decreases segments@.len(),
{
    let ghost path = text::texts(segments@);
    let ghost before = json::entry_views(root@);
    let mut out = root;
    if segments.len() == 0 {
        return out;
    }
    proof {
        assert(path[0] == segments@[0]@);
        json::lemma_entry_index(before, path[0], 0);
    }
    let found = find_entry(&out, segments[0].as_str());
    if segments.len() == 1 {
        match found {
            Some(i) => {
                let (key, existing) = out.remove(i);
                let ghost old_view = existing@;
                let ghost new_view = value@;
                let laid = merge_json_value(existing, value);
                out.insert(i, (key, laid));
                proof {
                    assert(json::entry_views(out@) =~= before.update(
                        i as int,
                        (path[0], merged(old_view, new_view)),
                    ));
                }
            },
            None => {
                out.push((segments[0].clone(), value));
                proof {
                    assert(json::entry_views(out@) =~= before.push((path[0], value@)));
                }
            },
        }
        return out;
    }
    let rest = slice_subrange(segments, 1, segments.len());
    proof {
        assert(text::texts(rest@) =~= path.skip(1));
    }
    match found {
        Some(i) => {
            let (key, existing) = out.remove(i);
            let ghost old_view = existing@;
            let child: Vec<(String, Json)> = match existing {
                Json::Object(entries) => {
                    proof {
                        json::lemma_object_view(entries);
                    }
                    entries
                },
                _ => Vec::new(),
            };
            proof {
                assert(json::entry_views(child@) =~= entries_of(Some(old_view)));
            }
            let inner = insert_workspace_setting_segments(child, rest, value);
            let ghost inner_views = json::entry_views(inner@);
            proof {
                json::lemma_object_view(inner);
            }
            out.insert(i, (key, Json::Object(inner)));
            proof {
                assert(json::entry_views(out@) =~= before.update(
                    i as int,
                    (path[0], json::JsonView::Object(inner_views)),
                ));
            }
        },
        None => {
            let child: Vec<(String, Json)> = Vec::new();
            proof {
                assert(json::entry_views(child@) =~= seq![]);
            }
            let inner = insert_workspace_setting_segments(child, rest, value);
            let ghost inner_views = json::entry_views(inner@);
            proof {
                json::lemma_object_view(inner);
            }
            out.push((segments[0].clone(), Json::Object(inner)));
            proof {
                assert(json::entry_views(out@) =~= before.push(
                    (path[0], json::JsonView::Object(inner_views)),
                ));
            }
        },
    }
    out
}

/// Turns dotted keys into paths of objects.
pub fn normalize_workspace_settings(value: &Json) -> (out: Json)
    ensures
        out@ == normalized(value@),
    decreases value,
{
    match value {
        Json::Object(entries) => {
            let mut out: Vec<(String, Json)> = Vec::new();
            let ghost all = json::entry_views(entries@);
            let mut i: usize = 0;
            proof {
                assert(json::entry_views(out@) =~= normalized_entries(all.take(0)));
            }
            while i < entries.len()
                invariant
                    *value == Json::Object(*entries),
                    i <= entries@.len(),
                    all == json::entry_views(entries@),
                    json::entry_views(out@) == normalized_entries(all.take(i as int)),
                decreases entries@.len() - i,
            {
                proof {
                    assert(decreases_to!(*value => value->Object_0));
                    assert(all.take(i + 1).drop_last() =~= all.take(i as int));
                    assert(all.take(i + 1).last() == (
                        entries@[i as int].0@,
                        entries@[i as int].1@,
                    ));
                }
                let inner = normalize_workspace_settings(&entries[i].1);
                let segments = split_key(entries[i].0.as_str());
                out = insert_workspace_setting_segments(out, &segments, inner);
                i += 1;
            }
            proof {
                assert(all.take(entries@.len() as int) =~= all);
                json::lemma_object_view(*entries);
                json::lemma_object_view(out);
            }
            Json::Object(out)
        },
        Json::Array(items) => {
            let mut out: Vec<Json> = Vec::new();
            let mut i: usize = 0;
            while i < items.len()
                invariant
                    *value == Json::Array(*items),
                    i <= items@.len(),
                    out@.len() == i,
                    forall|k: int| 0 <= k < i ==> #[trigger] out@[k]@ == normalized(items@[k]@),
                decreases items@.len() - i,
            {
                proof {
                    assert(decreases_to!(*value => value->Array_0));
                }
                out.push(normalize_workspace_settings(&items[i]));
                i += 1;
            }
            proof {
                json::lemma_array_view(*items);
                json::lemma_array_view(out);
                assert(json::views(out@) =~= normalized(value@)->Array_0);
            }
            Json::Array(out)
        },
        _ => value.duplicate(),
    }
}

/// The value under a dotted section name.
pub fn lookup_workspace_setting(settings: &Json, section: &str) -> (r: Option<Json>)
    ensures
        json::opt_view(r) == setting_at(settings@, key_segments(section@)),
{
    let segments = split_key(section);
    let ghost path = text::texts(segments@);
    let mut current = settings;
    let mut i: usize = 0;
    proof {
        assert(path.skip(0) =~= path);
    }
    while i < segments.len()
        invariant
            i <= segments@.len(),
            path == text::texts(segments@),
            path == key_segments(section@),
            setting_at(settings@, path) == setting_at(current@, path.skip(i as int)),
        decreases segments@.len() - i,
    {
        proof {
            assert(path.skip(i as int)[0] == segments@[i as int]@);
            assert(path.skip(i as int).skip(1) =~= path.skip(i + 1));
        }
        match current.get(segments[i].as_str()) {
            Some(inner) => {
                current = inner;
            },
            None => {
                return None;
            },
        }
        i += 1;
    }
    Some(current.duplicate())
}

/// What a server that asks for configuration gets for one item: the section
/// that it names, or all settings where it names none.
pub open spec fn configuration_item(settings: json::JsonView, item: json::JsonView)
    -> json::JsonView {
    match json::opt_as_str(item.get("section"@)) {
        Some(section) => if text::is_blank(section) {
            settings
        } else {
            json::or_null(setting_at(settings, key_segments(text::trimmed(section))))
        },
        None => settings,
    }
}

/// What a server that asks for configuration gets.
pub open spec fn configuration(settings: json::JsonView, params: json::JsonView) -> json::JsonView {
    match json::opt_as_array(params.get("items"@)) {
        Some(items) => json::JsonView::Array(
            Seq::new(items.len(), |i: int| configuration_item(settings, items[i])),
        ),
        None => json::JsonView::Array(seq![]),
    }
}

fn configuration_for(settings: &Json, item: &Json) -> (out: Json)
    ensures
        out@ == configuration_item(settings@, item@),
{
    match item.get("section") {
        Some(value) => match value.as_str() {
            Some(section) => {
                let chars = text::chars_of(section);
                if text::blank(&chars) {
                    return settings.duplicate();
                }
                let name = text::text_of(text::trim(&chars));
                match lookup_workspace_setting(settings, name.as_str()) {
                    Some(found) => found,
                    None => Json::Null,
                }
            },
            None => settings.duplicate(),
        },
        None => settings.duplicate(),
    }
}

/// The answer to a server that asks for configuration.
pub fn workspace_configuration_response(settings: &Json, params: &Json) -> (out: Json)
    ensures
        out@ == configuration(settings@, params@),
{
    let mut answers: Vec<Json> = Vec::new();
    let found = match params.get("items") {
        Some(value) => value.as_array(),
        None => None,
    };
    if let Some(items) = found {
        let mut i: usize = 0;
        while i < items.len()
            invariant
                i <= items@.len(),
                answers@.len() == i,
                forall|k: int|
                    0 <= k < i ==> #[trigger] answers@[k]@ == configuration_item(
                        settings@,
                        items@[k]@,
                    ),
            decreases items@.len() - i,
        {
            answers.push(configuration_for(settings, &items[i]));
            i += 1;
        }
        proof {
            assert(json::views(answers@) =~= configuration(settings@, params@)->Array_0);
        }
    } else {
        proof {
            assert(json::views(answers@) =~= seq![]);
        }
    }
    json::array(answers)
}

// ---------------------------------------------------------------------------
// Laws.

proof fn lemma_lookup_updated(
    entries: Seq<(Seq<char>, json::JsonView)>,
    i: int,
    key: Seq<char>,
    value: json::JsonView,
    wanted: Seq<char>,
    from: int,
)
    requires
        0 <= from <= i < entries.len(),
        json::entry_index(entries, key, from) == Some(i),
    ensures
        json::lookup(entries.update(i, (key, value)), wanted, from) == if wanted == key {
            Some(value)
        } else {
            json::lookup(entries, wanted, from)
        },
    decreases entries.len() - from,
{
    let updated = entries.update(i, (key, value));
    if from == i {
        assert(updated[from] == (key, value));
        if wanted != key {
            json::lemma_entry_index(entries, key, from);
            lemma_lookup_same_tail(entries, updated, wanted, from + 1);
        }
    } else {
        assert(entries[from].0 != key);
        assert(updated[from] == entries[from]);
        lemma_lookup_updated(entries, i, key, value, wanted, from + 1);
    }
}

proof fn lemma_lookup_same_tail(
    a: Seq<(Seq<char>, json::JsonView)>,
    b: Seq<(Seq<char>, json::JsonView)>,
    wanted: Seq<char>,
    from: int,
)
    requires
        0 <= from,
        a.len() == b.len(),
        forall|k: int| from <= k < a.len() ==> a[k] == b[k],
    ensures
        json::lookup(a, wanted, from) == json::lookup(b, wanted, from),
    decreases a.len() - from,
{
    if from < a.len() {
        lemma_lookup_same_tail(a, b, wanted, from + 1);
    }
}

proof fn lemma_lookup_pushed(
    entries: Seq<(Seq<char>, json::JsonView)>,
    key: Seq<char>,
    value: json::JsonView,
    wanted: Seq<char>,
    from: int,
)
    requires
        0 <= from <= entries.len(),
        json::lookup(entries, key, from) is None,
    ensures
        json::lookup(entries.push((key, value)), wanted, from) == if wanted == key {
            Some(value)
        } else {
            json::lookup(entries, wanted, from)
        },
    decreases entries.len() - from,
{
    let pushed = entries.push((key, value));
    if from < entries.len() {
        assert(pushed[from] == entries[from]);
        lemma_lookup_pushed(entries, key, value, wanted, from + 1);
    } else {
        assert(pushed[from] == (key, value));
        assert(json::lookup(pushed, wanted, from + 1) is None);
    }
}

proof fn lemma_lookup_with_entry(
    entries: Seq<(Seq<char>, json::JsonView)>,
    key: Seq<char>,
    value: json::JsonView,
    wanted: Seq<char>,
)
    ensures
        json::lookup(json::with_entry(entries, key, value), wanted, 0) == if wanted == key {
            Some(value)
        } else {
            json::lookup(entries, wanted, 0)
        },
{
    json::lemma_entry_index(entries, key, 0);
    match json::entry_index(entries, key, 0) {
        Some(i) => {
            lemma_lookup_updated(entries, i, key, value, wanted, 0);
        },
        None => {
            lemma_lookup_pushed(entries, key, value, wanted, 0);
        },
    }
}

/// A setting is found under the path under which it was put: as it was given,
/// or laid over what was there.
pub proof fn settings_are_found_where_they_were_put(
    root: Seq<(Seq<char>, json::JsonView)>,
    segments: Seq<Seq<char>>,
    value: json::JsonView,
)
    requires
        segments.len() > 0,
    ensures
        setting_at(json::JsonView::Object(with_setting(root, segments, value)), segments) == Some(
            match setting_at(json::JsonView::Object(root), segments) {
                Some(existing) => merged(existing, value),
                None => value,
            },
        ),
    decreases segments.len(),
{
    let key = segments[0];
    let rest = segments.skip(1);
    let old = json::lookup(root, key, 0);
    if segments.len() == 1 {
        assert(rest.len() == 0);
        match old {
            Some(existing) => {
                lemma_lookup_with_entry(root, key, merged(existing, value), key);
                assert(setting_at(existing, rest) == Some(existing));
                assert(setting_at(merged(existing, value), rest) == Some(merged(existing, value)));
            },
            None => {
                lemma_lookup_pushed(root, key, value, key, 0);
                assert(setting_at(value, rest) == Some(value));
            },
        }
    } else {
        let child = entries_of(old);
        settings_are_found_where_they_were_put(child, rest, value);
        let inner = json::JsonView::Object(with_setting(child, rest, value));
        lemma_lookup_with_entry(root, key, inner, key);
        let given = json::JsonView::Object(with_setting(root, segments, value));
        assert(given.get(key) == Some(inner));
        assert(setting_at(given, segments) == setting_at(inner, rest));
        match old {
            Some(existing) => {
                assert(setting_at(json::JsonView::Object(root), segments) == setting_at(
                    existing,
                    rest,
                ));
                if !(existing is Object) {
                    assert(child.len() == 0);
                    assert(json::JsonView::Object(child).get(rest[0]) is None);
                    assert(setting_at(existing, rest) is None);
                }
            },
            None => {
                assert(json::JsonView::Object(child).get(rest[0]) is None);
            },
        }
    }
}

/// Putting a setting under a path leaves what is under other first segments
/// as it was.
pub proof fn other_settings_are_kept(
    root: Seq<(Seq<char>, json::JsonView)>,
    segments: Seq<Seq<char>>,
    value: json::JsonView,
    other: Seq<char>,
)
    requires
        segments.len() > 0,
        other != segments[0],
    ensures
        json::JsonView::Object(with_setting(root, segments, value)).get(other)
            == json::JsonView::Object(root).get(other),
{
    let key = segments[0];
    if segments.len() == 1 {
        match json::lookup(root, key, 0) {
            Some(existing) => {
                lemma_lookup_with_entry(root, key, merged(existing, value), other);
            },
            None => {
                lemma_lookup_pushed(root, key, value, other, 0);
            },
        }
    } else {
        let child = entries_of(json::lookup(root, key, 0));
        lemma_lookup_with_entry(
            root,
            key,
            json::JsonView::Object(with_setting(child, segments.skip(1), value)),
            other,
        );
    }
}

// ---------------------------------------------------------------------------
// Where settings are found.

/// The settings file of a folder.
pub open spec fn settings_file(folder: Seq<char>) -> Seq<char> {
    paths::joined(paths::joined(folder, ".vscode"@), "settings.json"@)
}

/// Where the settings of a workspace may be, with the folder that they are
/// for: in the workspace, or above it. The first that is there counts.
pub fn settings_places(workspace_root: &str) -> (out: Vec<(String, String)>)
    ensures
        out@.len() == providers::ancestors(workspace_root@).len(),
        forall|i: int|
            0 <= i < out@.len() ==> {
                &&& (#[trigger] out@[i]).0@ == settings_file(
                    providers::ancestors(workspace_root@)[i],
                )
                &&& out@[i].1@ == providers::ancestors(workspace_root@)[i]
            },
{
    let folders = providers::path_ancestors(workspace_root);
    let mut out: Vec<(String, String)> = Vec::new();
    let mut i: usize = 0;
    while i < folders.len()
        invariant
            i <= folders@.len(),
            out@.len() == i,
            text::texts(folders@) == providers::ancestors(workspace_root@),
            forall|k: int|
                0 <= k < i ==> {
                    &&& (#[trigger] out@[k]).0@ == settings_file(
                        providers::ancestors(workspace_root@)[k],
                    )
                    &&& out@[k].1@ == providers::ancestors(workspace_root@)[k]
                },
        decreases folders@.len() - i,
    {
        proof {
            assert(text::texts(folders@)[i as int] == folders@[i as int]@);
        }
        let inner = paths::join(folders[i].as_str(), ".vscode");
        out.push((paths::join(inner.as_str(), "settings.json"), folders[i].clone()));
        i += 1;
    }
    proof {
        assert(text::texts(folders@).len() == folders@.len());
    }
    out
}

/// The value in a text of JSON with comments and trailing commas.
pub fn parse_jsonc_value(content: &str) -> (r: Result<Json, String>)
    ensures
        json_text::outcome(r) == json_text::parsed(plain_json(content@)),
{
    let plain = jsonc_to_json(content);
    json_text::parse_text(plain.as_str())
}

/// The settings that a value gives for a folder; none where there is no value.
pub open spec fn settings_of(parsed: Option<json::JsonView>, folder: Seq<char>) -> json::JsonView {
    match parsed {
        Some(value) => normalized(expanded(value, folder)),
        None => json::JsonView::object(),
    }
}

/// The settings that a value gives for a folder.
pub fn settings_from_value(parsed: Option<&Json>, workspace_folder: &str) -> (out: Json)
    ensures
        out@ == settings_of(json::opt_ref_view(parsed), workspace_folder@),
{
    match parsed {
        Some(value) => normalize_workspace_settings(
            &expand_workspace_variables(value, workspace_folder),
        ),
        None => json::object(),
    }
}

/// A value, where one could be read.
pub open spec fn read_value(r: Result<json::JsonView, Seq<char>>) -> Option<json::JsonView> {
    match r {
        Ok(value) => Some(value),
        Err(_) => None,
    }
}

/// The settings of a workspace, given what the file holds, where it can be
/// read, and the folder that it is for.
pub fn load_workspace_settings(content: Option<&str>, workspace_folder: &str) -> (out: Json)
    ensures
        out@ == match text::opt_str(content) {
            Some(source) => settings_of(
                read_value(json_text::parsed(plain_json(source))),
                workspace_folder@,
            ),
            None => json::JsonView::object(),
        },
{
    match content {
        Some(source) => match parse_jsonc_value(source) {
            Ok(value) => settings_from_value(Some(&value), workspace_folder),
            Err(_) => settings_from_value(None, workspace_folder),
        },
        None => json::object(),
    }
}

// ---------------------------------------------------------------------------
// What settings files mean.

/// Whether a text has nothing that starts a string or a comment, nor a comma.
pub open spec fn plain_code(s: Seq<char>) -> bool {
    forall|i: int| 0 <= i < s.len() ==> #[trigger] s[i] != '/' && s[i] != '"' && s[i] != ','
}

/// Whether a text can stand in a string as it is.
pub open spec fn plain_string(s: Seq<char>) -> bool {
    forall|i: int| 0 <= i < s.len() ==> #[trigger] s[i] != '\\' && s[i] != '"'
}

proof fn lemma_code_kept(code: Seq<char>, rest: Seq<char>, i: int)
    requires
        0 <= i <= code.len(),
        plain_code(code),
    ensures
        uncommented(code + rest, i, Scan::Code) == code.skip(i) + uncommented(
            rest,
            0,
            Scan::Code,
        ),
        without_trailing_commas(code + rest, i, Scan::Code) == code.skip(i)
            + without_trailing_commas(code + rest, code.len() as int, Scan::Code),
    decreases code.len() - i,
{
    if i == code.len() {
        lemma_uncommented_behind(code, rest, 0, Scan::Code);
        assert(code.skip(i) =~= Seq::<char>::empty());
        assert(code.skip(i) + uncommented(rest, 0, Scan::Code) =~= uncommented(
            rest,
            0,
            Scan::Code,
        ));
        let after = without_trailing_commas(code + rest, code.len() as int, Scan::Code);
        assert(code.skip(i) + after =~= after);
    } else {
        lemma_code_kept(code, rest, i + 1);
        assert((code + rest)[i] == code[i]);
        assert(seq![code[i]] + (code.skip(i + 1) + uncommented(rest, 0, Scan::Code)) =~= code.skip(
            i,
        ) + uncommented(rest, 0, Scan::Code));
        let after = without_trailing_commas(code + rest, code.len() as int, Scan::Code);
        assert(seq![code[i]] + (code.skip(i + 1) + after) =~= code.skip(i) + after);
    }
}

proof fn lemma_string_kept(inner: Seq<char>, rest: Seq<char>, i: int)
    requires
        0 <= i <= inner.len(),
        plain_string(inner),
    ensures
        uncommented(inner + seq!['"'] + rest, i, Scan::InString(false)) == inner.skip(i) + seq!['"']
            + uncommented(rest, 0, Scan::Code),
    decreases inner.len() - i,
{
    let s = inner + seq!['"'] + rest;
    let head = inner + seq!['"'];
    if i == inner.len() {
        assert(s =~= head + rest);
        lemma_uncommented_behind(head, rest, 0, Scan::Code);
        assert(s[i] == '"');
        assert(seq!['"'] + uncommented(rest, 0, Scan::Code) =~= inner.skip(i) + seq!['"']
            + uncommented(rest, 0, Scan::Code));
    } else {
        assert(s[i] == inner[i]);
        lemma_string_kept(inner, rest, i + 1);
        assert(seq![inner[i]] + (inner.skip(i + 1) + seq!['"'] + uncommented(rest, 0, Scan::Code))
            =~= inner.skip(i) + seq!['"'] + uncommented(rest, 0, Scan::Code));
    }
}

proof fn lemma_line_comment_dropped(comment: Seq<char>, rest: Seq<char>, i: int)
    requires
        0 <= i <= comment.len(),
        !comment.contains('\n'),
    ensures
        uncommented(comment + seq!['\n'] + rest, i, Scan::LineComment) == seq!['\n'] + uncommented(
            rest,
            0,
            Scan::Code,
        ),
        uncommented(comment, i, Scan::LineComment).len() == 0,
    decreases comment.len() - i,
{
    let s = comment + seq!['\n'] + rest;
    let head = comment + seq!['\n'];
    if i == comment.len() {
        assert(s =~= head + rest);
        lemma_uncommented_behind(head, rest, 0, Scan::Code);
        assert(s[i] == '\n');
    } else {
        assert(s[i] == comment[i]);
        assert(comment.contains(comment[i]));
        lemma_line_comment_dropped(comment, rest, i + 1);
    }
}

proof fn lemma_block_comment_dropped(comment: Seq<char>, rest: Seq<char>, i: int)
    requires
        0 <= i <= comment.len(),
        !comment.contains('\n'),
        !comment.contains('*'),
    ensures
        uncommented(comment + seq!['*', '/'] + rest, i, Scan::BlockComment(false)) == uncommented(
            rest,
            0,
            Scan::Code,
        ),
    decreases comment.len() - i,
{
    let s = comment + seq!['*', '/'] + rest;
    let head = comment + seq!['*', '/'];
    if i == comment.len() {
        assert(s =~= head + rest);
        lemma_uncommented_behind(head, rest, 0, Scan::Code);
        assert(s[i] == '*');
        assert(s[i + 1] == '/');
        assert(uncommented(s, i, Scan::BlockComment(false)) == uncommented(
            s,
            i + 1,
            Scan::BlockComment(true),
        ));
        assert(uncommented(s, i + 1, Scan::BlockComment(true)) == uncommented(
            s,
            i + 2,
            Scan::Code,
        ));
    } else {
        assert(s[i] == comment[i]);
        assert(comment.contains(comment[i]));
        lemma_block_comment_dropped(comment, rest, i + 1);
    }
}

/// Code is kept. A comment to the end of its line goes, but not the newline; a
/// comment between its marks goes with them; and what stands in a string is kept,
/// even where it looks like a comment.
pub proof fn comments_go_and_strings_stay(
    code: Seq<char>,
    inner: Seq<char>,
    rest: Seq<char>,
)
    requires
        plain_code(code),
    ensures
        uncommented(code, 0, Scan::Code) == code,
        !inner.contains('\n') ==> uncommented(
            code + seq!['/', '/'] + inner + seq!['\n'] + rest,
            0,
            Scan::Code,
        ) == code + seq!['\n'] + uncommented(rest, 0, Scan::Code),
        !inner.contains('\n') && !inner.contains('*') ==> uncommented(
            code + seq!['/', '*'] + inner + seq!['*', '/'] + rest,
            0,
            Scan::Code,
        ) == code + uncommented(rest, 0, Scan::Code),
        plain_string(inner) ==> uncommented(
            code + seq!['"'] + inner + seq!['"'] + rest,
            0,
            Scan::Code,
        ) == code + seq!['"'] + inner + seq!['"'] + uncommented(rest, 0, Scan::Code),
{
    let none = Seq::<char>::empty();
    assert(code.skip(0) =~= code);
    assert(inner.skip(0) =~= inner);
    lemma_code_kept(code, none, 0);
    assert(code + none =~= code);
    assert(uncommented(none, 0, Scan::Code) =~= none);
    assert(code + uncommented(none, 0, Scan::Code) =~= code);
    if !inner.contains('\n') {
        let tail = seq!['/', '/'] + inner + seq!['\n'] + rest;
        assert(code + seq!['/', '/'] + inner + seq!['\n'] + rest =~= code + tail);
        lemma_code_kept(code, tail, 0);
        assert(tail =~= seq!['/', '/'] + (inner + seq!['\n'] + rest));
        assert(tail[0] == '/' && tail[1] == '/');
        lemma_uncommented_behind(
            seq!['/', '/'],
            inner + seq!['\n'] + rest,
            0,
            Scan::LineComment,
        );
        lemma_line_comment_dropped(inner, rest, 0);
        assert(code + (seq!['\n'] + uncommented(rest, 0, Scan::Code)) =~= code + seq!['\n']
            + uncommented(rest, 0, Scan::Code));
    }
    if !inner.contains('\n') && !inner.contains('*') {
        let tail = seq!['/', '*'] + inner + seq!['*', '/'] + rest;
        assert(code + seq!['/', '*'] + inner + seq!['*', '/'] + rest =~= code + tail);
        lemma_code_kept(code, tail, 0);
        assert(tail =~= seq!['/', '*'] + (inner + seq!['*', '/'] + rest));
        assert(tail[0] == '/' && tail[1] == '*');
        lemma_uncommented_behind(
            seq!['/', '*'],
            inner + seq!['*', '/'] + rest,
            0,
            Scan::BlockComment(false),
        );
        lemma_block_comment_dropped(inner, rest, 0);
    }
    if plain_string(inner) {
        let tail = seq!['"'] + inner + seq!['"'] + rest;
        assert(code + seq!['"'] + inner + seq!['"'] + rest =~= code + tail);
        lemma_code_kept(code, tail, 0);
        assert(tail =~= seq!['"'] + (inner + seq!['"'] + rest));
        assert(tail[0] == '"');
        lemma_uncommented_behind(
            seq!['"'],
            inner + seq!['"'] + rest,
            0,
            Scan::InString(false),
        );
        lemma_string_kept(inner, rest, 0);
        assert(code + (seq!['"'] + (inner + seq!['"'] + uncommented(rest, 0, Scan::Code))) =~= code
            + seq!['"'] + inner + seq!['"'] + uncommented(rest, 0, Scan::Code));
    }
}

/// A comma goes where, but for white space, only a closing bracket or nothing
/// follows; every other comma and all the rest of the code is kept.
pub proof fn trailing_commas_go(code: Seq<char>, white: Seq<char>, rest: Seq<char>)
    requires
        plain_code(code),
        text::is_blank(white),
        rest.len() == 0 || !text::is_white(rest[0]),
    ensures
        without_trailing_commas(code, 0, Scan::Code) == code,
        ({
            let s = code + seq![','] + white + rest;
            let n = code.len() as int;
            let behind = without_trailing_commas(s, n + 1, Scan::Code);
            let closing = rest.len() == 0 || rest[0] == '}' || rest[0] == ']';
            &&& closing ==> without_trailing_commas(s, 0, Scan::Code) == code + behind
            &&& !closing ==> without_trailing_commas(s, 0, Scan::Code) == code + seq![','] + behind
        }),
{
    let none = Seq::<char>::empty();
    assert(code.skip(0) =~= code);
    lemma_code_kept(code, none, 0);
    assert(code + none =~= code);
    assert(without_trailing_commas(code, code.len() as int, Scan::Code) =~= none);
    assert(code + none =~= code);
    let s = code + seq![','] + white + rest;
    let n = code.len() as int;
    let tail = seq![','] + white + rest;
    assert(s =~= code + tail);
    lemma_code_kept(code, tail, 0);
    assert(s[n] == ',');
    let at = n + 1 + white.len();
    text::lemma_skip_white(s, n + 1);
    let next = text::skip_white(s, n + 1);
    assert(next == at) by {
        if next < at {
            assert(s[next] == white[next - (n + 1)]);
            assert(text::is_white(white[next - (n + 1)]));
        }
        if next > at {
            assert(rest.len() > 0);
            assert(s[at] == rest[0]);
            assert(text::is_white(s[at]));
        }
    }
    if rest.len() > 0 {
        assert(s[at] == rest[0]);
    }
    let behind = without_trailing_commas(s, n + 1, Scan::Code);
    assert(code + (seq![','] + behind) =~= code + seq![','] + behind);
}

/// A dotted key names the settings on its way, and empty pieces name nothing.
pub proof fn keys_are_split_at_dots(key: Seq<char>)
    ensures
        key_segments(key) == text::split_at(key, '.').filter(|piece: Seq<char>| piece.len() > 0),
{
    lemma_segments(text::split_at(key, '.'));
}

proof fn lemma_segments(pieces: Seq<Seq<char>>)
    ensures
        segments_of(pieces) == pieces.filter(|piece: Seq<char>| piece.len() > 0),
    decreases pieces.len(),
{
    reveal(Seq::filter);
    let held = |piece: Seq<char>| piece.len() > 0;
    if pieces.len() > 0 {
        lemma_segments(pieces.drop_last());
        assert(segments_of(pieces.drop_last()) == pieces.drop_last().filter(held));
    } else {
        assert(segments_of(pieces) =~= pieces.filter(held));
    }
}

/// Of two values the later one holds, but objects are laid over each other: what
/// only one of them has is kept, and what both have is laid over in turn.
pub proof fn later_values_hold(
    old_entries: Seq<(Seq<char>, json::JsonView)>,
    new_entries: Seq<(Seq<char>, json::JsonView)>,
    existing: json::JsonView,
    incoming: json::JsonView,
    key: Seq<char>,
    other: Seq<char>,
    value: json::JsonView,
)
    requires
        other != key,
    ensures
        !(existing is Object) || !(incoming is Object) ==> merged(existing, incoming) == incoming,
        merged(json::JsonView::Object(old_entries), json::JsonView::Object(Seq::empty()))
            == json::JsonView::Object(old_entries),
        ({
            let before = merged(
                json::JsonView::Object(old_entries),
                json::JsonView::Object(new_entries),
            );
            let after = merged(
                json::JsonView::Object(old_entries),
                json::JsonView::Object(new_entries.push((key, value))),
            );
            &&& before.get(key) is None ==> after.get(key) == Some(value)
            &&& before.get(key) is Some ==> after.get(key) == Some(
                merged(before.get(key)->Some_0, value),
            )
            &&& after.get(other) == before.get(other)
        }),
{
    assert(new_entries.push((key, value)).drop_last() =~= new_entries);
    let earlier = merged_entries(old_entries, new_entries);
    assert(new_entries.push((key, value)).last() == (key, value));
    json::lemma_entry_index(earlier, key, 0);
    match json::lookup(earlier, key, 0) {
        Some(held) => {
            lemma_lookup_with_entry(earlier, key, merged(held, value), key);
            lemma_lookup_with_entry(earlier, key, merged(held, value), other);
        },
        None => {
            lemma_lookup_pushed(earlier, key, value, key, 0);
            lemma_lookup_pushed(earlier, key, value, other, 0);
        },
    }
}

/// Each section that is asked for is answered with the settings under its name,
/// null where there are none; no name asks for all of them.
pub proof fn sections_are_answered(
    settings: json::JsonView,
    params: json::JsonView,
    items: Seq<json::JsonView>,
    section: Seq<char>,
    i: int,
)
    requires
        0 <= i < items.len(),
        params.get("items"@) == Some(json::JsonView::Array(items)),
    ensures
        configuration(settings, params) is Array,
        configuration(settings, params)->Array_0.len() == items.len(),
        ({
            let answer = configuration(settings, params)->Array_0[i];
            &&& items[i].get("section"@) is None ==> answer == settings
            &&& items[i].get("section"@) == Some(json::JsonView::Str(section)) && text::is_blank(
                section,
            ) ==> answer == settings
            &&& items[i].get("section"@) == Some(json::JsonView::Str(section)) && !text::is_blank(
                section,
            ) ==> {
                let found = setting_at(settings, key_segments(text::trimmed(section)));
                &&& found is Some ==> answer == found->Some_0
                &&& found is None ==> answer is Null
            }
        }),
{
}

/// A path below the workspace variable is the path below the folder, and text
/// without a variable stays as it is.
pub proof fn variables_stand_for_the_folder(value: Seq<char>, folder: Seq<char>, rest: Seq<char>)
    requires
        rest.len() == 0 || !is_separator(rest[0]),
    ensures
        expanded_text("${workspaceFolder}"@ + seq!['/'] + rest, folder) == paths::joined(
            folder,
            with_slashes(rest),
        ),
        !text::holds_text(value, "${workspaceFolder}"@) && !text::holds_text(
            value,
            "${workspaceRoot}"@,
        ) && !text::holds_text(value, "${workspaceFolderBasename}"@) ==> expanded_text(
            value,
            folder,
        ) == value,
{
    let variable = "${workspaceFolder}"@;
    let given = variable + seq!['/'] + rest;
    assert(given.subrange(0, variable.len() as int) =~= variable);
    let suffix = given.skip(variable.len() as int);
    assert(suffix =~= seq!['/'] + rest);
    assert(suffix[0] == '/');
    assert(skip_separators(suffix, 1) == 1) by {
        if rest.len() > 0 {
            assert(suffix[1] == rest[0]);
        }
    }
    assert(skip_separators(suffix, 0) == 1);
    assert(suffix.skip(1) =~= rest);
    if !text::holds_text(value, "${workspaceFolder}"@) && !text::holds_text(
        value,
        "${workspaceRoot}"@,
    ) && !text::holds_text(value, "${workspaceFolderBasename}"@) {
        lemma_not_replaced(value, "${workspaceFolder}"@, folder);
        lemma_not_replaced(value, "${workspaceRoot}"@, folder);
        lemma_not_replaced(value, "${workspaceFolderBasename}"@, folder_name(folder));
    }
}

proof fn lemma_not_replaced(value: Seq<char>, variable: Seq<char>, by: Seq<char>)
    requires
        !text::holds_text(value, variable),
    ensures
        text::replaced(value, variable, by) == value,
        !text::begins(value, variable),
{
    text::lemma_find_text(value, variable, 0);
    assert(!text::occurs_at(value, variable, 0));
    assert(value.skip(0) =~= value);
    match text::find_text(value, variable, 0) {
        Some(at) => {
            assert(text::occurs_at(value, variable, at));
        },
        None => {},
    }
}

/// Everything in a value is expanded, and nothing is added or left out.
pub proof fn every_text_is_expanded(
    items: Seq<json::JsonView>,
    entries: Seq<(Seq<char>, json::JsonView)>,
    leaf: json::JsonView,
    given: Seq<char>,
    folder: Seq<char>,
    i: int,
)
    requires
        0 <= i,
    ensures
        expanded(json::JsonView::Str(given), folder) == json::JsonView::Str(
            expanded_text(given, folder),
        ),
        leaf is Null || leaf is Bool || leaf is Number ==> expanded(leaf, folder) == leaf,
        expanded(json::JsonView::Array(items), folder)->Array_0.len() == items.len(),
        i < items.len() ==> expanded(json::JsonView::Array(items), folder)->Array_0[i] == expanded(
            items[i],
            folder,
        ),
        expanded(json::JsonView::Object(entries), folder)->Object_0.len() == entries.len(),
        i < entries.len() ==> expanded(json::JsonView::Object(entries), folder)->Object_0[i] == (
            entries[i].0,
            expanded(entries[i].1, folder),
        ),
{
}

/// The settings of a folder stand in its own file, and where there is none the
/// settings are empty.
pub proof fn settings_stand_in_their_file(folder: Seq<char>, value: json::JsonView)
    ensures
        settings_file(folder) == paths::joined(paths::joined(folder, ".vscode"@), "settings.json"@),
        settings_of(None, folder) == json::JsonView::Object(Seq::empty()),
        settings_of(Some(value), folder) == normalized(expanded(value, folder)),
{
}


proof fn lemma_dollars()
    ensures
        forall|i: int|
            0 <= i < "${workspaceFolder}"@.len() ==> (#[trigger] "${workspaceFolder}"@[i] == '$') == (i
                == 0),
        forall|i: int|
            0 <= i < "${workspaceRoot}"@.len() ==> (#[trigger] "${workspaceRoot}"@[i] == '$') == (i
                == 0),
        forall|i: int|
            0 <= i < "${workspaceFolderBasename}"@.len() ==> (
            #[trigger] "${workspaceFolderBasename}"@[i] == '$') == (i == 0),
        "${workspaceFolder}"@.len() == 18,
        "${workspaceRoot}"@.len() == 16,
        "${workspaceFolderBasename}"@.len() == 26,
        "${workspaceFolder}"@[11] == 'F',
        "${workspaceRoot}"@[11] == 'R',
        "${workspaceFolderBasename}"@[11] == 'F',
        "${workspaceFolder}"@[17] == '}',
        "${workspaceFolderBasename}"@[17] == 'B',
{
    reveal_strlit("${workspaceFolder}");
    reveal_strlit("${workspaceRoot}");
    reveal_strlit("${workspaceFolderBasename}");
    assert("${workspaceFolder}"@ =~= seq![
        '$', '{', 'w', 'o', 'r', 'k', 's', 'p', 'a', 'c', 'e', 'F', 'o', 'l', 'd', 'e', 'r', '}',
    ]);
    assert("${workspaceRoot}"@ =~= seq![
        '$', '{', 'w', 'o', 'r', 'k', 's', 'p', 'a', 'c', 'e', 'R', 'o', 'o', 't', '}',
    ]);
    assert("${workspaceFolderBasename}"@ =~= seq![
        '$', '{', 'w', 'o', 'r', 'k', 's', 'p', 'a', 'c', 'e', 'F', 'o', 'l', 'd', 'e', 'r', 'B',
        'a', 's', 'e', 'n', 'a', 'm', 'e', '}',
    ]);
}

proof fn lemma_found_at_the_mark(
    before: Seq<char>,
    variable: Seq<char>,
    after: Seq<char>,
    other: Seq<char>,
    at: int,
)
    requires
        !before.contains('$'),
        !after.contains('$'),
        variable.len() > 0,
        forall|i: int|
            0 <= i < variable.len() ==> (#[trigger] variable[i] == '$') == (i == 0),
        other.len() > 0,
        other[0] == '$',
        text::occurs_at(before + variable + after, other, at),
    ensures
        at == before.len(),
{
    let s = before + variable + after;
    assert(s.subrange(at, at + other.len())[0] == s[at]);
    assert(s[at] == '$');
    if at < before.len() {
        assert(before.contains(before[at]));
    } else if at < before.len() + variable.len() {
        assert(s[at] == variable[at - before.len()]);
    } else {
        assert(after.contains(after[at - before.len() - variable.len()]));
    }
}

proof fn lemma_replaced_once(
    before: Seq<char>,
    variable: Seq<char>,
    after: Seq<char>,
    by: Seq<char>,
)
    requires
        !before.contains('$'),
        !after.contains('$'),
        variable.len() > 0,
        forall|i: int|
            0 <= i < variable.len() ==> (#[trigger] variable[i] == '$') == (i == 0),
    ensures
        text::replaced(before + variable + after, variable, by) == before + by + after,
{
    let s = before + variable + after;
    let n = before.len() as int;
    let m = n + variable.len();
    text::lemma_find_text(s, variable, 0);
    text::lemma_find_text(s, variable, m);
    assert(s.subrange(n, m) =~= variable);
    assert(text::occurs_at(s, variable, n));
    match text::find_text(s, variable, 0) {
        Some(at) => {
            lemma_found_at_the_mark(before, variable, after, variable, at);
        },
        None => {},
    }
    match text::find_text(s, variable, m) {
        Some(at) => {
            lemma_found_at_the_mark(before, variable, after, variable, at);
        },
        None => {},
    }
    assert(text::replaced_from(s, variable, by, m) =~= after);
    assert(s.subrange(0, n) =~= before);
}

proof fn lemma_other_variable(
    before: Seq<char>,
    variable: Seq<char>,
    after: Seq<char>,
    other: Seq<char>,
    by: Seq<char>,
    differ: int,
)
    requires
        !before.contains('$'),
        !after.contains('$'),
        variable.len() > 0,
        forall|i: int|
            0 <= i < variable.len() ==> (#[trigger] variable[i] == '$') == (i == 0),
        other.len() > 0,
        other[0] == '$',
        0 <= differ < variable.len(),
        differ < other.len(),
        variable[differ] != other[differ],
    ensures
        text::replaced(before + variable + after, other, by) == before + variable + after,
        !text::begins(before + variable + after, other),
{
    let s = before + variable + after;
    if text::holds_text(s, other) {
        let at = choose|at: int| #[trigger] text::occurs_at(s, other, at);
        lemma_found_at_the_mark(before, variable, after, other, at);
        assert(s.subrange(at, at + other.len())[differ] == s[at + differ]);
        assert(s[at + differ] == variable[differ]);
    }
    lemma_not_replaced(s, other, by);
}

proof fn lemma_no_mark(s: Seq<char>, variable: Seq<char>, by: Seq<char>)
    requires
        !s.contains('$'),
        variable.len() > 0,
        variable[0] == '$',
    ensures
        text::replaced(s, variable, by) == s,
{
    if text::holds_text(s, variable) {
        let at = choose|at: int| #[trigger] text::occurs_at(s, variable, at);
        assert(s.subrange(at, at + variable.len())[0] == s[at]);
        assert(s.contains(s[at]));
    }
    lemma_not_replaced(s, variable, by);
}

proof fn lemma_three_parts(a: Seq<char>, b: Seq<char>, c: Seq<char>)
    requires
        !a.contains('$'),
        !b.contains('$'),
        !c.contains('$'),
    ensures
        !(a + b + c).contains('$'),
{
    let s = a + b + c;
    if s.contains('$') {
        let i = choose|i: int| 0 <= i < s.len() && s[i] == '$';
        if i < a.len() {
            assert(a.contains(a[i]));
        } else if i < a.len() + b.len() {
            assert(b.contains(b[i - a.len()]));
        } else {
            assert(c.contains(c[i - a.len() - b.len()]));
        }
    }
}

proof fn lemma_no_path_behind(
    before: Seq<char>,
    variable: Seq<char>,
    after: Seq<char>,
    folder: Seq<char>,
)
    requires
        variable.len() > 0,
        variable[0] == '$',
        !before.contains('$'),
        before.len() > 0 || after.len() == 0 || !is_separator(after[0]),
    ensures
        path_below_variable(before + variable + after, variable, folder) is None,
{
    let s = before + variable + after;
    if before.len() > 0 {
        if text::begins(s, variable) {
            assert(s.subrange(0, variable.len() as int)[0] == before[0]);
            assert(before.contains(before[0]));
        }
    } else {
        assert(s.skip(variable.len() as int) =~= after);
        assert(skip_separators(after, 0) == 0);
    }
}

/// Wherever a variable stands in a text, but for a path below it, the folder
/// stands in its place: its path for the folder or root, its name for the base
/// name. The rest of the text is kept.
pub proof fn variables_are_replaced_where_they_stand(
    before: Seq<char>,
    after: Seq<char>,
    folder: Seq<char>,
)
    requires
        !before.contains('$'),
        !after.contains('$'),
        !folder.contains('$'),
        before.len() > 0 || after.len() == 0 || !is_separator(after[0]),
    ensures
        expanded_text(before + "${workspaceFolder}"@ + after, folder) == before + folder + after,
        expanded_text(before + "${workspaceRoot}"@ + after, folder) == before + folder + after,
        paths::name_of(folder) matches Some(name) ==> expanded_text(
            before + "${workspaceFolderBasename}"@ + after,
            folder,
        ) == before + name + after,
        paths::name_of(folder) is None ==> expanded_text(
            before + "${workspaceFolderBasename}"@ + after,
            folder,
        ) == before + after,
{
    lemma_dollars();
    let whole = "${workspaceFolder}"@;
    let root = "${workspaceRoot}"@;
    let base = "${workspaceFolderBasename}"@;
    let name = folder_name(folder);
    lemma_three_parts(before, folder, after);
    let done = before + folder + after;
    lemma_no_mark(done, root, folder);
    lemma_no_mark(done, base, name);

    lemma_replaced_once(before, whole, after, folder);
    lemma_no_path_behind(before, whole, after, folder);
    lemma_other_variable(before, whole, after, root, folder, 11);

    lemma_other_variable(before, root, after, whole, folder, 11);
    lemma_replaced_once(before, root, after, folder);
    lemma_no_path_behind(before, root, after, folder);

    lemma_other_variable(before, base, after, whole, folder, 17);
    lemma_other_variable(before, base, after, root, folder, 11);
    lemma_replaced_once(before, base, after, name);
    if paths::name_of(folder) is None {
        assert(before + name + after =~= before + after);
    }
}

/// A path below the folder or the root variable is the path below the folder,
/// however many separators come between, and its separators are slashes.
pub proof fn paths_below_variables_are_below_the_folder(
    between: Seq<char>,
    rest: Seq<char>,
    shown: Seq<char>,
    folder: Seq<char>,
)
    requires
        between.len() > 0,
        forall|i: int|
            0 <= i < between.len() ==> (#[trigger] between[i] == '/' || between[i] == '\\'),
        rest.len() == 0 || (rest[0] != '/' && rest[0] != '\\'),
        shown.len() == rest.len(),
        forall|i: int|
            0 <= i < rest.len() ==> #[trigger] shown[i] == if rest[i] == '\\' {
                '/'
            } else {
                rest[i]
            },
    ensures
        expanded_text("${workspaceFolder}"@ + between + rest, folder) == paths::joined(
            folder,
            shown,
        ),
        expanded_text("${workspaceRoot}"@ + between + rest, folder) == paths::joined(
            folder,
            shown,
        ),
{
    lemma_dollars();
    let whole = "${workspaceFolder}"@;
    let root = "${workspaceRoot}"@;
    lemma_below_variable(whole, between, rest, folder);
    lemma_below_variable(root, between, rest, folder);
    let s = root + between + rest;
    if text::begins(s, whole) {
        assert(s.subrange(0, whole.len() as int)[11] == s[11]);
        assert(s[11] == root[11]);
    }
    assert(with_slashes(rest) =~= shown);
}

proof fn lemma_below_variable(
    variable: Seq<char>,
    between: Seq<char>,
    rest: Seq<char>,
    folder: Seq<char>,
)
    requires
        between.len() > 0,
        forall|i: int|
            0 <= i < between.len() ==> (#[trigger] between[i] == '/' || between[i] == '\\'),
        rest.len() == 0 || (rest[0] != '/' && rest[0] != '\\'),
    ensures
        path_below_variable(variable + between + rest, variable, folder) == Some(
            paths::joined(folder, with_slashes(rest)),
        ),
{
    let s = variable + between + rest;
    assert(s.subrange(0, variable.len() as int) =~= variable);
    let suffix = s.skip(variable.len() as int);
    assert(suffix =~= between + rest);
    lemma_separators_skipped(between, rest, 0);
    assert(suffix.skip(between.len() as int) =~= rest);
}

proof fn lemma_separators_skipped(between: Seq<char>, rest: Seq<char>, i: int)
    requires
        0 <= i <= between.len(),
        forall|i: int|
            0 <= i < between.len() ==> (#[trigger] between[i] == '/' || between[i] == '\\'),
        rest.len() == 0 || (rest[0] != '/' && rest[0] != '\\'),
    ensures
        skip_separators(between + rest, i) == between.len(),
    decreases between.len() - i,
{
    let s = between + rest;
    if i < between.len() {
        assert(s[i] == between[i]);
        lemma_separators_skipped(between, rest, i + 1);
    } else if rest.len() > 0 {
        assert(s[i] == rest[0]);
    }
}

/// Byte order marks at the start of a text of settings do not matter.
pub proof fn byte_order_marks_do_not_matter(s: Seq<char>)
    ensures
        plain_json(seq!['\u{feff}'] + s) == plain_json(s),
        s.len() > 0 && s[0] != '\u{feff}' ==> plain_json(s) == without_trailing_commas(
            uncommented(s, 0, Scan::Code),
            0,
            Scan::Code,
        ),
{
    let marked = seq!['\u{feff}'] + s;
    assert(marked.skip(1) =~= s);
}


spec fn is_line_end() -> spec_fn(char) -> bool {
    |c: char| c == '\n'
}

proof fn lemma_block_comment_leaves_line_ends(comment: Seq<char>, rest: Seq<char>, i: int)
    requires
        0 <= i <= comment.len(),
        forall|k: int|
            0 <= k < comment.len() && #[trigger] comment[k] == '*' ==> (comment + seq!['*'])[k + 1]
                != '/',
    ensures
        uncommented(
            comment + seq!['*', '/'] + rest,
            i,
            Scan::BlockComment(i > 0 && comment[i - 1] == '*'),
        ) == comment.skip(i).filter(is_line_end()) + uncommented(rest, 0, Scan::Code),
    decreases comment.len() - i,
{
    reveal(Seq::filter);
    let s = comment + seq!['*', '/'] + rest;
    let head = comment + seq!['*', '/'];
    let star = i > 0 && comment[i - 1] == '*';
    let kept = comment.skip(i).filter(is_line_end());
    let behind = uncommented(rest, 0, Scan::Code);
    if i == comment.len() {
        assert(s =~= head + rest);
        lemma_uncommented_behind(head, rest, 0, Scan::Code);
        assert(s[i] == '*');
        assert(s[i + 1] == '/');
        assert(uncommented(s, i, Scan::BlockComment(star)) == uncommented(
            s,
            i + 1,
            Scan::BlockComment(true),
        ));
        assert(uncommented(s, i + 1, Scan::BlockComment(true)) == uncommented(
            s,
            i + 2,
            Scan::Code,
        ));
        assert(comment.skip(i) =~= Seq::<char>::empty());
        assert(kept + behind =~= behind);
    } else {
        let c = comment[i];
        assert(s[i] == c);
        if star {
            assert((comment + seq!['*'])[(i - 1) + 1] == comment[i]);
        }
        lemma_block_comment_leaves_line_ends(comment, rest, i + 1);
        let later = comment.skip(i + 1).filter(is_line_end());
        assert(comment.skip(i) =~= seq![c] + comment.skip(i + 1));
        Seq::filter_distributes_over_add(seq![c], comment.skip(i + 1), is_line_end());
        assert(seq![c].drop_last() =~= Seq::<char>::empty());
        assert(Seq::<char>::empty().filter(is_line_end()) =~= Seq::<char>::empty());
        assert(seq![c].last() == c);
        assert(is_line_end()(c) == (c == '\n'));
        if c == '\n' {
            assert(seq![c].filter(is_line_end()) =~= seq![c]);
            assert(kept + behind =~= seq![c] + (later + behind));
        } else {
            assert(seq![c].filter(is_line_end()) =~= Seq::<char>::empty());
            assert(kept =~= later);
        }
    }
}

/// A comment ends at the first closing mark; of what stands in it only the
/// newlines are kept.
pub proof fn comments_between_marks_leave_their_newlines(
    code: Seq<char>,
    comment: Seq<char>,
    rest: Seq<char>,
)
    requires
        plain_code(code),
        forall|k: int|
            0 <= k < comment.len() && #[trigger] comment[k] == '*' ==> (comment + seq!['*'])[k + 1]
                != '/',
    ensures
        uncommented(code + seq!['/', '*'] + comment + seq!['*', '/'] + rest, 0, Scan::Code) == code
            + comment.filter(|c: char| c == '\n') + uncommented(rest, 0, Scan::Code),
{
    let tail = seq!['/', '*'] + comment + seq!['*', '/'] + rest;
    let inner = comment + seq!['*', '/'] + rest;
    assert(code.skip(0) =~= code);
    assert(code + seq!['/', '*'] + comment + seq!['*', '/'] + rest =~= code + tail);
    lemma_code_kept(code, tail, 0);
    assert(tail =~= seq!['/', '*'] + inner);
    assert(tail[0] == '/' && tail[1] == '*');
    lemma_uncommented_behind(seq!['/', '*'], inner, 0, Scan::BlockComment(false));
    lemma_block_comment_leaves_line_ends(comment, rest, 0);
    assert(comment.skip(0) =~= comment);
    assert(is_line_end() =~= (|c: char| c == '\n'));
    let behind = uncommented(rest, 0, Scan::Code);
    let kept = comment.filter(is_line_end());
    assert(code + (kept + behind) =~= code + kept + behind);
}

proof fn lemma_white_behind(before: Seq<char>, s: Seq<char>, i: int)
    requires
        0 <= i <= s.len(),
    ensures
        text::skip_white(before + s, before.len() + i) == before.len() + text::skip_white(s, i),
    decreases s.len() - i,
{
    let t = before + s;
    if i < s.len() {
        assert(t[before.len() + i] == s[i]);
        lemma_white_behind(before, s, i + 1);
    }
}

proof fn lemma_commas_behind(before: Seq<char>, s: Seq<char>, i: int, place: Scan)
    requires
        0 <= i,
    ensures
        without_trailing_commas(before + s, before.len() + i, place) == without_trailing_commas(
            s,
            i,
            place,
        ),
    decreases s.len() - i,
{
    let t = before + s;
    let n = before.len() as int;
    if i < s.len() {
        assert(t[n + i] == s[i]);
        lemma_white_behind(before, s, i + 1);
        let next = text::skip_white(s, i + 1);
        text::lemma_skip_white(s, i + 1);
        if next < s.len() {
            assert(t[n + next] == s[next]);
        }
        assert(closes(t, n + i + 1) == closes(s, i + 1));
        match place {
            Scan::InString(escaped) => {
                lemma_commas_behind(before, s, i + 1, behind_string_char(s[i], escaped));
            },
            _ => {
                lemma_commas_behind(before, s, i + 1, Scan::InString(false));
                lemma_commas_behind(before, s, i + 1, Scan::Code);
            },
        }
    }
}

proof fn lemma_inside_string(inner: Seq<char>, rest: Seq<char>, i: int)
    requires
        0 <= i <= inner.len(),
        plain_string(inner),
    ensures
        uncommented(inner + rest, i, Scan::InString(false)) == inner.skip(i) + uncommented(
            rest,
            0,
            Scan::InString(false),
        ),
        without_trailing_commas(inner + rest, i, Scan::InString(false)) == inner.skip(i)
            + without_trailing_commas(rest, 0, Scan::InString(false)),
    decreases inner.len() - i,
{
    let s = inner + rest;
    if i == inner.len() {
        lemma_uncommented_behind(inner, rest, 0, Scan::InString(false));
        lemma_commas_behind(inner, rest, 0, Scan::InString(false));
        assert(inner.skip(i) + uncommented(rest, 0, Scan::InString(false)) =~= uncommented(
            rest,
            0,
            Scan::InString(false),
        ));
        assert(inner.skip(i) + without_trailing_commas(rest, 0, Scan::InString(false))
            =~= without_trailing_commas(rest, 0, Scan::InString(false)));
    } else {
        assert(s[i] == inner[i]);
        lemma_inside_string(inner, rest, i + 1);
        assert(seq![inner[i]] + (inner.skip(i + 1) + uncommented(rest, 0, Scan::InString(false)))
            =~= inner.skip(i) + uncommented(rest, 0, Scan::InString(false)));
        assert(seq![inner[i]] + (inner.skip(i + 1) + without_trailing_commas(
            rest,
            0,
            Scan::InString(false),
        )) =~= inner.skip(i) + without_trailing_commas(rest, 0, Scan::InString(false)));
    }
}

/// A character behind a backslash neither ends the string that it stands in
/// nor begins an escape of its own: the string goes on behind it, and both
/// characters are kept.
pub proof fn escaped_characters_do_not_end_strings(
    code: Seq<char>,
    inner: Seq<char>,
    escaped: char,
    rest: Seq<char>,
)
    requires
        plain_code(code),
        plain_string(inner),
    ensures
        uncommented(code + seq!['"'] + inner + seq!['\\', escaped] + rest, 0, Scan::Code) == code
            + seq!['"'] + inner + seq!['\\', escaped] + uncommented(
            seq!['"'] + rest,
            0,
            Scan::Code,
        ).skip(1),
        without_trailing_commas(
            code + seq!['"'] + inner + seq!['\\', escaped] + rest,
            0,
            Scan::Code,
        ) == code + seq!['"'] + inner + seq!['\\', escaped] + without_trailing_commas(
            seq!['"'] + rest,
            0,
            Scan::Code,
        ).skip(1),
{
    let opened = Scan::InString(false);
    let two = seq!['\\', escaped];
    let end = two + rest;
    let body = inner + end;
    let tail = seq!['"'] + body;
    let s = code + seq!['"'] + inner + two + rest;
    assert(s =~= code + tail);
    assert(code.skip(0) =~= code);
    assert(inner.skip(0) =~= inner);
    lemma_code_kept(code, tail, 0);
    lemma_commas_behind(code, tail, 0, Scan::Code);
    assert(tail[0] == '"');
    lemma_uncommented_behind(seq!['"'], body, 0, opened);
    lemma_commas_behind(seq!['"'], body, 0, opened);
    lemma_inside_string(inner, end, 0);
    assert(end[0] == '\\' && end[1] == escaped);
    lemma_uncommented_behind(two, rest, 0, opened);
    lemma_commas_behind(two, rest, 0, opened);
    let again = seq!['"'] + rest;
    assert(again[0] == '"');
    lemma_uncommented_behind(seq!['"'], rest, 0, opened);
    lemma_commas_behind(seq!['"'], rest, 0, opened);
    let a = uncommented(rest, 0, opened);
    let b = without_trailing_commas(rest, 0, opened);
    assert(uncommented(end, 1, Scan::InString(true)) == seq![escaped] + a);
    assert(uncommented(end, 0, opened) == seq!['\\'] + (seq![escaped] + a));
    assert(without_trailing_commas(end, 1, Scan::InString(true)) == seq![escaped] + b);
    assert(without_trailing_commas(end, 0, opened) == seq!['\\'] + (seq![escaped] + b));
    assert((seq!['"'] + a).skip(1) =~= a);
    assert((seq!['"'] + b).skip(1) =~= b);
    assert(code + (seq!['"'] + (inner + (seq!['\\'] + (seq![escaped] + a)))) =~= code + seq!['"']
        + inner + two + a);
    assert(code + (seq!['"'] + (inner + (seq!['\\'] + (seq![escaped] + b)))) =~= code + seq!['"']
        + inner + two + b);
}

/// What stands in a string is kept, commas and brackets too.
pub proof fn commas_in_strings_stay(code: Seq<char>, inner: Seq<char>, rest: Seq<char>)
    requires
        plain_code(code),
        plain_string(inner),
    ensures
        without_trailing_commas(code + seq!['"'] + inner + seq!['"'] + rest, 0, Scan::Code) == code
            + seq!['"'] + inner + seq!['"'] + without_trailing_commas(rest, 0, Scan::Code),
{
    let opened = Scan::InString(false);
    let end = seq!['"'] + rest;
    let body = inner + end;
    let tail = seq!['"'] + body;
    assert(code + seq!['"'] + inner + seq!['"'] + rest =~= code + tail);
    assert(code.skip(0) =~= code);
    assert(inner.skip(0) =~= inner);
    lemma_code_kept(code, tail, 0);
    lemma_commas_behind(code, tail, 0, Scan::Code);
    assert(tail[0] == '"');
    lemma_commas_behind(seq!['"'], body, 0, opened);
    lemma_inside_string(inner, end, 0);
    assert(end[0] == '"');
    lemma_commas_behind(seq!['"'], rest, 0, Scan::Code);
    let b = without_trailing_commas(rest, 0, Scan::Code);
    assert(without_trailing_commas(end, 0, opened) == seq!['"'] + b);
    assert(code + (seq!['"'] + (inner + (seq!['"'] + b))) =~= code + seq!['"'] + inner + seq!['"']
        + b);
}

/// Comments go before commas do: a comma is a trailing one also where a comment
/// follows it.
pub proof fn commas_before_comments_are_trailing(code: Seq<char>, comment: Seq<char>)
    requires
        plain_code(code),
        code.len() > 0,
        code[0] != '\u{feff}',
        !comment.contains('\n'),
    ensures
        plain_json(code + seq![',', '/', '/'] + comment + seq!['\n', '}']) == code + seq![
            '\n',
            '}',
        ],
{
    let s = code + seq![',', '/', '/'] + comment + seq!['\n', '}'];
    let tail = seq![','] + (seq!['/', '/'] + comment + seq!['\n'] + seq!['}']);
    let none = Seq::<char>::empty();
    assert(s =~= code + tail);
    assert(s[0] == code[0]);
    assert(code.skip(0) =~= code);
    lemma_code_kept(code, tail, 0);
    assert(tail[0] == ',');
    lemma_uncommented_behind(
        seq![','],
        seq!['/', '/'] + comment + seq!['\n'] + seq!['}'],
        0,
        Scan::Code,
    );
    comments_go_and_strings_stay(none, comment, seq!['}']);
    assert(none + seq!['/', '/'] + comment + seq!['\n'] + seq!['}'] =~= seq!['/', '/'] + comment
        + seq!['\n'] + seq!['}']);
    comments_go_and_strings_stay(seq!['}'], none, none);
    let bare = uncommented(s, 0, Scan::Code);
    assert(bare =~= code + seq![','] + seq!['\n'] + seq!['}']);
    assert(text::is_white('\n'));
    assert(text::is_blank(seq!['\n'])) by {
        text::lemma_skip_white(seq!['\n'], 0);
    }
    trailing_commas_go(code, seq!['\n'], seq!['}']);
    let n = code.len() as int;
    assert(bare.len() == n + 3);
    assert(bare[n + 1] == '\n' && bare[n + 2] == '}');
    assert(without_trailing_commas(bare, n + 3, Scan::Code) =~= none);
    assert(without_trailing_commas(bare, n + 2, Scan::Code) =~= seq!['}']);
    assert(without_trailing_commas(bare, n + 1, Scan::Code) =~= seq!['\n', '}']);
}

} // verus!
