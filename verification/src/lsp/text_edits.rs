//! Text edits as language servers send them: positions count lines and, within
//! a line, units of UTF-16.

use vstd::prelude::*;
use vstd::slice::slice_subrange;

use crate::json;
use crate::json::Json;
use crate::text;

verus! {

// ---------------------------------------------------------------------------
// Positions.

/// Whether a character ends a line.
pub open spec fn ends_line(c: char) -> bool {
    c == '\n' || c == '\r'
}

/// The end of the line that goes through position `from`.
pub open spec fn line_end(s: Seq<char>, from: int) -> int
    decreases s.len() - from,
{
    if 0 <= from < s.len() && !ends_line(s[from]) {
        line_end(s, from + 1)
    } else if from < s.len() {
        from
    } else {
        s.len() as int
    }
}

/// The position behind the line break at `end`; a carriage return and a
/// newline are one break.
pub open spec fn past_break(s: Seq<char>, end: int) -> int {
    if end + 1 < s.len() && s[end] == '\r' && s[end + 1] == '\n' {
        end + 2
    } else {
        end + 1
    }
}

/// The start of the line that lies `n` lines below the one that starts at
/// `from`.
pub open spec fn line_start(s: Seq<char>, from: int, n: int) -> Option<int>
    decreases n,
{
    if n <= 0 {
        Some(from)
    } else {
        let end = line_end(s, from);
        if end < s.len() {
            line_start(s, past_break(s, end), n - 1)
        } else {
            None
        }
    }
}

/// The character of a line, from the `i`-th on, before which the given number
/// of UTF-16 units lie.
pub open spec fn unit_position(line: Seq<char>, i: int, units: int) -> Result<int, Seq<char>>
    decreases line.len() - i,
{
    let at = text::utf16_len(line.take(i));
    if at == units {
        Ok(i)
    } else if i < 0 || i >= line.len() {
        Err("LSP character offset out of bounds"@)
    } else if text::utf16_len(line.take(i + 1)) > units {
        Err("LSP character offset splits a UTF-16 code point"@)
    } else {
        unit_position(line, i + 1, units)
    }
}

/// The position in the text that a line number and a number of units name.
pub open spec fn offset_at(s: Seq<char>, line: nat, character: nat) -> Result<int, Seq<char>> {
    if line > usize::MAX {
        Err("LSP line out of range"@)
    } else if character > usize::MAX {
        Err("LSP character out of range"@)
    } else {
        match line_start(s, 0, line as int) {
            Some(start) => match unit_position(
                s.subrange(start, line_end(s, start)),
                0,
                character as int,
            ) {
                Ok(i) => Ok(start + i),
                Err(message) => Err(message),
            },
            None => Err("LSP line out of bounds"@),
        }
    }
}

/// The position in the text that a position object names.
pub open spec fn position_offset(s: Seq<char>, position: json::JsonView) -> Result<int, Seq<char>> {
    match json::opt_as_u64(position.get("line"@)) {
        None => Err("LSP position missing line"@),
        Some(line) => match json::opt_as_u64(position.get("character"@)) {
            None => Err("LSP position missing character"@),
            Some(character) => offset_at(s, line, character),
        },
    }
}

proof fn lemma_line_end(s: Seq<char>, from: int)
    requires
        0 <= from <= s.len(),
    ensures
        from <= line_end(s, from) <= s.len(),
    decreases s.len() - from,
{
    if from < s.len() && !ends_line(s[from]) {
        lemma_line_end(s, from + 1);
    }
}

proof fn lemma_line_start(s: Seq<char>, from: int, n: int)
    requires
        0 <= from <= s.len(),
    ensures
        match line_start(s, from, n) {
            Some(start) => from <= start <= s.len(),
            None => true,
        },
    decreases n,
{
    if n > 0 {
        lemma_line_end(s, from);
        let end = line_end(s, from);
        if end < s.len() {
            lemma_line_start(s, past_break(s, end), n - 1);
        }
    }
}

/// The end of the line that goes through a position.
fn line_end_from(s: &[char], from: usize) -> (end: usize)
    requires
        from <= s@.len(),
    ensures
        end == line_end(s@, from as int),
        from <= end <= s@.len(),
{
    let mut i: usize = from;
    while i < s.len() && s[i] != '\n' && s[i] != '\r'
        invariant
            from <= i <= s@.len(),
            line_end(s@, i as int) == line_end(s@, from as int),
        decreases s@.len() - i,
    {
        i += 1;
    }
    i
}

/// The start of a line, counted from zero.
pub fn line_start_offset(s: &[char], target_line: usize) -> (r: Option<usize>)
    ensures
        match r {
            Some(start) => line_start(s@, 0, target_line as int) == Some(start as int) && start
                <= s@.len(),
            None => line_start(s@, 0, target_line as int) is None,
        },
{
    let mut left: usize = target_line;
    let mut from: usize = 0;
    while left > 0
        invariant
            left <= target_line,
            from <= s@.len(),
            line_start(s@, from as int, left as int) == line_start(s@, 0, target_line as int),
        decreases left,
    {
        let end: usize = line_end_from(s, from);
        if end >= s.len() {
            return None;
        }
        if s.len() - end > 1 && s[end] == '\r' && s[end + 1] == '\n' {
            from = end + 2;
        } else {
            from = end + 1;
        }
        left -= 1;
    }
    Some(from)
}

/// The character of a line before which a number of UTF-16 units lie.
pub fn utf16_character_offset(line: &[char], target: usize) -> (r: Result<usize, String>)
    ensures
        match r {
            Ok(i) => unit_position(line@, 0, target as int) == Ok::<_, Seq<char>>(i as int) && i
                <= line@.len(),
            Err(message) => unit_position(line@, 0, target as int) == Err::<int, _>(message@),
        },
{
    let mut i: usize = 0;
    let mut at: usize = 0;
    proof {
        assert(line@.take(0) =~= Seq::<char>::empty());
    }
    loop
        invariant
            i <= line@.len(),
            at == text::utf16_len(line@.take(i as int)),
            at <= target,
            unit_position(line@, i as int, target as int) == unit_position(
                line@,
                0,
                target as int,
            ),
        decreases line@.len() - i,
    {
        if at == target {
            return Ok(i);
        }
        if i >= line.len() {
            return Err("LSP character offset out of bounds".to_string());
        }
        let units: usize = text::char_units(line[i]);
        proof {
            assert(line@.take(i + 1).drop_last() =~= line@.take(i as int));
        }
        if target - at < units {
            return Err("LSP character offset splits a UTF-16 code point".to_string());
        }
        at += units;
        i += 1;
    }
}

/// The position in the text that a position object names.
pub fn lsp_position_to_offset(s: &[char], position: &Json) -> (r: Result<usize, String>)
    ensures
        match r {
            Ok(i) => position_offset(s@, position@) == Ok::<_, Seq<char>>(i as int) && i
                <= s@.len(),
            Err(message) => position_offset(s@, position@) == Err::<int, _>(message@),
        },
{
    let line: u64 = match position.get("line") {
        Some(value) => match value.as_u64() {
            Some(n) => n,
            None => {
                return Err("LSP position missing line".to_string());
            },
        },
        None => {
            return Err("LSP position missing line".to_string());
        },
    };
    let character: u64 = match position.get("character") {
        Some(value) => match value.as_u64() {
            Some(n) => n,
            None => {
                return Err("LSP position missing character".to_string());
            },
        },
        None => {
            return Err("LSP position missing character".to_string());
        },
    };
    if line > usize::MAX as u64 {
        return Err("LSP line out of range".to_string());
    }
    if character > usize::MAX as u64 {
        return Err("LSP character out of range".to_string());
    }
    match line_start_offset(s, line as usize) {
        Some(start) => {
            let end: usize = line_end_from(s, start);
            match utf16_character_offset(slice_subrange(s, start, end), character as usize) {
                Ok(i) => Ok(start + i),
                Err(message) => Err(message),
            }
        },
        None => Err("LSP line out of bounds".to_string()),
    }
}

// ---------------------------------------------------------------------------
// Edits.

/// An edit whose range has been found in the text.
pub struct ParsedTextEdit {
    pub start: usize,
    pub end: usize,
    pub new_text: String,
}

/// What a [`ParsedTextEdit`] stands for.
#[verifier::ext_equal]
pub ghost struct TextEditView {
    pub start: int,
    pub end: int,
    pub new_text: Seq<char>,
}

impl View for ParsedTextEdit {
    type V = TextEditView;

    open spec fn view(&self) -> TextEditView {
        TextEditView { start: self.start as int, end: self.end as int, new_text: self.new_text@ }
    }
}

/// The views of a list of edits.
pub open spec fn edit_views(edits: Seq<ParsedTextEdit>) -> Seq<TextEditView> {
    Seq::new(edits.len(), |i: int| edits[i]@)
}

/// The edit that an edit object describes.
pub open spec fn parsed_edit(s: Seq<char>, edit: json::JsonView) -> Result<
    TextEditView,
    Seq<char>,
> {
    match edit.get("range"@) {
        None => Err("workspace text edit missing range"@),
        Some(range) => match range.get("start"@) {
            None => Err("workspace text edit missing start position"@),
            Some(first) => match position_offset(s, first) {
                Err(message) => Err(message),
                Ok(start) => match range.get("end"@) {
                    None => Err("workspace text edit missing end position"@),
                    Some(last) => match position_offset(s, last) {
                        Err(message) => Err(message),
                        Ok(end) => if start > end {
                            Err("workspace text edit has inverted range"@)
                        } else {
                            match json::opt_as_str(edit.get("newText"@)) {
                                None => Err("workspace text edit missing newText"@),
                                Some(new_text) => Ok(TextEditView { start, end, new_text }),
                            }
                        },
                    },
                },
            },
        },
    }
}

/// The edits that a list of edit objects describes; the first that is not
/// understood decides.
pub open spec fn parsed_edits(s: Seq<char>, edits: Seq<json::JsonView>) -> Result<
    Seq<TextEditView>,
    Seq<char>,
>
    decreases edits.len(),
{
    if edits.len() == 0 {
        Ok(seq![])
    } else {
        match parsed_edits(s, edits.drop_last()) {
            Err(message) => Err(message),
            Ok(earlier) => match parsed_edit(s, edits.last()) {
                Err(message) => Err(message),
                Ok(edit) => Ok(earlier.push(edit)),
            },
        }
    }
}

/// Whether an edit comes after another in the text.
pub open spec fn after(a: TextEditView, b: TextEditView) -> bool {
    a.start > b.start || (a.start == b.start && a.end > b.end)
}

/// The number of edits at the front of a sorted list that do not come after
/// the given one.
pub open spec fn slot(sorted: Seq<TextEditView>, edit: TextEditView, n: int) -> int
    decreases n,
{
    if 0 < n <= sorted.len() && after(sorted[n - 1], edit) {
        slot(sorted, edit, n - 1)
    } else {
        n
    }
}

/// The edits in the order of their ranges; those with the same range keep
/// their order.
pub open spec fn sorted_edits(edits: Seq<TextEditView>) -> Seq<TextEditView>
    decreases edits.len(),
{
    if edits.len() == 0 {
        seq![]
    } else {
        let earlier = sorted_edits(edits.drop_last());
        earlier.insert(slot(earlier, edits.last(), earlier.len() as int), edits.last())
    }
}

/// Whether an edit reaches into the next one.
pub open spec fn overlapping(edits: Seq<TextEditView>) -> bool {
    exists|i: int| 0 <= i < edits.len() - 1 && (#[trigger] edits[i]).end > edits[i + 1].start
}

/// The text from `from` on with the edits made, the first `done` of which lie
/// before it.
pub open spec fn edited(s: Seq<char>, edits: Seq<TextEditView>, done: int, from: int) -> Seq<char>
    decreases edits.len() - done,
{
    if done < 0 || done >= edits.len() {
        s.skip(from)
    } else {
        let edit = edits[done];
        s.subrange(from, edit.start) + edit.new_text + edited(s, edits, done + 1, edit.end)
    }
}

/// The text with a list of edits made.
pub open spec fn edits_outcome(s: Seq<char>, edits: Seq<json::JsonView>) -> Result<
    Seq<char>,
    Seq<char>,
> {
    match parsed_edits(s, edits) {
        Err(message) => Err(message),
        Ok(parsed) => {
            let sorted = sorted_edits(parsed);
            if overlapping(sorted) {
                Err("workspace/applyEdit received overlapping text edits"@)
            } else {
                Ok(edited(s, sorted, 0, 0))
            }
        },
    }
}

/// The outcome of a call that yields text or a message.
pub open spec fn outcome(r: Result<String, String>) -> Result<Seq<char>, Seq<char>> {
    match r {
        Ok(s) => Ok(s@),
        Err(message) => Err(message@),
    }
}

fn parse_edit(s: &[char], edit: &Json) -> (r: Result<ParsedTextEdit, String>)
    ensures
        match r {
            Ok(e) => parsed_edit(s@, edit@) == Ok::<_, Seq<char>>(e@) && e.start <= e.end
                <= s@.len(),
            Err(message) => parsed_edit(s@, edit@) == Err::<TextEditView, _>(message@),
        },
{
    let range = match edit.get("range") {
        Some(range) => range,
        None => {
            return Err("workspace text edit missing range".to_string());
        },
    };
    let first = match range.get("start") {
        Some(first) => first,
        None => {
            return Err("workspace text edit missing start position".to_string());
        },
    };
    let start: usize = match lsp_position_to_offset(s, first) {
        Ok(start) => start,
        Err(message) => {
            return Err(message);
        },
    };
    let last = match range.get("end") {
        Some(last) => last,
        None => {
            return Err("workspace text edit missing end position".to_string());
        },
    };
    let end: usize = match lsp_position_to_offset(s, last) {
        Ok(end) => end,
        Err(message) => {
            return Err(message);
        },
    };
    if start > end {
        return Err("workspace text edit has inverted range".to_string());
    }
    match edit.get("newText") {
        Some(value) => match value.as_str() {
            Some(new_text) => Ok(ParsedTextEdit { start, end, new_text: new_text.to_string() }),
            None => Err("workspace text edit missing newText".to_string()),
        },
        None => Err("workspace text edit missing newText".to_string()),
    }
}

proof fn lemma_parse_failure_lasts(s: Seq<char>, edits: Seq<json::JsonView>, k: int)
    requires
        0 <= k <= edits.len(),
        parsed_edits(s, edits.take(k)) is Err,
    ensures
        parsed_edits(s, edits) == parsed_edits(s, edits.take(k)),
    decreases edits.len() - k,
{
    if k == edits.len() {
        assert(edits.take(k) =~= edits);
    } else {
        assert(edits.take(k + 1).drop_last() =~= edits.take(k));
        lemma_parse_failure_lasts(s, edits, k + 1);
    }
}

proof fn lemma_slot(sorted: Seq<TextEditView>, edit: TextEditView, n: int)
    requires
        0 <= n <= sorted.len(),
    ensures
        0 <= slot(sorted, edit, n) <= n,
        forall|i: int| slot(sorted, edit, n) <= i < n ==> after(#[trigger] sorted[i], edit),
        slot(sorted, edit, n) > 0 ==> !after(sorted[slot(sorted, edit, n) - 1], edit),
    decreases n,
{
    if n > 0 && after(sorted[n - 1], edit) {
        lemma_slot(sorted, edit, n - 1);
    }
}

/// Whether the edits are in the order of their ranges.
pub open spec fn in_order(edits: Seq<TextEditView>) -> bool {
    forall|i: int, j: int|
        0 <= i < j < edits.len() ==> !after(#[trigger] edits[i], #[trigger] edits[j])
}

/// Sorting puts the edits in the order of their ranges.
pub proof fn sorting_orders_edits(edits: Seq<TextEditView>)
    ensures
        in_order(sorted_edits(edits)),
    decreases edits.len(),
{
    if edits.len() > 0 {
        let earlier = sorted_edits(edits.drop_last());
        let edit = edits.last();
        let k = slot(earlier, edit, earlier.len() as int);
        let sorted = sorted_edits(edits);
        sorting_orders_edits(edits.drop_last());
        lemma_slot(earlier, edit, earlier.len() as int);
        assert forall|i: int, j: int| 0 <= i < j < sorted.len() implies !after(
            #[trigger] sorted[i],
            #[trigger] sorted[j],
        ) by {
            let a = if i < k {
                i
            } else {
                i - 1
            };
            let b = if j < k {
                j
            } else {
                j - 1
            };
            if i == k {
                assert(after(earlier[b], edit));
            } else if j == k {
                if a < k - 1 {
                    assert(!after(earlier[a], earlier[k - 1]));
                }
            } else {
                assert(!after(earlier[a], earlier[b]));
            }
        }
    }
}

/// Sorting keeps every edit, no more and no fewer.
pub proof fn sorting_keeps_edits(edits: Seq<TextEditView>)
    ensures
        sorted_edits(edits).to_multiset() == edits.to_multiset(),
        sorted_edits(edits).len() == edits.len(),
    decreases edits.len(),
{
    broadcast use vstd::seq_lib::group_to_multiset_ensures;

    if edits.len() == 0 {
        assert(sorted_edits(edits) =~= edits);
    } else {
        let earlier = sorted_edits(edits.drop_last());
        let edit = edits.last();
        let k = slot(earlier, edit, earlier.len() as int);
        sorting_keeps_edits(edits.drop_last());
        lemma_slot(earlier, edit, earlier.len() as int);
        earlier.insert_ensures(k, edit);
        assert(edits =~= edits.drop_last().push(edit));
        assert(earlier.insert(k, edit).to_multiset() == earlier.to_multiset().insert(edit));
    }
}

proof fn lemma_sorted_in_bounds(edits: Seq<TextEditView>, len: int)
    requires
        forall|i: int|
            0 <= i < edits.len() ==> 0 <= (#[trigger] edits[i]).start <= edits[i].end <= len,
    ensures
        forall|i: int|
            0 <= i < sorted_edits(edits).len() ==> 0 <= (#[trigger] sorted_edits(edits)[i]).start
                <= sorted_edits(edits)[i].end <= len,
    decreases edits.len(),
{
    if edits.len() > 0 {
        let earlier = sorted_edits(edits.drop_last());
        lemma_sorted_in_bounds(edits.drop_last(), len);
        lemma_slot(earlier, edits.last(), earlier.len() as int);
    }
}

/// Applies text edits of a language server to a text.
pub fn apply_lsp_text_edits(given: &str, edits: &[Json]) -> (r: Result<String, String>)
    ensures
        outcome(r) == edits_outcome(given@, json::views(edits@)),
{
    let s = text::chars_of(given);
    let ghost all = json::views(edits@);
    let mut sorted: Vec<ParsedTextEdit> = Vec::new();
    let ghost mut parsed: Seq<TextEditView> = seq![];
    let mut i: usize = 0;
    proof {
        assert(all.take(0) =~= Seq::<json::JsonView>::empty());
        assert(edit_views(sorted@) =~= sorted_edits(parsed));
    }
    while i < edits.len()
        invariant
            i <= edits@.len(),
            s@ == given@,
            all == json::views(edits@),
            parsed_edits(s@, all.take(i as int)) == Ok::<_, Seq<char>>(parsed),
            edit_views(sorted@) == sorted_edits(parsed),
            forall|k: int|
                0 <= k < parsed.len() ==> 0 <= (#[trigger] parsed[k]).start <= parsed[k].end
                    <= s@.len(),
        decreases edits@.len() - i,
    {
        proof {
            assert(all.take(i + 1).drop_last() =~= all.take(i as int));
            assert(all.take(i + 1).last() == edits@[i as int]@);
        }
        match parse_edit(&s, &edits[i]) {
            Ok(edit) => {
                let ghost before = edit_views(sorted@);
                let mut k: usize = sorted.len();
                while k > 0 && (sorted[k - 1].start > edit.start || (sorted[k - 1].start
                    == edit.start && sorted[k - 1].end > edit.end))
                    invariant
                        k <= sorted@.len(),
                        before == edit_views(sorted@),
                        slot(before, edit@, before.len() as int) == slot(before, edit@, k as int),
                    decreases k,
                {
                    proof {
                        assert(before[k - 1] == sorted@[k - 1]@);
                    }
                    k -= 1;
                }
                proof {
                    if k > 0 {
                        assert(before[k - 1] == sorted@[k - 1]@);
                    }
                    assert(parsed.push(edit@).drop_last() =~= parsed);
                }
                let ghost added = edit@;
                sorted.insert(k, edit);
                proof {
                    assert(edit_views(sorted@) =~= before.insert(k as int, added));
                    parsed = parsed.push(added);
                }
            },
            Err(message) => {
                proof {
                    lemma_parse_failure_lasts(s@, all, i + 1);
                }
                return Err(message);
            },
        }
        i += 1;
    }
    let ghost view = sorted_edits(parsed);
    proof {
        assert(all.take(edits@.len() as int) =~= all);
        lemma_sorted_in_bounds(parsed, s@.len() as int);
        assert(view.len() == sorted@.len());
    }
    let mut j: usize = 1;
    while j < sorted.len()
        invariant
            1 <= j,
            view == edit_views(sorted@),
            parsed_edits(given@, all) == Ok::<_, Seq<char>>(parsed),
            all == json::views(edits@),
            view == sorted_edits(parsed),
            forall|k: int| 0 <= k < j - 1 && k < view.len() - 1 ==> (#[trigger] view[k]).end <= view[k
                + 1].start,
        decreases sorted@.len() - j,
    {
        proof {
            assert(view[j - 1] == sorted@[j - 1]@);
            assert(view[j as int] == sorted@[j as int]@);
        }
        if sorted[j - 1].end > sorted[j].start {
            proof {
                assert(view[j - 1].end > view[j - 1 + 1].start);
                assert(overlapping(view));
            }
            return Err("workspace/applyEdit received overlapping text edits".to_string());
        }
        j += 1;
    }
    proof {
        assert(!overlapping(view));
    }
    let mut out: Vec<char> = Vec::new();
    let mut from: usize = 0;
    let mut done: usize = 0;
    proof {
        assert(out@ + edited(s@, view, 0, 0) =~= edited(s@, view, 0, 0));
    }
    while done < sorted.len()
        invariant
            done <= sorted@.len(),
            view == edit_views(sorted@),
            from <= s@.len(),
            done < sorted@.len() ==> from <= sorted@[done as int].start,
            forall|k: int|
                0 <= k < view.len() ==> 0 <= (#[trigger] view[k]).start <= view[k].end <= s@.len(),
            forall|k: int| 0 <= k < view.len() - 1 ==> (#[trigger] view[k]).end <= view[k + 1].start,
            out@ + edited(s@, view, done as int, from as int) == edited(s@, view, 0, 0),
        decreases sorted@.len() - done,
    {
        let ghost before = out@;
        let edit = &sorted[done];
        let new_text = text::chars_of(edit.new_text.as_str());
        proof {
            assert(view[done as int] == edit@);
        }
        text::push_all(&mut out, slice_subrange(&s, from, edit.start));
        text::push_all(&mut out, &new_text);
        proof {
            if done + 1 < sorted@.len() {
                assert(view[done + 1] == sorted@[done + 1]@);
            }
            assert(out@ + edited(s@, view, done + 1, edit.end as int) =~= before + edited(
                s@,
                view,
                done as int,
                from as int,
            ));
        }
        from = edit.end;
        done += 1;
    }
    text::push_all(&mut out, slice_subrange(&s, from, s.len()));
    proof {
        assert(s@.subrange(from as int, s@.len() as int) =~= s@.skip(from as int));
    }
    Ok(text::text_of(&out))
}

// ---------------------------------------------------------------------------
// What edits do to a text.

/// The text with one range of it replaced.
pub open spec fn spliced(s: Seq<char>, edit: TextEditView) -> Seq<char> {
    s.take(edit.start) + edit.new_text + s.skip(edit.end)
}

/// The text with ranges of it replaced one after the other, the last first, so
/// that the positions of the others hold good.
pub open spec fn spliced_backwards(s: Seq<char>, edits: Seq<TextEditView>) -> Seq<char>
    decreases edits.len(),
{
    if edits.len() == 0 {
        s
    } else {
        spliced_backwards(spliced(s, edits.last()), edits.drop_last())
    }
}

/// Whether the edits lie in a text one behind the other.
pub open spec fn one_behind_the_other(edits: Seq<TextEditView>, len: int) -> bool {
    &&& forall|k: int|
        0 <= k < edits.len() ==> 0 <= (#[trigger] edits[k]).start <= edits[k].end <= len
    &&& forall|i: int, j: int|
        0 <= i < j < edits.len() ==> (#[trigger] edits[i]).end <= (#[trigger] edits[j]).start
}

proof fn lemma_edited_prefix(
    s: Seq<char>,
    t: Seq<char>,
    edits: Seq<TextEditView>,
    done: int,
    from: int,
    upto: int,
)
    requires
        0 <= from <= upto <= s.len(),
        upto <= t.len(),
        s.take(upto) == t.take(upto),
        0 <= done <= edits.len(),
        one_behind_the_other(edits, upto),
        done < edits.len() ==> from <= edits[done].start,
    ensures
        edited(s, edits, done, from).len() >= s.len() - upto,
        edited(t, edits, done, from).len() >= t.len() - upto,
        edited(s, edits, done, from).take(edited(s, edits, done, from).len() - (s.len() - upto))
            == edited(t, edits, done, from).take(
            edited(t, edits, done, from).len() - (t.len() - upto),
        ),
        edited(s, edits, done, from).skip(edited(s, edits, done, from).len() - (s.len() - upto))
            == s.skip(upto),
        edited(t, edits, done, from).skip(edited(t, edits, done, from).len() - (t.len() - upto))
            == t.skip(upto),
    decreases edits.len() - done,
{
    let a = edited(s, edits, done, from);
    let b = edited(t, edits, done, from);
    assert forall|k: int| 0 <= k < upto implies s[k] == t[k] by {
        assert(s.take(upto)[k] == s[k]);
        assert(t.take(upto)[k] == t[k]);
    }
    if done == edits.len() {
        assert(a.take(a.len() - (s.len() - upto)) =~= b.take(b.len() - (t.len() - upto)));
        assert(a.skip(a.len() - (s.len() - upto)) =~= s.skip(upto));
        assert(b.skip(b.len() - (t.len() - upto)) =~= t.skip(upto));
    } else {
        let edit = edits[done];
        lemma_edited_prefix(s, t, edits, done + 1, edit.end, upto);
        let c = edited(s, edits, done + 1, edit.end);
        let d = edited(t, edits, done + 1, edit.end);
        let head = s.subrange(from, edit.start) + edit.new_text;
        assert(s.subrange(from, edit.start) =~= t.subrange(from, edit.start));
        assert(a == head + c);
        assert(b == head + d);
        assert(a.take(a.len() - (s.len() - upto)) =~= head + c.take(c.len() - (s.len() - upto)));
        assert(b.take(b.len() - (t.len() - upto)) =~= head + d.take(d.len() - (t.len() - upto)));
        assert(a.skip(a.len() - (s.len() - upto)) =~= c.skip(c.len() - (s.len() - upto)));
        assert(b.skip(b.len() - (t.len() - upto)) =~= d.skip(d.len() - (t.len() - upto)));
    }
}

proof fn lemma_last_edit(s: Seq<char>, edits: Seq<TextEditView>, done: int, from: int)
    requires
        0 <= from <= s.len(),
        0 <= done < edits.len(),
        one_behind_the_other(edits, s.len() as int),
        from <= edits[done].start,
    ensures
        edited(s, edits, done, from) == edited(s, edits.drop_last(), done, from).take(
            edited(s, edits.drop_last(), done, from).len() - (s.len() - edits.last().start),
        ) + edits.last().new_text + s.skip(edits.last().end),
        edited(s, edits.drop_last(), done, from).len() >= s.len() - edits.last().start,
    decreases edits.len() - done,
{
    let last = edits.last();
    let fewer = edits.drop_last();
    let a = edited(s, edits, done, from);
    let b = edited(s, fewer, done, from);
    if done == edits.len() - 1 {
        assert(b == s.skip(from));
        assert(edited(s, edits, done + 1, last.end) == s.skip(last.end));
        assert(a =~= b.take(b.len() - (s.len() - last.start)) + last.new_text + s.skip(last.end));
    } else {
        let edit = edits[done];
        assert(fewer[done] == edit);
        lemma_last_edit(s, edits, done + 1, edit.end);
        let c = edited(s, edits, done + 1, edit.end);
        let d = edited(s, fewer, done + 1, edit.end);
        let head = s.subrange(from, edit.start) + edit.new_text;
        assert(a == head + c);
        assert(b == head + d);
        assert(a =~= b.take(b.len() - (s.len() - last.start)) + last.new_text + s.skip(last.end));
    }
}

proof fn lemma_edited_is_spliced(s: Seq<char>, edits: Seq<TextEditView>)
    requires
        one_behind_the_other(edits, s.len() as int),
    ensures
        edited(s, edits, 0, 0) == spliced_backwards(s, edits),
    decreases edits.len(),
{
    if edits.len() == 0 {
        assert(s.skip(0) =~= s);
    } else {
        let last = edits.last();
        let fewer = edits.drop_last();
        let t = spliced(s, last);
        assert(one_behind_the_other(fewer, last.start)) by {
            assert forall|k: int| 0 <= k < fewer.len() implies 0 <= (#[trigger] fewer[k]).start
                <= fewer[k].end <= last.start by {
                assert(edits[k].end <= edits[edits.len() - 1].start);
            }
            assert forall|i: int, j: int| 0 <= i < j < fewer.len() implies (
            #[trigger] fewer[i]).end <= (#[trigger] fewer[j]).start by {
                assert(edits[i].end <= edits[j].start);
            }
        }
        assert(t.take(last.start) =~= s.take(last.start));
        assert(t.skip(last.start) =~= last.new_text + s.skip(last.end));
        lemma_edited_is_spliced(t, fewer);
        lemma_last_edit(s, edits, 0, 0);
        lemma_edited_prefix(s, t, fewer, 0, 0, last.start);
        let b = edited(t, fewer, 0, 0);
        let cut = b.len() - (t.len() - last.start);
        assert(b =~= b.take(cut) + b.skip(cut));
        assert(edited(s, edits, 0, 0) =~= b);
    }
}

/// How many characters the ranges of the edits cover.
pub open spec fn covered(edits: Seq<TextEditView>) -> int
    decreases edits.len(),
{
    if edits.len() == 0 {
        0
    } else {
        covered(edits.drop_last()) + (edits.last().end - edits.last().start)
    }
}

/// How many characters the new texts of the edits hold.
pub open spec fn inserted(edits: Seq<TextEditView>) -> int
    decreases edits.len(),
{
    if edits.len() == 0 {
        0
    } else {
        inserted(edits.drop_last()) + edits.last().new_text.len()
    }
}

proof fn lemma_sums_insert(edits: Seq<TextEditView>, k: int, edit: TextEditView)
    requires
        0 <= k <= edits.len(),
    ensures
        covered(edits.insert(k, edit)) == covered(edits) + (edit.end - edit.start),
        inserted(edits.insert(k, edit)) == inserted(edits) + edit.new_text.len(),
    decreases edits.len(),
{
    let more = edits.insert(k, edit);
    if k == edits.len() {
        assert(more.drop_last() =~= edits);
    } else {
        assert(more.drop_last() =~= edits.drop_last().insert(k, edit));
        assert(more.last() == edits.last());
        lemma_sums_insert(edits.drop_last(), k, edit);
    }
}

proof fn lemma_sums_sorted(edits: Seq<TextEditView>)
    ensures
        covered(sorted_edits(edits)) == covered(edits),
        inserted(sorted_edits(edits)) == inserted(edits),
    decreases edits.len(),
{
    if edits.len() > 0 {
        let earlier = sorted_edits(edits.drop_last());
        lemma_sums_sorted(edits.drop_last());
        lemma_slot(earlier, edits.last(), earlier.len() as int);
        lemma_sums_insert(
            earlier,
            slot(earlier, edits.last(), earlier.len() as int),
            edits.last(),
        );
    }
}

proof fn lemma_spliced_len(s: Seq<char>, edits: Seq<TextEditView>)
    requires
        one_behind_the_other(edits, s.len() as int),
    ensures
        spliced_backwards(s, edits).len() == s.len() - covered(edits) + inserted(edits),
    decreases edits.len(),
{
    if edits.len() > 0 {
        let last = edits.last();
        let fewer = edits.drop_last();
        let t = spliced(s, last);
        assert forall|k: int| 0 <= k < fewer.len() implies 0 <= (#[trigger] fewer[k]).start
            <= fewer[k].end <= t.len() by {
            assert(edits[k].end <= edits[edits.len() - 1].start);
        }
        assert forall|i: int, j: int| 0 <= i < j < fewer.len() implies (#[trigger] fewer[i]).end
            <= (#[trigger] fewer[j]).start by {
            assert(edits[i].end <= edits[j].start);
        }
        lemma_spliced_len(t, fewer);
    }
}

proof fn lemma_offset_in_bounds(s: Seq<char>, line: nat, character: nat)
    ensures
        match offset_at(s, line, character) {
            Ok(at) => 0 <= at <= s.len(),
            Err(_) => true,
        },
{
    if line <= usize::MAX && character <= usize::MAX {
        lemma_line_start(s, 0, line as int);
        match line_start(s, 0, line as int) {
            Some(start) => {
                lemma_line_end(s, start);
                lemma_unit_position(
                    s.subrange(start, line_end(s, start)),
                    0,
                    character as int,
                );
            },
            None => {},
        }
    }
}

proof fn lemma_unit_position(line: Seq<char>, i: int, units: int)
    requires
        0 <= i <= line.len(),
    ensures
        match unit_position(line, i, units) {
            Ok(at) => i <= at <= line.len() && text::utf16_len(line.take(at)) == units,
            Err(_) => true,
        },
    decreases line.len() - i,
{
    if text::utf16_len(line.take(i)) != units && i < line.len() && text::utf16_len(
        line.take(i + 1),
    ) <= units {
        lemma_unit_position(line, i + 1, units);
    }
}

proof fn lemma_parsed_in_bounds(s: Seq<char>, edits: Seq<json::JsonView>)
    ensures
        match parsed_edits(s, edits) {
            Ok(parsed) => parsed.len() == edits.len() && forall|k: int|
                0 <= k < parsed.len() ==> 0 <= (#[trigger] parsed[k]).start <= parsed[k].end
                    <= s.len(),
            Err(_) => true,
        },
    decreases edits.len(),
{
    if edits.len() > 0 && parsed_edits(s, edits) is Ok {
        lemma_parsed_in_bounds(s, edits.drop_last());
        let range = edits.last().get("range"@)->Some_0;
        let first = range.get("start"@)->Some_0;
        let last = range.get("end"@)->Some_0;
        lemma_offset_in_bounds(
            s,
            json::opt_as_u64(first.get("line"@))->Some_0,
            json::opt_as_u64(first.get("character"@))->Some_0,
        );
        lemma_offset_in_bounds(
            s,
            json::opt_as_u64(last.get("line"@))->Some_0,
            json::opt_as_u64(last.get("character"@))->Some_0,
        );
    }
}

proof fn lemma_chain(edits: Seq<TextEditView>, len: int, i: int, j: int)
    requires
        0 <= i < j < edits.len(),
        forall|k: int|
            0 <= k < edits.len() ==> 0 <= (#[trigger] edits[k]).start <= edits[k].end <= len,
        !overlapping(edits),
    ensures
        edits[i].end <= edits[j].start,
    decreases j - i,
{
    assert(edits[j - 1].end <= edits[j - 1 + 1].start);
    if i < j - 1 {
        lemma_chain(edits, len, i, j - 1);
    }
}

/// Edits that do not overlap are made as if one after the other, from the last
/// place in the text to the first. So what lies outside their ranges stays, and
/// the text grows by what they put in and shrinks by what their ranges cover.
pub proof fn edits_replace_their_ranges(
    s: Seq<char>,
    edits: Seq<json::JsonView>,
    parsed: Seq<TextEditView>,
    after: Seq<char>,
)
    requires
        parsed_edits(s, edits) == Ok::<_, Seq<char>>(parsed),
        edits_outcome(s, edits) == Ok::<_, Seq<char>>(after),
    ensures
        after == spliced_backwards(s, sorted_edits(parsed)),
        after.len() == s.len() - covered(parsed) + inserted(parsed),
        in_order(parsed) ==> after == spliced_backwards(s, parsed),
{
    let sorted = sorted_edits(parsed);
    lemma_parsed_in_bounds(s, edits);
    lemma_sorted_in_bounds(parsed, s.len() as int);
    assert(one_behind_the_other(sorted, s.len() as int)) by {
        assert forall|i: int, j: int| 0 <= i < j < sorted.len() implies (#[trigger] sorted[i]).end
            <= (#[trigger] sorted[j]).start by {
            lemma_chain(sorted, s.len() as int, i, j);
        }
    }
    lemma_edited_is_spliced(s, sorted);
    lemma_spliced_len(s, sorted);
    lemma_sums_sorted(parsed);
    if in_order(parsed) {
        sorting_leaves_sorted_edits(parsed);
    }
}

/// Edits that are in order are left in it, also where some have the same range.
pub proof fn sorting_leaves_sorted_edits(edits: Seq<TextEditView>)
    requires
        in_order(edits),
    ensures
        sorted_edits(edits) == edits,
    decreases edits.len(),
{
    if edits.len() > 0 {
        let fewer = edits.drop_last();
        assert forall|i: int, j: int| 0 <= i < j < fewer.len() implies !after(
            #[trigger] fewer[i],
            #[trigger] fewer[j],
        ) by {
            assert(!after(edits[i], edits[j]));
        }
        sorting_leaves_sorted_edits(fewer);
        if fewer.len() > 0 {
            assert(!after(edits[edits.len() - 2], edits[edits.len() - 1]));
        }
        assert(fewer.insert(fewer.len() as int, edits.last()) =~= edits);
    } else {
        assert(sorted_edits(edits) =~= edits);
    }
}

/// One edit puts its new text, whatever it is, in the place of the range that
/// it names.
pub proof fn one_edit_replaces_its_range(
    before: Seq<char>,
    range: Seq<char>,
    behind: Seq<char>,
    edit: json::JsonView,
    from: json::JsonView,
    to: json::JsonView,
    new_text: Seq<char>,
)
    requires
        edit.get("range"@) is Some,
        edit.get("range"@)->Some_0.get("start"@) == Some(from),
        edit.get("range"@)->Some_0.get("end"@) == Some(to),
        json::opt_as_str(edit.get("newText"@)) == Some(new_text),
        position_offset(before + range + behind, from) == Ok::<_, Seq<char>>(before.len() as int),
        position_offset(before + range + behind, to) == Ok::<_, Seq<char>>(
            (before.len() + range.len()) as int,
        ),
    ensures
        edits_outcome(before + range + behind, seq![edit]) == Ok::<_, Seq<char>>(
            before + new_text + behind,
        ),
{
    let s = before + range + behind;
    let edits = seq![edit];
    let one = TextEditView {
        start: before.len() as int,
        end: (before.len() + range.len()) as int,
        new_text,
    };
    assert(parsed_edit(s, edit) == Ok::<_, Seq<char>>(one));
    lemma_one_parsed(s, edit, one);
    lemma_one_made(s, one);
    assert(s.take(one.start) =~= before);
    assert(s.skip(one.end) =~= behind);
}

proof fn lemma_one_parsed(s: Seq<char>, edit: json::JsonView, one: TextEditView)
    requires
        parsed_edit(s, edit) == Ok::<_, Seq<char>>(one),
    ensures
        parsed_edits(s, seq![edit]) == Ok::<_, Seq<char>>(seq![one]),
{
    assert(seq![edit].drop_last() =~= Seq::<json::JsonView>::empty());
    assert(seq![edit].last() == edit);
    assert(parsed_edits(s, Seq::empty()) == Ok::<_, Seq<char>>(Seq::<TextEditView>::empty()));
    assert(Seq::<TextEditView>::empty().push(one) =~= seq![one]);
}

proof fn lemma_one_made(s: Seq<char>, one: TextEditView)
    requires
        0 <= one.start <= one.end <= s.len(),
    ensures
        sorted_edits(seq![one]) == seq![one],
        !overlapping(seq![one]),
        edited(s, seq![one], 0, 0) == spliced(s, one),
{
    let edits = seq![one];
    sorting_leaves_sorted_edits(edits);
    assert(edited(s, edits, 1, one.end) == s.skip(one.end));
    assert(s.subrange(0, one.start) =~= s.take(one.start));
    assert(edits[0] == one);
}

/// Whether two ranges hold something in common, or one lies within the other
/// with something of it on both sides.
pub open spec fn meet(a: TextEditView, b: TextEditView) -> bool {
    a.start < b.end && b.start < a.end
}

/// Whether two of the edits meet.
pub open spec fn some_meet(edits: Seq<TextEditView>) -> bool {
    exists|i: int, j: int|
        0 <= i < j < edits.len() && meet(#[trigger] edits[i], #[trigger] edits[j])
}

proof fn lemma_meet_insert(edits: Seq<TextEditView>, k: int, edit: TextEditView)
    requires
        0 <= k <= edits.len(),
    ensures
        some_meet(edits.insert(k, edit)) <==> some_meet(edits) || exists|i: int|
            0 <= i < edits.len() && meet(#[trigger] edits[i], edit),
{
    let more = edits.insert(k, edit);
    let old_index = |i: int|
        if i < k {
            i
        } else {
            i - 1
        };
    let new_index = |i: int|
        if i < k {
            i
        } else {
            i + 1
        };
    if some_meet(more) {
        let (i, j) = choose|i: int, j: int|
            0 <= i < j < more.len() && meet(#[trigger] more[i], #[trigger] more[j]);
        if i == k {
            assert(more[j] == edits[j - 1]);
            assert(meet(edits[j - 1], edit));
        } else if j == k {
            assert(more[i] == edits[i]);
            assert(meet(edits[i], edit));
        } else {
            assert(more[i] == edits[old_index(i)]);
            assert(more[j] == edits[old_index(j)]);
            assert(meet(edits[old_index(i)], edits[old_index(j)]));
        }
    }
    if some_meet(edits) {
        let (i, j) = choose|i: int, j: int|
            0 <= i < j < edits.len() && meet(#[trigger] edits[i], #[trigger] edits[j]);
        assert(more[new_index(i)] == edits[i]);
        assert(more[new_index(j)] == edits[j]);
        assert(meet(more[new_index(i)], more[new_index(j)]));
    }
    if exists|i: int| 0 <= i < edits.len() && meet(#[trigger] edits[i], edit) {
        let i = choose|i: int| 0 <= i < edits.len() && meet(#[trigger] edits[i], edit);
        assert(more[k] == edit);
        assert(more[new_index(i)] == edits[i]);
        if i < k {
            assert(meet(more[new_index(i)], more[k]));
        } else {
            assert(meet(more[k], more[new_index(i)]));
        }
    }
}

proof fn lemma_meet_sorted(edits: Seq<TextEditView>)
    ensures
        some_meet(sorted_edits(edits)) <==> some_meet(edits),
    decreases edits.len(),
{
    if edits.len() > 0 {
        let fewer = edits.drop_last();
        let edit = edits.last();
        let earlier = sorted_edits(fewer);
        lemma_meet_sorted(fewer);
        lemma_slot(earlier, edit, earlier.len() as int);
        lemma_meet_insert(earlier, slot(earlier, edit, earlier.len() as int), edit);
        lemma_meet_insert(fewer, fewer.len() as int, edit);
        assert(fewer.insert(fewer.len() as int, edit) =~= edits);
        sorting_keeps_edits(fewer);
        broadcast use vstd::seq_lib::group_to_multiset_ensures;

        if exists|i: int| 0 <= i < earlier.len() && meet(#[trigger] earlier[i], edit) {
            let i = choose|i: int| 0 <= i < earlier.len() && meet(#[trigger] earlier[i], edit);
            assert(earlier.contains(earlier[i]));
            assert(fewer.to_multiset().count(earlier[i]) > 0);
            assert(fewer.contains(earlier[i]));
            let j = choose|j: int| 0 <= j < fewer.len() && fewer[j] == earlier[i];
            assert(meet(fewer[j], edit));
        }
        if exists|i: int| 0 <= i < fewer.len() && meet(#[trigger] fewer[i], edit) {
            let i = choose|i: int| 0 <= i < fewer.len() && meet(#[trigger] fewer[i], edit);
            assert(fewer.contains(fewer[i]));
            assert(earlier.to_multiset().count(fewer[i]) > 0);
            assert(earlier.contains(fewer[i]));
            let j = choose|j: int| 0 <= j < earlier.len() && earlier[j] == fewer[i];
            assert(meet(earlier[j], edit));
        }
    }
}

/// Edits are refused just where two of them meet, wherever in the list those
/// two stand.
pub proof fn meeting_edits_are_refused(
    s: Seq<char>,
    edits: Seq<json::JsonView>,
    parsed: Seq<TextEditView>,
)
    requires
        parsed_edits(s, edits) == Ok::<_, Seq<char>>(parsed),
    ensures
        some_meet(parsed) ==> edits_outcome(s, edits) == Err::<Seq<char>, _>(
            "workspace/applyEdit received overlapping text edits"@,
        ),
        !some_meet(parsed) ==> edits_outcome(s, edits) is Ok,
{
    let sorted = sorted_edits(parsed);
    lemma_parsed_in_bounds(s, edits);
    lemma_sorted_in_bounds(parsed, s.len() as int);
    lemma_meet_sorted(parsed);
    sorting_orders_edits(parsed);
    if some_meet(sorted) && !overlapping(sorted) {
        let (i, j) = choose|i: int, j: int|
            0 <= i < j < sorted.len() && meet(#[trigger] sorted[i], #[trigger] sorted[j]);
        lemma_chain(sorted, s.len() as int, i, j);
    }
    if overlapping(sorted) {
        let i = choose|i: int|
            0 <= i < sorted.len() - 1 && (#[trigger] sorted[i]).end > sorted[i + 1].start;
        assert(!after(sorted[i], sorted[i + 1]));
        assert(meet(sorted[i], sorted[i + 1]));
    }
}

/// The edits of a list are read one by one; the first that cannot be read
/// decides, and nothing is made of the others.
pub proof fn edits_are_read_one_by_one(
    s: Seq<char>,
    edits: Seq<json::JsonView>,
    edit: json::JsonView,
)
    ensures
        match (parsed_edits(s, edits), parsed_edit(s, edit)) {
            (Ok(parsed), Ok(one)) => parsed_edits(s, edits.push(edit)) == Ok::<_, Seq<char>>(
                parsed.push(one),
            ),
            (Ok(_), Err(message)) => edits_outcome(s, edits.push(edit)) == Err::<Seq<char>, _>(
                message,
            ),
            (Err(message), _) => edits_outcome(s, edits.push(edit)) == Err::<Seq<char>, _>(message),
        },
{
    assert(edits.push(edit).drop_last() =~= edits);
}

// ---------------------------------------------------------------------------
// What positions name.

/// Whether a text holds no line break.
pub open spec fn unbroken(line: Seq<char>) -> bool {
    forall|k: int| 0 <= k < line.len() ==> #[trigger] line[k] != '\n' && line[k] != '\r'
}

/// Whether a text is one line break, where `rest` stands behind it.
pub open spec fn is_break(mark: Seq<char>, rest: Seq<char>) -> bool {
    ||| mark == seq!['\n']
    ||| mark == seq!['\r', '\n']
    ||| mark == seq!['\r'] && (rest.len() == 0 || rest[0] != '\n')
}

proof fn lemma_line_end_shifted(head: Seq<char>, rest: Seq<char>, from: int)
    requires
        0 <= from <= rest.len(),
    ensures
        line_end(head + rest, head.len() + from) == head.len() + line_end(rest, from),
    decreases rest.len() - from,
{
    if from < rest.len() {
        assert((head + rest)[head.len() + from] == rest[from]);
        if !ends_line(rest[from]) {
            lemma_line_end_shifted(head, rest, from + 1);
        }
    }
}

proof fn lemma_line_start_shifted(head: Seq<char>, rest: Seq<char>, from: int, n: int)
    requires
        0 <= from <= rest.len(),
    ensures
        line_start(head + rest, head.len() + from, n) == match line_start(rest, from, n) {
            Some(at) => Some(head.len() + at),
            None => None,
        },
    decreases n,
{
    if n > 0 {
        lemma_line_end(rest, from);
        lemma_line_end_shifted(head, rest, from);
        let end = line_end(rest, from);
        if end < rest.len() {
            assert((head + rest)[head.len() + end] == rest[end]);
            if end + 1 < rest.len() {
                assert((head + rest)[head.len() + end + 1] == rest[end + 1]);
            }
            lemma_line_start_shifted(head, rest, past_break(rest, end), n - 1);
        }
    }
}

proof fn lemma_unbroken(line: Seq<char>, rest: Seq<char>, from: int)
    requires
        unbroken(line),
        0 <= from <= line.len(),
        rest.len() == 0 || rest[0] == '\n' || rest[0] == '\r',
    ensures
        line_end(line + rest, from) == line.len(),
    decreases line.len() - from,
{
    if from < line.len() {
        assert((line + rest)[from] == line[from]);
        lemma_unbroken(line, rest, from + 1);
    } else if rest.len() > 0 {
        assert((line + rest)[from] == rest[0]);
    }
}

proof fn lemma_units(line: Seq<char>, from: int, i: int)
    requires
        0 <= from <= i <= line.len(),
    ensures
        unit_position(line, from, text::utf16_len(line.take(i)) as int) == Ok::<_, Seq<char>>(i),
    decreases i - from,
{
    lemma_units_grow(line, from, i);
    if from < i {
        lemma_units_grow(line, from + 1, i);
        lemma_units(line, from + 1, i);
    }
}

proof fn lemma_units_grow(line: Seq<char>, from: int, i: int)
    requires
        0 <= from <= i <= line.len(),
    ensures
        text::utf16_len(line.take(from)) <= text::utf16_len(line.take(i)),
        from < i ==> text::utf16_len(line.take(from)) < text::utf16_len(line.take(i)),
    decreases i - from,
{
    if from < i {
        lemma_units_grow(line, from, i - 1);
        assert(line.take(i).drop_last() =~= line.take(i - 1));
        assert(line.take(i).len() > 0);
    }
}

proof fn lemma_no_units(line: Seq<char>, from: int, units: int)
    requires
        0 <= from <= line.len(),
        text::utf16_len(line.take(from)) <= units,
        forall|i: int| 0 <= i <= line.len() ==> #[trigger] text::utf16_len(line.take(i)) != units,
    ensures
        unit_position(line, from, units) == if units > text::utf16_len(line) {
            Err::<int, _>("LSP character offset out of bounds"@)
        } else {
            Err("LSP character offset splits a UTF-16 code point"@)
        },
    decreases line.len() - from,
{
    assert(text::utf16_len(line.take(from)) != units);
    if from == line.len() {
        assert(line.take(from) =~= line);
    } else {
        lemma_units_grow(line, from + 1, line.len() as int);
        assert(line.take(line.len() as int) =~= line);
        if text::utf16_len(line.take(from + 1)) <= units {
            lemma_no_units(line, from + 1, units);
        }
    }
}

/// A position in the first line of a text names the character before which as
/// many units of UTF-16 lie; a position that lies within a character or beyond
/// the line names none.
pub proof fn positions_count_units(line: Seq<char>, rest: Seq<char>, i: int, units: nat)
    requires
        unbroken(line),
        rest.len() == 0 || rest[0] == '\n' || rest[0] == '\r',
        0 <= i <= line.len(),
        units <= usize::MAX,
    ensures
        units == text::utf16_len(line.take(i)) ==> offset_at(line + rest, 0, units) == Ok::<
            _,
            Seq<char>,
        >(i),
        units > text::utf16_len(line) ==> offset_at(line + rest, 0, units) == Err::<int, _>(
            "LSP character offset out of bounds"@,
        ),
        i < line.len() && text::utf16_len(line.take(i)) < units < text::utf16_len(line.take(i + 1))
            ==> offset_at(line + rest, 0, units) == Err::<int, _>(
            "LSP character offset splits a UTF-16 code point"@,
        ),
{
    lemma_unbroken(line, rest, 0);
    assert((line + rest).subrange(0, line.len() as int) =~= line);
    lemma_units(line, 0, i);
    assert(line.take(0) =~= Seq::<char>::empty());
    assert(line.take(line.len() as int) =~= line);
    if units > text::utf16_len(line) {
        assert forall|k: int| 0 <= k <= line.len() implies #[trigger] text::utf16_len(line.take(k))
            != units by {
            lemma_units_grow(line, k, line.len() as int);
        }
        lemma_no_units(line, 0, units as int);
    }
    if i < line.len() && text::utf16_len(line.take(i)) < units < text::utf16_len(
        line.take(i + 1),
    ) {
        assert forall|k: int| 0 <= k <= line.len() implies #[trigger] text::utf16_len(line.take(k))
            != units by {
            if k <= i {
                lemma_units_grow(line, k, i);
            } else {
                lemma_units_grow(line, i + 1, k);
            }
        }
        lemma_units_grow(line, i + 1, line.len() as int);
        lemma_no_units(line, 0, units as int);
    }
}

/// A line break, be it a newline, a carriage return or both, ends a line: the
/// positions of the lines behind it are those of the text behind it. A text
/// without a break has one line.
pub proof fn positions_count_lines(
    line: Seq<char>,
    mark: Seq<char>,
    rest: Seq<char>,
    n: nat,
    units: nat,
)
    requires
        unbroken(line),
        is_break(mark, rest),
        n + 1 <= usize::MAX,
    ensures
        offset_at(line + mark + rest, n + 1, units) == match offset_at(rest, n, units) {
            Ok(at) => Ok::<int, Seq<char>>(line.len() + mark.len() + at),
            Err(message) => Err(message),
        },
        units <= usize::MAX ==> offset_at(line, n + 1, units) == Err::<int, _>(
            "LSP line out of bounds"@,
        ),
{
    let s = line + mark + rest;
    let head = line + mark;
    assert(s =~= line + (mark + rest));
    lemma_unbroken(line, mark + rest, 0);
    assert(s[line.len() as int] == mark[0]);
    if mark.len() == 2 {
        assert(s[line.len() as int + 1] == mark[1]);
    } else if rest.len() > 0 {
        assert(s[line.len() as int + 1] == rest[0]);
    }
    assert(past_break(s, line.len() as int) == head.len());
    assert(s =~= head + rest);
    lemma_line_start_shifted(head, rest, 0, n as int);
    assert(line_start(s, 0, (n + 1) as int) == line_start(s, head.len() as int, n as int));
    lemma_line_start(rest, 0, n as int);
    match line_start(rest, 0, n as int) {
        Some(at) => {
            lemma_line_end(rest, at);
            lemma_line_end_shifted(head, rest, at);
            assert(s.subrange(head.len() + at, line_end(s, head.len() + at)) =~= rest.subrange(
                at,
                line_end(rest, at),
            ));
        },
        None => {},
    }
    lemma_unbroken(line, seq![], 0);
    assert(line + Seq::<char>::empty() =~= line);
    assert(line_end(line, 0) == line.len());
    assert(line_start(line, 0, (n + 1) as int) is None);
}

} // verus!
