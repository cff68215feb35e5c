//! JSON values as text.

use serde_json::Value;
use vstd::prelude::*;

use crate::json;
use crate::json::Json;
use crate::json::JsonNumber;

verus! {

/// A value of the `serde_json` crate.
#[verifier::external_type_specification]
#[verifier::external_body]
pub struct ExJsonValue(serde_json::Value);

/// The value that `serde_json` reads from a text, or its message where there
/// is none.
pub uninterp spec fn parsed(source: Seq<char>) -> Result<json::JsonView, Seq<char>>;

/// The value that `serde_json` reads from bytes, or its message where there is
/// none.
pub uninterp spec fn parsed_bytes(source: Seq<u8>) -> Result<json::JsonView, Seq<char>>;

/// How `serde_json` writes a value over several lines.
pub uninterp spec fn pretty(value: json::JsonView) -> Seq<char>;

/// How `serde_json` writes a value in one line.
pub uninterp spec fn compact(value: json::JsonView) -> Seq<char>;

/// The value as one of `serde_json`, variant by variant. A numeral that is
/// none becomes null.
#[verifier::external_body]
fn to_value(value: &Json) -> (out: Value)
{
    match value {
        Json::Null => Value::Null,
        Json::Bool(b) => Value::Bool(*b),
        Json::Number(JsonNumber::Unsigned(n)) => Value::from(*n),
        Json::Number(JsonNumber::Negative(n)) => Value::from(*n),
        Json::Number(JsonNumber::Float(s)) => s.parse().map_or(Value::Null, Value::Number),
        Json::Str(s) => Value::String(s.clone()),
        Json::Array(items) => Value::Array(items.iter().map(to_value).collect()),
        Json::Object(map) => Value::Object(
            map.iter().map(|(key, child)| (key.clone(), to_value(child))).collect(),
        ),
    }
}

/// The value from one of `serde_json`, variant by variant.
#[verifier::external_body]
fn from_value(value: Value) -> (out: Json)
{
    match value {
        Value::Null => Json::Null,
        Value::Bool(b) => Json::Bool(b),
        Value::Number(n) => Json::Number(match (n.as_u64(), n.as_i64()) {
            (Some(u), _) => JsonNumber::Unsigned(u),
            (None, Some(i)) => JsonNumber::Negative(i),
            (None, None) => JsonNumber::Float(n.to_string()),
        }),
        Value::String(s) => Json::Str(s),
        Value::Array(items) => Json::Array(items.into_iter().map(from_value).collect()),
        Value::Object(map) => Json::Object(
            map.into_iter().map(|(key, child)| (key, from_value(child))).collect(),
        ),
    }
}

/// The outcome of reading a value.
pub open spec fn outcome(r: Result<Json, String>) -> Result<json::JsonView, Seq<char>> {
    match r {
        Ok(value) => Ok(value@),
        Err(message) => Err(message@),
    }
}

/// `serde_json::from_str`: the value, or the message that there is none,
/// depends on the text alone.
#[verifier::external_body]
pub(crate) fn parse_text(source: &str) -> (r: Result<Json, String>)
    ensures
        outcome(r) == parsed(source@),
{
    serde_json::from_str(source).map(from_value).map_err(|err| err.to_string())
}

/// `serde_json::from_slice`: the value, or the message that there is none,
/// depends on the bytes alone.
#[verifier::external_body]
pub(crate) fn parse_bytes(source: &[u8]) -> (r: Result<Json, String>)
    ensures
        outcome(r) == parsed_bytes(source@),
{
    serde_json::from_slice(source).map(from_value).map_err(|err| err.to_string())
}

/// `serde_json::to_string_pretty`: the text depends on the value alone.
#[verifier::external_body]
pub(crate) fn pretty_text(value: &Json) -> (out: String)
    ensures
        out@ == pretty(value@),
{
    serde_json::to_string_pretty(&to_value(value)).unwrap_or_default()
}

/// `serde_json::to_string`: the text depends on the value alone.
#[verifier::external_body]
pub(crate) fn compact_text(value: &Json) -> (out: String)
    ensures
        out@ == compact(value@),
{
    serde_json::to_string(&to_value(value)).unwrap_or_default()
}

// ---------------------------------------------------------------------------
// Values whose entries are written in the order in which they are listed. The
// objects of `serde_json` order their entries by their keys.

/// Parts on lines of their own, with commas between them.
pub open spec fn on_lines(parts: Seq<Seq<char>>, indent: Seq<char>) -> Seq<char>
    decreases parts.len(),
{
    if parts.len() == 0 {
        Seq::empty()
    } else if parts.len() == 1 {
        "\n"@ + indent + parts.last()
    } else {
        on_lines(parts.drop_last(), indent) + ",\n"@ + indent + parts.last()
    }
}

/// A value over several lines, the inner ones indented by two more spaces. The
/// entries of an object keep their order; what has no inner lines is written
/// as `serde_json` does it.
pub open spec fn laid_out(value: json::JsonView, indent: Seq<char>) -> Seq<char>
    decreases value,
{
    let inner = indent + "  "@;
    match value {
        json::JsonView::Array(items) if items.len() > 0 => "["@ + on_lines(
            laid_out_items(items, inner),
            inner,
        ) + "\n"@ + indent + "]"@,
        json::JsonView::Object(entries) if entries.len() > 0 => "{"@ + on_lines(
            laid_out_entries(entries, inner),
            inner,
        ) + "\n"@ + indent + "}"@,
        _ => compact(value),
    }
}

/// The items of an array, each over several lines.
pub open spec fn laid_out_items(items: Seq<json::JsonView>, indent: Seq<char>) -> Seq<Seq<char>>
    decreases items,
{
    Seq::new(
        items.len(),
        |i: int|
            if 0 <= i < items.len() {
                laid_out(items[i], indent)
            } else {
                Seq::empty()
            },
    )
}

/// The entries of an object, each over several lines.
pub open spec fn laid_out_entries(
    entries: Seq<(Seq<char>, json::JsonView)>,
    indent: Seq<char>,
) -> Seq<Seq<char>>
    decreases entries,
{
    Seq::new(
        entries.len(),
        |i: int|
            if 0 <= i < entries.len() {
                compact(json::JsonView::Str(entries[i].0)) + ": "@ + laid_out(entries[i].1, indent)
            } else {
                Seq::empty()
            },
    )
}

/// Writes a value over several lines, with the entries of its objects in
/// order.
pub fn lay_out(value: &Json, indent: &str) -> (out: String)
    ensures
        out@ == laid_out(value@, indent@),
    decreases value,
{
    let mut inner = indent.to_string();
    inner.append("  ");
    match value {
        Json::Array(items) if items.len() > 0 => {
            let ghost parts = laid_out_items(json::views(items@), inner@);
            let mut out = "[".to_string();
            let mut i: usize = 0;
            proof {
                json::lemma_array_view(*items);
                assert(parts.take(0) =~= seq![]);
            }
            while i < items.len()
                invariant
                    *value == Json::Array(*items),
                    i <= items@.len(),
                    parts == laid_out_items(json::views(items@), inner@),
                    out@ == "["@ + on_lines(parts.take(i as int), inner@),
                decreases items@.len() - i,
            {
                proof {
                    assert(decreases_to!(*value => value->Array_0));
                    assert(parts.take(i + 1).drop_last() =~= parts.take(i as int));
                    assert(parts.take(i + 1).last() == parts[i as int]);
                }
                let part = lay_out(&items[i], inner.as_str());
                append_line(&mut out, i > 0, inner.as_str(), part.as_str());
                i += 1;
            }
            out.append("\n");
            out.append(indent);
            out.append("]");
            proof {
                assert(parts.take(i as int) =~= parts);
            }
            out
        },
        Json::Object(entries) if entries.len() > 0 => {
            let ghost parts = laid_out_entries(json::entry_views(entries@), inner@);
            let mut out = "{".to_string();
            let mut i: usize = 0;
            proof {
                json::lemma_object_view(*entries);
                assert(parts.take(0) =~= seq![]);
            }
            while i < entries.len()
                invariant
                    *value == Json::Object(*entries),
                    i <= entries@.len(),
                    parts == laid_out_entries(json::entry_views(entries@), inner@),
                    out@ == "{"@ + on_lines(parts.take(i as int), inner@),
                decreases entries@.len() - i,
            {
                proof {
                    assert(decreases_to!(*value => value->Object_0));
                    assert(parts.take(i + 1).drop_last() =~= parts.take(i as int));
                    assert(parts.take(i + 1).last() == parts[i as int]);
                }
                let mut part = compact_text(&json::string(entries[i].0.as_str()));
                part.append(": ");
                part.append(lay_out(&entries[i].1, inner.as_str()).as_str());
                append_line(&mut out, i > 0, inner.as_str(), part.as_str());
                i += 1;
            }
            out.append("\n");
            out.append(indent);
            out.append("}");
            proof {
                assert(parts.take(i as int) =~= parts);
            }
            out
        },
        _ => {
            proof {
                if let Json::Array(items) = value {
                    json::lemma_array_view(*items);
                }
                if let Json::Object(entries) = value {
                    json::lemma_object_view(*entries);
                }
            }
            compact_text(value)
        },
    }
}

fn append_line(out: &mut String, more: bool, indent: &str, part: &str)
    ensures
        final(out)@ == old(out)@ + (if more {
            ",\n"@
        } else {
            "\n"@
        }) + indent@ + part@,
{
    out.append(if more {
        ",\n"
    } else {
        "\n"
    });
    out.append(indent);
    out.append(part);
}

/// Values are laid out with each item and each entry on a line of its own,
/// behind two more spaces than the brackets that hold it; values without any
/// stay on one line.
pub proof fn items_stand_on_their_own_lines(
    value: json::JsonView,
    parts: Seq<Seq<char>>,
    part: Seq<char>,
    items: Seq<json::JsonView>,
    entries: Seq<(Seq<char>, json::JsonView)>,
    indent: Seq<char>,
    i: int,
)
    ensures
        !(value is Array) && !(value is Object) ==> laid_out(value, indent) == compact(value),
        laid_out(json::JsonView::Array(Seq::empty()), indent) == compact(
            json::JsonView::Array(Seq::empty()),
        ),
        items.len() > 0 ==> laid_out(json::JsonView::Array(items), indent) == "["@ + on_lines(
            laid_out_items(items, indent + "  "@),
            indent + "  "@,
        ) + "\n"@ + indent + "]"@,
        entries.len() > 0 ==> laid_out(json::JsonView::Object(entries), indent) == "{"@ + on_lines(
            laid_out_entries(entries, indent + "  "@),
            indent + "  "@,
        ) + "\n"@ + indent + "}"@,
        laid_out_items(items, indent).len() == items.len(),
        0 <= i < items.len() ==> laid_out_items(items, indent)[i] == laid_out(items[i], indent),
        laid_out_entries(entries, indent).len() == entries.len(),
        0 <= i < entries.len() ==> laid_out_entries(entries, indent)[i] == compact(
            json::JsonView::Str(entries[i].0),
        ) + ": "@ + laid_out(entries[i].1, indent),
        on_lines(seq![part], indent) == "\n"@ + indent + part,
        parts.len() > 0 ==> on_lines(parts.push(part), indent) == on_lines(parts, indent) + ",\n"@
            + indent + part,
{
    assert(parts.push(part).drop_last() =~= parts);
}

} // verus!
