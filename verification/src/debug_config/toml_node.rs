//! Values of a configuration, and how they are listed.

use toml::Value;
use vstd::prelude::*;

use crate::text;
use crate::text_order;

verus! {

/// A value of a configuration. Numbers that are not integers and points in
/// time are held as they are written.
#[derive(Debug)]
pub enum TomlNode {
    Text(String),
    Integer(i64),
    Boolean(bool),
    Numeral(String),
    Moment(String),
    Array(Vec<TomlNode>),
    Table(Vec<(String, TomlNode)>),
}

/// What a [`TomlNode`] stands for.
pub ghost enum TomlView {
    Text(Seq<char>),
    Integer(int),
    Boolean(bool),
    Numeral(Seq<char>),
    Moment(Seq<char>),
    Array(Seq<TomlView>),
    Table(Seq<(Seq<char>, TomlView)>),
}

impl View for TomlNode {
    type V = TomlView;

    open spec fn view(&self) -> TomlView {
        node_view(*self)
    }
}

/// The view of a value, through all its layers.
pub open spec fn node_view(node: TomlNode) -> TomlView
    decreases node,
{
    match node {
        TomlNode::Text(s) => TomlView::Text(s@),
        TomlNode::Integer(n) => TomlView::Integer(n as int),
        TomlNode::Boolean(b) => TomlView::Boolean(b),
        TomlNode::Numeral(s) => TomlView::Numeral(s@),
        TomlNode::Moment(s) => TomlView::Moment(s@),
        TomlNode::Array(items) => TomlView::Array(
            Seq::new(
                items@.len(),
                |i: int|
                    if 0 <= i < items@.len() {
                        node_view(items@[i])
                    } else {
                        TomlView::Boolean(false)
                    },
            ),
        ),
        TomlNode::Table(entries) => TomlView::Table(
            Seq::new(
                entries@.len(),
                |i: int|
                    if 0 <= i < entries@.len() {
                        (entries@[i].0@, node_view(entries@[i].1))
                    } else {
                        (Seq::empty(), TomlView::Boolean(false))
                    },
            ),
        ),
    }
}

/// The views of the entries of a table.
pub open spec fn entry_views(entries: Seq<(String, TomlNode)>) -> Seq<(Seq<char>, TomlView)> {
    Seq::new(entries.len(), |i: int| (entries[i].0@, entries[i].1@))
}

proof fn lemma_table_view(entries: Vec<(String, TomlNode)>)
    ensures
        TomlNode::Table(entries)@ == TomlView::Table(entry_views(entries@)),
{
    assert(node_view(TomlNode::Table(entries))->Table_0 =~= entry_views(entries@));
}

// ---------------------------------------------------------------------------
// Writing values.

/// A value of the `toml` crate.
#[verifier::external_type_specification]
#[verifier::external_body]
pub struct ExTomlValue(toml::Value);

/// How `toml` writes a value in one line.
pub uninterp spec fn toml_text(node: TomlView) -> Seq<char>;

/// The value as one of `toml`, variant by variant. A number or a point in time
/// that `toml` cannot read becomes a string.
#[verifier::external_body]
fn to_toml(node: &TomlNode) -> (value: Value)
{
    match node {
        TomlNode::Text(s) => Value::String(s.clone()),
        TomlNode::Integer(n) => Value::Integer(*n),
        TomlNode::Boolean(b) => Value::Boolean(*b),
        TomlNode::Numeral(s) => s.parse().map_or(Value::String(s.clone()), Value::Float),
        TomlNode::Moment(s) => s.parse().map_or(Value::String(s.clone()), Value::Datetime),
        TomlNode::Array(items) => Value::Array(items.iter().map(to_toml).collect()),
        TomlNode::Table(entries) => Value::Table(
            entries.iter().map(|(key, child)| (key.clone(), to_toml(child))).collect(),
        ),
    }
}

/// `toml::Value::to_string`: what is written depends on the value alone.
#[verifier::external_body]
pub(crate) fn format_toml_value(node: &TomlNode) -> (out: String)
    ensures
        out@ == toml_text(node@),
{
    to_toml(node).to_string()
}

// ---------------------------------------------------------------------------
// Listing values.

/// The keys of entries.
pub open spec fn keys(entries: Seq<(Seq<char>, TomlView)>) -> Seq<Seq<char>> {
    Seq::new(entries.len(), |i: int| entries[i].0)
}

/// The place of the first entry under a key, from the `i`-th on.
pub open spec fn place(entries: Seq<(Seq<char>, TomlView)>, key: Seq<char>, i: int) -> Option<int>
    decreases entries.len() - i,
{
    if i < 0 || i >= entries.len() {
        None
    } else if entries[i].0 == key {
        Some(i)
    } else {
        place(entries, key, i + 1)
    }
}

/// A key below another.
pub open spec fn dotted(prefix: Option<Seq<char>>, key: Seq<char>) -> Seq<char> {
    match prefix {
        Some(p) => p + "."@ + key,
        None => key,
    }
}

/// The values below a value, with their keys from the top, in the order of
/// the keys.
pub open spec fn pairs(node: TomlView, prefix: Option<Seq<char>>) -> Seq<(Seq<char>, Seq<char>)>
    decreases node, 1nat, 0int,
{
    match node {
        TomlView::Table(entries) => table_pairs(
            node,
            text_order::sorted_set(keys(entries)),
            prefix,
        ),
        _ => seq![
            (
                match prefix {
                    Some(p) => p,
                    None => "<value>"@,
                },
                toml_text(node),
            ),
        ],
    }
}

/// The values below the entries of a table under some keys.
pub open spec fn table_pairs(
    node: TomlView,
    wanted: Seq<Seq<char>>,
    prefix: Option<Seq<char>>,
) -> Seq<(Seq<char>, Seq<char>)>
    decreases node, 0nat, wanted.len(),
{
    if wanted.len() == 0 {
        seq![]
    } else {
        let earlier = table_pairs(node, wanted.drop_last(), prefix);
        let key = wanted.last();
        match place(node->Table_0, key, 0) {
            Some(i) => if node is Table && 0 <= i < node->Table_0.len() {
                earlier + pairs(node->Table_0[i].1, Some(dotted(prefix, key)))
            } else {
                earlier
            },
            None => earlier,
        }
    }
}

/// The views of pairs.
pub open spec fn pair_views(list: Seq<(String, String)>) -> Seq<(Seq<char>, Seq<char>)> {
    Seq::new(list.len(), |i: int| (list[i].0@, list[i].1@))
}

fn find_entry(entries: &Vec<(String, TomlNode)>, key: &str) -> (r: Option<usize>)
    ensures
        match r {
            Some(i) => place(entry_views(entries@), key@, 0) == Some(i as int) && i
                < entries@.len(),
            None => place(entry_views(entries@), key@, 0) is None,
        },
{
    let ghost all = entry_views(entries@);
    let mut i: usize = 0;
    while i < entries.len()
        invariant
            i <= entries@.len(),
            all == entry_views(entries@),
            place(all, key@, 0) == place(all, key@, i as int),
        decreases entries@.len() - i,
    {
        proof {
            assert(all[i as int].0 == entries@[i as int].0@);
        }
        if text::same_text(entries[i].0.as_str(), key) {
            return Some(i);
        }
        i += 1;
    }
    None
}

fn sorted_keys(entries: &Vec<(String, TomlNode)>) -> (out: Vec<String>)
    ensures
        text::texts(out@) == text_order::sorted_set(keys(entry_views(entries@))),
{
    let ghost all = keys(entry_views(entries@));
    let mut list: Vec<String> = Vec::new();
    let mut i: usize = 0;
    proof {
        assert(text::texts(list@) =~= all.take(0));
    }
    while i < entries.len()
        invariant
            i <= entries@.len(),
            all == keys(entry_views(entries@)),
            text::texts(list@) == all.take(i as int),
        decreases entries@.len() - i,
    {
        let ghost before = text::texts(list@);
        list.push(entries[i].0.clone());
        proof {
            assert(text::texts(list@) =~= before.push(all[i as int]));
            assert(text::texts(list@) =~= all.take(i + 1));
        }
        i += 1;
    }
    proof {
        assert(all.take(i as int) =~= all);
    }
    text_order::sort_set(&list)
}

/// Lists the values below a value.
pub fn flatten_toml_key_values(
    node: &TomlNode,
    prefix: Option<&str>,
    out: &mut Vec<(String, String)>,
)
    ensures
        pair_views(final(out)@) == pair_views(old(out)@) + pairs(node@, text::opt_str(prefix)),
    decreases node,
{
    let ghost start = pair_views(out@);
    match node {
        TomlNode::Table(entries) => {
            let wanted = sorted_keys(entries);
            let ghost all = text::texts(wanted@);
            let ghost views = entry_views(entries@);
            let ghost above = text::opt_str(prefix);
            let mut i: usize = 0;
            proof {
                lemma_table_view(*entries);
                assert(pair_views(out@) =~= start + table_pairs(
                    node@,
                    all.take(0),
                    above,
                ));
            }
            while i < wanted.len()
                invariant
                    i <= wanted@.len(),
                    *node == TomlNode::Table(*entries),
                    node@ == TomlView::Table(views),
                    all == text::texts(wanted@),
                    views == entry_views(entries@),
                    above == text::opt_str(prefix),
                    pair_views(out@) == start + table_pairs(
                        node@,
                        all.take(i as int),
                        above,
                    ),
                decreases wanted@.len() - i,
            {
                let key = wanted[i].as_str();
                proof {
                    assert(all.take(i + 1).drop_last() =~= all.take(i as int));
                    assert(all.take(i + 1).last() == key@);
                }
                if let Some(at) = find_entry(entries, key) {
                    let next = match prefix {
                        Some(p) => {
                            let mut longer = p.to_string();
                            longer.append(".");
                            longer.append(key);
                            longer
                        },
                        None => key.to_string(),
                    };
                    proof {
                        assert(decreases_to!(*node => node->Table_0));
                        assert(views[at as int].1 == entries@[at as int].1@);
                    }
                    flatten_toml_key_values(&entries[at].1, Some(next.as_str()), out);
                }
                proof {
                    assert(pair_views(out@) =~= start + table_pairs(
                        node@,
                        all.take(i + 1),
                        above,
                    ));
                }
                i += 1;
            }
            proof {
                assert(all.take(i as int) =~= all);
            }
        },
        _ => {
            let key = match prefix {
                Some(p) => p.to_string(),
                None => "<value>".to_string(),
            };
            let value = format_toml_value(node);
            out.push((key, value));
            proof {
                assert(pair_views(out@) =~= start + pairs(node@, text::opt_str(prefix)));
            }
        },
    }
}

/// A value is shown under its path; the entries of a table are shown in the order
/// of their keys, each under the path of the table and its key.
pub proof fn entries_are_shown_under_their_path(
    node: TomlView,
    leaf: TomlView,
    wanted: Seq<Seq<char>>,
    prefix: Option<Seq<char>>,
    path: Seq<char>,
    key: Seq<char>,
    i: int,
)
    ensures
        !(leaf is Table) ==> pairs(leaf, Some(path)) == seq![(path, toml_text(leaf))],
        !(leaf is Table) ==> pairs(leaf, None) == seq![("<value>"@, toml_text(leaf))],
        node is Table ==> pairs(node, prefix) == table_pairs(
            node,
            text_order::sorted_set(keys(node->Table_0)),
            prefix,
        ),
        node is Table ==> table_pairs(node, Seq::empty(), prefix).len() == 0,
        node is Table && 0 <= i < node->Table_0.len() && node->Table_0[i].0 == key && (forall|j: int|
            0 <= j < i ==> (#[trigger] node->Table_0[j]).0 != key) ==> {
            &&& table_pairs(node, wanted.push(key), Some(path)) == table_pairs(
                node,
                wanted,
                Some(path),
            ) + pairs(node->Table_0[i].1, Some(path + "."@ + key))
            &&& table_pairs(node, wanted.push(key), None) == table_pairs(node, wanted, None)
                + pairs(node->Table_0[i].1, Some(key))
        },
{
    assert(wanted.push(key).drop_last() =~= wanted);
    if node is Table && 0 <= i < node->Table_0.len() && node->Table_0[i].0 == key && (forall|j: int|
        0 <= j < i ==> (#[trigger] node->Table_0[j]).0 != key) {
        lemma_place_is(node->Table_0, key, i, 0);
    }
}

proof fn lemma_place_is(entries: Seq<(Seq<char>, TomlView)>, key: Seq<char>, k: int, from: int)
    requires
        0 <= from <= k < entries.len(),
        entries[k].0 == key,
        forall|j: int| 0 <= j < k ==> (#[trigger] entries[j]).0 != key,
    ensures
        place(entries, key, from) == Some(k),
    decreases k - from,
{
    if from < k {
        lemma_place_is(entries, key, k, from + 1);
    }
}

} // verus!
