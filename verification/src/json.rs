//! JSON values.

use vstd::prelude::*;

use crate::text;

verus! {

/// A JSON number. Whole numbers are kept apart from those with a fraction or
/// an exponent, of which only the text is kept.
#[derive(Clone, Debug, PartialEq)]
pub enum JsonNumber {
    Unsigned(u64),
    Negative(i64),
    Float(String),
}

/// A JSON value. An object lists its entries in the order in which they are
/// walked.
#[derive(Debug, PartialEq)]
pub enum Json {
    Null,
    Bool(bool),
    Number(JsonNumber),
    Str(String),
    Array(Vec<Json>),
    Object(Vec<(String, Json)>),
}

/// What a [`JsonNumber`] stands for.
#[verifier::ext_equal]
pub ghost enum NumberView {
    Unsigned(nat),
    Negative(int),
    Float(Seq<char>),
}

/// What a [`Json`] value stands for.
#[verifier::ext_equal]
pub ghost enum JsonView {
    Null,
    Bool(bool),
    Number(NumberView),
    Str(Seq<char>),
    Array(Seq<JsonView>),
    Object(Seq<(Seq<char>, JsonView)>),
}

impl View for JsonNumber {
    type V = NumberView;

    open spec fn view(&self) -> NumberView {
        match self {
            JsonNumber::Unsigned(n) => NumberView::Unsigned(*n as nat),
            JsonNumber::Negative(n) => NumberView::Negative(*n as int),
            JsonNumber::Float(s) => NumberView::Float(s@),
        }
    }
}

impl View for Json {
    type V = JsonView;

    open spec fn view(&self) -> JsonView {
        json_view(*self)
    }
}

/// The view of a value, through all its layers.
pub open spec fn json_view(value: Json) -> JsonView
    decreases value,
{
    match value {
        Json::Null => JsonView::Null,
        Json::Bool(b) => JsonView::Bool(b),
        Json::Number(n) => JsonView::Number(n@),
        Json::Str(s) => JsonView::Str(s@),
        Json::Array(items) => JsonView::Array(
            Seq::new(
                items@.len(),
                |i: int|
                    if 0 <= i < items@.len() {
                        json_view(items@[i])
                    } else {
                        JsonView::Null
                    },
            ),
        ),
        Json::Object(entries) => JsonView::Object(
            Seq::new(
                entries@.len(),
                |i: int|
                    if 0 <= i < entries@.len() {
                        (entries@[i].0@, json_view(entries@[i].1))
                    } else {
                        (Seq::empty(), JsonView::Null)
                    },
            ),
        ),
    }
}

/// The views of a list of values.
pub open spec fn views(items: Seq<Json>) -> Seq<JsonView> {
    Seq::new(items.len(), |i: int| items[i]@)
}

/// The views of the entries of an object.
pub open spec fn entry_views(entries: Seq<(String, Json)>) -> Seq<(Seq<char>, JsonView)> {
    Seq::new(entries.len(), |i: int| (entries[i].0@, entries[i].1@))
}

/// The view of an optional value.
pub open spec fn opt_view(value: Option<Json>) -> Option<JsonView> {
    match value {
        Some(v) => Some(v@),
        None => None,
    }
}

/// The view of an optional reference to a value.
pub open spec fn opt_ref_view(value: Option<&Json>) -> Option<JsonView> {
    match value {
        Some(v) => Some(v@),
        None => None,
    }
}

/// The values under `key`, from entry `from` on: the first one.
pub open spec fn lookup(
    entries: Seq<(Seq<char>, JsonView)>,
    key: Seq<char>,
    from: int,
) -> Option<JsonView>
    decreases entries.len() - from,
{
    if from < 0 || from >= entries.len() {
        None
    } else if entries[from].0 == key {
        Some(entries[from].1)
    } else {
        lookup(entries, key, from + 1)
    }
}

/// The index of the first entry under `key`, from entry `from` on.
pub open spec fn entry_index(
    entries: Seq<(Seq<char>, JsonView)>,
    key: Seq<char>,
    from: int,
) -> Option<int>
    decreases entries.len() - from,
{
    if from < 0 || from >= entries.len() {
        None
    } else if entries[from].0 == key {
        Some(from)
    } else {
        entry_index(entries, key, from + 1)
    }
}

/// The entries with `value` under `key`: in place of the first value there, or
/// at the end.
pub open spec fn with_entry(
    entries: Seq<(Seq<char>, JsonView)>,
    key: Seq<char>,
    value: JsonView,
) -> Seq<(Seq<char>, JsonView)> {
    match entry_index(entries, key, 0) {
        Some(i) => entries.update(i, (key, value)),
        None => entries.push((key, value)),
    }
}

impl JsonView {
    /// The object without entries.
    pub open spec fn object() -> JsonView {
        JsonView::Object(seq![])
    }

    /// The object with one more entry.
    pub open spec fn with(self, key: Seq<char>, value: JsonView) -> JsonView {
        match self {
            JsonView::Object(entries) => JsonView::Object(entries.push((key, value))),
            _ => self,
        }
    }

    /// The value under a key of an object.
    pub open spec fn get(self, key: Seq<char>) -> Option<JsonView> {
        match self {
            JsonView::Object(entries) => lookup(entries, key, 0),
            _ => None,
        }
    }

    /// The text of a string.
    pub open spec fn as_str(self) -> Option<Seq<char>> {
        match self {
            JsonView::Str(s) => Some(s),
            _ => None,
        }
    }

    /// The items of an array.
    pub open spec fn as_array(self) -> Option<Seq<JsonView>> {
        match self {
            JsonView::Array(items) => Some(items),
            _ => None,
        }
    }

    /// The truth value.
    pub open spec fn as_bool(self) -> Option<bool> {
        match self {
            JsonView::Bool(b) => Some(b),
            _ => None,
        }
    }

    /// The whole number that is not negative.
    pub open spec fn as_u64(self) -> Option<nat> {
        match self {
            JsonView::Number(NumberView::Unsigned(n)) => Some(n),
            _ => None,
        }
    }

    /// The whole number in the range of 64 bits with a sign.
    pub open spec fn as_i64(self) -> Option<int> {
        match self {
            JsonView::Number(NumberView::Unsigned(n)) => if n <= i64::MAX {
                Some(n as int)
            } else {
                None
            },
            JsonView::Number(NumberView::Negative(n)) => Some(n),
            _ => None,
        }
    }
}

/// The value of an optional value, null where there is none.
pub open spec fn or_null(value: Option<JsonView>) -> JsonView {
    match value {
        Some(v) => v,
        None => JsonView::Null,
    }
}

/// The value under a key of an optional value.
pub open spec fn opt_get(value: Option<JsonView>, key: Seq<char>) -> Option<JsonView> {
    match value {
        Some(v) => v.get(key),
        None => None,
    }
}

/// The text of an optional value.
pub open spec fn opt_as_str(value: Option<JsonView>) -> Option<Seq<char>> {
    match value {
        Some(v) => v.as_str(),
        None => None,
    }
}

/// The items of an optional value.
pub open spec fn opt_as_array(value: Option<JsonView>) -> Option<Seq<JsonView>> {
    match value {
        Some(v) => v.as_array(),
        None => None,
    }
}

/// The truth of an optional value.
pub open spec fn opt_as_bool(value: Option<JsonView>) -> Option<bool> {
    match value {
        Some(v) => v.as_bool(),
        None => None,
    }
}

/// The number of an optional value.
pub open spec fn opt_as_i64(value: Option<JsonView>) -> Option<int> {
    match value {
        Some(v) => v.as_i64(),
        None => None,
    }
}

/// The number of an optional value.
pub open spec fn opt_as_u64(value: Option<JsonView>) -> Option<nat> {
    match value {
        Some(v) => v.as_u64(),
        None => None,
    }
}

/// The view of an array is made of the views of its items.
pub proof fn lemma_array_view(items: Vec<Json>)
    ensures
        Json::Array(items)@ == JsonView::Array(views(items@)),
{
    assert(json_view(Json::Array(items))->Array_0 =~= views(items@));
}

/// The view of an object is made of the views of its entries.
pub proof fn lemma_object_view(entries: Vec<(String, Json)>)
    ensures
        Json::Object(entries)@ == JsonView::Object(entry_views(entries@)),
{
    assert(json_view(Json::Object(entries))->Object_0 =~= entry_views(entries@));
}

pub proof fn lemma_entry_index(entries: Seq<(Seq<char>, JsonView)>, key: Seq<char>, from: int)
    requires
        0 <= from,
    ensures
        match entry_index(entries, key, from) {
            Some(i) => from <= i < entries.len() && entries[i].0 == key && lookup(
                entries,
                key,
                from,
            ) == Some(entries[i].1),
            None => lookup(entries, key, from) is None,
        },
    decreases entries.len() - from,
{
    if from < entries.len() && entries[from].0 != key {
        lemma_entry_index(entries, key, from + 1);
    }
}

// ---------------------------------------------------------------------------
// Building.

/// The object without entries.
pub fn object() -> (value: Json)
    ensures
        value@ == JsonView::object(),
{
    let entries: Vec<(String, Json)> = Vec::new();
    proof {
        lemma_object_view(entries);
        assert(entry_views(entries@) =~= seq![]);
    }
    Json::Object(entries)
}

/// A string value.
pub fn string(s: &str) -> (value: Json)
    ensures
        value@ == JsonView::Str(s@),
{
    Json::Str(s.to_string())
}

/// A string or null.
pub fn opt_string(s: &Option<String>) -> (value: Json)
    ensures
        value@ == (match text::opt_text(*s) {
            Some(t) => JsonView::Str(t),
            None => JsonView::Null,
        }),
{
    match s {
        Some(t) => Json::Str(t.clone()),
        None => Json::Null,
    }
}

/// A number that is not negative.
pub fn unsigned(n: u64) -> (value: Json)
    ensures
        value@ == JsonView::Number(NumberView::Unsigned(n as nat)),
{
    Json::Number(JsonNumber::Unsigned(n))
}

/// The view of a whole number.
pub open spec fn integer_view(n: int) -> JsonView {
    if n >= 0 {
        JsonView::Number(NumberView::Unsigned(n as nat))
    } else {
        JsonView::Number(NumberView::Negative(n))
    }
}

/// A whole number.
pub fn integer(n: i64) -> (value: Json)
    ensures
        value@ == integer_view(n as int),
{
    if n >= 0 {
        Json::Number(JsonNumber::Unsigned(n as u64))
    } else {
        Json::Number(JsonNumber::Negative(n))
    }
}

/// An array.
pub fn array(items: Vec<Json>) -> (value: Json)
    ensures
        value@ == JsonView::Array(views(items@)),
{
    proof {
        lemma_array_view(items);
    }
    Json::Array(items)
}

/// The view of an array of strings.
pub open spec fn strings_view(items: Seq<Seq<char>>) -> JsonView {
    JsonView::Array(Seq::new(items.len(), |i: int| JsonView::Str(items[i])))
}

/// An array of strings.
pub fn strings(items: &[String]) -> (value: Json)
    ensures
        value@ == strings_view(text::texts(items@)),
{
    let mut out: Vec<Json> = Vec::new();
    let mut i: usize = 0;
    while i < items.len()
        invariant
            i <= items@.len(),
            out@.len() == i,
            forall|k: int| 0 <= k < i ==> #[trigger] out@[k]@ == JsonView::Str(items@[k]@),
        decreases items@.len() - i,
    {
        out.push(Json::Str(items[i].clone()));
        i += 1;
    }
    proof {
        lemma_array_view(out);
        assert(views(out@) =~= Seq::new(
            text::texts(items@).len(),
            |i: int| JsonView::Str(text::texts(items@)[i]),
        ));
    }
    Json::Array(out)
}

impl Json {
    /// Adds an entry at the end of an object; other values are kept.
    pub fn with(self, key: &str, value: Json) -> (out: Json)
        ensures
            out@ == self@.with(key@, value@),
    {
        match self {
            Json::Object(entries) => {
                let mut entries = entries;
                proof {
                    lemma_object_view(entries);
                }
                let ghost before = entry_views(entries@);
                entries.push((key.to_string(), value));
                proof {
                    lemma_object_view(entries);
                    assert(entry_views(entries@) =~= before.push((key@, value@)));
                }
                Json::Object(entries)
            },
            other => other,
        }
    }

    // -----------------------------------------------------------------------
    // Reading.

    /// The value under a key of an object.
    pub fn get(&self, key: &str) -> (value: Option<&Json>)
        ensures
            opt_ref_view(value) == self@.get(key@),
    {
        match self {
            Json::Object(entries) => {
                proof {
                    lemma_object_view(*entries);
                }
                let mut i: usize = 0;
                while i < entries.len()
                    invariant
                        i <= entries@.len(),
                        self@ == JsonView::Object(entry_views(entries@)),
                        lookup(entry_views(entries@), key@, 0) == lookup(
                            entry_views(entries@),
                            key@,
                            i as int,
                        ),
                    decreases entries@.len() - i,
                {
                    proof {
                        assert(entry_views(entries@)[i as int] == (
                            entries@[i as int].0@,
                            entries@[i as int].1@,
                        ));
                    }
                    if text::same_text(entries[i].0.as_str(), key) {
                        return Some(&entries[i].1);
                    }
                    i += 1;
                }
                None
            },
            _ => None,
        }
    }

    /// The text of a string.
    pub fn as_str(&self) -> (s: Option<&str>)
        ensures
            text::opt_str(s) == self@.as_str(),
    {
        match self {
            Json::Str(s) => Some(s.as_str()),
            _ => None,
        }
    }

    /// The items of an array.
    pub fn as_array(&self) -> (items: Option<&Vec<Json>>)
        ensures
            match items {
                Some(v) => self@.as_array() == Some(views(v@)) && *self == Json::Array(*v),
                None => self@.as_array() is None,
            },
    {
        match self {
            Json::Array(items) => {
                proof {
                    lemma_array_view(*items);
                }
                Some(items)
            },
            _ => None,
        }
    }

    /// The truth value.
    pub fn as_bool(&self) -> (b: Option<bool>)
        ensures
            b == self@.as_bool(),
    {
        match self {
            Json::Bool(b) => Some(*b),
            _ => None,
        }
    }

    /// The whole number that is not negative.
    pub fn as_u64(&self) -> (n: Option<u64>)
        ensures
            match n {
                Some(k) => self@.as_u64() == Some(k as nat),
                None => self@.as_u64() is None,
            },
    {
        match self {
            Json::Number(JsonNumber::Unsigned(n)) => Some(*n),
            _ => None,
        }
    }

    /// The whole number in the range of 64 bits with a sign.
    pub fn as_i64(&self) -> (n: Option<i64>)
        ensures
            match n {
                Some(k) => self@.as_i64() == Some(k as int),
                None => self@.as_i64() is None,
            },
    {
        match self {
            Json::Number(JsonNumber::Unsigned(n)) => if *n <= 9_223_372_036_854_775_807 {
                Some(*n as i64)
            } else {
                None
            },
            Json::Number(JsonNumber::Negative(n)) => Some(*n),
            _ => None,
        }
    }

    /// Whether this is null.
    pub fn is_null(&self) -> (b: bool)
        ensures
            b == (self@ is Null),
    {
        matches!(self, Json::Null)
    }

    /// A copy of the value.
    pub fn duplicate(&self) -> (out: Json)
        ensures
            out@ == self@,
        decreases self,
    {
        match self {
            Json::Null => Json::Null,
            Json::Bool(b) => Json::Bool(*b),
            Json::Number(n) => Json::Number(duplicate_number(n)),
            Json::Str(s) => Json::Str(s.clone()),
            Json::Array(items) => {
                let mut out: Vec<Json> = Vec::new();
                let mut i: usize = 0;
                while i < items.len()
                    invariant
                        *self == Json::Array(*items),
                        i <= items@.len(),
                        out@.len() == i,
                        forall|k: int| 0 <= k < i ==> #[trigger] out@[k]@ == items@[k]@,
                    decreases items@.len() - i,
                {
                    proof {
                        assert(decreases_to!(*self => self->Array_0));
                    }
                    out.push(items[i].duplicate());
                    i += 1;
                }
                proof {
                    lemma_array_view(*items);
                    lemma_array_view(out);
                    assert(views(out@) =~= views(items@));
                }
                Json::Array(out)
            },
            Json::Object(entries) => {
                let mut out: Vec<(String, Json)> = Vec::new();
                let mut i: usize = 0;
                while i < entries.len()
                    invariant
                        *self == Json::Object(*entries),
                        i <= entries@.len(),
                        out@.len() == i,
                        forall|k: int|
                            0 <= k < i ==> (#[trigger] out@[k]).0@ == entries@[k].0@ && out@[k].1@
                                == entries@[k].1@,
                    decreases entries@.len() - i,
                {
                    let key = entries[i].0.clone();
                    proof {
                        assert(decreases_to!(*self => self->Object_0));
                    }
                    let value = entries[i].1.duplicate();
                    out.push((key, value));
                    i += 1;
                }
                proof {
                    lemma_object_view(*entries);
                    lemma_object_view(out);
                    assert(entry_views(out@) =~= entry_views(entries@));
                }
                Json::Object(out)
            },
        }
    }
}

impl Clone for Json {
    fn clone(&self) -> (out: Self)
        ensures
            out@ == self@,
    {
        self.duplicate()
    }
}

fn duplicate_number(n: &JsonNumber) -> (out: JsonNumber)
    ensures
        out@ == n@,
{
    match n {
        JsonNumber::Unsigned(k) => JsonNumber::Unsigned(*k),
        JsonNumber::Negative(k) => JsonNumber::Negative(*k),
        JsonNumber::Float(s) => JsonNumber::Float(s.clone()),
    }
}

/// A copy of an optional value, null where there is none.
pub fn duplicate_or_null(value: Option<&Json>) -> (out: Json)
    ensures
        out@ == or_null(opt_ref_view(value)),
{
    match value {
        Some(v) => v.duplicate(),
        None => Json::Null,
    }
}

/// A copy of a list of values.
pub fn duplicate_all(items: &[Json]) -> (out: Vec<Json>)
    ensures
        views(out@) == views(items@),
{
    let mut out: Vec<Json> = Vec::new();
    let mut i: usize = 0;
    while i < items.len()
        invariant
            i <= items@.len(),
            out@.len() == i,
            forall|k: int| 0 <= k < i ==> #[trigger] out@[k]@ == items@[k]@,
        decreases items@.len() - i,
    {
        out.push(items[i].duplicate());
        i += 1;
    }
    proof {
        assert(views(out@) =~= views(items@));
    }
    out
}

/// Whether a number is written with a fraction and is zero, of either sign.
pub open spec fn is_float_zero(n: NumberView) -> bool {
    n == NumberView::Float("0.0"@) || n == NumberView::Float("-0.0"@)
}

/// Whether two numbers are equal: zero has two signs but one value.
pub open spec fn equal_numbers(a: NumberView, b: NumberView) -> bool {
    a == b || (is_float_zero(a) && is_float_zero(b))
}

/// Whether two values are equal. Objects are where the same keys hold equal
/// values, in whatever order; under a key, the first value counts.
pub open spec fn equal_values(a: JsonView, b: JsonView) -> bool
    decreases a,
{
    match (a, b) {
        (JsonView::Number(x), JsonView::Number(y)) => equal_numbers(x, y),
        (JsonView::Array(x), JsonView::Array(y)) => {
            &&& x.len() == y.len()
            &&& forall|i: int| 0 <= i < x.len() ==> equal_values(#[trigger] x[i], y[i])
        },
        (JsonView::Object(x), JsonView::Object(y)) => {
            &&& forall|i: int|
                0 <= i < x.len() && entry_index(x, (#[trigger] x[i]).0, 0) == Some(i) ==> {
                    &&& lookup(y, x[i].0, 0) is Some
                    &&& equal_values(x[i].1, lookup(y, x[i].0, 0)->Some_0)
                }
            &&& forall|j: int| 0 <= j < y.len() ==> lookup(x, (#[trigger] y[j]).0, 0) is Some
        },
        _ => a == b,
    }
}

fn is_zero_text(n: &JsonNumber) -> (r: bool)
    ensures
        r == is_float_zero(n@),
{
    match n {
        JsonNumber::Float(s) => text::same_text(s.as_str(), "0.0") || text::same_text(
            s.as_str(),
            "-0.0",
        ),
        _ => false,
    }
}

fn same_number(a: &JsonNumber, b: &JsonNumber) -> (same: bool)
    ensures
        same == equal_numbers(a@, b@),
{
    match (a, b) {
        (JsonNumber::Unsigned(x), JsonNumber::Unsigned(y)) => *x == *y,
        (JsonNumber::Negative(x), JsonNumber::Negative(y)) => *x == *y,
        (JsonNumber::Float(x), JsonNumber::Float(y)) => text::same_text(x.as_str(), y.as_str()) || (
        is_zero_text(a) && is_zero_text(b)),
        _ => false,
    }
}

/// The place of the first entry under a key.
fn first_entry(entries: &Vec<(String, Json)>, key: &str) -> (place: Option<usize>)
    ensures
        match place {
            Some(i) => entry_index(entry_views(entries@), key@, 0) == Some(i as int),
            None => entry_index(entry_views(entries@), key@, 0) is None,
        },
{
    let ghost all = entry_views(entries@);
    let mut i: usize = 0;
    while i < entries.len()
        invariant
            i <= entries@.len(),
            all == entry_views(entries@),
            entry_index(all, key@, 0) == entry_index(all, key@, i as int),
        decreases entries@.len() - i,
    {
        proof {
            assert(all[i as int].0 == entries@[i as int].0@);
        }
        if text::same_text(entries[i].0.as_str(), key) {
            return Some(i);
        }
        i += 1;
    }
    None
}

/// Whether two values are equal.
pub fn same_json(a: &Json, b: &Json) -> (same: bool)
    ensures
        same == equal_values(a@, b@),
    decreases a,
{
    match (a, b) {
        (Json::Null, Json::Null) => true,
        (Json::Bool(x), Json::Bool(y)) => *x == *y,
        (Json::Number(x), Json::Number(y)) => same_number(x, y),
        (Json::Str(x), Json::Str(y)) => text::same_text(x.as_str(), y.as_str()),
        (Json::Array(x), Json::Array(y)) => {
            let ghost xs = views(x@);
            let ghost ys = views(y@);
            proof {
                lemma_array_view(*x);
                lemma_array_view(*y);
            }
            if x.len() != y.len() {
                return false;
            }
            let mut i: usize = 0;
            while i < x.len()
                invariant
                    *a == Json::Array(*x),
                    xs == views(x@),
                    ys == views(y@),
                    a@ == JsonView::Array(xs),
                    b@ == JsonView::Array(ys),
                    i <= x@.len(),
                    x@.len() == y@.len(),
                    forall|k: int| 0 <= k < i ==> equal_values(#[trigger] xs[k], ys[k]),
                decreases x@.len() - i,
            {
                proof {
                    assert(xs[i as int] == x@[i as int]@);
                    assert(ys[i as int] == y@[i as int]@);
                }
                if !same_json(&x[i], &y[i]) {
                    return false;
                }
                i += 1;
            }
            true
        },
        (Json::Object(x), Json::Object(y)) => {
            let ghost xs = entry_views(x@);
            let ghost ys = entry_views(y@);
            proof {
                lemma_object_view(*x);
                lemma_object_view(*y);
            }
            let mut i: usize = 0;
            while i < x.len()
                invariant
                    *a == Json::Object(*x),
                    xs == entry_views(x@),
                    ys == entry_views(y@),
                    a@ == JsonView::Object(xs),
                    b@ == JsonView::Object(ys),
                    i <= x@.len(),
                    forall|k: int|
                        0 <= k < i && entry_index(xs, (#[trigger] xs[k]).0, 0) == Some(k) ==> {
                            &&& lookup(ys, xs[k].0, 0) is Some
                            &&& equal_values(xs[k].1, lookup(ys, xs[k].0, 0)->Some_0)
                        },
                decreases x@.len() - i,
            {
                let key = x[i].0.as_str();
                proof {
                    assert(xs[i as int] == (x@[i as int].0@, x@[i as int].1@));
                    lemma_entry_index(ys, key@, 0);
                }
                let first = match first_entry(x, key) {
                    Some(k) => k == i,
                    None => false,
                };
                if first {
                    match first_entry(y, key) {
                        Some(k) => {
                            proof {
                                assert(ys[k as int].1 == y@[k as int].1@);
                            }
                            if !same_json(&x[i].1, &y[k].1) {
                                return false;
                            }
                        },
                        None => {
                            return false;
                        },
                    }
                }
                i += 1;
            }
            let mut j: usize = 0;
            while j < y.len()
                invariant
                    xs == entry_views(x@),
                    ys == entry_views(y@),
                    a@ == JsonView::Object(xs),
                    b@ == JsonView::Object(ys),
                    j <= y@.len(),
                    forall|k: int|
                        0 <= k < j ==> lookup(xs, (#[trigger] ys[k]).0, 0) is Some,
                decreases y@.len() - j,
            {
                let key = y[j].0.as_str();
                proof {
                    assert(ys[j as int].0 == key@);
                    lemma_entry_index(xs, key@, 0);
                }
                if first_entry(x, key).is_none() {
                    return false;
                }
                j += 1;
            }
            true
        },
        _ => false,
    }
}

/// Equal objects have the same keys, and under each of them equal values; equal
/// lists have equal items; other values are equal where they are the same, but
/// zero has two signs.
pub proof fn equal_values_read_alike(a: JsonView, b: JsonView, key: Seq<char>, i: int)
    requires
        equal_values(a, b),
    ensures
        a is Object ==> b is Object && (a.get(key) is Some) == (b.get(key) is Some),
        a is Object && a.get(key) is Some ==> equal_values(a.get(key)->Some_0, b.get(key)->Some_0),
        a is Array ==> b is Array && a->Array_0.len() == b->Array_0.len(),
        a is Array && 0 <= i < a->Array_0.len() ==> equal_values(a->Array_0[i], b->Array_0[i]),
        a is Str || a is Bool || a is Null ==> a == b,
        a is Number ==> b is Number && (a == b || (is_float_zero(a->Number_0) && is_float_zero(
            b->Number_0,
        ))),
{
    if a is Object && b is Object {
        let x = a->Object_0;
        let y = b->Object_0;
        lemma_entry_index(x, key, 0);
        lemma_entry_index(y, key, 0);
        match entry_index(x, key, 0) {
            Some(k) => {
                assert(entry_index(x, x[k].0, 0) == Some(k));
                assert(equal_values(x[k].1, lookup(y, x[k].0, 0)->Some_0));
            },
            None => {
                match entry_index(y, key, 0) {
                    Some(k) => {
                        assert(lookup(x, y[k].0, 0) is Some);
                    },
                    None => {},
                }
            },
        }
    }
}

/// What a value reads as: only what it is.
pub proof fn values_read_as_what_they_are(n: nat, s: Seq<char>, b: bool, items: Seq<JsonView>)
    ensures
        JsonView::Str(s).as_str() == Some(s),
        JsonView::Bool(b).as_bool() == Some(b),
        JsonView::Array(items).as_array() == Some(items),
        JsonView::Number(NumberView::Unsigned(n)).as_u64() == Some(n),
        n <= i64::MAX ==> JsonView::Number(NumberView::Unsigned(n)).as_i64() == Some(n as int),
        n > i64::MAX ==> JsonView::Number(NumberView::Unsigned(n)).as_i64() is None,
        JsonView::Str(s).as_u64() is None,
        JsonView::Bool(b).as_str() is None,
        JsonView::Null.as_array() is None,
        integer_view(n as int) == JsonView::Number(NumberView::Unsigned(n)),
        n > 0 ==> integer_view(-n) == JsonView::Number(NumberView::Negative(-n)),
{
}

/// An entry that is added to an object is found under its key, unless another
/// was there before; the other keys keep what they had.
pub proof fn added_entries_are_found(
    entries: Seq<(Seq<char>, JsonView)>,
    key: Seq<char>,
    value: JsonView,
    other: Seq<char>,
)
    requires
        other != key,
    ensures
        JsonView::Object(entries).get(key) is None ==> JsonView::Object(entries).with(
            key,
            value,
        ).get(key) == Some(value),
        JsonView::Object(entries).with(key, value).get(other) == JsonView::Object(entries).get(
            other,
        ),
{
    lemma_pushed_lookup(entries, key, value, key, 0);
    lemma_pushed_lookup(entries, key, value, other, 0);
}

proof fn lemma_pushed_lookup(
    entries: Seq<(Seq<char>, JsonView)>,
    key: Seq<char>,
    value: JsonView,
    wanted: Seq<char>,
    from: int,
)
    requires
        0 <= from <= entries.len(),
    ensures
        lookup(entries.push((key, value)), wanted, from) == if lookup(entries, wanted, from) is None
            && wanted == key {
            Some(value)
        } else {
            lookup(entries, wanted, from)
        },
    decreases entries.len() - from,
{
    let more = entries.push((key, value));
    if from < entries.len() {
        assert(more[from] == entries[from]);
        lemma_pushed_lookup(entries, key, value, wanted, from + 1);
    } else {
        assert(more[from] == (key, value));
        assert(lookup(more, wanted, from + 1) is None);
    }
}

} // verus!
