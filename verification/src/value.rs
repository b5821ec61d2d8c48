//! JSON values, their mathematical model, and the bridge to `serde_json`.

use vstd::prelude::*;
use crate::text::same_text;

verus! {

/// The number type of `serde_json`. A number is carried through as it is; only
/// [`number_as_u64`] reads one.
#[verifier::external_type_specification]
#[verifier::external_body]
pub struct ExNumber(serde_json::Number);

/// The value type of `serde_json`. What one holds is named by [`json_of`].
#[verifier::external_type_specification]
#[verifier::external_body]
pub struct ExValue(serde_json::Value);

/// A JSON value. An object keeps its entries in insertion order.
#[derive(Debug, PartialEq, Eq)]
pub enum JsonValue {
    Null,
    Bool(bool),
    Number(serde_json::Number),
    String(String),
    Array(Vec<JsonValue>),
    Object(Vec<(String, JsonValue)>),
}

/// The mathematical model of a [`JsonValue`].
pub enum JsonView {
    Null,
    Bool(bool),
    Number(serde_json::Number),
    String(Seq<char>),
    Array(Seq<JsonView>),
    Object(Seq<EntryView>),
}

/// The mathematical model of one entry of an object.
pub struct EntryView {
    pub key: Seq<char>,
    pub value: JsonView,
}

impl View for JsonValue {
    type V = JsonView;

    open spec fn view(&self) -> JsonView
        decreases self,
    {
        match self {
            JsonValue::Null => JsonView::Null,
            JsonValue::Bool(b) => JsonView::Bool(*b),
            JsonValue::Number(n) => JsonView::Number(*n),
            JsonValue::String(s) => JsonView::String(s@),
            JsonValue::Array(items) => JsonView::Array(
                Seq::new(
                    items.len() as nat,
                    |i: int|
                        if 0 <= i < items.len() {
                            items[i]@
                        } else {
                            JsonView::Null
                        },
                ),
            ),
            JsonValue::Object(entries) => JsonView::Object(
                Seq::new(
                    entries.len() as nat,
                    |i: int|
                        if 0 <= i < entries.len() {
                            EntryView { key: entries[i].0@, value: entries[i].1@ }
                        } else {
                            EntryView { key: Seq::empty(), value: JsonView::Null }
                        },
                ),
            ),
        }
    }
}

/// The models of a sequence of values.
pub open spec fn views(items: Seq<JsonValue>) -> Seq<JsonView> {
    Seq::new(items.len(), |i: int| items[i]@)
}

/// The models of the entries of an object.
pub open spec fn entry_views(entries: Seq<(String, JsonValue)>) -> Seq<EntryView> {
    Seq::new(entries.len(), |i: int| EntryView { key: entries[i].0@, value: entries[i].1@ })
}

/// The keys of the entries of an object, in their order.
pub open spec fn keys_of(entries: Seq<EntryView>) -> Seq<Seq<char>> {
    Seq::new(entries.len(), |i: int| entries[i].key)
}

/// Whether no two names of a sequence are equal.
pub open spec fn distinct(names: Seq<Seq<char>>) -> bool {
    forall|i: int, j: int| 0 <= i < j < names.len() ==> names[i] != names[j]
}

impl JsonView {
    /// Whether every object inside the value, the value itself included, is a mapping: no
    /// key occurs twice in it.
    pub open spec fn wf(self) -> bool
        decreases self,
    {
        match self {
            JsonView::Array(items) => forall|i: int|
                0 <= i < items.len() ==> (#[trigger] items[i]).wf(),
            JsonView::Object(entries) => {
                &&& forall|i: int| 0 <= i < entries.len() ==> (#[trigger] entries[i]).value.wf()
                &&& distinct(keys_of(entries))
            },
            _ => true,
        }
    }
}

/// The model of an array is the sequence of the models of its items.
pub proof fn lemma_array_view(items: Vec<JsonValue>)
    ensures
        JsonValue::Array(items)@ == JsonView::Array(views(items@)),
{
    assert(JsonValue::Array(items)@->Array_0 =~= views(items@));
}

/// The model of an object is the sequence of the models of its entries.
pub proof fn lemma_object_view(entries: Vec<(String, JsonValue)>)
    ensures
        JsonValue::Object(entries)@ == JsonView::Object(entry_views(entries@)),
{
    assert(JsonValue::Object(entries)@->Object_0 =~= entry_views(entries@));
}

/// The value of the first entry at or after `start` whose key is `key`.
pub open spec fn member_from(entries: Seq<EntryView>, key: Seq<char>, start: int) -> Option<
    JsonView,
>
    decreases entries.len() - start,
{
    if start < 0 || start >= entries.len() {
        None
    } else if entries[start].key == key {
        Some(entries[start].value)
    } else {
        member_from(entries, key, start + 1)
    }
}

/// The value that an object holds under `key`, if it holds one.
pub open spec fn member(entries: Seq<EntryView>, key: Seq<char>) -> Option<JsonView> {
    member_from(entries, key, 0)
}

/// The value that an object holds under `key`, if it holds one.
pub fn get<'a>(entries: &'a Vec<(String, JsonValue)>, key: &str) -> (r: Option<&'a JsonValue>)
    ensures
        match r {
            Some(value) => member(entry_views(entries@), key@) == Some(value@),
            None => member(entry_views(entries@), key@) is None,
        },
{
    let ghost model = entry_views(entries@);
    let mut i: usize = 0;
    while i < entries.len()
        invariant
            i <= entries.len(),
            model == entry_views(entries@),
            member(model, key@) == member_from(model, key@, i as int),
        decreases entries.len() - i,
    {
        assert(model[i as int].key == entries[i as int].0@);
        assert(model[i as int].value == entries[i as int].1@);
        if same_text(entries[i].0.as_str(), key) {
            return Some(&entries[i].1);
        }
        i += 1;
    }
    None
}

/// Tells whether no key occurs twice among the entries of an object.
pub fn has_distinct_keys(entries: &Vec<(String, JsonValue)>) -> (r: bool)
    ensures
        r == distinct(keys_of(entry_views(entries@))),
{
    let ghost names = keys_of(entry_views(entries@));
    let mut j: usize = 0;
    while j < entries.len()
        invariant
            j <= entries.len(),
            names == keys_of(entry_views(entries@)),
            forall|a: int, b: int| 0 <= a < b < j ==> names[a] != names[b],
        decreases entries.len() - j,
    {
        let mut i: usize = 0;
        while i < j
            invariant
                i <= j < entries.len(),
                names == keys_of(entry_views(entries@)),
                forall|a: int| 0 <= a < i ==> names[a] != names[j as int],
            decreases j - i,
        {
            assert(names[i as int] == entries[i as int].0@);
            assert(names[j as int] == entries[j as int].0@);
            if same_text(entries[i].0.as_str(), entries[j].0.as_str()) {
                return false;
            }
            i += 1;
        }
        j += 1;
    }
    true
}

impl JsonValue {
    /// Tells whether the value is well formed: no object inside it, the value itself
    /// included, holds a key twice.
    #[verifier::loop_isolation(false)]
    pub fn is_well_formed(&self) -> (r: bool)
        ensures
            r == self@.wf(),
        decreases self,
    {
        match self {
            JsonValue::Array(items) => {
                proof {
                    lemma_array_view(*items);
                }
                let mut i: usize = 0;
                while i < items.len()
                    invariant
                        i <= items.len(),
                        forall|k: int| 0 <= k < i ==> (#[trigger] views(items@)[k]).wf(),
                    decreases items.len() - i,
                {
                    assert(views(items@)[i as int] == items[i as int]@);
                    if !items[i].is_well_formed() {
                        assert(!(self@->Array_0[i as int]).wf());
                        return false;
                    }
                    i += 1;
                }
                true
            },
            JsonValue::Object(entries) => {
                proof {
                    lemma_object_view(*entries);
                }
                let mut i: usize = 0;
                while i < entries.len()
                    invariant
                        i <= entries.len(),
                        forall|k: int|
                            0 <= k < i ==> (#[trigger] entry_views(entries@)[k]).value.wf(),
                    decreases entries.len() - i,
                {
                    assert(entry_views(entries@)[i as int].value == entries[i as int].1@);
                    if !entries[i].1.is_well_formed() {
                        return false;
                    }
                    i += 1;
                }
                has_distinct_keys(entries)
            },
            _ => true,
        }
    }
}

/// What a `serde_json::Value` holds: its variant, and inside an array or an object the
/// items in their order.
pub uninterp spec fn json_of(v: serde_json::Value) -> JsonView;

/// What each of a sequence of `serde_json` values holds.
pub open spec fn all_json_of(values: Seq<serde_json::Value>) -> Seq<JsonView> {
    Seq::new(values.len(), |i: int| json_of(values[i]))
}

/// The unsigned integer that a number is: `Some` for a non-negative integer that fits
/// `u64`, `None` for a negative or a fractional number.
pub uninterp spec fn number_u64(n: serde_json::Number) -> Option<u64>;

/// The signed integer that a number is: `Some` for an integer that fits `i64`, `None` for a
/// greater integer or a fractional number.
pub uninterp spec fn number_i64(n: serde_json::Number) -> Option<i64>;

/// What `serde_json` reads from a text: the value, or the message of its error.
pub uninterp spec fn parsed_json(data: Seq<u8>) -> Result<JsonView, Seq<char>>;

/// `serde_json::Number::as_u64`: the number as a `u64` where it is a non-negative integer
/// that fits, `None` otherwise.
#[verifier::external_body]
pub(crate) fn number_as_u64(n: &serde_json::Number) -> (r: Option<u64>)
    ensures
        r == number_u64(*n),
{
    n.as_u64()
}

/// `serde_json::Number::as_i64`: the number as an `i64` where it is an integer that fits,
/// `None` otherwise.
#[verifier::external_body]
pub(crate) fn number_as_i64(n: &serde_json::Number) -> (r: Option<i64>)
    ensures
        r == number_i64(*n),
{
    n.as_i64()
}

/// Builds the `serde_json::Value` that holds what `v` holds, variant by variant. With the
/// crate's `preserve_order` feature a `serde_json` object keeps the order in which its
/// entries were inserted; a key that came twice would be kept once, which is why `v` has to
/// be well formed.
#[verifier::external_body]
pub(crate) fn to_serde(v: &JsonValue) -> (r: serde_json::Value)
    requires
        v@.wf(),
    ensures
        json_of(r) == v@,
{
    match v {
        JsonValue::Null => serde_json::Value::Null,
        JsonValue::Bool(b) => serde_json::Value::Bool(*b),
        JsonValue::Number(n) => serde_json::Value::Number(n.clone()),
        JsonValue::String(s) => serde_json::Value::String(s.clone()),
        JsonValue::Array(a) => serde_json::Value::Array(a.iter().map(to_serde).collect()),
        JsonValue::Object(o) => serde_json::Value::Object(
            o.iter().map(|e| (e.0.clone(), to_serde(&e.1))).collect(),
        ),
    }
}

/// Reads a `serde_json::Value` into a [`JsonValue`], variant by variant. The keys of a
/// `serde_json` object are distinct, so the result is well formed.
#[verifier::external_body]
pub(crate) fn from_serde(v: &serde_json::Value) -> (r: JsonValue)
    ensures
        r@ == json_of(*v),
        r@.wf(),
{
    match v {
        serde_json::Value::Null => JsonValue::Null,
        serde_json::Value::Bool(b) => JsonValue::Bool(*b),
        serde_json::Value::Number(n) => JsonValue::Number(n.clone()),
        serde_json::Value::String(s) => JsonValue::String(s.clone()),
        serde_json::Value::Array(a) => JsonValue::Array(a.iter().map(from_serde).collect()),
        serde_json::Value::Object(o) => JsonValue::Object(
            o.iter().map(|e| (e.0.clone(), from_serde(e.1))).collect(),
        ),
    }
}

/// `serde_json::from_slice`: the value that the text holds, or the message of the error
/// that `serde_json` reports for it.
#[verifier::external_body]
pub(crate) fn parse_value(data: &[u8]) -> (r: Result<serde_json::Value, String>)
    ensures
        match r {
            Ok(v) => parsed_json(data@) == Ok::<JsonView, Seq<char>>(json_of(v)),
            Err(message) => parsed_json(data@) == Err::<JsonView, Seq<char>>(message@),
        },
{
    serde_json::from_slice::<serde_json::Value>(data).map_err(|e| e.to_string())
}

/// Builds the `serde_json` values for a sequence of values.
pub(crate) fn to_serde_all(values: &Vec<JsonValue>) -> (r: Vec<serde_json::Value>)
    requires
        forall|i: int| 0 <= i < values.len() ==> (#[trigger] values[i])@.wf(),
    ensures
        all_json_of(r@) == views(values@),
{
    let mut out: Vec<serde_json::Value> = Vec::new();
    let mut i: usize = 0;
    while i < values.len()
        invariant
            i <= values.len(),
            out.len() == i,
            forall|k: int| 0 <= k < values.len() ==> (#[trigger] values[k])@.wf(),
            forall|k: int| 0 <= k < i ==> json_of(#[trigger] out[k]) == values[k]@,
        decreases values.len() - i,
    {
        out.push(to_serde(&values[i]));
        i += 1;
    }
    assert(all_json_of(out@) =~= views(values@));
    out
}

/// The value that a JSON text holds, or the message of the parser's error.
pub fn parse_json(data: &[u8]) -> (r: Result<JsonValue, String>)
    ensures
        match r {
            Ok(value) => parsed_json(data@) == Ok::<JsonView, Seq<char>>(value@) && value@.wf(),
            Err(message) => parsed_json(data@) == Err::<JsonView, Seq<char>>(message@),
        },
{
    match parse_value(data) {
        Ok(v) => Ok(from_serde(&v)),
        Err(message) => Err(message),
    }
}

} // verus!
