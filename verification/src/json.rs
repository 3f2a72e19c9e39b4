//! JSON documents as the compositor prints them, taken as far as Slip reads them: a list of
//! objects or one object, whose fields are scalars or arrays of integers.

use vstd::prelude::*;
use serde_json::{from_slice, Value};
use serde_json::Value::{Array, Object};
use crate::json::JsonDoc::{List, Neither, Single};
use crate::json::JsonItem::{Bool, Ints, Number, Other, Text};
use crate::desktop::opt_text;

verus! {

broadcast use vstd::string::group_string_axioms;

/// A field's value: an array is kept as its elements read as integers (`None` where one is
/// not an `i64`), a number as an `i64` where it is one; `null` and a nested object are `Other`.
#[derive(Clone, Debug)]
pub enum JsonItem {
    Bool(bool),
    Number(Option<i64>),
    Text(String),
    Ints(Vec<Option<i64>>),
    Other,
}

/// A whole document: a list (each element an object, or `None` where it is none), one
/// object, or anything else.
#[derive(Clone, Debug)]
pub enum JsonDoc {
    List(Vec<Option<Vec<(String, JsonItem)>>>),
    Single(Vec<(String, JsonItem)>),
    Neither,
}

pub enum ItemView {
    Null,
    Bool(bool),
    Number(Option<i64>),
    Text(Seq<char>),
    Ints(Seq<Option<i64>>),
    Other,
}

pub enum DocView {
    List(Seq<Option<Seq<(Seq<char>, ItemView)>>>),
    Single(Seq<(Seq<char>, ItemView)>),
    Neither,
}

pub open spec fn item_view(i: JsonItem) -> ItemView {
    match i {
        JsonItem::Bool(b) => ItemView::Bool(b),
        JsonItem::Number(n) => ItemView::Number(n),
        JsonItem::Text(s) => ItemView::Text(s@),
        JsonItem::Ints(v) => ItemView::Ints(v@),
        JsonItem::Other => ItemView::Other,
    }
}

pub open spec fn object_view(o: Seq<(String, JsonItem)>) -> Seq<(Seq<char>, ItemView)> {
    o.map_values(|e: (String, JsonItem)| (e.0@, item_view(e.1)))
}

pub open spec fn doc_view(d: JsonDoc) -> DocView {
    match d {
        JsonDoc::List(v) => DocView::List(
            v@.map_values(
                |e: Option<Vec<(String, JsonItem)>>|
                    match e {
                        Some(o) => Some(object_view(o@)),
                        None => None,
                    },
            ),
        ),
        JsonDoc::Single(o) => DocView::Single(object_view(o@)),
        JsonDoc::Neither => DocView::Neither,
    }
}

/// The document `bytes` hold, as `serde_json::from_slice::<serde_json::Value>` reads them;
/// none when they are no valid JSON.
pub uninterp spec fn json_doc(bytes: Seq<u8>) -> Option<DocView>;

/// `serde_json::from_slice::<serde_json::Value>`, the document taken as far as Slip reads
/// it. Its result is named.
#[verifier::external_body]
pub(crate) fn parse_json(bytes: &Vec<u8>) -> (r: Option<JsonDoc>)
    ensures
        match r {
            Some(d) => json_doc(bytes@) == Some(doc_view(d)),
            None => json_doc(bytes@) is None,
        },
{
    let item = |v| match v { Value::Bool(b) => Bool(b), Value::Number(n) => Number(n.as_i64()), Value::String(s) => Text(s),
        Array(a) => Ints(a.iter().map(Value::as_i64).collect()), _ => Other };
    let object = |m: serde_json::Map<String, Value>| m.into_iter().map(|(k, v)| (k, item(v))).collect();
    Some(match from_slice(bytes).ok()? {
        Array(a) => List(a.into_iter().map(|v| match v { Object(m) => Some(object(m)), _ => None }).collect()),
        Object(m) => Single(object(m)),
        _ => Neither,
    })
}

/// The value of the field `key` of the object `o`: that of its first entry under `key`,
/// `Null` where there is none (as indexing a `serde_json::Value` gives it).
pub open spec fn field(o: Seq<(Seq<char>, ItemView)>, key: Seq<char>) -> ItemView
    decreases o.len(),
{
    if o.len() == 0 {
        ItemView::Null
    } else if o[0].0 == key {
        o[0].1
    } else {
        field(o.drop_first(), key)
    }
}

pub open spec fn text_of(i: ItemView) -> Option<Seq<char>> {
    match i {
        ItemView::Text(s) => Some(s),
        _ => None,
    }
}

pub open spec fn bool_of(i: ItemView) -> Option<bool> {
    match i {
        ItemView::Bool(b) => Some(b),
        _ => None,
    }
}

pub open spec fn int_of(i: ItemView) -> Option<i64> {
    match i {
        ItemView::Number(n) => n,
        _ => None,
    }
}

pub open spec fn ints_of(i: ItemView) -> Option<Seq<Option<i64>>> {
    match i {
        ItemView::Ints(v) => Some(v),
        _ => None,
    }
}

/// Where in `o` the field `key` is.
fn find_field(o: &Vec<(String, JsonItem)>, key: &str) -> (r: Option<usize>)
    ensures
        match r {
            Some(i) => i < o@.len() && field(object_view(o@), key@) == item_view(o@[i as int].1),
            None => field(object_view(o@), key@) == ItemView::Null,
        },
{
    let ghost ov = object_view(o@);
    let mut i: usize = 0;
    assert(ov.skip(0) =~= ov);
    while i < o.len()
        invariant
            i <= o.len(),
            ov == object_view(o@),
            field(ov, key@) == field(ov.skip(i as int), key@),
        decreases o.len() - i,
    {
        assert(ov.skip(i as int)[0] == (o@[i as int].0@, item_view(o@[i as int].1)));
        if crate::desktop::is_text(o[i].0.as_str(), key) {
            return Some(i);
        }
        assert(ov.skip(i as int).drop_first() =~= ov.skip(i + 1));
        i += 1;
    }
    assert(ov.skip(i as int).len() == 0);
    None
}

pub open spec fn opt_ints(o: Option<Vec<Option<i64>>>) -> Option<Seq<Option<i64>>> {
    match o {
        Some(v) => Some(v@),
        None => None,
    }
}

/// The field `key` of `o` where it is a string.
pub fn text_field(o: &Vec<(String, JsonItem)>, key: &str) -> (r: Option<String>)
    ensures
        opt_text(r) == text_of(field(object_view(o@), key@)),
{
    match find_field(o, key) {
        Some(i) => match &o[i].1 {
            JsonItem::Text(s) => Some(s.clone()),
            _ => None,
        },
        None => None,
    }
}

/// The field `key` of `o` where it is a boolean.
pub fn bool_field(o: &Vec<(String, JsonItem)>, key: &str) -> (r: Option<bool>)
    ensures
        r == bool_of(field(object_view(o@), key@)),
{
    match find_field(o, key) {
        Some(i) => match &o[i].1 {
            JsonItem::Bool(b) => Some(*b),
            _ => None,
        },
        None => None,
    }
}

/// The field `key` of `o` where it is an `i64`.
pub fn int_field(o: &Vec<(String, JsonItem)>, key: &str) -> (r: Option<i64>)
    ensures
        r == int_of(field(object_view(o@), key@)),
{
    match find_field(o, key) {
        Some(i) => match &o[i].1 {
            JsonItem::Number(n) => *n,
            _ => None,
        },
        None => None,
    }
}

/// The field `key` of `o` where it is an array, its elements read as integers.
pub fn ints_field(o: &Vec<(String, JsonItem)>, key: &str) -> (r: Option<Vec<Option<i64>>>)
    ensures
        opt_ints(r) == ints_of(field(object_view(o@), key@)),
{
    match find_field(o, key) {
        Some(i) => match &o[i].1 {
            JsonItem::Ints(v) => {
                let mut out: Vec<Option<i64>> = Vec::new();
                for j in 0..v.len()
                    invariant
                        out@ == v@.take(j as int),
                {
                    out.push(v[j]);
                    assert(v@.take(j + 1) =~= v@.take(j as int).push(v@[j as int]));
                }
                assert(v@.take(v@.len() as int) =~= v@);
                Some(out)
            },
            _ => None,
        },
        None => None,
    }
}

} // verus!
