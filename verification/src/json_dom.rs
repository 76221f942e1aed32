//! Cursors into the value that `serde_json` parses from a JSON text.
//!
//! A cursor holds a node of the parsed value together with the text and the
//! child positions that lead from the root to the node. Cursors are made
//! only in this module, so what is read from a cursor's node is a function
//! of the text and the path, named here.

use vstd::prelude::*;
use std::rc::Rc;
use serde_json::Value as SerdeJsonDom;
use serde_json::Error as SerdeJsonError;
use crate::json::JsonNumber;

verus! {

#[verifier::external_type_specification]
#[verifier::external_body]
pub struct ExSerdeJsonValue(SerdeJsonDom);

#[verifier::external_type_specification]
#[verifier::external_body]
pub struct ExSerdeJsonError(SerdeJsonError);

/// A node of the value that `serde_json` parsed from `text`, reached from
/// the root through `path` (the position of an item, or of a member in the
/// map's own order). Cursors are made only in this module: parsing gives the
/// one at the root, and a cursor steps to a child. So the node of a cursor
/// is the node at its path in the value of its text.
pub struct JsonCursor {
    value: SerdeJsonDom,
    text: Rc<String>,
    path: Vec<usize>,
}

impl JsonCursor {
    /// The text whose value the cursor points into.
    pub closed spec fn text(&self) -> Seq<char> {
        self.text@
    }

    /// The child positions from the root to the node.
    pub closed spec fn path(&self) -> Seq<usize> {
        self.path@
    }
}

/// What a JSON node is: a scalar with its payload, an array with its
/// length, an object with its keys in order.
pub enum JsonShape {
    Null,
    Bool(bool),
    Number(JsonNumber),
    String(String),
    Array(usize),
    Object(Vec<String>),
}

/// Whether `serde_json::from_str::<serde_json::Value>` accepts a text.
pub uninterp spec fn serde_json_accepts(text: Seq<char>) -> bool;

/// What the node at `path` of the value parsed from `text` is.
pub uninterp spec fn serde_json_shape(text: Seq<char>, path: Seq<usize>) -> JsonShape;

/// Parses JSON text with `serde_json::from_str::<serde_json::Value>`.
/// Claims that whether it succeeds is a function of the text; gives the
/// cursor at the root of the value. The error is opaque here.
#[verifier::external_body]
pub(crate) fn serde_parse(text: &str) -> (r: Result<JsonCursor, SerdeJsonError>)
    ensures
        r is Ok <==> serde_json_accepts(text@),
        r matches Ok(c) ==> c.text() == text@ && c.path() == Seq::<usize>::empty(),
{
    let value = serde_json::from_str(text)?;
    Ok(JsonCursor { value, text: Rc::new(text.to_string()), path: Vec::new() })
}

/// Tells the variants of `serde_json::Value` apart and reads a scalar (a
/// number through `Number::as_i64`, `as_u64` and `as_f64`, the last written
/// with `to_string`), an array's length (`Vec::len`) or an object's keys
/// (`Map::keys`). Claims that the result is a function of the cursor's text
/// and path, and that an object's keys are distinct, as a map's are.
#[verifier::external_body]
pub(crate) fn json_shape(c: &JsonCursor) -> (r: JsonShape)
    ensures
        r == serde_json_shape(c.text(), c.path()),
        r matches JsonShape::Object(keys) ==> forall|a: int, b: int| 0 <= a < b < keys@.len() ==> (#[trigger] keys@[a])@ != (#[trigger] keys@[b])@,
{
    match &c.value {
        SerdeJsonDom::Null => JsonShape::Null,
        SerdeJsonDom::Bool(b) => JsonShape::Bool(*b),
        SerdeJsonDom::Number(n) => JsonShape::Number(JsonNumber { as_i64: n.as_i64(), as_u64: n.as_u64(), float_text: n.as_f64().map(|f| f.to_string()).unwrap_or_default() }),
        SerdeJsonDom::String(s) => JsonShape::String(s.clone()),
        SerdeJsonDom::Array(a) => JsonShape::Array(a.len()),
        SerdeJsonDom::Object(o) => JsonShape::Object(o.keys().cloned().collect()),
    }
}

/// A cursor at the item at `i` of an array node, one step further down.
#[verifier::external_body]
pub(crate) fn json_item(c: &JsonCursor, i: usize) -> (r: JsonCursor)
    requires
        serde_json_shape(c.text(), c.path()) matches JsonShape::Array(n) && i < n,
    ensures
        r.text() == c.text(),
        r.path() == c.path().push(i),
{
    let value = c.value.as_array().unwrap()[i].clone();
    let mut path = c.path.clone();
    path.push(i);
    JsonCursor { value, text: c.text.clone(), path }
}

/// A cursor at the value of the member at `i` of an object node
/// (`Map::values`, in the order of `Map::keys`), one step further down.
#[verifier::external_body]
pub(crate) fn json_member(c: &JsonCursor, i: usize) -> (r: JsonCursor)
    requires
        serde_json_shape(c.text(), c.path()) matches JsonShape::Object(keys) && i < keys@.len(),
    ensures
        r.text() == c.text(),
        r.path() == c.path().push(i),
{
    let value = c.value.as_object().unwrap().values().nth(i).unwrap().clone();
    let mut path = c.path.clone();
    path.push(i);
    JsonCursor { value, text: c.text.clone(), path }
}

} // verus!
