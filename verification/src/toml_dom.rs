//! Cursors into the DOM that `taplo` builds for a TOML text.
//!
//! A cursor holds a DOM node together with the text that was parsed and the
//! child positions that lead from the root to the node. Cursors are made
//! only in this module: parsing a text gives the cursor at its root, and a
//! cursor steps to the child at a position. So the node of a cursor is the
//! node at its path in the DOM of its text, and what is read from it is a
//! function of the text and the path, named here.

use vstd::prelude::*;
use std::rc::Rc;
use taplo::dom::Node;
use taplo::dom::node::IntegerValue;
use crate::toml_tree::{TomlSyntaxError, NodeShape, TextSpan};

verus! {

#[verifier::external_type_specification]
#[verifier::external_body]
pub struct ExTaploNode(Node);

/// A node of the DOM of `source`, reached from the root through `path`.
pub struct DomCursor {
    node: Node,
    source: Rc<String>,
    path: Vec<usize>,
}

impl DomCursor {
    /// The text whose DOM the cursor points into.
    pub closed spec fn text(&self) -> Seq<char> {
        self.source@
    }

    /// The child positions from the root to the node.
    pub closed spec fn path(&self) -> Seq<usize> {
        self.path@
    }
}

/// The syntax errors that `taplo::parser::parse` reports for a text.
pub uninterp spec fn taplo_syntax_errors(source: Seq<char>) -> Vec<TomlSyntaxError>;

/// What the DOM node at `path` of the DOM of `source` is, with a scalar's value.
pub uninterp spec fn taplo_node_shape(source: Seq<char>, path: Seq<usize>) -> NodeShape;

/// The first text range of the DOM node at `path`, children included.
pub uninterp spec fn taplo_node_span(source: Seq<char>, path: Seq<usize>) -> Option<TextSpan>;

/// The keys of the entries of the DOM node at `path`, in order; empty where
/// the node is no table.
pub uninterp spec fn taplo_table_keys(source: Seq<char>, path: Seq<usize>) -> Seq<Seq<char>>;

/// The number of items of the DOM node at `path`; zero where the node is no
/// array.
pub uninterp spec fn taplo_array_len(source: Seq<char>, path: Seq<usize>) -> nat;

/// Whether the DOM of `source` is free of semantic errors such as a key
/// defined twice or a table header that conflicts with a value.
pub uninterp spec fn taplo_dom_valid(source: Seq<char>) -> bool;

/// Parses TOML text with `taplo::parser::parse` and builds its DOM with
/// `Parse::into_dom`. Claims that the errors are a function of the text, and
/// gives the cursor at the root. Both calls panic on a text whose byte
/// offsets do not fit in `u32`: `requires` leaves out every text of more
/// than a quarter of that many chars (a char takes at most four bytes).
#[verifier::external_body]
pub(crate) fn taplo_parse(source: &str) -> (r: (Vec<TomlSyntaxError>, DomCursor))
    requires
        source@.len() * 4 < u32::MAX,
    ensures
        r.0 == taplo_syntax_errors(source@),
        r.1.text() == source@,
        r.1.path() == Seq::<usize>::empty(),
{
    let parsed = taplo::parser::parse(source);
    let errors = parsed.errors.iter().map(|e| TomlSyntaxError { start: e.range.start().into(), end: e.range.end().into(), message: e.message.clone() }).collect();
    (errors, DomCursor { node: parsed.into_dom(), source: Rc::new(source.to_string()), path: Vec::new() })
}

/// Tells the variants of `taplo::dom::Node` apart and reads a scalar's value
/// (`Bool::value`, `Str::value`, `Integer::value`, `Float::value`, the float
/// written with `to_string`). Claims that the result is a function of the
/// cursor's text and path.
#[verifier::external_body]
pub(crate) fn node_shape(c: &DomCursor) -> (r: NodeShape)
    ensures
        r == taplo_node_shape(c.text(), c.path()),
{
    match &c.node {
        Node::Table(_) => NodeShape::Table,
        Node::Array(_) => NodeShape::Array,
        Node::Bool(b) => NodeShape::Bool(b.value()),
        Node::Str(s) => NodeShape::Str(s.value().to_string()),
        Node::Integer(i) => match i.value() {
            IntegerValue::Positive(v) => NodeShape::Positive(v),
            IntegerValue::Negative(v) => NodeShape::Negative(v),
        },
        Node::Float(f) => NodeShape::Float(f.value().to_string()),
        Node::Date(_) => NodeShape::Date,
        Node::Invalid(_) => NodeShape::Invalid,
    }
}

/// The first of `Node::text_ranges(true)`, as byte offsets. Claims that it
/// is a function of the cursor's text and path.
#[verifier::external_body]
pub(crate) fn node_span(c: &DomCursor) -> (r: Option<TextSpan>)
    ensures
        r == taplo_node_span(c.text(), c.path()),
{
    c.node.text_ranges(true).next().map(|r| TextSpan { start: r.start().into(), end: r.end().into() })
}

/// The number of entries of a table node (`Entries::len`), zero for any
/// other node. Claims that it is the number of the node's keys.
#[verifier::external_body]
pub(crate) fn table_len(c: &DomCursor) -> (r: usize)
    ensures
        r == taplo_table_keys(c.text(), c.path()).len(),
{
    c.node.as_table().map(|t| t.entries().get().len()).unwrap_or(0)
}

/// The entry at `i` of a table node (`Entries::iter`): its key, by
/// `Key::value`, and a cursor at its node, one step further down.
#[verifier::external_body]
pub(crate) fn table_entry(c: &DomCursor, i: usize) -> (r: (String, DomCursor))
    requires
        i < taplo_table_keys(c.text(), c.path()).len(),
    ensures
        r.0@ == taplo_table_keys(c.text(), c.path())[i as int],
        r.1.text() == c.text(),
        r.1.path() == c.path().push(i),
{
    let (k, v) = c.node.as_table().unwrap().entries().get().iter().nth(i).cloned().unwrap();
    let mut path = c.path.clone();
    path.push(i);
    (k.value().to_string(), DomCursor { node: v, source: c.source.clone(), path })
}

/// The number of items of an array node (`Array::items`), zero for any
/// other node.
#[verifier::external_body]
pub(crate) fn array_len(c: &DomCursor) -> (r: usize)
    ensures
        r == taplo_array_len(c.text(), c.path()),
{
    c.node.as_array().map(|a| a.items().get().len()).unwrap_or(0)
}

/// A cursor at the item at `i` of an array node (`Array::items`), one step
/// further down.
#[verifier::external_body]
pub(crate) fn array_item(c: &DomCursor, i: usize) -> (r: DomCursor)
    requires
        i < taplo_array_len(c.text(), c.path()),
    ensures
        r.text() == c.text(),
        r.path() == c.path().push(i),
{
    let v = c.node.as_array().unwrap().items().get()[i].clone();
    let mut path = c.path.clone();
    path.push(i);
    DomCursor { node: v, source: c.source.clone(), path }
}

/// Whether the DOM at a cursor at the root validates (`Node::validate`,
/// which reports the conflicting keys found while the DOM was built).
/// Claims that the answer is a function of the text.
#[verifier::external_body]
pub(crate) fn dom_validates(c: &DomCursor) -> (r: bool)
    requires
        c.path() == Seq::<usize>::empty(),
    ensures
        r == taplo_dom_valid(c.text()),
{
    c.node.validate().is_ok()
}

} // verus!
