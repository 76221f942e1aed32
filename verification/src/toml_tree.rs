//! A TOML document tree held as plain values, and the parser that builds it.
//!
//! The tree mirrors what the `taplo` parser produces: tables with ordered
//! entries, arrays, scalars, and for each node the byte span of its text.

use vstd::prelude::*;
use crate::toml_dom::{
    DomCursor, taplo_parse, node_shape, node_span, table_len, table_entry, array_len, array_item,
    dom_validates, taplo_dom_valid, taplo_syntax_errors, taplo_node_shape, taplo_node_span, taplo_table_keys, taplo_array_len,
};

verus! {

/// Byte offsets `[start, end)` of a node's text.
#[derive(Debug, Clone, Copy, PartialEq, Eq, Structural)]
pub struct TextSpan {
    pub start: usize,
    pub end: usize,
}

/// A TOML integer as the parser reports it.
#[derive(Debug, Clone, Copy, PartialEq, Eq, Structural)]
pub enum TomlInteger {
    Positive(u64),
    Negative(i64),
}

/// A key and the node it maps to.
#[derive(Debug)]
pub struct TomlEntry {
    pub key: String,
    pub value: TomlNode,
}

/// The kinds of TOML nodes. A float is held as its decimal text.
#[derive(Debug)]
pub enum TomlValue {
    Table(Vec<TomlEntry>),
    Array(Vec<TomlNode>),
    Bool(bool),
    Str(String),
    Integer(TomlInteger),
    Float(String),
    Date,
    Invalid,
}

/// A node with the span of its text, if the parser gave one.
#[derive(Debug)]
pub struct TomlNode {
    pub value: TomlValue,
    pub span: Option<TextSpan>,
}

/// A syntax error: its byte span and message.
#[derive(Debug)]
pub struct TomlSyntaxError {
    pub start: usize,
    pub end: usize,
    pub message: String,
}

/// What parsing a TOML text gives: the syntax errors and the tree.
#[derive(Debug)]
pub struct TomlParse {
    pub errors: Vec<TomlSyntaxError>,
    pub root: TomlNode,
}

/// What a `taplo` node is, with the payload of a scalar.
pub enum NodeShape {
    Table,
    Array,
    Bool(bool),
    Str(String),
    Positive(u64),
    Negative(i64),
    Float(String),
    Date,
    Invalid,
}

/// The tree below the DOM node at `path` of the DOM of `source`, read with
/// at most `fuel` levels: each node has the span of its DOM node; below the
/// last level a node is `Invalid`; a table has the DOM node's entries with
/// their keys, in order, an array its items, and a scalar its value.
pub open spec fn tree_is(n: TomlNode, source: Seq<char>, path: Seq<usize>, fuel: nat) -> bool
    decreases fuel,
{
    n.span == taplo_node_span(source, path) && if fuel == 0 {
        n.value is Invalid
    } else {
        match taplo_node_shape(source, path) {
            NodeShape::Table => match n.value {
                TomlValue::Table(es) => {
                    let keys = taplo_table_keys(source, path);
                    &&& es@.len() == keys.len()
                    &&& forall|i: int| 0 <= i < keys.len() ==> (#[trigger] es@[i]).key@ == keys[i]
                        && tree_is(es@[i].value, source, path.push(i as usize), (fuel - 1) as nat)
                },
                _ => false,
            },
            NodeShape::Array => match n.value {
                TomlValue::Array(items) => {
                    &&& items@.len() == taplo_array_len(source, path)
                    &&& forall|i: int| 0 <= i < items@.len() ==> tree_is(#[trigger] items@[i], source, path.push(i as usize), (fuel - 1) as nat)
                },
                _ => false,
            },
            NodeShape::Bool(b) => n.value == TomlValue::Bool(b),
            NodeShape::Str(t) => n.value == TomlValue::Str(t),
            NodeShape::Positive(v) => n.value == TomlValue::Integer(TomlInteger::Positive(v)),
            NodeShape::Negative(v) => n.value == TomlValue::Integer(TomlInteger::Negative(v)),
            NodeShape::Float(t) => n.value == TomlValue::Float(t),
            NodeShape::Date => n.value is Date,
            NodeShape::Invalid => n.value is Invalid,
        }
    }
}

/// The tree of the whole DOM of a text: read from the root with one level
/// more than the text has chars, which no DOM reaches.
pub open spec fn toml_tree_is(root: TomlNode, source: Seq<char>) -> bool {
    tree_is(root, source, Seq::empty(), source.len() + 1)
}

/// The tree below the node of a cursor, read with at most `fuel` levels.
fn tree_of(c: &DomCursor, fuel: usize) -> (t: TomlNode)
    ensures
        tree_is(t, c.text(), c.path(), fuel as nat),
    decreases fuel,
{
    let span = node_span(c);
    if fuel == 0 {
        return TomlNode { value: TomlValue::Invalid, span };
    }
    let value = match node_shape(c) {
        NodeShape::Table => {
            let n = table_len(c);
            let ghost keys = taplo_table_keys(c.text(), c.path());
            let mut out: Vec<TomlEntry> = Vec::new();
            let mut i: usize = 0;
            while i < n
                invariant
                    i <= n,
                    n == keys.len(),
                    keys == taplo_table_keys(c.text(), c.path()),
                    fuel > 0,
                    out@.len() == i,
                    forall|j: int| 0 <= j < i ==> (#[trigger] out@[j]).key@ == keys[j]
                        && tree_is(out@[j].value, c.text(), c.path().push(j as usize), (fuel - 1) as nat),
                decreases n - i,
            {
                let (key, child) = table_entry(c, i);
                let sub = tree_of(&child, fuel - 1);
                out.push(TomlEntry { key, value: sub });
                i = i + 1;
            }
            TomlValue::Table(out)
        },
        NodeShape::Array => {
            let n = array_len(c);
            let mut out: Vec<TomlNode> = Vec::new();
            let mut i: usize = 0;
            while i < n
                invariant
                    i <= n,
                    n == taplo_array_len(c.text(), c.path()),
                    fuel > 0,
                    out@.len() == i,
                    forall|j: int| 0 <= j < i ==> tree_is(#[trigger] out@[j], c.text(), c.path().push(j as usize), (fuel - 1) as nat),
                decreases n - i,
            {
                let item = array_item(c, i);
                out.push(tree_of(&item, fuel - 1));
                i = i + 1;
            }
            TomlValue::Array(out)
        },
        NodeShape::Bool(b) => TomlValue::Bool(b),
        NodeShape::Str(s) => TomlValue::Str(s),
        NodeShape::Positive(v) => TomlValue::Integer(TomlInteger::Positive(v)),
        NodeShape::Negative(v) => TomlValue::Integer(TomlInteger::Negative(v)),
        NodeShape::Float(f) => TomlValue::Float(f),
        NodeShape::Date => TomlValue::Date,
        NodeShape::Invalid => TomlValue::Invalid,
    };
    TomlNode { value, span }
}

/// Parses TOML text: the syntax errors that `taplo` reports, and the tree of
/// its DOM.
pub fn parse_toml(source: &str) -> (r: TomlParse)
    requires
        source@.len() * 4 < u32::MAX,
    ensures
        r.errors == taplo_syntax_errors(source@),
        toml_tree_is(r.root, source@),
{
    let (errors, root) = taplo_parse(source);
    let n = source.unicode_len();
    TomlParse { errors, root: tree_of(&root, n + 1) }
}

/// Whether a TOML text is free of semantic errors: no key is defined
/// twice, and no table header conflicts with a value.
pub fn toml_keys_valid(source: &str) -> (r: bool)
    requires
        source@.len() * 4 < u32::MAX,
    ensures
        r == taplo_dom_valid(source@),
{
    let (_, root) = taplo_parse(source);
    dom_validates(&root)
}

} // verus!
