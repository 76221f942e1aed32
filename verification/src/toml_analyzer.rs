//! Analysis of summer-rs TOML configuration files: parsing with
//! environment variable references, the configuration sections and their
//! properties, validation against the schema, and hover information.

use vstd::prelude::*;
use crate::lsp::{Position, Range};
use crate::env_vars::{EnvVarReference, spec_preprocess};
use crate::toml_tree::{TomlNode, TomlValue, TomlEntry, TomlInteger, TextSpan, TomlSyntaxError, toml_tree_is};
use crate::toml_dom::taplo_syntax_errors;
use crate::text::{str_eq, utf8_width, nat_digits, is_prefix, contains_seq, views};
use crate::schema::{SchemaProvider, PluginSchema, PropertySchema, TypeInfo, TypeInfoV, Value, ValueV, spec_plugin_properties};
use crate::schema::PropertyV as SchemaPropertyV;
use crate::lsp::{Diagnostic, DiagnosticV, DiagnosticSeverity, server_diagnostic, diagnostics_view, spec_position_in_range, position_in_range};
use crate::decimal::decimal_less;

verus! {

/// A configuration value. A float is held as its decimal text.
#[derive(Debug)]
pub enum ConfigValue {
    String(String),
    Integer(i64),
    Float(String),
    Boolean(bool),
    Array(Vec<ConfigValue>),
    Table(Vec<ConfigEntry>),
}

/// A key of a table value and its value.
#[derive(Debug)]
pub struct ConfigEntry {
    pub key: String,
    pub value: ConfigValue,
}

/// A property of a configuration section, such as `host = "localhost"`.
#[derive(Debug)]
pub struct ConfigProperty {
    pub key: String,
    pub value: ConfigValue,
    pub range: Range,
}

/// A configuration section, such as `[web]`, with its properties by name;
/// no name occurs twice. A property's name is its key, except for a nested
/// section such as `["web.middlewares"]`, named by the part after the dot.
#[derive(Debug)]
pub struct ConfigSection {
    pub prefix: String,
    pub properties: Vec<(String, ConfigProperty)>,
    pub range: Range,
}

/// A parsed configuration file.
#[derive(Debug)]
pub struct TomlDocument {
    pub root: TomlNode,
    pub env_vars: Vec<EnvVarReference>,
    pub config_sections: Vec<ConfigSection>,
    pub content: String,
}

/// The first section with prefix `prefix`.
pub open spec fn section_lookup(secs: Seq<ConfigSection>, prefix: Seq<char>) -> Option<ConfigSection>
    decreases secs.len(),
{
    if secs.len() == 0 {
        None
    } else if secs[0].prefix@ == prefix {
        Some(secs[0])
    } else {
        section_lookup(secs.drop_first(), prefix)
    }
}

impl TomlDocument {
    /// Whether the document has a section with prefix `prefix`.
    pub fn has_section(&self, prefix: &str) -> (r: bool)
        ensures
            r == section_lookup(self.config_sections@, prefix@) is Some,
    {
        let mut i: usize = 0;
        proof {
            assert(self.config_sections@.subrange(0, self.config_sections@.len() as int) =~= self.config_sections@);
        }
        while i < self.config_sections.len()
            invariant
                i <= self.config_sections@.len(),
                section_lookup(self.config_sections@, prefix@) == section_lookup(
                    self.config_sections@.subrange(i as int, self.config_sections@.len() as int),
                    prefix@,
                ),
            decreases self.config_sections@.len() - i,
        {
            proof {
                let sub = self.config_sections@.subrange(i as int, self.config_sections@.len() as int);
                assert(sub.drop_first() =~= self.config_sections@.subrange(i + 1, self.config_sections@.len() as int));
                assert(sub[0] == self.config_sections@[i as int]);
            }
            if str_eq(self.config_sections[i].prefix.as_str(), prefix) {
                return true;
            }
            i = i + 1;
        }
        false
    }
}


// ----- the content of configuration values -----

pub enum ConfigValueV {
    Str(Seq<char>),
    Integer(i64),
    Float(Seq<char>),
    Boolean(bool),
    Array(Seq<ConfigValueV>),
    Table(Seq<(Seq<char>, ConfigValueV)>),
}

pub open spec fn cv_view(v: ConfigValue) -> ConfigValueV
    decreases v,
{
    match v {
        ConfigValue::String(s) => ConfigValueV::Str(s@),
        ConfigValue::Integer(i) => ConfigValueV::Integer(i),
        ConfigValue::Float(f) => ConfigValueV::Float(f@),
        ConfigValue::Boolean(b) => ConfigValueV::Boolean(b),
        ConfigValue::Array(items) => ConfigValueV::Array(
            Seq::new(items@.len(), |i: int| if 0 <= i < items@.len() { cv_view(items@[i]) } else { ConfigValueV::Boolean(false) }),
        ),
        ConfigValue::Table(es) => ConfigValueV::Table(
            Seq::new(
                es@.len(),
                |i: int| if 0 <= i < es@.len() { (es@[i].key@, cv_view(es@[i].value)) } else { (Seq::empty(), ConfigValueV::Boolean(false)) },
            ),
        ),
    }
}

/// A property's content: key, value and range.
pub struct PropertyV {
    pub key: Seq<char>,
    pub value: ConfigValueV,
    pub range: Range,
}

pub open spec fn prop_view(p: ConfigProperty) -> PropertyV {
    PropertyV { key: p.key@, value: cv_view(p.value), range: p.range }
}

pub open spec fn props_view(ps: Seq<(String, ConfigProperty)>) -> Seq<(Seq<char>, PropertyV)> {
    Seq::new(ps.len(), |i: int| (ps[i].0@, prop_view(ps[i].1)))
}

/// A section's content: prefix, properties by name, and range.
pub struct SectionV {
    pub prefix: Seq<char>,
    pub properties: Seq<(Seq<char>, PropertyV)>,
    pub range: Range,
}

pub open spec fn section_view(s: ConfigSection) -> SectionV {
    SectionV { prefix: s.prefix@, properties: props_view(s.properties@), range: s.range }
}

pub open spec fn sections_view(ss: Seq<ConfigSection>) -> Seq<SectionV> {
    Seq::new(ss.len(), |i: int| section_view(ss[i]))
}

/// Adds a table entry, replacing one with the same key in its place.
pub open spec fn entry_upsert(es: Seq<(Seq<char>, ConfigValueV)>, k: Seq<char>, v: ConfigValueV) -> Seq<(Seq<char>, ConfigValueV)> {
    if exists|i: int| 0 <= i < es.len() && es[i].0 == k {
        let i = choose|i: int| 0 <= i < es.len() && es[i].0 == k && forall|j: int| 0 <= j < i ==> es[j].0 != k;
        es.update(i, (k, v))
    } else {
        es.push((k, v))
    }
}

/// Adds a named property, replacing one with the same name in its place.
pub open spec fn prop_upsert(ps: Seq<(Seq<char>, PropertyV)>, p: (Seq<char>, PropertyV)) -> Seq<(Seq<char>, PropertyV)> {
    if exists|i: int| 0 <= i < ps.len() && ps[i].0 == p.0 {
        let i = choose|i: int| 0 <= i < ps.len() && ps[i].0 == p.0 && forall|j: int| 0 <= j < i ==> ps[j].0 != p.0;
        ps.update(i, p)
    } else {
        ps.push(p)
    }
}

// ----- positions -----

/// The position of byte offset `offset` in `content`: the line and
/// character reached by walking the characters while the bytes walked are
/// fewer than `offset`.
pub open spec fn offset_position(content: Seq<char>, offset: nat) -> (nat, nat)
    decreases content.len(),
{
    walk_position(content, offset, 0, 0, 0, 0)
}

pub open spec fn walk_position(content: Seq<char>, offset: nat, i: int, bytes: nat, line: nat, character: nat) -> (nat, nat)
    decreases content.len() - i,
{
    if i < 0 || i >= content.len() || bytes >= offset {
        (line, character)
    } else if content[i] == '\n' {
        walk_position(content, offset, i + 1, bytes + utf8_width(content[i]), line + 1, 0)
    } else {
        walk_position(content, offset, i + 1, bytes + utf8_width(content[i]), line, character + 1)
    }
}

pub open spec fn position_of(content: Seq<char>, offset: nat) -> Position {
    let (l, c) = offset_position(content, offset);
    Position { line: l as u32, character: c as u32 }
}

/// The range of a node's span in `content`; the empty range at the start
/// when it has none.
pub open spec fn span_range(span: Option<TextSpan>, content: Seq<char>) -> Range {
    match span {
        Some(sp) => Range { start: position_of(content, sp.start as nat), end: position_of(content, sp.end as nat) },
        None => Range { start: Position { line: 0, character: 0 }, end: Position { line: 0, character: 0 } },
    }
}

// ----- values of the tree -----

/// The configuration value of a tree node: scalars as they are (a positive
/// integer cast to `i64`), arrays item by item, tables entry by entry (a
/// later key replacing an earlier one), and anything else an empty string.
pub open spec fn node_value(n: TomlNode) -> ConfigValueV
    decreases n, 1int,
{
    match n.value {
        TomlValue::Bool(b) => ConfigValueV::Boolean(b),
        TomlValue::Str(s) => ConfigValueV::Str(s@),
        TomlValue::Integer(TomlInteger::Positive(v)) => ConfigValueV::Integer(v as i64),
        TomlValue::Integer(TomlInteger::Negative(v)) => ConfigValueV::Integer(v),
        TomlValue::Float(t) => ConfigValueV::Float(t@),
        TomlValue::Array(items) => ConfigValueV::Array(
            Seq::new(items@.len(), |i: int| if 0 <= i < items@.len() { node_value(items@[i]) } else { ConfigValueV::Boolean(false) }),
        ),
        TomlValue::Table(es) => ConfigValueV::Table(entries_value(es@)),
        _ => ConfigValueV::Str(Seq::empty()),
    }
}

pub open spec fn entries_value(es: Seq<TomlEntry>) -> Seq<(Seq<char>, ConfigValueV)>
    decreases es, 0int,
{
    if es.len() == 0 {
        seq![]
    } else {
        proof {
            assert(decreases_to!(es => es[es.len() - 1]));
        }
        entry_upsert(entries_value(es.drop_last()), es.last().key@, node_value(es.last().value))
    }
}

/// The properties of a table node, each with its value and range; a later
/// key replaces an earlier one. A node that is not a table has none.
pub open spec fn node_properties(n: TomlNode, content: Seq<char>) -> Seq<(Seq<char>, PropertyV)> {
    match n.value {
        TomlValue::Table(es) => entries_properties(es@, content),
        _ => seq![],
    }
}

pub open spec fn entries_properties(es: Seq<TomlEntry>, content: Seq<char>) -> Seq<(Seq<char>, PropertyV)>
    decreases es.len(),
{
    if es.len() == 0 {
        seq![]
    } else {
        prop_upsert(
            entries_properties(es.drop_last(), content),
            (es.last().key@, PropertyV { key: es.last().key@, value: node_value(es.last().value), range: span_range(es.last().value.span, content) }),
        )
    }
}


// ----- building values -----

fn upsert_entry(es: &mut Vec<ConfigEntry>, key: String, value: ConfigValue)
    ensures
        cv_entries(final(es)@) == entry_upsert(cv_entries(old(es)@), key@, cv_view(value)),
{
    let ghost ev = cv_entries(es@);
    let ghost kv = key@;
    let ghost vv = cv_view(value);
    let mut i: usize = 0;
    while i < es.len()
        invariant
            ev == cv_entries(es@),
            kv == key@,
            vv == cv_view(value),
            i <= es@.len(),
            forall|t: int| 0 <= t < i ==> ev[t].0 != kv,
            es@ == old(es)@,
        decreases es@.len() - i,
    {
        assert(ev[i as int] == (es@[i as int].key@, cv_view(es@[i as int].value)));
        if str_eq(es[i].key.as_str(), key.as_str()) {
            proof {
                assert(ev[i as int].0 == kv);
                let c = choose|c: int| 0 <= c < ev.len() && ev[c].0 == kv && forall|j: int| 0 <= j < c ==> ev[j].0 != kv;
                assert(0 <= c < ev.len() && ev[c].0 == kv && forall|j: int| 0 <= j < c ==> ev[j].0 != kv);
                if c < i {
                    assert(ev[c].0 != kv);
                }
                if c > i {
                    assert(ev[i as int].0 != kv);
                }
                assert(c == i);
            }
            es.set(i, ConfigEntry { key, value });
            proof {
                assert(cv_entries(es@) =~= ev.update(i as int, (kv, vv)));
            }
            return;
        }
        i = i + 1;
    }
    es.push(ConfigEntry { key, value });
    proof {
        assert(!(exists|t: int| 0 <= t < ev.len() && ev[t].0 == kv));
        assert(cv_entries(es@) =~= ev.push((kv, vv)));
    }
}

pub open spec fn cv_entries(es: Seq<ConfigEntry>) -> Seq<(Seq<char>, ConfigValueV)> {
    Seq::new(es.len(), |i: int| (es[i].key@, cv_view(es[i].value)))
}

/// The configuration value of a tree node.
pub fn node_to_config_value(node: &TomlNode) -> (r: ConfigValue)
    ensures
        cv_view(r) == node_value(*node),
    decreases *node,
{
    match &node.value {
        TomlValue::Bool(b) => ConfigValue::Boolean(*b),
        TomlValue::Str(s) => ConfigValue::String(s.clone()),
        TomlValue::Integer(TomlInteger::Positive(v)) => {
            #[verifier::truncate]
            let i = *v as i64;
            ConfigValue::Integer(i)
        },
        TomlValue::Integer(TomlInteger::Negative(v)) => ConfigValue::Integer(*v),
        TomlValue::Float(t) => ConfigValue::Float(t.clone()),
        TomlValue::Array(items) => {
            let mut out: Vec<ConfigValue> = Vec::new();
            let mut i: usize = 0;
            while i < items.len()
                invariant
                    node.value == TomlValue::Array(*items),
                    i <= items@.len(),
                    out@.len() == i,
                    forall|k: int| 0 <= k < i ==> #[trigger] cv_view(out@[k]) == node_value(items@[k]),
                decreases items@.len() - i,
            {
                proof {
                    assert(node.value->Array_0 == *items);
                    assert(decreases_to!(*node => node.value));
                    assert(decreases_to!(node.value => node.value->Array_0));
                    assert(decreases_to!(*items => items@));
                    assert(decreases_to!(items@ => items@[i as int]));
                }
                out.push(node_to_config_value(&items[i]));
                i = i + 1;
            }
            let r = ConfigValue::Array(out);
            proof {
                assert forall|k: int| 0 <= k < items@.len() implies cv_view(r)->Array_0[k] == node_value(*node)->Array_0[k] by {
                    assert(cv_view(out@[k]) == node_value(items@[k]));
                }
                assert(cv_view(r)->Array_0 =~= node_value(*node)->Array_0);
            }
            r
        },
        TomlValue::Table(es) => {
            let mut out: Vec<ConfigEntry> = Vec::new();
            let mut i: usize = 0;
            while i < es.len()
                invariant
                    node.value == TomlValue::Table(*es),
                    i <= es@.len(),
                    cv_entries(out@) == entries_value(es@.subrange(0, i as int)),
                decreases es@.len() - i,
            {
                proof {
                    assert(node.value->Table_0 == *es);
                    assert(decreases_to!(*node => node.value));
                    assert(decreases_to!(node.value => node.value->Table_0));
                    assert(decreases_to!(*es => es@));
                    assert(decreases_to!(es@ => es@[i as int]));
                    assert(decreases_to!(es@[i as int] => es@[i as int].value));
                    assert(es@.subrange(0, i + 1).drop_last() =~= es@.subrange(0, i as int));
                    assert(es@.subrange(0, i + 1).last() == es@[i as int]);
                }
                let v = node_to_config_value(&es[i].value);
                upsert_entry(&mut out, es[i].key.clone(), v);
                i = i + 1;
            }
            proof {
                assert(es@.subrange(0, es@.len() as int) =~= es@);
            }
            let r = ConfigValue::Table(out);
            proof {
                assert(cv_view(r)->Table_0 =~= cv_entries(out@));
            }
            r
        },
        _ => ConfigValue::String(String::new()),
    }
}

/// The line and character of byte offset `byte_offset` in `content`.
pub fn byte_offset_to_position(content: &str, byte_offset: usize) -> (r: Position)
    ensures
        r == position_of(content@, byte_offset as nat),
{
    let c = crate::text::chars_of(content);
    let n = c.len();
    let mut line: usize = 0;
    let mut character: usize = 0;
    let mut bytes: u128 = 0;
    let mut i: usize = 0;
    while i < n && bytes < byte_offset as u128
        invariant
            n == c@.len(),
            c@ == content@,
            i <= n,
            line <= i,
            character <= i,
            bytes <= byte_offset as u128 + 4,
            offset_position(content@, byte_offset as nat) == walk_position(content@, byte_offset as nat, i as int, bytes as nat, line as nat, character as nat),
        decreases n - i,
    {
        let w = crate::text::char_utf8_width(c[i]);
        if c[i] == '\n' {
            line = line + 1;
            character = 0;
        } else {
            character = character + 1;
        }
        bytes = bytes + w as u128;
        i = i + 1;
    }
    #[verifier::truncate]
    let l = line as u32;
    #[verifier::truncate]
    let ch = character as u32;
    Position { line: l, character: ch }
}

/// The range of a node's span in `content`.
pub fn node_to_range(node: &TomlNode, content: &str) -> (r: Range)
    ensures
        r == span_range(node.span, content@),
{
    match node.span {
        Some(sp) => Range { start: byte_offset_to_position(content, sp.start), end: byte_offset_to_position(content, sp.end) },
        None => Range { start: Position { line: 0, character: 0 }, end: Position { line: 0, character: 0 } },
    }
}

fn upsert_property(ps: &mut Vec<(String, ConfigProperty)>, name: String, p: ConfigProperty)
    ensures
        props_view(final(ps)@) == prop_upsert(props_view(old(ps)@), (name@, prop_view(p))),
{
    let ghost pv = props_view(ps@);
    let ghost newp = (name@, prop_view(p));
    let mut i: usize = 0;
    while i < ps.len()
        invariant
            pv == props_view(ps@),
            newp == (name@, prop_view(p)),
            i <= ps@.len(),
            forall|t: int| 0 <= t < i ==> pv[t].0 != newp.0,
            ps@ == old(ps)@,
        decreases ps@.len() - i,
    {
        assert(pv[i as int] == (ps@[i as int].0@, prop_view(ps@[i as int].1)));
        if str_eq(ps[i].0.as_str(), name.as_str()) {
            proof {
                assert(pv[i as int].0 == newp.0);
                let c = choose|c: int| 0 <= c < pv.len() && pv[c].0 == newp.0 && forall|j: int| 0 <= j < c ==> pv[j].0 != newp.0;
                assert(0 <= c < pv.len() && pv[c].0 == newp.0 && forall|j: int| 0 <= j < c ==> pv[j].0 != newp.0);
                if c < i {
                    assert(pv[c].0 != newp.0);
                }
                if c > i {
                    assert(pv[i as int].0 != newp.0);
                }
                assert(c == i);
            }
            ps.set(i, (name, p));
            proof {
                assert(props_view(ps@) =~= pv.update(i as int, newp));
            }
            return;
        }
        i = i + 1;
    }
    ps.push((name, p));
    proof {
        assert(!(exists|t: int| 0 <= t < pv.len() && pv[t].0 == newp.0));
        assert(props_view(ps@) =~= pv.push(newp));
    }
}

/// The properties of a table node, with their values and ranges.
pub fn extract_properties(node: &TomlNode, content: &str) -> (r: Vec<(String, ConfigProperty)>)
    ensures
        props_view(r@) == node_properties(*node, content@),
{
    let mut out: Vec<(String, ConfigProperty)> = Vec::new();
    match &node.value {
        TomlValue::Table(es) => {
            let mut i: usize = 0;
            while i < es.len()
                invariant
                    i <= es@.len(),
                    props_view(out@) == entries_properties(es@.subrange(0, i as int), content@),
                decreases es@.len() - i,
            {
                proof {
                    assert(es@.subrange(0, i + 1).drop_last() =~= es@.subrange(0, i as int));
                    assert(es@.subrange(0, i + 1).last() == es@[i as int]);
                }
                let value = node_to_config_value(&es[i].value);
                let range = node_to_range(&es[i].value, content);
                upsert_property(&mut out, es[i].key.clone(), ConfigProperty { key: es[i].key.clone(), value, range });
                i = i + 1;
            }
            proof {
                assert(es@.subrange(0, es@.len() as int) =~= es@);
            }
        },
        _ => {
            assert(props_view(out@) =~= seq![]);
        },
    }
    out
}


// ----- sections -----

/// The part of a key before its first dot.
pub open spec fn top_prefix(key: Seq<char>) -> Seq<char> {
    key.subrange(0, crate::env_vars::index_of_from(key, '.', 0))
}

pub open spec fn has_dot(key: Seq<char>) -> bool {
    crate::env_vars::index_of_from(key, '.', 0) < key.len()
}

/// A table value made of named properties' values.
pub open spec fn props_table(ps: Seq<(Seq<char>, PropertyV)>) -> ConfigValueV {
    ConfigValueV::Table(Seq::new(ps.len(), |i: int| (ps[i].0, ps[i].1.value)))
}

/// Adds each of `more`, in order, replacing properties of the same name.
pub open spec fn props_extend(ps: Seq<(Seq<char>, PropertyV)>, more: Seq<(Seq<char>, PropertyV)>) -> Seq<(Seq<char>, PropertyV)>
    decreases more.len(),
{
    if more.len() == 0 {
        ps
    } else {
        prop_upsert(props_extend(ps, more.drop_last()), more.last())
    }
}

/// The position of the first section with prefix `prefix`.
pub open spec fn section_index(ss: Seq<SectionV>, prefix: Seq<char>) -> Option<int> {
    if exists|i: int| 0 <= i < ss.len() && ss[i].prefix == prefix {
        Some(choose|i: int| 0 <= i < ss.len() && ss[i].prefix == prefix && forall|j: int| 0 <= j < i ==> ss[j].prefix != prefix)
    } else {
        None
    }
}

/// Adds the table under root key `key`, with its properties and range, to
/// the sections: its section is named by the part of the key before the
/// first dot. A dotted key becomes one nested property, named by the part
/// after the dot, whose value is the table; a plain key gives its
/// properties. A section met again gains the new properties.
pub open spec fn add_section(ss: Seq<SectionV>, key: Seq<char>, props: Seq<(Seq<char>, PropertyV)>, range: Range) -> Seq<SectionV> {
    let prefix = top_prefix(key);
    let nested = (key.subrange(prefix.len() as int + 1, key.len() as int), PropertyV { key, value: props_table(props), range });
    match section_index(ss, prefix) {
        Some(i) => ss.update(
            i,
            SectionV {
                prefix: ss[i].prefix,
                properties: if has_dot(key) {
                    prop_upsert(ss[i].properties, nested)
                } else {
                    props_extend(ss[i].properties, props)
                },
                range: ss[i].range,
            },
        ),
        None => ss.push(SectionV { prefix, properties: if has_dot(key) { seq![nested] } else { props }, range }),
    }
}

/// The sections of root entries: each entry whose value is a table.
pub open spec fn entries_sections(es: Seq<TomlEntry>, content: Seq<char>) -> Seq<SectionV>
    decreases es.len(),
{
    if es.len() == 0 {
        seq![]
    } else {
        let before = entries_sections(es.drop_last(), content);
        let e = es.last();
        if e.value.value is Table {
            add_section(before, e.key@, node_properties(e.value, content), span_range(e.value.span, content))
        } else {
            before
        }
    }
}

/// The configuration sections of a tree; none when the root is not a table.
pub open spec fn tree_sections(root: TomlNode, content: Seq<char>) -> Seq<SectionV> {
    match root.value {
        TomlValue::Table(es) => entries_sections(es@, content),
        _ => seq![],
    }
}

fn props_to_value_table(props: &Vec<(String, ConfigProperty)>) -> (r: ConfigValue)
    ensures
        cv_view(r) == props_table(props_view(props@)),
{
    let mut out: Vec<ConfigEntry> = Vec::new();
    let mut i: usize = 0;
    while i < props.len()
        invariant
            i <= props@.len(),
            out@.len() == i,
            forall|k: int| 0 <= k < i ==> #[trigger] out@[k].key@ == props@[k].0@ && cv_view(out@[k].value) == cv_view(props@[k].1.value),
        decreases props@.len() - i,
    {
        let v = props[i].1.value.clone_value();
        let ghost before = out@;
        out.push(ConfigEntry { key: props[i].0.clone(), value: v });
        proof {
            assert forall|k: int| 0 <= k < i + 1 implies #[trigger] out@[k].key@ == props@[k].0@ && cv_view(out@[k].value) == cv_view(props@[k].1.value) by {
                if k < i {
                    assert(out@[k] == before[k]);
                }
            }
        }
        i = i + 1;
    }
    let r = ConfigValue::Table(out);
    proof {
        assert(cv_view(r)->Table_0 =~= props_table(props_view(props@))->Table_0);
    }
    r
}

impl ConfigValue {
    /// A copy of this value.
    pub fn clone_value(&self) -> (r: ConfigValue)
        ensures
            cv_view(r) == cv_view(*self),
        decreases *self,
    {
        match self {
            ConfigValue::String(s) => ConfigValue::String(s.clone()),
            ConfigValue::Integer(i) => ConfigValue::Integer(*i),
            ConfigValue::Float(f) => ConfigValue::Float(f.clone()),
            ConfigValue::Boolean(b) => ConfigValue::Boolean(*b),
            ConfigValue::Array(items) => {
                let mut out: Vec<ConfigValue> = Vec::new();
                let mut i: usize = 0;
                while i < items.len()
                    invariant
                        *self == ConfigValue::Array(*items),
                        i <= items@.len(),
                        out@.len() == i,
                        forall|k: int| 0 <= k < i ==> #[trigger] cv_view(out@[k]) == cv_view(items@[k]),
                    decreases items@.len() - i,
                {
                    proof {
                        assert(self->Array_0 == *items);
                        assert(decreases_to!(*self => self->Array_0));
                        assert(decreases_to!(*items => items@));
                        assert(decreases_to!(items@ => items@[i as int]));
                    }
                    out.push(items[i].clone_value());
                    i = i + 1;
                }
                let r = ConfigValue::Array(out);
                proof {
                    assert forall|k: int| 0 <= k < items@.len() implies cv_view(r)->Array_0[k] == cv_view(*self)->Array_0[k] by {
                        assert(cv_view(out@[k]) == cv_view(items@[k]));
                    }
                    assert(cv_view(r)->Array_0 =~= cv_view(*self)->Array_0);
                }
                r
            },
            ConfigValue::Table(es) => {
                let mut out: Vec<ConfigEntry> = Vec::new();
                let mut i: usize = 0;
                while i < es.len()
                    invariant
                        *self == ConfigValue::Table(*es),
                        i <= es@.len(),
                        out@.len() == i,
                        forall|k: int| 0 <= k < i ==> #[trigger] out@[k].key@ == es@[k].key@ && cv_view(out@[k].value) == cv_view(es@[k].value),
                    decreases es@.len() - i,
                {
                    proof {
                        assert(self->Table_0 == *es);
                        assert(decreases_to!(*self => self->Table_0));
                        assert(decreases_to!(*es => es@));
                        assert(decreases_to!(es@ => es@[i as int]));
                        assert(decreases_to!(es@[i as int] => es@[i as int].value));
                    }
                    let v = es[i].value.clone_value();
                    let ghost before = out@;
                    out.push(ConfigEntry { key: es[i].key.clone(), value: v });
                    proof {
                        assert forall|k: int| 0 <= k < i + 1 implies #[trigger] out@[k].key@ == es@[k].key@ && cv_view(out@[k].value) == cv_view(es@[k].value) by {
                            if k < i {
                                assert(out@[k] == before[k]);
                            }
                        }
                    }
                    i = i + 1;
                }
                let r = ConfigValue::Table(out);
                proof {
                    assert(cv_view(r)->Table_0 =~= cv_view(*self)->Table_0);
                }
                r
            },
        }
    }
}

fn find_section(ss: &Vec<ConfigSection>, prefix: &str) -> (r: Option<usize>)
    ensures
        match r {
            Some(i) => section_index(sections_view(ss@), prefix@) == Some(i as int) && i < ss@.len(),
            None => section_index(sections_view(ss@), prefix@) is None,
        },
{
    let ghost sv = sections_view(ss@);
    let mut i: usize = 0;
    while i < ss.len()
        invariant
            sv == sections_view(ss@),
            i <= ss@.len(),
            forall|t: int| 0 <= t < i ==> sv[t].prefix != prefix@,
        decreases ss@.len() - i,
    {
        assert(sv[i as int].prefix == ss@[i as int].prefix@);
        if str_eq(ss[i].prefix.as_str(), prefix) {
            proof {
                let c = choose|c: int| 0 <= c < sv.len() && sv[c].prefix == prefix@ && forall|j: int| 0 <= j < c ==> sv[j].prefix != prefix@;
                assert(0 <= c < sv.len() && sv[c].prefix == prefix@ && forall|j: int| 0 <= j < c ==> sv[j].prefix != prefix@);
                if c < i {
                    assert(sv[c].prefix != prefix@);
                }
                if c > i {
                    assert(sv[i as int].prefix != prefix@);
                }
            }
            return Some(i);
        }
        i = i + 1;
    }
    assert(!(exists|t: int| 0 <= t < sv.len() && sv[t].prefix == prefix@));
    None
}

fn extend_properties(ps: &mut Vec<(String, ConfigProperty)>, more: Vec<(String, ConfigProperty)>)
    ensures
        props_view(final(ps)@) == props_extend(props_view(old(ps)@), props_view(more@)),
{
    let ghost start = props_view(ps@);
    let ghost mv = props_view(more@);
    let mut more = more;
    let n = more.len();
    let mut i: usize = 0;
    while more.len() > 0
        invariant
            n == mv.len(),
            i <= n,
            more@.len() == n - i,
            forall|k: int| 0 <= k < more@.len() ==> (more@[k].0@, prop_view(more@[k].1)) == mv[i + k],
            props_view(ps@) == props_extend(start, mv.subrange(0, i as int)),
        decreases more@.len(),
    {
        let (name, p) = more.remove(0);
        proof {
            assert((name@, prop_view(p)) == mv[i as int]);
            assert(mv.subrange(0, i + 1).drop_last() =~= mv.subrange(0, i as int));
        }
        upsert_property(ps, name, p);
        i = i + 1;
    }
    proof {
        assert(mv.subrange(0, n as int) =~= mv);
    }
}

/// The configuration sections of a tree, ranges taken in `content`.
pub fn extract_config_sections(root: &TomlNode, content: &str) -> (r: Vec<ConfigSection>)
    ensures
        sections_view(r@) == tree_sections(*root, content@),
{
    let mut sections: Vec<ConfigSection> = Vec::new();
    let es = match &root.value {
        TomlValue::Table(es) => es,
        _ => {
            assert(sections_view(sections@) =~= seq![]);
            return sections;
        },
    };
    let mut i: usize = 0;
    while i < es.len()
        invariant
            i <= es@.len(),
            sections_view(sections@) == entries_sections(es@.subrange(0, i as int), content@),
        decreases es@.len() - i,
    {
        proof {
            assert(es@.subrange(0, i + 1).drop_last() =~= es@.subrange(0, i as int));
            assert(es@.subrange(0, i + 1).last() == es@[i as int]);
        }
        let entry = &es[i];
        if let TomlValue::Table(_) = &entry.value.value {
            let key = &entry.key;
            let kc = crate::text::chars_of(key.as_str());
            let dot = crate::env_vars::exec_index_of_from(&kc, '.', 0);
            let prefix_chars = crate::env_vars::subvec(&kc, 0, dot);
            let prefix = crate::text::string_of(prefix_chars.as_slice());
            let nested = dot < kc.len();
            let properties = extract_properties(&entry.value, content);
            let range = node_to_range(&entry.value, content);
            let ghost sv = sections_view(sections@);
            let ghost props = props_view(properties@);
            proof {
                assert(prefix@ == top_prefix(key@));
                assert(nested == has_dot(key@));
            }
            match find_section(&sections, prefix.as_str()) {
                Some(idx) => {
                    let ghost before = sections@;
                    let mut sec = sections.remove(idx);
                    let ghost old_sec = section_view(sec);
                    assert(old_sec == sv[idx as int]);
                    if nested {
                        let nested_name_chars = crate::env_vars::subvec(&kc, dot + 1, kc.len());
                        let nested_name = crate::text::string_of(nested_name_chars.as_slice());
                        let value = props_to_value_table(&properties);
                        proof {
                            assert(nested_name@ == key@.subrange(top_prefix(key@).len() as int + 1, key@.len() as int));
                        }
                        upsert_property(&mut sec.properties, nested_name, ConfigProperty { key: key.clone(), value, range });
                    } else {
                        extend_properties(&mut sec.properties, properties);
                    }
                    let ghost new_sec = section_view(sec);
                    proof {
                        let nested_p = (key@.subrange(top_prefix(key@).len() as int + 1, key@.len() as int), PropertyV { key: key@, value: props_table(props), range });
                        assert(new_sec.prefix == sv[idx as int].prefix);
                        assert(new_sec.range == sv[idx as int].range);
                        if nested {
                            assert(new_sec.properties == prop_upsert(sv[idx as int].properties, nested_p));
                        } else {
                            assert(new_sec.properties == props_extend(sv[idx as int].properties, props));
                        }
                        assert(section_index(sv, top_prefix(key@)) == Some(idx as int));
                        assert(new_sec == (SectionV {
                            prefix: sv[idx as int].prefix,
                            properties: if has_dot(key@) {
                                prop_upsert(sv[idx as int].properties, nested_p)
                            } else {
                                props_extend(sv[idx as int].properties, props)
                            },
                            range: sv[idx as int].range,
                        }));
                    }
                    sections.insert(idx, sec);
                    proof {
                        assert(sections@ =~= before.update(idx as int, sec));
                        assert(sections_view(sections@) =~= sv.update(idx as int, new_sec));
                        assert(add_section(sv, key@, props, range) == sv.update(idx as int, new_sec));
                    }
                },
                None => {
                    let section_props = if nested {
                        let nested_name_chars = crate::env_vars::subvec(&kc, dot + 1, kc.len());
                        let nested_name = crate::text::string_of(nested_name_chars.as_slice());
                        proof {
                            assert(nested_name@ == key@.subrange(top_prefix(key@).len() as int + 1, key@.len() as int));
                        }
                        let value = props_to_value_table(&properties);
                        let mut v: Vec<(String, ConfigProperty)> = Vec::new();
                        v.push((nested_name, ConfigProperty { key: key.clone(), value, range }));
                        proof {
                            let nested_p = (key@.subrange(top_prefix(key@).len() as int + 1, key@.len() as int), PropertyV { key: key@, value: props_table(props), range });
                            assert(props_view(v@) =~= seq![nested_p]);
                        }
                        v
                    } else {
                        properties
                    };
                    let ghost spv = props_view(section_props@);
                    let sec = ConfigSection { prefix, properties: section_props, range };
                    let ghost before = sections@;
                    sections.push(sec);
                    proof {
                        assert(sections@ =~= before.push(sec));
                        assert(sections_view(sections@) =~= sv.push(section_view(sec)));
                        assert(add_section(sv, key@, props, range) == sv.push(section_view(sec)));
                    }
                },
            }
        }
        i = i + 1;
    }
    proof {
        assert(es@.subrange(0, es@.len() as int) =~= es@);
    }
    sections
}


// ----- parsing -----

/// How a syntax error is reported: its byte span and message.
pub open spec fn syntax_error_text(e: TomlSyntaxError) -> Seq<char> {
    nat_digits(e.start as nat) + ":"@ + nat_digits(e.end as nat) + " - "@ + e.message@
}

/// The message for a text with syntax errors: each error reported, the
/// reports joined with `; `.
pub open spec fn syntax_errors_message(es: Seq<TomlSyntaxError>) -> Seq<char> {
    "TOML 语法错误: "@ + crate::di_validator::join(Seq::new(es.len(), |i: int| syntax_error_text(es[i])), "; "@)
}

fn syntax_errors_text(es: &Vec<TomlSyntaxError>) -> (r: String)
    ensures
        r@ == syntax_errors_message(es@),
{
    let mut parts: Vec<String> = Vec::new();
    let mut i: usize = 0;
    while i < es.len()
        invariant
            i <= es@.len(),
            parts@.len() == i,
            forall|k: int| 0 <= k < i ==> #[trigger] parts@[k]@ == syntax_error_text(es@[k]),
        decreases es@.len() - i,
    {
        let mut t = crate::text::u64_text(es[i].start as u64);
        t.append(":");
        let e = crate::text::u64_text(es[i].end as u64);
        t.append(e.as_str());
        t.append(" - ");
        t.append(es[i].message.as_str());
        parts.push(t);
        i = i + 1;
    }
    let joined = crate::di_validator::join_strings(&parts, "; ");
    let mut m = String::from_str("TOML 语法错误: ");
    m.append(joined.as_str());
    proof {
        assert(views(parts@) =~= Seq::new(es@.len(), |i: int| syntax_error_text(es@[i])));
    }
    m
}

/// Analyzes configuration files against the schema.
pub struct TomlAnalyzer {
    schema_provider: SchemaProvider,
}

impl TomlAnalyzer {
    /// The schema the analyzer checks against.
    pub closed spec fn schema(&self) -> SchemaProvider {
        self.schema_provider
    }

    /// An analyzer over `schema_provider`.
    pub fn new(schema_provider: SchemaProvider) -> (r: TomlAnalyzer)
        ensures
            r.schema() == schema_provider,
    {
        TomlAnalyzer { schema_provider }
    }

    /// The schema the analyzer checks against.
    pub fn schema_provider(&self) -> (r: &SchemaProvider)
        ensures
            *r == self.schema(),
    {
        &self.schema_provider
    }

    /// Replaces the unquoted environment variable references of a text by
    /// placeholder literals, and lists the references.
    pub fn preprocess_env_vars(&self, content: &str) -> (r: (String, Vec<EnvVarReference>))
        requires
            content@.len() < u32::MAX,
        ensures
            r.0@ == spec_preprocess(content@).text,
            r.1@.map_values(|v: EnvVarReference| v@) == spec_preprocess(content@).refs,
    {
        crate::env_vars::preprocess_env_vars(content)
    }

    /// Whether a string holds an environment variable reference: both `${`
    /// and `}` occur in it.
    pub fn contains_env_var(&self, s: &str) -> (r: bool)
        ensures
            r == (contains_seq(s@, "${"@) && contains_seq(s@, "}"@)),
    {
        crate::text::contains_str(s, "${") && crate::text::contains_str(s, "}")
    }

    /// Parses a configuration file: references are replaced by
    /// placeholders, the result is parsed, a syntax error refuses the file,
    /// and the sections are read from the tree with ranges in the unreplaced
    /// text.
    pub fn parse(&self, content: &str) -> (r: Result<TomlDocument, String>)
        requires
            content@.len() < u32::MAX,
            spec_preprocess(content@).text.len() * 4 < u32::MAX,
        ensures
            ({
                let pre = spec_preprocess(content@);
                let errors = taplo_syntax_errors(pre.text)@;
                match r {
                    Err(e) => errors.len() > 0 && e@ == syntax_errors_message(errors),
                    Ok(doc) => errors.len() == 0 && doc.content@ == content@
                        && doc.env_vars@.map_values(|v: EnvVarReference| v@) == pre.refs
                        && toml_tree_is(doc.root, pre.text)
                        && sections_view(doc.config_sections@) == tree_sections(doc.root, content@),
                }
            }),
    {
        let (pre, env_vars) = self.preprocess_env_vars(content);
        let parsed = crate::toml_tree::parse_toml(pre.as_str());
        if parsed.errors.len() > 0 {
            return Err(syntax_errors_text(&parsed.errors));
        }
        let root = parsed.root;
        let config_sections = extract_config_sections(&root, content);
        Ok(TomlDocument { root, env_vars, config_sections, content: String::from_str(content) })
    }
}


// ----- validation -----

/// How a type is named in messages.
pub open spec fn type_info_text(t: TypeInfoV) -> Seq<char> {
    match t {
        TypeInfoV::Str { .. } => "字符串"@,
        TypeInfoV::Integer { .. } => "整数"@,
        TypeInfoV::Float { .. } => "浮点数"@,
        TypeInfoV::Boolean => "布尔值"@,
        TypeInfoV::Array { .. } => "数组"@,
        TypeInfoV::Object { .. } => "对象"@,
    }
}

/// How the type of a value is named in messages.
pub open spec fn value_type_text(v: ConfigValueV) -> Seq<char> {
    match v {
        ConfigValueV::Str(_) => "字符串"@,
        ConfigValueV::Integer(_) => "整数"@,
        ConfigValueV::Float(_) => "浮点数"@,
        ConfigValueV::Boolean(_) => "布尔值"@,
        ConfigValueV::Array(_) => "数组"@,
        ConfigValueV::Table(_) => "对象"@,
    }
}

pub open spec fn type_matches(v: ConfigValueV, t: TypeInfoV) -> bool {
    ||| (v is Str && t is Str)
    ||| (v is Integer && t is Integer)
    ||| (v is Float && t is Float)
    ||| (v is Boolean && t is Boolean)
    ||| (v is Array && t is Array)
    ||| (v is Table && t is Object)
}

/// Whether a string holds an environment variable reference.
pub open spec fn has_env_ref(s: Seq<char>) -> bool {
    contains_seq(s, "${"@) && contains_seq(s, "}"@)
}

/// The length in bytes of a text, as `str::len` reports it.
pub open spec fn byte_len(s: Seq<char>) -> nat {
    (vstd::utf8::encode_utf8(s).len() as usize) as nat
}

/// How `{:?}` writes a string: quoted and escaped.
pub uninterp spec fn std_debug_str(s: Seq<char>) -> Seq<char>;

/// How `{:?}` writes a list of strings.
pub open spec fn debug_list(v: Seq<Seq<char>>) -> Seq<char> {
    "["@ + crate::di_validator::join(Seq::new(v.len(), |i: int| std_debug_str(v[i])), ", "@) + "]"@
}

/// The schema of the property named `name`: the first with that name.
pub open spec fn schema_prop(ps: Seq<SchemaPropertyV>, name: Seq<char>) -> Option<SchemaPropertyV>
    decreases ps.len(),
{
    if ps.len() == 0 {
        None
    } else if ps[0].name == name {
        Some(ps[0])
    } else {
        schema_prop(ps.drop_first(), name)
    }
}

/// The type check of a property: an error when the value's type is not
/// the schema's.
pub open spec fn type_diagnostics(key: Seq<char>, v: ConfigValueV, range: Range, sp: SchemaPropertyV) -> Seq<DiagnosticV> {
    if type_matches(v, sp.type_info) {
        seq![]
    } else {
        seq![server_diagnostic(range, DiagnosticSeverity::Error, "type-mismatch"@,
            "配置项 '"@ + key + "' 的类型不匹配：期望 "@ + type_info_text(sp.type_info) + "，实际 "@ + value_type_text(v))]
    }
}

/// The range check of a property: a string must be one of the allowed
/// values and within the length bounds (in bytes) unless it holds an
/// environment variable reference; a number must be within the bounds.
pub open spec fn range_diagnostics(key: Seq<char>, v: ConfigValueV, range: Range, sp: SchemaPropertyV) -> Seq<DiagnosticV> {
    match (v, sp.type_info) {
        (ConfigValueV::Str(s), TypeInfoV::Str { enum_values, min_length, max_length }) => {
            let len = byte_len(s);
            (match enum_values {
                Some(ev) => if !has_env_ref(s) && !ev.contains(s) {
                    seq![server_diagnostic(range, DiagnosticSeverity::Error, "invalid-enum-value"@,
                        "配置项 '"@ + key + "' 的值 '"@ + s + "' 不在允许的枚举值中："@ + debug_list(ev))]
                } else {
                    seq![]
                },
                None => seq![],
            }) + (match min_length {
                Some(m) => if !has_env_ref(s) && len < m {
                    seq![server_diagnostic(range, DiagnosticSeverity::Error, "string-too-short"@,
                        "配置项 '"@ + key + "' 的值长度 "@ + nat_digits(len) + " 小于最小长度 "@ + nat_digits(m as nat))]
                } else {
                    seq![]
                },
                None => seq![],
            }) + (match max_length {
                Some(m) => if !has_env_ref(s) && len > m {
                    seq![server_diagnostic(range, DiagnosticSeverity::Error, "string-too-long"@,
                        "配置项 '"@ + key + "' 的值长度 "@ + nat_digits(len) + " 超过最大长度 "@ + nat_digits(m as nat))]
                } else {
                    seq![]
                },
                None => seq![],
            })
        },
        (ConfigValueV::Integer(i), TypeInfoV::Integer { min, max }) => (match min {
            Some(m) => if i < m {
                seq![server_diagnostic(range, DiagnosticSeverity::Error, "value-too-small"@,
                    "配置项 '"@ + key + "' 的值 "@ + crate::text::int_text(i as int) + " 小于最小值 "@ + crate::text::int_text(m as int))]
            } else {
                seq![]
            },
            None => seq![],
        }) + (match max {
            Some(m) => if i > m {
                seq![server_diagnostic(range, DiagnosticSeverity::Error, "value-too-large"@,
                    "配置项 '"@ + key + "' 的值 "@ + crate::text::int_text(i as int) + " 超过最大值 "@ + crate::text::int_text(m as int))]
            } else {
                seq![]
            },
            None => seq![],
        }),
        (ConfigValueV::Float(f), TypeInfoV::Float { min, max }) => (match min {
            Some(m) => if decimal_less(f, m) {
                seq![server_diagnostic(range, DiagnosticSeverity::Error, "value-too-small"@,
                    "配置项 '"@ + key + "' 的值 "@ + f + " 小于最小值 "@ + m)]
            } else {
                seq![]
            },
            None => seq![],
        }) + (match max {
            Some(m) => if decimal_less(m, f) {
                seq![server_diagnostic(range, DiagnosticSeverity::Error, "value-too-large"@,
                    "配置项 '"@ + key + "' 的值 "@ + f + " 超过最大值 "@ + m)]
            } else {
                seq![]
            },
            None => seq![],
        }),
        _ => seq![],
    }
}

/// The checks of the entries of a nested table against the properties of
/// an object type: those the schema describes are checked for type and
/// range at the parent's range, and nested tables in turn; the others are
/// let pass.
pub open spec fn nested_diagnostics(entries: Seq<(Seq<char>, ConfigValueV)>, sps: Seq<SchemaPropertyV>, range: Range) -> Seq<DiagnosticV>
    decreases entries,
{
    if entries.len() == 0 {
        seq![]
    } else {
        let (k, v) = entries.last();
        proof {
            assert(decreases_to!(entries => entries[entries.len() - 1]));
        }
        nested_diagnostics(entries.drop_last(), sps, range) + match schema_prop(sps, k) {
            Some(sp) => type_diagnostics(k, v, range, sp) + range_diagnostics(k, v, range, sp) + match (v, sp.type_info) {
                (ConfigValueV::Table(t), TypeInfoV::Object { properties }) => nested_diagnostics(t, properties, range),
                _ => seq![],
            },
            None => seq![],
        }
    }
}

/// The checks of one named property of a section.
pub open spec fn property_diagnostics(name: Seq<char>, p: PropertyV, sps: Seq<SchemaPropertyV>) -> Seq<DiagnosticV> {
    match schema_prop(sps, name) {
        Some(sp) => (match sp.deprecated {
            Some(msg) => seq![server_diagnostic(p.range, DiagnosticSeverity::Warning, "deprecated-property"@,
                "配置项 '"@ + name + "' 已废弃: "@ + msg)],
            None => seq![],
        }) + type_diagnostics(p.key, p.value, p.range, sp) + range_diagnostics(p.key, p.value, p.range, sp) + match (p.value, sp.type_info) {
            (ConfigValueV::Table(t), TypeInfoV::Object { properties }) => nested_diagnostics(t, properties, p.range),
            _ => seq![],
        },
        None => if p.value is Table {
            seq![]
        } else {
            seq![server_diagnostic(p.range, DiagnosticSeverity::Hint, "undefined-property"@,
                "配置项 '"@ + name + "' 未在 Schema 中定义"@)]
        },
    }
}

pub open spec fn section_diagnostics(ps: Seq<(Seq<char>, PropertyV)>, sps: Seq<SchemaPropertyV>) -> Seq<DiagnosticV>
    decreases ps.len(),
{
    if ps.len() == 0 {
        seq![]
    } else {
        section_diagnostics(ps.drop_last(), sps) + property_diagnostics(ps.last().0, ps.last().1, sps)
    }
}

/// The required properties a section lacks, each reported at the section.
pub open spec fn required_diagnostics(sec: SectionV, sps: Seq<SchemaPropertyV>) -> Seq<DiagnosticV>
    decreases sps.len(),
{
    if sps.len() == 0 {
        seq![]
    } else {
        let sp = sps.last();
        required_diagnostics(sec, sps.drop_last()) + if sp.required && !(exists|i: int| 0 <= i < sec.properties.len() && sec.properties[i].0 == sp.name) {
            seq![server_diagnostic(sec.range, DiagnosticSeverity::Warning, "missing-required-property"@,
                "缺少必需的配置项 '"@ + sp.name + "'"@)]
        } else {
            seq![]
        }
    }
}

pub open spec fn is_env_name_char(c: char) -> bool {
    ('A' <= c <= 'Z') || ('0' <= c <= '9') || c == '_'
}

/// The checks of one environment variable reference: its name must not be
/// empty, and should be upper case letters, digits and underscores.
pub open spec fn env_var_diagnostics(name: Seq<char>, range: Range) -> Seq<DiagnosticV> {
    (if name.len() == 0 {
        seq![server_diagnostic(range, DiagnosticSeverity::Error, "empty-var-name"@, "环境变量名不能为空"@)]
    } else {
        seq![]
    }) + if !(forall|i: int| 0 <= i < name.len() ==> is_env_name_char(#[trigger] name[i])) {
        seq![server_diagnostic(range, DiagnosticSeverity::Warning, "invalid-var-name"@,
            "环境变量名 '"@ + name + "' 不符合命名规范，建议使用大写字母、数字和下划线"@)]
    } else {
        seq![]
    }
}

pub open spec fn env_vars_diagnostics(vs: Seq<EnvVarReference>) -> Seq<DiagnosticV>
    decreases vs.len(),
{
    if vs.len() == 0 {
        seq![]
    } else {
        env_vars_diagnostics(vs.drop_last()) + env_var_diagnostics(vs.last().name@, vs.last().range)
    }
}

/// A string value that holds an environment variable reference is never
/// checked against the enum values or the length bounds of its schema:
/// its value is only known when the application runs.
pub proof fn law_env_references_skip_value_checks(key: Seq<char>, s: Seq<char>, range: Range, sp: SchemaPropertyV)
    requires
        has_env_ref(s),
    ensures
        range_diagnostics(key, ConfigValueV::Str(s), range, sp) == Seq::<DiagnosticV>::empty(),
{
    assert(range_diagnostics(key, ConfigValueV::Str(s), range, sp) =~= Seq::<DiagnosticV>::empty());
}

/// A warning for each property the schema of the plugin does not declare.
pub open spec fn undefined_property_diagnostics(schema: SchemaProvider, prefix: Seq<char>, ps: Seq<(String, ConfigProperty)>) -> Seq<DiagnosticV>
    decreases ps.len(),
{
    if ps.len() == 0 {
        seq![]
    } else {
        let rest = undefined_property_diagnostics(schema, prefix, ps.drop_last());
        let key = ps.last().0@;
        if spec_has_property_in(schema, prefix, key) {
            rest + seq![]
        } else {
            rest + seq![server_diagnostic(ps.last().1.range, DiagnosticSeverity::Warning, "undefined-property"@,
                "配置项 '"@ + key + "' 未在 Schema 中定义"@)]
        }
    }
}

/// The properties the schema gives the plugin `prefix`.
pub open spec fn plugin_properties(schema: SchemaProvider, prefix: Seq<char>) -> Option<Seq<SchemaPropertyV>> {
    match schema.plugin(prefix) {
        Some(s) => spec_plugin_properties(s),
        None => None,
    }
}

/// The checks of the sections: a section of a known plugin is checked
/// property by property and for missing required properties; any other is
/// reported as not in the schema.
pub open spec fn sections_diagnostics(schema: SchemaProvider, ss: Seq<SectionV>) -> Seq<DiagnosticV>
    decreases ss.len(),
{
    if ss.len() == 0 {
        seq![]
    } else {
        let sec = ss.last();
        sections_diagnostics(schema, ss.drop_last()) + match plugin_properties(schema, sec.prefix) {
            Some(sps) => section_diagnostics(sec.properties, sps) + required_diagnostics(sec, sps),
            None => seq![server_diagnostic(sec.range, DiagnosticSeverity::Warning, "undefined-section"@,
                "配置节 '"@ + sec.prefix + "' 未在 Schema 中定义"@)],
        }
    }
}


// ----- validation, executable -----

/// Writes a string with `{:?}`; the result is named as a function of the
/// string.
#[verifier::external_body]
fn debug_str(s: &str) -> (r: String)
    ensures
        r@ == std_debug_str(s@),
{
    format!("{:?}", s)
}

pub(crate) fn debug_list_text(v: &Vec<String>) -> (r: String)
    ensures
        r@ == debug_list(views(v@)),
{
    let mut parts: Vec<String> = Vec::new();
    let mut i: usize = 0;
    while i < v.len()
        invariant
            i <= v@.len(),
            parts@.len() == i,
            forall|k: int| 0 <= k < i ==> #[trigger] parts@[k]@ == std_debug_str(v@[k]@),
        decreases v@.len() - i,
    {
        parts.push(debug_str(v[i].as_str()));
        i = i + 1;
    }
    let joined = crate::di_validator::join_strings(&parts, ", ");
    let mut r = String::from_str("[");
    r.append(joined.as_str());
    r.append("]");
    proof {
        assert(views(parts@) =~= Seq::new(views(v@).len(), |i: int| std_debug_str(views(v@)[i])));
    }
    r
}

pub(crate) fn find_schema_prop<'a>(ps: &'a Vec<PropertySchema>, name: &str) -> (r: Option<&'a PropertySchema>)
    ensures
        match r {
            Some(p) => schema_prop(crate::schema::props_view(ps@), name@) == Some(p@),
            None => schema_prop(crate::schema::props_view(ps@), name@) is None,
        },
{
    let ghost pv = crate::schema::props_view(ps@);
    let mut i: usize = 0;
    proof {
        assert(pv.subrange(0, pv.len() as int) =~= pv);
    }
    while i < ps.len()
        invariant
            pv == crate::schema::props_view(ps@),
            i <= ps@.len(),
            schema_prop(pv, name@) == schema_prop(pv.subrange(i as int, pv.len() as int), name@),
        decreases ps@.len() - i,
    {
        proof {
            let sub = pv.subrange(i as int, pv.len() as int);
            assert(sub.drop_first() =~= pv.subrange(i + 1, pv.len() as int));
            assert(sub[0] == pv[i as int]);
            assert(pv[i as int] == ps@[i as int]@);
        }
        if str_eq(ps[i].name.as_str(), name) {
            return Some(&ps[i]);
        }
        i = i + 1;
    }
    None
}

fn has_property_named(ps: &Vec<(String, ConfigProperty)>, name: &String) -> (r: bool)
    ensures
        r == exists|i: int| 0 <= i < props_view(ps@).len() && props_view(ps@)[i].0 == name@,
{
    let mut i: usize = 0;
    while i < ps.len()
        invariant
            i <= ps@.len(),
            forall|t: int| 0 <= t < i ==> props_view(ps@)[t].0 != name@,
        decreases ps@.len() - i,
    {
        assert(props_view(ps@)[i as int].0 == ps@[i as int].0@);
        if str_eq(ps[i].0.as_str(), name.as_str()) {
            return true;
        }
        i = i + 1;
    }
    false
}

fn append_diags(out: &mut Vec<Diagnostic>, more: Vec<Diagnostic>)
    ensures
        diagnostics_view(final(out)@) == diagnostics_view(old(out)@) + diagnostics_view(more@),
{
    let ghost a = out@;
    let mut more = more;
    let ghost b = more@;
    out.append(&mut more);
    proof {
        assert(out@ =~= a + b);
        assert(diagnostics_view(out@) =~= diagnostics_view(a) + diagnostics_view(b));
    }
}

fn one(d: Diagnostic) -> (r: Vec<Diagnostic>)
    ensures
        diagnostics_view(r@) == seq![d@],
{
    let mut v = Vec::new();
    v.push(d);
    assert(diagnostics_view(v@) =~= seq![d@]);
    v
}

fn none() -> (r: Vec<Diagnostic>)
    ensures
        diagnostics_view(r@) == Seq::<DiagnosticV>::empty(),
{
    let v: Vec<Diagnostic> = Vec::new();
    assert(diagnostics_view(v@) =~= Seq::<DiagnosticV>::empty());
    v
}

impl TomlAnalyzer {
    /// How a type is named in messages.
    pub fn type_info_to_string(&self, t: &TypeInfo) -> (r: String)
        ensures
            r@ == type_info_text(t@),
    {
        match t {
            TypeInfo::String { .. } => String::from_str("字符串"),
            TypeInfo::Integer { .. } => String::from_str("整数"),
            TypeInfo::Float { .. } => String::from_str("浮点数"),
            TypeInfo::Boolean => String::from_str("布尔值"),
            TypeInfo::Array { .. } => String::from_str("数组"),
            TypeInfo::Object { .. } => String::from_str("对象"),
        }
    }

    /// How the type of a value is named in messages.
    pub fn config_value_type_name(&self, v: &ConfigValue) -> (r: String)
        ensures
            r@ == value_type_text(cv_view(*v)),
    {
        match v {
            ConfigValue::String(_) => String::from_str("字符串"),
            ConfigValue::Integer(_) => String::from_str("整数"),
            ConfigValue::Float(_) => String::from_str("浮点数"),
            ConfigValue::Boolean(_) => String::from_str("布尔值"),
            ConfigValue::Array(_) => String::from_str("数组"),
            ConfigValue::Table(_) => String::from_str("对象"),
        }
    }

    /// Checks the type of a property against its schema.
    fn validate_property_type(&self, property: &ConfigProperty, schema: &PropertySchema) -> (r: Vec<Diagnostic>)
        ensures
            diagnostics_view(r@) == type_diagnostics(property.key@, cv_view(property.value), property.range, schema@),
    {
        let matches = match (&property.value, &schema.type_info) {
            (ConfigValue::String(_), TypeInfo::String { .. }) => true,
            (ConfigValue::Integer(_), TypeInfo::Integer { .. }) => true,
            (ConfigValue::Float(_), TypeInfo::Float { .. }) => true,
            (ConfigValue::Boolean(_), TypeInfo::Boolean) => true,
            (ConfigValue::Array(_), TypeInfo::Array { .. }) => true,
            (ConfigValue::Table(_), TypeInfo::Object { .. }) => true,
            _ => false,
        };
        if matches {
            none()
        } else {
            let expected = self.type_info_to_string(&schema.type_info);
            let actual = self.config_value_type_name(&property.value);
            let mut m = String::from_str("配置项 '");
            m.append(property.key.as_str());
            m.append("' 的类型不匹配：期望 ");
            m.append(expected.as_str());
            m.append("，实际 ");
            m.append(actual.as_str());
            one(Diagnostic::server(property.range, DiagnosticSeverity::Error, "type-mismatch", m))
        }
    }
}


fn string_range_checks(key: &String, s: &String, enum_values: &Option<Vec<String>>, min_length: Option<usize>, max_length: Option<usize>, range: Range) -> (r: Vec<Diagnostic>)
    ensures
        diagnostics_view(r@) == range_diagnostics(
            key@,
            ConfigValueV::Str(s@),
            range,
            SchemaPropertyV {
                type_info: TypeInfoV::Str {
                    enum_values: match enum_values {
                        Some(vs) => Some(views(vs@)),
                        None => None,
                    },
                    min_length,
                    max_length,
                },
                ..crate::schema::arbitrary_prop()
            },
        ),
{
    let mut out = none();
    let has_env = crate::text::contains_str(s.as_str(), "${") && crate::text::contains_str(s.as_str(), "}");
    if let Some(ev) = enum_values {
        if !has_env && !crate::text::contains_string(ev, s.as_str()) {
            let mut m = String::from_str("配置项 '");
            m.append(key.as_str());
            m.append("' 的值 '");
            m.append(s.as_str());
            m.append("' 不在允许的枚举值中：");
            let listed = debug_list_text(ev);
            m.append(listed.as_str());
            append_diags(&mut out, one(Diagnostic::server(range, DiagnosticSeverity::Error, "invalid-enum-value", m)));
        } else {
            append_diags(&mut out, none());
        }
    } else {
        append_diags(&mut out, none());
    }
    let len = s.as_str().len();
    if let Some(min) = min_length {
        if !has_env && len < min {
            let mut m = String::from_str("配置项 '");
            m.append(key.as_str());
            m.append("' 的值长度 ");
            let lt = crate::text::u64_text(len as u64);
            m.append(lt.as_str());
            m.append(" 小于最小长度 ");
            let mt = crate::text::u64_text(min as u64);
            m.append(mt.as_str());
            append_diags(&mut out, one(Diagnostic::server(range, DiagnosticSeverity::Error, "string-too-short", m)));
        } else {
            append_diags(&mut out, none());
        }
    } else {
        append_diags(&mut out, none());
    }
    if let Some(max) = max_length {
        if !has_env && len > max {
            let mut m = String::from_str("配置项 '");
            m.append(key.as_str());
            m.append("' 的值长度 ");
            let lt = crate::text::u64_text(len as u64);
            m.append(lt.as_str());
            m.append(" 超过最大长度 ");
            let mt = crate::text::u64_text(max as u64);
            m.append(mt.as_str());
            append_diags(&mut out, one(Diagnostic::server(range, DiagnosticSeverity::Error, "string-too-long", m)));
        } else {
            append_diags(&mut out, none());
        }
    } else {
        append_diags(&mut out, none());
    }
    proof {
        assert(diagnostics_view(out@) =~= range_diagnostics(
            key@,
            ConfigValueV::Str(s@),
            range,
            SchemaPropertyV {
                type_info: TypeInfoV::Str {
                    enum_values: match enum_values {
                        Some(vs) => Some(views(vs@)),
                        None => None,
                    },
                    min_length,
                    max_length,
                },
                ..crate::schema::arbitrary_prop()
            },
        ));
    }
    out
}

fn integer_range_checks(key: &String, i: i64, min: Option<i64>, max: Option<i64>, range: Range) -> (r: Vec<Diagnostic>)
    ensures
        diagnostics_view(r@) == range_diagnostics(
            key@,
            ConfigValueV::Integer(i),
            range,
            SchemaPropertyV { type_info: TypeInfoV::Integer { min, max }, ..crate::schema::arbitrary_prop() },
        ),
{
    let mut out = none();
    if let Some(m) = min {
        if i < m {
            let mut t = String::from_str("配置项 '");
            t.append(key.as_str());
            t.append("' 的值 ");
            let it = crate::text::i64_text(i);
            t.append(it.as_str());
            t.append(" 小于最小值 ");
            let mt = crate::text::i64_text(m);
            t.append(mt.as_str());
            append_diags(&mut out, one(Diagnostic::server(range, DiagnosticSeverity::Error, "value-too-small", t)));
        } else {
            append_diags(&mut out, none());
        }
    } else {
        append_diags(&mut out, none());
    }
    if let Some(m) = max {
        if i > m {
            let mut t = String::from_str("配置项 '");
            t.append(key.as_str());
            t.append("' 的值 ");
            let it = crate::text::i64_text(i);
            t.append(it.as_str());
            t.append(" 超过最大值 ");
            let mt = crate::text::i64_text(m);
            t.append(mt.as_str());
            append_diags(&mut out, one(Diagnostic::server(range, DiagnosticSeverity::Error, "value-too-large", t)));
        } else {
            append_diags(&mut out, none());
        }
    } else {
        append_diags(&mut out, none());
    }
    proof {
        assert(diagnostics_view(out@) =~= range_diagnostics(
            key@,
            ConfigValueV::Integer(i),
            range,
            SchemaPropertyV { type_info: TypeInfoV::Integer { min, max }, ..crate::schema::arbitrary_prop() },
        ));
    }
    out
}

fn float_range_checks(key: &String, f: &String, min: &Option<String>, max: &Option<String>, range: Range) -> (r: Vec<Diagnostic>)
    ensures
        diagnostics_view(r@) == range_diagnostics(
            key@,
            ConfigValueV::Float(f@),
            range,
            SchemaPropertyV {
                type_info: TypeInfoV::Float { min: crate::schema::opt_str_view(*min), max: crate::schema::opt_str_view(*max) },
                ..crate::schema::arbitrary_prop()
            },
        ),
{
    let mut out = none();
    if let Some(m) = min {
        if crate::decimal::less_than(f.as_str(), m.as_str()) {
            let mut t = String::from_str("配置项 '");
            t.append(key.as_str());
            t.append("' 的值 ");
            t.append(f.as_str());
            t.append(" 小于最小值 ");
            t.append(m.as_str());
            append_diags(&mut out, one(Diagnostic::server(range, DiagnosticSeverity::Error, "value-too-small", t)));
        } else {
            append_diags(&mut out, none());
        }
    } else {
        append_diags(&mut out, none());
    }
    if let Some(m) = max {
        if crate::decimal::less_than(m.as_str(), f.as_str()) {
            let mut t = String::from_str("配置项 '");
            t.append(key.as_str());
            t.append("' 的值 ");
            t.append(f.as_str());
            t.append(" 超过最大值 ");
            t.append(m.as_str());
            append_diags(&mut out, one(Diagnostic::server(range, DiagnosticSeverity::Error, "value-too-large", t)));
        } else {
            append_diags(&mut out, none());
        }
    } else {
        append_diags(&mut out, none());
    }
    proof {
        assert(diagnostics_view(out@) =~= range_diagnostics(
            key@,
            ConfigValueV::Float(f@),
            range,
            SchemaPropertyV {
                type_info: TypeInfoV::Float { min: crate::schema::opt_str_view(*min), max: crate::schema::opt_str_view(*max) },
                ..crate::schema::arbitrary_prop()
            },
        ));
    }
    out
}

impl TomlAnalyzer {
    /// Checks a property's value against the bounds and allowed values of
    /// its schema.
    fn validate_property_range(&self, property: &ConfigProperty, schema: &PropertySchema) -> (r: Vec<Diagnostic>)
        ensures
            diagnostics_view(r@) == range_diagnostics(property.key@, cv_view(property.value), property.range, schema@),
    {
        match (&property.value, &schema.type_info) {
            (ConfigValue::String(s), TypeInfo::String { enum_values, min_length, max_length }) => {
                string_range_checks(&property.key, s, enum_values, *min_length, *max_length, property.range)
            },
            (ConfigValue::Integer(i), TypeInfo::Integer { min, max }) => {
                integer_range_checks(&property.key, *i, *min, *max, property.range)
            },
            (ConfigValue::Float(f), TypeInfo::Float { min, max }) => {
                float_range_checks(&property.key, f, min, max, property.range)
            },
            _ => none(),
        }
    }
}


proof fn lemma_table_view(es: Vec<ConfigEntry>)
    ensures
        cv_view(ConfigValue::Table(es))->Table_0 == cv_entries(es@),
{
    assert(cv_view(ConfigValue::Table(es))->Table_0 =~= cv_entries(es@));
}

proof fn lemma_object_view(ps: Vec<PropertySchema>)
    ensures
        (TypeInfo::Object { properties: ps })@ == (TypeInfoV::Object { properties: crate::schema::props_view(ps@) }),
{
    assert((TypeInfo::Object { properties: ps })@->Object_properties =~= crate::schema::props_view(ps@));
}

impl TomlAnalyzer {
    /// Checks the entries of a nested table against the properties of an
    /// object type, at the parent's range.
    fn validate_nested_table(&self, table: &Vec<ConfigEntry>, schema_properties: &Vec<PropertySchema>, parent_range: Range) -> (r: Vec<Diagnostic>)
        ensures
            diagnostics_view(r@) == nested_diagnostics(cv_entries(table@), crate::schema::props_view(schema_properties@), parent_range),
        decreases table@,
    {
        let ghost ev = cv_entries(table@);
        let ghost sps = crate::schema::props_view(schema_properties@);
        let mut out = none();
        let mut i: usize = 0;
        while i < table.len()
            invariant
                ev == cv_entries(table@),
                sps == crate::schema::props_view(schema_properties@),
                i <= table@.len(),
                diagnostics_view(out@) == nested_diagnostics(ev.subrange(0, i as int), sps, parent_range),
            decreases table@.len() - i,
        {
            proof {
                assert(ev.subrange(0, i + 1).drop_last() =~= ev.subrange(0, i as int));
                assert(ev.subrange(0, i + 1).last() == ev[i as int]);
                assert(ev[i as int] == (table@[i as int].key@, cv_view(table@[i as int].value)));
            }
            let entry = &table[i];
            let ghost before = diagnostics_view(out@);
            match find_schema_prop(schema_properties, entry.key.as_str()) {
                Some(ps) => {
                    let temp = ConfigProperty { key: entry.key.clone(), value: entry.value.clone_value(), range: parent_range };
                    append_diags(&mut out, self.validate_property_type(&temp, ps));
                    append_diags(&mut out, self.validate_property_range(&temp, ps));
                    match (&entry.value, &ps.type_info) {
                        (ConfigValue::Table(inner), TypeInfo::Object { properties }) => {
                            proof {
                                assert(decreases_to!(table@ => table@[i as int]));
                                assert(decreases_to!(table@[i as int] => table@[i as int].value));
                                assert(table@[i as int].value->Table_0 == *inner);
                                assert(decreases_to!(table@[i as int].value => table@[i as int].value->Table_0));
                                lemma_table_view(*inner);
                                lemma_object_view(*properties);
                            }
                            append_diags(&mut out, self.validate_nested_table(inner, properties, parent_range));
                        },
                        _ => {
                            append_diags(&mut out, none());
                        },
                    }
                    proof {
                        assert(diagnostics_view(out@) =~= nested_diagnostics(ev.subrange(0, i + 1), sps, parent_range));
                    }
                },
                None => {
                    proof {
                        assert(diagnostics_view(out@) =~= nested_diagnostics(ev.subrange(0, i + 1), sps, parent_range));
                    }
                },
            }
            i = i + 1;
        }
        proof {
            assert(ev.subrange(0, ev.len() as int) =~= ev);
        }
        out
    }
}


impl TomlAnalyzer {
    /// Checks one named property of a section against the plugin's schema.
    fn validate_property(&self, name: &String, property: &ConfigProperty, plugin: &PluginSchema) -> (r: Vec<Diagnostic>)
        ensures
            diagnostics_view(r@) == property_diagnostics(name@, prop_view(*property), crate::schema::props_view(plugin.properties@)),
    {
        let ghost sps = crate::schema::props_view(plugin.properties@);
        match find_schema_prop(&plugin.properties, name.as_str()) {
            Some(ps) => {
                let mut out = none();
                match &ps.deprecated {
                    Some(msg) => {
                        let mut m = String::from_str("配置项 '");
                        m.append(name.as_str());
                        m.append("' 已废弃: ");
                        m.append(msg.as_str());
                        append_diags(&mut out, one(Diagnostic::server(property.range, DiagnosticSeverity::Warning, "deprecated-property", m)));
                    },
                    None => {
                        append_diags(&mut out, none());
                    },
                }
                append_diags(&mut out, self.validate_property_type(property, ps));
                append_diags(&mut out, self.validate_property_range(property, ps));
                match (&property.value, &ps.type_info) {
                    (ConfigValue::Table(inner), TypeInfo::Object { properties }) => {
                        proof {
                            lemma_table_view(*inner);
                            lemma_object_view(*properties);
                        }
                        append_diags(&mut out, self.validate_nested_table(inner, properties, property.range));
                    },
                    _ => {
                        append_diags(&mut out, none());
                    },
                }
                proof {
                    assert(diagnostics_view(out@) =~= property_diagnostics(name@, prop_view(*property), sps));
                }
                out
            },
            None => {
                if let ConfigValue::Table(_) = &property.value {
                    none()
                } else {
                    let mut m = String::from_str("配置项 '");
                    m.append(name.as_str());
                    m.append("' 未在 Schema 中定义");
                    one(Diagnostic::server(property.range, DiagnosticSeverity::Hint, "undefined-property", m))
                }
            },
        }
    }

    /// Checks the properties of a section against the plugin's schema.
    fn validate_section(&self, section: &ConfigSection, plugin: &PluginSchema) -> (r: Vec<Diagnostic>)
        ensures
            diagnostics_view(r@) == section_diagnostics(props_view(section.properties@), crate::schema::props_view(plugin.properties@)),
    {
        let ghost pv = props_view(section.properties@);
        let ghost sps = crate::schema::props_view(plugin.properties@);
        let mut out = none();
        let mut i: usize = 0;
        while i < section.properties.len()
            invariant
                pv == props_view(section.properties@),
                sps == crate::schema::props_view(plugin.properties@),
                i <= section.properties@.len(),
                diagnostics_view(out@) == section_diagnostics(pv.subrange(0, i as int), sps),
            decreases section.properties@.len() - i,
        {
            proof {
                assert(pv.subrange(0, i + 1).drop_last() =~= pv.subrange(0, i as int));
                assert(pv.subrange(0, i + 1).last() == pv[i as int]);
            }
            let (name, property) = (&section.properties[i].0, &section.properties[i].1);
            append_diags(&mut out, self.validate_property(name, property, plugin));
            i = i + 1;
        }
        proof {
            assert(pv.subrange(0, pv.len() as int) =~= pv);
        }
        out
    }

    /// Reports each required property of the plugin that the section lacks.
    fn validate_required_properties(&self, section: &ConfigSection, plugin: &PluginSchema) -> (r: Vec<Diagnostic>)
        ensures
            diagnostics_view(r@) == required_diagnostics(section_view(*section), crate::schema::props_view(plugin.properties@)),
    {
        let ghost sps = crate::schema::props_view(plugin.properties@);
        let ghost sec = section_view(*section);
        let mut out = none();
        let mut i: usize = 0;
        while i < plugin.properties.len()
            invariant
                sps == crate::schema::props_view(plugin.properties@),
                sec == section_view(*section),
                i <= plugin.properties@.len(),
                diagnostics_view(out@) == required_diagnostics(sec, sps.subrange(0, i as int)),
            decreases plugin.properties@.len() - i,
        {
            proof {
                assert(sps.subrange(0, i + 1).drop_last() =~= sps.subrange(0, i as int));
                assert(sps.subrange(0, i + 1).last() == sps[i as int]);
                assert(sps[i as int] == plugin.properties@[i as int]@);
            }
            let ps = &plugin.properties[i];
            let present = has_property_named(&section.properties, &ps.name);
            proof {
                assert(sec.properties == props_view(section.properties@));
                assert(ps.required == sps[i as int].required);
                assert(ps.name@ == sps[i as int].name);
            }
            if ps.required && !present {
                let mut m = String::from_str("缺少必需的配置项 '");
                m.append(ps.name.as_str());
                m.append("'");
                append_diags(&mut out, one(Diagnostic::server(section.range, DiagnosticSeverity::Warning, "missing-required-property", m)));
            } else {
                append_diags(&mut out, none());
            }
            i = i + 1;
        }
        proof {
            assert(sps.subrange(0, sps.len() as int) =~= sps);
        }
        out
    }

    /// Reports each property of a section that the schema of its plugin
    /// does not declare.
    #[allow(dead_code)]
    fn validate_section_properties(&self, section: &ConfigSection) -> (r: Vec<Diagnostic>)
        ensures
            diagnostics_view(r@) == undefined_property_diagnostics(self.schema(), section.prefix@, section.properties@),
    {
        let mut out = none();
        let ghost ps = section.properties@;
        let mut i: usize = 0;
        while i < section.properties.len()
            invariant
                ps == section.properties@,
                i <= ps.len(),
                diagnostics_view(out@) == undefined_property_diagnostics(self.schema(), section.prefix@, ps.take(i as int)),
            decreases ps.len() - i,
        {
            proof {
                assert(ps.take(i + 1).drop_last() =~= ps.take(i as int));
                assert(ps.take(i + 1).last() == ps[i as int]);
            }
            let (key, property) = (&section.properties[i].0, &section.properties[i].1);
            if !self.schema_provider.has_property(section.prefix.as_str(), key.as_str()) {
                let mut m = String::from_str("配置项 '");
                m.append(key.as_str());
                m.append("' 未在 Schema 中定义");
                append_diags(&mut out, one(Diagnostic::server(property.range, DiagnosticSeverity::Warning, "undefined-property", m)));
            } else {
                append_diags(&mut out, none());
            }
            i = i + 1;
        }
        proof {
            assert(ps.take(ps.len() as int) =~= ps);
        }
        out
    }

    /// Checks the names of environment variable references.
    fn validate_env_var_syntax(&self, env_vars: &Vec<EnvVarReference>) -> (r: Vec<Diagnostic>)
        ensures
            diagnostics_view(r@) == env_vars_diagnostics(env_vars@),
    {
        let mut out = none();
        let mut i: usize = 0;
        while i < env_vars.len()
            invariant
                i <= env_vars@.len(),
                diagnostics_view(out@) == env_vars_diagnostics(env_vars@.subrange(0, i as int)),
            decreases env_vars@.len() - i,
        {
            proof {
                assert(env_vars@.subrange(0, i + 1).drop_last() =~= env_vars@.subrange(0, i as int));
                assert(env_vars@.subrange(0, i + 1).last() == env_vars@[i as int]);
            }
            let v = &env_vars[i];
            let n = v.name.as_str().unicode_len();
            if n == 0 {
                append_diags(&mut out, one(Diagnostic::server(v.range, DiagnosticSeverity::Error, "empty-var-name", String::from_str("环境变量名不能为空"))));
            } else {
                append_diags(&mut out, none());
            }
            let mut ok = true;
            let mut k: usize = 0;
            while k < n
                invariant
                    n == v.name@.len(),
                    k <= n,
                    ok == forall|t: int| 0 <= t < k ==> is_env_name_char(#[trigger] v.name@[t]),
                decreases n - k,
            {
                let c = v.name.as_str().get_char(k);
                if !((c >= 'A' && c <= 'Z') || (c >= '0' && c <= '9') || c == '_') {
                    ok = false;
                }
                k = k + 1;
            }
            if !ok {
                let mut m = String::from_str("环境变量名 '");
                m.append(v.name.as_str());
                m.append("' 不符合命名规范，建议使用大写字母、数字和下划线");
                append_diags(&mut out, one(Diagnostic::server(v.range, DiagnosticSeverity::Warning, "invalid-var-name", m)));
            } else {
                append_diags(&mut out, none());
            }
            proof {
                assert(diagnostics_view(out@) =~= env_vars_diagnostics(env_vars@.subrange(0, i + 1)));
            }
            i = i + 1;
        }
        proof {
            assert(env_vars@.subrange(0, env_vars@.len() as int) =~= env_vars@);
        }
        out
    }

    /// Validates a configuration file: the names of its environment
    /// variable references, then each section against the schema.
    pub fn validate(&self, doc: &TomlDocument) -> (r: Vec<Diagnostic>)
        ensures
            diagnostics_view(r@) == env_vars_diagnostics(doc.env_vars@) + sections_diagnostics(self.schema(), sections_view(doc.config_sections@)),
    {
        let mut out = self.validate_env_var_syntax(&doc.env_vars);
        let ghost start = diagnostics_view(out@);
        let ghost sv = sections_view(doc.config_sections@);
        let mut i: usize = 0;
        while i < doc.config_sections.len()
            invariant
                sv == sections_view(doc.config_sections@),
                i <= doc.config_sections@.len(),
                diagnostics_view(out@) == start + sections_diagnostics(self.schema(), sv.subrange(0, i as int)),
            decreases doc.config_sections@.len() - i,
        {
            proof {
                assert(sv.subrange(0, i + 1).drop_last() =~= sv.subrange(0, i as int));
                assert(sv.subrange(0, i + 1).last() == sv[i as int]);
            }
            let section = &doc.config_sections[i];
            let ghost before = diagnostics_view(out@);
            match self.schema_provider.get_plugin(section.prefix.as_str()) {
                Some(plugin) => {
                    append_diags(&mut out, self.validate_section(section, &plugin));
                    append_diags(&mut out, self.validate_required_properties(section, &plugin));
                },
                None => {
                    let mut m = String::from_str("配置节 '");
                    m.append(section.prefix.as_str());
                    m.append("' 未在 Schema 中定义");
                    append_diags(&mut out, one(Diagnostic::server(section.range, DiagnosticSeverity::Warning, "undefined-section", m)));
                },
            }
            proof {
                assert(diagnostics_view(out@) =~= start + sections_diagnostics(self.schema(), sv.subrange(0, i + 1)));
            }
            i = i + 1;
        }
        proof {
            assert(sv.subrange(0, sv.len() as int) =~= sv);
        }
        out
    }
}


// ----- text of values -----

pub open spec fn bool_text(b: bool) -> Seq<char> {
    if b { "true"@ } else { "false"@ }
}

/// How a configuration value is written in hover text: strings quoted,
/// arrays in brackets, tables as `{ key = value, .. }`.
pub open spec fn cv_text(v: ConfigValueV) -> Seq<char>
    decreases v, 1int,
{
    match v {
        ConfigValueV::Str(s) => "\""@ + s + "\""@,
        ConfigValueV::Integer(i) => crate::text::int_text(i as int),
        ConfigValueV::Float(f) => f,
        ConfigValueV::Boolean(b) => bool_text(b),
        ConfigValueV::Array(items) => "["@ + crate::di_validator::join(cv_texts(items), ", "@) + "]"@,
        ConfigValueV::Table(es) => "{ "@ + crate::di_validator::join(cv_entry_texts(es), ", "@) + " }"@,
    }
}

pub open spec fn cv_texts(items: Seq<ConfigValueV>) -> Seq<Seq<char>>
    decreases items, 0int,
{
    if items.len() == 0 {
        seq![]
    } else {
        proof {
            assert(decreases_to!(items => items[items.len() - 1]));
        }
        cv_texts(items.drop_last()).push(cv_text(items.last()))
    }
}

pub open spec fn cv_entry_texts(es: Seq<(Seq<char>, ConfigValueV)>) -> Seq<Seq<char>>
    decreases es, 0int,
{
    if es.len() == 0 {
        seq![]
    } else {
        proof {
            assert(decreases_to!(es => es[es.len() - 1]));
        }
        cv_entry_texts(es.drop_last()).push(es.last().0 + " = "@ + cv_text(es.last().1))
    }
}

/// How a schema value is written in hover text.
pub open spec fn schema_value_text(v: ValueV) -> Seq<char>
    decreases v, 1int,
{
    match v {
        ValueV::Str(s) => "\""@ + s + "\""@,
        ValueV::Integer(i) => crate::text::int_text(i as int),
        ValueV::Float(f) => f,
        ValueV::Boolean(b) => bool_text(b),
        ValueV::Array(items) => "["@ + crate::di_validator::join(schema_value_texts(items), ", "@) + "]"@,
        ValueV::Table(es) => "{ "@ + crate::di_validator::join(schema_entry_texts(es), ", "@) + " }"@,
    }
}

pub open spec fn schema_value_texts(items: Seq<ValueV>) -> Seq<Seq<char>>
    decreases items, 0int,
{
    if items.len() == 0 {
        seq![]
    } else {
        proof {
            assert(decreases_to!(items => items[items.len() - 1]));
        }
        schema_value_texts(items.drop_last()).push(schema_value_text(items.last()))
    }
}

pub open spec fn schema_entry_texts(es: Seq<(Seq<char>, ValueV)>) -> Seq<Seq<char>>
    decreases es, 0int,
{
    if es.len() == 0 {
        seq![]
    } else {
        proof {
            assert(decreases_to!(es => es[es.len() - 1]));
        }
        schema_entry_texts(es.drop_last()).push(es.last().0 + " = "@ + schema_value_text(es.last().1))
    }
}

fn quoted(s: &String) -> (r: String)
    ensures
        r@ == "\""@ + s@ + "\""@,
{
    let mut r = String::new();
    crate::text::push_char(&mut r, '"');
    r.append(s.as_str());
    crate::text::push_char(&mut r, '"');
    proof {
        reveal_strlit("\"");
        assert(r@ =~= "\""@ + s@ + "\""@);
    }
    r
}

fn bool_string(b: bool) -> (r: String)
    ensures
        r@ == bool_text(b),
{
    if b { String::from_str("true") } else { String::from_str("false") }
}

impl TomlAnalyzer {
    /// How a configuration value is written in hover text.
    pub fn config_value_to_string(&self, value: &ConfigValue) -> (r: String)
        ensures
            r@ == cv_text(cv_view(*value)),
        decreases *value,
    {
        match value {
            ConfigValue::String(s) => quoted(s),
            ConfigValue::Integer(i) => crate::text::i64_text(*i),
            ConfigValue::Float(f) => f.clone(),
            ConfigValue::Boolean(b) => bool_string(*b),
            ConfigValue::Array(items) => {
                let ghost iv = cv_view(*value)->Array_0;
                let mut parts: Vec<String> = Vec::new();
                let mut i: usize = 0;
                while i < items.len()
                    invariant
                        *value == ConfigValue::Array(*items),
                        iv == cv_view(*value)->Array_0,
                        i <= items@.len(),
                        views(parts@) == cv_texts(iv.subrange(0, i as int)),
                    decreases items@.len() - i,
                {
                    proof {
                        assert(value->Array_0 == *items);
                        assert(decreases_to!(*value => value->Array_0));
                        assert(decreases_to!(*items => items@));
                        assert(decreases_to!(items@ => items@[i as int]));
                        assert(iv[i as int] == cv_view(items@[i as int]));
                    }
                    let t = self.config_value_to_string(&items[i]);
                    parts.push(t);
                    proof {
                        assert(iv.subrange(0, i + 1).drop_last() =~= iv.subrange(0, i as int));
                        assert(views(parts@) =~= views(parts@.drop_last()).push(parts@.last()@));
                    }
                    i = i + 1;
                }
                let joined = crate::di_validator::join_strings(&parts, ", ");
                let mut r = String::from_str("[");
                r.append(joined.as_str());
                r.append("]");
                proof {
                    assert(iv.subrange(0, iv.len() as int) =~= iv);
                }
                r
            },
            ConfigValue::Table(es) => {
                let ghost ev = cv_view(*value)->Table_0;
                let mut parts: Vec<String> = Vec::new();
                let mut i: usize = 0;
                while i < es.len()
                    invariant
                        *value == ConfigValue::Table(*es),
                        ev == cv_view(*value)->Table_0,
                        i <= es@.len(),
                        views(parts@) == cv_entry_texts(ev.subrange(0, i as int)),
                    decreases es@.len() - i,
                {
                    proof {
                        assert(value->Table_0 == *es);
                        assert(decreases_to!(*value => value->Table_0));
                        assert(decreases_to!(*es => es@));
                        assert(decreases_to!(es@ => es@[i as int]));
                        assert(decreases_to!(es@[i as int] => es@[i as int].value));
                        assert(ev[i as int] == (es@[i as int].key@, cv_view(es@[i as int].value)));
                    }
                    let vt = self.config_value_to_string(&es[i].value);
                    let mut t = es[i].key.clone();
                    t.append(" = ");
                    t.append(vt.as_str());
                    parts.push(t);
                    proof {
                        assert(ev.subrange(0, i + 1).drop_last() =~= ev.subrange(0, i as int));
                        assert(views(parts@) =~= views(parts@.drop_last()).push(parts@.last()@));
                    }
                    i = i + 1;
                }
                let joined = crate::di_validator::join_strings(&parts, ", ");
                let mut r = String::from_str("{ ");
                r.append(joined.as_str());
                r.append(" }");
                proof {
                    assert(ev.subrange(0, ev.len() as int) =~= ev);
                }
                r
            },
        }
    }

    /// How a schema value is written in hover text.
    pub fn value_to_string(&self, value: &Value) -> (r: String)
        ensures
            r@ == schema_value_text(value@),
        decreases *value,
    {
        match value {
            Value::String(s) => quoted(s),
            Value::Integer(i) => crate::text::i64_text(*i),
            Value::Float(f) => f.clone(),
            Value::Boolean(b) => bool_string(*b),
            Value::Array(items) => {
                let ghost iv = value@->Array_0;
                let mut parts: Vec<String> = Vec::new();
                let mut i: usize = 0;
                while i < items.len()
                    invariant
                        *value == Value::Array(*items),
                        iv == value@->Array_0,
                        i <= items@.len(),
                        views(parts@) == schema_value_texts(iv.subrange(0, i as int)),
                    decreases items@.len() - i,
                {
                    proof {
                        assert(value->Array_0 == *items);
                        assert(decreases_to!(*value => value->Array_0));
                        assert(decreases_to!(*items => items@));
                        assert(decreases_to!(items@ => items@[i as int]));
                        assert(iv[i as int] == items@[i as int]@);
                    }
                    let t = self.value_to_string(&items[i]);
                    parts.push(t);
                    proof {
                        assert(iv.subrange(0, i + 1).drop_last() =~= iv.subrange(0, i as int));
                        assert(views(parts@) =~= views(parts@.drop_last()).push(parts@.last()@));
                    }
                    i = i + 1;
                }
                let joined = crate::di_validator::join_strings(&parts, ", ");
                let mut r = String::from_str("[");
                r.append(joined.as_str());
                r.append("]");
                proof {
                    assert(iv.subrange(0, iv.len() as int) =~= iv);
                }
                r
            },
            Value::Table(es) => {
                let ghost ev = value@->Table_0;
                let mut parts: Vec<String> = Vec::new();
                let mut i: usize = 0;
                while i < es.len()
                    invariant
                        *value == Value::Table(*es),
                        ev == value@->Table_0,
                        i <= es@.len(),
                        views(parts@) == schema_entry_texts(ev.subrange(0, i as int)),
                    decreases es@.len() - i,
                {
                    proof {
                        assert(value->Table_0 == *es);
                        assert(decreases_to!(*value => value->Table_0));
                        assert(decreases_to!(*es => es@));
                        assert(decreases_to!(es@ => es@[i as int]));
                        assert(decreases_to!(es@[i as int] => es@[i as int].value));
                        assert(ev[i as int] == (es@[i as int].key@, es@[i as int].value@));
                    }
                    let vt = self.value_to_string(&es[i].value);
                    let mut t = es[i].key.clone();
                    t.append(" = ");
                    t.append(vt.as_str());
                    parts.push(t);
                    proof {
                        assert(ev.subrange(0, i + 1).drop_last() =~= ev.subrange(0, i as int));
                        assert(views(parts@) =~= views(parts@.drop_last()).push(parts@.last()@));
                    }
                    i = i + 1;
                }
                let joined = crate::di_validator::join_strings(&parts, ", ");
                let mut r = String::from_str("{ ");
                r.append(joined.as_str());
                r.append(" }");
                proof {
                    assert(ev.subrange(0, ev.len() as int) =~= ev);
                }
                r
            },
        }
    }
}


// ----- hover -----

/// Markdown shown when hovering, and the range it is about.
#[derive(Debug)]
pub struct Hover {
    pub contents: String,
    pub range: Option<Range>,
}

/// The footer of a property's hover text.
pub open spec fn hover_footer(prefix: Seq<char>) -> Seq<char> {
    "---\n\n"@ + "*配置节*: `["@ + prefix + "]`\n"@ + "*配置文件*: `config/app.toml`\n"@
}

pub open spec fn opt_text(b: bool, t: Seq<char>) -> Seq<char> {
    if b { t } else { seq![] }
}

/// The lines listing a string type's allowed values.
pub open spec fn enum_lines(vs: Seq<Seq<char>>) -> Seq<char>
    decreases vs.len(),
{
    if vs.len() == 0 {
        seq![]
    } else {
        enum_lines(vs.drop_last()) + "- `"@ + vs.last() + "`\n"@
    }
}

/// The bounds section of a type: value range for numbers, length for
/// strings, when some bound is given.
pub open spec fn bounds_text(t: TypeInfoV) -> Seq<char> {
    match t {
        TypeInfoV::Integer { min, max } => opt_text(min is Some || max is Some,
            "**值范围**:\n"@
            + (match min { Some(m) => "- 最小值: `"@ + crate::text::int_text(m as int) + "`\n"@, None => seq![] })
            + (match max { Some(m) => "- 最大值: `"@ + crate::text::int_text(m as int) + "`\n"@, None => seq![] })
            + "\n"@),
        TypeInfoV::Float { min, max } => opt_text(min is Some || max is Some,
            "**值范围**:\n"@
            + (match min { Some(m) => "- 最小值: `"@ + m + "`\n"@, None => seq![] })
            + (match max { Some(m) => "- 最大值: `"@ + m + "`\n"@, None => seq![] })
            + "\n"@),
        TypeInfoV::Str { min_length, max_length, .. } => opt_text(min_length is Some || max_length is Some,
            "**长度限制**:\n"@
            + (match min_length { Some(m) => "- 最小长度: `"@ + nat_digits(m as nat) + "`\n"@, None => seq![] })
            + (match max_length { Some(m) => "- 最大长度: `"@ + nat_digits(m as nat) + "`\n"@, None => seq![] })
            + "\n"@),
        _ => seq![],
    }
}

pub open spec fn title_part(prefix: Seq<char>, key: Seq<char>) -> Seq<char> {
    "# 配置项: `"@ + prefix + "."@ + key + "`\n\n"@
}

pub open spec fn description_part(sp: SchemaPropertyV) -> Seq<char> {
    opt_text(sp.description.len() > 0, sp.description + "\n\n"@)
}

pub open spec fn type_part(sp: SchemaPropertyV) -> Seq<char> {
    "**类型**: "@ + type_info_text(sp.type_info) + "\n\n"@
}

pub open spec fn current_part(p: PropertyV) -> Seq<char> {
    "**当前值**: `"@ + cv_text(p.value) + "`\n\n"@
}

pub open spec fn default_part(sp: SchemaPropertyV) -> Seq<char> {
    match sp.default {
        Some(d) => "**默认值**: `"@ + schema_value_text(d) + "`\n\n"@,
        None => seq![],
    }
}

pub open spec fn required_part(sp: SchemaPropertyV) -> Seq<char> {
    opt_text(sp.required, "**必需**: 是\n\n"@)
}

pub open spec fn enum_part(sp: SchemaPropertyV) -> Seq<char> {
    match sp.type_info {
        TypeInfoV::Str { enum_values: Some(vs), .. } => "**允许的值**:\n"@ + enum_lines(vs) + "\n"@,
        _ => seq![],
    }
}

pub open spec fn example_part(sp: SchemaPropertyV) -> Seq<char> {
    match sp.example {
        Some(e) => "**示例**:\n\n"@ + "```toml\n"@ + e + "\n```\n\n"@,
        None => seq![],
    }
}

pub open spec fn deprecated_part(sp: SchemaPropertyV) -> Seq<char> {
    match sp.deprecated {
        Some(m) => "⚠️ **已废弃**: "@ + m + "\n\n"@,
        None => seq![],
    }
}

/// The hover text of a property the schema describes: title, description,
/// type, current value, default, whether required, allowed values, bounds,
/// example, deprecation, and where it is configured.
pub open spec fn property_hover_text(prefix: Seq<char>, key: Seq<char>, p: PropertyV, sp: SchemaPropertyV) -> Seq<char> {
    title_part(prefix, key) + description_part(sp) + type_part(sp) + current_part(p) + default_part(sp) + required_part(sp)
        + enum_part(sp) + bounds_text(sp.type_info) + example_part(sp) + deprecated_part(sp) + hover_footer(prefix)
}

/// The hover text of a property the schema does not describe.
pub open spec fn basic_hover_text(prefix: Seq<char>, key: Seq<char>, p: PropertyV, is_defined: bool) -> Seq<char> {
    "# 配置项: `"@ + prefix + "."@ + key + "`\n\n"@
    + "**当前值**: `"@ + cv_text(p.value) + "`\n\n"@
    + "**类型**: "@ + value_type_text(p.value) + "\n\n"@
    + opt_text(!is_defined, "⚠️ **警告**: 此配置项未在 Schema 中定义\n\n"@)
    + hover_footer(prefix)
}

/// The hover text of an environment variable reference, with the
/// variable's current value if it is set.
pub open spec fn env_hover_text(name: Seq<char>, default: Option<Seq<char>>, current: Option<Seq<char>>) -> Seq<char> {
    "# 环境变量\n\n"@
    + "**变量名**: `"@ + name + "`\n\n"@
    + (match default { Some(d) => "**默认值**: `"@ + d + "`\n\n"@, None => seq![] })
    + (match current { Some(v) => "**当前值**: `"@ + v + "`\n\n"@, None => "**当前值**: *未设置*\n\n"@ })
    + "**说明**:\n\n"@
    + "环境变量插值允许在配置文件中引用系统环境变量。\n\n"@
    + "**格式**:\n"@
    + "- `${VAR}` - 引用环境变量，如果未设置则报错\n"@
    + "- `${VAR:default}` - 引用环境变量，如果未设置则使用默认值\n"@
}

/// The value of the first variable named `name` in `env`.
pub open spec fn env_lookup(env: Seq<(String, String)>, name: Seq<char>) -> Option<Seq<char>>
    decreases env.len(),
{
    if env.len() == 0 {
        None
    } else if env[0].0@ == name {
        Some(env[0].1@)
    } else {
        env_lookup(env.drop_first(), name)
    }
}

/// The first reference whose range holds `pos`.
pub open spec fn env_var_at(vs: Seq<EnvVarReference>, pos: Position) -> Option<EnvVarReference>
    decreases vs.len(),
{
    if vs.len() == 0 {
        None
    } else if spec_position_in_range(pos, vs[0].range) {
        Some(vs[0])
    } else {
        env_var_at(vs.drop_first(), pos)
    }
}

/// The first property, section by section, whose range holds `pos`: the
/// section's prefix, the property's name and the property.
pub open spec fn props_at(ps: Seq<(Seq<char>, PropertyV)>, pos: Position) -> Option<(Seq<char>, PropertyV)>
    decreases ps.len(),
{
    if ps.len() == 0 {
        None
    } else if spec_position_in_range(pos, ps[0].1.range) {
        Some(ps[0])
    } else {
        props_at(ps.drop_first(), pos)
    }
}

pub open spec fn property_at(ss: Seq<SectionV>, pos: Position) -> Option<(Seq<char>, Seq<char>, PropertyV)>
    decreases ss.len(),
{
    if ss.len() == 0 {
        None
    } else {
        match props_at(ss[0].properties, pos) {
            Some((name, p)) => Some((ss[0].prefix, name, p)),
            None => property_at(ss.drop_first(), pos),
        }
    }
}

/// The hover of a property: detailed when the schema describes it,
/// basic otherwise.
pub open spec fn property_hover(schema: SchemaProvider, prefix: Seq<char>, name: Seq<char>, p: PropertyV) -> Seq<char> {
    match plugin_properties(schema, prefix) {
        Some(sps) => match schema_prop(sps, name) {
            Some(sp) => property_hover_text(prefix, name, p, sp),
            None => basic_hover_text(prefix, name, p, spec_has_property_in(schema, prefix, name)),
        },
        None => basic_hover_text(prefix, name, p, spec_has_property_in(schema, prefix, name)),
    }
}

pub open spec fn spec_has_property_in(schema: SchemaProvider, prefix: Seq<char>, name: Seq<char>) -> bool {
    match schema.plugin(prefix) {
        Some(s) => crate::schema::spec_has_property(s, name),
        None => false,
    }
}

/// What hovering at `pos` shows: an environment variable reference first,
/// then a property; nothing elsewhere.
pub open spec fn spec_hover(schema: SchemaProvider, doc: TomlDocument, pos: Position, env: Seq<(String, String)>) -> Option<(Seq<char>, Range)> {
    match env_var_at(doc.env_vars@, pos) {
        Some(v) => Some((env_hover_text(v.name@, crate::config::opt_view(v.default), env_lookup(env, v.name@)), v.range)),
        None => match property_at(sections_view(doc.config_sections@), pos) {
            Some((prefix, name, p)) => Some((property_hover(schema, prefix, name, p), p.range)),
            None => None,
        },
    }
}


fn title_text(prefix: &str, key: &str) -> (r: String)
    ensures
        r@ == title_part(prefix@, key@),
{
    let mut t = String::from_str("# 配置项: `");
    t.append(prefix);
    t.append(".");
    t.append(key);
    t.append("`\n\n");
    t
}

fn description_text(schema: &PropertySchema) -> (r: String)
    ensures
        r@ == description_part(schema@),
{
    if schema.description.as_str().unicode_len() > 0 {
        let mut t = schema.description.clone();
        t.append("\n\n");
        t
    } else {
        String::new()
    }
}

fn required_text(schema: &PropertySchema) -> (r: String)
    ensures
        r@ == required_part(schema@),
{
    if schema.required {
        String::from_str("**必需**: 是\n\n")
    } else {
        String::new()
    }
}

fn enum_text(schema: &PropertySchema) -> (r: String)
    ensures
        r@ == enum_part(schema@),
{
    if let TypeInfo::String { enum_values: Some(vs), .. } = &schema.type_info {
        let mut t = String::from_str("**允许的值**:\n");
        t.append(enum_lines_text(vs).as_str());
        t.append("\n");
        t
    } else {
        String::new()
    }
}

fn example_text(schema: &PropertySchema) -> (r: String)
    ensures
        r@ == example_part(schema@),
{
    match &schema.example {
        Some(e) => {
            let mut t = String::from_str("**示例**:\n\n");
            t.append("```toml\n");
            t.append(e.as_str());
            t.append("\n```\n\n");
            t
        },
        None => String::new(),
    }
}

fn deprecated_text(schema: &PropertySchema) -> (r: String)
    ensures
        r@ == deprecated_part(schema@),
{
    match &schema.deprecated {
        Some(m) => {
            let mut t = String::from_str("⚠️ **已废弃**: ");
            t.append(m.as_str());
            t.append("\n\n");
            t
        },
        None => String::new(),
    }
}

fn footer_text(prefix: &str) -> (r: String)
    ensures
        r@ == hover_footer(prefix@),
{
    let mut t = String::from_str("---\n\n");
    t.append("*配置节*: `[");
    t.append(prefix);
    t.append("]`\n");
    t.append("*配置文件*: `config/app.toml`\n");
    t
}

fn enum_lines_text(vs: &Vec<String>) -> (r: String)
    ensures
        r@ == enum_lines(views(vs@)),
{
    let mut t = String::new();
    let mut i: usize = 0;
    while i < vs.len()
        invariant
            i <= vs@.len(),
            t@ == enum_lines(views(vs@).subrange(0, i as int)),
        decreases vs@.len() - i,
    {
        proof {
            assert(views(vs@).subrange(0, i + 1).drop_last() =~= views(vs@).subrange(0, i as int));
            assert(views(vs@).subrange(0, i + 1).last() == vs@[i as int]@);
        }
        t.append("- `");
        t.append(vs[i].as_str());
        t.append("`\n");
        i = i + 1;
    }
    proof {
        assert(views(vs@).subrange(0, vs@.len() as int) =~= views(vs@));
    }
    t
}

fn bounds_section(t: &TypeInfo) -> (r: String)
    ensures
        r@ == bounds_text(t@),
{
    match t {
        TypeInfo::Integer { min, max } => {
            let mut s = String::new();
            if min.is_some() || max.is_some() {
                s.append("**值范围**:\n");
                if let Some(m) = min {
                    s.append("- 最小值: `");
                    let mt = crate::text::i64_text(*m);
                    s.append(mt.as_str());
                    s.append("`\n");
                }
                if let Some(m) = max {
                    s.append("- 最大值: `");
                    let mt = crate::text::i64_text(*m);
                    s.append(mt.as_str());
                    s.append("`\n");
                }
                s.append("\n");
            }
            s
        },
        TypeInfo::Float { min, max } => {
            let mut s = String::new();
            if min.is_some() || max.is_some() {
                s.append("**值范围**:\n");
                if let Some(m) = min {
                    s.append("- 最小值: `");
                    s.append(m.as_str());
                    s.append("`\n");
                }
                if let Some(m) = max {
                    s.append("- 最大值: `");
                    s.append(m.as_str());
                    s.append("`\n");
                }
                s.append("\n");
            }
            s
        },
        TypeInfo::String { min_length, max_length, .. } => {
            let mut s = String::new();
            if min_length.is_some() || max_length.is_some() {
                s.append("**长度限制**:\n");
                if let Some(m) = min_length {
                    s.append("- 最小长度: `");
                    let mt = crate::text::u64_text(*m as u64);
                    s.append(mt.as_str());
                    s.append("`\n");
                }
                if let Some(m) = max_length {
                    s.append("- 最大长度: `");
                    let mt = crate::text::u64_text(*m as u64);
                    s.append(mt.as_str());
                    s.append("`\n");
                }
                s.append("\n");
            }
            s
        },
        _ => String::new(),
    }
}

impl TomlAnalyzer {
    /// The hover of a property the schema describes.
    fn create_property_hover(&self, prefix: &str, key: &str, property: &ConfigProperty, schema: &PropertySchema) -> (r: Hover)
        ensures
            r.contents@ == property_hover_text(prefix@, key@, prop_view(*property), schema@),
            r.range == Some(property.range),
    {
        let mut t = title_text(prefix, key);
        t.append(description_text(schema).as_str());
        t.append(self.type_text(schema).as_str());
        t.append(self.current_text(property).as_str());
        t.append(self.default_text(schema).as_str());
        t.append(required_text(schema).as_str());
        t.append(enum_text(schema).as_str());
        t.append(bounds_section(&schema.type_info).as_str());
        t.append(example_text(schema).as_str());
        t.append(deprecated_text(schema).as_str());
        t.append(footer_text(prefix).as_str());
        Hover { contents: t, range: Some(property.range) }
    }

    fn type_text(&self, schema: &PropertySchema) -> (r: String)
        ensures
            r@ == type_part(schema@),
    {
        let mut t = String::from_str("**类型**: ");
        t.append(self.type_info_to_string(&schema.type_info).as_str());
        t.append("\n\n");
        t
    }

    fn current_text(&self, property: &ConfigProperty) -> (r: String)
        ensures
            r@ == current_part(prop_view(*property)),
    {
        let mut t = String::from_str("**当前值**: `");
        t.append(self.config_value_to_string(&property.value).as_str());
        t.append("`\n\n");
        t
    }

    fn default_text(&self, schema: &PropertySchema) -> (r: String)
        ensures
            r@ == default_part(schema@),
    {
        match &schema.default {
            Some(d) => {
                let mut t = String::from_str("**默认值**: `");
                t.append(self.value_to_string(d).as_str());
                t.append("`\n\n");
                t
            },
            None => String::new(),
        }
    }

    /// The hover of a property the schema does not describe.
    fn create_basic_property_hover(&self, prefix: &str, key: &str, property: &ConfigProperty, is_defined: bool) -> (r: Hover)
        ensures
            r.contents@ == basic_hover_text(prefix@, key@, prop_view(*property), is_defined),
            r.range == Some(property.range),
    {
        let mut t = String::from_str("# 配置项: `");
        t.append(prefix);
        t.append(".");
        t.append(key);
        t.append("`\n\n");
        t.append("**当前值**: `");
        let cur = self.config_value_to_string(&property.value);
        t.append(cur.as_str());
        t.append("`\n\n");
        t.append("**类型**: ");
        let ty = self.config_value_type_name(&property.value);
        t.append(ty.as_str());
        t.append("\n\n");
        if !is_defined {
            t.append("⚠️ **警告**: 此配置项未在 Schema 中定义\n\n");
        }
        let footer = footer_text(prefix);
        t.append(footer.as_str());
        proof {
            assert(t@ =~= basic_hover_text(prefix@, key@, prop_view(*property), is_defined));
        }
        Hover { contents: t, range: Some(property.range) }
    }
}


fn lookup_env<'a>(env: &'a Vec<(String, String)>, name: &str) -> (r: Option<&'a String>)
    ensures
        match r {
            Some(v) => env_lookup(env@, name@) == Some(v@),
            None => env_lookup(env@, name@) is None,
        },
{
    let mut i: usize = 0;
    proof {
        assert(env@.subrange(0, env@.len() as int) =~= env@);
    }
    while i < env.len()
        invariant
            i <= env@.len(),
            env_lookup(env@, name@) == env_lookup(env@.subrange(i as int, env@.len() as int), name@),
        decreases env@.len() - i,
    {
        proof {
            let sub = env@.subrange(i as int, env@.len() as int);
            assert(sub.drop_first() =~= env@.subrange(i + 1, env@.len() as int));
            assert(sub[0] == env@[i as int]);
        }
        if str_eq(env[i].0.as_str(), name) {
            return Some(&env[i].1);
        }
        i = i + 1;
    }
    None
}

impl TomlAnalyzer {
    /// The hover of the environment variable reference at `position`, with
    /// the variable's value in `env` (a snapshot of the environment).
    fn hover_env_var(&self, doc: &TomlDocument, position: Position, env: &Vec<(String, String)>) -> (r: Option<Hover>)
        ensures
            match env_var_at(doc.env_vars@, position) {
                Some(v) => r matches Some(h) && h.contents@ == env_hover_text(v.name@, crate::config::opt_view(v.default), env_lookup(env@, v.name@))
                    && h.range == Some(v.range),
                None => r is None,
            },
    {
        let mut i: usize = 0;
        proof {
            assert(doc.env_vars@.subrange(0, doc.env_vars@.len() as int) =~= doc.env_vars@);
        }
        while i < doc.env_vars.len()
            invariant
                i <= doc.env_vars@.len(),
                env_var_at(doc.env_vars@, position) == env_var_at(doc.env_vars@.subrange(i as int, doc.env_vars@.len() as int), position),
            decreases doc.env_vars@.len() - i,
        {
            proof {
                let sub = doc.env_vars@.subrange(i as int, doc.env_vars@.len() as int);
                assert(sub.drop_first() =~= doc.env_vars@.subrange(i + 1, doc.env_vars@.len() as int));
                assert(sub[0] == doc.env_vars@[i as int]);
            }
            let v = &doc.env_vars[i];
            if position_in_range(position, v.range) {
                let mut t = String::from_str("# 环境变量\n\n");
                t.append("**变量名**: `");
                t.append(v.name.as_str());
                t.append("`\n\n");
                if let Some(d) = &v.default {
                    t.append("**默认值**: `");
                    t.append(d.as_str());
                    t.append("`\n\n");
                }
                match lookup_env(env, v.name.as_str()) {
                    Some(val) => {
                        t.append("**当前值**: `");
                        t.append(val.as_str());
                        t.append("`\n\n");
                    },
                    None => {
                        t.append("**当前值**: *未设置*\n\n");
                    },
                }
                t.append("**说明**:\n\n");
                t.append("环境变量插值允许在配置文件中引用系统环境变量。\n\n");
                t.append("**格式**:\n");
                t.append("- `${VAR}` - 引用环境变量，如果未设置则报错\n");
                t.append("- `${VAR:default}` - 引用环境变量，如果未设置则使用默认值\n");
                proof {
                    assert(t@ =~= env_hover_text(v.name@, crate::config::opt_view(v.default), env_lookup(env@, v.name@)));
                }
                return Some(Hover { contents: t, range: Some(v.range) });
            }
            i = i + 1;
        }
        None
    }

    /// The hover of the property at `position`.
    fn hover_config_property(&self, doc: &TomlDocument, position: Position) -> (r: Option<Hover>)
        ensures
            match property_at(sections_view(doc.config_sections@), position) {
                Some((prefix, name, p)) => r matches Some(h) && h.contents@ == property_hover(self.schema(), prefix, name, p)
                    && h.range == Some(p.range),
                None => r is None,
            },
    {
        let ghost sv = sections_view(doc.config_sections@);
        let mut si: usize = 0;
        proof {
            assert(sv.subrange(0, sv.len() as int) =~= sv);
        }
        while si < doc.config_sections.len()
            invariant
                sv == sections_view(doc.config_sections@),
                si <= sv.len(),
                property_at(sv, position) == property_at(sv.subrange(si as int, sv.len() as int), position),
            decreases sv.len() - si,
        {
            let section = &doc.config_sections[si];
            let ghost sub = sv.subrange(si as int, sv.len() as int);
            let ghost pv = props_view(section.properties@);
            proof {
                assert(sub.drop_first() =~= sv.subrange(si + 1, sv.len() as int));
                assert(sub[0] == section_view(*section));
                assert(pv.subrange(0, pv.len() as int) =~= pv);
            }
            let mut pi: usize = 0;
            while pi < section.properties.len()
                invariant
                    pv == props_view(section.properties@),
                    sv == sections_view(doc.config_sections@),
                    si < sv.len(),
                    sub == sv.subrange(si as int, sv.len() as int),
                    sub[0] == section_view(*section),
                    property_at(sv, position) == property_at(sub, position),
                    pi <= pv.len(),
                    props_at(pv, position) == props_at(pv.subrange(pi as int, pv.len() as int), position),
                decreases pv.len() - pi,
            {
                let ghost psub = pv.subrange(pi as int, pv.len() as int);
                proof {
                    assert(psub.drop_first() =~= pv.subrange(pi + 1, pv.len() as int));
                    assert(psub[0] == pv[pi as int]);
                    assert(pv[pi as int] == (section.properties@[pi as int].0@, prop_view(section.properties@[pi as int].1)));
                }
                let (name, property) = (&section.properties[pi].0, &section.properties[pi].1);
                if position_in_range(position, property.range) {
                    let prefix = section.prefix.as_str();
                    let detailed = match self.schema_provider.get_plugin(prefix) {
                        Some(plugin) => match find_schema_prop(&plugin.properties, name.as_str()) {
                            Some(ps) => Some(self.create_property_hover(prefix, name.as_str(), property, ps)),
                            None => None,
                        },
                        None => None,
                    };
                    match detailed {
                        Some(h) => {
                            return Some(h);
                        },
                        None => {
                            let is_defined = self.schema_provider.has_property(prefix, name.as_str());
                            return Some(self.create_basic_property_hover(prefix, name.as_str(), property, is_defined));
                        },
                    }
                }
                pi = pi + 1;
            }
            si = si + 1;
        }
        None
    }

    /// What hovering at `position` shows: an environment variable
    /// reference first (with its value in `env`, a snapshot of the
    /// environment), then a property.
    pub fn hover(&self, doc: &TomlDocument, position: Position, env: &Vec<(String, String)>) -> (r: Option<Hover>)
        ensures
            match spec_hover(self.schema(), *doc, position, env@) {
                Some((text, range)) => r matches Some(h) && h.contents@ == text && h.range == Some(range),
                None => r is None,
            },
    {
        match self.hover_env_var(doc, position, env) {
            Some(h) => Some(h),
            None => self.hover_config_property(doc, position),
        }
    }
}

} // verus!
