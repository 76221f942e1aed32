//! The configuration sections read from a file form a map: each prefix
//! names one section, and each section names each of its properties once.

use vstd::prelude::*;
use crate::lsp::Range;
use crate::toml_tree::{TomlEntry, TomlNode, TomlValue};
use crate::toml_analyzer::{
    PropertyV, SectionV, prop_upsert, props_extend, entries_properties, node_value, span_range, add_section,
    section_index, top_prefix, props_table, entries_sections, tree_sections, node_properties,
};

verus! {

/// Each property is named once.
pub open spec fn prop_names_distinct(ps: Seq<(Seq<char>, PropertyV)>) -> bool {
    forall|a: int, b: int| 0 <= a < b < ps.len() ==> (#[trigger] ps[a]).0 != (#[trigger] ps[b]).0
}

/// Each section has its own prefix, and names each of its properties once.
pub open spec fn sections_distinct(ss: Seq<SectionV>) -> bool {
    &&& forall|a: int, b: int| 0 <= a < b < ss.len() ==> (#[trigger] ss[a]).prefix != (#[trigger] ss[b]).prefix
    &&& forall|i: int| 0 <= i < ss.len() ==> prop_names_distinct(#[trigger] ss[i].properties)
}

proof fn lemma_prop_upsert_distinct(ps: Seq<(Seq<char>, PropertyV)>, p: (Seq<char>, PropertyV))
    requires
        prop_names_distinct(ps),
    ensures
        prop_names_distinct(prop_upsert(ps, p)),
{
    let r = prop_upsert(ps, p);
    if exists|i: int| 0 <= i < ps.len() && ps[i].0 == p.0 {
        let i = choose|i: int| 0 <= i < ps.len() && ps[i].0 == p.0 && forall|j: int| 0 <= j < i ==> ps[j].0 != p.0;
        assert forall|a: int, b: int| 0 <= a < b < r.len() implies (#[trigger] r[a]).0 != (#[trigger] r[b]).0 by {
            assert(r[a].0 == ps[a].0 && r[b].0 == ps[b].0);
        }
    } else {
        assert forall|a: int, b: int| 0 <= a < b < r.len() implies (#[trigger] r[a]).0 != (#[trigger] r[b]).0 by {
            if b == ps.len() {
                assert(r[a] == ps[a]);
            } else {
                assert(r[a] == ps[a] && r[b] == ps[b]);
            }
        }
    }
}

proof fn lemma_props_extend_distinct(ps: Seq<(Seq<char>, PropertyV)>, more: Seq<(Seq<char>, PropertyV)>)
    requires
        prop_names_distinct(ps),
    ensures
        prop_names_distinct(props_extend(ps, more)),
    decreases more.len(),
{
    if more.len() > 0 {
        lemma_props_extend_distinct(ps, more.drop_last());
        lemma_prop_upsert_distinct(props_extend(ps, more.drop_last()), more.last());
    }
}

proof fn lemma_entries_properties_distinct(es: Seq<TomlEntry>, content: Seq<char>)
    ensures
        prop_names_distinct(entries_properties(es, content)),
    decreases es.len(),
{
    if es.len() > 0 {
        lemma_entries_properties_distinct(es.drop_last(), content);
        lemma_prop_upsert_distinct(
            entries_properties(es.drop_last(), content),
            (es.last().key@, PropertyV { key: es.last().key@, value: node_value(es.last().value), range: span_range(es.last().value.span, content) }),
        );
    }
}

proof fn lemma_add_section_distinct(ss: Seq<SectionV>, key: Seq<char>, props: Seq<(Seq<char>, PropertyV)>, range: Range)
    requires
        sections_distinct(ss),
        prop_names_distinct(props),
    ensures
        sections_distinct(add_section(ss, key, props, range)),
{
    let prefix = top_prefix(key);
    let nested = (key.subrange(prefix.len() as int + 1, key.len() as int), PropertyV { key, value: props_table(props), range });
    let r = add_section(ss, key, props, range);
    match section_index(ss, prefix) {
        Some(i) => {
            assert(0 <= i < ss.len());
            assert(prop_names_distinct(ss[i].properties));
            lemma_prop_upsert_distinct(ss[i].properties, nested);
            lemma_props_extend_distinct(ss[i].properties, props);
            assert forall|a: int, b: int| 0 <= a < b < r.len() implies (#[trigger] r[a]).prefix != (#[trigger] r[b]).prefix by {
                assert(r[a].prefix == ss[a].prefix && r[b].prefix == ss[b].prefix);
            }
            assert forall|j: int| 0 <= j < r.len() implies prop_names_distinct(#[trigger] r[j].properties) by {
                if j != i {
                    assert(r[j] == ss[j]);
                }
            }
        },
        None => {
            assert forall|a: int, b: int| 0 <= a < b < r.len() implies (#[trigger] r[a]).prefix != (#[trigger] r[b]).prefix by {
                if b == ss.len() {
                    assert(r[a] == ss[a]);
                } else {
                    assert(r[a] == ss[a] && r[b] == ss[b]);
                }
            }
            assert forall|j: int| 0 <= j < r.len() implies prop_names_distinct(#[trigger] r[j].properties) by {
                if j < ss.len() {
                    assert(r[j] == ss[j]);
                }
            }
        },
    }
}

proof fn lemma_entries_sections_distinct(es: Seq<TomlEntry>, content: Seq<char>)
    ensures
        sections_distinct(entries_sections(es, content)),
    decreases es.len(),
{
    if es.len() > 0 {
        lemma_entries_sections_distinct(es.drop_last(), content);
        let e = es.last();
        if e.value.value is Table {
            if let TomlValue::Table(inner) = e.value.value {
                lemma_entries_properties_distinct(inner@, content);
            }
            lemma_add_section_distinct(entries_sections(es.drop_last(), content), e.key@, node_properties(e.value, content),
                span_range(e.value.span, content));
        }
    }
}

/// The sections read from a configuration file form a map: each prefix
/// names one section, and each section names each of its properties once.
pub proof fn law_sections_distinct(root: TomlNode, content: Seq<char>)
    ensures
        sections_distinct(tree_sections(root, content)),
{
    if let TomlValue::Table(es) = root.value {
        lemma_entries_sections_distinct(es@, content);
    }
}

} // verus!
