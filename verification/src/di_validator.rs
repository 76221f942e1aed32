//! Validation of dependency injection: injected components must be
//! registered with the right type, named components must exist, injected
//! configuration must have a section, and services must not depend on each
//! other in a cycle.

use vstd::prelude::*;
use crate::index::IndexManager;
use crate::lsp::{Diagnostic, DiagnosticV, DiagnosticSeverity, Range, server_diagnostic, diagnostics_view};
use crate::macros::{Field, InjectMacro, InjectType, RustDocument, ServiceMacro, SummerMacro};
use crate::text::{contains_seq, contains_str, is_suffix, std_is_uppercase, std_lowercase_first, str_eq, views};
use crate::toml_analyzer::{TomlDocument, section_lookup};

verus! {

/// Validates the dependency injection of services against an index.
pub struct DependencyInjectionValidator {
    index_manager: IndexManager,
}

/// A service found in a document: its macro and the document's URI.
pub struct ServiceInfo<'a> {
    pub uri: &'a String,
    pub service: &'a ServiceMacro,
}

// ----- configuration prefixes -----

/// The characters of a prefix derived from a type name without its
/// `Config` suffix: each uppercase letter after the first character is
/// preceded by `-`, and every character is lowered.
pub open spec fn kebab_lower(p: Seq<char>) -> Seq<char>
    decreases p.len(),
{
    if p.len() == 0 {
        seq![]
    } else {
        let c = p.last();
        kebab_lower(p.drop_last()) + (if p.len() > 1 && std_is_uppercase(c) {
            seq!['-', std_lowercase_first(c)]
        } else {
            seq![std_lowercase_first(c)]
        })
    }
}

/// The configuration prefix of a type: `UserProfileConfig` gives
/// `user-profile`.
pub open spec fn spec_config_prefix(ty: Seq<char>) -> Seq<char> {
    let p = if is_suffix("Config"@, ty) {
        ty.subrange(0, ty.len() - "Config"@.len())
    } else {
        ty
    };
    kebab_lower(p)
}

// ----- diagnostics of one injected field -----

/// `parts` joined with `sep`.
pub open spec fn join(parts: Seq<Seq<char>>, sep: Seq<char>) -> Seq<char>
    decreases parts.len(),
{
    if parts.len() == 0 {
        seq![]
    } else if parts.len() == 1 {
        parts[0]
    } else {
        join(parts.drop_last(), sep) + sep + parts.last()
    }
}

/// The hint listing other components of a type; empty when there are none.
pub open spec fn suggestion(ty: Seq<char>, available: Seq<Seq<char>>) -> Seq<char> {
    if available.len() == 0 {
        seq![]
    } else {
        "\n可用的 "@ + ty + " 类型组件: "@ + join(available, ", "@)
    }
}

/// What a component injection is checked for: the component it names (its
/// own name, or else the field's type) must be registered with the field's
/// type, or the type must at least exist; a name given explicitly must be
/// registered with the field's type.
pub open spec fn spec_component_diagnostics(index: IndexManager, field: Field, inject: InjectMacro, range: Range) -> Seq<DiagnosticV> {
    let ty = field.ty_name@;
    let name = match inject.component_name {
        Some(n) => n@,
        None => ty,
    };
    let first = match index.component_type(name) {
        Some(t) => if t != ty {
            seq![server_diagnostic(range, DiagnosticSeverity::Warning, "component-type-mismatch"@,
                "组件 '"@ + name + "' 的类型不匹配。期望类型: "@ + ty + "，实际类型: "@ + t)]
        } else {
            seq![]
        },
        None => if !index.has_symbol(ty) {
            seq![server_diagnostic(range, DiagnosticSeverity::Error, "component-type-not-found"@,
                "组件类型 '"@ + ty + "' 不存在。请确保该类型已定义。"@)]
        } else {
            seq![server_diagnostic(range, DiagnosticSeverity::Error, "component-not-registered"@,
                "组件 '"@ + name + "' 未注册。请确保该组件已通过插件注册。"@)]
        },
    };
    let second = match inject.component_name {
        Some(n) => match index.component_type(n@) {
            Some(t) => if t != ty {
                seq![server_diagnostic(range, DiagnosticSeverity::Error, "component-name-mismatch"@,
                    "组件名称 '"@ + n@ + "' 的类型不匹配。期望类型: "@ + ty + "，实际类型: "@ + t + suggestion(ty, seq![]))]
            } else {
                seq![]
            },
            None => seq![server_diagnostic(range, DiagnosticSeverity::Error, "component-name-not-found"@,
                "组件名称 '"@ + n@ + "' 不存在。"@ + suggestion(ty, seq![]))],
        },
        None => seq![],
    };
    first + second
}

/// An injected component that is not registered is always reported, by
/// one error that says why: its type does not exist, or the type exists
/// but no component is registered under the name. A component registered
/// under the field's own type, injected without a name, is not reported;
/// one registered with another type is warned of; a name given explicitly
/// that is not registered is an error.
pub proof fn law_unregistered_component_reported(index: IndexManager, field: Field, inject: InjectMacro, range: Range)
    ensures
        ({
            let ty = field.ty_name@;
            let name = match inject.component_name {
                Some(n) => n@,
                None => ty,
            };
            let ds = spec_component_diagnostics(index, field, inject, range);
            &&& index.component_type(name) is None ==> {
                &&& ds.len() >= 1
                &&& ds[0].severity == Some(DiagnosticSeverity::Error)
                &&& ds[0].range == range
                &&& ds[0].code == Some(if index.has_symbol(ty) { "component-not-registered"@ } else { "component-type-not-found"@ })
                &&& inject.component_name is None ==> ds.len() == 1
            }
            &&& index.component_type(name) is Some && index.component_type(name)->Some_0 != ty ==> (ds.len() >= 1
                && ds[0].severity == Some(DiagnosticSeverity::Warning) && ds[0].code == Some("component-type-mismatch"@))
            &&& inject.component_name is Some && index.component_type(inject.component_name->Some_0@) is None ==> (ds.len() >= 1
                && ds.last().severity == Some(DiagnosticSeverity::Error) && ds.last().code == Some("component-name-not-found"@))
            &&& index.component_type(ty) == Some(ty) && inject.component_name is None ==> ds.len() == 0
        }),
{
}

/// Whether some document has a section with prefix `prefix`.
pub open spec fn any_section(docs: Seq<(String, TomlDocument)>, prefix: Seq<char>) -> bool {
    exists|i: int| 0 <= i < docs.len() && #[trigger] section_lookup(docs[i].1.config_sections@, prefix) is Some
}

/// What a configuration injection is checked for: some configuration file
/// must have the section of the field type's prefix.
pub open spec fn spec_config_diagnostics(docs: Seq<(String, TomlDocument)>, field: Field, range: Range) -> Seq<DiagnosticV> {
    let p = spec_config_prefix(field.ty_name@);
    if any_section(docs, p) {
        seq![]
    } else {
        seq![server_diagnostic(range, DiagnosticSeverity::Error, "config-not-found"@,
            "配置项 '"@ + p + "' 不存在。请在配置文件中添加 ["@ + p + "] 配置节。"@)]
    }
}

pub open spec fn spec_field_diagnostics(index: IndexManager, docs: Seq<(String, TomlDocument)>, field: Field, range: Range) -> Seq<DiagnosticV> {
    match field.inject {
        Some(inject) => match inject.inject_type {
            InjectType::Component => spec_component_diagnostics(index, field, inject, range),
            InjectType::Config => spec_config_diagnostics(docs, field, range),
        },
        None => seq![],
    }
}

pub open spec fn spec_fields_diagnostics(index: IndexManager, docs: Seq<(String, TomlDocument)>, fields: Seq<Field>, range: Range) -> Seq<DiagnosticV>
    decreases fields.len(),
{
    if fields.len() == 0 {
        seq![]
    } else {
        spec_fields_diagnostics(index, docs, fields.drop_last(), range) + spec_field_diagnostics(index, docs, fields.last(), range)
    }
}

pub open spec fn spec_services_diagnostics(index: IndexManager, docs: Seq<(String, TomlDocument)>, services: Seq<ServiceMacro>) -> Seq<DiagnosticV>
    decreases services.len(),
{
    if services.len() == 0 {
        seq![]
    } else {
        spec_services_diagnostics(index, docs, services.drop_last()) + spec_fields_diagnostics(
            index,
            docs,
            services.last().fields@,
            services.last().range,
        )
    }
}

// ----- the services of the documents -----

/// The position of the first service named `name`.
pub open spec fn service_position(ss: Seq<ServiceMacro>, name: Seq<char>) -> Option<int>
    decreases ss.len(),
{
    if ss.len() == 0 {
        None
    } else {
        match service_position(ss.drop_last(), name) {
            Some(i) => Some(i),
            None => if ss.last().struct_name@ == name {
                Some(ss.len() - 1)
            } else {
                None
            },
        }
    }
}

/// Adds a service, replacing one of the same name in its place.
pub open spec fn upsert_service(ss: Seq<ServiceMacro>, s: ServiceMacro) -> Seq<ServiceMacro> {
    match service_position(ss, s.struct_name@) {
        Some(i) => ss.update(i, s),
        None => ss.push(s),
    }
}

/// The services of a document's macros added to `ss`.
pub open spec fn services_of_macros(ss: Seq<ServiceMacro>, ms: Seq<SummerMacro>) -> Seq<ServiceMacro>
    decreases ms.len(),
{
    if ms.len() == 0 {
        ss
    } else {
        let before = services_of_macros(ss, ms.drop_last());
        match ms.last() {
            SummerMacro::DeriveService(s) => upsert_service(before, s),
            _ => before,
        }
    }
}

/// The services of all documents, in order of first appearance; a later
/// service of the same name replaces an earlier one in its place.
pub open spec fn spec_services(docs: Seq<RustDocument>) -> Seq<ServiceMacro>
    decreases docs.len(),
{
    if docs.len() == 0 {
        seq![]
    } else {
        services_of_macros(spec_services(docs.drop_last()), docs.last().macros@)
    }
}

/// Each service has its own name.
pub open spec fn service_names_distinct(ss: Seq<ServiceMacro>) -> bool {
    forall|a: int, b: int| 0 <= a < b < ss.len() ==> (#[trigger] ss[a]).struct_name@ != (#[trigger] ss[b]).struct_name@
}

proof fn lemma_upsert_service_distinct(ss: Seq<ServiceMacro>, s: ServiceMacro)
    requires
        service_names_distinct(ss),
    ensures
        service_names_distinct(upsert_service(ss, s)),
{
    lemma_service_position(ss, s.struct_name@);
    let r = upsert_service(ss, s);
    match service_position(ss, s.struct_name@) {
        Some(i) => {
            assert forall|a: int, b: int| 0 <= a < b < r.len() implies (#[trigger] r[a]).struct_name@ != (#[trigger] r[b]).struct_name@ by {
                assert(r[a].struct_name@ == ss[a].struct_name@ && r[b].struct_name@ == ss[b].struct_name@);
            }
        },
        None => {
            assert forall|a: int, b: int| 0 <= a < b < r.len() implies (#[trigger] r[a]).struct_name@ != (#[trigger] r[b]).struct_name@ by {
                if b == ss.len() {
                    assert(r[a] == ss[a]);
                } else {
                    assert(r[a] == ss[a] && r[b] == ss[b]);
                }
            }
        },
    }
}

proof fn lemma_services_of_macros_distinct(ss: Seq<ServiceMacro>, ms: Seq<SummerMacro>)
    requires
        service_names_distinct(ss),
    ensures
        service_names_distinct(services_of_macros(ss, ms)),
    decreases ms.len(),
{
    if ms.len() > 0 {
        lemma_services_of_macros_distinct(ss, ms.drop_last());
        if let SummerMacro::DeriveService(s) = ms.last() {
            lemma_upsert_service_distinct(services_of_macros(ss, ms.drop_last()), s);
        }
    }
}

/// The services of a workspace form a map: each name names one service,
/// the last one declared under it.
pub proof fn law_services_distinct(docs: Seq<RustDocument>)
    ensures
        service_names_distinct(spec_services(docs)),
    decreases docs.len(),
{
    if docs.len() > 0 {
        law_services_distinct(docs.drop_last());
        lemma_services_of_macros_distinct(spec_services(docs.drop_last()), docs.last().macros@);
    }
}

pub open spec fn services_view(ss: Seq<ServiceInfo>) -> Seq<ServiceMacro> {
    Seq::new(ss.len(), |i: int| *ss[i].service)
}

// ----- the dependency graph -----

/// The types a service depends on: its component injections, except lazy
/// ones.
pub open spec fn spec_service_deps(fields: Seq<Field>) -> Seq<Seq<char>>
    decreases fields.len(),
{
    if fields.len() == 0 {
        seq![]
    } else {
        let rest = spec_service_deps(fields.drop_last());
        let f = fields.last();
        if f.inject matches Some(i) && i.inject_type == InjectType::Component && !contains_seq(f.ty_name@, "LazyComponent"@) {
            rest.push(f.ty_name@)
        } else {
            rest
        }
    }
}

/// A dependency graph: each node and the nodes it depends on.
pub struct GraphEntry {
    pub node: String,
    pub deps: Vec<String>,
}

/// The dependencies of the first entry for `node`.
pub open spec fn graph_deps(g: Seq<GraphEntry>, node: Seq<char>) -> Option<Seq<Seq<char>>>
    decreases g.len(),
{
    if g.len() == 0 {
        None
    } else if g[0].node@ == node {
        Some(views(g[0].deps@))
    } else {
        graph_deps(g.drop_first(), node)
    }
}

pub open spec fn has_edge(g: Seq<GraphEntry>, a: Seq<char>, b: Seq<char>) -> bool {
    graph_deps(g, a) matches Some(ds) && ds.contains(b)
}

/// Whether consecutive nodes of `w` are joined by edges.
pub open spec fn is_walk(g: Seq<GraphEntry>, w: Seq<Seq<char>>) -> bool {
    forall|i: int| 0 <= i < w.len() - 1 ==> #[trigger] has_edge(g, w[i], w[i + 1])
}

/// Whether `c` is a cycle: a walk of at least one edge that ends where it
/// starts.
pub open spec fn is_cycle(g: Seq<GraphEntry>, c: Seq<Seq<char>>) -> bool {
    c.len() >= 2 && c[0] == c.last() && is_walk(g, c)
}

/// The dependencies of the first entry for `node` in a graph given as
/// pairs of a node and its dependencies.
pub open spec fn deps_v(g: Seq<(Seq<char>, Seq<Seq<char>>)>, node: Seq<char>) -> Option<Seq<Seq<char>>>
    decreases g.len(),
{
    if g.len() == 0 {
        None
    } else if g[0].0 == node {
        Some(g[0].1)
    } else {
        deps_v(g.drop_first(), node)
    }
}

pub open spec fn edge_v(g: Seq<(Seq<char>, Seq<Seq<char>>)>, a: Seq<char>, b: Seq<char>) -> bool {
    deps_v(g, a) matches Some(ds) && ds.contains(b)
}

/// Whether `c` is a cycle of the graph `g`: at least one edge, ending
/// where it starts.
pub open spec fn cycle_v(g: Seq<(Seq<char>, Seq<Seq<char>>)>, c: Seq<Seq<char>>) -> bool {
    c.len() >= 2 && c[0] == c.last() && forall|i: int| 0 <= i < c.len() - 1 ==> #[trigger] edge_v(g, c[i], c[i + 1])
}

/// Whether the services depend on each other in no cycle.
pub open spec fn services_acyclic(services: Seq<ServiceMacro>) -> bool {
    forall|c: Seq<Seq<char>>| !cycle_v(graph_of(services), c)
}

proof fn lemma_deps_view(g: Seq<GraphEntry>, node: Seq<char>)
    ensures
        graph_deps(g, node) == deps_v(graph_view(g), node),
    decreases g.len(),
{
    if g.len() > 0 {
        assert(graph_view(g).drop_first() =~= graph_view(g.drop_first()));
        lemma_deps_view(g.drop_first(), node);
    }
}

proof fn lemma_cycle_view(g: Seq<GraphEntry>, c: Seq<Seq<char>>)
    requires
        is_cycle(g, c),
    ensures
        cycle_v(graph_view(g), c),
{
    assert forall|i: int| 0 <= i < c.len() - 1 implies #[trigger] edge_v(graph_view(g), c[i], c[i + 1]) by {
        assert(has_edge(g, c[i], c[i + 1]));
        lemma_deps_view(g, c[i]);
    }
}

proof fn lemma_cycle_view_back(g: Seq<GraphEntry>, c: Seq<Seq<char>>)
    requires
        cycle_v(graph_view(g), c),
    ensures
        is_cycle(g, c),
{
    assert forall|i: int| 0 <= i < c.len() - 1 implies #[trigger] has_edge(g, c[i], c[i + 1]) by {
        assert(edge_v(graph_view(g), c[i], c[i + 1]));
        lemma_deps_view(g, c[i]);
    }
}

pub open spec fn graph_of(services: Seq<ServiceMacro>) -> Seq<(Seq<char>, Seq<Seq<char>>)> {
    Seq::new(services.len(), |i: int| (services[i].struct_name@, spec_service_deps(services[i].fields@)))
}

pub open spec fn graph_view(g: Seq<GraphEntry>) -> Seq<(Seq<char>, Seq<Seq<char>>)> {
    Seq::new(g.len(), |i: int| (g[i].node@, views(g[i].deps@)))
}

/// The diagnostic that reports a cycle at a service's range.
pub open spec fn cycle_diagnostic(range: Range, cycle: Seq<Seq<char>>) -> DiagnosticV {
    server_diagnostic(range, DiagnosticSeverity::Warning, "circular-dependency"@,
        "检测到循环依赖: "@ + join(cycle, " -> "@) + "。建议使用 LazyComponent<T> 打破循环。"@)
}

/// A node whose search is finished: visited, no longer on the path, and
/// not left behind by an earlier search that stopped at a cycle (`stopped`).
pub open spec fn is_done(v: Seq<Seq<char>>, p: Seq<Seq<char>>, stopped: Set<Seq<char>>, x: Seq<char>) -> bool {
    v.contains(x) && !p.contains(x) && !stopped.contains(x)
}

/// Every edge from a finished node leads to a finished node, or to one
/// left behind by a search that stopped.
pub open spec fn done_closed(g: Seq<GraphEntry>, v: Seq<Seq<char>>, p: Seq<Seq<char>>, stopped: Set<Seq<char>>) -> bool {
    forall|x: Seq<char>, y: Seq<char>| is_done(v, p, stopped, x) && #[trigger] has_edge(g, x, y)
        ==> is_done(v, p, stopped, y) || stopped.contains(y)
}

/// No cycle runs through finished nodes only.
pub open spec fn done_acyclic(g: Seq<GraphEntry>, v: Seq<Seq<char>>, p: Seq<Seq<char>>, stopped: Set<Seq<char>>) -> bool {
    forall|c: Seq<Seq<char>>| #[trigger] is_cycle(g, c) ==> exists|k: int| 0 <= k < c.len() && !is_done(v, p, stopped, c[k])
}

/// What the search keeps of the finished nodes.
pub open spec fn dfs_ok(g: Seq<GraphEntry>, v: Seq<Seq<char>>, p: Seq<Seq<char>>, stopped: Set<Seq<char>>) -> bool {
    done_closed(g, v, p, stopped) && done_acyclic(g, v, p, stopped)
}

/// Whether a walk leads from `a` to `b`.
pub open spec fn reaches(g: Seq<GraphEntry>, a: Seq<char>, b: Seq<char>) -> bool {
    exists|w: Seq<Seq<char>>| w.len() >= 1 && w[0] == a && w.last() == b && is_walk(g, w)
}

/// Whether a walk of the graph `g` leads from `a` to `b`.
pub open spec fn reaches_v(g: Seq<(Seq<char>, Seq<Seq<char>>)>, a: Seq<char>, b: Seq<char>) -> bool {
    exists|w: Seq<Seq<char>>| w.len() >= 1 && w[0] == a && w.last() == b
        && forall|i: int| 0 <= i < w.len() - 1 ==> #[trigger] edge_v(g, w[i], w[i + 1])
}

proof fn lemma_reaches_self(g: Seq<GraphEntry>, a: Seq<char>)
    ensures
        reaches(g, a, a),
{
    let w = seq![a];
    assert(w.last() == a);
    assert(is_walk(g, w));
}

proof fn lemma_reaches_step(g: Seq<GraphEntry>, a: Seq<char>, b: Seq<char>, x: Seq<char>)
    requires
        has_edge(g, a, b),
        reaches(g, b, x),
    ensures
        reaches(g, a, x),
{
    let w = choose|w: Seq<Seq<char>>| w.len() >= 1 && w[0] == b && w.last() == x && is_walk(g, w);
    let w2 = seq![a] + w;
    assert(w2[0] == a);
    assert(w2.last() == w.last());
    assert forall|i: int| 0 <= i < w2.len() - 1 implies #[trigger] has_edge(g, w2[i], w2[i + 1]) by {
        if i == 0 {
            assert(w2[1] == w[0]);
        } else {
            let j = i - 1;
            assert(w2[i] == w[j] && w2[i + 1] == w[j + 1]);
            assert(has_edge(g, w[j], w[j + 1]));
        }
    }
}

proof fn lemma_reaches_view(g: Seq<GraphEntry>, a: Seq<char>, b: Seq<char>)
    requires
        reaches(g, a, b),
    ensures
        reaches_v(graph_view(g), a, b),
{
    let w = choose|w: Seq<Seq<char>>| w.len() >= 1 && w[0] == a && w.last() == b && is_walk(g, w);
    assert forall|i: int| 0 <= i < w.len() - 1 implies #[trigger] edge_v(graph_view(g), w[i], w[i + 1]) by {
        assert(has_edge(g, w[i], w[i + 1]));
        lemma_deps_view(g, w[i]);
    }
}

proof fn lemma_walk_done(g: Seq<GraphEntry>, v: Seq<Seq<char>>, p: Seq<Seq<char>>, stopped: Set<Seq<char>>, c: Seq<Seq<char>>, i: int, j: int)
    requires
        done_closed(g, v, p, stopped),
        is_walk(g, c),
        0 <= i <= j < c.len(),
        is_done(v, p, stopped, c[i]),
        forall|k: int| 0 <= k < c.len() ==> !stopped.contains(#[trigger] c[k]),
    ensures
        is_done(v, p, stopped, c[j]),
    decreases j - i,
{
    if i < j {
        assert(has_edge(g, c[i], c[i + 1]));
        assert(!stopped.contains(c[i + 1]));
        lemma_walk_done(g, v, p, stopped, c, i + 1, j);
    }
}

/// Starting a search at `u` (pushed on the visited list and the path)
/// finishes no node.
proof fn lemma_start_search(g: Seq<GraphEntry>, v: Seq<Seq<char>>, p: Seq<Seq<char>>, stopped: Set<Seq<char>>, u: Seq<char>)
    requires
        !v.contains(u),
    ensures
        forall|x: Seq<char>| #[trigger] is_done(v.push(u), p.push(u), stopped, x) == is_done(v, p, stopped, x),
        dfs_ok(g, v, p, stopped) ==> dfs_ok(g, v.push(u), p.push(u), stopped),
{
    assert forall|x: Seq<char>| #[trigger] is_done(v.push(u), p.push(u), stopped, x) == is_done(v, p, stopped, x) by {
        if x != u {
            if v.push(u).contains(x) {
                let k = choose|k: int| 0 <= k < v.push(u).len() && v.push(u)[k] == x;
                assert(v[k] == x);
            }
            if v.contains(x) {
                let k = choose|k: int| 0 <= k < v.len() && v[k] == x;
                assert(v.push(u)[k] == x);
            }
            if p.push(u).contains(x) {
                let k = choose|k: int| 0 <= k < p.push(u).len() && p.push(u)[k] == x;
                assert(p[k] == x);
            }
            if p.contains(x) {
                let k = choose|k: int| 0 <= k < p.len() && p[k] == x;
                assert(p.push(u)[k] == x);
            }
        } else {
            assert(p.push(u)[p.len() as int] == u);
        }
    }
}

/// Finishing the search at `u`, whose successors are all finished or left
/// behind, keeps what the search keeps and finishes `u`.
proof fn lemma_finish_search(g: Seq<GraphEntry>, v: Seq<Seq<char>>, p0: Seq<Seq<char>>, stopped: Set<Seq<char>>, u: Seq<char>)
    requires
        dfs_ok(g, v, p0.push(u), stopped),
        v.contains(u),
        !p0.contains(u),
        !stopped.contains(u),
        forall|y: Seq<char>| #[trigger] has_edge(g, u, y) ==> is_done(v, p0.push(u), stopped, y) || stopped.contains(y),
    ensures
        dfs_ok(g, v, p0, stopped),
        is_done(v, p0, stopped, u),
        forall|x: Seq<char>| is_done(v, p0.push(u), stopped, x) ==> #[trigger] is_done(v, p0, stopped, x),
{
    let pp = p0.push(u);
    assert forall|x: Seq<char>| #[trigger] is_done(v, p0, stopped, x) == (is_done(v, pp, stopped, x) || x == u) by {
        if pp.contains(x) && x != u {
            let k = choose|k: int| 0 <= k < pp.len() && pp[k] == x;
            assert(p0[k] == x);
        }
        if p0.contains(x) {
            let k = choose|k: int| 0 <= k < p0.len() && p0[k] == x;
            assert(pp[k] == x);
        }
        assert(pp[p0.len() as int] == u);
    }
    assert forall|x: Seq<char>, y: Seq<char>| is_done(v, p0, stopped, x) && #[trigger] has_edge(g, x, y)
        implies is_done(v, p0, stopped, y) || stopped.contains(y) by {
        if x == u {
            assert(is_done(v, pp, stopped, y) || stopped.contains(y));
        } else {
            assert(is_done(v, pp, stopped, x));
        }
    }
    assert forall|c: Seq<Seq<char>>| #[trigger] is_cycle(g, c) implies exists|k: int| 0 <= k < c.len() && !is_done(v, p0, stopped, c[k]) by {
        if forall|k: int| 0 <= k < c.len() ==> is_done(v, p0, stopped, #[trigger] c[k]) {
            assert forall|k: int| 0 <= k < c.len() implies !stopped.contains(#[trigger] c[k]) by {
                assert(is_done(v, p0, stopped, c[k]));
            }
            if exists|k: int| 0 <= k < c.len() && c[k] == u {
                let k0 = choose|k: int| 0 <= k < c.len() && c[k] == u;
                let k = if k0 == c.len() - 1 { 0 } else { k0 };
                assert(c[k] == u);
                assert(has_edge(g, c[k], c[k + 1]));
                assert(!stopped.contains(c[k + 1]));
                assert(is_done(v, pp, stopped, c[k + 1]));
                lemma_walk_done(g, v, pp, stopped, c, k + 1, c.len() - 1);
                assert(c[0] == c.last());
                lemma_walk_done(g, v, pp, stopped, c, 0, k);
                assert(pp.contains(u)) by {
                    assert(pp[p0.len() as int] == u);
                }
            } else {
                let k = choose|k: int| 0 <= k < c.len() && !is_done(v, pp, stopped, c[k]);
                assert(is_done(v, p0, stopped, c[k]));
            }
        }
    }
}

/// How many nodes of `keys` are not in `visited`.
pub open spec fn unvisited(keys: Seq<Seq<char>>, visited: Set<Seq<char>>) -> nat
    decreases keys.len(),
{
    if keys.len() == 0 {
        0
    } else {
        unvisited(keys.drop_last(), visited) + if visited.contains(keys.last()) { 0nat } else { 1nat }
    }
}

proof fn lemma_unvisited_mono(keys: Seq<Seq<char>>, v1: Set<Seq<char>>, v2: Set<Seq<char>>)
    requires
        v1.subset_of(v2),
    ensures
        unvisited(keys, v2) <= unvisited(keys, v1),
    decreases keys.len(),
{
    if keys.len() > 0 {
        lemma_unvisited_mono(keys.drop_last(), v1, v2);
    }
}

proof fn lemma_unvisited_strict(keys: Seq<Seq<char>>, v1: Set<Seq<char>>, v2: Set<Seq<char>>, k: Seq<char>)
    requires
        v1.subset_of(v2),
        keys.contains(k),
        !v1.contains(k),
        v2.contains(k),
    ensures
        unvisited(keys, v2) < unvisited(keys, v1),
    decreases keys.len(),
{
    if keys.last() == k {
        lemma_unvisited_mono(keys.drop_last(), v1, v2);
    } else {
        let i = choose|i: int| 0 <= i < keys.len() && keys[i] == k;
        assert(keys.drop_last()[i] == k);
        lemma_unvisited_strict(keys.drop_last(), v1, v2, k);
    }
}

pub open spec fn graph_keys(g: Seq<GraphEntry>) -> Seq<Seq<char>> {
    Seq::new(g.len(), |i: int| g[i].node@)
}

proof fn lemma_graph_deps_key(g: Seq<GraphEntry>, node: Seq<char>)
    ensures
        graph_deps(g, node) is Some ==> graph_keys(g).contains(node),
    decreases g.len(),
{
    if g.len() > 0 && g[0].node@ != node {
        lemma_graph_deps_key(g.drop_first(), node);
        if graph_deps(g, node) is Some {
            let i = choose|i: int| 0 <= i < graph_keys(g.drop_first()).len() && graph_keys(g.drop_first())[i] == node;
            assert(graph_keys(g)[i + 1] == node);
        }
    } else if g.len() > 0 {
        assert(graph_keys(g)[0] == node);
    }
}

fn find_graph_entry(g: &Vec<GraphEntry>, node: &str) -> (r: Option<usize>)
    ensures
        match r {
            Some(i) => i < g@.len() && graph_deps(g@, node@) == Some(views(g@[i as int].deps@)),
            None => graph_deps(g@, node@) is None,
        },
{
    let mut i: usize = 0;
    proof {
        assert(g@.subrange(0, g@.len() as int) =~= g@);
    }
    while i < g.len()
        invariant
            i <= g@.len(),
            graph_deps(g@, node@) == graph_deps(g@.subrange(i as int, g@.len() as int), node@),
        decreases g@.len() - i,
    {
        proof {
            let sub = g@.subrange(i as int, g@.len() as int);
            assert(sub.drop_first() =~= g@.subrange(i + 1, g@.len() as int));
            assert(sub[0] == g@[i as int]);
        }
        if str_eq(g[i].node.as_str(), node) {
            return Some(i);
        }
        i = i + 1;
    }
    None
}

fn position_of(path: &Vec<String>, s: &str) -> (r: Option<usize>)
    ensures
        match r {
            Some(p) => p < path@.len() && path@[p as int]@ == s@ && forall|j: int| 0 <= j < p ==> path@[j]@ != s@,
            None => !views(path@).contains(s@),
        },
{
    let mut i: usize = 0;
    while i < path.len()
        invariant
            i <= path@.len(),
            forall|j: int| 0 <= j < i ==> path@[j]@ != s@,
        decreases path@.len() - i,
    {
        if str_eq(path[i].as_str(), s) {
            return Some(i);
        }
        i = i + 1;
    }
    proof {
        assert forall|j: int| 0 <= j < views(path@).len() implies views(path@)[j] != s@ by {
            assert(views(path@)[j] == path@[j]@);
        }
    }
    None
}

impl DependencyInjectionValidator {
    /// The index the validator consults.
    pub closed spec fn index(&self) -> IndexManager {
        self.index_manager
    }

    /// A validator over `index_manager`.
    pub fn new(index_manager: IndexManager) -> (r: DependencyInjectionValidator)
        ensures
            r.index() == index_manager,
    {
        DependencyInjectionValidator { index_manager }
    }

    /// The configuration prefix of a type name: without a `Config` suffix,
    /// lowered, with `-` before each later uppercase letter.
    pub fn extract_config_prefix(&self, ty_name: &str) -> (r: String)
        ensures
            r@ == spec_config_prefix(ty_name@),
    {
        let n = ty_name.unicode_len();
        let stem_len = if crate::text::ends_with(ty_name, "Config") {
            n - "Config".unicode_len()
        } else {
            n
        };
        let ghost p = if is_suffix("Config"@, ty_name@) {
            ty_name@.subrange(0, ty_name@.len() - "Config"@.len())
        } else {
            ty_name@
        };
        assert(p =~= ty_name@.subrange(0, stem_len as int));
        let mut result = String::new();
        let mut i: usize = 0;
        while i < stem_len
            invariant
                stem_len <= n,
                n == ty_name@.len(),
                p == ty_name@.subrange(0, stem_len as int),
                i <= stem_len,
                result@ == kebab_lower(p.subrange(0, i as int)),
            decreases stem_len - i,
        {
            let ch = ty_name.get_char(i);
            proof {
                assert(p.subrange(0, i + 1).drop_last() =~= p.subrange(0, i as int));
                assert(p.subrange(0, i + 1).last() == ch);
            }
            if i > 0 && crate::text::is_uppercase(ch) {
                crate::text::push_char(&mut result, '-');
            }
            crate::text::push_char(&mut result, crate::text::lowercase_first(ch));
            proof {
                assert(result@ =~= kebab_lower(p.subrange(0, i + 1)));
            }
            i = i + 1;
        }
        proof {
            assert(p.subrange(0, stem_len as int) =~= p);
        }
        result
    }

    /// The other registered components of a type, for suggestions. The
    /// index lists components by name only, so there are none.
    fn get_available_components_by_type(&self, ty_name: &str) -> (r: Vec<String>)
        ensures
            r@.len() == 0,
    {
        Vec::new()
    }

    fn suggestion_text(&self, ty_name: &String) -> (r: String)
        ensures
            r@ == suggestion(ty_name@, seq![]),
    {
        let available = self.get_available_components_by_type(ty_name.as_str());
        if available.len() == 0 {
            String::new()
        } else {
            let mut s = String::from_str("\n可用的 ");
            s.append(ty_name.as_str());
            s.append(" 类型组件: ");
            s.append(join_strings(&available, ", ").as_str());
            s
        }
    }

    /// Checks one component injection.
    fn validate_component_injection(&self, field: &Field, inject: &InjectMacro, range: Range) -> (r: Vec<Diagnostic>)
        ensures
            diagnostics_view(r@) == spec_component_diagnostics(self.index(), *field, *inject, range),
    {
        let mut diagnostics: Vec<Diagnostic> = Vec::new();
        let ty = &field.ty_name;
        let name: &String = match &inject.component_name {
            Some(n) => n,
            None => ty,
        };
        match self.index_manager.find_component(name.as_str()) {
            Some(info) => {
                if !str_eq(info.ty_name.as_str(), ty.as_str()) {
                    let mut m = String::from_str("组件 '");
                    m.append(name.as_str());
                    m.append("' 的类型不匹配。期望类型: ");
                    m.append(ty.as_str());
                    m.append("，实际类型: ");
                    m.append(info.ty_name.as_str());
                    diagnostics.push(Diagnostic::server(range, DiagnosticSeverity::Warning, "component-type-mismatch", m));
                }
            },
            None => {
                if !self.index_manager.find_symbol(ty.as_str()) {
                    let mut m = String::from_str("组件类型 '");
                    m.append(ty.as_str());
                    m.append("' 不存在。请确保该类型已定义。");
                    diagnostics.push(Diagnostic::server(range, DiagnosticSeverity::Error, "component-type-not-found", m));
                } else {
                    let mut m = String::from_str("组件 '");
                    m.append(name.as_str());
                    m.append("' 未注册。请确保该组件已通过插件注册。");
                    diagnostics.push(Diagnostic::server(range, DiagnosticSeverity::Error, "component-not-registered", m));
                }
            },
        }
        let ghost first = diagnostics_view(diagnostics@);
        if let Some(specified) = &inject.component_name {
            match self.index_manager.find_component(specified.as_str()) {
                Some(info) => {
                    if !str_eq(info.ty_name.as_str(), ty.as_str()) {
                        let suggestion = self.suggestion_text(ty);
                        let mut m = String::from_str("组件名称 '");
                        m.append(specified.as_str());
                        m.append("' 的类型不匹配。期望类型: ");
                        m.append(ty.as_str());
                        m.append("，实际类型: ");
                        m.append(info.ty_name.as_str());
                        m.append(suggestion.as_str());
                        diagnostics.push(Diagnostic::server(range, DiagnosticSeverity::Error, "component-name-mismatch", m));
                    }
                },
                None => {
                    let suggestion = self.suggestion_text(ty);
                    let mut m = String::from_str("组件名称 '");
                    m.append(specified.as_str());
                    m.append("' 不存在。");
                    m.append(suggestion.as_str());
                    diagnostics.push(Diagnostic::server(range, DiagnosticSeverity::Error, "component-name-not-found", m));
                },
            }
        }
        proof {
            assert(diagnostics_view(diagnostics@) =~= spec_component_diagnostics(self.index(), *field, *inject, range));
        }
        diagnostics
    }

    /// Checks one configuration injection.
    fn validate_config_injection(&self, field: &Field, toml_docs: &Vec<(String, TomlDocument)>, range: Range) -> (r: Vec<Diagnostic>)
        ensures
            diagnostics_view(r@) == spec_config_diagnostics(toml_docs@, *field, range),
    {
        let mut diagnostics: Vec<Diagnostic> = Vec::new();
        let prefix = self.extract_config_prefix(field.ty_name.as_str());
        let mut found = false;
        let mut i: usize = 0;
        while i < toml_docs.len() && !found
            invariant
                i <= toml_docs@.len(),
                !found ==> forall|k: int| 0 <= k < i ==> !(#[trigger] section_lookup(toml_docs@[k].1.config_sections@, prefix@) is Some),
                found ==> any_section(toml_docs@, prefix@),
            decreases toml_docs@.len() - i,
        {
            if toml_docs[i].1.has_section(prefix.as_str()) {
                found = true;
                assert(section_lookup(toml_docs@[i as int].1.config_sections@, prefix@) is Some);
            }
            i = i + 1;
        }
        if !found {
            let mut m = String::from_str("配置项 '");
            m.append(prefix.as_str());
            m.append("' 不存在。请在配置文件中添加 [");
            m.append(prefix.as_str());
            m.append("] 配置节。");
            diagnostics.push(Diagnostic::server(range, DiagnosticSeverity::Error, "config-not-found", m));
            proof {
                assert(!any_section(toml_docs@, prefix@));
                assert(diagnostics_view(diagnostics@) =~= spec_config_diagnostics(toml_docs@, *field, range));
            }
        } else {
            assert(diagnostics_view(diagnostics@) =~= seq![]);
        }
        diagnostics
    }

    /// The services of the documents, in order of first appearance; a
    /// later service of the same name replaces an earlier one in its place.
    fn extract_services<'a>(&self, rust_docs: &'a Vec<RustDocument>) -> (r: Vec<ServiceInfo<'a>>)
        ensures
            services_view(r@) == spec_services(rust_docs@),
    {
        let mut services: Vec<ServiceInfo<'a>> = Vec::new();
        let mut d: usize = 0;
        proof {
            assert(services_view(services@) =~= spec_services(rust_docs@.subrange(0, 0)));
        }
        while d < rust_docs.len()
            invariant
                d <= rust_docs@.len(),
                services_view(services@) == spec_services(rust_docs@.subrange(0, d as int)),
            decreases rust_docs@.len() - d,
        {
            let doc = &rust_docs[d];
            let ghost start = services_view(services@);
            let mut k: usize = 0;
            while k < doc.macros.len()
                invariant
                    k <= doc.macros@.len(),
                    services_view(services@) == services_of_macros(start, doc.macros@.subrange(0, k as int)),
                decreases doc.macros@.len() - k,
            {
                proof {
                    assert(doc.macros@.subrange(0, k + 1).drop_last() =~= doc.macros@.subrange(0, k as int));
                }
                if let SummerMacro::DeriveService(s) = &doc.macros[k] {
                    let ghost sv = services_view(services@);
                    proof {
                        lemma_service_position(sv, s.struct_name@);
                    }
                    let mut j: usize = 0;
                    let mut replaced = false;
                    while j < services.len() && !replaced
                        invariant
                            !replaced ==> sv == services_view(services@),
                            sv.len() == services@.len(),
                            j <= services@.len(),
                            !replaced ==> forall|t: int| 0 <= t < j ==> sv[t].struct_name@ != s.struct_name@,
                            replaced ==> (service_position(sv, s.struct_name@) matches Some(p) && services_view(services@) == sv.update(p, *s)),
                        decreases services@.len() - j,
                    {
                        if str_eq(services[j].service.struct_name.as_str(), s.struct_name.as_str()) {
                            assert(sv[j as int].struct_name@ == s.struct_name@);
                            assert(service_position(sv, s.struct_name@) == Some(j as int)) by {
                                lemma_service_position(sv, s.struct_name@);
                                match service_position(sv, s.struct_name@) {
                                    Some(p) => {
                                        if p < j {
                                            assert(sv[p].struct_name@ != s.struct_name@);
                                        }
                                    },
                                    None => {
                                        assert(sv[j as int].struct_name@ != s.struct_name@);
                                    },
                                }
                            }
                            let ghost before = services@;
                            services.set(j, ServiceInfo { uri: &doc.uri, service: s });
                            proof {
                                assert(services_view(services@) =~= sv.update(j as int, *s));
                            }
                            replaced = true;
                        }
                        j = j + 1;
                    }
                    if !replaced {
                        let ghost before = services@;
                        services.push(ServiceInfo { uri: &doc.uri, service: s });
                        proof {
                            assert(service_position(sv, s.struct_name@) is None);
                            assert(services_view(services@) =~= sv.push(*s));
                        }
                    }
                }
                k = k + 1;
            }
            proof {
                assert(doc.macros@.subrange(0, doc.macros@.len() as int) =~= doc.macros@);
                assert(rust_docs@.subrange(0, d + 1).drop_last() =~= rust_docs@.subrange(0, d as int));
            }
            d = d + 1;
        }
        proof {
            assert(rust_docs@.subrange(0, rust_docs@.len() as int) =~= rust_docs@);
        }
        services
    }

    /// Checks the injections of every service, then looks for dependency
    /// cycles among the services: a warning per search that finds a cycle,
    /// each naming a real cycle, and none exactly when there is no cycle.
    pub fn validate(&self, rust_docs: &Vec<RustDocument>, toml_docs: &Vec<(String, TomlDocument)>) -> (r: Vec<Diagnostic>)
        ensures
            ({
                let svcs = spec_services(rust_docs@);
                let base = spec_services_diagnostics(self.index(), toml_docs@, svcs);
                &&& r@.len() >= base.len()
                &&& diagnostics_view(r@).subrange(0, base.len() as int) == base
                &&& reports_real_cycles(diagnostics_view(r@).subrange(base.len() as int, r@.len() as int), svcs)
                &&& reports_reach_cycles(diagnostics_view(r@).subrange(base.len() as int, r@.len() as int), svcs)
                &&& services_acyclic(svcs) <==> r@.len() == base.len()
            }),
    {
        let services = self.extract_services(rust_docs);
        let ghost sv = services_view(services@);
        let mut diagnostics: Vec<Diagnostic> = Vec::new();
        let mut i: usize = 0;
        while i < services.len()
            invariant
                sv == services_view(services@),
                i <= services@.len(),
                diagnostics_view(diagnostics@) == spec_services_diagnostics(self.index(), toml_docs@, sv.subrange(0, i as int)),
            decreases services@.len() - i,
        {
            let s = &services[i];
            let ghost start = diagnostics_view(diagnostics@);
            let mut k: usize = 0;
            while k < s.service.fields.len()
                invariant
                    k <= s.service.fields@.len(),
                    diagnostics_view(diagnostics@) == start + spec_fields_diagnostics(
                        self.index(),
                        toml_docs@,
                        s.service.fields@.subrange(0, k as int),
                        s.service.range,
                    ),
                decreases s.service.fields@.len() - k,
            {
                proof {
                    assert(s.service.fields@.subrange(0, k + 1).drop_last() =~= s.service.fields@.subrange(0, k as int));
                }
                let f = &s.service.fields[k];
                let ghost before = diagnostics@;
                if let Some(inject) = &f.inject {
                    let mut ds = match inject.inject_type {
                        InjectType::Component => self.validate_component_injection(f, inject, s.service.range),
                        InjectType::Config => self.validate_config_injection(f, toml_docs, s.service.range),
                    };
                    let ghost dsv = ds@;
                    diagnostics.append(&mut ds);
                    proof {
                        assert(diagnostics@ =~= before + dsv);
                        assert(diagnostics_view(diagnostics@) =~= diagnostics_view(before) + diagnostics_view(dsv));
                    }
                }
                proof {
                    assert(diagnostics_view(diagnostics@) =~= start + spec_fields_diagnostics(
                        self.index(),
                        toml_docs@,
                        s.service.fields@.subrange(0, k + 1),
                        s.service.range,
                    ));
                }
                k = k + 1;
            }
            proof {
                assert(s.service.fields@.subrange(0, s.service.fields@.len() as int) =~= s.service.fields@);
                assert(sv.subrange(0, i + 1).drop_last() =~= sv.subrange(0, i as int));
                assert(sv.subrange(0, i + 1).last() == *s.service);
            }
            i = i + 1;
        }
        proof {
            assert(sv.subrange(0, sv.len() as int) =~= sv);
        }
        let ghost base = diagnostics@;
        let mut cycles = self.detect_circular_dependencies(&services);
        let ghost cv = cycles@;
        diagnostics.append(&mut cycles);
        proof {
            assert(diagnostics@ =~= base + cv);
            assert(diagnostics_view(diagnostics@).subrange(0, base.len() as int) =~= diagnostics_view(base));
            assert(diagnostics_view(diagnostics@).subrange(base.len() as int, diagnostics@.len() as int) =~= diagnostics_view(cv));
        }
        diagnostics
    }
}

/// A search that stopped at a cycle leaves the nodes it visited behind:
/// the finished nodes stay as they were.
proof fn lemma_stop_search(g: Seq<GraphEntry>, vb: Seq<Seq<char>>, vn: Seq<Seq<char>>, stopped: Set<Seq<char>>)
    requires
        vb.to_set().subset_of(vn.to_set()),
        stopped.subset_of(vb.to_set()),
        dfs_ok(g, vb, Seq::empty(), stopped),
    ensures
        dfs_ok(g, vn, Seq::empty(), stopped.union(vn.to_set().difference(vb.to_set()))),
        stopped.union(vn.to_set().difference(vb.to_set())).subset_of(vn.to_set()),
{
    let s2 = stopped.union(vn.to_set().difference(vb.to_set()));
    assert forall|x: Seq<char>| #[trigger] is_done(vn, Seq::empty(), s2, x) == is_done(vb, Seq::empty(), stopped, x) by {
        if vb.contains(x) {
            assert(vb.to_set().contains(x));
            assert(vn.to_set().contains(x));
        }
        if vn.contains(x) && !vb.contains(x) {
            assert(vn.to_set().contains(x));
            assert(!vb.to_set().contains(x));
            assert(s2.contains(x));
        }
        if stopped.contains(x) {
            assert(s2.contains(x));
        }
        if s2.contains(x) && !stopped.contains(x) {
            assert(!vb.to_set().contains(x));
        }
    }
    assert forall|x: Seq<char>, y: Seq<char>| is_done(vn, Seq::empty(), s2, x) && #[trigger] has_edge(g, x, y)
        implies is_done(vn, Seq::empty(), s2, y) || s2.contains(y) by {
        assert(is_done(vb, Seq::empty(), stopped, x));
        if is_done(vb, Seq::empty(), stopped, y) {
            assert(is_done(vn, Seq::empty(), s2, y));
        }
    }
    assert forall|cy: Seq<Seq<char>>| #[trigger] is_cycle(g, cy) implies exists|k: int| 0 <= k < cy.len()
        && !is_done(vn, Seq::empty(), s2, cy[k]) by {
        let k = choose|k: int| 0 <= k < cy.len() && !is_done(vb, Seq::empty(), stopped, cy[k]);
        assert(!is_done(vn, Seq::empty(), s2, cy[k]));
    }
}

/// Every cycle runs through a node that a walk reaches from the service at
/// which some cycle in `found` was reported.
pub open spec fn cycles_reached(g: Seq<GraphEntry>, services: Seq<ServiceInfo>, found: Seq<(usize, Vec<String>)>) -> bool {
    forall|c: Seq<Seq<char>>| #[trigger] is_cycle(g, c) ==> exists|f: int, k: int| 0 <= f < found.len()
        && 0 <= k < c.len() && #[trigger] reaches(g, services[found[f].0 as int].service.struct_name@, c[k])
}

/// Once every service was searched, every cycle runs through a node left
/// behind by a search that stopped at a cycle, and so through a node that
/// search reached.
proof fn lemma_cycles_reached(
    g: Seq<GraphEntry>,
    services: Seq<ServiceInfo>,
    v: Seq<Seq<char>>,
    stopped: Set<Seq<char>>,
    found: Seq<(usize, Vec<String>)>,
)
    requires
        graph_view(g) == graph_of(services_view(services)),
        dfs_ok(g, v, Seq::empty(), stopped),
        forall|x: Seq<char>| #[trigger] stopped.contains(x) ==> exists|f: int| 0 <= f < found.len()
            && reaches(g, services[found[f].0 as int].service.struct_name@, x),
        forall|t: int| 0 <= t < services.len() ==> v.contains(#[trigger] services[t].service.struct_name@),
    ensures
        cycles_reached(g, services, found),
{
    assert forall|c: Seq<Seq<char>>| #[trigger] is_cycle(g, c) implies exists|f: int, k: int| 0 <= f < found.len()
        && 0 <= k < c.len() && #[trigger] reaches(g, services[found[f].0 as int].service.struct_name@, c[k]) by {
        let k = choose|k: int| 0 <= k < c.len() && !is_done(v, Seq::empty(), stopped, c[k]);
        let k1 = if k == c.len() - 1 { 0 } else { k };
        assert(c[k1] == c[k]);
        assert(has_edge(g, c[k1], c[k1 + 1]));
        lemma_graph_deps_key(g, c[k1]);
        let t = choose|t: int| 0 <= t < graph_keys(g).len() && graph_keys(g)[t] == c[k1];
        assert(graph_view(g).len() == g.len());
        assert(graph_view(g)[t].0 == g[t].node@);
        assert(graph_view(g)[t].0 == graph_of(services_view(services))[t].0);
        assert(services_view(services)[t] == *services[t].service);
        assert(services[t].service.struct_name@ == c[k1]);
        assert(v.contains(services[t].service.struct_name@));
        assert(v.contains(c[k]));
        assert(stopped.contains(c[k]));
        let f = choose|f: int| 0 <= f < found.len() && reaches(g, services[found[f].0 as int].service.struct_name@, c[k]);
        assert(reaches(g, services[found[f].0 as int].service.struct_name@, c[k]));
    }
}

/// Adding an element that does not occur keeps a sequence free of
/// duplicates.
proof fn lemma_push_no_duplicates(s: Seq<Seq<char>>, x: Seq<char>)
    requires
        s.no_duplicates(),
        !s.contains(x),
    ensures
        s.push(x).no_duplicates(),
{
    let t = s.push(x);
    assert forall|i: int, j: int| 0 <= i < t.len() && 0 <= j < t.len() && i != j implies t[i] != t[j] by {
        if i == s.len() {
            assert(t[j] == s[j]);
        } else if j == s.len() {
            assert(t[i] == s[i]);
        } else {
            assert(t[i] == s[i] && t[j] == s[j]);
        }
    }
}

/// A part of a sequence free of duplicates is free of duplicates.
proof fn lemma_subrange_no_duplicates(s: Seq<Seq<char>>, a: int, b: int)
    requires
        s.no_duplicates(),
        0 <= a <= b <= s.len(),
    ensures
        s.subrange(a, b).no_duplicates(),
{
    let t = s.subrange(a, b);
    assert forall|i: int, j: int| 0 <= i < t.len() && 0 <= j < t.len() && i != j implies t[i] != t[j] by {
        assert(t[i] == s[a + i] && t[j] == s[a + j]);
    }
}

proof fn lemma_service_position(ss: Seq<ServiceMacro>, name: Seq<char>)
    ensures
        match service_position(ss, name) {
            Some(i) => 0 <= i < ss.len() && ss[i].struct_name@ == name && forall|t: int| 0 <= t < i ==> ss[t].struct_name@ != name,
            None => forall|t: int| 0 <= t < ss.len() ==> ss[t].struct_name@ != name,
        },
    decreases ss.len(),
{
    if ss.len() > 0 {
        lemma_service_position(ss.drop_last(), name);
        assert forall|t: int| 0 <= t < ss.len() - 1 implies ss.drop_last()[t] == ss[t] by {}
        assert(ss.last() == ss[ss.len() - 1]);
    }
}

impl DependencyInjectionValidator {
    /// Depth-first search from `node` for a cycle. `path` is the walk that
    /// leads to `node`; nodes in `stopped` were left behind by earlier
    /// searches that stopped at a cycle, and count as searched.
    fn detect_cycle_dfs(
        &self,
        node: &String,
        graph: &Vec<GraphEntry>,
        visited: &mut Vec<String>,
        path: &mut Vec<String>,
        Ghost(stopped): Ghost<Set<Seq<char>>>,
    ) -> (r: Option<Vec<String>>)
        requires
            !views(old(visited)@).contains(node@),
            is_walk(graph@, views(old(path)@)),
            old(path)@.len() > 0 ==> has_edge(graph@, old(path)@.last()@, node@),
            forall|i: int| 0 <= i < old(path)@.len() ==> views(old(visited)@).contains(#[trigger] old(path)@[i]@),
            views(old(path)@).no_duplicates(),
            stopped.subset_of(views(old(visited)@).to_set()),
            forall|i: int| 0 <= i < old(path)@.len() ==> !stopped.contains(#[trigger] old(path)@[i]@),
        ensures
            views(final(path)@).no_duplicates(),
            forall|x: Seq<char>| #[trigger] views(final(visited)@).contains(x) && !views(old(visited)@).contains(x)
                ==> reaches(graph@, node@, x),
            r matches Some(c) ==> views(c@).drop_last().no_duplicates(),
            views(old(visited)@).to_set().insert(node@).subset_of(views(final(visited)@).to_set()),
            forall|i: int| 0 <= i < final(path)@.len() ==> views(final(visited)@).contains(#[trigger] final(path)@[i]@),
            r is None ==> final(path)@ == old(path)@,
            r matches Some(c) ==> is_cycle(graph@, views(c@)),
            r matches Some(c) ==> c@.len() >= 2 && c@[0]@ == c@.last()@,
            r is None && dfs_ok(graph@, views(old(visited)@), views(old(path)@), stopped) ==> {
                &&& dfs_ok(graph@, views(final(visited)@), views(final(path)@), stopped)
                &&& is_done(views(final(visited)@), views(final(path)@), stopped, node@)
                &&& forall|x: Seq<char>| is_done(views(old(visited)@), views(old(path)@), stopped, x)
                    ==> #[trigger] is_done(views(final(visited)@), views(final(path)@), stopped, x)
            },
        decreases unvisited(graph_keys(graph@), views(old(visited)@).to_set()),
    {
        let ghost v0 = views(visited@).to_set();
        let ghost p0 = path@;
        let ghost vs0 = views(visited@);
        let ghost ps0 = views(path@);
        let ghost ok0 = dfs_ok(graph@, vs0, ps0, stopped);
        proof {
            if ps0.contains(node@) {
                let k = choose|k: int| 0 <= k < ps0.len() && ps0[k] == node@;
                assert(views(old(visited)@).contains(old(path)@[k]@));
            }
            lemma_start_search(graph@, vs0, ps0, stopped, node@);
            assert(!stopped.contains(node@));
        }
        visited.push(node.clone());
        path.push(node.clone());
        proof {
            assert(views(visited@) =~= views(old(visited)@).push(node@));
            assert(views(visited@).to_set() =~= v0.insert(node@)) by {
                broadcast use vstd::seq_lib::group_seq_properties;
            }
            assert(views(path@) =~= views(p0).push(node@));
            lemma_push_no_duplicates(ps0, node@);
            assert forall|x: Seq<char>| #[trigger] views(visited@).contains(x) && !vs0.contains(x) implies reaches(graph@, node@, x) by {
                let k = choose|k: int| 0 <= k < views(visited@).len() && views(visited@)[k] == x;
                if k < vs0.len() {
                    assert(vs0[k] == x);
                }
                lemma_reaches_self(graph@, node@);
            }
            assert forall|i: int| 0 <= i < path@.len() implies !stopped.contains(#[trigger] path@[i]@) by {
                if i < p0.len() {
                    assert(path@[i] == p0[i]);
                }
            }
            assert forall|i: int| 0 <= i < path@.len() implies views(visited@).contains(#[trigger] path@[i]@) by {
                if i < p0.len() {
                    assert(views(old(visited)@).contains(p0[i]@));
                    let k = choose|k: int| 0 <= k < views(old(visited)@).len() && views(old(visited)@)[k] == p0[i]@;
                    assert(views(visited@)[k] == p0[i]@);
                } else {
                    assert(views(visited@)[visited@.len() - 1] == node@);
                }
            }
            assert(is_walk(graph@, views(path@))) by {
                let w = views(path@);
                let w0 = views(p0);
                assert forall|i: int| 0 <= i < w.len() - 1 implies #[trigger] has_edge(graph@, w[i], w[i + 1]) by {
                    if i + 1 < w0.len() {
                        assert(w[i] == w0[i] && w[i + 1] == w0[i + 1]);
                    } else {
                        assert(w[i] == p0.last()@);
                        assert(w[i + 1] == node@);
                    }
                }
            }
        }
        let entry = find_graph_entry(graph, node.as_str());
        if let Some(idx) = entry {
            proof {
                lemma_graph_deps_key(graph@, node@);
            }
            let neighbors = &graph[idx].deps;
            let mut i: usize = 0;
            while i < neighbors.len()
                invariant
                    idx < graph@.len(),
                    neighbors == graph@[idx as int].deps,
                    graph_deps(graph@, node@) == Some(views(neighbors@)),
                    graph_keys(graph@).contains(node@),
                    !v0.contains(node@),
                    v0 == views(old(visited)@).to_set(),
                    v0.insert(node@).subset_of(views(visited@).to_set()),
                    p0 == old(path)@,
                    path@ == p0.push(*node),
                    is_walk(graph@, views(path@)),
                    forall|k: int| 0 <= k < path@.len() ==> views(visited@).contains(#[trigger] path@[k]@),
                    i <= neighbors@.len(),
                    vs0 == views(old(visited)@),
                    ps0 == views(old(path)@),
                    !ps0.contains(node@),
                    views(path@) == ps0.push(node@),
                    views(path@).no_duplicates(),
                    stopped.subset_of(v0),
                    !stopped.contains(node@),
                    forall|k: int| 0 <= k < path@.len() ==> !stopped.contains(#[trigger] path@[k]@),
                    forall|x: Seq<char>| #[trigger] views(visited@).contains(x) && !vs0.contains(x) ==> reaches(graph@, node@, x),
                    ok0 == dfs_ok(graph@, vs0, ps0, stopped),
                    ok0 ==> {
                        &&& dfs_ok(graph@, views(visited@), views(path@), stopped)
                        &&& forall|t: int| 0 <= t < i ==> is_done(views(visited@), views(path@), stopped, #[trigger] neighbors@[t]@)
                            || stopped.contains(neighbors@[t]@)
                        &&& forall|x: Seq<char>| is_done(vs0, ps0, stopped, x) ==> #[trigger] is_done(views(visited@), views(path@), stopped, x)
                    },
                decreases neighbors@.len() - i,
            {
                let n = &neighbors[i];
                assert(views(neighbors@)[i as int] == n@);
                assert(has_edge(graph@, node@, n@));
                if !crate::text::contains_string(visited, n.as_str()) {
                    proof {
                        assert(views(path@)[path@.len() - 1] == node@);
                        lemma_unvisited_strict(graph_keys(graph@), v0, views(visited@).to_set(), node@);
                    }
                    let ghost vb = views(visited@);
                    let ghost pb = views(path@);
                    proof {
                        assert(stopped.subset_of(views(visited@).to_set())) by {
                            assert forall|x: Seq<char>| stopped.contains(x) implies #[trigger] views(visited@).to_set().contains(x) by {
                                assert(v0.contains(x));
                                assert(v0.insert(node@).contains(x));
                            }
                        }
                    }
                    let found = self.detect_cycle_dfs(n, graph, visited, path, Ghost(stopped));
                    proof {
                        assert forall|x: Seq<char>| #[trigger] views(visited@).contains(x) && !vs0.contains(x) implies reaches(graph@, node@, x) by {
                            if !vb.contains(x) {
                                lemma_reaches_step(graph@, node@, n@, x);
                            }
                        }
                        if found is None && ok0 {
                            assert(views(path@) == pb);
                            assert forall|t: int| 0 <= t < i + 1 implies is_done(views(visited@), views(path@), stopped, #[trigger] neighbors@[t]@)
                                || stopped.contains(neighbors@[t]@) by {
                                if t < i {
                                    if !stopped.contains(neighbors@[t]@) {
                                        assert(is_done(vb, pb, stopped, neighbors@[t]@));
                                    }
                                }
                            }
                            assert forall|x: Seq<char>| is_done(vs0, ps0, stopped, x) implies #[trigger] is_done(views(visited@), views(path@), stopped, x) by {
                                assert(is_done(vb, pb, stopped, x));
                            }
                        }
                    }
                    if let Some(c) = found {
                        return Some(c);
                    }
                } else {
                    match position_of(path, n.as_str()) {
                        Some(p) => {
                            let mut cycle: Vec<String> = Vec::new();
                            let mut q = p;
                            while q < path.len()
                                invariant
                                    p <= q <= path@.len(),
                                    cycle@.len() == q - p,
                                    forall|t: int| 0 <= t < cycle@.len() ==> #[trigger] cycle@[t]@ == path@[p + t]@,
                                decreases path@.len() - q,
                            {
                                cycle.push(path[q].clone());
                                q = q + 1;
                            }
                            cycle.push(n.clone());
                            proof {
                                let cv = views(cycle@);
                                let pv = views(path@);
                                assert(cv.drop_last() =~= pv.subrange(p as int, pv.len() as int));
                                lemma_subrange_no_duplicates(pv, p as int, pv.len() as int);
                                assert forall|t: int| 0 <= t < cv.len() - 1 implies #[trigger] has_edge(graph@, cv[t], cv[t + 1]) by {
                                    if t + 1 < cv.len() - 1 {
                                        assert(cv[t] == pv[p + t]);
                                        assert(cv[t + 1] == pv[p + t + 1]);
                                    } else {
                                        assert(cv[t] == pv[path@.len() - 1]);
                                        assert(pv[path@.len() - 1] == node@);
                                        assert(cv[t + 1] == n@);
                                    }
                                }
                                assert(cv[0] == path@[p as int]@);
                                assert(cv.last() == n@);
                            }
                            return Some(cycle);
                        },
                        None => {
                            proof {
                                assert(views(visited@).contains(n@));
                                assert(is_done(views(visited@), views(path@), stopped, n@) || stopped.contains(n@));
                            }
                        },
                    }
                }
                i = i + 1;
            }
            proof {
                if ok0 {
                    assert forall|y: Seq<char>| #[trigger] has_edge(graph@, node@, y) implies is_done(views(visited@), ps0.push(node@), stopped, y)
                        || stopped.contains(y) by {
                        let t = choose|t: int| 0 <= t < views(neighbors@).len() && views(neighbors@)[t] == y;
                        assert(is_done(views(visited@), views(path@), stopped, neighbors@[t]@) || stopped.contains(neighbors@[t]@));
                    }
                    assert(views(visited@).contains(node@)) by {
                        assert(views(visited@).contains(path@[path@.len() - 1]@));
                    }
                    lemma_finish_search(graph@, views(visited@), ps0, stopped, node@);
                }
            }
        } else {
            proof {
                if ok0 {
                    assert forall|y: Seq<char>| #[trigger] has_edge(graph@, node@, y) implies is_done(views(visited@), ps0.push(node@), stopped, y)
                        || stopped.contains(y) by {}
                    assert(views(visited@).contains(node@)) by {
                        assert(views(visited@).contains(path@[path@.len() - 1]@));
                    }
                    lemma_finish_search(graph@, views(visited@), ps0, stopped, node@);
                }
            }
        }
        path.pop();
        proof {
            assert(path@ =~= p0);
            assert(views(path@) == ps0);
        }
        None
    }

    /// Finds the dependency cycles among services: a search from each
    /// service not yet visited, in order and with a fresh path, reports the
    /// cycle it finds at that service. Every cycle of the graph runs through
    /// a node that a search which reported a cycle reached.
    fn find_cycles(&self, services: &Vec<ServiceInfo>) -> (r: (Vec<GraphEntry>, Vec<(usize, Vec<String>)>))
        ensures
            forall|k: int| 0 <= k < r.1@.len() ==> (#[trigger] r.1@[k]).0 < services@.len() && r.1@[k].1@.len() >= 2
                && r.1@[k].1@[0]@ == r.1@[k].1@.last()@ && is_cycle(r.0@, views(r.1@[k].1@))
                && views(r.1@[k].1@).drop_last().no_duplicates(),
            cycles_reached(r.0@, services@, r.1@),
            graph_view(r.0@) == graph_of(services_view(services@)),
    {
        let mut graph: Vec<GraphEntry> = Vec::new();
        let mut i: usize = 0;
        while i < services.len()
            invariant
                i <= services@.len(),
                graph_view(graph@) == graph_of(services_view(services@)).subrange(0, i as int),
            decreases services@.len() - i,
        {
            let deps = service_deps(&services[i].service.fields);
            let entry = GraphEntry { node: services[i].service.struct_name.clone(), deps };
            let ghost before = graph@;
            graph.push(entry);
            proof {
                assert(graph_view(before).len() == before.len());
                assert(graph_of(services_view(services@)).subrange(0, i as int).len() == i);
                assert(before.len() == i);
                assert(graph@ =~= before.push(entry));
                assert(graph@[i as int] == entry);
                assert(graph_view(graph@)[i as int] == (entry.node@, views(entry.deps@)));
                assert(services_view(services@)[i as int] == *services@[i as int].service);
                assert(graph_of(services_view(services@))[i as int] == (services@[i as int].service.struct_name@, spec_service_deps(services@[i as int].service.fields@)));
                assert forall|t: int| 0 <= t < i implies graph_view(graph@)[t] == graph_view(before)[t] by {
                    assert(graph@[t] == before[t]);
                }
                assert(graph_view(graph@) =~= graph_of(services_view(services@)).subrange(0, i + 1));
            }
            i = i + 1;
        }
        proof {
            assert(graph_of(services_view(services@)).subrange(0, services@.len() as int) =~= graph_of(services_view(services@)));
        }
        let mut visited: Vec<String> = Vec::new();
        let mut found: Vec<(usize, Vec<String>)> = Vec::new();
        let ghost mut stopped: Set<Seq<char>> = Set::empty();
        let mut j: usize = 0;
        proof {
            assert(views(visited@) =~= Seq::<Seq<char>>::empty());
            assert forall|c: Seq<Seq<char>>| #[trigger] is_cycle(graph@, c) implies exists|k: int| 0 <= k < c.len()
                && !is_done(views(visited@), Seq::empty(), stopped, c[k]) by {
                assert(!is_done(views(visited@), Seq::empty(), stopped, c[0]));
            }
        }
        while j < services.len()
            invariant
                j <= services@.len(),
                graph_view(graph@) == graph_of(services_view(services@)),
                forall|k: int| 0 <= k < found@.len() ==> (#[trigger] found@[k]).0 < services@.len() && found@[k].1@.len() >= 2
                    && found@[k].1@[0]@ == found@[k].1@.last()@ && is_cycle(graph@, views(found@[k].1@))
                    && views(found@[k].1@).drop_last().no_duplicates(),
                stopped.subset_of(views(visited@).to_set()),
                dfs_ok(graph@, views(visited@), Seq::empty(), stopped),
                forall|x: Seq<char>| #[trigger] stopped.contains(x) ==> exists|f: int| 0 <= f < found@.len()
                    && reaches(graph@, services@[found@[f].0 as int].service.struct_name@, x),
                forall|t: int| 0 <= t < j ==> views(visited@).contains(#[trigger] services@[t].service.struct_name@),
            decreases services@.len() - j,
        {
            let name = &services[j].service.struct_name;
            let ghost vb = views(visited@);
            if !crate::text::contains_string(&visited, name.as_str()) {
                let mut path: Vec<String> = Vec::new();
                proof {
                    assert(views(path@) =~= Seq::<Seq<char>>::empty());
                }
                let ghost before_found = found@;
                match self.detect_cycle_dfs(name, &graph, &mut visited, &mut path, Ghost(stopped)) {
                    Some(c) => {
                        found.push((j, c));
                        proof {
                            assert(views(Seq::<String>::empty()) =~= Seq::<Seq<char>>::empty());
                            assert(found@[found@.len() - 1] == (j, c));
                            let vn = views(visited@);
                            let s2 = stopped.union(vn.to_set().difference(vb.to_set()));
                            lemma_stop_search(graph@, vb, vn, stopped);
                            assert forall|x: Seq<char>| #[trigger] s2.contains(x) implies exists|f: int| 0 <= f < found@.len()
                                && reaches(graph@, services@[found@[f].0 as int].service.struct_name@, x) by {
                                if stopped.contains(x) {
                                    let f = choose|f: int| 0 <= f < before_found.len()
                                        && reaches(graph@, services@[before_found[f].0 as int].service.struct_name@, x);
                                    assert(found@[f] == before_found[f]);
                                } else {
                                    assert(vn.to_set().contains(x));
                                    assert(!vb.to_set().contains(x));
                                    assert(vn.contains(x) && !vb.contains(x));
                                    assert(reaches(graph@, name@, x));
                                    assert(found@[found@.len() - 1].0 == j);
                                }
                            }
                            assert(s2.subset_of(vn.to_set()));
                            stopped = s2;
                            assert forall|t: int| 0 <= t < j + 1 implies vn.contains(#[trigger] services@[t].service.struct_name@) by {
                                if t < j {
                                    assert(vb.to_set().contains(services@[t].service.struct_name@));
                                    assert(vn.to_set().contains(services@[t].service.struct_name@));
                                } else {
                                    assert(vn.to_set().contains(name@));
                                }
                            }
                        }
                    },
                    None => {
                        proof {
                            assert(views(path@) =~= Seq::<Seq<char>>::empty());
                            let vn = views(visited@);
                            assert forall|x: Seq<char>| #[trigger] stopped.contains(x) implies vn.to_set().contains(x) by {
                                assert(vb.to_set().contains(x));
                            }
                            assert forall|t: int| 0 <= t < j + 1 implies vn.contains(#[trigger] services@[t].service.struct_name@) by {
                                if t < j {
                                    assert(vb.to_set().contains(services@[t].service.struct_name@));
                                    assert(vn.to_set().contains(services@[t].service.struct_name@));
                                } else {
                                    assert(vn.to_set().contains(name@));
                                }
                            }
                        }
                    },
                }
            }
            j = j + 1;
        }
        proof {
            lemma_cycles_reached(graph@, services@, views(visited@), stopped, found@);
        }
        (graph, found)
    }

    /// Reports the dependency cycles among services as warnings at the
    /// services where they are found, suggesting `LazyComponent<T>`.
    fn detect_circular_dependencies(&self, services: &Vec<ServiceInfo>) -> (r: Vec<Diagnostic>)
        ensures
            reports_real_cycles(diagnostics_view(r@), services_view(services@)),
            reports_reach_cycles(diagnostics_view(r@), services_view(services@)),
            services_acyclic(services_view(services@)) <==> r@.len() == 0,
    {
        let (graph, cycles) = self.find_cycles(services);
        let ghost sv = services_view(services@);
        let mut diagnostics: Vec<Diagnostic> = Vec::new();
        let mut k: usize = 0;
        while k < cycles.len()
            invariant
                k <= cycles@.len(),
                diagnostics@.len() == k,
                forall|t: int| 0 <= t < cycles@.len() ==> (#[trigger] cycles@[t]).0 < services@.len(),
                forall|t: int| 0 <= t < k ==> #[trigger] diagnostics@[t]@ == cycle_diagnostic(
                    services@[cycles@[t].0 as int].service.range,
                    views(cycles@[t].1@),
                ),
            decreases cycles@.len() - k,
        {
            let (si, c) = (cycles[k].0, &cycles[k].1);
            let m = cycle_message(c);
            diagnostics.push(Diagnostic::server(services[si].service.range, DiagnosticSeverity::Warning, "circular-dependency", m));
            k = k + 1;
        }
        proof {
            let ds = diagnostics_view(diagnostics@);
            assert forall|t: int| 0 <= t < ds.len() implies #[trigger] ds[t] == cycle_diagnostic(
                services@[cycles@[t].0 as int].service.range, views(cycles@[t].1@)) by {
                assert(ds[t] == diagnostics@[t]@);
            }
            lemma_reports_real(graph@, services@, cycles@, ds);
            lemma_reports_reach(graph@, services@, cycles@, ds);
        }
        diagnostics
    }
}

/// What the diagnostics of the cycles found are made of.
pub open spec fn reports_of(g: Seq<GraphEntry>, services: Seq<ServiceInfo>, cycles: Seq<(usize, Vec<String>)>, ds: Seq<DiagnosticV>) -> bool {
    &&& graph_view(g) == graph_of(services_view(services))
    &&& forall|k: int| 0 <= k < cycles.len() ==> (#[trigger] cycles[k]).0 < services.len()
        && is_cycle(g, views(cycles[k].1@)) && views(cycles[k].1@).drop_last().no_duplicates()
    &&& ds.len() == cycles.len()
    &&& forall|t: int| 0 <= t < ds.len() ==> #[trigger] ds[t] == cycle_diagnostic(
        services[cycles[t].0 as int].service.range, views(cycles[t].1@))
}

/// The diagnostics of the cycles that the searches found report real
/// cycles.
proof fn lemma_reports_real(g: Seq<GraphEntry>, services: Seq<ServiceInfo>, cycles: Seq<(usize, Vec<String>)>, ds: Seq<DiagnosticV>)
    requires
        reports_of(g, services, cycles, ds),
    ensures
        reports_real_cycles(ds, services_view(services)),
        ds.len() > 0 ==> !services_acyclic(services_view(services)),
{
    reveal(reports_real_cycles);
    let sv = services_view(services);
    assert forall|t: int| 0 <= t < ds.len() implies exists|si: int, c: Seq<Seq<char>>| 0 <= si < sv.len()
        && cycle_v(graph_of(sv), c) && c.drop_last().no_duplicates()
        && #[trigger] ds[t] == cycle_diagnostic(sv[si].range, c) by {
        let c = views(cycles[t].1@);
        let si = cycles[t].0 as int;
        assert(cycles[t].0 < services.len());
        assert(is_cycle(g, c) && c.drop_last().no_duplicates());
        lemma_cycle_view(g, c);
        assert(sv[si] == *services[si].service);
        assert(ds[t] == cycle_diagnostic(services[si].service.range, c));
        assert(ds[t] == cycle_diagnostic(sv[si].range, c));
    }
    if ds.len() > 0 {
        let c = views(cycles[0].1@);
        assert(is_cycle(g, c));
        lemma_cycle_view(g, c);
    }
}

/// The diagnostics of the cycles that the searches found reach every
/// cycle.
proof fn lemma_reports_reach(g: Seq<GraphEntry>, services: Seq<ServiceInfo>, cycles: Seq<(usize, Vec<String>)>, ds: Seq<DiagnosticV>)
    requires
        reports_of(g, services, cycles, ds),
        cycles_reached(g, services, cycles),
    ensures
        reports_reach_cycles(ds, services_view(services)),
        ds.len() == 0 ==> services_acyclic(services_view(services)),
{
    reveal(reports_reach_cycles);
    let sv = services_view(services);
    assert forall|c: Seq<Seq<char>>| #[trigger] cycle_v(graph_of(sv), c) implies exists|t: int, si: int, k: int|
        0 <= t < ds.len() && 0 <= si < sv.len() && 0 <= k < c.len() && (#[trigger] ds[t]).range == sv[si].range
        && #[trigger] reaches_v(graph_of(sv), sv[si].struct_name@, c[k]) by {
        lemma_cycle_view_back(g, c);
        let (f, k) = choose|f: int, k: int| 0 <= f < cycles.len() && 0 <= k < c.len()
            && #[trigger] reaches(g, services[cycles[f].0 as int].service.struct_name@, c[k]);
        let si = cycles[f].0 as int;
        assert(cycles[f].0 < services.len());
        lemma_reaches_view(g, services[si].service.struct_name@, c[k]);
        assert(sv[si] == *services[si].service);
        assert(ds[f] == cycle_diagnostic(services[si].service.range, views(cycles[f].1@)));
        assert(ds[f].range == sv[si].range);
    }
}

/// Each diagnostic reports, at one of the services, a cycle of their
/// dependency graph that repeats no node before its end.
#[verifier::opaque]
pub open spec fn reports_real_cycles(ds: Seq<DiagnosticV>, services: Seq<ServiceMacro>) -> bool {
    forall|t: int| 0 <= t < ds.len() ==> exists|si: int, c: Seq<Seq<char>>| 0 <= si < services.len()
        && cycle_v(graph_of(services), c) && c.drop_last().no_duplicates()
        && #[trigger] ds[t] == cycle_diagnostic(services[si].range, c)
}

/// Every cycle of the dependency graph runs through a node that a walk
/// reaches from a service at whose range a diagnostic is reported.
#[verifier::opaque]
pub open spec fn reports_reach_cycles(ds: Seq<DiagnosticV>, services: Seq<ServiceMacro>) -> bool {
    forall|c: Seq<Seq<char>>| #[trigger] cycle_v(graph_of(services), c) ==> exists|t: int, si: int, k: int|
        0 <= t < ds.len() && 0 <= si < services.len() && 0 <= k < c.len() && (#[trigger] ds[t]).range == services[si].range
        && #[trigger] reaches_v(graph_of(services), services[si].struct_name@, c[k])
}

fn service_deps(fields: &Vec<Field>) -> (r: Vec<String>)
    ensures
        views(r@) == spec_service_deps(fields@),
{
    let mut out: Vec<String> = Vec::new();
    let mut i: usize = 0;
    while i < fields.len()
        invariant
            i <= fields@.len(),
            views(out@) == spec_service_deps(fields@.subrange(0, i as int)),
        decreases fields@.len() - i,
    {
        proof {
            assert(fields@.subrange(0, i + 1).drop_last() =~= fields@.subrange(0, i as int));
        }
        let f = &fields[i];
        let is_component = match &f.inject {
            Some(inj) => inj.inject_type == InjectType::Component,
            None => false,
        };
        if is_component && !contains_str(f.ty_name.as_str(), "LazyComponent") {
            out.push(f.ty_name.clone());
            proof {
                assert(views(out@) =~= views(out@.drop_last()).push(f.ty_name@));
            }
        }
        i = i + 1;
    }
    proof {
        assert(fields@.subrange(0, fields@.len() as int) =~= fields@);
    }
    out
}

pub fn join_strings(parts: &Vec<String>, sep: &str) -> (r: String)
    ensures
        r@ == join(views(parts@), sep@),
{
    let mut s = String::new();
    let mut i: usize = 0;
    while i < parts.len()
        invariant
            i <= parts@.len(),
            s@ == join(views(parts@).subrange(0, i as int), sep@),
        decreases parts@.len() - i,
    {
        proof {
            assert(views(parts@).subrange(0, i + 1).drop_last() =~= views(parts@).subrange(0, i as int));
            assert(views(parts@).subrange(0, i + 1).last() == parts@[i as int]@);
        }
        if i > 0 {
            s.append(sep);
        }
        s.append(parts[i].as_str());
        proof {
            if i == 0 {
                assert(views(parts@).subrange(0, 1)[0] == parts@[0]@);
                assert(s@ =~= join(views(parts@).subrange(0, 1), sep@));
            }
        }
        i = i + 1;
    }
    proof {
        assert(views(parts@).subrange(0, parts@.len() as int) =~= views(parts@));
    }
    s
}

fn cycle_message(cycle: &Vec<String>) -> (r: String)
    ensures
        r@ == "检测到循环依赖: "@ + join(views(cycle@), " -> "@) + "。建议使用 LazyComponent<T> 打破循环。"@,
{
    let mut m = String::from_str("检测到循环依赖: ");
    let joined = join_strings(cycle, " -> ");
    m.append(joined.as_str());
    m.append("。建议使用 LazyComponent<T> 打破循环。");
    m
}

} // verus!
