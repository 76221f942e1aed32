//! The component scanner: lists the services (`#[derive(Service)]`) and
//! component functions (`#[component]`) of a project or of the summer-rs
//! projects of a workspace.

use vstd::prelude::*;
use std::io::Error as IoError;
use crate::lsp::{LocationResponse, RangeResponse, range_response};
use crate::macros::{RustDocument, SummerMacro, ServiceMacro, ComponentMacro, ServiceScope};
use crate::text::{contains_seq, contains_str, views};

verus! {

/// The scope of a component.
#[derive(Debug, Clone, Copy, PartialEq, Eq, Structural)]
pub enum ComponentScope {
    Singleton,
    Prototype,
}

/// How a component is defined.
#[derive(Debug, Clone, Copy, PartialEq, Eq, Structural)]
pub enum ComponentSource {
    Service,
    Component,
}

/// A component as the components request reports it.
#[derive(Debug)]
pub struct ComponentInfoResponse {
    pub name: String,
    pub ty_name: String,
    pub scope: ComponentScope,
    pub source: ComponentSource,
    pub dependencies: Vec<String>,
    pub location: LocationResponse,
}

/// The parameters of the components request.
#[derive(Debug)]
pub struct ComponentsRequest {
    pub app_path: String,
}

/// The answer to the components request.
#[derive(Debug)]
pub struct ComponentsResponse {
    pub components: Vec<ComponentInfoResponse>,
}

/// Why a scan failed.
#[derive(Debug)]
pub enum ScanError {
    FileRead(IoError),
    InvalidProject(String),
    NoComponents,
}

/// One project of a workspace: its manifest's text, whether it has a `src`
/// directory, and the documents found there.
#[derive(Debug)]
pub struct ProjectSources {
    pub manifest: String,
    pub has_src: bool,
    pub documents: Vec<RustDocument>,
}

/// The content of a component entry.
pub struct ComponentV {
    pub name: Seq<char>,
    pub ty_name: Seq<char>,
    pub scope: ComponentScope,
    pub source: ComponentSource,
    pub dependencies: Seq<Seq<char>>,
    pub uri: Seq<char>,
    pub range: RangeResponse,
}

pub open spec fn component_view(c: ComponentInfoResponse) -> ComponentV {
    ComponentV {
        name: c.name@,
        ty_name: c.ty_name@,
        scope: c.scope,
        source: c.source,
        dependencies: views(c.dependencies@),
        uri: c.location.uri@,
        range: c.location.range,
    }
}

pub open spec fn components_view(cs: Seq<ComponentInfoResponse>) -> Seq<ComponentV> {
    Seq::new(cs.len(), |i: int| component_view(cs[i]))
}

/// The types of the fields of a service that have an `#[inject]`, in order.
pub open spec fn injected_types(fields: Seq<crate::macros::Field>) -> Seq<Seq<char>>
    decreases fields.len(),
{
    if fields.len() == 0 {
        seq![]
    } else {
        let rest = injected_types(fields.drop_last());
        if fields.last().inject is Some {
            rest.push(fields.last().ty_name@)
        } else {
            rest
        }
    }
}

pub open spec fn scope_of(s: ServiceScope) -> ComponentScope {
    match s {
        ServiceScope::Singleton => ComponentScope::Singleton,
        ServiceScope::Prototype => ComponentScope::Prototype,
    }
}

/// The component a macro defines, if it defines one: a service is named by
/// its struct and depends on its injected fields; a component function is
/// named by the type it returns, is a singleton, and depends on its
/// parameters' types.
pub open spec fn macro_component(uri: Seq<char>, m: SummerMacro) -> Option<ComponentV> {
    match m {
        SummerMacro::DeriveService(s) => Some(
            ComponentV {
                name: s.struct_name@,
                ty_name: s.struct_name@,
                scope: scope_of(s.scope),
                source: ComponentSource::Service,
                dependencies: injected_types(s.fields@),
                uri,
                range: range_response(s.range),
            },
        ),
        SummerMacro::Component(c) => Some(
            ComponentV {
                name: c.component_type@,
                ty_name: c.component_type@,
                scope: ComponentScope::Singleton,
                source: ComponentSource::Component,
                dependencies: Seq::new(c.dependencies@.len(), |i: int| c.dependencies@[i].ty_name@),
                uri,
                range: range_response(c.range),
            },
        ),
        _ => None,
    }
}

/// The components of a document's macros, in order.
pub open spec fn document_components(uri: Seq<char>, ms: Seq<SummerMacro>) -> Seq<ComponentV>
    decreases ms.len(),
{
    if ms.len() == 0 {
        seq![]
    } else {
        let rest = document_components(uri, ms.drop_last());
        match macro_component(uri, ms.last()) {
            Some(c) => rest.push(c),
            None => rest,
        }
    }
}

/// The components of all documents, in order.
pub open spec fn all_components(docs: Seq<RustDocument>) -> Seq<ComponentV>
    decreases docs.len(),
{
    if docs.len() == 0 {
        seq![]
    } else {
        all_components(docs.drop_last()) + document_components(docs.last().uri@, docs.last().macros@)
    }
}

/// Whether a manifest depends on summer-rs: it mentions `summer` and one of
/// `summer-web`, `summer-sqlx`, `summer-redis` or `"summer"`.
pub open spec fn spec_is_summer_rs_project(manifest: Seq<char>) -> bool {
    contains_seq(manifest, "summer"@) && (contains_seq(manifest, "summer-web"@) || contains_seq(manifest, "summer-sqlx"@)
        || contains_seq(manifest, "summer-redis"@) || contains_seq(manifest, "\"summer\""@))
}

/// The components of the summer-rs projects among `projects` that have a
/// `src` directory, in order.
pub open spec fn workspace_components(projects: Seq<ProjectSources>) -> Seq<ComponentV>
    decreases projects.len(),
{
    if projects.len() == 0 {
        seq![]
    } else {
        let p = projects.last();
        workspace_components(projects.drop_last()) + if p.has_src && spec_is_summer_rs_project(p.manifest@) {
            all_components(p.documents@)
        } else {
            seq![]
        }
    }
}

fn service_dependencies(s: &ServiceMacro) -> (r: Vec<String>)
    ensures
        views(r@) == injected_types(s.fields@),
{
    let mut out: Vec<String> = Vec::new();
    let mut i: usize = 0;
    while i < s.fields.len()
        invariant
            i <= s.fields@.len(),
            views(out@) == injected_types(s.fields@.subrange(0, i as int)),
        decreases s.fields@.len() - i,
    {
        proof {
            assert(s.fields@.subrange(0, i + 1).drop_last() =~= s.fields@.subrange(0, i as int));
        }
        if s.fields[i].inject.is_some() {
            out.push(s.fields[i].ty_name.clone());
            proof {
                assert(views(out@) =~= views(out@.drop_last()).push(out@.last()@));
            }
        }
        i = i + 1;
    }
    proof {
        assert(s.fields@.subrange(0, s.fields@.len() as int) =~= s.fields@);
    }
    out
}

fn component_dependencies(c: &ComponentMacro) -> (r: Vec<String>)
    ensures
        views(r@) == Seq::new(c.dependencies@.len(), |i: int| c.dependencies@[i].ty_name@),
{
    let mut out: Vec<String> = Vec::new();
    let mut i: usize = 0;
    while i < c.dependencies.len()
        invariant
            i <= c.dependencies@.len(),
            out@.len() == i,
            forall|k: int| 0 <= k < i ==> #[trigger] out@[k]@ == c.dependencies@[k].ty_name@,
        decreases c.dependencies@.len() - i,
    {
        out.push(c.dependencies[i].ty_name.clone());
        i = i + 1;
    }
    proof {
        assert(views(out@) =~= Seq::new(c.dependencies@.len(), |i: int| c.dependencies@[i].ty_name@));
    }
    out
}

fn component_of(uri: &String, m: &SummerMacro) -> (r: Option<ComponentInfoResponse>)
    ensures
        match r {
            Some(c) => macro_component(uri@, *m) == Some(component_view(c)),
            None => macro_component(uri@, *m) is None,
        },
{
    match m {
        SummerMacro::DeriveService(s) => {
            let scope = match s.scope {
                ServiceScope::Singleton => ComponentScope::Singleton,
                ServiceScope::Prototype => ComponentScope::Prototype,
            };
            Some(
                ComponentInfoResponse {
                    name: s.struct_name.clone(),
                    ty_name: s.struct_name.clone(),
                    scope,
                    source: ComponentSource::Service,
                    dependencies: service_dependencies(s),
                    location: LocationResponse::from_range(uri, s.range),
                },
            )
        },
        SummerMacro::Component(c) => Some(
            ComponentInfoResponse {
                name: c.component_type.clone(),
                ty_name: c.component_type.clone(),
                scope: ComponentScope::Singleton,
                source: ComponentSource::Component,
                dependencies: component_dependencies(c),
                location: LocationResponse::from_range(uri, c.range),
            },
        ),
        _ => None,
    }
}

fn push_components(out: &mut Vec<ComponentInfoResponse>, documents: &Vec<RustDocument>)
    ensures
        components_view(final(out)@) == components_view(old(out)@) + all_components(documents@),
{
    let ghost start = components_view(out@);
    let mut d: usize = 0;
    while d < documents.len()
        invariant
            d <= documents@.len(),
            components_view(out@) == start + all_components(documents@.subrange(0, d as int)),
        decreases documents@.len() - d,
    {
        let doc = &documents[d];
        let ghost before_doc = components_view(out@);
        let mut k: usize = 0;
        while k < doc.macros.len()
            invariant
                k <= doc.macros@.len(),
                components_view(out@) == before_doc + document_components(doc.uri@, doc.macros@.subrange(0, k as int)),
            decreases doc.macros@.len() - k,
        {
            proof {
                assert(doc.macros@.subrange(0, k + 1).drop_last() =~= doc.macros@.subrange(0, k as int));
            }
            let ghost before = out@;
            match component_of(&doc.uri, &doc.macros[k]) {
                Some(c) => {
                    out.push(c);
                    proof {
                        assert(components_view(out@) =~= components_view(before).push(component_view(c)));
                    }
                },
                None => {},
            }
            proof {
                assert(before_doc + document_components(doc.uri@, doc.macros@.subrange(0, k + 1)) =~= components_view(out@));
            }
            k = k + 1;
        }
        proof {
            assert(doc.macros@.subrange(0, doc.macros@.len() as int) =~= doc.macros@);
            assert(documents@.subrange(0, d + 1).drop_last() =~= documents@.subrange(0, d as int));
            assert(start + all_components(documents@.subrange(0, d + 1)) =~= components_view(out@));
        }
        d = d + 1;
    }
    proof {
        assert(documents@.subrange(0, documents@.len() as int) =~= documents@);
    }
}

/// Lists the components of a project or workspace.
pub struct ComponentScanner {}

impl ComponentScanner {
    pub fn new() -> (r: ComponentScanner) {
        ComponentScanner {}
    }

    /// The components of a project whose `src` directory holds
    /// `documents`; a project without a `src` directory is refused.
    pub fn scan_single_project(&self, has_src: bool, documents: &Vec<RustDocument>) -> (r: Result<Vec<ComponentInfoResponse>, ScanError>)
        ensures
            match r {
                Ok(cs) => has_src && components_view(cs@) == all_components(documents@),
                Err(e) => !has_src && (e matches ScanError::InvalidProject(m) && m@ == "src directory not found"@),
            },
    {
        if !has_src {
            return Err(ScanError::InvalidProject(String::from_str("src directory not found")));
        }
        let mut out: Vec<ComponentInfoResponse> = Vec::new();
        push_components(&mut out, documents);
        assert(components_view(out@) =~= all_components(documents@));
        Ok(out)
    }

    /// Whether a manifest's text shows a summer-rs project.
    pub fn is_summer_rs_project(&self, manifest: &str) -> (r: bool)
        ensures
            r == spec_is_summer_rs_project(manifest@),
    {
        contains_str(manifest, "summer") && (contains_str(manifest, "summer-web") || contains_str(manifest, "summer-sqlx")
            || contains_str(manifest, "summer-redis") || contains_str(manifest, "\"summer\""))
    }

    /// The components of the summer-rs projects of a workspace that have a
    /// `src` directory.
    pub fn scan_workspace(&self, projects: &Vec<ProjectSources>) -> (r: Vec<ComponentInfoResponse>)
        ensures
            components_view(r@) == workspace_components(projects@),
    {
        let mut out: Vec<ComponentInfoResponse> = Vec::new();
        let mut i: usize = 0;
        while i < projects.len()
            invariant
                i <= projects@.len(),
                components_view(out@) == workspace_components(projects@.subrange(0, i as int)),
            decreases projects@.len() - i,
        {
            proof {
                assert(projects@.subrange(0, i + 1).drop_last() =~= projects@.subrange(0, i as int));
            }
            let p = &projects[i];
            let ghost before = components_view(out@);
            if p.has_src && self.is_summer_rs_project(p.manifest.as_str()) {
                push_components(&mut out, &p.documents);
            } else {
                assert(before + seq![] =~= before);
            }
            i = i + 1;
        }
        proof {
            assert(projects@.subrange(0, projects@.len() as int) =~= projects@);
        }
        out
    }

    /// The components of a project: the project itself when it has a `src`
    /// directory, otherwise the summer-rs projects of the workspace.
    pub fn scan_components(&self, has_src: bool, documents: &Vec<RustDocument>, projects: &Vec<ProjectSources>) -> (r: Result<Vec<ComponentInfoResponse>, ScanError>)
        ensures
            r matches Ok(cs) && components_view(cs@) == if has_src {
                all_components(documents@)
            } else {
                workspace_components(projects@)
            },
    {
        if has_src {
            self.scan_single_project(true, documents)
        } else {
            Ok(self.scan_workspace(projects))
        }
    }
}

impl Default for ComponentScanner {
    fn default() -> (r: ComponentScanner) {
        ComponentScanner::new()
    }
}

} // verus!
