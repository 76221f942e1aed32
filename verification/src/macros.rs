//! The summer-rs macros found in a Rust source file, as plain values:
//! services and their injected fields, component functions, routes, jobs
//! and auto-configuration.

use vstd::prelude::*;
use crate::lsp::Range;
use crate::scanner::route::HttpMethod;

verus! {

/// What an `#[inject(..)]` attribute injects.
#[derive(Debug, Clone, Copy, PartialEq, Eq, Structural)]
pub enum InjectType {
    Component,
    Config,
}

/// An `#[inject(component)]`, `#[inject(component = "name")]` or
/// `#[inject(config)]` attribute.
#[derive(Debug)]
pub struct InjectMacro {
    pub inject_type: InjectType,
    pub component_name: Option<String>,
    pub range: Range,
}

/// A field of a service.
#[derive(Debug)]
pub struct Field {
    pub name: String,
    pub ty_name: String,
    pub inject: Option<InjectMacro>,
}

/// The scope of a service.
#[derive(Debug, Clone, Copy, PartialEq, Eq, Structural)]
pub enum ServiceScope {
    Singleton,
    Prototype,
}

/// A struct with `#[derive(Service)]`.
#[derive(Debug)]
pub struct ServiceMacro {
    pub struct_name: String,
    pub fields: Vec<Field>,
    pub scope: ServiceScope,
    pub range: Range,
}

/// A parameter of a `#[component]` function.
#[derive(Debug)]
pub struct ComponentDependency {
    pub name: String,
    pub ty_name: String,
}

/// A function with `#[component]`.
#[derive(Debug)]
pub struct ComponentMacro {
    pub function_name: String,
    pub component_type: String,
    pub dependencies: Vec<ComponentDependency>,
    pub range: Range,
}

/// A route handler with a method and path attribute.
#[derive(Debug)]
pub struct RouteMacro {
    pub path: String,
    pub methods: Vec<HttpMethod>,
    pub middlewares: Vec<String>,
    pub handler_name: String,
    pub is_openapi: bool,
    pub range: Range,
}

/// A scheduled job: the function under the attribute, and its schedule.
#[derive(Debug)]
pub enum JobMacro {
    Cron { function_name: String, expression: String, range: Range },
    FixDelay { function_name: String, seconds: u64, range: Range },
    FixRate { function_name: String, seconds: u64, range: Range },
}

/// An `#[auto_config(..)]` attribute.
#[derive(Debug)]
pub struct AutoConfigMacro {
    pub configurator_type: String,
    pub range: Range,
}

/// A summer-rs macro.
#[derive(Debug)]
pub enum SummerMacro {
    DeriveService(ServiceMacro),
    Component(ComponentMacro),
    Inject(InjectMacro),
    AutoConfig(AutoConfigMacro),
    Route(RouteMacro),
    Job(JobMacro),
}

/// The macros of one Rust source file.
#[derive(Debug)]
pub struct RustDocument {
    pub uri: String,
    pub macros: Vec<SummerMacro>,
}

} // verus!
