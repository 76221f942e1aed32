//! Verified core of a language server for summer-rs applications: TOML
//! configuration analysis, schema handling, completion, dependency-injection
//! validation, project scanning and server bookkeeping.

pub mod text;
pub mod document;
pub mod lsp;
pub mod env_vars;
pub mod toml_tree;
pub mod toml_dom;
pub mod json;
pub mod json_dom;
pub mod schema;
pub mod schema_files;
pub mod config;
pub mod logging;
pub mod status;
pub mod error;
pub mod macros;
pub mod index;
pub mod scanner;
pub mod toml_analyzer;
pub mod toml_sections;
pub mod analyzer_laws;
pub mod completion;
pub mod server;
pub mod di_validator;
pub mod decimal;
