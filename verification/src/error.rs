//! Errors of the server, their category, severity and recoverability, and
//! the recovery strategy chosen for each.

use vstd::prelude::*;
use lsp_types::Url;
use std::io::Error as IoError;
use serde_json::Error as SerdeJsonError;
use reqwest::Error as ReqwestError;
use anyhow::Error as AnyhowError;
use lsp_server::ProtocolError;
use crate::text::nat_digits;

verus! {

#[verifier::external_type_specification]
#[verifier::external_body]
pub struct ExProtocolError(ProtocolError);

#[verifier::external_type_specification]
#[verifier::external_body]
pub struct ExIoError(IoError);

#[verifier::external_type_specification]
#[verifier::external_body]
pub struct ExReqwestError(ReqwestError);

#[verifier::external_type_specification]
#[verifier::external_body]
pub struct ExAnyhowError(AnyhowError);

#[verifier::external_type_specification]
#[verifier::external_body]
pub struct ExUrl(Url);

/// An error of the server.
#[derive(Debug)]
pub enum Error {
    Protocol(ProtocolError),
    MessageSend(String),
    MessageReceive(String),
    TomlParse { uri: String, message: String },
    RustParse { uri: String, message: String },
    EnvVarSyntax { uri: String, line: u32, message: String },
    ConfigValidation { uri: String, message: String },
    RouteValidation { uri: String, message: String },
    DiValidation { uri: String, message: String },
    SchemaLoad(String),
    Config(String),
    Io(IoError),
    Json(SerdeJsonError),
    Http(ReqwestError),
    IndexBuild(String),
    Other(AnyhowError),
}

/// The kind of an error.
#[derive(Debug, Clone, Copy, PartialEq, Eq, Structural)]
pub enum ErrorCategory {
    Protocol,
    Parse,
    Validation,
    System,
}

/// How serious an error is, from least to most.
#[derive(Debug, Clone, Copy, PartialEq, Eq, Structural)]
pub enum ErrorSeverity {
    Info,
    Warning,
    Error,
}

/// What to do after an error.
#[derive(Debug, Clone, Copy, PartialEq, Eq, Structural)]
pub enum RecoveryAction {
    RetryConnection,
    PartialParse,
    GenerateDiagnostic,
    UseFallback,
    UseCache,
    SkipOperation,
    Abort,
}

/// The outcome of handling an error.
#[derive(Debug)]
pub struct ErrorHandlingResult {
    pub action: RecoveryAction,
    pub fallback: Option<String>,
    pub notify_client: bool,
}

pub open spec fn spec_category(e: &Error) -> ErrorCategory {
    match e {
        Error::Protocol(_) | Error::MessageSend(_) | Error::MessageReceive(_) => ErrorCategory::Protocol,
        Error::TomlParse { .. } | Error::RustParse { .. } | Error::EnvVarSyntax { .. } => ErrorCategory::Parse,
        Error::ConfigValidation { .. } | Error::RouteValidation { .. } | Error::DiValidation { .. } => ErrorCategory::Validation,
        _ => ErrorCategory::System,
    }
}

pub open spec fn spec_recoverable(e: &Error) -> bool {
    match e {
        Error::Config(_) | Error::Io(_) | Error::Json(_) | Error::Other(_) => false,
        _ => true,
    }
}

pub open spec fn spec_severity(e: &Error) -> ErrorSeverity {
    match e {
        Error::Protocol(_) | Error::MessageSend(_) | Error::MessageReceive(_) => ErrorSeverity::Error,
        Error::TomlParse { .. } | Error::RustParse { .. } | Error::EnvVarSyntax { .. } => ErrorSeverity::Warning,
        Error::ConfigValidation { .. } | Error::RouteValidation { .. } | Error::DiValidation { .. } => ErrorSeverity::Info,
        Error::SchemaLoad(_) | Error::Http(_) | Error::IndexBuild(_) => ErrorSeverity::Warning,
        _ => ErrorSeverity::Error,
    }
}

pub open spec fn spec_document_uri(e: &Error) -> Option<Seq<char>> {
    match e {
        Error::TomlParse { uri, .. } | Error::RustParse { uri, .. } | Error::EnvVarSyntax { uri, .. }
        | Error::ConfigValidation { uri, .. } | Error::RouteValidation { uri, .. } | Error::DiValidation { uri, .. } => Some(uri@),
        _ => None,
    }
}

impl Error {
    /// The category of the error.
    /// The text of the error as it is shown to the client.
    pub fn message(&self) -> (r: String)
        ensures
            exists|outside: Seq<char>| r@ == error_text(self, outside),
            !wraps_outside_error(self) ==> r@ == error_text(self, Seq::empty()),
    {
        let ghost mut outside: Seq<char> = Seq::empty();
        let r = match self {
            Error::Protocol(e) => {
                let t = protocol_error_text(e);
                proof {
                    outside = t@;
                }
                text2("LSP protocol error: ", t.as_str())
            },
            Error::MessageSend(m) => text2("Failed to send message: ", m.as_str()),
            Error::MessageReceive(m) => text2("Failed to receive message: ", m.as_str()),
            Error::TomlParse { uri, message } => text4("TOML parse error in ", uri.as_str(), ": ", message.as_str()),
            Error::RustParse { uri, message } => text4("Rust parse error in ", uri.as_str(), ": ", message.as_str()),
            Error::EnvVarSyntax { uri, line, message } => {
                let digits = crate::text::u64_text(*line as u64);
                let head = text4("Invalid environment variable syntax in ", uri.as_str(), " at line ", digits.as_str());
                let r = text4(head.as_str(), ": ", message.as_str(), "");
                proof {
                    reveal_strlit("");
                    assert(""@ =~= Seq::<char>::empty());
                    assert(r@ =~= error_text(self, outside));
                }
                r
            },
            Error::ConfigValidation { uri, message } => text4("Configuration validation error in ", uri.as_str(), ": ", message.as_str()),
            Error::RouteValidation { uri, message } => text4("Route validation error in ", uri.as_str(), ": ", message.as_str()),
            Error::DiValidation { uri, message } => text4("Dependency injection validation error in ", uri.as_str(), ": ", message.as_str()),
            Error::SchemaLoad(m) => text2("Schema load error: ", m.as_str()),
            Error::Config(m) => text2("Configuration error: ", m.as_str()),
            Error::Io(e) => {
                let t = io_error_text(e);
                proof {
                    outside = t@;
                }
                text2("File I/O error: ", t.as_str())
            },
            Error::Json(e) => {
                let t = json_error_text(e);
                proof {
                    outside = t@;
                }
                text2("JSON error: ", t.as_str())
            },
            Error::Http(e) => {
                let t = http_error_text(e);
                proof {
                    outside = t@;
                }
                text2("HTTP request error: ", t.as_str())
            },
            Error::IndexBuild(m) => text2("Index build error: ", m.as_str()),
            Error::Other(e) => {
                let t = other_error_text(e);
                proof {
                    outside = t@;
                }
                t
            },
        };
        assert(r@ == error_text(self, outside));
        r
    }

    pub fn category(&self) -> (r: ErrorCategory)
        ensures
            r == spec_category(self),
    {
        match self {
            Error::Protocol(_) | Error::MessageSend(_) | Error::MessageReceive(_) => ErrorCategory::Protocol,
            Error::TomlParse { .. } | Error::RustParse { .. } | Error::EnvVarSyntax { .. } => ErrorCategory::Parse,
            Error::ConfigValidation { .. } | Error::RouteValidation { .. } | Error::DiValidation { .. } => ErrorCategory::Validation,
            _ => ErrorCategory::System,
        }
    }

    /// Whether the server can go on after the error: all but configuration,
    /// I/O, JSON and unknown errors.
    pub fn is_recoverable(&self) -> (r: bool)
        ensures
            r == spec_recoverable(self),
    {
        match self {
            Error::Config(_) | Error::Io(_) | Error::Json(_) | Error::Other(_) => false,
            _ => true,
        }
    }

    /// How serious the error is.
    pub fn severity(&self) -> (r: ErrorSeverity)
        ensures
            r == spec_severity(self),
    {
        match self {
            Error::Protocol(_) | Error::MessageSend(_) | Error::MessageReceive(_) => ErrorSeverity::Error,
            Error::TomlParse { .. } | Error::RustParse { .. } | Error::EnvVarSyntax { .. } => ErrorSeverity::Warning,
            Error::ConfigValidation { .. } | Error::RouteValidation { .. } | Error::DiValidation { .. } => ErrorSeverity::Info,
            Error::SchemaLoad(_) | Error::Http(_) | Error::IndexBuild(_) => ErrorSeverity::Warning,
            _ => ErrorSeverity::Error,
        }
    }

    /// The document an error is about, for parse and validation errors.
    pub fn document_uri(&self) -> (r: Option<&str>)
        ensures
            match r {
                Some(u) => spec_document_uri(self) == Some(u@),
                None => spec_document_uri(self) is None,
            },
    {
        match self {
            Error::TomlParse { uri, .. } | Error::RustParse { uri, .. } | Error::EnvVarSyntax { uri, .. }
            | Error::ConfigValidation { uri, .. } | Error::RouteValidation { uri, .. } | Error::DiValidation { uri, .. } => Some(uri.as_str()),
            _ => None,
        }
    }
}

/// The action for an error, the fallback it names, and whether the client
/// is told: protocol errors retry the connection, parse errors parse what
/// they can, validation errors become diagnostics without a notice, and a
/// system error uses the built-in schema (schema loading), the cache (HTTP),
/// skips the operation (index building) or aborts.
pub open spec fn spec_handling(e: &Error) -> (RecoveryAction, Option<Seq<char>>, bool) {
    match spec_category(e) {
        ErrorCategory::Protocol => (RecoveryAction::RetryConnection, None, true),
        ErrorCategory::Parse => (RecoveryAction::PartialParse, None, true),
        ErrorCategory::Validation => (RecoveryAction::GenerateDiagnostic, None, false),
        ErrorCategory::System => match e {
            Error::SchemaLoad(_) => (RecoveryAction::UseFallback, Some("builtin-schema"@), true),
            Error::Http(_) => (RecoveryAction::UseCache, None, true),
            Error::IndexBuild(_) => (RecoveryAction::SkipOperation, None, true),
            _ => (RecoveryAction::Abort, None, true),
        },
    }
}

/// Chooses the recovery strategy for errors.
pub struct ErrorHandler {
    verbose: bool,
}

impl ErrorHandler {
    /// A handler; `verbose` asks for detailed logs.
    pub fn new(verbose: bool) -> (r: ErrorHandler)
        ensures
            r.is_verbose() == verbose,
    {
        ErrorHandler { verbose }
    }

    pub closed spec fn is_verbose(&self) -> bool {
        self.verbose
    }

    /// Whether detailed logs were asked for.
    pub fn verbose(&self) -> (r: bool)
        ensures
            r == self.is_verbose(),
    {
        self.verbose
    }

    /// The recovery strategy for an error.
    pub fn handle(&self, error: &Error) -> (r: ErrorHandlingResult)
        ensures
            (r.action, match r.fallback {
                Some(f) => Some(f@),
                None => None::<Seq<char>>,
            }, r.notify_client) == spec_handling(error),
    {
        match error.category() {
            ErrorCategory::Protocol => ErrorHandlingResult { action: RecoveryAction::RetryConnection, fallback: None, notify_client: true },
            ErrorCategory::Parse => ErrorHandlingResult { action: RecoveryAction::PartialParse, fallback: None, notify_client: true },
            ErrorCategory::Validation => ErrorHandlingResult { action: RecoveryAction::GenerateDiagnostic, fallback: None, notify_client: false },
            ErrorCategory::System => {
                let (action, fallback) = match error {
                    Error::SchemaLoad(_) => (RecoveryAction::UseFallback, Some(String::from_str("builtin-schema"))),
                    Error::Http(_) => (RecoveryAction::UseCache, None),
                    Error::IndexBuild(_) => (RecoveryAction::SkipOperation, None),
                    _ => (RecoveryAction::Abort, None),
                };
                ErrorHandlingResult { action, fallback, notify_client: true }
            },
        }
    }
}

/// The text of a protocol error, from its `Display`. Nothing is claimed of
/// it here.
#[verifier::external_body]
fn protocol_error_text(e: &ProtocolError) -> String {
    e.to_string()
}

/// The text of an I/O error, from its `Display`. Nothing is claimed of it
/// here.
#[verifier::external_body]
fn io_error_text(e: &IoError) -> String {
    e.to_string()
}

/// The text of a JSON error, from its `Display`. Nothing is claimed of it
/// here.
#[verifier::external_body]
fn json_error_text(e: &SerdeJsonError) -> String {
    e.to_string()
}

/// The text of an HTTP error, from its `Display`. Nothing is claimed of it
/// here.
#[verifier::external_body]
fn http_error_text(e: &ReqwestError) -> String {
    e.to_string()
}

/// The text of any other error, from its `Display`. Nothing is claimed of
/// it here.
#[verifier::external_body]
fn other_error_text(e: &AnyhowError) -> String {
    e.to_string()
}

/// Whether an error wraps an error of another library, whose own text is
/// part of its message.
pub open spec fn wraps_outside_error(e: &Error) -> bool {
    ||| e is Protocol
    ||| e is Io
    ||| e is Json
    ||| e is Http
    ||| e is Other
}

/// The text of an error as it is shown: a lead-in naming its kind, then its
/// parts; `outside` stands for the text of a wrapped error of another
/// library.
pub open spec fn error_text(e: &Error, outside: Seq<char>) -> Seq<char> {
    match e {
        Error::Protocol(_) => "LSP protocol error: "@ + outside,
        Error::MessageSend(m) => "Failed to send message: "@ + m@,
        Error::MessageReceive(m) => "Failed to receive message: "@ + m@,
        Error::TomlParse { uri, message } => "TOML parse error in "@ + uri@ + ": "@ + message@,
        Error::RustParse { uri, message } => "Rust parse error in "@ + uri@ + ": "@ + message@,
        Error::EnvVarSyntax { uri, line, message } => "Invalid environment variable syntax in "@ + uri@ + " at line "@
            + nat_digits(*line as nat) + ": "@ + message@,
        Error::ConfigValidation { uri, message } => "Configuration validation error in "@ + uri@ + ": "@ + message@,
        Error::RouteValidation { uri, message } => "Route validation error in "@ + uri@ + ": "@ + message@,
        Error::DiValidation { uri, message } => "Dependency injection validation error in "@ + uri@ + ": "@ + message@,
        Error::SchemaLoad(m) => "Schema load error: "@ + m@,
        Error::Config(m) => "Configuration error: "@ + m@,
        Error::Io(_) => "File I/O error: "@ + outside,
        Error::Json(_) => "JSON error: "@ + outside,
        Error::Http(_) => "HTTP request error: "@ + outside,
        Error::IndexBuild(m) => "Index build error: "@ + m@,
        Error::Other(_) => outside,
    }
}

/// `a` followed by `b`.
fn text2(a: &str, b: &str) -> (r: String)
    ensures
        r@ == a@ + b@,
{
    let mut r = String::from_str(a);
    r.append(b);
    r
}

/// `a`, `b`, `c` and `d`, in order.
fn text4(a: &str, b: &str, c: &str, d: &str) -> (r: String)
    ensures
        r@ == a@ + b@ + c@ + d@,
{
    let mut r = String::from_str(a);
    r.append(b);
    r.append(c);
    r.append(d);
    r
}

/// The text of a URL, from its `Display`. Nothing is claimed of it here.
#[verifier::external_body]
fn url_text(uri: &Url) -> String {
    uri.to_string()
}

/// A TOML parse error in the document `uri`.
pub fn toml_parse_error(uri: &Url, message: String) -> (e: Error)
    ensures
        e matches Error::TomlParse { message: m, .. } && m@ == message@,
{
    Error::TomlParse { uri: url_text(uri), message }
}

/// A Rust parse error in the document `uri`.
pub fn rust_parse_error(uri: &Url, message: String) -> (e: Error)
    ensures
        e matches Error::RustParse { message: m, .. } && m@ == message@,
{
    Error::RustParse { uri: url_text(uri), message }
}

/// An environment variable syntax error at `line` of the document `uri`.
pub fn env_var_syntax_error(uri: &Url, line: u32, message: String) -> (e: Error)
    ensures
        e matches Error::EnvVarSyntax { line: l, message: m, .. } && l == line && m@ == message@,
{
    Error::EnvVarSyntax { uri: url_text(uri), line, message }
}

/// A configuration validation error in the document `uri`.
pub fn config_validation_error(uri: &Url, message: String) -> (e: Error)
    ensures
        e matches Error::ConfigValidation { message: m, .. } && m@ == message@,
{
    Error::ConfigValidation { uri: url_text(uri), message }
}

/// A route validation error in the document `uri`.
pub fn route_validation_error(uri: &Url, message: String) -> (e: Error)
    ensures
        e matches Error::RouteValidation { message: m, .. } && m@ == message@,
{
    Error::RouteValidation { uri: url_text(uri), message }
}

/// A dependency injection validation error in the document `uri`.
pub fn di_validation_error(uri: &Url, message: String) -> (e: Error)
    ensures
        e matches Error::DiValidation { message: m, .. } && m@ == message@,
{
    Error::DiValidation { uri: url_text(uri), message }
}

} // verus!
