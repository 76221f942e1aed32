//! The decisions of the language server: its lifecycle, how requests and
//! notifications are routed, what an error does to the message loop, the
//! diagnostics published for a document, and the symbols of documents and
//! of the workspace.

use vstd::prelude::*;
use quote::ToTokens;
use syn::{parse_file, Item, Type};
use crate::text::str_eq;
use crate::text::{views, contains_seq, contains_str, std_str_lowercase, to_lowercase};
use crate::lsp::RangeResponse;
use crate::scanner::component::{ComponentInfoResponse, ComponentSource};
use crate::scanner::route::RouteInfoResponse;
use crate::toml_tree::{TomlNode, TomlValue, TomlEntry, parse_toml, toml_tree_is};
use crate::toml_analyzer::{byte_len, tree_sections};
use crate::error::{ErrorHandlingResult, RecoveryAction, ErrorSeverity};
use crate::lsp::{Position, Range, Diagnostic, DiagnosticV, DiagnosticSeverity, diagnostics_view, server_diagnostic};
use crate::config::DiagnosticsConfig;
use crate::schema::SchemaProvider;
use crate::env_vars::{EnvVarReference, spec_preprocess};
use crate::toml_dom::taplo_syntax_errors;
use crate::toml_analyzer::{TomlAnalyzer, TomlDocument, env_vars_diagnostics, sections_diagnostics, sections_view,
    syntax_errors_message};

verus! {

/// Where the server is in its lifecycle.
#[derive(Debug, Clone, Copy, PartialEq, Eq, Structural)]
pub enum ServerState {
    Uninitialized,
    Initialized,
    ShuttingDown,
}

/// What moves the server from one state to another.
#[derive(Debug, Clone, Copy, PartialEq, Eq, Structural)]
pub enum ServerEvent {
    /// The initialize handshake finished.
    InitializeFinished,
    /// The client asked the server to shut down.
    ShutdownRequested,
    /// The client sent the exit notification.
    ExitReceived,
    /// Handling a message failed with an error whose recovery is to abort.
    FatalError,
}

pub open spec fn spec_next_state(state: ServerState, event: ServerEvent) -> ServerState {
    match event {
        ServerEvent::InitializeFinished => ServerState::Initialized,
        _ => ServerState::ShuttingDown,
    }
}

/// The state the server is in after an event.
pub fn next_state(state: ServerState, event: ServerEvent) -> (r: ServerState)
    ensures
        r == spec_next_state(state, event),
{
    match event {
        ServerEvent::InitializeFinished => ServerState::Initialized,
        ServerEvent::ShutdownRequested => ServerState::ShuttingDown,
        ServerEvent::ExitReceived => ServerState::ShuttingDown,
        ServerEvent::FatalError => ServerState::ShuttingDown,
    }
}

/// The state of a server that has just started.
pub fn initial_state() -> (r: ServerState)
    ensures
        r == ServerState::Uninitialized,
{
    ServerState::Uninitialized
}

/// Once the server is shutting down, no event but a new handshake brings it
/// back.
pub proof fn law_shutdown_is_final(state: ServerState, event: ServerEvent)
    requires
        state == ServerState::ShuttingDown,
        event != ServerEvent::InitializeFinished,
    ensures
        spec_next_state(state, event) == ServerState::ShuttingDown,
{
}

/// The requests the server answers.
#[derive(Debug, Clone, Copy, PartialEq, Eq, Structural)]
pub enum RequestKind {
    Completion,
    Hover,
    GotoDefinition,
    DocumentSymbol,
    WorkspaceSymbol,
    Status,
    Components,
    Routes,
    Jobs,
    Plugins,
    Configurations,
    Unknown,
}

pub open spec fn spec_request_kind(method: Seq<char>) -> RequestKind {
    if method == "textDocument/completion"@ {
        RequestKind::Completion
    } else if method == "textDocument/hover"@ {
        RequestKind::Hover
    } else if method == "textDocument/definition"@ {
        RequestKind::GotoDefinition
    } else if method == "textDocument/documentSymbol"@ {
        RequestKind::DocumentSymbol
    } else if method == "workspace/symbol"@ {
        RequestKind::WorkspaceSymbol
    } else if method == "summer-lsp/status"@ {
        RequestKind::Status
    } else if method == "summer/components"@ {
        RequestKind::Components
    } else if method == "summer/routes"@ {
        RequestKind::Routes
    } else if method == "summer/jobs"@ {
        RequestKind::Jobs
    } else if method == "summer/plugins"@ {
        RequestKind::Plugins
    } else if method == "summer/configurations"@ {
        RequestKind::Configurations
    } else {
        RequestKind::Unknown
    }
}

/// Which handler a request method goes to.
pub fn request_kind(method: &str) -> (r: RequestKind)
    ensures
        r == spec_request_kind(method@),
{
    if str_eq(method, "textDocument/completion") {
        RequestKind::Completion
    } else if str_eq(method, "textDocument/hover") {
        RequestKind::Hover
    } else if str_eq(method, "textDocument/definition") {
        RequestKind::GotoDefinition
    } else if str_eq(method, "textDocument/documentSymbol") {
        RequestKind::DocumentSymbol
    } else if str_eq(method, "workspace/symbol") {
        RequestKind::WorkspaceSymbol
    } else if str_eq(method, "summer-lsp/status") {
        RequestKind::Status
    } else if str_eq(method, "summer/components") {
        RequestKind::Components
    } else if str_eq(method, "summer/routes") {
        RequestKind::Routes
    } else if str_eq(method, "summer/jobs") {
        RequestKind::Jobs
    } else if str_eq(method, "summer/plugins") {
        RequestKind::Plugins
    } else if str_eq(method, "summer/configurations") {
        RequestKind::Configurations
    } else {
        RequestKind::Unknown
    }
}

/// The message of the error answered to a request the server does not know.
pub fn method_not_found_message(method: &str) -> (r: String)
    ensures
        r@ == "Method not found: "@ + method@,
{
    let mut s = String::from_str("Method not found: ");
    s.append(method);
    s
}

/// The notifications the server acts on.
#[derive(Debug, Clone, Copy, PartialEq, Eq, Structural)]
pub enum NotificationKind {
    DidOpen,
    DidChange,
    DidClose,
    Exit,
    Other,
}

pub open spec fn spec_notification_kind(method: Seq<char>) -> NotificationKind {
    if method == "textDocument/didOpen"@ {
        NotificationKind::DidOpen
    } else if method == "textDocument/didChange"@ {
        NotificationKind::DidChange
    } else if method == "textDocument/didClose"@ {
        NotificationKind::DidClose
    } else if method == "exit"@ {
        NotificationKind::Exit
    } else {
        NotificationKind::Other
    }
}

/// What a notification method is.
pub fn notification_kind(method: &str) -> (r: NotificationKind)
    ensures
        r == spec_notification_kind(method@),
{
    if str_eq(method, "textDocument/didOpen") {
        NotificationKind::DidOpen
    } else if str_eq(method, "textDocument/didChange") {
        NotificationKind::DidChange
    } else if str_eq(method, "textDocument/didClose") {
        NotificationKind::DidClose
    } else if str_eq(method, "exit") {
        NotificationKind::Exit
    } else {
        NotificationKind::Other
    }
}

/// What the message loop does next.
#[derive(Debug, Clone, Copy, PartialEq, Eq, Structural)]
pub enum LoopStep {
    /// Go on with the next message.
    Continue,
    /// Pause briefly, then go on.
    RetryAfterPause,
    /// Leave the loop.
    Stop,
}

/// What the loop does when receiving a message failed: retry when the
/// recovery is to retry the connection, stop otherwise.
pub fn after_receive_error(action: RecoveryAction) -> (r: LoopStep)
    ensures
        r == (if action == RecoveryAction::RetryConnection { LoopStep::RetryAfterPause } else { LoopStep::Stop }),
{
    match action {
        RecoveryAction::RetryConnection => LoopStep::RetryAfterPause,
        _ => LoopStep::Stop,
    }
}

/// What the loop does when handling a message failed.
#[derive(Debug, Clone, Copy, PartialEq, Eq, Structural)]
pub struct AfterError {
    /// The state the server is in afterwards.
    pub state: ServerState,
    /// Whether the loop stops.
    pub stop: bool,
    /// Whether the client is told about the error.
    pub notify_client: bool,
}

/// An error whose recovery is to abort shuts the server down and stops the
/// loop; any other leaves the state as it is, and the client is told when
/// the handling result says so.
pub fn after_handle_error(state: ServerState, result: &ErrorHandlingResult) -> (r: AfterError)
    ensures
        result.action == RecoveryAction::Abort ==> r == (AfterError {
            state: ServerState::ShuttingDown,
            stop: true,
            notify_client: false,
        }),
        result.action != RecoveryAction::Abort ==> r == (AfterError {
            state,
            stop: false,
            notify_client: result.notify_client,
        }),
{
    match result.action {
        RecoveryAction::Abort => AfterError {
            state: next_state(state, ServerEvent::FatalError),
            stop: true,
            notify_client: false,
        },
        _ => AfterError { state, stop: false, notify_client: result.notify_client },
    }
}

/// How a message shown to the client is classed.
#[derive(Debug, Clone, Copy, PartialEq, Eq, Structural)]
pub enum MessageType {
    Error,
    Warning,
    Info,
}

/// The class of the message that tells the client about an error of the
/// given severity.
pub fn message_type(severity: ErrorSeverity) -> (r: MessageType)
    ensures
        r == match severity {
            ErrorSeverity::Error => MessageType::Error,
            ErrorSeverity::Warning => MessageType::Warning,
            ErrorSeverity::Info => MessageType::Info,
        },
{
    match severity {
        ErrorSeverity::Error => MessageType::Error,
        ErrorSeverity::Warning => MessageType::Warning,
        ErrorSeverity::Info => MessageType::Info,
    }
}

// ----- the diagnostics of a document -----

/// The diagnostics left once those whose code is switched off are dropped.
pub open spec fn spec_filter_disabled(ds: Seq<DiagnosticV>, disabled: Seq<Seq<char>>) -> Seq<DiagnosticV>
    decreases ds.len(),
{
    if ds.len() == 0 {
        seq![]
    } else {
        let rest = spec_filter_disabled(ds.drop_last(), disabled);
        match ds.last().code {
            Some(c) => if disabled.contains(c) {
                rest
            } else {
                rest.push(ds.last())
            },
            None => rest.push(ds.last()),
        }
    }
}

/// Filtering keeps exactly the diagnostics that have no code or a code
/// that is not switched off, in their order: none of a switched-off kind
/// is published, and nothing else is lost.
pub proof fn law_filter_keeps_enabled(ds: Seq<DiagnosticV>, disabled: Seq<Seq<char>>)
    ensures
        forall|k: int| 0 <= k < spec_filter_disabled(ds, disabled).len() ==> match #[trigger] spec_filter_disabled(ds, disabled)[k].code {
            Some(c) => !disabled.contains(c),
            None => true,
        },
        spec_filter_disabled(ds, disabled).len() <= ds.len(),
        (forall|k: int| 0 <= k < ds.len() ==> #[trigger] ds[k].code is None) ==> spec_filter_disabled(ds, disabled) == ds,
    decreases ds.len(),
{
    if ds.len() > 0 {
        law_filter_keeps_enabled(ds.drop_last(), disabled);
        if forall|k: int| 0 <= k < ds.len() ==> #[trigger] ds[k].code is None {
            assert forall|k: int| 0 <= k < ds.drop_last().len() implies #[trigger] ds.drop_last()[k].code is None by {
                assert(ds.drop_last()[k] == ds[k]);
            }
            assert(ds.last().code is None);
            assert(ds.drop_last().push(ds.last()) =~= ds);
        }
    }
}

/// Drops the diagnostics whose code the configuration switches off.
pub fn filter_disabled(diagnostics: Vec<Diagnostic>, config: &DiagnosticsConfig) -> (r: Vec<Diagnostic>)
    ensures
        diagnostics_view(r@) == spec_filter_disabled(diagnostics_view(diagnostics@), views(config.disabled@)),
{
    let ghost orig = diagnostics_view(diagnostics@);
    let ghost disabled = views(config.disabled@);
    let n = diagnostics.len();
    assert(orig.len() == n);
    let mut rest = diagnostics;
    let mut out: Vec<Diagnostic> = Vec::new();
    let mut i: usize = 0;
    while rest.len() > 0
        invariant
            disabled == views(config.disabled@),
            orig.len() <= usize::MAX,
            i <= orig.len(),
            diagnostics_view(rest@) == orig.subrange(i as int, orig.len() as int),
            diagnostics_view(out@) == spec_filter_disabled(orig.subrange(0, i as int), disabled),
        decreases rest@.len(),
    {
        let ghost before = rest@;
        proof {
            assert(diagnostics_view(before).len() == before.len());
            assert(i < orig.len());
            assert(diagnostics_view(before)[0] == before[0]@);
            assert(orig.subrange(i as int, orig.len() as int)[0] == orig[i as int]);
        }
        let d = rest.remove(0);
        proof {
            assert(d == before[0]);
            assert(d@ == orig[i as int]);
            assert forall|k: int| 0 <= k < rest@.len() implies #[trigger] rest@[k] == before[k + 1] by {}
            assert forall|k: int| 0 <= k < rest@.len() implies #[trigger] diagnostics_view(rest@)[k] == orig[i + 1 + k] by {
                assert(diagnostics_view(before)[k + 1] == before[k + 1]@);
                assert(diagnostics_view(rest@)[k] == rest@[k]@);
                assert(orig.subrange(i as int, orig.len() as int)[k + 1] == orig[i + 1 + k]);
            }
            assert(diagnostics_view(rest@) =~= orig.subrange(i + 1, orig.len() as int));
            assert(orig.subrange(0, i + 1).drop_last() =~= orig.subrange(0, i as int));
        }
        let keep = match &d.code {
            Some(c) => !config.is_disabled(c.as_str()),
            None => true,
        };
        if keep {
            out.push(d);
            assert(diagnostics_view(out@) =~= diagnostics_view(out@.drop_last()).push(d@));
        }
        i = i + 1;
    }
    proof {
        assert(orig.subrange(0, i as int) =~= orig);
    }
    out
}

/// The diagnostic published for a configuration file that does not parse.
pub open spec fn parse_error_diagnostic_view(message: Seq<char>) -> DiagnosticV {
    server_diagnostic(zero_range(), DiagnosticSeverity::Error, "parse_error"@, "TOML parse error: "@ + message)
}

pub open spec fn zero_range() -> Range {
    Range { start: Position { line: 0, character: 0 }, end: Position { line: 0, character: 0 } }
}

/// The diagnostic published for a configuration file that does not parse.
pub fn parse_error_diagnostic(message: &str) -> (r: Diagnostic)
    ensures
        r@ == parse_error_diagnostic_view(message@),
{
    let mut m = String::from_str("TOML parse error: ");
    m.append(message);
    Diagnostic::server(Range::zero(), DiagnosticSeverity::Error, "parse_error", m)
}

/// The checks of a parsed configuration file.
pub open spec fn validation_view(schema: SchemaProvider, doc: TomlDocument) -> Seq<DiagnosticV> {
    env_vars_diagnostics(doc.env_vars@) + sections_diagnostics(schema, sections_view(doc.config_sections@))
}

/// The diagnostics of a configuration file once parsed: its checks, or the
/// parse error.
pub fn toml_diagnostics(analyzer: &TomlAnalyzer, parsed: &Result<TomlDocument, String>) -> (r: Vec<Diagnostic>)
    ensures
        diagnostics_view(r@) == match parsed {
            Ok(doc) => validation_view(analyzer.schema(), *doc),
            Err(e) => seq![parse_error_diagnostic_view(e@)],
        },
{
    match parsed {
        Ok(doc) => analyzer.validate(doc),
        Err(e) => {
            let mut v: Vec<Diagnostic> = Vec::new();
            v.push(parse_error_diagnostic(e.as_str()));
            assert(diagnostics_view(v@) =~= seq![parse_error_diagnostic_view(e@)]);
            v
        },
    }
}

/// The diagnostics published for a document: for a configuration file,
/// its checks or its parse error, less those switched off; nothing for any
/// other language.
pub fn document_diagnostics(
    analyzer: &TomlAnalyzer,
    config: &DiagnosticsConfig,
    language_id: &str,
    content: &str,
) -> (r: Vec<Diagnostic>)
    requires
        content@.len() < u32::MAX,
        spec_preprocess(content@).text.len() * 4 < u32::MAX,
    ensures
        language_id@ != "toml"@ ==> r@.len() == 0,
        language_id@ == "toml"@ ==> ({
            let pre = spec_preprocess(content@);
            let errors = taplo_syntax_errors(pre.text)@;
            if errors.len() > 0 {
                diagnostics_view(r@) == spec_filter_disabled(
                    seq![parse_error_diagnostic_view(syntax_errors_message(errors))],
                    views(config.disabled@),
                )
            } else {
                exists|doc: TomlDocument| doc.content@ == content@
                    && doc.env_vars@.map_values(|v: EnvVarReference| v@) == pre.refs
                    && toml_tree_is(doc.root, pre.text)
                    && sections_view(doc.config_sections@) == tree_sections(doc.root, content@)
                    && #[trigger] diagnostics_view(r@) == spec_filter_disabled(validation_view(analyzer.schema(), doc),
                    views(config.disabled@))
            }
        }),
{
    if !str_eq(language_id, "toml") {
        return Vec::new();
    }
    let parsed = analyzer.parse(content);
    let diagnostics = toml_diagnostics(analyzer, &parsed);
    let r = filter_disabled(diagnostics, config);
    proof {
        match parsed {
            Ok(doc) => {
                assert(diagnostics_view(r@) == spec_filter_disabled(validation_view(analyzer.schema(), doc),
                    views(config.disabled@)));
            },
            Err(_) => {},
        }
    }
    r
}

// ----- document symbols -----

/// The kind of a symbol, as the protocol names it.
#[derive(Debug, Clone, Copy, PartialEq, Eq, Structural)]
pub enum SymbolKind {
    Module,
    Property,
    Array,
    Function,
    Struct,
    Enum,
    Interface,
    Class,
    Method,
}

/// A symbol of a document's outline.
#[derive(Debug)]
pub struct DocumentSymbol {
    pub name: String,
    pub detail: Option<String>,
    pub kind: SymbolKind,
    pub range: Range,
    pub selection_range: Range,
    pub children: Option<Vec<DocumentSymbol>>,
}

/// Whether `s` is a symbol without children with the given parts.
pub open spec fn leaf_symbol_is(s: DocumentSymbol, name: Seq<char>, detail: Seq<char>, kind: SymbolKind, range: Range) -> bool {
    &&& s.name@ == name
    &&& s.detail matches Some(d) && d@ == detail
    &&& s.kind == kind
    &&& s.range == range
    &&& s.selection_range == range
    &&& s.children is None
}

/// The range given to the symbols of a top-level key: on the first line,
/// as wide as the key is long in bytes.
pub open spec fn key_range(key: Seq<char>) -> Range {
    Range { start: Position { line: 0, character: 0 }, end: Position { line: 0, character: byte_len(key) as u32 } }
}

/// The symbol of a top-level entry of a configuration file: a section with
/// a child per property, an array, or a property.
pub open spec fn toml_entry_symbol_is(s: DocumentSymbol, e: TomlEntry) -> bool {
    let range = key_range(e.key@);
    match e.value.value {
        TomlValue::Table(inner) => {
            &&& s.name@ == e.key@
            &&& s.detail matches Some(d) && d@ == "Configuration section"@
            &&& s.kind == SymbolKind::Module
            &&& s.range == range
            &&& s.selection_range == range
            &&& if inner@.len() == 0 {
                s.children is None
            } else {
                s.children matches Some(cs) && cs@.len() == inner@.len() && forall|k: int| 0 <= k < cs@.len()
                    ==> leaf_symbol_is(#[trigger] cs@[k], inner@[k].key@, "Property"@, SymbolKind::Property, range)
            }
        },
        TomlValue::Array(_) => leaf_symbol_is(s, e.key@, "Array"@, SymbolKind::Array, range),
        _ => leaf_symbol_is(s, e.key@, "Property"@, SymbolKind::Property, range),
    }
}

/// The outline of a configuration file: a symbol per top-level entry.
pub open spec fn toml_symbols_are(r: Seq<DocumentSymbol>, root: TomlNode) -> bool {
    match root.value {
        TomlValue::Table(es) => r.len() == es@.len() && forall|k: int| 0 <= k < r.len() ==> toml_entry_symbol_is(
            #[trigger] r[k], es@[k]),
        _ => r.len() == 0,
    }
}

fn symbol(name: String, detail: &str, kind: SymbolKind, range: Range) -> (r: DocumentSymbol)
    ensures
        leaf_symbol_is(r, name@, detail@, kind, range),
{
    DocumentSymbol { name, detail: Some(String::from_str(detail)), kind, range, selection_range: range, children: None }
}

/// The outline of a parsed configuration file.
pub fn toml_symbols(root: &TomlNode) -> (r: Vec<DocumentSymbol>)
    ensures
        toml_symbols_are(r@, *root),
{
    let mut out: Vec<DocumentSymbol> = Vec::new();
    let entries = match &root.value {
        TomlValue::Table(es) => es,
        _ => return out,
    };
    let mut i: usize = 0;
    while i < entries.len()
        invariant
            root.value == TomlValue::Table(*entries),
            i <= entries@.len(),
            out@.len() == i,
            forall|k: int| 0 <= k < i ==> toml_entry_symbol_is(#[trigger] out@[k], entries@[k]),
        decreases entries@.len() - i,
    {
        let key = &entries[i].key;
        let range = Range {
            start: Position { line: 0, character: 0 },
            end: Position { line: 0, character: key.as_str().len() as u32 },
        };
        let s = match &entries[i].value.value {
            TomlValue::Table(inner) => {
                let mut children: Vec<DocumentSymbol> = Vec::new();
                let mut j: usize = 0;
                while j < inner.len()
                    invariant
                        j <= inner@.len(),
                        children@.len() == j,
                        forall|k: int| 0 <= k < j ==> leaf_symbol_is(#[trigger] children@[k], inner@[k].key@, "Property"@,
                            SymbolKind::Property, range),
                    decreases inner@.len() - j,
                {
                    children.push(symbol(inner[j].key.clone(), "Property", SymbolKind::Property, range));
                    j = j + 1;
                }
                DocumentSymbol {
                    name: key.clone(),
                    detail: Some(String::from_str("Configuration section")),
                    kind: SymbolKind::Module,
                    range,
                    selection_range: range,
                    children: if children.len() == 0 { None } else { Some(children) },
                }
            },
            TomlValue::Array(_) => symbol(key.clone(), "Array", SymbolKind::Array, range),
            _ => symbol(key.clone(), "Property", SymbolKind::Property, range),
        };
        out.push(s);
        i = i + 1;
    }
    out
}

/// The outline of a configuration file, parsed as it stands (environment
/// variable references included): the symbols of the tree of its DOM.
pub fn extract_toml_symbols(content: &str) -> (r: Vec<DocumentSymbol>)
    requires
        content@.len() * 4 < u32::MAX,
    ensures
        exists|root: TomlNode| toml_tree_is(root, content@) && toml_symbols_are(r@, root),
{
    let parsed = parse_toml(content);
    let r = toml_symbols(&parsed.root);
    assert(toml_symbols_are(r@, parsed.root));
    r
}

/// A top-level item of a Rust source file, as the outline reads it: the
/// name of a function, struct, enum or trait; the paths of an impl block
/// (its trait, and its type when that is a path), written as tokens.
#[derive(Debug)]
pub enum RustItem {
    Function(String),
    Struct(String),
    Enum(String),
    Trait(String),
    Impl { trait_path: Option<String>, self_path: Option<String> },
    Other,
}

pub enum RustItemV {
    Function(Seq<char>),
    Struct(Seq<char>),
    Enum(Seq<char>),
    Trait(Seq<char>),
    Impl { trait_path: Option<Seq<char>>, self_path: Option<Seq<char>> },
    Other,
}

impl View for RustItem {
    type V = RustItemV;

    open spec fn view(&self) -> RustItemV {
        match self {
            RustItem::Function(n) => RustItemV::Function(n@),
            RustItem::Struct(n) => RustItemV::Struct(n@),
            RustItem::Enum(n) => RustItemV::Enum(n@),
            RustItem::Trait(n) => RustItemV::Trait(n@),
            RustItem::Impl { trait_path, self_path } => RustItemV::Impl {
                trait_path: match trait_path {
                    Some(p) => Some(p@),
                    None => None,
                },
                self_path: match self_path {
                    Some(p) => Some(p@),
                    None => None,
                },
            },
            RustItem::Other => RustItemV::Other,
        }
    }
}

/// The top-level items `syn::parse_file` finds in a text, read as
/// [`RustItem`]s; nothing when the text does not parse.
pub uninterp spec fn syn_items(content: Seq<char>) -> Option<Seq<RustItemV>>;

/// Calls `syn::parse_file` and reads each top-level item: the identifier of
/// a function (`sig.ident`), struct, enum or trait, written with
/// `to_string`; for an impl block, its trait path and, when its self type
/// is a `Type::Path`, that path, each written as the `to_string` of its
/// tokens. The result is named as a function of the text.
#[verifier::external_body]
fn parse_rust_items(content: &str) -> (r: Option<Vec<RustItem>>)
    ensures
        syn_items(content@) == match r {
            Some(v) => Some(v@.map_values(|i: RustItem| i@)),
            None => None,
        },
{
    parse_file(content).ok().map(|file| file.items.iter().map(|item| match item {
        Item::Fn(f) => RustItem::Function(f.sig.ident.to_string()),
        Item::Struct(s) => RustItem::Struct(s.ident.to_string()),
        Item::Enum(e) => RustItem::Enum(e.ident.to_string()),
        Item::Trait(t) => RustItem::Trait(t.ident.to_string()),
        Item::Impl(i) => RustItem::Impl {
            trait_path: i.trait_.as_ref().map(|t| t.1.to_token_stream().to_string()),
            self_path: match &*i.self_ty { Type::Path(p) => Some(p.to_token_stream().to_string()), _ => None },
        },
        _ => RustItem::Other,
    }).collect())
}

/// The name, detail and kind of the outline symbol of an item; none for an
/// item the outline leaves out.
pub open spec fn item_symbol(item: RustItemV) -> Option<(Seq<char>, Seq<char>, SymbolKind)> {
    match item {
        RustItemV::Function(n) => Some((n, "fn "@ + n, SymbolKind::Function)),
        RustItemV::Struct(n) => Some((n, "struct "@ + n, SymbolKind::Struct)),
        RustItemV::Enum(n) => Some((n, "enum "@ + n, SymbolKind::Enum)),
        RustItemV::Trait(n) => Some((n, "trait "@ + n, SymbolKind::Interface)),
        RustItemV::Impl { trait_path, self_path } => match trait_path {
            Some(p) => Some(("impl "@ + p, "Implementation"@, SymbolKind::Class)),
            None => match self_path {
                Some(p) => Some(("impl "@ + p, "Implementation"@, SymbolKind::Class)),
                None => None,
            },
        },
        RustItemV::Other => None,
    }
}

/// The outline symbols of a sequence of items, in order.
pub open spec fn item_symbols(items: Seq<RustItemV>) -> Seq<(Seq<char>, Seq<char>, SymbolKind)>
    decreases items.len(),
{
    if items.len() == 0 {
        seq![]
    } else {
        match item_symbol(items.last()) {
            Some(t) => item_symbols(items.drop_last()).push(t),
            None => item_symbols(items.drop_last()),
        }
    }
}

/// Whether `r` is the outline with the given symbols, each over the empty
/// range at the start of the file.
pub open spec fn rust_symbols_are(r: Seq<DocumentSymbol>, symbols: Seq<(Seq<char>, Seq<char>, SymbolKind)>) -> bool {
    r.len() == symbols.len() && forall|k: int| 0 <= k < r.len() ==> leaf_symbol_is(#[trigger] r[k], symbols[k].0,
        symbols[k].1, symbols[k].2, zero_range())
}

/// The outline of a Rust source file's top-level items: functions,
/// structs, enums, traits and impl blocks, in order.
pub fn rust_symbols(items: &Vec<RustItem>) -> (r: Vec<DocumentSymbol>)
    ensures
        rust_symbols_are(r@, item_symbols(items@.map_values(|i: RustItem| i@))),
{
    let ghost iv = items@.map_values(|i: RustItem| i@);
    let mut out: Vec<DocumentSymbol> = Vec::new();
    let mut i: usize = 0;
    while i < items.len()
        invariant
            iv == items@.map_values(|i: RustItem| i@),
            i <= items@.len(),
            rust_symbols_are(out@, item_symbols(iv.take(i as int))),
        decreases items@.len() - i,
    {
        proof {
            assert(iv.take(i + 1).drop_last() =~= iv.take(i as int));
            assert(iv.take(i + 1).last() == items@[i as int]@);
        }
        let range = Range::zero();
        let ghost before = out@;
        match &items[i] {
            RustItem::Function(n) => {
                let mut d = String::from_str("fn ");
                d.append(n.as_str());
                out.push(symbol(n.clone(), d.as_str(), SymbolKind::Function, range));
            },
            RustItem::Struct(n) => {
                let mut d = String::from_str("struct ");
                d.append(n.as_str());
                out.push(symbol(n.clone(), d.as_str(), SymbolKind::Struct, range));
            },
            RustItem::Enum(n) => {
                let mut d = String::from_str("enum ");
                d.append(n.as_str());
                out.push(symbol(n.clone(), d.as_str(), SymbolKind::Enum, range));
            },
            RustItem::Trait(n) => {
                let mut d = String::from_str("trait ");
                d.append(n.as_str());
                out.push(symbol(n.clone(), d.as_str(), SymbolKind::Interface, range));
            },
            RustItem::Impl { trait_path, self_path } => {
                let path = match trait_path {
                    Some(p) => Some(p),
                    None => match self_path {
                        Some(p) => Some(p),
                        None => None,
                    },
                };
                match path {
                    Some(p) => {
                        let mut name = String::from_str("impl ");
                        name.append(p.as_str());
                        out.push(symbol(name, "Implementation", SymbolKind::Class, range));
                    },
                    None => {},
                }
            },
            RustItem::Other => {},
        }
        proof {
            let syms = item_symbols(iv.take(i + 1));
            assert forall|k: int| 0 <= k < out@.len() implies leaf_symbol_is(#[trigger] out@[k], syms[k].0,
                syms[k].1, syms[k].2, zero_range()) by {
                if k < before.len() {
                    assert(out@[k] == before[k]);
                }
            }
        }
        i = i + 1;
    }
    proof {
        assert(iv.take(iv.len() as int) =~= iv);
    }
    out
}

/// The outline of a Rust source file: empty when it does not parse.
pub fn extract_rust_symbols(content: &str) -> (r: Vec<DocumentSymbol>)
    ensures
        match syn_items(content@) {
            Some(items) => rust_symbols_are(r@, item_symbols(items)),
            None => r@.len() == 0,
        },
{
    match parse_rust_items(content) {
        Some(items) => rust_symbols(&items),
        None => Vec::new(),
    }
}

// ----- workspace symbols -----

/// A symbol found by a workspace search.
#[derive(Debug)]
pub struct WorkspaceSymbol {
    pub name: String,
    pub kind: SymbolKind,
    pub uri: String,
    pub range: Range,
    pub container_name: String,
}

pub struct WorkspaceSymbolV {
    pub name: Seq<char>,
    pub kind: SymbolKind,
    pub uri: Seq<char>,
    pub range: Range,
    pub container_name: Seq<char>,
}

impl View for WorkspaceSymbol {
    type V = WorkspaceSymbolV;

    open spec fn view(&self) -> WorkspaceSymbolV {
        WorkspaceSymbolV {
            name: self.name@,
            kind: self.kind,
            uri: self.uri@,
            range: self.range,
            container_name: self.container_name@,
        }
    }
}

pub open spec fn symbols_view(v: Seq<WorkspaceSymbol>) -> Seq<WorkspaceSymbolV> {
    v.map_values(|s: WorkspaceSymbol| s@)
}

/// Whether `url::Url::parse` accepts a text.
pub uninterp spec fn url_parses(s: Seq<char>) -> bool;

/// Calls `Url::parse` (of `url`, as `lsp_types` exports it) and tells
/// whether it succeeded; named as a function of the text.
#[verifier::external_body]
fn uri_parses(s: &str) -> (r: bool)
    ensures
        r == url_parses(s@),
{
    lsp_types::Url::parse(s).is_ok()
}

/// Whether a text matches a (lowercase) query: every text matches the
/// empty query; otherwise its lowercase form must contain the query.
pub open spec fn matches_query(text: Seq<char>, query: Seq<char>) -> bool {
    query.len() == 0 || contains_seq(std_str_lowercase(text), query)
}

fn matches(text: &str, query: &str) -> (r: bool)
    ensures
        r == matches_query(text@, query@),
{
    if query.is_empty() {
        return true;
    }
    let lower = to_lowercase(text);
    contains_str(lower.as_str(), query)
}

pub open spec fn response_range(r: RangeResponse) -> Range {
    Range {
        start: Position { line: r.start.line, character: r.start.character },
        end: Position { line: r.end.line, character: r.end.character },
    }
}

/// The symbol of a component.
pub open spec fn component_symbol(c: ComponentInfoResponse) -> WorkspaceSymbolV {
    WorkspaceSymbolV {
        name: c.name@,
        kind: match c.source {
            ComponentSource::Component => SymbolKind::Method,
            ComponentSource::Service => SymbolKind::Class,
        },
        uri: c.location.uri@,
        range: response_range(c.location.range),
        container_name: "Component ("@ + c.ty_name@ + ")"@,
    }
}

/// The symbols of the components whose names match the query; none at all
/// when the URI of a matching one does not parse.
pub open spec fn spec_component_symbols(cs: Seq<ComponentInfoResponse>, query: Seq<char>) -> Option<Seq<WorkspaceSymbolV>>
    decreases cs.len(),
{
    if cs.len() == 0 {
        Some(seq![])
    } else {
        match spec_component_symbols(cs.drop_last(), query) {
            None => None,
            Some(prev) => if !matches_query(cs.last().name@, query) {
                Some(prev)
            } else if !url_parses(cs.last().location.uri@) {
                None
            } else {
                Some(prev.push(component_symbol(cs.last())))
            },
        }
    }
}

/// Searches components for a workspace symbol query.
pub fn component_symbols(components: &Vec<ComponentInfoResponse>, query: &str) -> (r: Option<Vec<WorkspaceSymbol>>)
    ensures
        match r {
            Some(v) => spec_component_symbols(components@, query@) == Some(symbols_view(v@)),
            None => spec_component_symbols(components@, query@) is None,
        },
{
    let mut out: Vec<WorkspaceSymbol> = Vec::new();
    let mut i: usize = 0;
    while i < components.len()
        invariant
            i <= components@.len(),
            spec_component_symbols(components@.take(i as int), query@) == Some(symbols_view(out@)),
        decreases components@.len() - i,
    {
        proof {
            assert(components@.take(i + 1).drop_last() =~= components@.take(i as int));
            assert(components@.take(i + 1).last() == components@[i as int]);
        }
        let c = &components[i];
        if matches(c.name.as_str(), query) {
            if !uri_parses(c.location.uri.as_str()) {
                proof {
                    lemma_component_symbols_none(components@, query@, i as int + 1);
                }
                return None;
            }
            let mut container = String::from_str("Component (");
            container.append(c.ty_name.as_str());
            container.append(")");
            let s = WorkspaceSymbol {
                name: c.name.clone(),
                kind: match c.source {
                    ComponentSource::Component => SymbolKind::Method,
                    ComponentSource::Service => SymbolKind::Class,
                },
                uri: c.location.uri.clone(),
                range: Range {
                    start: Position { line: c.location.range.start.line, character: c.location.range.start.character },
                    end: Position { line: c.location.range.end.line, character: c.location.range.end.character },
                },
                container_name: container,
            };
            out.push(s);
            assert(symbols_view(out@) =~= symbols_view(out@.drop_last()).push(s@));
        }
        i = i + 1;
    }
    proof {
        assert(components@.take(components@.len() as int) =~= components@);
    }
    Some(out)
}

proof fn lemma_component_symbols_none(cs: Seq<ComponentInfoResponse>, query: Seq<char>, n: int)
    requires
        0 <= n <= cs.len(),
        spec_component_symbols(cs.take(n), query) is None,
    ensures
        spec_component_symbols(cs, query) is None,
    decreases cs.len() - n,
{
    if n < cs.len() {
        assert(cs.take(n + 1).drop_last() =~= cs.take(n));
        lemma_component_symbols_none(cs, query, n + 1);
    } else {
        assert(cs.take(n) =~= cs);
    }
}

/// The symbol of a route: named by its method and path.
pub open spec fn route_symbol(r: RouteInfoResponse) -> WorkspaceSymbolV {
    WorkspaceSymbolV {
        name: r.method@ + " "@ + r.path@,
        kind: SymbolKind::Function,
        uri: r.location.uri@,
        range: response_range(r.location.range),
        container_name: "Route ("@ + r.handler@ + ")"@,
    }
}

/// The symbols of the routes whose method and path match the query; none
/// at all when the URI of a matching one does not parse.
pub open spec fn spec_route_symbols(rs: Seq<RouteInfoResponse>, query: Seq<char>) -> Option<Seq<WorkspaceSymbolV>>
    decreases rs.len(),
{
    if rs.len() == 0 {
        Some(seq![])
    } else {
        match spec_route_symbols(rs.drop_last(), query) {
            None => None,
            Some(prev) => if !matches_query(rs.last().method@ + " "@ + rs.last().path@, query) {
                Some(prev)
            } else if !url_parses(rs.last().location.uri@) {
                None
            } else {
                Some(prev.push(route_symbol(rs.last())))
            },
        }
    }
}

proof fn lemma_route_symbols_none(rs: Seq<RouteInfoResponse>, query: Seq<char>, n: int)
    requires
        0 <= n <= rs.len(),
        spec_route_symbols(rs.take(n), query) is None,
    ensures
        spec_route_symbols(rs, query) is None,
    decreases rs.len() - n,
{
    if n < rs.len() {
        assert(rs.take(n + 1).drop_last() =~= rs.take(n));
        lemma_route_symbols_none(rs, query, n + 1);
    } else {
        assert(rs.take(n) =~= rs);
    }
}

/// Searches routes for a workspace symbol query.
pub fn route_symbols(routes: &Vec<RouteInfoResponse>, query: &str) -> (r: Option<Vec<WorkspaceSymbol>>)
    ensures
        match r {
            Some(v) => spec_route_symbols(routes@, query@) == Some(symbols_view(v@)),
            None => spec_route_symbols(routes@, query@) is None,
        },
{
    let mut out: Vec<WorkspaceSymbol> = Vec::new();
    let mut i: usize = 0;
    while i < routes.len()
        invariant
            i <= routes@.len(),
            spec_route_symbols(routes@.take(i as int), query@) == Some(symbols_view(out@)),
        decreases routes@.len() - i,
    {
        proof {
            assert(routes@.take(i + 1).drop_last() =~= routes@.take(i as int));
            assert(routes@.take(i + 1).last() == routes@[i as int]);
        }
        let rt = &routes[i];
        let mut name = rt.method.clone();
        name.append(" ");
        name.append(rt.path.as_str());
        if matches(name.as_str(), query) {
            if !uri_parses(rt.location.uri.as_str()) {
                proof {
                    lemma_route_symbols_none(routes@, query@, i as int + 1);
                }
                return None;
            }
            let mut container = String::from_str("Route (");
            container.append(rt.handler.as_str());
            container.append(")");
            let s = WorkspaceSymbol {
                name,
                kind: SymbolKind::Function,
                uri: rt.location.uri.clone(),
                range: Range {
                    start: Position { line: rt.location.range.start.line, character: rt.location.range.start.character },
                    end: Position { line: rt.location.range.end.line, character: rt.location.range.end.character },
                },
                container_name: container,
            };
            out.push(s);
            assert(symbols_view(out@) =~= symbols_view(out@.drop_last()).push(s@));
        }
        i = i + 1;
    }
    proof {
        assert(routes@.take(routes@.len() as int) =~= routes@);
    }
    Some(out)
}

} // verus!
