use summer_lsp::config::DiagnosticsConfig;
use summer_lsp::error::{ErrorHandlingResult, ErrorSeverity, RecoveryAction};
use summer_lsp::lsp::{DiagnosticSeverity, LocationResponse, Position, Range, RangeResponse, PositionResponse};
use summer_lsp::scanner::component::{ComponentInfoResponse, ComponentScope, ComponentSource};
use summer_lsp::scanner::route::RouteInfoResponse;
use summer_lsp::schema::SchemaProvider;
use summer_lsp::server::{
    after_handle_error, after_receive_error, component_symbols, document_diagnostics, extract_rust_symbols,
    extract_toml_symbols, initial_state, message_type, method_not_found_message, next_state, notification_kind,
    request_kind, route_symbols, rust_symbols, LoopStep, MessageType, NotificationKind, RequestKind, RustItem,
    ServerEvent, ServerState, SymbolKind,
};
use summer_lsp::toml_analyzer::TomlAnalyzer;

#[test]
fn test_server_state_transitions() {
    let state = initial_state();
    assert_eq!(state, ServerState::Uninitialized);
}

#[test]
fn test_lifecycle_events() {
    let state = next_state(initial_state(), ServerEvent::InitializeFinished);
    assert_eq!(state, ServerState::Initialized);
    assert_eq!(next_state(state, ServerEvent::ShutdownRequested), ServerState::ShuttingDown);
    assert_eq!(next_state(state, ServerEvent::ExitReceived), ServerState::ShuttingDown);
    assert_eq!(next_state(ServerState::ShuttingDown, ServerEvent::FatalError), ServerState::ShuttingDown);
}

#[test]
fn test_request_routing() {
    assert_eq!(request_kind("textDocument/completion"), RequestKind::Completion);
    assert_eq!(request_kind("textDocument/hover"), RequestKind::Hover);
    assert_eq!(request_kind("textDocument/definition"), RequestKind::GotoDefinition);
    assert_eq!(request_kind("textDocument/documentSymbol"), RequestKind::DocumentSymbol);
    assert_eq!(request_kind("workspace/symbol"), RequestKind::WorkspaceSymbol);
    assert_eq!(request_kind("summer-lsp/status"), RequestKind::Status);
    assert_eq!(request_kind("summer/components"), RequestKind::Components);
    assert_eq!(request_kind("summer/routes"), RequestKind::Routes);
    assert_eq!(request_kind("summer/jobs"), RequestKind::Jobs);
    assert_eq!(request_kind("summer/plugins"), RequestKind::Plugins);
    assert_eq!(request_kind("summer/configurations"), RequestKind::Configurations);
    assert_eq!(request_kind("textDocument/rename"), RequestKind::Unknown);
    assert_eq!(method_not_found_message("x/y"), "Method not found: x/y");
}

#[test]
fn test_notification_routing() {
    assert_eq!(notification_kind("textDocument/didOpen"), NotificationKind::DidOpen);
    assert_eq!(notification_kind("textDocument/didChange"), NotificationKind::DidChange);
    assert_eq!(notification_kind("textDocument/didClose"), NotificationKind::DidClose);
    assert_eq!(notification_kind("exit"), NotificationKind::Exit);
    assert_eq!(notification_kind("$/cancelRequest"), NotificationKind::Other);
}

#[test]
fn test_loop_decisions() {
    assert_eq!(after_receive_error(RecoveryAction::RetryConnection), LoopStep::RetryAfterPause);
    assert_eq!(after_receive_error(RecoveryAction::Abort), LoopStep::Stop);
    assert_eq!(after_receive_error(RecoveryAction::UseCache), LoopStep::Stop);

    let abort = ErrorHandlingResult { action: RecoveryAction::Abort, fallback: None, notify_client: true };
    let after = after_handle_error(ServerState::Initialized, &abort);
    assert_eq!(after.state, ServerState::ShuttingDown);
    assert!(after.stop);
    assert!(!after.notify_client);

    let parse = ErrorHandlingResult { action: RecoveryAction::PartialParse, fallback: None, notify_client: true };
    let after = after_handle_error(ServerState::Initialized, &parse);
    assert_eq!(after.state, ServerState::Initialized);
    assert!(!after.stop);
    assert!(after.notify_client);

    assert_eq!(message_type(ErrorSeverity::Warning), MessageType::Warning);
    assert_eq!(message_type(ErrorSeverity::Error), MessageType::Error);
    assert_eq!(message_type(ErrorSeverity::Info), MessageType::Info);
}

#[test]
fn test_document_diagnostics_for_parse_error() {
    let analyzer = TomlAnalyzer::new(SchemaProvider::default());
    let config = DiagnosticsConfig::default();
    let diagnostics = document_diagnostics(&analyzer, &config, "toml", "[web\nport = ");
    assert_eq!(diagnostics.len(), 1);
    assert_eq!(diagnostics[0].code.as_deref(), Some("parse_error"));
    assert_eq!(diagnostics[0].severity, Some(DiagnosticSeverity::Error));
    assert!(diagnostics[0].message.starts_with("TOML parse error: "));
    assert_eq!(diagnostics[0].source.as_deref(), Some("summer-lsp"));

    let mut silenced = DiagnosticsConfig::default();
    silenced.disable("parse_error");
    assert!(document_diagnostics(&analyzer, &silenced, "toml", "[web\nport = ").is_empty());
    assert!(document_diagnostics(&analyzer, &config, "rust", "fn main() {").is_empty());
}

#[test]
fn test_document_diagnostics_filters_disabled_codes() {
    let analyzer = TomlAnalyzer::new(SchemaProvider::default());
    let content = "[web]\nport = \"eighty\"\n";
    let all = document_diagnostics(&analyzer, &DiagnosticsConfig::default(), "toml", content);
    assert!(!all.is_empty());
    let code = all[0].code.clone().unwrap();
    let mut config = DiagnosticsConfig::default();
    config.disable(&code);
    let filtered = document_diagnostics(&analyzer, &config, "toml", content);
    assert!(filtered.iter().all(|d| d.code.as_deref() != Some(code.as_str())));
    assert_eq!(filtered.len(), all.iter().filter(|d| d.code.as_deref() != Some(code.as_str())).count());
}

#[test]
fn test_toml_symbols() {
    let symbols = extract_toml_symbols("title = \"app\"\nlist = [1, 2]\n\n[web]\nhost = \"h\"\nport = 1\n\n[empty]\n");
    assert_eq!(symbols.len(), 4);
    assert_eq!(symbols[0].name, "title");
    assert_eq!(symbols[0].kind, SymbolKind::Property);
    assert_eq!(symbols[1].name, "list");
    assert_eq!(symbols[1].kind, SymbolKind::Array);
    assert_eq!(symbols[1].detail.as_deref(), Some("Array"));
    assert_eq!(symbols[2].name, "web");
    assert_eq!(symbols[2].kind, SymbolKind::Module);
    assert_eq!(symbols[2].detail.as_deref(), Some("Configuration section"));
    assert_eq!(symbols[2].range.end.character, 3);
    let children = symbols[2].children.as_ref().unwrap();
    assert_eq!(children.len(), 2);
    assert_eq!(children[0].name, "host");
    assert_eq!(children[1].name, "port");
    assert_eq!(children[1].range, symbols[2].range);
    assert!(symbols[3].children.is_none());
}

#[test]
fn test_rust_symbols() {
    let content = "fn main() {}\nstruct A;\nenum B { X }\ntrait C {}\nimpl C for A {}\nimpl A {}\nconst D: u8 = 1;\n";
    let symbols = extract_rust_symbols(content);
    let names: Vec<&str> = symbols.iter().map(|s| s.name.as_str()).collect();
    assert_eq!(names, vec!["main", "A", "B", "C", "impl C", "impl A"]);
    assert_eq!(symbols[0].detail.as_deref(), Some("fn main"));
    assert_eq!(symbols[0].kind, SymbolKind::Function);
    assert_eq!(symbols[3].kind, SymbolKind::Interface);
    assert_eq!(symbols[4].kind, SymbolKind::Class);
    assert_eq!(symbols[4].detail.as_deref(), Some("Implementation"));
    assert_eq!(symbols[0].range, Range { start: Position { line: 0, character: 0 }, end: Position { line: 0, character: 0 } });
    assert!(extract_rust_symbols("fn (").is_empty());
}

#[test]
fn test_rust_symbols_from_items() {
    let items = vec![
        RustItem::Struct("S".to_string()),
        RustItem::Other,
        RustItem::Impl { trait_path: None, self_path: None },
        RustItem::Impl { trait_path: None, self_path: Some("Vec < u8 >".to_string()) },
    ];
    let symbols = rust_symbols(&items);
    assert_eq!(symbols.len(), 2);
    assert_eq!(symbols[0].detail.as_deref(), Some("struct S"));
    assert_eq!(symbols[1].name, "impl Vec < u8 >");
}

fn location(uri: &str) -> LocationResponse {
    LocationResponse {
        uri: uri.to_string(),
        range: RangeResponse {
            start: PositionResponse { line: 1, character: 2 },
            end: PositionResponse { line: 1, character: 9 },
        },
    }
}

#[test]
fn test_component_symbols_search() {
    let components = vec![
        ComponentInfoResponse {
            name: "UserService".to_string(),
            ty_name: "UserService".to_string(),
            scope: ComponentScope::Singleton,
            source: ComponentSource::Service,
            dependencies: vec![],
            location: location("file:///app/src/user.rs"),
        },
        ComponentInfoResponse {
            name: "db_pool".to_string(),
            ty_name: "ConnectPool".to_string(),
            scope: ComponentScope::Singleton,
            source: ComponentSource::Component,
            dependencies: vec![],
            location: location("file:///app/src/db.rs"),
        },
    ];
    let all = component_symbols(&components, "").unwrap();
    assert_eq!(all.len(), 2);
    assert_eq!(all[0].kind, SymbolKind::Class);
    assert_eq!(all[1].kind, SymbolKind::Method);
    assert_eq!(all[1].container_name, "Component (ConnectPool)");
    assert_eq!(all[0].range.start, Position { line: 1, character: 2 });
    let some = component_symbols(&components, "user").unwrap();
    assert_eq!(some.len(), 1);
    assert_eq!(some[0].name, "UserService");
    let bad = vec![ComponentInfoResponse {
        name: "x".to_string(),
        ty_name: "X".to_string(),
        scope: ComponentScope::Singleton,
        source: ComponentSource::Component,
        dependencies: vec![],
        location: location("not a uri"),
    }];
    assert!(component_symbols(&bad, "").is_none());
    assert_eq!(component_symbols(&bad, "zzz").unwrap().len(), 0);
}

#[test]
fn test_route_symbols_search() {
    let routes = vec![
        RouteInfoResponse {
            method: "GET".to_string(),
            path: "/users".to_string(),
            handler: "list_users".to_string(),
            is_openapi: false,
            location: location("file:///app/src/routes.rs"),
        },
        RouteInfoResponse {
            method: "POST".to_string(),
            path: "/orders".to_string(),
            handler: "create_order".to_string(),
            is_openapi: false,
            location: location("file:///app/src/routes.rs"),
        },
    ];
    let found = route_symbols(&routes, "get /u").unwrap();
    assert_eq!(found.len(), 1);
    assert_eq!(found[0].name, "GET /users");
    assert_eq!(found[0].kind, SymbolKind::Function);
    assert_eq!(found[0].container_name, "Route (list_users)");
    assert_eq!(route_symbols(&routes, "").unwrap().len(), 2);
}
