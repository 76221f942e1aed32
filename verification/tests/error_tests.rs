use lsp_types::Url;
use summer_lsp::error::{
    config_validation_error, di_validation_error, env_var_syntax_error, route_validation_error, rust_parse_error,
    toml_parse_error, Error, ErrorCategory, ErrorHandler, ErrorSeverity, RecoveryAction,
};

#[test]
fn test_error_category() {
    let protocol_err = Error::MessageSend("test error".to_string());
    assert_eq!(protocol_err.category(), ErrorCategory::Protocol);

    let parse_err = Error::TomlParse { uri: "file:///test.toml".to_string(), message: "syntax error".to_string() };
    assert_eq!(parse_err.category(), ErrorCategory::Parse);

    let validation_err =
        Error::ConfigValidation { uri: "file:///test.toml".to_string(), message: "invalid config".to_string() };
    assert_eq!(validation_err.category(), ErrorCategory::Validation);

    let system_err = Error::SchemaLoad("failed to load".to_string());
    assert_eq!(system_err.category(), ErrorCategory::System);
}

#[test]
fn test_error_recoverability() {
    let protocol_err = Error::MessageSend("test error".to_string());
    assert!(protocol_err.is_recoverable());

    let parse_err = Error::TomlParse { uri: "file:///test.toml".to_string(), message: "syntax error".to_string() };
    assert!(parse_err.is_recoverable());

    let io_err = Error::Io(std::io::Error::new(std::io::ErrorKind::NotFound, "file not found"));
    assert!(!io_err.is_recoverable());
}

#[test]
fn test_error_severity() {
    let protocol_err = Error::MessageSend("test error".to_string());
    assert_eq!(protocol_err.severity(), ErrorSeverity::Error);

    let parse_err = Error::TomlParse { uri: "file:///test.toml".to_string(), message: "syntax error".to_string() };
    assert_eq!(parse_err.severity(), ErrorSeverity::Warning);

    let validation_err =
        Error::ConfigValidation { uri: "file:///test.toml".to_string(), message: "invalid config".to_string() };
    assert_eq!(validation_err.severity(), ErrorSeverity::Info);
}

#[test]
fn test_error_document_uri() {
    let parse_err = Error::TomlParse { uri: "file:///test.toml".to_string(), message: "syntax error".to_string() };
    assert_eq!(parse_err.document_uri(), Some("file:///test.toml"));

    let system_err = Error::SchemaLoad("failed".to_string());
    assert_eq!(system_err.document_uri(), None);
}

#[test]
fn test_error_handler() {
    let handler = ErrorHandler::new(false);

    let protocol_err = Error::MessageSend("test error".to_string());
    let result = handler.handle(&protocol_err);
    assert_eq!(result.action, RecoveryAction::RetryConnection);
    assert!(result.notify_client);

    let parse_err = Error::TomlParse { uri: "file:///test.toml".to_string(), message: "syntax error".to_string() };
    let result = handler.handle(&parse_err);
    assert_eq!(result.action, RecoveryAction::PartialParse);
    assert!(result.notify_client);

    let validation_err =
        Error::ConfigValidation { uri: "file:///test.toml".to_string(), message: "invalid config".to_string() };
    let result = handler.handle(&validation_err);
    assert_eq!(result.action, RecoveryAction::GenerateDiagnostic);
    assert!(!result.notify_client);

    let schema_err = Error::SchemaLoad("failed".to_string());
    let result = handler.handle(&schema_err);
    assert_eq!(result.action, RecoveryAction::UseFallback);
    assert_eq!(result.fallback, Some("builtin-schema".to_string()));
    assert!(result.notify_client);
}

#[test]
fn test_error_helper_functions() {
    let uri = Url::parse("file:///test.toml").unwrap();

    let toml_err = toml_parse_error(&uri, "syntax error".to_string());
    assert!(matches!(toml_err, Error::TomlParse { .. }));

    let rust_err = rust_parse_error(&uri, "syntax error".to_string());
    assert!(matches!(rust_err, Error::RustParse { .. }));

    let env_err = env_var_syntax_error(&uri, 10, "invalid syntax".to_string());
    assert!(matches!(env_err, Error::EnvVarSyntax { .. }));

    let config_err = config_validation_error(&uri, "invalid config".to_string());
    assert!(matches!(config_err, Error::ConfigValidation { .. }));

    let route_err = route_validation_error(&uri, "invalid route".to_string());
    assert!(matches!(route_err, Error::RouteValidation { .. }));

    let di_err = di_validation_error(&uri, "invalid injection".to_string());
    assert!(matches!(di_err, Error::DiValidation { .. }));
}

#[test]
fn test_error_handler_other_system_errors() {
    let handler = ErrorHandler::new(true);
    assert!(handler.verbose());
    let index_err = Error::IndexBuild("broken".to_string());
    let result = handler.handle(&index_err);
    assert_eq!(result.action, RecoveryAction::SkipOperation);
    assert!(result.fallback.is_none());
    let config_err = Error::Config("bad".to_string());
    let result = handler.handle(&config_err);
    assert_eq!(result.action, RecoveryAction::Abort);
    assert!(!config_err.is_recoverable());
    assert_eq!(config_err.severity(), ErrorSeverity::Error);
}

#[test]
fn test_helper_keeps_uri_and_message() {
    let uri = Url::parse("file:///app/config.toml").unwrap();
    let err = env_var_syntax_error(&uri, 3, "bad".to_string());
    assert_eq!(err.document_uri(), Some("file:///app/config.toml"));
    match err {
        Error::EnvVarSyntax { line, message, .. } => {
            assert_eq!(line, 3);
            assert_eq!(message, "bad");
        }
        _ => panic!("expected an environment variable syntax error"),
    }
}

#[test]
fn test_error_messages() {
    let e = Error::TomlParse { uri: "file:///a.toml".to_string(), message: "bad".to_string() };
    assert_eq!(e.message(), "TOML parse error in file:///a.toml: bad");
    let e = Error::EnvVarSyntax { uri: "file:///a.toml".to_string(), line: 12, message: "unclosed".to_string() };
    assert_eq!(e.message(), "Invalid environment variable syntax in file:///a.toml at line 12: unclosed");
    assert_eq!(Error::SchemaLoad("timeout".to_string()).message(), "Schema load error: timeout");
    assert_eq!(Error::MessageSend("closed".to_string()).message(), "Failed to send message: closed");
    let io = Error::Io(std::io::Error::new(std::io::ErrorKind::Other, "disk"));
    assert_eq!(io.message(), "File I/O error: disk");
}
