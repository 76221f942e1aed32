use summer_lsp::config::{
    CompletionConfig, DiagnosticsConfig, EnvOverrides, LoggingConfig, SchemaConfig, ServerConfig,
};

fn no_env() -> EnvOverrides {
    EnvOverrides { log_level: None, verbose: None, log_file: None, schema_url: None }
}

#[test]
fn test_default_config() {
    let config = ServerConfig::default();
    assert_eq!(config.logging.level, "info");
    assert!(!config.logging.verbose);
    assert!(config.logging.log_file.is_none());
    assert_eq!(config.completion.trigger_characters.len(), 6);
    assert!(config.diagnostics.disabled.is_empty());
    assert_eq!(config.schema.url, "https://summer-rs.github.io/config-schema.json");
}

#[test]
fn test_logging_config_validation() {
    let valid_config = LoggingConfig { level: "debug".to_string(), verbose: false, log_file: None };
    assert!(valid_config.validate().is_ok());

    let invalid_config = LoggingConfig { level: "invalid".to_string(), verbose: false, log_file: None };
    assert!(invalid_config.validate().is_err());
}

#[test]
fn test_completion_config_validation() {
    let valid_config = CompletionConfig { trigger_characters: vec!["[".to_string()] };
    assert!(valid_config.validate().is_ok());

    let invalid_config = CompletionConfig { trigger_characters: vec![] };
    assert!(invalid_config.validate().is_err());
}

#[test]
fn test_schema_config_validation() {
    let valid_http = SchemaConfig { url: "https://example.com/schema.json".to_string() };
    assert!(valid_http.validate().is_ok());

    let valid_file = SchemaConfig { url: "file:///path/to/schema.json".to_string() };
    assert!(valid_file.validate().is_ok());

    let invalid_empty = SchemaConfig { url: "".to_string() };
    assert!(invalid_empty.validate().is_err());

    let invalid_protocol = SchemaConfig { url: "ftp://example.com/schema.json".to_string() };
    assert!(invalid_protocol.validate().is_err());
}

#[test]
fn test_diagnostics_is_disabled() {
    let mut config = DiagnosticsConfig::default();
    assert!(!config.is_disabled("deprecated_warning"));

    config.disable("deprecated_warning");
    assert!(config.is_disabled("deprecated_warning"));
    assert!(!config.is_disabled("type_error"));
}

#[test]
fn test_config_merge() {
    let base = ServerConfig {
        logging: LoggingConfig { level: "info".to_string(), verbose: false, log_file: None },
        completion: CompletionConfig { trigger_characters: vec!["[".to_string()] },
        diagnostics: DiagnosticsConfig { disabled: Vec::new() },
        schema: SchemaConfig { url: "https://default.com/schema.json".to_string() },
    };

    let override_config = ServerConfig {
        logging: LoggingConfig {
            level: "debug".to_string(),
            verbose: true,
            log_file: Some("/tmp/test.log".to_string()),
        },
        completion: CompletionConfig { trigger_characters: vec!["[".to_string(), ".".to_string()] },
        diagnostics: DiagnosticsConfig { disabled: vec!["deprecated_warning".to_string()] },
        schema: SchemaConfig { url: "https://custom.com/schema.json".to_string() },
    };

    let merged = base.merge(override_config);

    assert_eq!(merged.logging.level, "debug");
    assert!(merged.logging.verbose);
    assert_eq!(merged.logging.log_file, Some("/tmp/test.log".to_string()));
    assert_eq!(merged.completion.trigger_characters.len(), 2);
    assert!(merged.diagnostics.is_disabled("deprecated_warning"));
    assert_eq!(merged.schema.url, "https://custom.com/schema.json");
}

#[test]
fn test_env_overrides() {
    let env = EnvOverrides {
        log_level: Some("trace".to_string()),
        verbose: Some("true".to_string()),
        log_file: None,
        schema_url: Some("https://test.com/schema.json".to_string()),
    };
    let config = ServerConfig::default().apply_env_overrides(env);

    assert_eq!(config.logging.level, "trace");
    assert!(config.logging.verbose);
    assert_eq!(config.schema.url, "https://test.com/schema.json");
}

#[test]
fn test_load_from_toml() {
    let toml_content = r#"
[logging]
level = "debug"
verbose = true
log_file = "/tmp/summer-lsp.log"

[completion]
trigger_characters = ["[", ".", "$"]

[diagnostics]
disabled = ["deprecated_warning", "restful_style"]

[schema]
url = "https://custom.com/schema.json"
"#;

    let config = ServerConfig::from_toml_str(toml_content).unwrap();

    assert_eq!(config.logging.level, "debug");
    assert!(config.logging.verbose);
    assert_eq!(config.logging.log_file, Some("/tmp/summer-lsp.log".to_string()));
    assert_eq!(config.completion.trigger_characters.len(), 3);
    assert!(config.diagnostics.is_disabled("deprecated_warning"));
    assert!(config.diagnostics.is_disabled("restful_style"));
    assert_eq!(config.schema.url, "https://custom.com/schema.json");
}

#[test]
fn test_partial_toml_config() {
    let toml_content = r#"
[logging]
level = "warn"

[schema]
url = "file:///local/schema.json"
"#;

    let config = ServerConfig::from_toml_str(toml_content).unwrap();

    assert_eq!(config.logging.level, "warn");
    assert!(!config.logging.verbose);
    assert_eq!(config.completion.trigger_characters.len(), 6);
    assert!(config.diagnostics.disabled.is_empty());
    assert_eq!(config.schema.url, "file:///local/schema.json");
}

#[test]
fn test_config_validation() {
    let valid_config = ServerConfig::default();
    assert!(valid_config.validate().is_ok());

    let invalid_config = ServerConfig {
        logging: LoggingConfig { level: "invalid".to_string(), verbose: false, log_file: None },
        ..ServerConfig::default()
    };
    assert!(invalid_config.validate().is_err());
}

#[test]
fn test_merge_with_default_overrides_scalars_and_keeps_lists() {
    let base = ServerConfig {
        logging: LoggingConfig { level: "warn".to_string(), verbose: true, log_file: Some("/a.log".to_string()) },
        completion: CompletionConfig { trigger_characters: vec!["[".to_string()] },
        diagnostics: DiagnosticsConfig { disabled: vec!["x".to_string()] },
        schema: SchemaConfig { url: "https://a.com/s.json".to_string() },
    };
    let merged = base.merge(ServerConfig::default());
    assert_eq!(merged.logging.level, "info");
    assert!(!merged.logging.verbose);
    assert_eq!(merged.logging.log_file, Some("/a.log".to_string()));
    assert_eq!(merged.completion.trigger_characters.len(), 6);
    assert!(merged.diagnostics.is_disabled("x"));
    assert_eq!(merged.schema.url, "https://summer-rs.github.io/config-schema.json");
}

#[test]
fn test_load_applies_sources_in_order() {
    let user = ServerConfig {
        logging: LoggingConfig { level: "debug".to_string(), verbose: false, log_file: None },
        ..ServerConfig::default()
    };
    let workspace = ServerConfig {
        schema: SchemaConfig { url: "file:///ws/schema.json".to_string() },
        ..ServerConfig::default()
    };
    let env = EnvOverrides { log_level: Some("error".to_string()), ..no_env() };
    let config = ServerConfig::load(Some(user), Some(workspace), env);
    assert_eq!(config.logging.level, "error");
    assert_eq!(config.schema.url, "file:///ws/schema.json");
    let plain = ServerConfig::load(None, None, no_env());
    assert_eq!(plain.logging.level, "info");
}

#[test]
fn test_invalid_toml_config_is_an_error() {
    assert!(ServerConfig::from_toml_str("[logging\nlevel = ").is_err());
}

#[test]
fn test_from_toml_str_rejects_a_key_defined_twice() {
    let r = ServerConfig::from_toml_str("[logging]\nlevel = \"debug\"\nlevel = \"info\"\n");
    assert!(r.is_err());
    let r = ServerConfig::from_toml_str("[logging]\nlevel = \"debug\"\n\n[logging]\nverbose = true\n");
    assert!(r.is_err());
}

#[test]
fn test_from_toml_str_lists_each_disabled_kind_once() {
    let config = ServerConfig::from_toml_str("[diagnostics]\ndisabled = [\"a\", \"b\", \"a\"]\n").unwrap();
    assert_eq!(config.diagnostics.disabled, vec!["a".to_string(), "b".to_string()]);
}
