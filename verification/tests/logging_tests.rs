use summer_lsp::logging::LogConfig;

#[test]
fn test_log_config_default() {
    let config = LogConfig::default();
    assert_eq!(config.level, "info");
    assert!(!config.verbose);
    assert!(config.log_file.is_none());
}

#[test]
fn test_validate_level() {
    let valid_levels = vec!["trace", "debug", "info", "warn", "error"];
    for level in valid_levels {
        let config = LogConfig { level: level.to_string(), ..LogConfig::default() };
        assert!(config.validate_level().is_ok());
    }

    let invalid_config = LogConfig { level: "invalid".to_string(), ..LogConfig::default() };
    assert!(invalid_config.validate_level().is_err());
}

#[test]
fn test_log_config_from_env() {
    let config = LogConfig::from_env(
        Some("debug".to_string()),
        Some("true".to_string()),
        Some("/tmp/summer-lsp.log".to_string()),
    );
    assert_eq!(config.level, "debug");
    assert!(config.verbose);
    assert_eq!(config.log_file, Some("/tmp/summer-lsp.log".to_string()));
}

#[test]
fn test_log_config_verbose_variants() {
    assert!(LogConfig::from_env(None, Some("1".to_string()), None).verbose);
    assert!(LogConfig::from_env(None, Some("true".to_string()), None).verbose);
    assert!(LogConfig::from_env(None, Some("TRUE".to_string()), None).verbose);
    assert!(!LogConfig::from_env(None, Some("false".to_string()), None).verbose);
    assert!(!LogConfig::from_env(None, None, None).verbose);
}

#[test]
fn test_log_config_case_insensitive() {
    assert_eq!(LogConfig::from_env(Some("DEBUG".to_string()), None, None).level, "debug");
    assert_eq!(LogConfig::from_env(Some("WaRn".to_string()), None, None).level, "warn");
}

#[test]
fn test_filter_directive() {
    let quiet = LogConfig { level: "debug".to_string(), verbose: false, log_file: None };
    assert_eq!(quiet.filter_directive(), "summer_lsp=debug");
    let verbose = LogConfig { level: "info".to_string(), verbose: true, log_file: None };
    assert_eq!(verbose.filter_directive(), "summer_lsp=info,lsp_server=info");
}

#[test]
fn test_invalid_level_message() {
    let config = LogConfig { level: "loud".to_string(), verbose: false, log_file: None };
    let err = config.validate_level().unwrap_err();
    assert!(err.contains("loud"));
}
