use summer_lsp::toml_tree::{parse_toml, TomlInteger, TomlValue};
use summer_lsp::json::parse_json;
use summer_lsp::lsp::{Diagnostic, DiagnosticSeverity, Position};
use summer_lsp::schema::{ConfigSchema, SchemaProvider};
use summer_lsp::toml_analyzer::{ConfigProperty, ConfigSection, ConfigValue, TomlAnalyzer, TomlDocument};

fn analyzer_with(prefix: &str, schema_json: &str) -> TomlAnalyzer {
    let mut schema = ConfigSchema::new();
    schema.insert(prefix.to_string(), parse_json(schema_json).unwrap());
    TomlAnalyzer::new(SchemaProvider::from_schema(schema))
}

fn section<'a>(doc: &'a TomlDocument, prefix: &str) -> Option<&'a ConfigSection> {
    doc.config_sections.iter().find(|s| s.prefix == prefix)
}

fn property<'a>(section: &'a ConfigSection, key: &str) -> Option<&'a ConfigProperty> {
    section.properties.iter().find(|(k, _)| k == key).map(|(_, p)| p)
}

fn table_has(value: &ConfigValue, key: &str) -> bool {
    match value {
        ConfigValue::Table(entries) => entries.iter().any(|e| e.key == key),
        _ => false,
    }
}

fn code_is(d: &Diagnostic, code: &str) -> bool {
    d.code.as_deref() == Some(code)
}

#[test]
fn test_preprocess_env_vars_in_quotes() {
    let analyzer = TomlAnalyzer::new(SchemaProvider::new());
    let content = r#"test_pay_amount = "${TEST_PAY_AMOUNT:false}""#;
    let (preprocessed, env_vars) = analyzer.preprocess_env_vars(content);

    assert_eq!(env_vars.len(), 0, "quoted references are left alone");
    assert_eq!(preprocessed, content, "quoted text is unchanged");
}

#[test]
fn test_preprocess_env_vars_without_quotes() {
    let analyzer = TomlAnalyzer::new(SchemaProvider::new());
    let content = r#"test_pay_amount = ${TEST_PAY_AMOUNT:false}"#;
    let (preprocessed, env_vars) = analyzer.preprocess_env_vars(content);

    assert_eq!(env_vars.len(), 1);
    assert_eq!(env_vars[0].name, "TEST_PAY_AMOUNT");
    assert_eq!(env_vars[0].default, Some("false".to_string()));
    assert_eq!(preprocessed, "test_pay_amount = false");
}

#[test]
fn test_parse_with_quoted_env_var() {
    let analyzer = TomlAnalyzer::new(SchemaProvider::new());
    let content = r#"
[pay]
test_pay_amount = "${TEST_PAY_AMOUNT:false}"
api_key = "${API_KEY:test_key}"
"#;
    let result = analyzer.parse(content);
    assert!(result.is_ok(), "quoted references parse: {:?}", result.err());
}

#[test]
fn test_parse_without_quoted_env_var() {
    let analyzer = TomlAnalyzer::new(SchemaProvider::new());
    let content = r#"
[pay]
test_pay_amount = ${TEST_PAY_AMOUNT:false}
port = ${PORT:8080}
"#;
    let result = analyzer.parse(content);
    assert!(result.is_ok(), "unquoted references parse once replaced: {:?}", result.err());

    let doc = result.unwrap();
    assert_eq!(doc.env_vars.len(), 2);
}

const LOGGER_SCHEMA: &str = r#"{
    "type": "object",
    "properties": {
        "level": {
            "type": "string",
            "enum": ["trace", "debug", "info", "warn", "error"],
            "description": "日志级别"
        }
    }
}"#;

#[test]
fn test_env_var_in_enum_should_not_error() {
    let analyzer = analyzer_with("logger", LOGGER_SCHEMA);
    let content = r#"
[logger]
level = "${RUST_LOG:info}"
"#;
    let doc = analyzer.parse(content).unwrap();
    let diagnostics = analyzer.validate(&doc);
    let enum_errors: Vec<_> = diagnostics.iter().filter(|d| code_is(d, "invalid-enum-value")).collect();
    assert!(enum_errors.is_empty(), "a reference is not checked against the enum: {:?}", enum_errors);
}

#[test]
fn test_invalid_enum_without_env_var_should_error() {
    let analyzer = analyzer_with("logger", LOGGER_SCHEMA);
    let content = r#"
[logger]
level = "invalid_level"
"#;
    let doc = analyzer.parse(content).unwrap();
    let diagnostics = analyzer.validate(&doc);
    let enum_errors: Vec<_> = diagnostics
        .iter()
        .filter(|d| d.severity == Some(DiagnosticSeverity::Error) && code_is(d, "invalid-enum-value"))
        .collect();
    assert!(!enum_errors.is_empty(), "an invalid enum value is an error");
}

#[test]
fn test_env_var_in_string_length_should_not_error() {
    let analyzer = analyzer_with(
        "web",
        r#"{
            "type": "object",
            "properties": {
                "host": { "type": "string", "minLength": 5, "maxLength": 20, "description": "主机地址" }
            }
        }"#,
    );
    let content = r#"
[web]
host = "${HOST:0.0.0.0}"
"#;
    let doc = analyzer.parse(content).unwrap();
    let diagnostics = analyzer.validate(&doc);
    let length_errors: Vec<_> = diagnostics
        .iter()
        .filter(|d| {
            d.code.as_deref().map(|c| c.contains("string-too-short") || c.contains("string-too-long")).unwrap_or(false)
        })
        .collect();
    assert!(length_errors.is_empty(), "a reference is not checked for length: {:?}", length_errors);
}

#[test]
fn test_contains_env_var() {
    let analyzer = TomlAnalyzer::new(SchemaProvider::new());

    assert!(analyzer.contains_env_var("${VAR}"));
    assert!(analyzer.contains_env_var("${VAR:default}"));
    assert!(analyzer.contains_env_var("prefix_${VAR}_suffix"));
    assert!(analyzer.contains_env_var("${VAR1}_${VAR2}"));

    assert!(!analyzer.contains_env_var("normal_string"));
    assert!(!analyzer.contains_env_var("$VAR"));
    assert!(!analyzer.contains_env_var("{VAR}"));
    assert!(!analyzer.contains_env_var(""));
}

#[test]
fn test_nested_section_parsing() {
    let analyzer = TomlAnalyzer::new(SchemaProvider::new());
    let content = r#"
[web.middlewares]
compression = { enable = true }
cors = { enable = true, allow_origins = ["https://example.com"], max_age = 60 }
"#;
    let result = analyzer.parse(content);
    assert!(result.is_ok(), "nested sections parse: {:?}", result.err());
    let doc = result.unwrap();

    assert!(doc.has_section("web"), "the web section is found");
    let web_section = section(&doc, "web").unwrap();
    let middlewares = property(web_section, "middlewares").expect("the nested table is a property");
    match &middlewares.value {
        ConfigValue::Table(_) => {
            assert!(table_has(&middlewares.value, "compression"));
            assert!(table_has(&middlewares.value, "cors"));
        }
        _ => panic!("middlewares is a table"),
    }
}

#[test]
fn test_inline_table_parsing() {
    let analyzer = TomlAnalyzer::new(SchemaProvider::new());
    let content = r#"
[opendal]
options = { endpoint = "${WEB_DAV_HOST:https://example.com}", username = "${WEB_DAV_USERNAME:user}", password = "${WEB_DAV_PASSWORD:pass}" }
"#;
    let result = analyzer.parse(content);
    assert!(result.is_ok(), "inline tables parse: {:?}", result.err());
    let doc = result.unwrap();

    assert!(doc.has_section("opendal"));
    let opendal_section = section(&doc, "opendal").unwrap();
    let options = property(opendal_section, "options").expect("options is a property");
    match &options.value {
        ConfigValue::Table(entries) => {
            assert!(table_has(&options.value, "endpoint"));
            assert!(table_has(&options.value, "username"));
            assert!(table_has(&options.value, "password"));
            let endpoint = entries.iter().find(|e| e.key == "endpoint").unwrap();
            if let ConfigValue::String(text) = &endpoint.value {
                assert!(
                    text.contains("${WEB_DAV_HOST") || text.starts_with("https://"),
                    "the endpoint keeps its reference or default: {}",
                    text
                );
            }
        }
        _ => panic!("options is a table"),
    }
}

#[test]
fn test_multiple_nested_sections() {
    let analyzer = TomlAnalyzer::new(SchemaProvider::new());
    let content = r#"
[web]
host = "0.0.0.0"
port = 8080

[web.middlewares]
compression = { enable = true }
cors = { enable = true }

[web.routes]
prefix = "/api"
"#;
    let result = analyzer.parse(content);
    assert!(result.is_ok(), "several nested sections parse: {:?}", result.err());
    let doc = result.unwrap();

    assert!(doc.has_section("web"));
    let web_section = section(&doc, "web").unwrap();
    assert!(property(web_section, "host").is_some());
    assert!(property(web_section, "port").is_some());
    assert!(property(web_section, "middlewares").is_some());
    assert!(property(web_section, "routes").is_some());
}

#[test]
fn test_nested_section_with_env_vars() {
    let analyzer = TomlAnalyzer::new(SchemaProvider::new());
    let content = r#"
[web.middlewares]
compression = { enable = ${ENABLE_COMPRESSION:true} }
cors = { allow_origins = ["${CORS_ORIGIN:https://example.com}"] }
"#;
    let result = analyzer.parse(content);
    assert!(result.is_ok(), "references in nested sections parse: {:?}", result.err());
    let doc = result.unwrap();

    assert!(!doc.env_vars.is_empty());
    assert!(doc.has_section("web"));
}

#[test]
fn test_nested_config_validation_warning() {
    let analyzer = TomlAnalyzer::new(SchemaProvider::new());
    let content = r#"
[web]
port = 8080

[web.middlewares]
compression = { enable = true }
"#;
    let doc = analyzer.parse(content).unwrap();
    let diagnostics = analyzer.validate(&doc);
    let middlewares_diagnostics: Vec<_> = diagnostics.iter().filter(|d| d.message.contains("middlewares")).collect();
    assert!(middlewares_diagnostics.is_empty(), "nested tables get no diagnostic: {:?}", middlewares_diagnostics);
}

#[test]
fn test_undefined_plain_property_still_errors() {
    let analyzer = analyzer_with(
        "web",
        r#"{
            "type": "object",
            "properties": { "port": { "type": "integer", "description": "Web server port" } }
        }"#,
    );
    let content = r#"
[web]
port = 8080
unknown_plain_property = "test"
"#;
    let doc = analyzer.parse(content).unwrap();
    let diagnostics = analyzer.validate(&doc);
    let property_diagnostics: Vec<_> =
        diagnostics.iter().filter(|d| d.message.contains("unknown_plain_property")).collect();
    assert!(!property_diagnostics.is_empty(), "an unknown plain property is reported");
    for diag in &property_diagnostics {
        assert_eq!(diag.severity, Some(DiagnosticSeverity::Hint));
    }
}

#[test]
fn test_syntax_error_is_reported() {
    let analyzer = TomlAnalyzer::new(SchemaProvider::new());
    let result = analyzer.parse("[web\nport = ");
    assert!(result.is_err());
}

#[test]
fn test_integer_out_of_range_is_an_error() {
    let analyzer = analyzer_with(
        "web",
        r#"{ "type": "object", "properties": { "port": { "type": "integer", "minimum": 1, "maximum": 65535 } } }"#,
    );
    let doc = analyzer.parse("[web]\nport = 70000\n").unwrap();
    let diagnostics = analyzer.validate(&doc);
    assert!(diagnostics.iter().any(|d| d.severity == Some(DiagnosticSeverity::Error)));
    let doc = analyzer.parse("[web]\nport = 8080\n").unwrap();
    assert!(analyzer.validate(&doc).is_empty());
}

#[test]
fn test_type_mismatch_is_an_error() {
    let analyzer = analyzer_with(
        "web",
        r#"{ "type": "object", "properties": { "port": { "type": "integer" } } }"#,
    );
    let doc = analyzer.parse("[web]\nport = \"eighty\"\n").unwrap();
    let diagnostics = analyzer.validate(&doc);
    assert_eq!(diagnostics.len(), 1);
    assert_eq!(diagnostics[0].severity, Some(DiagnosticSeverity::Error));
}

#[test]
fn test_hover_on_known_property() {
    let analyzer = TomlAnalyzer::new(SchemaProvider::default());
    let doc = analyzer.parse("[web]\nport = 8080\n").unwrap();
    let hover = analyzer.hover(&doc, Position { line: 1, character: 8 }, &vec![]);
    let hover = hover.expect("the port property has a hover");
    assert!(hover.contents.contains("port"));
    let nothing = analyzer.hover(&doc, Position { line: 40, character: 0 }, &vec![]);
    assert!(nothing.is_none());
}

#[test]
fn test_config_value_to_string_formats() {
    let analyzer = TomlAnalyzer::new(SchemaProvider::new());
    assert_eq!(analyzer.config_value_to_string(&ConfigValue::String("a".to_string())), "\"a\"");
    assert_eq!(analyzer.config_value_to_string(&ConfigValue::Integer(-4)), "-4");
    assert_eq!(analyzer.config_value_to_string(&ConfigValue::Boolean(true)), "true");
    assert_eq!(analyzer.config_value_to_string(&ConfigValue::Float("2.5".to_string())), "2.5");
}

#[test]
fn test_text_without_references_is_unchanged() {
    let analyzer = TomlAnalyzer::new(SchemaProvider::new());
    let content = "[web]\nhost = \"0.0.0.0\"\nport = 8080\n";
    let (preprocessed, env_vars) = analyzer.preprocess_env_vars(content);
    assert_eq!(preprocessed, content);
    assert!(env_vars.is_empty());
}

#[test]
fn test_reference_range_and_replacement() {
    let analyzer = TomlAnalyzer::new(SchemaProvider::new());
    let (preprocessed, env_vars) = analyzer.preprocess_env_vars("[web]\nport = ${PORT:8080}\nhost = ${HOST}\n");
    assert_eq!(env_vars.len(), 2);
    let port = &env_vars[0];
    assert_eq!(port.name, "PORT");
    assert_eq!(port.default.as_deref(), Some("8080"));
    assert_eq!(port.range.start.line, 1);
    assert_eq!(port.range.end.line, 1);
    assert_eq!(port.range.start.character, 7);
    assert_eq!(port.range.end.character, 19);
    assert_eq!(env_vars[1].name, "HOST");
    assert_eq!(env_vars[1].default, None);
    assert!(preprocessed.starts_with("[web]\nport = 8080\n"));
}

#[test]
fn test_parse_toml_builds_the_tree() {
    let parsed = parse_toml("a = 1\n\n[b]\nc = \"x\"\nd = [true, -2]\n");
    assert!(parsed.errors.is_empty());
    let entries = match &parsed.root.value {
        TomlValue::Table(es) => es,
        _ => panic!("expected a table"),
    };
    assert_eq!(entries.len(), 2);
    assert_eq!(entries[0].key, "a");
    assert!(matches!(entries[0].value.value, TomlValue::Integer(TomlInteger::Positive(1))));
    assert_eq!(entries[1].key, "b");
    let inner = match &entries[1].value.value {
        TomlValue::Table(es) => es,
        _ => panic!("expected a table"),
    };
    assert_eq!(inner.len(), 2);
    assert_eq!(inner[0].key, "c");
    assert!(matches!(&inner[0].value.value, TomlValue::Str(s) if s == "x"));
    match &inner[1].value.value {
        TomlValue::Array(items) => {
            assert_eq!(items.len(), 2);
            assert!(matches!(items[0].value, TomlValue::Bool(true)));
            assert!(matches!(items[1].value, TomlValue::Integer(TomlInteger::Negative(-2))));
        }
        _ => panic!("expected an array"),
    }
    let span = entries[0].value.span.unwrap();
    assert_eq!((span.start, span.end), (4, 5));
}

#[test]
fn test_parse_toml_reports_syntax_errors() {
    let parsed = parse_toml("a = \n[");
    assert!(!parsed.errors.is_empty());
}
