use summer_lsp::completion::{
    CompletionContext, CompletionEngine, CompletionItem, CompletionItemKind, InsertTextFormat,
};
use summer_lsp::lsp::{Position, Range};
use summer_lsp::macros::{
    AutoConfigMacro, InjectMacro, InjectType, JobMacro, RouteMacro, ServiceMacro, ServiceScope, SummerMacro,
};
use summer_lsp::scanner::route::HttpMethod;
use summer_lsp::schema::{SchemaProvider, TypeInfo, Value};
use summer_lsp::toml_analyzer::TomlAnalyzer;

fn test_range() -> Range {
    Range { start: Position { line: 0, character: 0 }, end: Position { line: 0, character: 0 } }
}

fn test_engine() -> CompletionEngine {
    CompletionEngine::new(SchemaProvider::default())
}

fn service_macro(name: &str) -> ServiceMacro {
    ServiceMacro { struct_name: name.to_string(), fields: vec![], scope: ServiceScope::Singleton, range: test_range() }
}

fn inject_macro() -> InjectMacro {
    InjectMacro { inject_type: InjectType::Component, component_name: None, range: test_range() }
}

fn auto_config_macro() -> AutoConfigMacro {
    AutoConfigMacro { configurator_type: "".to_string(), range: test_range() }
}

fn route_macro(handler: &str) -> RouteMacro {
    RouteMacro {
        path: "/test".to_string(),
        methods: vec![HttpMethod::GET],
        middlewares: vec![],
        handler_name: handler.to_string(),
        range: test_range(),
        is_openapi: false,
    }
}

fn find<'a>(items: &'a [CompletionItem], label: &str) -> Option<&'a CompletionItem> {
    items.iter().find(|c| c.label == label)
}

fn toml_completions(content: &str, line: u32, character: u32) -> Vec<CompletionItem> {
    let engine = test_engine();
    let toml_analyzer = TomlAnalyzer::new(SchemaProvider::default());
    let doc = toml_analyzer.parse(content).unwrap();
    engine.complete(CompletionContext::Toml, Position { line, character }, Some(&doc), None)
}

fn string_type() -> TypeInfo {
    TypeInfo::String { enum_values: None, min_length: None, max_length: None }
}

#[test]
fn test_complete_service_macro() {
    let engine = test_engine();
    let completions = engine.complete_macro(&SummerMacro::DeriveService(service_macro("TestService")), None);

    assert_eq!(completions.len(), 3);

    assert_eq!(completions[0].label, "inject(component)");
    assert_eq!(completions[0].kind, Some(CompletionItemKind::Property));
    assert_eq!(completions[0].detail, Some("注入组件".to_string()));
    assert!(completions[0].documentation.is_some());
    assert_eq!(completions[0].insert_text, Some("inject(component)".to_string()));

    assert_eq!(completions[1].label, "inject(component = \"name\")");
    assert_eq!(completions[1].kind, Some(CompletionItemKind::Property));
    assert_eq!(completions[1].detail, Some("注入指定名称的组件".to_string()));
    assert!(completions[1].documentation.is_some());
    assert_eq!(completions[1].insert_text, Some("inject(component = \"$1\")".to_string()));
    assert_eq!(completions[1].insert_text_format, Some(InsertTextFormat::Snippet));

    assert_eq!(completions[2].label, "inject(config)");
    assert_eq!(completions[2].kind, Some(CompletionItemKind::Property));
    assert_eq!(completions[2].detail, Some("注入配置".to_string()));
    assert!(completions[2].documentation.is_some());
    assert_eq!(completions[2].insert_text, Some("inject(config)".to_string()));
}

#[test]
fn test_complete_inject_macro() {
    let engine = test_engine();
    let completions = engine.complete_macro(&SummerMacro::Inject(inject_macro()), None);

    assert_eq!(completions.len(), 2);

    assert_eq!(completions[0].label, "component");
    assert_eq!(completions[0].kind, Some(CompletionItemKind::Keyword));
    assert_eq!(completions[0].detail, Some("注入组件".to_string()));
    assert!(completions[0].documentation.is_some());
    assert_eq!(completions[0].insert_text, Some("component".to_string()));

    assert_eq!(completions[1].label, "config");
    assert_eq!(completions[1].kind, Some(CompletionItemKind::Keyword));
    assert_eq!(completions[1].detail, Some("注入配置".to_string()));
    assert!(completions[1].documentation.is_some());
    assert_eq!(completions[1].insert_text, Some("config".to_string()));
}

#[test]
fn test_complete_auto_config_macro() {
    let engine = test_engine();
    let completions = engine.complete_macro(&SummerMacro::AutoConfig(auto_config_macro()), None);

    assert_eq!(completions.len(), 3);

    assert_eq!(completions[0].label, "WebConfigurator");
    assert_eq!(completions[0].kind, Some(CompletionItemKind::Class));
    assert_eq!(completions[0].detail, Some("Web 路由配置器".to_string()));
    assert!(completions[0].documentation.is_some());

    assert_eq!(completions[1].label, "JobConfigurator");
    assert_eq!(completions[1].kind, Some(CompletionItemKind::Class));
    assert_eq!(completions[1].detail, Some("任务调度配置器".to_string()));
    assert!(completions[1].documentation.is_some());

    assert_eq!(completions[2].label, "StreamConfigurator");
    assert_eq!(completions[2].kind, Some(CompletionItemKind::Class));
    assert_eq!(completions[2].detail, Some("流处理配置器".to_string()));
    assert!(completions[2].documentation.is_some());
}

#[test]
fn test_complete_route_macro() {
    let engine = test_engine();
    let completions = engine.complete_macro(&SummerMacro::Route(route_macro("test_handler")), None);

    assert!(completions.len() >= 7);

    let get_completion = find(&completions, "GET");
    assert!(get_completion.is_some());
    let get_completion = get_completion.unwrap();
    assert_eq!(get_completion.kind, Some(CompletionItemKind::Constant));
    assert_eq!(get_completion.detail, Some("获取资源".to_string()));
    assert!(get_completion.documentation.is_some());

    let post_completion = find(&completions, "POST");
    assert!(post_completion.is_some());
    let post_completion = post_completion.unwrap();
    assert_eq!(post_completion.kind, Some(CompletionItemKind::Constant));
    assert_eq!(post_completion.detail, Some("创建资源".to_string()));

    let path_param_completion = find(&completions, "{id}");
    assert!(path_param_completion.is_some());
    let path_param_completion = path_param_completion.unwrap();
    assert_eq!(path_param_completion.kind, Some(CompletionItemKind::Snippet));
    assert_eq!(path_param_completion.detail, Some("路径参数".to_string()));
    assert_eq!(path_param_completion.insert_text, Some("{${1:id}}".to_string()));
    assert_eq!(path_param_completion.insert_text_format, Some(InsertTextFormat::Snippet));
}

#[test]
fn test_complete_job_macro_cron() {
    let engine = test_engine();
    let job_macro = JobMacro::Cron { function_name: "job".to_string(), expression: "".to_string(), range: test_range() };
    let completions = engine.complete_macro(&SummerMacro::Job(job_macro), None);

    assert!(completions.len() >= 6);

    let hourly_cron = find(&completions, "0 0 * * * *");
    assert!(hourly_cron.is_some());
    let hourly_cron = hourly_cron.unwrap();
    assert_eq!(hourly_cron.kind, Some(CompletionItemKind::Snippet));
    assert_eq!(hourly_cron.detail, Some("每小时执行".to_string()));
    assert!(hourly_cron.documentation.is_some());
    assert_eq!(hourly_cron.insert_text, Some("\"0 0 * * * *\"".to_string()));

    let daily_cron = find(&completions, "0 0 0 * * *");
    assert!(daily_cron.is_some());
    assert_eq!(daily_cron.unwrap().detail, Some("每天午夜执行".to_string()));

    let delay_5 = find(&completions, "5");
    assert!(delay_5.is_some());
    let delay_5 = delay_5.unwrap();
    assert_eq!(delay_5.kind, Some(CompletionItemKind::Value));
    assert_eq!(delay_5.detail, Some("延迟 5 秒".to_string()));
}

#[test]
fn test_complete_job_macro_fix_delay() {
    let engine = test_engine();
    let job_macro = JobMacro::FixDelay { function_name: "job".to_string(), seconds: 0, range: test_range() };
    let completions = engine.complete_macro(&SummerMacro::Job(job_macro), None);

    assert!(completions.len() >= 3);

    let delay_10 = find(&completions, "10");
    assert!(delay_10.is_some());
    let delay_10 = delay_10.unwrap();
    assert_eq!(delay_10.kind, Some(CompletionItemKind::Value));
    assert!(delay_10.detail.is_some());
    assert!(delay_10.documentation.is_some());
}

#[test]
fn test_complete_job_macro_fix_rate() {
    let engine = test_engine();
    let job_macro = JobMacro::FixRate { function_name: "job".to_string(), seconds: 0, range: test_range() };
    let completions = engine.complete_macro(&SummerMacro::Job(job_macro), None);

    assert!(completions.len() >= 3);

    let rate_60 = find(&completions, "60");
    assert!(rate_60.is_some());
    let rate_60 = rate_60.unwrap();
    assert_eq!(rate_60.kind, Some(CompletionItemKind::Value));
    assert!(rate_60.detail.is_some());
    assert!(rate_60.documentation.is_some());
}

#[test]
fn test_completion_items_have_documentation() {
    let engine = test_engine();
    let test_cases = vec![
        SummerMacro::DeriveService(service_macro("Test")),
        SummerMacro::Inject(inject_macro()),
        SummerMacro::AutoConfig(auto_config_macro()),
        SummerMacro::Route(route_macro("handler")),
        SummerMacro::Job(JobMacro::Cron { function_name: "job".to_string(), expression: "".to_string(), range: test_range() }),
    ];

    for macro_info in test_cases {
        let completions = engine.complete_macro(&macro_info, None);
        assert!(!completions.is_empty());
        for completion in completions {
            assert!(completion.documentation.is_some(), "item '{}' has documentation", completion.label);
            assert!(completion.detail.is_some(), "item '{}' has a detail", completion.label);
            assert!(completion.insert_text.is_some(), "item '{}' has insert text", completion.label);
        }
    }
}

#[test]
fn test_completion_items_have_correct_kind() {
    let engine = test_engine();

    for completion in engine.complete_macro(&SummerMacro::DeriveService(service_macro("Test")), None) {
        assert_eq!(completion.kind, Some(CompletionItemKind::Property));
    }
    for completion in engine.complete_macro(&SummerMacro::Inject(inject_macro()), None) {
        assert_eq!(completion.kind, Some(CompletionItemKind::Keyword));
    }
    for completion in engine.complete_macro(&SummerMacro::AutoConfig(auto_config_macro()), None) {
        assert_eq!(completion.kind, Some(CompletionItemKind::Class));
    }
}

#[test]
fn test_complete_with_toml_context() {
    let completions = toml_completions("[web]\nhost = \"localhost\"", 0, 10);
    assert!(!completions.is_empty());
}

#[test]
fn test_complete_with_macro_context() {
    let engine = test_engine();
    let macro_info = SummerMacro::DeriveService(service_macro("TestService"));
    let completions = engine.complete(CompletionContext::Macro, Position { line: 0, character: 0 }, None, Some(&macro_info));

    assert_eq!(completions.len(), 3);
    assert_eq!(completions[0].label, "inject(component)");
}

#[test]
fn test_complete_with_unknown_context() {
    let engine = test_engine();
    let completions = engine.complete(CompletionContext::Unknown, Position { line: 0, character: 0 }, None, None);
    assert_eq!(completions.len(), 0);
}

#[test]
fn test_complete_toml_without_document() {
    let engine = test_engine();
    let completions = engine.complete(CompletionContext::Toml, Position { line: 0, character: 0 }, None, None);
    assert_eq!(completions.len(), 0);
}

#[test]
fn test_complete_macro_without_macro_info() {
    let engine = test_engine();
    let completions = engine.complete(CompletionContext::Macro, Position { line: 0, character: 0 }, None, None);
    assert_eq!(completions.len(), 0);
}

#[test]
fn test_complete_dispatches_to_correct_handler() {
    let engine = test_engine();
    let test_cases = vec![
        (SummerMacro::DeriveService(service_macro("Test")), 3),
        (SummerMacro::Inject(inject_macro()), 2),
        (SummerMacro::AutoConfig(auto_config_macro()), 3),
    ];
    let position = Position { line: 0, character: 0 };
    for (macro_info, expected_count) in test_cases {
        let completions = engine.complete(CompletionContext::Macro, position, None, Some(&macro_info));
        assert_eq!(completions.len(), expected_count, "macro {:?}", macro_info);
    }
}

#[test]
fn test_completion_context_clone() {
    let context = CompletionContext::Toml;
    let cloned = context.clone();
    match (context, cloned) {
        (CompletionContext::Toml, CompletionContext::Toml) => {}
        _ => panic!("the clone differs"),
    }
}

#[test]
fn test_completion_context_debug() {
    let context = CompletionContext::Macro;
    let debug_str = format!("{:?}", context);
    assert!(debug_str.contains("Macro"));
}

#[test]
fn test_complete_config_properties_in_section() {
    let completions = toml_completions("[web]\nhost = \"localhost\"", 1, 5);
    assert!(!completions.is_empty());

    let port_completion = find(&completions, "port");
    assert!(port_completion.is_some(), "port is offered");
    let port_completion = port_completion.unwrap();
    assert_eq!(port_completion.kind, Some(CompletionItemKind::Property));
    assert!(port_completion.detail.is_some());
    assert!(port_completion.documentation.is_some());
    assert!(port_completion.insert_text.is_some());

    let insert_text = port_completion.insert_text.as_ref().unwrap();
    assert!(insert_text.contains("port"));
    assert!(insert_text.contains("#"));
}

#[test]
fn test_complete_config_properties_deduplication() {
    let completions = toml_completions("[web]\nhost = \"localhost\"\nport = 8080", 1, 5);
    assert!(find(&completions, "host").is_none(), "host is set already");
    assert!(find(&completions, "port").is_none(), "port is set already");
}

#[test]
fn test_complete_config_properties_empty_section() {
    let completions = toml_completions("[web]", 0, 5);
    assert!(completions.len() >= 2);
    assert!(find(&completions, "host").is_some());
    assert!(find(&completions, "port").is_some());
}

#[test]
fn test_complete_config_properties_with_documentation() {
    let completions = toml_completions("[web]", 0, 5);
    for completion in completions {
        assert!(completion.documentation.is_some(), "item '{}' has documentation", completion.label);
        assert!(completion.detail.is_some(), "item '{}' has a detail", completion.label);
        assert!(completion.insert_text.is_some(), "item '{}' has insert text", completion.label);
    }
}

#[test]
fn test_complete_config_properties_correct_kind() {
    let completions = toml_completions("[web]", 0, 5);
    for completion in completions {
        assert_eq!(completion.kind, Some(CompletionItemKind::Property));
    }
}

#[test]
fn test_complete_outside_section() {
    let completions = toml_completions("[web]\nhost = \"localhost\"", 10, 0);
    assert_eq!(completions.len(), 0);
}

#[test]
fn test_complete_redis_section() {
    let completions = toml_completions("[redis]", 0, 7);
    assert!(!completions.is_empty());
    assert!(find(&completions, "url").is_some(), "url is offered");
}

#[test]
fn test_complete_unknown_section() {
    let completions = toml_completions("[unknown]", 0, 9);
    assert_eq!(completions.len(), 0);
}

#[test]
fn test_type_info_to_hint() {
    let engine = test_engine();

    assert_eq!(engine.type_info_to_hint(&string_type()), "string");

    let enum_type = TypeInfo::String {
        enum_values: Some(vec!["a".to_string(), "b".to_string()]),
        min_length: None,
        max_length: None,
    };
    assert!(engine.type_info_to_hint(&enum_type).contains("enum"));

    let hint = engine.type_info_to_hint(&TypeInfo::Integer { min: Some(1), max: Some(100) });
    assert!(hint.contains("integer"));
    assert!(hint.contains("1"));
    assert!(hint.contains("100"));

    assert_eq!(engine.type_info_to_hint(&TypeInfo::Boolean), "boolean");
}

#[test]
fn test_type_info_to_default() {
    let engine = test_engine();

    assert_eq!(engine.type_info_to_default(&string_type()), "\"\"");

    let enum_type = TypeInfo::String {
        enum_values: Some(vec!["first".to_string(), "second".to_string()]),
        min_length: None,
        max_length: None,
    };
    assert_eq!(engine.type_info_to_default(&enum_type), "\"first\"");
    assert_eq!(engine.type_info_to_default(&TypeInfo::Integer { min: None, max: None }), "0");
    assert_eq!(engine.type_info_to_default(&TypeInfo::Float { min: None, max: None }), "0.0");
    assert_eq!(engine.type_info_to_default(&TypeInfo::Boolean), "false");
    assert_eq!(engine.type_info_to_default(&TypeInfo::Array { item_type: Box::new(string_type()) }), "[]");
}

#[test]
fn test_value_to_string() {
    let engine = test_engine();

    assert_eq!(engine.value_to_string(&Value::String("test".to_string())), "\"test\"");
    assert_eq!(engine.value_to_string(&Value::Integer(42)), "42");
    assert_eq!(engine.value_to_string(&Value::Float("3.5".to_string())), "3.5");
    assert_eq!(engine.value_to_string(&Value::Boolean(true)), "true");
    assert_eq!(engine.value_to_string(&Value::Array(vec![])), "[]");
    assert_eq!(engine.value_to_string(&Value::Table(vec![])), "{}");
}

#[test]
fn test_position_in_range() {
    let engine = test_engine();
    let range = Range { start: Position { line: 1, character: 5 }, end: Position { line: 3, character: 10 } };

    assert!(engine.position_in_range(Position { line: 2, character: 7 }, range));
    assert!(engine.position_in_range(Position { line: 1, character: 5 }, range));
    assert!(engine.position_in_range(Position { line: 3, character: 10 }, range));
    assert!(!engine.position_in_range(Position { line: 0, character: 5 }, range));
    assert!(!engine.position_in_range(Position { line: 4, character: 5 }, range));
    assert!(!engine.position_in_range(Position { line: 1, character: 3 }, range));
    assert!(!engine.position_in_range(Position { line: 3, character: 15 }, range));
}

#[test]
fn test_config_property_insertion_has_complete_format() {
    let completions = toml_completions("[web]", 0, 5);
    for completion in completions {
        let insert_text = completion.insert_text.as_ref().unwrap_or_else(|| panic!("'{}' has insert text", completion.label));
        assert!(insert_text.contains(&completion.label));
        assert!(insert_text.contains("="), "{}", insert_text);
        assert!(insert_text.contains("#"), "{}", insert_text);

        let parts: Vec<&str> = insert_text.split("=").collect();
        assert_eq!(parts.len(), 2, "one equals sign: {}", insert_text);
        let value_and_comment: Vec<&str> = parts[1].split("#").collect();
        assert_eq!(value_and_comment.len(), 2, "one comment sign: {}", insert_text);
    }
}

#[test]
fn test_config_property_insertion_has_correct_default_values() {
    let completions = toml_completions("[web]", 0, 5);

    let host_completion = find(&completions, "host").expect("host is offered");
    let insert_text = host_completion.insert_text.as_ref().unwrap();
    assert!(
        insert_text.contains("\"") && insert_text.matches("\"").count() >= 2,
        "a string default is quoted: {}",
        insert_text
    );

    let port_completion = find(&completions, "port").expect("port is offered");
    let insert_text = port_completion.insert_text.as_ref().unwrap();
    assert!(insert_text.contains("= 0") || insert_text.contains("= 8080"), "{}", insert_text);
}

#[test]
fn test_enum_value_insertion_has_quotes() {
    let engine = test_engine();
    let enum_values = vec!["debug".to_string(), "info".to_string(), "warn".to_string()];
    let completions = engine.complete_enum_values(&enum_values);

    for completion in completions {
        let insert_text = completion.insert_text.as_ref().unwrap_or_else(|| panic!("'{}' has insert text", completion.label));
        assert!(insert_text.starts_with("\"") && insert_text.ends_with("\""), "{}", insert_text);
        let value = insert_text.trim_matches('"');
        assert_eq!(value, completion.label);
    }
}

#[test]
fn test_env_var_insertion_has_snippet_format() {
    let engine = test_engine();
    let completions = engine.complete_env_var();

    for completion in completions {
        let insert_text = completion.insert_text.as_ref().unwrap_or_else(|| panic!("'{}' has insert text", completion.label));
        assert!(insert_text.contains(&completion.label), "{}", insert_text);
        assert!(insert_text.contains("${1:") || insert_text.contains("$1"), "{}", insert_text);
        assert!(insert_text.contains(":") && insert_text.contains("}"), "{}", insert_text);
        assert_eq!(completion.insert_text_format, Some(InsertTextFormat::Snippet));
    }
}

#[test]
fn test_macro_parameter_insertion_completeness() {
    let engine = test_engine();
    let completions = engine.complete_macro(&SummerMacro::DeriveService(service_macro("Test")), None);

    let named_inject =
        completions.iter().find(|c| c.label.contains("component = \"name\"")).expect("the named injection is offered");
    assert_eq!(named_inject.insert_text_format, Some(InsertTextFormat::Snippet));
    let insert_text = named_inject.insert_text.as_ref().unwrap();
    assert!(insert_text.contains("$1"), "{}", insert_text);
}

#[test]
fn test_route_macro_path_parameter_snippet() {
    let engine = test_engine();
    let completions = engine.complete_macro(&SummerMacro::Route(route_macro("handler")), None);

    let path_param = find(&completions, "{id}").expect("the path parameter is offered");
    assert_eq!(path_param.insert_text_format, Some(InsertTextFormat::Snippet));
    let insert_text = path_param.insert_text.as_ref().unwrap();
    assert!(insert_text.contains("${1:") && insert_text.contains("}"), "{}", insert_text);
    assert!(insert_text.starts_with("{") && insert_text.ends_with("}"), "{}", insert_text);
}

#[test]
fn test_complete_with_empty_toml_document() {
    let completions = toml_completions("", 0, 0);
    assert_eq!(completions.len(), 0);
}

#[test]
fn test_complete_at_document_boundary() {
    let completions = toml_completions("[web]\nhost = \"localhost\"", 0, 0);
    let _ = completions.len();

    let completions = toml_completions("[web]\nhost = \"localhost\"", 100, 100);
    assert_eq!(completions.len(), 0);
}

#[test]
fn test_complete_with_invalid_position() {
    let completions = toml_completions("[web]", u32::MAX, u32::MAX);
    assert_eq!(completions.len(), 0);
}

#[test]
fn test_complete_with_all_properties_used() {
    let completions = toml_completions("[web]\nhost = \"localhost\"\nport = 8080", 0, 20);
    assert!(!completions.iter().any(|c| c.label == "host"));
    assert!(!completions.iter().any(|c| c.label == "port"));
}

#[test]
fn test_complete_with_unknown_section() {
    let completions = toml_completions("[unknown_plugin_12345]", 0, 10);
    assert_eq!(completions.len(), 0);
}

#[test]
fn test_complete_enum_with_empty_values() {
    let engine = test_engine();
    let empty_values: Vec<String> = vec![];
    assert_eq!(engine.complete_enum_values(&empty_values).len(), 0);
}

#[test]
fn test_complete_enum_with_single_value() {
    let engine = test_engine();
    let single_value = vec!["only_one".to_string()];
    let completions = engine.complete_enum_values(&single_value);

    assert_eq!(completions.len(), 1);
    assert_eq!(completions[0].label, "only_one");
    assert_eq!(completions[0].insert_text.as_ref().unwrap(), "\"only_one\"");
}

#[test]
fn test_complete_with_special_characters_in_enum() {
    let engine = test_engine();
    let special_values =
        vec!["value-with-dash".to_string(), "value_with_underscore".to_string(), "value.with.dot".to_string()];
    let completions = engine.complete_enum_values(&special_values);

    assert_eq!(completions.len(), 3);
    for (i, value) in special_values.iter().enumerate() {
        assert_eq!(completions[i].label, *value);
        assert_eq!(completions[i].insert_text.as_ref().unwrap(), &format!("\"{}\"", value));
    }
}

#[test]
fn test_position_in_range_edge_cases() {
    let engine = test_engine();
    let single_point_range = Range { start: Position { line: 5, character: 10 }, end: Position { line: 5, character: 10 } };

    assert!(engine.position_in_range(Position { line: 5, character: 10 }, single_point_range));
    assert!(!engine.position_in_range(Position { line: 5, character: 9 }, single_point_range));
    assert!(!engine.position_in_range(Position { line: 5, character: 11 }, single_point_range));

    let multi_line_range = Range { start: Position { line: 1, character: 5 }, end: Position { line: 3, character: 10 } };
    assert!(engine.position_in_range(Position { line: 2, character: 0 }, multi_line_range));
    assert!(engine.position_in_range(Position { line: 2, character: 999 }, multi_line_range));
}

#[test]
fn test_type_info_to_hint_with_ranges() {
    let engine = test_engine();

    let hint = engine.type_info_to_hint(&TypeInfo::Integer { min: Some(1), max: Some(100) });
    assert!(hint.contains("1"));
    assert!(hint.contains("100"));
    assert!(hint.contains("integer"));

    assert_eq!(engine.type_info_to_hint(&TypeInfo::Integer { min: Some(0), max: None }), "integer");
    assert_eq!(engine.type_info_to_hint(&TypeInfo::Integer { min: None, max: Some(255) }), "integer");
}

#[test]
fn test_type_info_to_default_for_all_types() {
    let engine = test_engine();
    let test_cases = vec![
        (string_type(), "\"\""),
        (TypeInfo::Integer { min: None, max: None }, "0"),
        (TypeInfo::Float { min: None, max: None }, "0.0"),
        (TypeInfo::Boolean, "false"),
        (TypeInfo::Array { item_type: Box::new(string_type()) }, "[]"),
        (TypeInfo::Object { properties: vec![] }, "{}"),
    ];
    for (type_info, expected_default) in test_cases {
        assert_eq!(engine.type_info_to_default(&type_info), expected_default, "type {:?}", type_info);
    }
}

#[test]
fn test_value_to_string_for_all_value_types() {
    let engine = test_engine();
    let test_cases = vec![
        (Value::String("test".to_string()), "\"test\""),
        (Value::Integer(42), "42"),
        (Value::Integer(-10), "-10"),
        (Value::Float("3.5".to_string()), "3.5"),
        (Value::Float("-2.5".to_string()), "-2.5"),
        (Value::Boolean(true), "true"),
        (Value::Boolean(false), "false"),
        (Value::Array(vec![]), "[]"),
        (Value::Table(vec![]), "{}"),
    ];
    for (value, expected_string) in test_cases {
        assert_eq!(engine.value_to_string(&value), expected_string, "value {:?}", value);
    }
}

#[test]
fn test_complete_with_nested_config_sections() {
    let completions = toml_completions("[web]\nhost = \"localhost\"\n\n[redis]\nurl = \"redis://localhost\"", 0, 20);
    assert!(!completions.iter().any(|c| c.label == "url"), "no redis property inside web");
}

#[test]
fn test_completion_context_equality() {
    let toml1 = CompletionContext::Toml;
    let toml2 = CompletionContext::Toml;
    let macro1 = CompletionContext::Macro;
    let unknown = CompletionContext::Unknown;

    match (toml1, toml2) {
        (CompletionContext::Toml, CompletionContext::Toml) => {}
        _ => panic!("equal contexts match"),
    }
    match (macro1, unknown) {
        (CompletionContext::Macro, CompletionContext::Unknown) => {}
        _ => panic!("different contexts"),
    }
}

fn engine_for(prefix: &str, schema_json: &str) -> CompletionEngine {
    let mut schema = summer_lsp::schema::ConfigSchema::new();
    schema.insert(prefix.to_string(), summer_lsp::json::parse_json(schema_json).unwrap());
    CompletionEngine::new(SchemaProvider::from_schema(schema))
}

#[test]
fn test_prefix_completion_lists_each_plugin_once() {
    let engine = test_engine();
    let completions = engine.complete_config_prefix();
    let mut labels: Vec<&str> = completions.iter().map(|c| c.label.as_str()).collect();
    labels.sort();
    assert_eq!(labels, vec!["redis", "web"]);
    let web = find(&completions, "web").unwrap();
    assert_eq!(web.kind, Some(CompletionItemKind::Module));
    assert_eq!(web.detail, Some("[web] 配置节".to_string()));
    assert_eq!(web.insert_text, Some("[web]\n".to_string()));
    assert_eq!(web.insert_text_format, Some(InsertTextFormat::Snippet));
}

#[test]
fn test_prefix_position_offers_prefixes() {
    let completions = toml_completions("arr = [\n  [1,\n   2],\n]\n", 1, 4);
    let mut labels: Vec<&str> = completions.iter().map(|c| c.label.as_str()).collect();
    labels.sort();
    assert_eq!(labels, vec!["redis", "web"]);
}

#[test]
fn test_enum_value_under_cursor_offers_values() {
    let engine = engine_for(
        "logger",
        r#"{ "properties": { "level": { "type": "string", "enum": ["debug", "info"] }, "file": { "type": "string" } } }"#,
    );
    let analyzer = TomlAnalyzer::new(SchemaProvider::new());
    let doc = analyzer.parse("[logger]\nlevel = \"info\"\n").unwrap();
    let completions = engine.complete_toml_document(&doc, Position { line: 1, character: 9 });
    let labels: Vec<&str> = completions.iter().map(|c| c.label.as_str()).collect();
    assert_eq!(labels, vec!["debug", "info"]);
    assert_eq!(completions[0].kind, Some(CompletionItemKind::EnumMember));
    assert_eq!(completions[0].detail, Some("枚举值: debug".to_string()));
}

#[test]
fn test_property_completion_offers_exactly_unused_properties() {
    let engine = engine_for(
        "pay",
        r#"{ "properties": {
            "a": { "type": "string", "description": "A" },
            "b": { "type": "integer", "minimum": 1, "maximum": 9, "default": 3 },
            "c": { "type": "boolean", "deprecated": "gone" },
            "d": { "type": "string", "enum": ["x", "y"] }
        } }"#,
    );
    let analyzer = TomlAnalyzer::new(SchemaProvider::new());
    let doc = analyzer.parse("[pay]\na = \"1\"\n").unwrap();
    let section = doc.config_sections.iter().find(|s| s.prefix == "pay").unwrap();
    let completions = engine.complete_config_properties(section);
    let mut labels: Vec<&str> = completions.iter().map(|c| c.label.as_str()).collect();
    labels.sort();
    assert_eq!(labels, vec!["b", "c", "d"]);

    let b = find(&completions, "b").unwrap();
    assert_eq!(b.insert_text, Some("b = 3  # integer (1 - 9)".to_string()));
    assert_eq!(b.detail, Some("b: integer (1 - 9)".to_string()));
    assert_eq!(b.deprecated, None);
    let c = find(&completions, "c").unwrap();
    assert_eq!(c.insert_text, Some("c = false  # boolean".to_string()));
    assert_eq!(c.deprecated, Some(true));
    let d = find(&completions, "d").unwrap();
    assert_eq!(d.insert_text, Some("d = \"x\"  # enum: [\"x\", \"y\"]".to_string()));
    assert_eq!(d.insert_text_format, Some(InsertTextFormat::PlainText));
}

#[test]
fn test_property_documentation_paragraphs() {
    let engine = engine_for(
        "pay",
        r#"{ "properties": { "b": { "type": "integer", "description": "Amount", "default": 3, "deprecated": "old" } } }"#,
    );
    let analyzer = TomlAnalyzer::new(SchemaProvider::new());
    let doc = analyzer.parse("[pay]\n").unwrap();
    let section = doc.config_sections.iter().find(|s| s.prefix == "pay").unwrap();
    let completions = engine.complete_config_properties(section);
    assert_eq!(completions.len(), 1);
    match completions[0].documentation.as_ref().unwrap() {
        summer_lsp::completion::Documentation::Markdown(text) => {
            assert_eq!(text, "Amount\n\n**类型**: `integer`\n\n**默认值**: `3`\n\n**已废弃**: old");
        }
        _ => panic!("expected markdown"),
    }
}

#[test]
fn test_env_var_completion_lists_common_variables() {
    let engine = test_engine();
    let completions = engine.complete_env_var();
    let labels: Vec<&str> = completions.iter().map(|c| c.label.as_str()).collect();
    assert_eq!(labels, vec!["HOST", "PORT", "DATABASE_URL", "REDIS_URL", "LOG_LEVEL", "ENV", "DEBUG"]);
    for c in &completions {
        assert_eq!(c.kind, Some(CompletionItemKind::Variable));
    }
    assert_eq!(completions[0].insert_text, Some("HOST:${1:default}}".to_string()));
}

#[test]
fn test_component_macro_completion() {
    let engine = test_engine();
    let component = summer_lsp::macros::ComponentMacro {
        function_name: "make_pool".to_string(),
        component_type: "Pool".to_string(),
        dependencies: vec![],
        range: test_range(),
    };
    let completions = engine.complete_macro(&SummerMacro::Component(component), Some("na"));
    assert_eq!(completions.len(), 1);
    assert_eq!(completions[0].label, "name");
    assert_eq!(completions[0].insert_text, Some("name = \"$1\"".to_string()));
}

#[test]
fn test_default_engine_uses_builtin_schema() {
    let engine = CompletionEngine::default();
    assert_eq!(engine.complete_config_prefix().len(), 2);
}
