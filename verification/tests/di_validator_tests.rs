use summer_lsp::di_validator::DependencyInjectionValidator;
use summer_lsp::index::IndexManager;
use summer_lsp::lsp::{Position, Range};
use summer_lsp::macros::{Field, InjectMacro, InjectType, RustDocument, ServiceMacro, ServiceScope, SummerMacro};

#[test]
fn test_extract_config_prefix() {
    let validator = DependencyInjectionValidator::new(IndexManager::new());

    assert_eq!(validator.extract_config_prefix("UserConfig"), "user");
    assert_eq!(validator.extract_config_prefix("DatabaseConfig"), "database");
    assert_eq!(validator.extract_config_prefix("UserProfileConfig"), "user-profile");
    assert_eq!(validator.extract_config_prefix("Config"), "");
    assert_eq!(validator.extract_config_prefix("User"), "user");
}

#[test]
fn test_dependency_injection_validator_new() {
    let index_manager = IndexManager::new();
    let validator = DependencyInjectionValidator::new(index_manager);

    let diagnostics = validator.validate(&vec![], &vec![]);
    assert_eq!(diagnostics.len(), 0);
}

fn line_range(line: u32) -> Range {
    Range { start: Position { line, character: 0 }, end: Position { line, character: 10 } }
}

fn service(name: &str, deps: &[&str], line: u32) -> SummerMacro {
    SummerMacro::DeriveService(ServiceMacro {
        struct_name: name.to_string(),
        fields: deps
            .iter()
            .map(|d| Field {
                name: d.to_lowercase(),
                ty_name: d.to_string(),
                inject: Some(InjectMacro { inject_type: InjectType::Component, component_name: None, range: line_range(line) }),
            })
            .collect(),
        scope: ServiceScope::Singleton,
        range: line_range(line),
    })
}

fn cycle_messages(macros: Vec<SummerMacro>) -> Vec<String> {
    let validator = DependencyInjectionValidator::new(IndexManager::new());
    let docs = vec![RustDocument { uri: "file:///src/lib.rs".to_string(), macros }];
    validator
        .validate(&docs, &vec![])
        .into_iter()
        .filter(|d| d.code.as_deref() == Some("circular-dependency"))
        .map(|d| d.message)
        .collect()
}

#[test]
fn test_two_disjoint_cycles_are_both_reported() {
    let messages = cycle_messages(vec![
        service("A", &["B"], 1),
        service("B", &["A"], 2),
        service("C", &["D"], 3),
        service("D", &["C"], 4),
    ]);
    assert_eq!(messages.len(), 2);
    assert!(messages[0].contains("A -> B -> A"));
    assert!(messages[1].contains("C -> D -> C"));
}

#[test]
fn test_every_reported_cycle_is_a_real_cycle() {
    let messages = cycle_messages(vec![service("A", &["B"], 1), service("B", &["A"], 2), service("C", &["A"], 3)]);
    assert_eq!(messages.len(), 1);
    assert!(messages[0].contains("A -> B -> A"));
}

#[test]
fn test_lazy_components_break_cycles() {
    let messages = cycle_messages(vec![service("A", &["LazyComponent<B>"], 1), service("B", &["A"], 2)]);
    assert!(messages.is_empty());
}
