use summer_lsp::json::{parse_json, JsonValue};
use summer_lsp::schema::{
    configuration_to_schema, field_to_schema, parse_property_schema, parse_type_info, ConfigSchema, ConfigurationStruct,
    SchemaProvider, TypeInfo, Value,
};

fn json(text: &str) -> JsonValue {
    parse_json(text).unwrap()
}

#[test]
fn test_parse_property_schema() {
    let value = json(
        r#"{
            "type": "string",
            "description": "Test property",
            "default": "test_value",
            "enum": ["value1", "value2", "value3"]
        }"#,
    );

    let property = parse_property_schema("test_prop", &value);
    assert!(property.is_some());

    let prop = property.unwrap();
    assert_eq!(prop.name, "test_prop");
    assert_eq!(prop.description, "Test property");

    if let TypeInfo::String { enum_values, .. } = &prop.type_info {
        assert!(enum_values.is_some());
        let enums = enum_values.as_ref().unwrap();
        assert_eq!(enums.len(), 3);
        assert!(enums.contains(&"value1".to_string()));
    } else {
        panic!("Expected String type");
    }

    assert!(prop.default.is_some());
    if let Some(Value::String(s)) = &prop.default {
        assert_eq!(s, "test_value");
    } else {
        panic!("Expected String default value");
    }
}

#[test]
fn test_parse_integer_type() {
    let value = json(r#"{ "type": "integer", "minimum": 1, "maximum": 65535 }"#);

    let type_info = parse_type_info(&value);
    assert!(type_info.is_some());

    if let Some(TypeInfo::Integer { min, max }) = type_info {
        assert_eq!(min, Some(1));
        assert_eq!(max, Some(65535));
    } else {
        panic!("Expected Integer type");
    }
}

#[test]
fn test_parse_boolean_type() {
    let value = json(r#"{ "type": "boolean" }"#);

    let type_info = parse_type_info(&value);
    assert!(type_info.is_some());
    assert!(matches!(type_info.unwrap(), TypeInfo::Boolean));
}

#[test]
fn test_fallback_schema_has_web_and_redis() {
    let provider = SchemaProvider::default();
    assert!(provider.has_plugin("web"));
    assert!(provider.has_plugin("redis"));
    assert!(!provider.has_plugin("grpc"));
    assert!(provider.has_property("web", "host"));
    assert!(provider.has_property("web", "port"));
    assert!(provider.has_property("redis", "url"));
    assert!(!provider.has_property("web", "url"));
    let mut prefixes = provider.get_all_prefixes();
    prefixes.sort();
    assert_eq!(prefixes, vec!["redis".to_string(), "web".to_string()]);
}

#[test]
fn test_get_plugin_resolves_refs() {
    let mut schema = ConfigSchema::new();
    schema.insert(
        "pay".to_string(),
        json(
            r##"{
                "type": "object",
                "properties": {
                    "mode": { "$ref": "#/$defs/Mode" },
                    "amount": { "type": "integer", "minimum": 0 }
                },
                "$defs": { "Mode": { "type": "string", "enum": ["live", "test"] } }
            }"##,
        ),
    );
    let provider = SchemaProvider::from_schema(schema);
    let plugin = provider.get_plugin("pay").unwrap();
    assert_eq!(plugin.prefix, "pay");
    let mode = plugin.properties.iter().find(|p| p.name == "mode").unwrap();
    match &mode.type_info {
        TypeInfo::String { enum_values: Some(vs), .. } => assert_eq!(vs, &vec!["live".to_string(), "test".to_string()]),
        _ => panic!("expected an enum"),
    }
    assert!(provider.get_plugin("missing").is_none());
}

#[test]
fn test_insert_replaces_plugin() {
    let mut provider = SchemaProvider::new();
    assert!(!provider.has_plugin("web"));
    provider.insert_plugin("web".to_string(), json(r#"{ "properties": { "a": { "type": "string" } } }"#));
    assert!(provider.has_property("web", "a"));
    provider.insert_plugin("web".to_string(), json(r#"{ "properties": { "b": { "type": "string" } } }"#));
    assert!(!provider.has_property("web", "a"));
    assert!(provider.has_property("web", "b"));
    assert_eq!(provider.get_all_prefixes().len(), 1);
}

#[test]
fn test_merge_local_schemas_overrides() {
    let mut provider = SchemaProvider::default();
    provider.merge_local_schemas(json(
        r#"{ "properties": { "web": { "properties": { "only": { "type": "boolean" } } }, "mine": { "properties": {} } } }"#,
    ));
    assert!(provider.has_property("web", "only"));
    assert!(!provider.has_property("web", "host"));
    assert!(provider.has_plugin("mine"));
    assert!(provider.has_plugin("redis"));
}

fn field(name: &str, ty: &str, optional: bool, description: Option<&str>) -> summer_lsp::schema::ConfigField {
    summer_lsp::schema::ConfigField {
        name: name.to_string(),
        ty_name: ty.to_string(),
        optional,
        description: description.map(|d| d.to_string()),
    }
}

fn member<'a>(v: &'a JsonValue, key: &str) -> &'a JsonValue {
    v.get(key).unwrap()
}

fn text(v: &JsonValue) -> &str {
    match v {
        JsonValue::String(s) => s.as_str(),
        _ => panic!("expected a string"),
    }
}

#[test]
fn test_field_to_schema_types() {
    let cases = vec![
        ("String", "string"),
        ("&str", "string"),
        ("bool", "boolean"),
        ("u16", "integer"),
        ("isize", "integer"),
        ("f64", "number"),
        ("Vec<String>", "array"),
        ("HashMap<String, u8>", "object"),
        ("BTreeMap<u8, u8>", "object"),
        ("Duration", "string"),
    ];
    for (ty, expected) in cases {
        let schema = field_to_schema(&field("f", ty, false, None));
        assert_eq!(text(member(&schema, "type")), expected, "type {}", ty);
        assert!(schema.get("description").is_none());
    }
}

#[test]
fn test_field_to_schema_optional() {
    let schema = field_to_schema(&field("port", "Option<u16>", true, Some("The port")));
    assert_eq!(text(member(&schema, "type")), "integer");
    assert_eq!(text(member(&schema, "description")), "The port (optional)");
    let schema = field_to_schema(&field("name", "Option<String>", true, None));
    assert_eq!(text(member(&schema, "type")), "string");
    assert_eq!(text(member(&schema, "description")), "Optional field");
    let schema = field_to_schema(&field("x", "Option<", true, Some("")));
    assert_eq!(text(member(&schema, "type")), "string");
    assert_eq!(text(member(&schema, "description")), "Optional field");
}

#[test]
fn test_configuration_to_schema() {
    let config = ConfigurationStruct {
        name: "PayConfig".to_string(),
        prefix: "pay".to_string(),
        fields: vec![
            field("amount", "u64", false, Some("Amount")),
            field("mode", "String", false, None),
            field("amount", "f64", false, None),
        ],
    };
    let schema = configuration_to_schema(&config);
    assert_eq!(text(member(&schema, "type")), "object");
    assert_eq!(text(member(&schema, "description")), "Configuration for PayConfig");
    match member(&schema, "properties") {
        JsonValue::Object(ms) => {
            assert_eq!(ms.len(), 2);
            assert_eq!(ms[0].key, "amount");
            assert_eq!(text(member(&ms[0].value, "type")), "number");
            assert_eq!(ms[1].key, "mode");
        }
        _ => panic!("expected an object"),
    }
    let mut provider = SchemaProvider::new();
    provider.insert_plugin(config.prefix.clone(), schema);
    assert!(provider.has_property("pay", "mode"));
}

fn schema_file(property: &str) -> JsonValue {
    json(&format!(r#"{{"properties": {{"web": {{"type": "object", "properties": {{"{}": {{"type": "string"}}}}}}}}}}"#, property))
}

#[test]
fn test_merge_schema_files_newest_wins() {
    let mut provider = SchemaProvider::new();
    provider.merge_schema_files(vec![(20, schema_file("newer")), (10, schema_file("older"))]);
    assert!(provider.has_property("web", "newer"));
    assert!(!provider.has_property("web", "older"));

    let mut provider = SchemaProvider::new();
    provider.merge_schema_files(vec![(10, schema_file("older")), (20, schema_file("newer"))]);
    assert!(provider.has_property("web", "newer"));
    assert!(!provider.has_property("web", "older"));
}

#[test]
fn test_merge_schema_files_equal_times_later_wins() {
    let mut provider = SchemaProvider::new();
    provider.merge_schema_files(vec![(10, schema_file("first")), (10, schema_file("second"))]);
    assert!(provider.has_property("web", "second"));
    assert!(!provider.has_property("web", "first"));
}

#[test]
fn test_merge_schema_files_keeps_unlisted_plugins() {
    let mut provider = SchemaProvider::with_fallback_schema();
    provider.merge_schema_files(vec![(10, schema_file("custom"))]);
    assert!(provider.has_property("web", "custom"));
    assert!(provider.has_plugin("redis"));
    let mut unchanged = SchemaProvider::with_fallback_schema();
    unchanged.merge_schema_files(Vec::new());
    assert!(unchanged.has_plugin("web"));
    assert!(unchanged.has_plugin("redis"));
}

#[test]
fn test_provider_from_document_falls_back() {
    let none = SchemaProvider::provider_from_document(None);
    assert!(none.has_plugin("web"));
    assert!(none.has_plugin("redis"));
    let no_properties = SchemaProvider::provider_from_document(Some(json(r#"{"type": "object"}"#)));
    assert!(no_properties.has_plugin("web"));
    assert!(no_properties.has_plugin("redis"));
    let not_object = SchemaProvider::provider_from_document(Some(json("[1, 2]")));
    assert!(not_object.has_plugin("web"));
}

#[test]
fn test_provider_from_document_uses_listed_plugins() {
    let provider = SchemaProvider::provider_from_document(Some(json(
        r#"{"properties": {"custom": {"type": "object", "properties": {"x": {"type": "integer"}}}}}"#,
    )));
    assert!(provider.has_plugin("custom"));
    assert!(provider.has_property("custom", "x"));
    assert!(!provider.has_plugin("web"));
    assert!(!provider.has_plugin("redis"));
}

#[test]
fn test_parse_json_builds_the_value() {
    let v = json(r#"{"a": "text", "b": [1, true, null]}"#);
    match v {
        JsonValue::Object(ms) => {
            assert_eq!(ms.len(), 2);
            assert_eq!(ms[0].key, "a");
            assert!(matches!(&ms[0].value, JsonValue::String(s) if s == "text"));
            assert_eq!(ms[1].key, "b");
            match &ms[1].value {
                JsonValue::Array(items) => {
                    assert_eq!(items.len(), 3);
                    assert!(matches!(&items[0], JsonValue::Number(n) if n.as_i64 == Some(1)));
                    assert!(matches!(&items[1], JsonValue::Bool(true)));
                    assert!(matches!(&items[2], JsonValue::Null));
                }
                _ => panic!("expected an array"),
            }
        }
        _ => panic!("expected an object"),
    }
    assert!(parse_json("{").is_err());
}
