//! Configuration schema: the JSON Schema that summer-rs publishes for its
//! plugins, and the structured view of each plugin's properties.

use vstd::prelude::*;
use crate::json::{JsonValue, JsonMember, JsonNumber, JsonV, spec_get, lemma_get_decreases, take_member, member_lookup, json_keys_distinct, lemma_member_lookup_in};

verus! {

/// A configuration value given in a schema (a default, for example).
/// A float is held as its decimal text.
#[derive(Debug)]
pub enum Value {
    String(String),
    Integer(i64),
    Float(String),
    Boolean(bool),
    Array(Vec<Value>),
    Table(Vec<ValueEntry>),
}

/// A key of a table value and its value.
#[derive(Debug)]
pub struct ValueEntry {
    pub key: String,
    pub value: Value,
}

/// The type of a configuration property. Float bounds are decimal text.
#[derive(Debug)]
pub enum TypeInfo {
    String { enum_values: Option<Vec<String>>, min_length: Option<usize>, max_length: Option<usize> },
    Integer { min: Option<i64>, max: Option<i64> },
    Float { min: Option<String>, max: Option<String> },
    Boolean,
    Array { item_type: Box<TypeInfo> },
    Object { properties: Vec<PropertySchema> },
}

/// One property of a plugin's configuration.
#[derive(Debug)]
pub struct PropertySchema {
    pub name: String,
    pub type_info: TypeInfo,
    pub description: String,
    pub default: Option<Value>,
    pub required: bool,
    pub deprecated: Option<String>,
    pub example: Option<String>,
}

/// The configuration of one plugin: its prefix and its properties.
#[derive(Debug)]
pub struct PluginSchema {
    pub prefix: String,
    pub properties: Vec<PropertySchema>,
}

// ----- mathematical content -----

pub enum ValueV {
    Str(Seq<char>),
    Integer(i64),
    Float(Seq<char>),
    Boolean(bool),
    Array(Seq<ValueV>),
    Table(Seq<(Seq<char>, ValueV)>),
}

pub enum TypeInfoV {
    Str { enum_values: Option<Seq<Seq<char>>>, min_length: Option<usize>, max_length: Option<usize> },
    Integer { min: Option<i64>, max: Option<i64> },
    Float { min: Option<Seq<char>>, max: Option<Seq<char>> },
    Boolean,
    Array { item_type: Box<TypeInfoV> },
    Object { properties: Seq<PropertyV> },
}

pub struct PropertyV {
    pub name: Seq<char>,
    pub type_info: TypeInfoV,
    pub description: Seq<char>,
    pub default: Option<ValueV>,
    pub required: bool,
    pub deprecated: Option<Seq<char>>,
    pub example: Option<Seq<char>>,
}

pub open spec fn opt_str_view(o: Option<String>) -> Option<Seq<char>> {
    match o {
        Some(s) => Some(s@),
        None => None,
    }
}

pub open spec fn strs_view(v: Seq<String>) -> Seq<Seq<char>> {
    Seq::new(v.len(), |i: int| v[i]@)
}

pub open spec fn value_view(v: Value) -> ValueV
    decreases v,
{
    match v {
        Value::String(s) => ValueV::Str(s@),
        Value::Integer(i) => ValueV::Integer(i),
        Value::Float(f) => ValueV::Float(f@),
        Value::Boolean(b) => ValueV::Boolean(b),
        Value::Array(items) => ValueV::Array(
            Seq::new(
                items@.len(),
                |i: int|
                    if 0 <= i < items@.len() {
                        value_view(items@[i])
                    } else {
                        ValueV::Boolean(false)
                    },
            ),
        ),
        Value::Table(entries) => ValueV::Table(
            Seq::new(
                entries@.len(),
                |i: int|
                    if 0 <= i < entries@.len() {
                        (entries@[i].key@, value_view(entries@[i].value))
                    } else {
                        (Seq::empty(), ValueV::Boolean(false))
                    },
            ),
        ),
    }
}

pub open spec fn opt_value_view(o: Option<Value>) -> Option<ValueV> {
    match o {
        Some(v) => Some(value_view(v)),
        None => None,
    }
}

pub open spec fn type_view(t: TypeInfo) -> TypeInfoV
    decreases t, 1int,
{
    match t {
        TypeInfo::String { enum_values, min_length, max_length } => TypeInfoV::Str {
            enum_values: match enum_values {
                Some(vs) => Some(strs_view(vs@)),
                None => None,
            },
            min_length,
            max_length,
        },
        TypeInfo::Integer { min, max } => TypeInfoV::Integer { min, max },
        TypeInfo::Float { min, max } => TypeInfoV::Float { min: opt_str_view(min), max: opt_str_view(max) },
        TypeInfo::Boolean => TypeInfoV::Boolean,
        TypeInfo::Array { item_type } => TypeInfoV::Array { item_type: Box::new(type_view(*item_type)) },
        TypeInfo::Object { properties } => TypeInfoV::Object {
            properties: Seq::new(
                properties@.len(),
                |i: int|
                    if 0 <= i < properties@.len() {
                        prop_view(properties@[i])
                    } else {
                        arbitrary_prop()
                    },
            ),
        },
    }
}

pub open spec fn arbitrary_prop() -> PropertyV {
    PropertyV {
        name: Seq::empty(),
        type_info: TypeInfoV::Boolean,
        description: Seq::empty(),
        default: None,
        required: false,
        deprecated: None,
        example: None,
    }
}

pub open spec fn prop_view(p: PropertySchema) -> PropertyV
    decreases p, 2int,
{
    PropertyV {
        name: p.name@,
        type_info: type_view(p.type_info),
        description: p.description@,
        default: opt_value_view(p.default),
        required: p.required,
        deprecated: opt_str_view(p.deprecated),
        example: opt_str_view(p.example),
    }
}

impl View for Value {
    type V = ValueV;

    open spec fn view(&self) -> ValueV {
        value_view(*self)
    }
}

impl View for TypeInfo {
    type V = TypeInfoV;

    open spec fn view(&self) -> TypeInfoV {
        type_view(*self)
    }
}

impl View for PropertySchema {
    type V = PropertyV;

    open spec fn view(&self) -> PropertyV {
        prop_view(*self)
    }
}


// ----- reading schema JSON -----

pub open spec fn get_str(v: JsonValue, key: Seq<char>) -> Option<Seq<char>> {
    match spec_get(v, key) {
        Some(JsonValue::String(s)) => Some(s@),
        _ => None,
    }
}

pub open spec fn get_bool(v: JsonValue, key: Seq<char>) -> Option<bool> {
    match spec_get(v, key) {
        Some(JsonValue::Bool(b)) => Some(b),
        _ => None,
    }
}

pub open spec fn get_i64(v: JsonValue, key: Seq<char>) -> Option<i64> {
    match spec_get(v, key) {
        Some(JsonValue::Number(n)) => n.as_i64,
        _ => None,
    }
}

pub open spec fn get_u64(v: JsonValue, key: Seq<char>) -> Option<u64> {
    match spec_get(v, key) {
        Some(JsonValue::Number(n)) => n.as_u64,
        _ => None,
    }
}

pub open spec fn get_float_text(v: JsonValue, key: Seq<char>) -> Option<Seq<char>> {
    match spec_get(v, key) {
        Some(JsonValue::Number(n)) => Some(n.float_text@),
        _ => None,
    }
}

/// A schema value from JSON: `null` gives nothing, a number is an integer
/// when it fits `i64` and a float otherwise, an array only when all its
/// elements give values, an object keeps the members that give values.
pub open spec fn spec_parse_value(v: JsonValue) -> Option<ValueV>
    decreases v,
{
    match v {
        JsonValue::Null => None,
        JsonValue::Bool(b) => Some(ValueV::Boolean(b)),
        JsonValue::Number(n) => Some(
            match n.as_i64 {
                Some(i) => ValueV::Integer(i),
                None => ValueV::Float(n.float_text@),
            },
        ),
        JsonValue::String(s) => Some(ValueV::Str(s@)),
        JsonValue::Array(items) => match spec_parse_values(items@) {
            Some(vs) => Some(ValueV::Array(vs)),
            None => None,
        },
        JsonValue::Object(ms) => Some(ValueV::Table(spec_parse_members(ms@))),
    }
}

pub open spec fn spec_parse_values(items: Seq<JsonValue>) -> Option<Seq<ValueV>>
    decreases items,
{
    if items.len() == 0 {
        Some(seq![])
    } else {
        match (spec_parse_values(items.drop_last()), spec_parse_value(items.last())) {
            (Some(a), Some(b)) => Some(a.push(b)),
            _ => None,
        }
    }
}

pub open spec fn spec_parse_members(ms: Seq<JsonMember>) -> Seq<(Seq<char>, ValueV)>
    decreases ms,
{
    if ms.len() == 0 {
        seq![]
    } else {
        let rest = spec_parse_members(ms.drop_last());
        match spec_parse_value(ms.last().value) {
            Some(x) => rest.push((ms.last().key@, x)),
            None => rest,
        }
    }
}

/// Reads a schema value from JSON.
pub fn parse_value(value: &JsonValue) -> (r: Option<Value>)
    ensures
        opt_value_view(r) == spec_parse_value(*value),
    decreases *value,
{
    match value {
        JsonValue::Null => None,
        JsonValue::Bool(b) => Some(Value::Boolean(*b)),
        JsonValue::Number(n) => match n.as_i64 {
            Some(i) => Some(Value::Integer(i)),
            None => Some(Value::Float(n.float_text.clone())),
        },
        JsonValue::String(s) => Some(Value::String(s.clone())),
        JsonValue::Array(items) => {
            let mut out: Vec<Value> = Vec::new();
            let mut i: usize = 0;
            while i < items.len()
                invariant
                    *value == JsonValue::Array(*items),
                    i <= items@.len(),
                    spec_parse_values(items@.subrange(0, i as int)) == Some(
                        Seq::new(out@.len(), |k: int| value_view(out@[k])),
                    ),
                decreases items@.len() - i,
            {
                proof {
                    assert(decreases_to!(*value => items@[i as int]));
                }
                let item = parse_value(&items[i]);
                proof {
                    assert(items@.subrange(0, i + 1).drop_last() =~= items@.subrange(0, i as int));
                    assert(items@.subrange(0, i + 1).last() == items@[i as int]);
                }
                match item {
                    Some(x) => {
                        out.push(x);
                        proof {
                            assert(Seq::new(out@.len(), |k: int| value_view(out@[k])) =~= Seq::new(
                                (out@.len() - 1) as nat,
                                |k: int| value_view(out@[k]),
                            ).push(value_view(x)));
                        }
                    },
                    None => {
                        proof {
                            lemma_parse_values_none(items@, i as int);
                        }
                        return None;
                    },
                }
                i = i + 1;
            }
            proof {
                assert(items@.subrange(0, items@.len() as int) =~= items@);
                assert(Seq::new(out@.len(), |k: int| value_view(out@[k])) =~= value_view(
                    Value::Array(out),
                )->Array_0);
            }
            Some(Value::Array(out))
        },
        JsonValue::Object(ms) => {
            let mut out: Vec<ValueEntry> = Vec::new();
            let mut i: usize = 0;
            while i < ms.len()
                invariant
                    *value == JsonValue::Object(*ms),
                    i <= ms@.len(),
                    spec_parse_members(ms@.subrange(0, i as int)) == Seq::new(
                        out@.len(),
                        |k: int| (out@[k].key@, value_view(out@[k].value)),
                    ),
                decreases ms@.len() - i,
            {
                proof {
                    crate::json::lemma_member_decreases(*value, *ms, i as int);
                }
                let item = parse_value(&ms[i].value);
                proof {
                    assert(ms@.subrange(0, i + 1).drop_last() =~= ms@.subrange(0, i as int));
                    assert(ms@.subrange(0, i + 1).last() == ms@[i as int]);
                }
                match item {
                    Some(x) => {
                        let key = ms[i].key.clone();
                        out.push(ValueEntry { key, value: x });
                        proof {
                            assert(Seq::new(out@.len(), |k: int| (out@[k].key@, value_view(out@[k].value)))
                                =~= Seq::new(
                                (out@.len() - 1) as nat,
                                |k: int| (out@[k].key@, value_view(out@[k].value)),
                            ).push((ms@[i as int].key@, value_view(x))));
                        }
                    },
                    None => {},
                }
                i = i + 1;
            }
            proof {
                assert(ms@.subrange(0, ms@.len() as int) =~= ms@);
                assert(Seq::new(out@.len(), |k: int| (out@[k].key@, value_view(out@[k].value)))
                    =~= value_view(Value::Table(out))->Table_0);
            }
            Some(Value::Table(out))
        },
    }
}

proof fn lemma_parse_values_none(items: Seq<JsonValue>, i: int)
    requires
        0 <= i < items.len(),
        spec_parse_value(items[i]) is None,
    ensures
        spec_parse_values(items) is None,
    decreases items.len(),
{
    if i < items.len() - 1 {
        lemma_parse_values_none(items.drop_last(), i);
    }
}


pub open spec fn get_array(v: JsonValue, key: Seq<char>) -> Option<Seq<JsonValue>> {
    match spec_get(v, key) {
        Some(JsonValue::Array(items)) => Some(items@),
        _ => None,
    }
}

/// The strings among `items`, in order.
pub open spec fn string_items(items: Seq<JsonValue>) -> Seq<Seq<char>>
    decreases items.len(),
{
    if items.len() == 0 {
        seq![]
    } else {
        let rest = string_items(items.drop_last());
        match items.last() {
            JsonValue::String(s) => rest.push(s@),
            _ => rest,
        }
    }
}

/// The string `const` members of `items`, in order.
pub open spec fn const_items(items: Seq<JsonValue>) -> Seq<Seq<char>>
    decreases items.len(),
{
    if items.len() == 0 {
        seq![]
    } else {
        let rest = const_items(items.drop_last());
        match get_str(items.last(), seq!['c', 'o', 'n', 's', 't']) {
            Some(s) => rest.push(s),
            None => rest,
        }
    }
}

pub open spec fn lit(s: &str) -> Seq<char> {
    s@
}

/// A string type listing the given values.
pub open spec fn enum_type(values: Seq<Seq<char>>) -> TypeInfoV {
    TypeInfoV::Str { enum_values: Some(values), min_length: None, max_length: None }
}

pub open spec fn usize_of(o: Option<u64>) -> Option<usize> {
    match o {
        Some(n) => Some(n as usize),
        None => None,
    }
}

/// The type a JSON Schema node describes: a `oneOf` of string constants or
/// a string `enum` is an enumeration; otherwise `type` decides, with its
/// bounds; `array` needs `items` and `object` needs `properties`.
pub open spec fn spec_type_info(v: JsonValue) -> Option<TypeInfoV>
    decreases v, 1int,
{
    if get_array(v, lit("oneOf")) is Some && const_items(get_array(v, lit("oneOf"))->0).len() > 0 {
        Some(enum_type(const_items(get_array(v, lit("oneOf"))->0)))
    } else if get_array(v, lit("enum")) is Some && string_items(get_array(v, lit("enum"))->0).len()
        > 0 {
        Some(enum_type(string_items(get_array(v, lit("enum"))->0)))
    } else {
        match get_str(v, lit("type")) {
            None => None,
            Some(t) => if t == lit("string") {
                Some(
                    TypeInfoV::Str {
                        enum_values: match get_array(v, lit("enum")) {
                            Some(a) => Some(string_items(a)),
                            None => None,
                        },
                        min_length: usize_of(get_u64(v, lit("minLength"))),
                        max_length: usize_of(get_u64(v, lit("maxLength"))),
                    },
                )
            } else if t == lit("integer") {
                Some(TypeInfoV::Integer { min: get_i64(v, lit("minimum")), max: get_i64(v, lit("maximum")) })
            } else if t == lit("number") {
                Some(
                    TypeInfoV::Float {
                        min: get_float_text(v, lit("minimum")),
                        max: get_float_text(v, lit("maximum")),
                    },
                )
            } else if t == lit("boolean") {
                Some(TypeInfoV::Boolean)
            } else if t == lit("array") {
                match spec_get(v, lit("items")) {
                    Some(items) => {
                        proof {
                            lemma_get_decreases(v, lit("items"));
                        }
                        match spec_type_info(items) {
                            Some(it) => Some(TypeInfoV::Array { item_type: Box::new(it) }),
                            None => None,
                        }
                    },
                    None => None,
                }
            } else if t == lit("object") {
                match spec_get(v, lit("properties")) {
                    Some(JsonValue::Object(ms)) => {
                        proof {
                            lemma_get_decreases(v, lit("properties"));
                        }
                        Some(TypeInfoV::Object { properties: spec_props(ms@) })
                    },
                    _ => None,
                }
            } else {
                None
            },
        }
    }
}

/// The properties given by object members, skipping those that do not
/// describe a property.
pub open spec fn spec_props(ms: Seq<JsonMember>) -> Seq<PropertyV>
    decreases ms, 0int,
{
    if ms.len() == 0 {
        seq![]
    } else {
        let rest = spec_props(ms.drop_last());
        proof {
            assert(decreases_to!(ms => ms[ms.len() - 1]));
        }
        match spec_property(ms.last().key@, ms.last().value) {
            Some(p) => rest.push(p),
            None => rest,
        }
    }
}

/// The property named `name` that a schema node describes, read from its
/// type and its `description`, `default`, `required`, `deprecated` and
/// `example` members.
pub open spec fn spec_property_fields(name: Seq<char>, v: JsonValue) -> Option<PropertyV>
    decreases v, 2int,
{
    match spec_type_info(v) {
        None => None,
        Some(t) => Some(
            PropertyV {
                name,
                type_info: t,
                description: match get_str(v, lit("description")) {
                    Some(d) => d,
                    None => Seq::empty(),
                },
                default: match spec_get(v, lit("default")) {
                    Some(d) => spec_parse_value(d),
                    None => None,
                },
                required: match get_bool(v, lit("required")) {
                    Some(b) => b,
                    None => false,
                },
                deprecated: get_str(v, lit("deprecated")),
                example: get_str(v, lit("example")),
            },
        ),
    }
}

/// A property from a node without a `$ref`.
pub open spec fn spec_property(name: Seq<char>, v: JsonValue) -> Option<PropertyV>
    decreases v, 3int,
{
    if spec_get(v, lit("$ref")) is Some {
        None
    } else {
        spec_property_fields(name, v)
    }
}


pub open spec fn opt_type_view(o: Option<TypeInfo>) -> Option<TypeInfoV> {
    match o {
        Some(t) => Some(type_view(t)),
        None => None,
    }
}

pub open spec fn opt_prop_view(o: Option<PropertySchema>) -> Option<PropertyV> {
    match o {
        Some(p) => Some(prop_view(p)),
        None => None,
    }
}

pub open spec fn props_view(ps: Seq<PropertySchema>) -> Seq<PropertyV> {
    Seq::new(ps.len(), |k: int| prop_view(ps[k]))
}

fn get_string<'a>(v: &'a JsonValue, key: &str) -> (r: Option<&'a String>)
    ensures
        match r {
            Some(s) => get_str(*v, key@) == Some(s@),
            None => get_str(*v, key@) is None,
        },
{
    match v.get(key) {
        Some(JsonValue::String(s)) => Some(s),
        _ => None,
    }
}

fn get_items<'a>(v: &'a JsonValue, key: &str) -> (r: Option<&'a Vec<JsonValue>>)
    ensures
        match r {
            Some(a) => get_array(*v, key@) == Some(a@),
            None => get_array(*v, key@) is None,
        },
{
    match v.get(key) {
        Some(JsonValue::Array(a)) => Some(a),
        _ => None,
    }
}

fn get_number<'a>(v: &'a JsonValue, key: &str) -> (r: Option<&'a JsonNumber>)
    ensures
        match r {
            Some(n) => spec_get(*v, key@) == Some(JsonValue::Number(*n)),
            None => !(spec_get(*v, key@) matches Some(JsonValue::Number(_))),
        },
{
    match v.get(key) {
        Some(JsonValue::Number(n)) => Some(n),
        _ => None,
    }
}

fn clone_opt_string(o: Option<&String>) -> (r: Option<String>)
    ensures
        opt_str_view(r) == match o {
            Some(s) => Some(s@),
            None => None::<Seq<char>>,
        },
{
    match o {
        Some(s) => Some(s.clone()),
        None => None,
    }
}

/// The strings among `items`.
fn string_items_of(items: &Vec<JsonValue>) -> (r: Vec<String>)
    ensures
        strs_view(r@) == string_items(items@),
{
    let mut out: Vec<String> = Vec::new();
    let mut i: usize = 0;
    while i < items.len()
        invariant
            i <= items@.len(),
            strs_view(out@) == string_items(items@.subrange(0, i as int)),
        decreases items@.len() - i,
    {
        proof {
            assert(items@.subrange(0, i + 1).drop_last() =~= items@.subrange(0, i as int));
        }
        match &items[i] {
            JsonValue::String(s) => {
                out.push(s.clone());
                assert(strs_view(out@) =~= strs_view(out@.drop_last()).push(s@));
            },
            _ => {},
        }
        i = i + 1;
    }
    assert(items@.subrange(0, items@.len() as int) =~= items@);
    out
}

/// The string `const` members of `items`.
fn const_items_of(items: &Vec<JsonValue>) -> (r: Vec<String>)
    ensures
        strs_view(r@) == const_items(items@),
{
    let mut out: Vec<String> = Vec::new();
    let mut i: usize = 0;
    while i < items.len()
        invariant
            i <= items@.len(),
            strs_view(out@) == const_items(items@.subrange(0, i as int)),
        decreases items@.len() - i,
    {
        proof {
            assert(items@.subrange(0, i + 1).drop_last() =~= items@.subrange(0, i as int));
            reveal_strlit("const");
            assert(seq!['c', 'o', 'n', 's', 't'] =~= "const"@);
        }
        match get_string(&items[i], "const") {
            Some(s) => {
                out.push(s.clone());
                assert(strs_view(out@) =~= strs_view(out@.drop_last()).push(s@));
            },
            None => {},
        }
        i = i + 1;
    }
    assert(items@.subrange(0, items@.len() as int) =~= items@);
    out
}

fn enum_of(values: Vec<String>) -> (t: TypeInfo)
    ensures
        type_view(t) == enum_type(strs_view(values@)),
{
    TypeInfo::String { enum_values: Some(values), min_length: None, max_length: None }
}

/// Reads the type a JSON Schema node describes.
pub fn parse_type_info(value: &JsonValue) -> (r: Option<TypeInfo>)
    ensures
        opt_type_view(r) == spec_type_info(*value),
    decreases *value, 1int,
{
    if let Some(one_of) = get_items(value, "oneOf") {
        let values = const_items_of(one_of);
        if values.len() > 0 {
            return Some(enum_of(values));
        }
    }
    if let Some(enum_array) = get_items(value, "enum") {
        let values = string_items_of(enum_array);
        if values.len() > 0 {
            return Some(enum_of(values));
        }
    }
    let type_str = match get_string(value, "type") {
        Some(t) => t,
        None => return None,
    };
    if crate::text::str_eq(type_str.as_str(), "string") {
        let enum_values = match get_items(value, "enum") {
            Some(a) => Some(string_items_of(a)),
            None => None,
        };
        let min_length = match get_number(value, "minLength") {
            Some(n) => match n.as_u64 {
                Some(m) => Some(#[verifier::truncate] (m as usize)),
                None => None,
            },
            None => None,
        };
        let max_length = match get_number(value, "maxLength") {
            Some(n) => match n.as_u64 {
                Some(m) => Some(#[verifier::truncate] (m as usize)),
                None => None,
            },
            None => None,
        };
        Some(TypeInfo::String { enum_values, min_length, max_length })
    } else if crate::text::str_eq(type_str.as_str(), "integer") {
        let min = match get_number(value, "minimum") {
            Some(n) => n.as_i64,
            None => None,
        };
        let max = match get_number(value, "maximum") {
            Some(n) => n.as_i64,
            None => None,
        };
        Some(TypeInfo::Integer { min, max })
    } else if crate::text::str_eq(type_str.as_str(), "number") {
        let min = match get_number(value, "minimum") {
            Some(n) => Some(n.float_text.clone()),
            None => None,
        };
        let max = match get_number(value, "maximum") {
            Some(n) => Some(n.float_text.clone()),
            None => None,
        };
        Some(TypeInfo::Float { min, max })
    } else if crate::text::str_eq(type_str.as_str(), "boolean") {
        Some(TypeInfo::Boolean)
    } else if crate::text::str_eq(type_str.as_str(), "array") {
        match value.get("items") {
            Some(items) => {
                proof {
                    lemma_get_decreases(*value, "items"@);
                }
                match parse_type_info(items) {
                    Some(it) => Some(TypeInfo::Array { item_type: Box::new(it) }),
                    None => None,
                }
            },
            None => None,
        }
    } else if crate::text::str_eq(type_str.as_str(), "object") {
        match value.get("properties") {
            Some(JsonValue::Object(ms)) => {
                proof {
                    lemma_get_decreases(*value, "properties"@);
                }
                let properties = parse_members_as_properties(value, ms);
                let ghost pv = props_view(properties@);
                let t = TypeInfo::Object { properties };
                assert(type_view(t)->Object_properties =~= pv);
                Some(t)
            },
            _ => None,
        }
    } else {
        None
    }
}

/// The properties described by the members `ms` of a node below `owner`.
fn parse_members_as_properties(owner: &JsonValue, ms: &Vec<JsonMember>) -> (r: Vec<PropertySchema>)
    requires
        decreases_to!(*owner => JsonValue::Object(*ms)),
    ensures
        props_view(r@) == spec_props(ms@),
    decreases *owner, 0int,
{
    let mut out: Vec<PropertySchema> = Vec::new();
    let mut i: usize = 0;
    while i < ms.len()
        invariant
            decreases_to!(*owner => JsonValue::Object(*ms)),
            i <= ms@.len(),
            props_view(out@) == spec_props(ms@.subrange(0, i as int)),
        decreases ms@.len() - i,
    {
        proof {
            crate::json::lemma_member_decreases(JsonValue::Object(*ms), *ms, i as int);
            assert(ms@.subrange(0, i + 1).drop_last() =~= ms@.subrange(0, i as int));
            assert(ms@.subrange(0, i + 1).last() == ms@[i as int]);
        }
        match parse_property_schema(ms[i].key.as_str(), &ms[i].value) {
            Some(p) => {
                out.push(p);
                assert(props_view(out@) =~= props_view(out@.drop_last()).push(prop_view(p)));
            },
            None => {},
        }
        i = i + 1;
    }
    assert(ms@.subrange(0, ms@.len() as int) =~= ms@);
    out
}

/// Reads the property named `name` from a schema node, whatever its `$ref`.
fn parse_property_fields(name: &str, value: &JsonValue) -> (r: Option<PropertySchema>)
    ensures
        opt_prop_view(r) == spec_property_fields(name@, *value),
    decreases *value, 2int,
{
    let type_info = match parse_type_info(value) {
        Some(t) => t,
        None => return None,
    };
    let description = match get_string(value, "description") {
        Some(d) => d.clone(),
        None => String::new(),
    };
    let default = match value.get("default") {
        Some(d) => parse_value(d),
        None => None,
    };
    let required = match value.get("required") {
        Some(JsonValue::Bool(b)) => *b,
        _ => false,
    };
    let deprecated = clone_opt_string(get_string(value, "deprecated"));
    let example = clone_opt_string(get_string(value, "example"));
    Some(
        PropertySchema {
            name: String::from_str(name),
            type_info,
            description,
            default,
            required,
            deprecated,
            example,
        },
    )
}

/// Reads the property named `name` from a schema node; a node with a `$ref`
/// gives none here.
pub fn parse_property_schema(name: &str, value: &JsonValue) -> (r: Option<PropertySchema>)
    ensures
        opt_prop_view(r) == spec_property(name@, *value),
    decreases *value, 3int,
{
    if value.get("$ref").is_some() {
        return None;
    }
    parse_property_fields(name, value)
}


// ----- properties behind `$ref` -----

/// The definition that a `$ref` text names in `defs`, when the text has the
/// form `#/$defs/<name>` and `defs` has a member `<name>`.
pub open spec fn ref_target(r: Seq<char>, defs: JsonValue) -> Option<JsonValue> {
    if crate::text::is_prefix(lit("#/$defs/"), r) {
        spec_get(defs, r.subrange(lit("#/$defs/").len() as int, r.len() as int))
    } else {
        None
    }
}

/// The property named `name` that a node describes, following `$ref` to
/// definitions in `defs` at most `fuel` times. A string `$ref` that names no
/// definition gives nothing; a node without a string `$ref` is read as it
/// stands.
pub open spec fn spec_property_with_defs(name: Seq<char>, v: JsonValue, defs: JsonValue, fuel: nat) -> Option<PropertyV>
    decreases fuel,
{
    match get_str(v, lit("$ref")) {
        Some(r) => match ref_target(r, defs) {
            Some(d) => if fuel == 0 {
                None
            } else {
                spec_property_with_defs(name, d, defs, (fuel - 1) as nat)
            },
            None => None,
        },
        None => spec_property_fields(name, v),
    }
}

/// How many `$ref` steps are followed: one more than there are definitions,
/// since a longer chain visits some definition twice and never ends.
pub open spec fn ref_fuel(defs: JsonValue) -> nat {
    match defs {
        JsonValue::Object(ms) => if ms@.len() < usize::MAX { ms@.len() + 1 } else { ms@.len() },
        _ => 1,
    }
}

/// The properties described by `ms`, `$ref`s resolved in `defs`.
pub open spec fn spec_props_with_defs(ms: Seq<JsonMember>, defs: JsonValue) -> Seq<PropertyV>
    decreases ms.len(),
{
    if ms.len() == 0 {
        seq![]
    } else {
        let rest = spec_props_with_defs(ms.drop_last(), defs);
        match spec_property_with_defs(ms.last().key@, ms.last().value, defs, ref_fuel(defs)) {
            Some(p) => rest.push(p),
            None => rest,
        }
    }
}

fn parse_property_schema_with_defs(name: &str, value: &JsonValue, defs: &JsonValue, fuel: usize) -> (r: Option<PropertySchema>)
    ensures
        opt_prop_view(r) == spec_property_with_defs(name@, *value, *defs, fuel as nat),
    decreases fuel,
{
    match get_string(value, "$ref") {
        Some(r) => {
            let rs = r.as_str();
            if crate::text::starts_with(rs, "#/$defs/") {
                let from = "#/$defs/".unicode_len();
                let to = rs.unicode_len();
                let def_name = rs.substring_char(from, to);
                match defs.get(def_name) {
                    Some(d) => {
                        if fuel == 0 {
                            None
                        } else {
                            parse_property_schema_with_defs(name, d, defs, fuel - 1)
                        }
                    },
                    None => None,
                }
            } else {
                None
            }
        },
        None => parse_property_fields(name, value),
    }
}

fn defs_fuel(defs: &JsonValue) -> (n: usize)
    ensures
        n as nat == ref_fuel(*defs),
{
    match defs {
        JsonValue::Object(ms) => if ms.len() < usize::MAX { ms.len() + 1 } else { ms.len() },
        _ => 1,
    }
}

// ----- the schema of all plugins -----

/// One plugin's JSON Schema under its configuration prefix.
#[derive(Debug)]
pub struct PluginEntry {
    pub prefix: String,
    pub schema: JsonValue,
}

/// The JSON Schema of all plugins, keyed by configuration prefix. No prefix
/// occurs twice.
#[derive(Debug)]
pub struct ConfigSchema {
    plugins: Vec<PluginEntry>,
}

/// The schema of the first entry with prefix `prefix`.
pub open spec fn entry_lookup(es: Seq<PluginEntry>, prefix: Seq<char>) -> Option<JsonValue>
    decreases es.len(),
{
    if es.len() == 0 {
        None
    } else if es[0].prefix@ == prefix {
        Some(es[0].schema)
    } else {
        entry_lookup(es.drop_first(), prefix)
    }
}

pub open spec fn distinct_prefixes(es: Seq<PluginEntry>) -> bool {
    forall|i: int, j: int| 0 <= i < j < es.len() ==> es[i].prefix@ != es[j].prefix@
}

proof fn lemma_lookup_index(es: Seq<PluginEntry>, prefix: Seq<char>)
    ensures
        entry_lookup(es, prefix) is Some <==> exists|i: int| 0 <= i < es.len() && #[trigger] es[i].prefix@ == prefix,
        distinct_prefixes(es) ==> forall|i: int| 0 <= i < es.len() && #[trigger] es[i].prefix@ == prefix ==> entry_lookup(es, prefix) == Some(es[i].schema),
    decreases es.len(),
{
    if es.len() > 0 {
        lemma_lookup_index(es.drop_first(), prefix);
        if exists|i: int| 0 <= i < es.len() && #[trigger] es[i].prefix@ == prefix {
            let i = choose|i: int| 0 <= i < es.len() && #[trigger] es[i].prefix@ == prefix;
            if i > 0 {
                assert(es.drop_first()[i - 1].prefix@ == prefix);
            }
        }
        if exists|i: int| 0 <= i < es.drop_first().len() && #[trigger] es.drop_first()[i].prefix@ == prefix {
            let i = choose|i: int| 0 <= i < es.drop_first().len() && #[trigger] es.drop_first()[i].prefix@ == prefix;
            assert(es[i + 1].prefix@ == prefix);
        }
        if distinct_prefixes(es) {
            assert(distinct_prefixes(es.drop_first())) by {
                assert forall|i: int, j: int| 0 <= i < j < es.drop_first().len() implies es.drop_first()[i].prefix@ != es.drop_first()[j].prefix@ by {
                    assert(es.drop_first()[i] == es[i + 1]);
                    assert(es.drop_first()[j] == es[j + 1]);
                }
            }
            assert forall|i: int| 0 <= i < es.len() && #[trigger] es[i].prefix@ == prefix implies entry_lookup(es, prefix) == Some(es[i].schema) by {
                if i > 0 {
                    assert(es.drop_first()[i - 1] == es[i]);
                }
            }
        }
    }
}

impl ConfigSchema {
    /// The schema registered under `prefix`.
    pub closed spec fn lookup(&self, prefix: Seq<char>) -> Option<JsonValue> {
        entry_lookup(self.plugins@, prefix)
    }

    /// The entries, in the order they were first inserted.
    pub closed spec fn entries(&self) -> Seq<PluginEntry> {
        self.plugins@
    }

    /// The registered prefixes, in the order they were first registered.
    pub closed spec fn prefix_list(&self) -> Seq<Seq<char>> {
        Seq::new(self.plugins@.len(), |k: int| self.plugins@[k].prefix@)
    }

    #[verifier::type_invariant]
    closed spec fn wf(&self) -> bool {
        distinct_prefixes(self.plugins@)
    }

    /// A schema with no plugins.
    pub fn new() -> (r: ConfigSchema)
        ensures
            forall|p: Seq<char>| r.lookup(p) is None,
    {
        ConfigSchema { plugins: Vec::new() }
    }

    /// Registers `schema` under `prefix`, replacing what was there.
    pub fn insert(&mut self, prefix: String, schema: JsonValue)
        ensures
            final(self).lookup(prefix@) == Some(schema),
            forall|p: Seq<char>| p != prefix@ ==> final(self).lookup(p) == old(self).lookup(p),
    {
        proof {
            use_type_invariant(&*self);
        }
        let mut plugins = Vec::new();
        std::mem::swap(&mut plugins, &mut self.plugins);
        let ghost old_es = plugins@;
        let mut i: usize = 0;
        let mut found = false;
        while i < plugins.len()
            invariant_except_break
                !found,
            invariant
                distinct_prefixes(old_es),
                plugins@.len() == old_es.len(),
                i <= plugins@.len(),
                forall|k: int| 0 <= k < i ==> old_es[k].prefix@ != prefix@,
                plugins@ == old_es,
            ensures
                found ==> i < old_es.len() && old_es[i as int].prefix@ == prefix@,
                !found ==> i == old_es.len(),
            decreases plugins@.len() - i,
        {
            if crate::text::str_eq(plugins[i].prefix.as_str(), prefix.as_str()) {
                found = true;
                break;
            }
            i = i + 1;
        }
        proof {
            lemma_lookup_index(old_es, prefix@);
        }
        if found {
            let ghost before = plugins@;
            let entry = PluginEntry { prefix, schema };
            plugins.set(i, entry);
            proof {
                assert(distinct_prefixes(plugins@)) by {
                    assert forall|a: int, b: int| 0 <= a < b < plugins@.len() implies plugins@[a].prefix@ != plugins@[b].prefix@ by {
                        if a != i && b != i {
                            assert(plugins@[a] == before[a] && plugins@[b] == before[b]);
                        }
                    }
                }
                lemma_lookup_index(plugins@, entry.prefix@);
                assert(plugins@[i as int].prefix@ == entry.prefix@);
                assert forall|p: Seq<char>| p != entry.prefix@ implies entry_lookup(plugins@, p) == entry_lookup(old_es, p) by {
                    lemma_lookup_index(plugins@, p);
                    lemma_lookup_index(old_es, p);
                    if exists|k: int| 0 <= k < old_es.len() && #[trigger] old_es[k].prefix@ == p {
                        let k = choose|k: int| 0 <= k < old_es.len() && #[trigger] old_es[k].prefix@ == p;
                        assert(k != i);
                        assert(plugins@[k] == old_es[k]);
                    }
                    if exists|k: int| 0 <= k < plugins@.len() && #[trigger] plugins@[k].prefix@ == p {
                        let k = choose|k: int| 0 <= k < plugins@.len() && #[trigger] plugins@[k].prefix@ == p;
                        assert(k != i);
                        assert(plugins@[k] == old_es[k]);
                    }
                }
            }
            self.plugins = plugins;
        } else {
            let ghost before = plugins@;
            let entry = PluginEntry { prefix, schema };
            plugins.push(entry);
            proof {
                assert(distinct_prefixes(plugins@)) by {
                    assert forall|a: int, b: int| 0 <= a < b < plugins@.len() implies plugins@[a].prefix@ != plugins@[b].prefix@ by {
                        if b < before.len() {
                            assert(plugins@[a] == before[a] && plugins@[b] == before[b]);
                        } else {
                            assert(plugins@[a] == before[a]);
                        }
                    }
                }
                lemma_lookup_index(plugins@, entry.prefix@);
                assert(plugins@[before.len() as int].prefix@ == entry.prefix@);
                assert forall|p: Seq<char>| p != entry.prefix@ implies entry_lookup(plugins@, p) == entry_lookup(old_es, p) by {
                    lemma_lookup_index(plugins@, p);
                    lemma_lookup_index(old_es, p);
                    if exists|k: int| 0 <= k < old_es.len() && #[trigger] old_es[k].prefix@ == p {
                        let k = choose|k: int| 0 <= k < old_es.len() && #[trigger] old_es[k].prefix@ == p;
                        assert(plugins@[k] == old_es[k]);
                    }
                    if exists|k: int| 0 <= k < plugins@.len() && #[trigger] plugins@[k].prefix@ == p {
                        let k = choose|k: int| 0 <= k < plugins@.len() && #[trigger] plugins@[k].prefix@ == p;
                        assert(k < old_es.len());
                        assert(plugins@[k] == old_es[k]);
                    }
                }
            }
            self.plugins = plugins;
        }
    }

    /// The schema registered under `prefix`.
    pub fn get(&self, prefix: &str) -> (r: Option<&JsonValue>)
        ensures
            match r {
                Some(v) => self.lookup(prefix@) == Some(*v),
                None => self.lookup(prefix@) is None,
            },
    {
        proof {
            use_type_invariant(self);
            lemma_lookup_index(self.plugins@, prefix@);
        }
        let mut i: usize = 0;
        while i < self.plugins.len()
            invariant
                i <= self.plugins@.len(),
                forall|k: int| 0 <= k < i ==> self.plugins@[k].prefix@ != prefix@,
                distinct_prefixes(self.plugins@),
                entry_lookup(self.plugins@, prefix@) is Some <==> exists|k: int| 0 <= k < self.plugins@.len() && #[trigger] self.plugins@[k].prefix@ == prefix@,
                forall|k: int| 0 <= k < self.plugins@.len() && #[trigger] self.plugins@[k].prefix@ == prefix@ ==> entry_lookup(self.plugins@, prefix@) == Some(self.plugins@[k].schema),
            decreases self.plugins@.len() - i,
        {
            if crate::text::str_eq(self.plugins[i].prefix.as_str(), prefix) {
                return Some(&self.plugins[i].schema);
            }
            i = i + 1;
        }
        None
    }

    /// Every registered prefix, once each.
    pub fn prefixes(&self) -> (r: Vec<String>)
        ensures
            crate::text::views(r@) == self.prefix_list(),
            forall|p: Seq<char>| self.lookup(p) is Some <==> exists|k: int| 0 <= k < r@.len() && #[trigger] r@[k]@ == p,
            forall|a: int, b: int| 0 <= a < b < r@.len() ==> r@[a]@ != r@[b]@,
    {
        proof {
            use_type_invariant(self);
        }
        let mut out: Vec<String> = Vec::new();
        let mut i: usize = 0;
        while i < self.plugins.len()
            invariant
                i <= self.plugins@.len(),
                out@.len() == i,
                forall|k: int| 0 <= k < i ==> #[trigger] out@[k]@ == self.plugins@[k].prefix@,
                distinct_prefixes(self.plugins@),
            decreases self.plugins@.len() - i,
        {
            out.push(self.plugins[i].prefix.clone());
            i = i + 1;
        }
        proof {
            assert forall|p: Seq<char>| self.lookup(p) is Some <==> exists|k: int| 0 <= k < out@.len() && #[trigger] out@[k]@ == p by {
                lemma_lookup_index(self.plugins@, p);
                if self.lookup(p) is Some {
                    let k = choose|k: int| 0 <= k < self.plugins@.len() && #[trigger] self.plugins@[k].prefix@ == p;
                    assert(out@[k]@ == p);
                }
                if exists|k: int| 0 <= k < out@.len() && #[trigger] out@[k]@ == p {
                    let k = choose|k: int| 0 <= k < out@.len() && #[trigger] out@[k]@ == p;
                    assert(self.plugins@[k].prefix@ == p);
                }
            }
        }
        proof {
            assert(crate::text::views(out@) =~= self.prefix_list());
        }
        out
    }
}


// ----- building JSON values -----

fn json_string(s: &str) -> (v: JsonValue)
    ensures
        v matches JsonValue::String(t) && t@ == s@,
{
    JsonValue::String(String::from_str(s))
}

fn json_integer(i: i64) -> (v: JsonValue)
    ensures
        v matches JsonValue::Number(n) && n.as_i64 == Some(i) && n.as_u64 == (if i >= 0 { Some(i as u64) } else { None })
            && n.float_text@ == crate::text::int_text(i as int),
{
    JsonValue::Number(
        JsonNumber {
            as_i64: Some(i),
            as_u64: if i >= 0 { Some(i as u64) } else { None },
            float_text: crate::text::i64_text(i),
        },
    )
}

fn member(key: &str, value: JsonValue) -> (m: JsonMember)
    ensures
        m.key@ == key@,
        m.value == value,
{
    JsonMember { key: String::from_str(key), value }
}

/// The view of a JSON string literal.
pub open spec fn jstr(s: &str) -> JsonV {
    JsonV::Str(s@)
}

/// The view of a small JSON integer.
pub open spec fn jint(i: i64) -> JsonV {
    JsonV::Number(
        crate::json::NumberV { as_i64: Some(i), as_u64: Some(i as u64), float_text: crate::text::int_text(i as int) },
    )
}

/// The schema of the `web` plugin in the built-in schema.
pub open spec fn fallback_web() -> JsonV {
    JsonV::Object(
        seq![
            (lit("properties"), JsonV::Object(seq![
                (lit("host"), JsonV::Object(seq![
                    (lit("default"), jstr("0.0.0.0")),
                    (lit("description"), jstr("Web server host address")),
                    (lit("type"), jstr("string")),
                ])),
                (lit("port"), JsonV::Object(seq![
                    (lit("default"), jint(8080)),
                    (lit("description"), jstr("Web server port")),
                    (lit("maximum"), jint(65535)),
                    (lit("minimum"), jint(1)),
                    (lit("type"), jstr("integer")),
                ])),
            ])),
            (lit("type"), jstr("object")),
        ],
    )
}

/// The schema of the `redis` plugin in the built-in schema.
pub open spec fn fallback_redis() -> JsonV {
    JsonV::Object(
        seq![
            (lit("properties"), JsonV::Object(seq![
                (lit("url"), JsonV::Object(seq![
                    (lit("default"), jstr("redis://localhost:6379")),
                    (lit("description"), jstr("Redis connection URL")),
                    (lit("type"), jstr("string")),
                ])),
            ])),
            (lit("type"), jstr("object")),
        ],
    )
}

fn object3(k1: &str, v1: JsonValue, k2: &str, v2: JsonValue, k3: &str, v3: JsonValue) -> (v: JsonValue)
    ensures
        v matches JsonValue::Object(ms) && ms@.len() == 3 && ms@[0].key@ == k1@ && ms@[0].value == v1 && ms@[1].key@
            == k2@ && ms@[1].value == v2 && ms@[2].key@ == k3@ && ms@[2].value == v3,
{
    let mut ms: Vec<JsonMember> = Vec::new();
    ms.push(member(k1, v1));
    ms.push(member(k2, v2));
    ms.push(member(k3, v3));
    JsonValue::Object(ms)
}

fn plugin_object(properties: Vec<JsonMember>) -> (v: JsonValue)
    ensures
        v matches JsonValue::Object(ms) && ms@.len() == 2 && ms@[0].key@ == lit("properties") && ms@[0].value
            == JsonValue::Object(properties) && ms@[1].key@ == lit("type") && crate::json::json_view(ms@[1].value)
            == jstr("object"),
{
    let mut ms: Vec<JsonMember> = Vec::new();
    ms.push(member("properties", JsonValue::Object(properties)));
    ms.push(member("type", json_string("object")));
    JsonValue::Object(ms)
}

fn fallback_web_schema() -> (v: JsonValue)
    ensures
        crate::json::json_view(v) == fallback_web(),
        property_keys_distinct(v),
{
    let host = object3(
        "default",
        json_string("0.0.0.0"),
        "description",
        json_string("Web server host address"),
        "type",
        json_string("string"),
    );
    let mut port_ms: Vec<JsonMember> = Vec::new();
    port_ms.push(member("default", json_integer(8080)));
    port_ms.push(member("description", json_string("Web server port")));
    port_ms.push(member("maximum", json_integer(65535)));
    port_ms.push(member("minimum", json_integer(1)));
    port_ms.push(member("type", json_string("integer")));
    let port = JsonValue::Object(port_ms);
    let mut props: Vec<JsonMember> = Vec::new();
    props.push(member("host", host));
    props.push(member("port", port));
    let v = plugin_object(props);
    proof {
        reveal_with_fuel(crate::json::json_view, 3);
        let ghost pv = crate::json::json_view(port);
        assert(pv->Object_0 =~= (seq![
            (lit("default"), jint(8080)),
            (lit("description"), jstr("Web server port")),
            (lit("maximum"), jint(65535)),
            (lit("minimum"), jint(1)),
            (lit("type"), jstr("integer")),
        ]));
        assert(crate::json::json_view(host)->Object_0 =~= (seq![
            (lit("default"), jstr("0.0.0.0")),
            (lit("description"), jstr("Web server host address")),
            (lit("type"), jstr("string")),
        ]));
        assert(crate::json::json_view(JsonValue::Object(props))->Object_0 =~= (seq![
            (lit("host"), crate::json::json_view(host)),
            (lit("port"), pv),
        ]));
        assert(crate::json::json_view(v)->Object_0 =~= (seq![
            (lit("properties"), crate::json::json_view(JsonValue::Object(props))),
            (lit("type"), jstr("object")),
        ]));
        reveal_strlit("host");
        reveal_strlit("port");
        reveal_strlit("properties");
        assert(lit("host")[0] != lit("port")[0]);
        let ms = v->Object_0;
        assert(member_lookup(ms@, lit("properties")) == Some(JsonValue::Object(props)));
    }
    v
}

fn fallback_redis_schema() -> (v: JsonValue)
    ensures
        crate::json::json_view(v) == fallback_redis(),
        property_keys_distinct(v),
{
    let url = object3(
        "default",
        json_string("redis://localhost:6379"),
        "description",
        json_string("Redis connection URL"),
        "type",
        json_string("string"),
    );
    let mut props: Vec<JsonMember> = Vec::new();
    props.push(member("url", url));
    let v = plugin_object(props);
    proof {
        reveal_with_fuel(crate::json::json_view, 3);
        assert(crate::json::json_view(url)->Object_0 =~= (seq![
            (lit("default"), jstr("redis://localhost:6379")),
            (lit("description"), jstr("Redis connection URL")),
            (lit("type"), jstr("string")),
        ]));
        assert(crate::json::json_view(JsonValue::Object(props))->Object_0 =~= (seq![
            (lit("url"), crate::json::json_view(url)),
        ]));
        assert(crate::json::json_view(v)->Object_0 =~= (seq![
            (lit("properties"), crate::json::json_view(JsonValue::Object(props))),
            (lit("type"), jstr("object")),
        ]));
        let ms = v->Object_0;
        assert(member_lookup(ms@, lit("properties")) == Some(JsonValue::Object(props)));
    }
    v
}


// ----- the schema provider -----

/// The `$defs` of a plugin schema, `null` when it has none.
pub open spec fn defs_of(schema: JsonValue) -> JsonValue {
    match spec_get(schema, lit("$defs")) {
        Some(d) => d,
        None => JsonValue::Null,
    }
}

/// The properties of a plugin schema: those its `properties` object
/// describes, `$ref`s resolved in its `$defs`; nothing when it has no
/// `properties` object.
pub open spec fn spec_plugin_properties(schema: JsonValue) -> Option<Seq<PropertyV>> {
    match spec_get(schema, lit("properties")) {
        Some(JsonValue::Object(ms)) => Some(spec_props_with_defs(ms@, defs_of(schema))),
        _ => None,
    }
}

/// Whether a plugin schema's `properties` object has a member `property`.
pub open spec fn spec_has_property(schema: JsonValue, property: Seq<char>) -> bool {
    match spec_get(schema, lit("properties")) {
        Some(JsonValue::Object(ms)) => crate::json::member_lookup(ms@, property) is Some,
        _ => false,
    }
}

/// The plugin schemas a local schema document lists under `properties`.
pub open spec fn spec_local_schemas(doc: JsonValue) -> Seq<(Seq<char>, JsonValue)> {
    match spec_get(doc, lit("properties")) {
        Some(JsonValue::Object(ms)) => Seq::new(ms@.len(), |i: int| (ms@[i].key@, ms@[i].value)),
        _ => seq![],
    }
}

/// A plugin schema's `properties` object, where it has one, names each
/// property once.
pub open spec fn property_keys_distinct(schema: JsonValue) -> bool {
    match spec_get(schema, lit("properties")) {
        Some(JsonValue::Object(ms)) => forall|a: int, b: int| 0 <= a < b < ms@.len() ==> (#[trigger] ms@[a]).key@ != (#[trigger] ms@[b]).key@,
        _ => true,
    }
}

/// A schema read from JSON names each property once.
pub proof fn lemma_parsed_property_keys_distinct(schema: JsonValue)
    requires
        json_keys_distinct(schema),
    ensures
        property_keys_distinct(schema),
{
    if let Some(JsonValue::Object(ms)) = spec_get(schema, lit("properties")) {
        if let JsonValue::Object(sms) = schema {
            lemma_member_lookup_in(sms@, lit("properties"));
            let k = choose|k: int| 0 <= k < sms@.len() && #[trigger] sms@[k].value == JsonValue::Object(ms);
            assert(json_keys_distinct(sms@[k].value));
        }
    }
}

/// The schema listed last under a prefix is one of those listed.
proof fn lemma_last_schema_listed(s: Seq<(Seq<char>, JsonValue)>, prefix: Seq<char>)
    ensures
        last_schema_for(s, prefix) matches Some(v) ==> exists|k: int| 0 <= k < s.len() && #[trigger] s[k].1 == v,
    decreases s.len(),
{
    if s.len() > 0 && s.last().0 != prefix {
        lemma_last_schema_listed(s.drop_last(), prefix);
        if let Some(v) = last_schema_for(s, prefix) {
            let k = choose|k: int| 0 <= k < s.drop_last().len() && #[trigger] s.drop_last()[k].1 == v;
            assert(s[k] == s.drop_last()[k]);
        }
    } else if s.len() > 0 {
        assert(s[s.len() - 1] == s.last());
    }
}

/// The plugin schemas listed in a document read from JSON are themselves
/// read from JSON.
pub proof fn lemma_local_schemas_parsed(doc: JsonValue)
    requires
        json_keys_distinct(doc),
    ensures
        forall|k: int| 0 <= k < spec_local_schemas(doc).len() ==> json_keys_distinct(#[trigger] spec_local_schemas(doc)[k].1),
{
    if let Some(JsonValue::Object(ms)) = spec_get(doc, lit("properties")) {
        if let JsonValue::Object(dms) = doc {
            lemma_member_lookup_in(dms@, lit("properties"));
            let j = choose|j: int| 0 <= j < dms@.len() && #[trigger] dms@[j].value == JsonValue::Object(ms);
            assert(json_keys_distinct(dms@[j].value));
            assert forall|k: int| 0 <= k < spec_local_schemas(doc).len() implies json_keys_distinct(#[trigger] spec_local_schemas(doc)[k].1) by {
                assert(spec_local_schemas(doc)[k].1 == ms@[k].value);
            }
        }
    }
}

/// Answers questions about the configuration schema of summer-rs plugins.
pub struct SchemaProvider {
    schema: ConfigSchema,
}

impl SchemaProvider {
    /// The schema of the plugin with configuration prefix `prefix`.
    pub closed spec fn plugin(&self, prefix: Seq<char>) -> Option<JsonValue> {
        self.schema.lookup(prefix)
    }

    /// The configuration prefixes in the schema, in a fixed order.
    pub closed spec fn prefix_list(&self) -> Seq<Seq<char>> {
        self.schema.prefix_list()
    }

    /// Every plugin schema names each of its properties once.
    pub open spec fn wf(&self) -> bool {
        forall|p: Seq<char>| #[trigger] self.plugin(p) matches Some(s) ==> property_keys_distinct(s)
    }

    /// A provider with an empty schema.
    pub fn new() -> (r: SchemaProvider)
        ensures
            forall|p: Seq<char>| r.plugin(p) is None,
            r.wf(),
    {
        SchemaProvider { schema: ConfigSchema::new() }
    }

    /// A provider for the given schema.
    pub fn from_schema(schema: ConfigSchema) -> (r: SchemaProvider)
        ensures
            forall|p: Seq<char>| r.plugin(p) == schema.lookup(p),
            (forall|p: Seq<char>| #[trigger] schema.lookup(p) matches Some(s) ==> property_keys_distinct(s)) ==> r.wf(),
    {
        SchemaProvider { schema }
    }

    /// The built-in schema used when none can be loaded: the `web` and
    /// `redis` plugins.
    pub fn create_fallback_schema() -> (r: ConfigSchema)
        ensures
            r.lookup(lit("web")) matches Some(w) && crate::json::json_view(w) == fallback_web(),
            r.lookup(lit("redis")) matches Some(w) && crate::json::json_view(w) == fallback_redis(),
            forall|p: Seq<char>| p != lit("web") && p != lit("redis") ==> r.lookup(p) is None,
            forall|p: Seq<char>| #[trigger] r.lookup(p) matches Some(s) ==> property_keys_distinct(s),
    {
        proof {
            reveal_strlit("web");
            reveal_strlit("redis");
        }
        let mut schema = ConfigSchema::new();
        let web = fallback_web_schema();
        schema.insert(String::from_str("web"), web);
        assert(schema.lookup(lit("web")) == Some(web));
        let redis = fallback_redis_schema();
        schema.insert(String::from_str("redis"), redis);
        assert(lit("web").len() != lit("redis").len());
        assert(schema.lookup(lit("web")) == Some(web));
        assert forall|p: Seq<char>| #[trigger] schema.lookup(p) is Some implies property_keys_distinct(schema.lookup(p)->Some_0) by {
            if p != lit("web") && p != lit("redis") {
            } else if p == lit("web") {
            } else {
            }
        }
        schema
    }

    /// A provider with the built-in schema.
    pub fn with_fallback_schema() -> (r: SchemaProvider)
        ensures
            r.plugin(lit("web")) matches Some(w) && crate::json::json_view(w) == fallback_web(),
            r.plugin(lit("redis")) matches Some(w) && crate::json::json_view(w) == fallback_redis(),
            forall|p: Seq<char>| p != lit("web") && p != lit("redis") ==> r.plugin(p) is None,
            r.wf(),
    {
        SchemaProvider { schema: Self::create_fallback_schema() }
    }

    /// Registers (or replaces) the schema of one plugin.
    pub fn insert_plugin(&mut self, prefix: String, schema: JsonValue)
        ensures
            final(self).plugin(prefix@) == Some(schema),
            forall|p: Seq<char>| p != prefix@ ==> final(self).plugin(p) == old(self).plugin(p),
            old(self).wf() && property_keys_distinct(schema) ==> final(self).wf(),
    {
        let ghost before = *self;
        let ghost key = prefix@;
        let ghost value = schema;
        self.schema.insert(prefix, schema);
        proof {
            if before.wf() && property_keys_distinct(value) {
                assert forall|p: Seq<char>| #[trigger] self.plugin(p) is Some implies property_keys_distinct(self.plugin(p)->Some_0) by {
                    if p != key {
                        assert(before.plugin(p) == self.plugin(p));
                    }
                }
            }
        }
    }

    /// Registers the schemas a local schema document lists under
    /// `properties`, each replacing what was registered under its prefix.
    pub fn merge_local_schemas(&mut self, doc: JsonValue)
        ensures
            forall|p: Seq<char>| #[trigger] final(self).plugin(p) == (match last_schema_for(spec_local_schemas(doc), p) {
                Some(v) => Some(v),
                None => old(self).plugin(p),
            }),
            old(self).wf() && json_keys_distinct(doc) ==> final(self).wf(),
    {
        let ghost locals = spec_local_schemas(doc);
        let ghost gdoc = doc;
        proof {
            if json_keys_distinct(gdoc) {
                lemma_local_schemas_parsed(gdoc);
            }
        }
        let members = match doc {
            JsonValue::Object(ms) => ms,
            _ => {
                assert(locals =~= seq![]);
                return;
            },
        };
        let mut pms = match take_member(members, "properties") {
            Some(JsonValue::Object(pms)) => pms,
            _ => {
                assert(locals =~= seq![]);
                return;
            },
        };
        let ghost orig = pms@;
        let ghost start = *self;
        let n = pms.len();
        let mut i: usize = 0;
        while pms.len() > 0
            invariant
                n == orig.len(),
                locals == Seq::new(orig.len(), |k: int| (orig[k].key@, orig[k].value)),
                i <= orig.len(),
                pms@ == orig.subrange(i as int, orig.len() as int),
                forall|p: Seq<char>| #[trigger] self.plugin(p) == (match last_schema_for(locals.subrange(0, i as int), p) {
                    Some(v) => Some(v),
                    None => start.plugin(p),
                }),
            decreases pms@.len(),
        {
            let m = pms.remove(0);
            proof {
                assert(m == orig[i as int]);
                assert(locals.subrange(0, i + 1).drop_last() =~= locals.subrange(0, i as int));
                assert(pms@ =~= orig.subrange(i + 1, orig.len() as int));
            }
            self.insert_plugin(m.key, m.value);
            i = i + 1;
        }
        proof {
            assert(locals.subrange(0, i as int) =~= locals);
            if start.wf() && json_keys_distinct(gdoc) {
                assert forall|p: Seq<char>| #[trigger] self.plugin(p) is Some implies property_keys_distinct(self.plugin(p)->Some_0) by {
                    lemma_last_schema_listed(locals, p);
                    if let Some(v) = last_schema_for(locals, p) {
                        let k = choose|k: int| 0 <= k < locals.len() && #[trigger] locals[k].1 == v;
                        lemma_parsed_property_keys_distinct(locals[k].1);
                    } else {
                        assert(start.plugin(p) == self.plugin(p));
                    }
                }
            }
        }
    }

    /// Whether the schema has a plugin with configuration prefix `prefix`.
    pub fn has_plugin(&self, prefix: &str) -> (r: bool)
        ensures
            r == self.plugin(prefix@) is Some,
    {
        self.schema.get(prefix).is_some()
    }

    /// Every configuration prefix in the schema, once each.
    pub fn get_all_prefixes(&self) -> (r: Vec<String>)
        ensures
            crate::text::views(r@) == self.prefix_list(),
            forall|p: Seq<char>| self.plugin(p) is Some <==> exists|k: int| 0 <= k < r@.len() && #[trigger] r@[k]@ == p,
            forall|a: int, b: int| 0 <= a < b < r@.len() ==> r@[a]@ != r@[b]@,
    {
        self.schema.prefixes()
    }

    /// The JSON Schema of the plugin with prefix `prefix`.
    pub fn get_plugin_schema(&self, prefix: &str) -> (r: Option<&JsonValue>)
        ensures
            match r {
                Some(v) => self.plugin(prefix@) == Some(*v),
                None => self.plugin(prefix@) is None,
            },
    {
        self.schema.get(prefix)
    }

    /// Whether the plugin `prefix` declares the property `property`.
    pub fn has_property(&self, prefix: &str, property: &str) -> (r: bool)
        ensures
            r == match self.plugin(prefix@) {
                Some(s) => spec_has_property(s, property@),
                None => false,
            },
    {
        match self.schema.get(prefix) {
            Some(plugin_schema) => match plugin_schema.get("properties") {
                Some(JsonValue::Object(ms)) => crate::json::has_member(ms, property),
                _ => false,
            },
            None => false,
        }
    }

    /// The structured schema of the plugin `prefix`: its properties, with
    /// `$ref`s resolved in its `$defs`.
    pub fn get_plugin(&self, prefix: &str) -> (r: Option<PluginSchema>)
        ensures
            match self.plugin(prefix@) {
                None => r is None,
                Some(s) => match spec_plugin_properties(s) {
                    None => r is None,
                    Some(ps) => r matches Some(p) && p.prefix@ == prefix@ && props_view(p.properties@) == ps,
                },
            },
    {
        let plugin_json = match self.schema.get(prefix) {
            Some(p) => p,
            None => return None,
        };
        let null = JsonValue::Null;
        let defs: &JsonValue = match plugin_json.get("$defs") {
            Some(d) => d,
            None => &null,
        };
        let ms = match plugin_json.get("properties") {
            Some(JsonValue::Object(ms)) => ms,
            _ => return None,
        };
        let fuel = defs_fuel(defs);
        let mut out: Vec<PropertySchema> = Vec::new();
        let mut i: usize = 0;
        while i < ms.len()
            invariant
                i <= ms@.len(),
                fuel == ref_fuel(*defs),
                props_view(out@) == spec_props_with_defs(ms@.subrange(0, i as int), *defs),
            decreases ms@.len() - i,
        {
            proof {
                assert(ms@.subrange(0, i + 1).drop_last() =~= ms@.subrange(0, i as int));
                assert(ms@.subrange(0, i + 1).last() == ms@[i as int]);
            }
            match parse_property_schema_with_defs(ms[i].key.as_str(), &ms[i].value, defs, fuel) {
                Some(p) => {
                    out.push(p);
                    assert(props_view(out@) =~= props_view(out@.drop_last()).push(prop_view(p)));
                },
                None => {},
            }
            i = i + 1;
        }
        proof {
            assert(ms@.subrange(0, ms@.len() as int) =~= ms@);
        }
        Some(PluginSchema { prefix: String::from_str(prefix), properties: out })
    }
}

/// The schema listed last under `prefix`, if any.
pub open spec fn last_schema_for(s: Seq<(Seq<char>, JsonValue)>, prefix: Seq<char>) -> Option<JsonValue>
    decreases s.len(),
{
    if s.len() == 0 {
        None
    } else if s.last().0 == prefix {
        Some(s.last().1)
    } else {
        last_schema_for(s.drop_last(), prefix)
    }
}


/// A provider holds the built-in schema: the `web` and `redis` plugins and
/// no other.
pub open spec fn has_fallback_plugins(r: SchemaProvider) -> bool {
    &&& r.plugin(lit("web")) matches Some(w) && crate::json::json_view(w) == fallback_web()
    &&& r.plugin(lit("redis")) matches Some(w) && crate::json::json_view(w) == fallback_redis()
    &&& forall|p: Seq<char>| p != lit("web") && p != lit("redis") ==> r.plugin(p) is None
}

impl Default for SchemaProvider {
    /// The provider with the built-in schema.
    fn default() -> (r: SchemaProvider)
        ensures
            r.plugin(lit("web")) matches Some(w) && crate::json::json_view(w) == fallback_web(),
            r.plugin(lit("redis")) matches Some(w) && crate::json::json_view(w) == fallback_redis(),
            forall|p: Seq<char>| p != lit("web") && p != lit("redis") ==> r.plugin(p) is None,
            r.wf(),
    {
        Self::with_fallback_schema()
    }
}

// ----- schemas for configuration structs found in the workspace -----

/// A field of a configuration struct: its name, its Rust type as written,
/// whether it is an `Option`, and its documentation.
#[derive(Debug)]
pub struct ConfigField {
    pub name: String,
    pub ty_name: String,
    pub optional: bool,
    pub description: Option<String>,
}

/// A configuration struct: its name, its configuration prefix and its
/// fields.
#[derive(Debug)]
pub struct ConfigurationStruct {
    pub name: String,
    pub prefix: String,
    pub fields: Vec<ConfigField>,
}

/// The type a field's schema describes: the type inside `Option<..>` for
/// an optional field written that way, else the type as written.
pub open spec fn field_base_type(f: ConfigField) -> Seq<char> {
    let t = f.ty_name@;
    if f.optional && crate::text::is_prefix("Option<"@, t) && t.len() >= 8 && t.last() == '>' {
        t.subrange(7, t.len() - 1)
    } else {
        t
    }
}

pub open spec fn is_integer_type(t: Seq<char>) -> bool {
    ||| t == "i8"@ ||| t == "i16"@ ||| t == "i32"@ ||| t == "i64"@ ||| t == "i128"@
    ||| t == "u8"@ ||| t == "u16"@ ||| t == "u32"@ ||| t == "u64"@ ||| t == "u128"@
    ||| t == "isize"@ ||| t == "usize"@
}

/// The JSON Schema type of a Rust type: strings, booleans, integers,
/// numbers, vectors as arrays and maps as objects; anything else a string.
pub open spec fn json_type_of(t: Seq<char>) -> Seq<char> {
    if t == "String"@ || t == "str"@ || t == "&str"@ {
        "string"@
    } else if t == "bool"@ {
        "boolean"@
    } else if is_integer_type(t) {
        "integer"@
    } else if t == "f32"@ || t == "f64"@ {
        "number"@
    } else if crate::text::is_prefix("Vec<"@, t) {
        "array"@
    } else if crate::text::is_prefix("HashMap<"@, t) || crate::text::is_prefix("BTreeMap<"@, t) {
        "object"@
    } else {
        "string"@
    }
}

/// The description of a field's schema: an optional field's documentation
/// is marked optional ("Optional field" when it has none).
pub open spec fn field_description(f: ConfigField) -> Option<Seq<char>> {
    if f.optional {
        match f.description {
            Some(d) => if d@.len() > 0 { Some(d@ + " (optional)"@) } else { Some("Optional field"@) },
            None => Some("Optional field"@),
        }
    } else {
        match f.description {
            Some(d) => Some(d@),
            None => None,
        }
    }
}

pub open spec fn is_json_string(v: JsonValue, s: Seq<char>) -> bool {
    v matches JsonValue::String(t) && t@ == s
}

/// Whether `v` is the schema of field `f`: its type, then its
/// description if it has one.
pub open spec fn field_schema_is(v: JsonValue, f: ConfigField) -> bool {
    v matches JsonValue::Object(ms) && ms@.len() >= 1 && ms@[0].key@ == "type"@
        && is_json_string(ms@[0].value, json_type_of(field_base_type(f)))
        && match field_description(f) {
        Some(d) => ms@.len() == 2 && ms@[1].key@ == "description"@ && is_json_string(ms@[1].value, d),
        None => ms@.len() == 1,
    }
}

/// The fields by name, in the order names first occur; a later field
/// replaces an earlier one of the same name.
pub open spec fn fields_by_name(fs: Seq<ConfigField>) -> Seq<ConfigField>
    decreases fs.len(),
{
    if fs.len() == 0 {
        seq![]
    } else {
        let init = fields_by_name(fs.drop_last());
        let f = fs.last();
        if exists|k: int| 0 <= k < init.len() && init[k].name@ == f.name@ {
            let k = choose|k: int| 0 <= k < init.len() && init[k].name@ == f.name@;
            init.update(k, f)
        } else {
            init.push(f)
        }
    }
}

fn string_value(s: &str) -> (v: JsonValue)
    ensures
        is_json_string(v, s@),
{
    JsonValue::String(String::from_str(s))
}

/// The JSON Schema of a configuration field.
pub fn field_to_schema(field: &ConfigField) -> (r: JsonValue)
    ensures
        field_schema_is(r, *field),
{
    let t = field.ty_name.as_str();
    let n = t.unicode_len();
    let inner: String = if field.optional && crate::text::starts_with(t, "Option<") && n >= 8 && t.get_char(n - 1) == '>' {
        t.substring_char(7, n - 1).to_string()
    } else {
        field.ty_name.clone()
    };
    proof {
        reveal_strlit("Option<");
    }
    assert(inner@ == field_base_type(*field));
    let b = inner.as_str();
    let json_type = if crate::text::str_eq(b, "String") || crate::text::str_eq(b, "str") || crate::text::str_eq(b, "&str") {
        "string"
    } else if crate::text::str_eq(b, "bool") {
        "boolean"
    } else if crate::text::str_eq(b, "i8") || crate::text::str_eq(b, "i16") || crate::text::str_eq(b, "i32")
        || crate::text::str_eq(b, "i64") || crate::text::str_eq(b, "i128") || crate::text::str_eq(b, "u8")
        || crate::text::str_eq(b, "u16") || crate::text::str_eq(b, "u32") || crate::text::str_eq(b, "u64")
        || crate::text::str_eq(b, "u128") || crate::text::str_eq(b, "isize") || crate::text::str_eq(b, "usize") {
        "integer"
    } else if crate::text::str_eq(b, "f32") || crate::text::str_eq(b, "f64") {
        "number"
    } else if crate::text::starts_with(b, "Vec<") {
        "array"
    } else if crate::text::starts_with(b, "HashMap<") || crate::text::starts_with(b, "BTreeMap<") {
        "object"
    } else {
        "string"
    };
    let mut members: Vec<JsonMember> = Vec::new();
    members.push(JsonMember { key: String::from_str("type"), value: string_value(json_type) });
    let description: Option<String> = if field.optional {
        match &field.description {
            Some(d) => if d.as_str().unicode_len() > 0 {
                let mut s = d.clone();
                s.append(" (optional)");
                Some(s)
            } else {
                Some(String::from_str("Optional field"))
            },
            None => Some(String::from_str("Optional field")),
        }
    } else {
        match &field.description {
            Some(d) => Some(d.clone()),
            None => None,
        }
    };
    match description {
        Some(d) => {
            members.push(JsonMember { key: String::from_str("description"), value: JsonValue::String(d) });
        },
        None => {},
    }
    JsonValue::Object(members)
}

pub open spec fn distinct_field_names(fs: Seq<ConfigField>) -> bool {
    forall|a: int, b: int| 0 <= a < b < fs.len() ==> fs[a].name@ != fs[b].name@
}

proof fn lemma_fields_by_name_distinct(fs: Seq<ConfigField>)
    ensures
        distinct_field_names(fields_by_name(fs)),
    decreases fs.len(),
{
    if fs.len() > 0 {
        lemma_fields_by_name_distinct(fs.drop_last());
    }
}

/// The JSON Schema of a configuration struct: an object with a property
/// per field name (a later field replacing an earlier one of that name)
/// and a description naming the struct.
pub fn configuration_to_schema(config: &ConfigurationStruct) -> (r: JsonValue)
    ensures
        r matches JsonValue::Object(ms) && ms@.len() == 3
            && ms@[0].key@ == "type"@ && is_json_string(ms@[0].value, "object"@)
            && ms@[1].key@ == "properties"@ && (ms@[1].value matches JsonValue::Object(ps)
                && ps@.len() == fields_by_name(config.fields@).len()
                && forall|k: int| 0 <= k < ps@.len() ==> #[trigger] ps@[k].key@ == fields_by_name(config.fields@)[k].name@
                    && field_schema_is(ps@[k].value, fields_by_name(config.fields@)[k]))
            && ms@[2].key@ == "description"@ && is_json_string(ms@[2].value, "Configuration for "@ + config.name@),
{
    let ghost fs = config.fields@;
    let mut ps: Vec<JsonMember> = Vec::new();
    let mut i: usize = 0;
    while i < config.fields.len()
        invariant
            fs == config.fields@,
            i <= fs.len(),
            ps@.len() == fields_by_name(fs.take(i as int)).len(),
            forall|k: int| 0 <= k < ps@.len() ==> #[trigger] ps@[k].key@ == fields_by_name(fs.take(i as int))[k].name@
                && field_schema_is(ps@[k].value, fields_by_name(fs.take(i as int))[k]),
        decreases fs.len() - i,
    {
        let ghost init = fields_by_name(fs.take(i as int));
        proof {
            assert(fs.take(i + 1).drop_last() =~= fs.take(i as int));
            assert(fs.take(i + 1).last() == fs[i as int]);
            lemma_fields_by_name_distinct(fs.take(i as int));
        }
        let f = &config.fields[i];
        let schema = field_to_schema(f);
        let mut k: usize = 0;
        let mut found = false;
        while k < ps.len() && !found
            invariant
                k <= ps@.len(),
                ps@.len() == init.len(),
                forall|j: int| 0 <= j < ps@.len() ==> #[trigger] ps@[j].key@ == init[j].name@,
                !found ==> forall|j: int| 0 <= j < k ==> ps@[j].key@ != f.name@,
                found ==> k < ps@.len() && ps@[k as int].key@ == f.name@,
            decreases ps@.len() - k + (if found { 0int } else { 1int }),
        {
            if crate::text::str_eq(ps[k].key.as_str(), f.name.as_str()) {
                found = true;
            } else {
                k = k + 1;
            }
        }
        let ghost before = ps@;
        if found {
            proof {
                assert(init[k as int].name@ == f.name@);
                let c = choose|c: int| 0 <= c < init.len() && init[c].name@ == f.name@;
                assert(c == k);
            }
            ps.set(k, JsonMember { key: f.name.clone(), value: schema });
        } else {
            proof {
                assert forall|c: int| 0 <= c < init.len() implies init[c].name@ != f.name@ by {
                    assert(before[c].key@ == init[c].name@);
                }
            }
            ps.push(JsonMember { key: f.name.clone(), value: schema });
        }
        i = i + 1;
    }
    proof {
        assert(fs.take(fs.len() as int) =~= fs);
    }
    let mut members: Vec<JsonMember> = Vec::new();
    members.push(JsonMember { key: String::from_str("type"), value: string_value("object") });
    members.push(JsonMember { key: String::from_str("properties"), value: JsonValue::Object(ps) });
    let mut d = String::from_str("Configuration for ");
    d.append(config.name.as_str());
    members.push(JsonMember { key: String::from_str("description"), value: JsonValue::String(d) });
    JsonValue::Object(members)
}

} // verus!
