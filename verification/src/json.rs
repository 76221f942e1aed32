//! JSON values held as plain data, and the parser that builds them.

use vstd::prelude::*;
use serde_json::Error as SerdeJsonError;
use crate::json_dom::{JsonCursor, JsonShape, serde_parse, json_shape, json_item, json_member, serde_json_accepts, serde_json_shape};

verus! {

/// A JSON number, as `serde_json::Number` reports it through `as_i64`,
/// `as_u64` and `as_f64` (the last written as decimal text).
#[derive(Debug)]
pub struct JsonNumber {
    pub as_i64: Option<i64>,
    pub as_u64: Option<u64>,
    pub float_text: String,
}

/// A member of a JSON object.
#[derive(Debug)]
pub struct JsonMember {
    pub key: String,
    pub value: JsonValue,
}

/// A JSON value. Object members keep the parser's order.
#[derive(Debug)]
pub enum JsonValue {
    Null,
    Bool(bool),
    Number(JsonNumber),
    String(String),
    Array(Vec<JsonValue>),
    Object(Vec<JsonMember>),
}

/// The mathematical content of a [`JsonNumber`].
pub struct NumberV {
    pub as_i64: Option<i64>,
    pub as_u64: Option<u64>,
    pub float_text: Seq<char>,
}

/// The mathematical content of a [`JsonValue`].
pub enum JsonV {
    Null,
    Bool(bool),
    Number(NumberV),
    Str(Seq<char>),
    Array(Seq<JsonV>),
    Object(Seq<(Seq<char>, JsonV)>),
}

pub open spec fn json_view(v: JsonValue) -> JsonV
    decreases v,
{
    match v {
        JsonValue::Null => JsonV::Null,
        JsonValue::Bool(b) => JsonV::Bool(b),
        JsonValue::Number(n) => JsonV::Number(
            NumberV { as_i64: n.as_i64, as_u64: n.as_u64, float_text: n.float_text@ },
        ),
        JsonValue::String(s) => JsonV::Str(s@),
        JsonValue::Array(items) => JsonV::Array(
            Seq::new(
                items@.len(),
                |i: int|
                    if 0 <= i < items@.len() {
                        json_view(items@[i])
                    } else {
                        JsonV::Null
                    },
            ),
        ),
        JsonValue::Object(members) => JsonV::Object(
            Seq::new(
                members@.len(),
                |i: int|
                    if 0 <= i < members@.len() {
                        (members@[i].key@, json_view(members@[i].value))
                    } else {
                        (Seq::empty(), JsonV::Null)
                    },
            ),
        ),
    }
}

/// Each object in a value names each of its members once.
pub open spec fn json_keys_distinct(v: JsonValue) -> bool
    decreases v,
{
    match v {
        JsonValue::Array(items) => forall|i: int| 0 <= i < items@.len() ==> json_keys_distinct(#[trigger] items@[i]),
        JsonValue::Object(ms) => {
            &&& forall|a: int, b: int| 0 <= a < b < ms@.len() ==> (#[trigger] ms@[a]).key@ != (#[trigger] ms@[b]).key@
            &&& forall|i: int| 0 <= i < ms@.len() ==> json_keys_distinct((#[trigger] ms@[i]).value)
        },
        _ => true,
    }
}

impl View for JsonValue {
    type V = JsonV;

    open spec fn view(&self) -> JsonV {
        json_view(*self)
    }
}


impl JsonValue {
    /// The member `key` of an object (the first one with that key).
    pub fn get(&self, key: &str) -> (r: Option<&JsonValue>)
        ensures
            match r {
                Some(x) => spec_get(*self, key@) == Some(*x),
                None => spec_get(*self, key@) is None,
            },
    {
        proof {
            if let JsonValue::Object(members) = self {
                assert(members@.subrange(0, members@.len() as int) =~= members@);
            }
        }
        match self {
            JsonValue::Object(members) => {
                let mut i: usize = 0;
                while i < members.len()
                    invariant
                        i <= members@.len(),
                        spec_get(*self, key@) == member_lookup(members@, key@),
                        member_lookup(members@.subrange(i as int, members@.len() as int), key@)
                            == member_lookup(members@, key@),
                    decreases members@.len() - i,
                {
                    proof {
                        assert(members@.subrange(i as int, members@.len() as int).drop_first()
                            =~= members@.subrange(i + 1, members@.len() as int));
                    }
                    if crate::text::str_eq(members[i].key.as_str(), key) {
                        assert(members@.subrange(i as int, members@.len() as int)[0] == members@[i as int]);
                        return Some(&members[i].value);
                    }
                    i = i + 1;
                }
                proof {
                    assert(members@.subrange(i as int, members@.len() as int) =~= Seq::<JsonMember>::empty());
                }
                None
            },
            _ => None,
        }
    }

    /// The string of a string value.
    pub fn as_str(&self) -> (r: Option<&String>)
        ensures
            r == (match *self {
                JsonValue::String(s) => Some(&s),
                _ => None,
            }),
    {
        match self {
            JsonValue::String(s) => Some(s),
            _ => None,
        }
    }
}

/// The value of the first member with key `key`.
pub open spec fn member_lookup(members: Seq<JsonMember>, key: Seq<char>) -> Option<JsonValue>
    decreases members.len(),
{
    if members.len() == 0 {
        None
    } else if members[0].key@ == key {
        Some(members[0].value)
    } else {
        member_lookup(members.drop_first(), key)
    }
}

/// The member `key` of an object value, if it is an object with that key.
pub open spec fn spec_get(v: JsonValue, key: Seq<char>) -> Option<JsonValue> {
    match v {
        JsonValue::Object(members) => member_lookup(members@, key),
        _ => None,
    }
}


/// The value below the node at `path` of the value parsed from `text`, read
/// with at most `fuel` levels (below the last, `null`).
pub open spec fn json_tree_at(text: Seq<char>, path: Seq<usize>, fuel: nat) -> JsonV
    decreases fuel,
{
    if fuel == 0 {
        JsonV::Null
    } else {
        match serde_json_shape(text, path) {
            JsonShape::Null => JsonV::Null,
            JsonShape::Bool(b) => JsonV::Bool(b),
            JsonShape::Number(n) => JsonV::Number(
                NumberV { as_i64: n.as_i64, as_u64: n.as_u64, float_text: n.float_text@ },
            ),
            JsonShape::String(s) => JsonV::Str(s@),
            JsonShape::Array(n) => JsonV::Array(
                Seq::new(n as nat, |i: int| json_tree_at(text, path.push(i as usize), (fuel - 1) as nat)),
            ),
            JsonShape::Object(keys) => JsonV::Object(
                Seq::new(keys@.len(), |i: int| (keys@[i]@, json_tree_at(text, path.push(i as usize), (fuel - 1) as nat))),
            ),
        }
    }
}

/// The value that `serde_json` parses from a text: read from the root with
/// one level more than the text has chars, which no value reaches.
pub open spec fn serde_json_tree(text: Seq<char>) -> JsonV {
    json_tree_at(text, Seq::empty(), text.len() + 1)
}

/// The plain form of the node of a cursor, read with at most `fuel` levels.
fn json_of(c: &JsonCursor, fuel: usize) -> (r: JsonValue)
    ensures
        json_view(r) == json_tree_at(c.text(), c.path(), fuel as nat),
        json_keys_distinct(r),
    decreases fuel,
{
    if fuel == 0 {
        return JsonValue::Null;
    }
    match json_shape(c) {
        JsonShape::Null => JsonValue::Null,
        JsonShape::Bool(b) => JsonValue::Bool(b),
        JsonShape::Number(n) => JsonValue::Number(n),
        JsonShape::String(s) => JsonValue::String(s),
        JsonShape::Array(n) => {
            let mut out: Vec<JsonValue> = Vec::new();
            let mut i: usize = 0;
            while i < n
                invariant
                    i <= n,
                    serde_json_shape(c.text(), c.path()) == JsonShape::Array(n),
                    fuel > 0,
                    out@.len() == i,
                    forall|j: int| 0 <= j < i ==> json_view(#[trigger] out@[j]) == json_tree_at(c.text(), c.path().push(j as usize), (fuel - 1) as nat)
                        && json_keys_distinct(out@[j]),
                decreases n - i,
            {
                let item = json_item(c, i);
                out.push(json_of(&item, fuel - 1));
                i = i + 1;
            }
            let r = JsonValue::Array(out);
            proof {
                assert(json_view(r)->Array_0 =~= json_tree_at(c.text(), c.path(), fuel as nat)->Array_0);
            }
            r
        },
        JsonShape::Object(keys) => {
            let mut out: Vec<JsonMember> = Vec::new();
            let mut i: usize = 0;
            while i < keys.len()
                invariant
                    i <= keys@.len(),
                    serde_json_shape(c.text(), c.path()) == JsonShape::Object(keys),
                    fuel > 0,
                    out@.len() == i,
                    forall|j: int| 0 <= j < i ==> (#[trigger] out@[j]).key@ == keys@[j]@
                        && json_view(out@[j].value) == json_tree_at(c.text(), c.path().push(j as usize), (fuel - 1) as nat)
                        && json_keys_distinct(out@[j].value),
                    forall|a: int, b: int| 0 <= a < b < keys@.len() ==> (#[trigger] keys@[a])@ != (#[trigger] keys@[b])@,
                decreases keys@.len() - i,
            {
                let v = json_member(c, i);
                let key = keys[i].clone();
                out.push(JsonMember { key, value: json_of(&v, fuel - 1) });
                i = i + 1;
            }
            let r = JsonValue::Object(out);
            proof {
                assert(json_view(r)->Object_0 =~= json_tree_at(c.text(), c.path(), fuel as nat)->Object_0);
            }
            r
        },
    }
}

/// Parses JSON text: succeeds exactly when `serde_json` accepts the text,
/// with the value that it parses.
pub fn parse_json(text: &str) -> (r: Result<JsonValue, SerdeJsonError>)
    requires
        text@.len() < usize::MAX,
    ensures
        r is Ok <==> serde_json_accepts(text@),
        r matches Ok(v) ==> json_view(v) == serde_json_tree(text@) && json_keys_distinct(v),
{
    match serde_parse(text) {
        Ok(c) => {
            let n = text.unicode_len();
            Ok(json_of(&c, n + 1))
        },
        Err(e) => Err(e),
    }
}


/// A member looked up in an object is one of its members' values.
pub proof fn lemma_member_lookup_in(ms: Seq<JsonMember>, key: Seq<char>)
    ensures
        member_lookup(ms, key) matches Some(x) ==> exists|k: int|
            0 <= k < ms.len() && #[trigger] ms[k].value == x,
    decreases ms.len(),
{
    if ms.len() > 0 && ms[0].key@ != key {
        lemma_member_lookup_in(ms.drop_first(), key);
        if let Some(x) = member_lookup(ms, key) {
            let k = choose|k: int| 0 <= k < ms.drop_first().len() && #[trigger] ms.drop_first()[k].value == x;
            assert(ms[k + 1].value == x);
        }
    }
}

/// A value looked up in an object is smaller than the object.
pub proof fn lemma_get_decreases(v: JsonValue, key: Seq<char>)
    ensures
        spec_get(v, key) matches Some(x) ==> decreases_to!(v => x),
{
    if let JsonValue::Object(members) = v {
        lemma_member_lookup_in(members@, key);
        if let Some(x) = spec_get(v, key) {
            let k = choose|k: int| 0 <= k < members@.len() && #[trigger] members@[k].value == x;
            assert(decreases_to!(v => members));
            assert(decreases_to!(members => members@));
            assert(decreases_to!(members@ => members@[k]));
            assert(decreases_to!(members@[k] => members@[k].value));
        }
    }
}


/// The value of an object's member is smaller than the object.
pub proof fn lemma_member_decreases(v: JsonValue, members: Vec<JsonMember>, i: int)
    requires
        v == JsonValue::Object(members),
        0 <= i < members@.len(),
    ensures
        decreases_to!(v => members@[i].value),
{
    assert(v->Object_0 == members);
    assert(decreases_to!(v => v->Object_0));
    assert(decreases_to!(members => members@));
    assert(decreases_to!(members@ => members@[i]));
    assert(decreases_to!(members@[i] => members@[i].value));
}


/// Whether some member has key `key`.
pub fn has_member(ms: &Vec<JsonMember>, key: &str) -> (r: bool)
    ensures
        r == member_lookup(ms@, key@) is Some,
{
    let mut i: usize = 0;
    proof {
        assert(ms@.subrange(0, ms@.len() as int) =~= ms@);
    }
    while i < ms.len()
        invariant
            i <= ms@.len(),
            member_lookup(ms@, key@) == member_lookup(ms@.subrange(i as int, ms@.len() as int), key@),
        decreases ms@.len() - i,
    {
        proof {
            assert(ms@.subrange(i as int, ms@.len() as int).drop_first() =~= ms@.subrange(i + 1, ms@.len() as int));
        }
        if crate::text::str_eq(ms[i].key.as_str(), key) {
            return true;
        }
        i = i + 1;
    }
    false
}

/// The value of the first member with key `key`, moved out of `ms`.
pub fn take_member(members: Vec<JsonMember>, key: &str) -> (r: Option<JsonValue>)
    ensures
        r == member_lookup(members@, key@),
{
    let mut ms = members;
    let ghost orig = ms@;
    let mut i: usize = 0;
    proof {
        assert(orig.subrange(0, orig.len() as int) =~= orig);
    }
    while i < ms.len()
        invariant
            ms@ == orig,
            orig == members@,
            i <= orig.len(),
            member_lookup(orig, key@) == member_lookup(orig.subrange(i as int, orig.len() as int), key@),
        decreases orig.len() - i,
    {
        proof {
            assert(orig.subrange(i as int, orig.len() as int).drop_first() =~= orig.subrange(i + 1, orig.len() as int));
        }
        if crate::text::str_eq(ms[i].key.as_str(), key) {
            proof {
                assert(orig.subrange(i as int, orig.len() as int)[0] == orig[i as int]);
            }
            let m = ms.remove(i);
            proof {
                let sub = orig.subrange(i as int, orig.len() as int);
                assert(sub.len() > 0);
                assert(sub[0].key@ == key@);
                assert(member_lookup(sub, key@) == Some(sub[0].value));
            }
            return Some(m.value);
        }
        i = i + 1;
    }
    None
}

} // verus!
