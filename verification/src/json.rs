//! JSON values as exchange responses carry them, and the ways the
//! response readers look into them.

use vstd::prelude::*;

use crate::keyed::{find_key, value_of};
use crate::text::str_eq;

verus! {

/// A JSON number as the parser keeps it: a non-negative integer, a
/// negative integer, or a binary64 bit pattern.
#[derive(Debug, Clone, Copy, PartialEq, Eq, Structural)]
pub enum JsonNumber {
    PosInt(u64),
    NegInt(i64),
    Float(u64),
}

/// A JSON value; an object keeps its members in order.
pub enum JsonValue {
    Null,
    Bool(bool),
    Number(JsonNumber),
    String(String),
    Array(Vec<JsonValue>),
    Object(Vec<(String, JsonValue)>),
}

/// Object members with text keys.
pub open spec fn members_view(v: Seq<(String, JsonValue)>) -> Seq<(Seq<char>, JsonValue)> {
    v.map_values(|m: (String, JsonValue)| (m.0@, m.1))
}

/// The member `key` of an object (the first, should a key repeat).
#[verifier::opaque]
pub open spec fn json_get(v: JsonValue, key: Seq<char>) -> Option<JsonValue> {
    match v {
        JsonValue::Object(members) => value_of(members_view(members@), key),
        _ => None,
    }
}

/// The text of a string value.
pub open spec fn json_str(v: JsonValue) -> Option<Seq<char>> {
    match v {
        JsonValue::String(s) => Some(s@),
        _ => None,
    }
}

/// The elements of an array value.
pub open spec fn json_array(v: JsonValue) -> Option<Seq<JsonValue>> {
    match v {
        JsonValue::Array(items) => Some(items@),
        _ => None,
    }
}

/// `Value::get`: the member `key` of an object.
pub fn get<'a>(v: &'a JsonValue, key: &str) -> (r: Option<&'a JsonValue>)
    ensures
        match r {
            Some(x) => json_get(*v, key@) == Some(*x),
            None => json_get(*v, key@) is None,
        },
{
    match v {
        JsonValue::Object(members) => {
            let ghost mv = members_view(members@);
            let mut i: usize = 0;
            while i < members.len()
                invariant
                    i <= members@.len(),
                    *v == JsonValue::Object(*members),
                    mv == members_view(members@),
                    forall|k: int| 0 <= k < i ==> (#[trigger] mv[k]).0 != key@,
                decreases members@.len() - i,
            {
                assert(mv[i as int] == (members@[i as int].0@, members@[i as int].1));
                if str_eq(members[i].0.as_str(), key) {
                    proof {
                        let c = choose|c: int|
                            0 <= c < mv.len() && (#[trigger] mv[c]).0 == key@ && forall|k: int|
                                0 <= k < c ==> (#[trigger] mv[k]).0 != key@;
                        assert(mv[i as int].0 == key@);
                        if c < i {
                            assert(mv[c].0 != key@);
                        }
                        if c > i {
                            assert(mv[i as int].0 != key@);
                        }
                        assert(find_key(mv, key@) == i);
                        reveal(json_get);
                    }
                    return Some(&members[i].1);
                }
                i = i + 1;
            }
            proof {
                reveal(json_get);
            }
            None
        },
        _ => {
            proof {
                reveal(json_get);
            }
            None
        },
    }
}

/// `Value::as_str`.
pub fn as_str(v: &JsonValue) -> (r: Option<&str>)
    ensures
        match r {
            Some(s) => json_str(*v) == Some(s@),
            None => json_str(*v) is None,
        },
{
    match v {
        JsonValue::String(s) => Some(s.as_str()),
        _ => None,
    }
}

/// `Value::as_array`.
pub fn as_array(v: &JsonValue) -> (r: Option<&Vec<JsonValue>>)
    ensures
        match r {
            Some(items) => json_array(*v) == Some(items@),
            None => json_array(*v) is None,
        },
{
    match v {
        JsonValue::Array(items) => Some(items),
        _ => None,
    }
}

/// `Value::as_bool`.
pub fn as_bool(v: &JsonValue) -> (r: Option<bool>)
    ensures
        r == (match *v {
            JsonValue::Bool(b) => Some(b),
            _ => None,
        }),
{
    match v {
        JsonValue::Bool(b) => Some(*b),
        _ => None,
    }
}

} // verus!
