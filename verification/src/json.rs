//! JSON values as plain data.
//!
//! Manifests, tool schemas and JSON-RPC messages reach the library as values of this type;
//! parsing and printing JSON text is left to the I/O layer.
use vstd::prelude::*;

use crate::text::str_equal;

verus! {

/// A JSON number, kept exactly as parsed.
#[derive(Clone, Debug, PartialEq, Eq)]
pub enum JsonNumber {
    /// A non-negative integer.
    PosInt(u64),
    /// A negative integer.
    NegInt(i64),
    /// Any other number, as its decimal text.
    Float(String),
}

/// A JSON value.
pub enum JsonValue {
    /// `null`.
    Null,
    /// `true` or `false`.
    Bool(bool),
    /// A number.
    Number(JsonNumber),
    /// A string.
    String(String),
    /// An array.
    Array(Vec<JsonValue>),
    /// An object, as its members in document order (keys are unique).
    Object(Vec<(String, JsonValue)>),
}

/// Index of the first member of `members` named `key`, if any.
pub open spec fn member_index(members: Seq<(String, JsonValue)>, key: Seq<char>) -> Option<int> {
    if exists|i: int| 0 <= i < members.len() && members[i].0@ == key {
        let i = choose|i: int|
            0 <= i < members.len() && members[i].0@ == key && forall|j: int| 0 <= j < i ==> members[j].0@ != key;
        Some(i)
    } else {
        None
    }
}

/// The member `key` of an object (`Value::get` with a string key); `None` for other values.
pub open spec fn json_get(v: JsonValue, key: Seq<char>) -> Option<JsonValue> {
    match v {
        JsonValue::Object(members) => match member_index(members@, key) {
            Some(i) => Some(members@[i].1),
            None => None,
        },
        _ => None,
    }
}

/// The text of a JSON string (`Value::as_str`).
pub open spec fn json_str(v: Option<JsonValue>) -> Option<Seq<char>> {
    match v {
        Some(JsonValue::String(s)) => Some(s@),
        _ => None,
    }
}

pub proof fn lemma_first_member(members: Seq<(String, JsonValue)>, key: Seq<char>, i: int)
    requires
        0 <= i < members.len(),
        members[i].0@ == key,
        forall|j: int| 0 <= j < i ==> members[j].0@ != key,
    ensures
        member_index(members, key) == Some(i),
{
    let k = choose|k: int|
        0 <= k < members.len() && members[k].0@ == key && forall|j: int| 0 <= j < k ==> members[j].0@ != key;
    assert(members[i].0@ == key);
    if k < i {
        assert(members[k].0@ != key);
    }
    if i < k {
        assert(members[i].0@ != key);
    }
}

impl JsonValue {
    /// The member `key` of an object (`Value::get`).
    pub fn get(&self, key: &str) -> (r: Option<&JsonValue>)
        ensures
            match r {
                Some(x) => json_get(*self, key@) == Some(*x),
                None => json_get(*self, key@) is None,
            },
    {
        match self {
            JsonValue::Object(members) => {
                let n = members.len();
                for i in 0..n
                    invariant
                        n == members@.len(),
                        *self == JsonValue::Object(*members),
                        forall|j: int| 0 <= j < i ==> members@[j].0@ != key@,
                {
                    if str_equal(members[i].0.as_str(), key) {
                        proof {
                            lemma_first_member(members@, key@, i as int);
                        }
                        return Some(&members[i].1);
                    }
                }
                None
            },
            _ => None,
        }
    }

    /// Whether the value is an object (`Value::is_object`).
    pub fn is_object(&self) -> (r: bool)
        ensures
            r == (*self is Object),
    {
        match self {
            JsonValue::Object(_) => true,
            _ => false,
        }
    }

    /// The text of a string value (`Value::as_str`).
    pub fn as_str(&self) -> (r: Option<&str>)
        ensures
            match r {
                Some(s) => json_str(Some(*self)) == Some(s@),
                None => json_str(Some(*self)) is None,
            },
    {
        match self {
            JsonValue::String(s) => Some(s.as_str()),
            _ => None,
        }
    }

    /// The value of a non-negative integer (`Value::as_u64`).
    pub fn as_u64(&self) -> (r: Option<u64>)
        ensures
            r == match *self {
                JsonValue::Number(JsonNumber::PosInt(n)) => Some(n),
                _ => None::<u64>,
            },
    {
        match self {
            JsonValue::Number(JsonNumber::PosInt(n)) => Some(*n),
            _ => None,
        }
    }

    /// Whether the value is the string `text` (`Value == &str`).
    pub fn is_string(&self, text: &str) -> (r: bool)
        ensures
            r == (json_str(Some(*self)) == Some(text@)),
    {
        match self {
            JsonValue::String(s) => str_equal(s.as_str(), text),
            _ => false,
        }
    }
}

} // verus!
