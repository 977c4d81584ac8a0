//! A plain, owned JSON document tree.
//!
//! The registry file, the authentication file and the status document all
//! travel through this tree: text is turned into a tree (and back) at the
//! edge of the program, and everything the library decides is read from,
//! or written into, values of these types.
use vstd::prelude::*;

verus! {

/// A JSON number as the library sees it: the value as a 64-bit integer
/// when it is one, the value rounded to the nearest integer, and its
/// textual form, which is what is written back out.
pub struct JsonNumber {
    pub int_value: Option<i64>,
    pub rounded: i64,
    pub text: String,
}

/// The mathematical model of a [`JsonNumber`].
pub struct NumberView {
    pub int_value: Option<i64>,
    pub rounded: i64,
    pub text: Seq<char>,
}

impl View for JsonNumber {
    type V = NumberView;

    open spec fn view(&self) -> NumberView {
        NumberView { int_value: self.int_value, rounded: self.rounded, text: self.text@ }
    }
}

/// One `"key": value` pair of a JSON object, in document order.
pub struct JsonMember {
    pub key: String,
    pub value: JsonValue,
}

/// A JSON value.
pub enum JsonValue {
    Null,
    Bool(bool),
    Number(JsonNumber),
    Str(String),
    Array(Vec<JsonValue>),
    Object(Vec<JsonMember>),
}

/// The value stored under `key` in an object's members: the first member
/// whose key is `key`, if there is one.
pub open spec fn lookup(members: Seq<JsonMember>, key: Seq<char>) -> Option<JsonValue>
    decreases members.len(),
{
    if members.len() == 0 {
        None
    } else if members[0].key@ == key {
        Some(members[0].value)
    } else {
        lookup(members.drop_first(), key)
    }
}

/// The members of `v` when `v` is an object.
pub open spec fn object_members(v: JsonValue) -> Option<Seq<JsonMember>> {
    match v {
        JsonValue::Object(m) => Some(m@),
        _ => None,
    }
}

/// The text of `v` when `v` is a string.
pub open spec fn string_text(v: JsonValue) -> Option<Seq<char>> {
    match v {
        JsonValue::Str(s) => Some(s@),
        _ => None,
    }
}

/// The value of `v` when `v` is a number that is a 64-bit integer.
pub open spec fn integer_value(v: JsonValue) -> Option<i64> {
    match v {
        JsonValue::Number(n) => n.int_value,
        _ => None,
    }
}

/// The value of `v` when `v` is a boolean.
pub open spec fn bool_value(v: JsonValue) -> Option<bool> {
    match v {
        JsonValue::Bool(b) => Some(b),
        _ => None,
    }
}

/// The value under `key` of `members`, read as a string.
pub open spec fn member_text(members: Seq<JsonMember>, key: Seq<char>) -> Option<Seq<char>> {
    match lookup(members, key) {
        Some(v) => string_text(v),
        None => None,
    }
}

/// The value under `key` of `members`, read as a 64-bit integer.
pub open spec fn member_integer(members: Seq<JsonMember>, key: Seq<char>) -> Option<i64> {
    match lookup(members, key) {
        Some(v) => integer_value(v),
        None => None,
    }
}

/// The value under `key` of `members`, read as a boolean.
pub open spec fn member_bool(members: Seq<JsonMember>, key: Seq<char>) -> Option<bool> {
    match lookup(members, key) {
        Some(v) => bool_value(v),
        None => None,
    }
}

proof fn lemma_lookup_skip(members: Seq<JsonMember>, key: Seq<char>, i: int)
    requires
        0 <= i < members.len(),
        members[i].key@ != key,
    ensures
        lookup(members.skip(i), key) == lookup(members.skip(i + 1), key),
{
    assert(members.skip(i).drop_first() =~= members.skip(i + 1));
}

/// Finds the value stored under `key` among an object's members.
pub fn get_member<'a>(members: &'a Vec<JsonMember>, key: &str) -> (r: Option<&'a JsonValue>)
    ensures
        match r {
            Some(v) => lookup(members@, key@) == Some(*v),
            None => lookup(members@, key@) is None,
        },
{
    let wanted = String::from_str(key);
    let mut i: usize = 0;
    assert(members@.skip(0) =~= members@);
    while i < members.len()
        invariant
            0 <= i <= members.len(),
            wanted@ == key@,
            lookup(members@, key@) == lookup(members@.skip(i as int), key@),
        decreases members.len() - i,
    {
        if members[i].key == wanted {
            assert(members@.skip(i as int)[0] == members@[i as int]);
            return Some(&members[i].value);
        }
        proof {
            lemma_lookup_skip(members@, key@, i as int);
        }
        i += 1;
    }
    assert(members@.skip(i as int).len() == 0);
    None
}

impl JsonValue {
    /// The members of this value when it is an object.
    pub fn as_object(&self) -> (r: Option<&Vec<JsonMember>>)
        ensures
            match r {
                Some(m) => object_members(*self) == Some(m@),
                None => object_members(*self) is None,
            },
    {
        match self {
            JsonValue::Object(m) => Some(m),
            _ => None,
        }
    }

    /// The elements of this value when it is an array.
    pub fn as_array(&self) -> (r: Option<&Vec<JsonValue>>)
        ensures
            match r {
                Some(a) => *self == JsonValue::Array(*a),
                None => !(*self is Array),
            },
    {
        match self {
            JsonValue::Array(a) => Some(a),
            _ => None,
        }
    }

    /// The text of this value when it is a string.
    pub fn as_str(&self) -> (r: Option<&String>)
        ensures
            match r {
                Some(s) => string_text(*self) == Some(s@),
                None => string_text(*self) is None,
            },
    {
        match self {
            JsonValue::Str(s) => Some(s),
            _ => None,
        }
    }

    /// The value of this value when it is an integer number that fits in 64 bits.
    pub fn as_i64(&self) -> (r: Option<i64>)
        ensures
            r == integer_value(*self),
    {
        match self {
            JsonValue::Number(n) => n.int_value,
            _ => None,
        }
    }

    /// The value of this value when it is a boolean.
    pub fn as_bool(&self) -> (r: Option<bool>)
        ensures
            r == bool_value(*self),
    {
        match self {
            JsonValue::Bool(b) => Some(*b),
            _ => None,
        }
    }
}

} // verus!
