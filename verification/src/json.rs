//! A JSON value: what option values are made of.
//!
//! Numbers keep the three forms JSON numbers take: a non-negative integer, a
//! negative integer, or a binary64 float (held as its bit pattern).

use vstd::prelude::*;

verus! {

/// A JSON number.
#[derive(Debug, Clone, Copy, PartialEq)]
pub enum JsonNumber {
    /// A non-negative integer.
    PosInt(u64),
    /// A negative integer.
    NegInt(i64),
    /// A binary64 floating-point number, by its IEEE-754 bit pattern.
    Float(u64),
}

/// A JSON value.
#[derive(Debug, PartialEq)]
pub enum JsonValue {
    Null,
    Bool(bool),
    Number(JsonNumber),
    String(String),
    Array(Vec<JsonValue>),
    /// Members in key order.
    Object(Vec<(String, JsonValue)>),
}

/// The mathematical form of a JSON value.
pub enum JsonSpec {
    Null,
    Bool(bool),
    Number(JsonNumber),
    Str(Seq<char>),
    Array(Seq<JsonSpec>),
    Object(Seq<(Seq<char>, JsonSpec)>),
}

/// The number that an `i64` converts to: non-negative values are `PosInt`.
pub open spec fn number_from_i64(n: i64) -> JsonNumber {
    if n < 0 {
        JsonNumber::NegInt(n)
    } else {
        JsonNumber::PosInt(n as u64)
    }
}

/// The value as an unsigned integer, if it is one.
pub open spec fn spec_as_u64(v: JsonSpec) -> Option<u64> {
    match v {
        JsonSpec::Number(JsonNumber::PosInt(u)) => Some(u),
        _ => None,
    }
}

/// The value as a signed integer, if it is one that fits.
pub open spec fn spec_as_i64(v: JsonSpec) -> Option<i64> {
    match v {
        JsonSpec::Number(JsonNumber::PosInt(u)) => if u <= i64::MAX {
            Some(u as i64)
        } else {
            None
        },
        JsonSpec::Number(JsonNumber::NegInt(i)) => Some(i),
        _ => None,
    }
}

/// The value as a boolean, if it is one.
pub open spec fn spec_as_bool(v: JsonSpec) -> Option<bool> {
    match v {
        JsonSpec::Bool(b) => Some(b),
        _ => None,
    }
}

impl View for JsonValue {
    type V = JsonSpec;

    open spec fn view(&self) -> JsonSpec {
        json_view(*self)
    }
}

/// The mathematical form of a JSON value.
pub open spec fn json_view(v: JsonValue) -> JsonSpec
    decreases v,
{
    match v {
        JsonValue::Null => JsonSpec::Null,
        JsonValue::Bool(b) => JsonSpec::Bool(b),
        JsonValue::Number(n) => JsonSpec::Number(n),
        JsonValue::String(s) => JsonSpec::Str(s@),
        JsonValue::Array(a) => JsonSpec::Array(
            Seq::new(a@.len(), |i: int| if 0 <= i < a@.len() { json_view(a@[i]) } else { JsonSpec::Null }),
        ),
        JsonValue::Object(m) => JsonSpec::Object(
            Seq::new(
                m@.len(),
                |i: int|
                    if 0 <= i < m@.len() {
                        (m@[i].0@, json_view(m@[i].1))
                    } else {
                        (Seq::empty(), JsonSpec::Null)
                    },
            ),
        ),
    }
}

impl JsonValue {
    /// The JSON number of an `i64`.
    pub fn from_i64(n: i64) -> (res: JsonValue)
        ensures
            res@ == JsonSpec::Number(number_from_i64(n)),
    {
        if n < 0 {
            JsonValue::Number(JsonNumber::NegInt(n))
        } else {
            JsonValue::Number(JsonNumber::PosInt(n as u64))
        }
    }

    /// The JSON number of a byte.
    pub fn from_u8(n: u8) -> (res: JsonValue)
        ensures
            res@ == JsonSpec::Number(JsonNumber::PosInt(n as u64)),
    {
        JsonValue::Number(JsonNumber::PosInt(n as u64))
    }

    /// The value as an unsigned integer, if it is one.
    pub fn as_u64(&self) -> (res: Option<u64>)
        ensures
            res == spec_as_u64(self@),
    {
        match self {
            JsonValue::Number(JsonNumber::PosInt(u)) => Some(*u),
            _ => None,
        }
    }

    /// The value as a signed integer, if it is one that fits.
    pub fn as_i64(&self) -> (res: Option<i64>)
        ensures
            res == spec_as_i64(self@),
    {
        match self {
            JsonValue::Number(JsonNumber::PosInt(u)) => {
                if *u <= 9223372036854775807u64 {
                    Some(*u as i64)
                } else {
                    None
                }
            },
            JsonValue::Number(JsonNumber::NegInt(i)) => Some(*i),
            _ => None,
        }
    }

    /// The value as a boolean, if it is one.
    pub fn as_bool(&self) -> (res: Option<bool>)
        ensures
            res == spec_as_bool(self@),
    {
        match self {
            JsonValue::Bool(b) => Some(*b),
            _ => None,
        }
    }

    /// The value as a string, if it is one.
    pub fn as_str(&self) -> (res: Option<&str>)
        ensures
            self@ is Str <==> res is Some,
            res matches Some(s) ==> self@ == JsonSpec::Str(s@),
    {
        match self {
            JsonValue::String(s) => Some(s.as_str()),
            _ => None,
        }
    }

    /// A copy of the value.
    pub fn deep_clone(&self) -> (res: JsonValue)
        ensures
            res@ == self@,
        decreases self,
    {
        match self {
            JsonValue::Null => JsonValue::Null,
            JsonValue::Bool(b) => JsonValue::Bool(*b),
            JsonValue::Number(n) => JsonValue::Number(*n),
            JsonValue::String(s) => JsonValue::String(s.clone()),
            JsonValue::Array(a) => {
                let mut out: Vec<JsonValue> = Vec::new();
                let mut i: usize = 0;
                while i < a.len()
                    invariant
                        self is Array,
                        *a == self->Array_0,
                        i <= a@.len(),
                        out@.len() == i,
                        forall|j: int| 0 <= j < i ==> (#[trigger] out@[j])@ == a@[j]@,
                    decreases a@.len() - i,
                {
                    proof {
                        assert(decreases_to!(*self => self->Array_0@[i as int]));
                    }
                    let e = a[i].deep_clone();
                    out.push(e);
                    i = i + 1;
                }
                let res = JsonValue::Array(out);
                assert(res@->Array_0 =~= self@->Array_0);
                res
            },
            JsonValue::Object(m) => {
                let mut out: Vec<(String, JsonValue)> = Vec::new();
                let mut i: usize = 0;
                while i < m.len()
                    invariant
                        self is Object,
                        *m == self->Object_0,
                        i <= m@.len(),
                        out@.len() == i,
                        forall|j: int|
                            0 <= j < i ==> (#[trigger] out@[j]).0@ == m@[j].0@ && out@[j].1@
                                == m@[j].1@,
                    decreases m@.len() - i,
                {
                    proof {
                        assert(decreases_to!(*self => self->Object_0@[i as int].1));
                    }
                    let v = m[i].1.deep_clone();
                    let k = m[i].0.clone();
                    out.push((k, v));
                    i = i + 1;
                }
                let res = JsonValue::Object(out);
                assert(res@->Object_0 =~= self@->Object_0);
                res
            },
        }
    }
}

} // verus!
