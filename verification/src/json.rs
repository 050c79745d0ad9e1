//! A plain model of the JSON values that pi writes into its session files.
//!
//! Parsing and printing JSON text is serde_json's work; this module holds
//! what comes out of it as ordinary values, so that the readers of session
//! entries can be verified against exact statements.
use vstd::prelude::*;

use crate::text::str_eq;

verus! {

/// A JSON number, kept the way serde_json keeps it: a non-negative integer,
/// a negative integer, or a finite binary64 value. A float carries its
/// IEEE-754 encoding, which the logic reads, and serde_json's own number,
/// which is printed as it was read.
#[derive(Clone, Debug, PartialEq, Eq)]
pub enum JsonNumber {
    PosInt(u64),
    NegInt(i64),
    Float { bits: u64, number: serde_json::Number },
}

/// A parsed JSON value. Object entries keep serde_json's order, in which
/// every key occurs once.
#[derive(Debug)]
pub enum Json {
    Null,
    Bool(bool),
    Number(JsonNumber),
    Str(String),
    Array(Vec<Json>),
    Object(Vec<(String, Json)>),
}

/// The value stored under `key` in a list of object entries: the first entry
/// with that key.
pub open spec fn entry_value(entries: Seq<(String, Json)>, key: Seq<char>) -> Option<Json>
    decreases entries.len(),
{
    if entries.len() == 0 {
        None
    } else if entries[0].0@ == key {
        Some(entries[0].1)
    } else {
        entry_value(entries.drop_first(), key)
    }
}

/// A binary64 encoding of a finite number greater than zero: sign bit clear,
/// exponent below the all-ones pattern, and not the encoding of +0.
pub open spec fn positive_finite_bits(bits: u64) -> bool {
    0 < bits < 0x7ff0_0000_0000_0000u64
}

impl JsonNumber {
    /// The number is finite and greater than zero (`as_f64` followed by
    /// `is_finite() && > 0`).
    pub open spec fn is_positive(self) -> bool {
        match self {
            JsonNumber::PosInt(n) => n > 0,
            JsonNumber::NegInt(n) => n > 0,
            JsonNumber::Float { bits, .. } => positive_finite_bits(bits),
        }
    }

    /// A copy of the number.
    pub fn copied(&self) -> (res: JsonNumber)
        ensures
            res == *self,
    {
        match self {
            JsonNumber::PosInt(n) => JsonNumber::PosInt(*n),
            JsonNumber::NegInt(n) => JsonNumber::NegInt(*n),
            JsonNumber::Float { bits, number } => JsonNumber::Float {
                bits: *bits,
                number: number.clone(),
            },
        }
    }

    /// Whether the number is finite and greater than zero.
    pub fn positive(&self) -> (res: bool)
        ensures
            res == self.is_positive(),
    {
        match self {
            JsonNumber::PosInt(n) => *n > 0,
            JsonNumber::NegInt(n) => *n > 0,
            JsonNumber::Float { bits, .. } => 0 < *bits && *bits < 0x7ff0_0000_0000_0000u64,
        }
    }
}

impl Json {
    /// `value.get(key)`: the entry under `key` when the value is an object.
    pub open spec fn spec_get(self, key: Seq<char>) -> Option<Json> {
        match self {
            Json::Object(entries) => entry_value(entries@, key),
            _ => None,
        }
    }

    /// `value[key]`: the entry under `key`, or `null` when there is none.
    pub open spec fn at(self, key: Seq<char>) -> Json {
        match self.spec_get(key) {
            Some(v) => v,
            None => Json::Null,
        }
    }

    /// `as_str`.
    pub open spec fn text_of(self) -> Option<Seq<char>> {
        match self {
            Json::Str(s) => Some(s@),
            _ => None,
        }
    }

    /// `as_u64`.
    pub open spec fn u64_of(self) -> Option<u64> {
        match self {
            Json::Number(JsonNumber::PosInt(n)) => Some(n),
            _ => None,
        }
    }

    /// `as_i64`.
    pub open spec fn i64_of(self) -> Option<int> {
        match self {
            Json::Number(JsonNumber::PosInt(n)) => if n <= i64::MAX {
                Some(n as int)
            } else {
                None
            },
            Json::Number(JsonNumber::NegInt(n)) => Some(n as int),
            _ => None,
        }
    }

    /// `as_array`.
    pub open spec fn items_of(self) -> Option<Seq<Json>> {
        match self {
            Json::Array(items) => Some(items@),
            _ => None,
        }
    }

    /// `value == s` for a string `s`: the value is that string.
    pub open spec fn is_text(self, s: Seq<char>) -> bool {
        self.text_of() == Some(s)
    }

    /// `value.get(key)`.
    pub fn get(&self, key: &str) -> (res: Option<&Json>)
        ensures
            match res {
                Some(v) => self.spec_get(key@) == Some(*v),
                None => self.spec_get(key@) is None,
            },
    {
        match self {
            Json::Object(entries) => {
                let mut i: usize = 0;
                proof {
                    assert(entries@.skip(0) =~= entries@);
                }
                while i < entries.len()
                    invariant
                        i <= entries.len(),
                        self.spec_get(key@) == entry_value(entries@, key@),
                        entry_value(entries@, key@) == entry_value(entries@.skip(i as int), key@),
                    decreases entries.len() - i,
                {
                    proof {
                        assert(entries@.skip(i as int).drop_first() =~= entries@.skip(i + 1));
                    }
                    if str_eq(entries[i].0.as_str(), key) {
                        proof {
                            assert(entries@.skip(i as int)[0] == entries@[i as int]);
                        }
                        return Some(&entries[i].1);
                    }
                    i = i + 1;
                }
                None
            },
            _ => None,
        }
    }

    /// `value.as_str()`.
    pub fn as_text(&self) -> (res: Option<&String>)
        ensures
            match res {
                Some(s) => self.text_of() == Some(s@),
                None => self.text_of() is None,
            },
    {
        match self {
            Json::Str(s) => Some(s),
            _ => None,
        }
    }

    /// `value.as_u64()`.
    pub fn as_u64(&self) -> (res: Option<u64>)
        ensures
            res == self.u64_of(),
    {
        match self {
            Json::Number(JsonNumber::PosInt(n)) => Some(*n),
            _ => None,
        }
    }

    /// `value.as_i64()`.
    pub fn as_i64(&self) -> (res: Option<i64>)
        ensures
            match res {
                Some(n) => self.i64_of() == Some(n as int),
                None => self.i64_of() is None,
            },
    {
        match self {
            Json::Number(JsonNumber::PosInt(n)) => if *n <= 0x7fff_ffff_ffff_ffffu64 {
                Some(*n as i64)
            } else {
                None
            },
            Json::Number(JsonNumber::NegInt(n)) => Some(*n),
            _ => None,
        }
    }

    /// `value.as_array()`.
    pub fn as_items(&self) -> (res: Option<&Vec<Json>>)
        ensures
            match res {
                Some(items) => self.items_of() == Some(items@),
                None => self.items_of() is None,
            },
    {
        match self {
            Json::Array(items) => Some(items),
            _ => None,
        }
    }

    /// `value == s` for a string `s`.
    pub fn is_str(&self, s: &str) -> (res: bool)
        ensures
            res == self.is_text(s@),
    {
        match self {
            Json::Str(t) => str_eq(t.as_str(), s),
            _ => false,
        }
    }

    /// `value[key].as_str()`.
    pub fn text_at(&self, key: &str) -> (res: Option<&String>)
        ensures
            match res {
                Some(s) => self.at(key@).text_of() == Some(s@),
                None => self.at(key@).text_of() is None,
            },
    {
        match self.get(key) {
            Some(v) => v.as_text(),
            None => None,
        }
    }

    /// `value[key] == s` for a string `s`.
    pub fn field_is(&self, key: &str, s: &str) -> (res: bool)
        ensures
            res == self.at(key@).is_text(s@),
    {
        match self.get(key) {
            Some(v) => v.is_str(s),
            None => false,
        }
    }
}

/// `serde_json::Value`, an opaque outside type: the conversions below move
/// it into the model and back.
#[verifier::external_type_specification]
#[verifier::external_body]
pub struct ExJsonValue(serde_json::Value);

/// `serde_json::Number`, an opaque outside type.
#[verifier::external_type_specification]
#[verifier::external_body]
pub struct ExJsonNumber(serde_json::Number);

/// The value that serde_json reads from a JSON text, moved into this model;
/// `None` when the text is not exactly one JSON value.
pub uninterp spec fn parsed_json(text: Seq<char>) -> Option<Json>;

/// The compact JSON text that serde_json prints for a value.
pub uninterp spec fn printed_json(value: Json) -> Seq<char>;

/// `serde_json::from_str::<serde_json::Value>`, moved into this model. The
/// contract only names the result: which texts are JSON, and what they hold,
/// is serde_json's grammar and is not restated here.
#[verifier::external_body]
pub(crate) fn parse_json(text: &str) -> (res: Option<Json>)
    ensures
        res == parsed_json(text@),
{
    serde_json::from_str::<serde_json::Value>(text).ok().map(json_from_value)
}

/// Moves a `serde_json::Value` into the model, one variant to one variant.
#[verifier::external_body]
fn json_from_value(value: serde_json::Value) -> Json {
    match value {
        serde_json::Value::Null => Json::Null,
        serde_json::Value::Bool(b) => Json::Bool(b),
        serde_json::Value::Number(n) => Json::Number(number_from(n)),
        serde_json::Value::String(s) => Json::Str(s),
        serde_json::Value::Array(a) => Json::Array(a.into_iter().map(json_from_value).collect()),
        serde_json::Value::Object(m) => Json::Object(
            m.into_iter().map(|(k, v)| (k, json_from_value(v))).collect(),
        ),
    }
}

/// Tells serde_json's three number representations apart (`as_u64`,
/// `as_i64`, and otherwise `as_f64`, whose encoding is kept beside the number).
#[verifier::external_body]
fn number_from(n: serde_json::Number) -> JsonNumber {
    match (n.as_u64(), n.as_i64()) {
        (Some(u), _) => JsonNumber::PosInt(u),
        (None, Some(i)) => JsonNumber::NegInt(i),
        (None, None) => JsonNumber::Float { bits: n.as_f64().map_or(0, |f| f.to_bits()), number: n },
    }
}

/// `Clone` of `serde_json::Number`, which is derived: the copy is the same
/// number.
pub assume_specification[ <serde_json::Number as Clone>::clone ](n: &serde_json::Number) -> (res:
    serde_json::Number)
    ensures
        res == *n,
;

/// `serde_json::Value::to_string`, the compact JSON text of a value. The
/// contract only names the result; serde_json's printer is not restated.
#[verifier::external_body]
pub(crate) fn print_json(value: &Json) -> (res: String)
    ensures
        res@ == printed_json(*value),
{
    value_from_json(value).to_string()
}

/// Moves a modelled value back into a `serde_json::Value`, one variant to one
/// variant; a float is the number serde_json read.
#[verifier::external_body]
fn value_from_json(value: &Json) -> serde_json::Value {
    match value {
        Json::Null => serde_json::Value::Null,
        Json::Bool(b) => serde_json::Value::Bool(*b),
        Json::Number(JsonNumber::PosInt(n)) => serde_json::Value::from(*n),
        Json::Number(JsonNumber::NegInt(n)) => serde_json::Value::from(*n),
        Json::Number(JsonNumber::Float { number, .. }) => serde_json::Value::Number(number.clone()),
        Json::Str(s) => serde_json::Value::String(s.clone()),
        Json::Array(a) => serde_json::Value::Array(a.iter().map(value_from_json).collect()),
        Json::Object(e) => serde_json::Value::Object(
            e.iter().map(|(k, v)| (k.clone(), value_from_json(v))).collect(),
        ),
    }
}

} // verus!
