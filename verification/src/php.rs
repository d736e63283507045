//! PHP values as the observers see them: plain snapshots, taken before any
//! frame is built.

use vstd::prelude::*;
use crate::json::Number;
use crate::text::{decimal_i64, signed_decimal};

verus! {

/// A PHP value.
pub enum PhpValue {
    Null,
    Bool(bool),
    Long(i64),
    Double(Double),
    /// A string that is valid UTF-8.
    Str(String),
    Array(Vec<Entry>),
    /// An object, with its class name where the engine gives one.
    Object(Option<String>),
    /// Anything else: a resource, or a string that is not valid UTF-8.
    Other,
}

/// One entry of a PHP array, in array order.
pub struct Entry {
    pub key: ArrayKey,
    pub value: PhpValue,
}

/// The key of an array entry.
pub enum ArrayKey {
    Int(i64),
    Str(String),
}

/// A floating-point number.
pub struct Double {
    /// The number as it is shown to a reader.
    pub shown: String,
    /// The number in JSON. JSON has none for an infinity or a NaN.
    pub json: Option<Number>,
}

/// A key as text.
pub open spec fn key_text(key: ArrayKey) -> Seq<char> {
    match key {
        ArrayKey::Int(n) => signed_decimal(n as int),
        ArrayKey::Str(s) => s@,
    }
}

impl ArrayKey {
    /// This key as text.
    pub fn to_text(&self) -> (s: String)
        ensures
            s@ == key_text(*self),
    {
        match self {
            ArrayKey::Int(n) => decimal_i64(*n),
            ArrayKey::Str(s) => s.clone(),
        }
    }
}

} // verus!
