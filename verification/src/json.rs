//! A plain model of the JSON payload the external table service returns.
//!
//! The ledger's logic only ever reads: whether the top level is an array,
//! whether a row is an object, a field's string content, and whether a
//! field's number fits a 64-bit signed integer. The caller that fetches the
//! payload converts it into this type; numbers that are fractional or out
//! of the signed 64-bit range carry no value, since the normalizer rejects
//! them wholesale.

use vstd::prelude::*;

verus! {

/// One JSON value, as much of it as the ledger reads.
pub enum JsonValue {
    /// A JSON null.
    Null,
    /// A JSON boolean.
    Bool(bool),
    /// A JSON number representable as a 64-bit signed integer.
    IntNumber(i64),
    /// A JSON number that is not representable as a 64-bit signed integer:
    /// fractional, or outside the signed range.
    OtherNumber,
    /// A JSON string.
    Str(String),
    /// A JSON array.
    Array(Vec<JsonValue>),
    /// A JSON object: its fields in document order.
    Object(Vec<(String, JsonValue)>),
}

} // verus!
