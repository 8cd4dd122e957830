//! Declarations of the outside types that the library carries through its
//! signatures without looking inside them.

use vstd::prelude::*;

verus! {

/// `std::io::Error`, the failure of a write to an output stream.
#[verifier::external_type_specification]
#[verifier::external_body]
pub struct ExIoError(std::io::Error);

/// `serde_json::Value`, a parsed JSON document (a message payload).
#[verifier::external_type_specification]
#[verifier::external_body]
pub struct ExJsonValue(serde_json::Value);

/// `serde_json::Error`, the failure of a JSON serialisation.
#[verifier::external_type_specification]
#[verifier::external_body]
pub struct ExJsonError(serde_json::Error);

} // verus!

verus! {

/// `String::push`: appends one character (documented: "Appends the given
/// char to the end of this String").
pub assume_specification[ String::push ](s: &mut String, ch: char)
    ensures
        final(s)@ == old(s)@.push(ch),
;

} // verus!

verus! {

/// `serde_json::Value::clone` (derived): the copy is the same JSON document.
pub assume_specification[ <serde_json::Value as Clone>::clone ](v: &serde_json::Value) -> (r: serde_json::Value)
    ensures
        r == *v,
;

} // verus!
