//! How runtime errors become GScript exception objects.
use vstd::prelude::*;

use crate::lang::value::{GValue, ValueKind};

verus! {

/// A field of an exception object: its name and value.
#[derive(Debug, Clone)]
pub struct ExceptionField {
    pub name: String,
    pub value: GValue,
}

/// The fields of an exception object, seen as names and values.
pub open spec fn fields_view(f: Seq<ExceptionField>) -> Seq<(Seq<char>, GValue)> {
    f.map_values(|x: ExceptionField| (x.name@, x.value))
}

/// The fields of the exception raised by the virtual machine with a message (already
/// in the string pool under `message_ref`): `message`, `line`, and `location`, which
/// carries the location number as a string value.
pub open spec fn message_fields(message_ref: i32, line: i32, location: i32) -> Seq<(Seq<char>, GValue)> {
    seq![
        ("message"@, GValue { kind: ValueKind::String, value: message_ref }),
        ("line"@, GValue { kind: ValueKind::Number, value: line }),
        ("location"@, GValue { kind: ValueKind::String, value: location }),
    ]
}

/// The fields of the exception for a thrown value: a thrown string is the `message`,
/// anything else the `exception`; then `line` and `location`.
pub open spec fn value_fields(thrown: GValue, line: i32, location: i32) -> Seq<(Seq<char>, GValue)> {
    seq![
        (if thrown.kind == ValueKind::String { "message"@ } else { "exception"@ }, thrown),
        ("line"@, GValue { kind: ValueKind::Number, value: line }),
        ("location"@, GValue { kind: ValueKind::String, value: location }),
    ]
}

pub struct GscriptExceptionHandler;

impl GscriptExceptionHandler {
    pub fn new() -> (r: GscriptExceptionHandler) {
        GscriptExceptionHandler
    }

    /// The fields of the exception object for an error message.
    pub fn convert_message(&self, message_ref: i32, line: i32, location: i32) -> (r: Vec<ExceptionField>)
        ensures
            fields_view(r@) == message_fields(message_ref, line, location),
    {
        let mut r: Vec<ExceptionField> = Vec::new();
        r.push(ExceptionField { name: String::from_str("message"), value: GValue::new(message_ref, ValueKind::String) });
        r.push(ExceptionField { name: String::from_str("line"), value: GValue::new(line, ValueKind::Number) });
        r.push(ExceptionField { name: String::from_str("location"), value: GValue::new(location, ValueKind::String) });
        assert(fields_view(r@) =~= message_fields(message_ref, line, location));
        r
    }

    /// The fields of the exception object for a thrown value.
    pub fn convert_value(&self, value: GValue, line: i32, location: i32) -> (r: Vec<ExceptionField>)
        ensures
            fields_view(r@) == value_fields(value, line, location),
    {
        let mut r: Vec<ExceptionField> = Vec::new();
        let name = if value.kind == ValueKind::String {
            String::from_str("message")
        } else {
            String::from_str("exception")
        };
        r.push(ExceptionField { name, value });
        r.push(ExceptionField { name: String::from_str("line"), value: GValue::new(line, ValueKind::Number) });
        r.push(ExceptionField { name: String::from_str("location"), value: GValue::new(location, ValueKind::String) });
        assert(fields_view(r@) =~= value_fields(value, line, location));
        r
    }
}


/// An exception object has the fields `message` (or `exception`), `line` and `location`,
/// in that order: the line as a number, the location as a string reference; a thrown
/// string becomes the `message` and any other thrown value the `exception`, unchanged.
pub proof fn lemma_exception_fields(thrown: GValue, message_ref: i32, line: i32, location: i32)
    ensures
        message_fields(message_ref, line, location) == seq![
            (seq!['m', 'e', 's', 's', 'a', 'g', 'e'], GValue { kind: ValueKind::String, value: message_ref }),
            (seq!['l', 'i', 'n', 'e'], GValue { kind: ValueKind::Number, value: line }),
            (seq!['l', 'o', 'c', 'a', 't', 'i', 'o', 'n'], GValue { kind: ValueKind::String, value: location }),
        ],
        value_fields(thrown, line, location)[0].1 == thrown,
        thrown.kind == ValueKind::String ==> value_fields(thrown, line, location)[0].0 == seq!['m', 'e', 's', 's', 'a', 'g', 'e'],
        thrown.kind != ValueKind::String ==> value_fields(thrown, line, location)[0].0
            == seq!['e', 'x', 'c', 'e', 'p', 't', 'i', 'o', 'n'],
        value_fields(thrown, line, location).subrange(1, 3) == message_fields(message_ref, line, location).subrange(1, 3),
        value_fields(thrown, line, location).len() == 3,
{
    reveal_strlit("message");
    reveal_strlit("exception");
    reveal_strlit("line");
    reveal_strlit("location");
    assert("message"@ =~= seq!['m', 'e', 's', 's', 'a', 'g', 'e']);
    assert("exception"@ =~= seq!['e', 'x', 'c', 'e', 'p', 't', 'i', 'o', 'n']);
    assert("line"@ =~= seq!['l', 'i', 'n', 'e']);
    assert("location"@ =~= seq!['l', 'o', 'c', 'a', 't', 'i', 'o', 'n']);
    assert(value_fields(thrown, line, location).subrange(1, 3) =~= message_fields(message_ref, line, location).subrange(1, 3));
}

} // verus!
