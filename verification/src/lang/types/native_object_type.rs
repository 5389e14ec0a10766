//! `NativeObject`: a reference to an object that a native module made.
use vstd::prelude::*;

use crate::lang::value::{GValue, Operation, ValueKind};
use crate::text::concat;

verus! {

#[derive(Debug, Clone, Copy)]
pub struct NativeObjectType;

impl NativeObjectType {
    pub fn name(&self) -> (r: &'static str)
        ensures
            r@ == "NativeObject"@,
    {
        "NativeObject"
    }

    pub fn supports_operation(&self, op: Operation) -> (r: bool)
        ensures
            r == (op == Operation::Get),
    {
        op == Operation::Get
    }

    /// Whether a value of type `other` is a native object.
    pub fn is_instance(&self, other: ValueKind) -> (r: bool)
        ensures
            r == (other == ValueKind::NativeObject),
    {
        other == ValueKind::NativeObject
    }

    /// The name of the field to look up for the field operand `field`: only a string
    /// names one; for any other operand the result is undefined.
    pub fn field_name(&self, field: GValue, field_text: &str) -> (r: Option<String>)
        ensures
            field.kind == ValueKind::String <==> r is Some,
            r matches Some(n) ==> n@ == field_text@,
    {
        if field.kind == ValueKind::String {
            proof {
                reveal_strlit("");
            }
            assert(field_text@ + ""@ =~= field_text@);
            Some(concat(field_text, ""))
        } else {
            None
        }
    }

    /// The value of a looked-up field: undefined where the object has none.
    pub fn field_or_undefined(&self, found: Option<GValue>) -> (r: GValue)
        ensures
            r == match found {
                Some(v) => v,
                None => GValue { kind: ValueKind::Undefined, value: 0 },
            },
    {
        match found {
            Some(v) => v,
            None => GValue::undefined(),
        }
    }
}

} // verus!
