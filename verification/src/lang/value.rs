//! Values as the virtual machine passes them to the GScript types: a type and
//! a 32-bit payload (a number, a flag, or a reference into the string pool or
//! the heap).
use vstd::prelude::*;

verus! {

/// An operation that the virtual machine asks a type to perform.
#[derive(Debug, Clone, Copy, PartialEq, Eq, Structural)]
pub enum Operation {
    New,
    Get,
    Add,
    Sub,
    Mult,
    Div,
    Mod,
    Not,
    Eql,
    Gt,
    Lt,
}

/// The type of a value, by the name the virtual machine gives it.
#[derive(Debug, Clone, Copy, PartialEq, Eq, Structural)]
pub enum ValueKind {
    Undefined,
    Number,
    String,
    Boolean,
    Object,
    Array,
    NativeObject,
    Function,
    Other,
}

/// A value: its type and its payload.
#[derive(Debug, Clone, Copy, PartialEq, Eq, Structural)]
pub struct GValue {
    pub kind: ValueKind,
    pub value: i32,
}

impl GValue {
    pub fn new(value: i32, kind: ValueKind) -> (r: GValue)
        ensures
            r == (GValue { kind, value }),
    {
        GValue { kind, value }
    }

    /// The undefined value: payload 0.
    pub fn undefined() -> (r: GValue)
        ensures
            r == (GValue { kind: ValueKind::Undefined, value: 0 }),
    {
        GValue { kind: ValueKind::Undefined, value: 0 }
    }

    /// A boolean value: payload 1 for true, 0 for false.
    pub fn boolean(b: bool) -> (r: GValue)
        ensures
            r == bool_value(b),
    {
        GValue { kind: ValueKind::Boolean, value: if b { 1 } else { 0 } }
    }
}

/// The boolean value for `b`: payload 1 for true, 0 for false.
pub open spec fn bool_value(b: bool) -> GValue {
    GValue { kind: ValueKind::Boolean, value: if b { 1i32 } else { 0i32 } }
}

/// Whether an operation combines the value with a second operand.
pub open spec fn binary(op: Operation) -> bool {
    !(op == Operation::New || op == Operation::Not)
}

} // verus!
