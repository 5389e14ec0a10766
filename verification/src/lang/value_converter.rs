//! How values cross between the virtual machine and native Rust code.
use vstd::prelude::*;

use crate::lang::value::{GValue, ValueKind};
use crate::text::same_text;

verus! {

/// A native value that a virtual-machine value turns into.
#[derive(Debug, Clone, Copy, PartialEq, Eq)]
pub enum NativeScalar {
    /// The unit value.
    Unit,
    /// The pool text that the value refers to.
    Text,
    Int(i32),
    Bool(bool),
}

/// A native value handed back to the virtual machine.
#[derive(Debug, Clone, Copy, PartialEq, Eq)]
pub enum NativeInput {
    /// A text, already added to the string pool under this reference.
    Text(i32),
    Int(i32),
    Bool(bool),
    /// Any other native value.
    Other,
}

/// The native value for a virtual-machine value, by its type.
pub open spec fn from_gvm(v: GValue) -> NativeScalar {
    match v.kind {
        ValueKind::Undefined => NativeScalar::Unit,
        ValueKind::String => NativeScalar::Text,
        ValueKind::Number => NativeScalar::Int(v.value),
        ValueKind::Boolean => NativeScalar::Bool(v.value > 0),
        _ => NativeScalar::Int(v.value),
    }
}

/// The native value for a virtual-machine value, asked for as the Rust type `target`.
pub open spec fn from_gvm_to(v: GValue, target: Seq<char>) -> NativeScalar {
    if target == "String"@ {
        NativeScalar::Text
    } else if target == "i32"@ || target == "Number"@ {
        NativeScalar::Int(v.value)
    } else if target == "bool"@ || target == "Boolean"@ {
        NativeScalar::Bool(v.value > 0)
    } else {
        from_gvm(v)
    }
}

/// The virtual-machine value for a native value.
pub open spec fn to_gvm(n: NativeInput) -> GValue {
    match n {
        NativeInput::Text(i) => GValue { kind: ValueKind::String, value: i },
        NativeInput::Int(i) => GValue { kind: ValueKind::Number, value: i },
        NativeInput::Bool(b) => GValue { kind: ValueKind::Boolean, value: if b { 1i32 } else { 0i32 } },
        NativeInput::Other => GValue { kind: ValueKind::Undefined, value: 0 },
    }
}

pub struct GscriptValueConverter;

impl GscriptValueConverter {
    pub fn new() -> (r: GscriptValueConverter) {
        GscriptValueConverter
    }

    pub fn convert_from_gvm(&self, value: GValue) -> (r: NativeScalar)
        ensures
            r == from_gvm(value),
    {
        match value.kind {
            ValueKind::Undefined => NativeScalar::Unit,
            ValueKind::String => NativeScalar::Text,
            ValueKind::Number => NativeScalar::Int(value.value),
            ValueKind::Boolean => NativeScalar::Bool(value.value > 0),
            _ => NativeScalar::Int(value.value),
        }
    }

    pub fn convert_from_gvm_to(&self, value: GValue, target: &str) -> (r: NativeScalar)
        ensures
            r == from_gvm_to(value, target@),
    {
        if same_text(target, "String") {
            NativeScalar::Text
        } else if same_text(target, "i32") || same_text(target, "Number") {
            NativeScalar::Int(value.value)
        } else if same_text(target, "bool") || same_text(target, "Boolean") {
            NativeScalar::Bool(value.value > 0)
        } else {
            self.convert_from_gvm(value)
        }
    }

    pub fn convert_to_gvm(&self, value: NativeInput) -> (r: GValue)
        ensures
            r == to_gvm(value),
    {
        match value {
            NativeInput::Text(i) => GValue::new(i, ValueKind::String),
            NativeInput::Int(i) => GValue::new(i, ValueKind::Number),
            NativeInput::Bool(b) => GValue::boolean(b),
            NativeInput::Other => GValue::undefined(),
        }
    }
}

/// A number or a boolean survives the trip to native code and back.
pub proof fn lemma_round_trip(v: GValue)
    requires
        v.kind == ValueKind::Number || (v.kind == ValueKind::Boolean && (v.value == 0 || v.value == 1)),
    ensures
        to_gvm(match from_gvm(v) {
            NativeScalar::Int(i) => NativeInput::Int(i),
            NativeScalar::Bool(b) => NativeInput::Bool(b),
            _ => NativeInput::Other,
        }) == v,
{
}

/// Asked for as a `bool` (or `Boolean`), a value is true exactly when its payload is
/// positive; so a boolean handed back from native code comes out as the same boolean,
/// and the boolean false (payload 0) as false.
pub proof fn lemma_bool_target(v: GValue, b: bool, target: Seq<char>)
    requires
        target == seq!['b', 'o', 'o', 'l'] || target == seq!['B', 'o', 'o', 'l', 'e', 'a', 'n'],
    ensures
        from_gvm_to(v, target) == NativeScalar::Bool(v.value > 0),
        from_gvm(to_gvm(NativeInput::Bool(b))) == NativeScalar::Bool(b),
        v.kind == ValueKind::Boolean ==> from_gvm(v) == NativeScalar::Bool(v.value > 0),
        from_gvm_to(to_gvm(NativeInput::Bool(b)), target) == NativeScalar::Bool(b),
        from_gvm_to(GValue { kind: ValueKind::Boolean, value: 0 }, target) == NativeScalar::Bool(false),
{
    reveal_strlit("String");
    reveal_strlit("i32");
    reveal_strlit("Number");
    reveal_strlit("bool");
    reveal_strlit("Boolean");
    assert("bool"@ =~= seq!['b', 'o', 'o', 'l']);
    assert("Boolean"@ =~= seq!['B', 'o', 'o', 'l', 'e', 'a', 'n']);
    assert("String"@ != target);
    assert("i32"@ != target);
    assert("Number"@[0] != target[0]);
}

/// Asked for as an `i32` (or `Number`), a value gives its payload; a number handed back
/// from native code comes out as the same number.
pub proof fn lemma_int_target(v: GValue, i: i32, target: Seq<char>)
    requires
        target == seq!['i', '3', '2'] || target == seq!['N', 'u', 'm', 'b', 'e', 'r'],
    ensures
        from_gvm_to(v, target) == NativeScalar::Int(v.value),
        from_gvm_to(to_gvm(NativeInput::Int(i)), target) == NativeScalar::Int(i),
{
    reveal_strlit("String");
    reveal_strlit("i32");
    reveal_strlit("Number");
    assert("i32"@ =~= seq!['i', '3', '2']);
    assert("Number"@ =~= seq!['N', 'u', 'm', 'b', 'e', 'r']);
    assert("String"@[0] != target[0]);
}

} // verus!
