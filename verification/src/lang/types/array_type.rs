//! `Array`: a reference to an array object on the heap, whose elements are stored
//! under the decimal text of their index.
use vstd::prelude::*;

use crate::lang::value::{GValue, Operation, ValueKind};
use crate::text::{decimal, int_to_text, same_text};

verus! {

/// The operations that `Array` supports.
pub open spec fn array_supports(op: Operation) -> bool {
    op == Operation::New || op == Operation::Get || op == Operation::Add
}

/// What reading a field of an array yields.
#[derive(Debug, Clone, PartialEq, Eq)]
pub enum ArrayGet {
    /// The stored length (0 where none is stored).
    Length,
    /// The element stored under this key (undefined where none is).
    Element(String),
    Undefined,
}

pub enum ArrayGetModel {
    Length,
    Element(Seq<char>),
    Undefined,
}

impl View for ArrayGet {
    type V = ArrayGetModel;

    open spec fn view(&self) -> ArrayGetModel {
        match self {
            ArrayGet::Length => ArrayGetModel::Length,
            ArrayGet::Element(k) => ArrayGetModel::Element(k@),
            ArrayGet::Undefined => ArrayGetModel::Undefined,
        }
    }
}

/// What reading the field `field` of an array yields: `length` by name, an element
/// by its numeric index.
pub open spec fn array_get(field: GValue, field_text: Seq<char>) -> ArrayGetModel {
    if field.kind == ValueKind::String {
        if field_text == "length"@ { ArrayGetModel::Length } else { ArrayGetModel::Undefined }
    } else if field.kind == ValueKind::Number {
        ArrayGetModel::Element(decimal(field.value as int))
    } else {
        ArrayGetModel::Undefined
    }
}

#[derive(Debug, Clone, Copy)]
pub struct ArrayType;

impl ArrayType {
    pub fn name(&self) -> (r: &'static str)
        ensures
            r@ == "Array"@,
    {
        "Array"
    }

    pub fn supports_operation(&self, op: Operation) -> (r: bool)
        ensures
            r == array_supports(op),
    {
        op == Operation::New || op == Operation::Get || op == Operation::Add
    }

    /// Whether a value of type `other` is an array.
    pub fn is_instance(&self, other: ValueKind) -> (r: bool)
        ensures
            r == (other == ValueKind::Array),
    {
        other == ValueKind::Array
    }

    /// The length that `+` reads before appending: the stored length, 0 where none is.
    pub fn current_length(&self, stored: Option<GValue>) -> (r: i32)
        ensures
            r == match stored {
                Some(v) => v.value,
                None => 0i32,
            },
    {
        match stored {
            Some(v) => v.value,
            None => 0,
        }
    }

    /// The key under which `+` stores the appended element: the decimal text of the
    /// current length.
    pub fn append_key(&self, length: i32) -> (r: String)
        ensures
            r@ == decimal(length as int),
    {
        int_to_text(length)
    }

    /// What reading the field `field` of an array yields.
    pub fn get_action(&self, field: GValue, field_text: &str) -> (r: ArrayGet)
        ensures
            r@ == array_get(field, field_text@),
    {
        if field.kind == ValueKind::String {
            if same_text(field_text, "length") { ArrayGet::Length } else { ArrayGet::Undefined }
        } else if field.kind == ValueKind::Number {
            ArrayGet::Element(int_to_text(field.value))
        } else {
            ArrayGet::Undefined
        }
    }

    /// The `length` field: the stored length, the number 0 where none is stored.
    pub fn length_or_zero(&self, stored: Option<GValue>) -> (r: GValue)
        ensures
            r == match stored {
                Some(v) => v,
                None => GValue { kind: ValueKind::Number, value: 0 },
            },
    {
        match stored {
            Some(v) => v,
            None => GValue::new(0, ValueKind::Number),
        }
    }
}


/// Reading a field of an array: the name `length` reads the length; a number `i` reads
/// the element stored under the decimal text of `i`; anything else reads nothing.
pub proof fn lemma_array_fields(field: GValue, t: Seq<char>)
    ensures
        field.kind == ValueKind::String ==> (array_get(field, t) == ArrayGetModel::Length
            <==> t == seq!['l', 'e', 'n', 'g', 't', 'h']),
        field.kind == ValueKind::String && t != seq!['l', 'e', 'n', 'g', 't', 'h']
            ==> array_get(field, t) == ArrayGetModel::Undefined,
        field.kind == ValueKind::Number ==> array_get(field, t) == ArrayGetModel::Element(decimal(field.value as int)),
        !(field.kind == ValueKind::Number || field.kind == ValueKind::String) ==> array_get(field, t) == ArrayGetModel::Undefined,
{
    reveal_strlit("length");
    assert("length"@ =~= seq!['l', 'e', 'n', 'g', 't', 'h']);
}

} // verus!
