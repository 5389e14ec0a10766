//! `Object`: a reference to a plain object on the heap.
use vstd::prelude::*;

use crate::lang::value::{bool_value, GValue, Operation, ValueKind};
use crate::text::{concat, same_text};

verus! {

/// The operations that `Object` supports.
pub open spec fn object_supports(op: Operation) -> bool {
    op == Operation::New || op == Operation::Get || op == Operation::Eql
}

/// What reading a field of an object yields.
#[derive(Debug, Clone, PartialEq, Eq)]
pub enum ObjectGet {
    /// An array of the object's field names.
    Fields,
    /// The heap reference itself, as a number.
    Ref,
    /// The field of that name, undefined where the object has none.
    Field(String),
    Undefined,
}

/// The view of an [`ObjectGet`]: names become character sequences.
pub enum ObjectGetModel {
    Fields,
    Ref,
    Field(Seq<char>),
    Undefined,
}

impl View for ObjectGet {
    type V = ObjectGetModel;

    open spec fn view(&self) -> ObjectGetModel {
        match self {
            ObjectGet::Fields => ObjectGetModel::Fields,
            ObjectGet::Ref => ObjectGetModel::Ref,
            ObjectGet::Field(name) => ObjectGetModel::Field(name@),
            ObjectGet::Undefined => ObjectGetModel::Undefined,
        }
    }
}

/// What reading the field `field` (whose text is `field_text` when it is a string)
/// of an object yields: `fields` and `ref` are reflective, other names are looked up.
pub open spec fn object_get(field: GValue, field_text: Seq<char>) -> ObjectGetModel {
    if field.kind == ValueKind::String {
        if field_text == "fields"@ {
            ObjectGetModel::Fields
        } else if field_text == "ref"@ {
            ObjectGetModel::Ref
        } else {
            ObjectGetModel::Field(field_text)
        }
    } else {
        ObjectGetModel::Undefined
    }
}

#[derive(Debug, Clone, Copy)]
pub struct ObjectType;

impl ObjectType {
    pub fn name(&self) -> (r: &'static str)
        ensures
            r@ == "Object"@,
    {
        "Object"
    }

    pub fn supports_operation(&self, op: Operation) -> (r: bool)
        ensures
            r == object_supports(op),
    {
        op == Operation::New || op == Operation::Get || op == Operation::Eql
    }

    /// Whether a value of type `other` is an object.
    pub fn is_instance(&self, other: ValueKind) -> (r: bool)
        ensures
            r == (other == ValueKind::Object),
    {
        other == ValueKind::Object
    }

    /// What reading the field `field` of an object yields.
    pub fn get_action(&self, field: GValue, field_text: &str) -> (r: ObjectGet)
        ensures
            r@ == object_get(field, field_text@),
    {
        if field.kind == ValueKind::String {
            if same_text(field_text, "fields") {
                ObjectGet::Fields
            } else if same_text(field_text, "ref") {
                ObjectGet::Ref
            } else {
                proof {
                    reveal_strlit("");
                }
                let name = concat(field_text, "");
                assert(field_text@ + ""@ =~= field_text@);
                ObjectGet::Field(name)
            }
        } else {
            ObjectGet::Undefined
        }
    }

    /// The value of a looked-up field: undefined where the object has none.
    pub fn field_or_undefined(&self, found: Option<GValue>) -> (r: GValue)
        ensures
            r == match found {
                Some(v) => v,
                None => GValue { kind: ValueKind::Undefined, value: 0 },
            },
    {
        match found {
            Some(v) => v,
            None => GValue::undefined(),
        }
    }

    /// The `ref` field: the heap reference, as a number.
    pub fn reference(&self, this_value: GValue) -> (r: GValue)
        ensures
            r == (GValue { kind: ValueKind::Number, value: this_value.value }),
    {
        GValue::new(this_value.value, ValueKind::Number)
    }

    /// `this == other`: the same heap reference.
    pub fn equals(&self, this_value: GValue, other: GValue) -> (r: GValue)
        ensures
            r == bool_value(this_value.value == other.value),
    {
        GValue::boolean(this_value.value == other.value)
    }
}


/// Reading a field of an object by name: `fields` lists the field names, `ref` gives the
/// reference, any other name reads the field of that name; a field that is not a string
/// reads nothing.
pub proof fn lemma_object_fields(field: GValue, t: Seq<char>)
    ensures
        field.kind == ValueKind::String ==> (object_get(field, t) == ObjectGetModel::Fields
            <==> t == seq!['f', 'i', 'e', 'l', 'd', 's']),
        field.kind == ValueKind::String ==> (object_get(field, t) == ObjectGetModel::Ref
            <==> t == seq!['r', 'e', 'f']),
        field.kind == ValueKind::String && t != seq!['f', 'i', 'e', 'l', 'd', 's'] && t != seq!['r', 'e', 'f']
            ==> object_get(field, t) == ObjectGetModel::Field(t),
        field.kind != ValueKind::String ==> object_get(field, t) == ObjectGetModel::Undefined,
{
    reveal_strlit("fields");
    reveal_strlit("ref");
    assert("fields"@ =~= seq!['f', 'i', 'e', 'l', 'd', 's']);
    assert("ref"@ =~= seq!['r', 'e', 'f']);
}

} // verus!
