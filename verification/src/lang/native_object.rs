//! Objects that native modules hand to GScript.
use vstd::prelude::*;

use crate::lang::value::{GValue, ValueKind};

verus! {

/// A GScript function that calls the method `method_name` of the native object at
/// heap reference `obj_ref` with `arg_count` arguments.
pub struct NativeInstanceMethodWrapper {
    obj_ref: i32,
    method_name: String,
    arg_count: i32,
}

impl View for NativeInstanceMethodWrapper {
    /// The object's heap reference, the method's name, and its number of arguments.
    type V = (i32, Seq<char>, i32);

    closed spec fn view(&self) -> (i32, Seq<char>, i32) {
        (self.obj_ref, self.method_name@, self.arg_count)
    }
}

impl NativeInstanceMethodWrapper {
    pub fn new(obj_ref: i32, method_name: String, arg_count: i32) -> (r: NativeInstanceMethodWrapper)
        ensures
            r@ == (obj_ref, method_name@, arg_count),
    {
        NativeInstanceMethodWrapper { obj_ref, method_name, arg_count }
    }

    pub fn obj_ref(&self) -> (r: i32)
        ensures
            r == self@.0,
    {
        self.obj_ref
    }

    pub fn method_name(&self) -> (r: &str)
        ensures
            r@ == self@.1,
    {
        self.method_name.as_str()
    }

    pub fn argument_count(&self) -> (r: i32)
        ensures
            r == self@.2,
    {
        self.arg_count
    }

    /// The arguments in the order the native method takes them: the virtual machine
    /// hands them over last first.
    pub fn native_order<T>(&self, arguments: Vec<T>) -> (r: Vec<T>)
        ensures
            r@ == arguments@.reverse(),
    {
        let mut r: Vec<T> = Vec::new();
        let mut args = arguments;
        let ghost orig = args@;
        while args.len() > 0
            invariant
                r@ + args@.reverse() == orig.reverse(),
            decreases args.len(),
        {
            let ghost before = args@;
            let x = args.pop().unwrap();
            assert(before.reverse() =~= seq![x] + args@.reverse());
            r.push(x);
            assert(r@ + args@.reverse() =~= orig.reverse());
        }
        assert(args@.reverse() =~= Seq::<T>::empty());
        assert(r@ =~= orig.reverse());
        r
    }
}

/// An array of bytes that a native method returned.
pub struct ByteArrayInstance {
    data: Vec<u8>,
}

impl View for ByteArrayInstance {
    type V = Seq<u8>;

    closed spec fn view(&self) -> Seq<u8> {
        self.data@
    }
}

impl ByteArrayInstance {
    pub fn new(data: Vec<u8>) -> (r: ByteArrayInstance)
        ensures
            r@ == data@,
    {
        ByteArrayInstance { data }
    }

    pub fn get_bytes(&self) -> (r: &[u8])
        ensures
            r@ == self@,
    {
        self.data.as_slice()
    }
}

/// How a GScript value goes to a native method.
#[derive(Debug, Clone, PartialEq, Eq)]
pub enum ToNative {
    /// The text of the string in the pool at this reference.
    Text(i32),
    Number(i32),
    Boolean(bool),
    Undefined,
    /// The native object on the heap at this reference (its bytes where it is a byte
    /// array, otherwise a copy of its instance; undefined where none is there).
    Object(i32),
}

/// How a value of each type goes to a native method: a boolean is true when its payload
/// is positive, and a value of any type not listed passes its payload as a number.
pub open spec fn to_native(v: GValue) -> ToNative {
    match v.kind {
        ValueKind::String => ToNative::Text(v.value),
        ValueKind::Number => ToNative::Number(v.value),
        ValueKind::Boolean => ToNative::Boolean(v.value > 0),
        ValueKind::Undefined => ToNative::Undefined,
        ValueKind::NativeObject => ToNative::Object(v.value),
        _ => ToNative::Number(v.value),
    }
}

/// What a GScript value hands to a native method.
pub fn marshal_value_to_native(v: GValue) -> (r: ToNative)
    ensures
        r == to_native(v),
{
    match v.kind {
        ValueKind::String => ToNative::Text(v.value),
        ValueKind::Number => ToNative::Number(v.value),
        ValueKind::Boolean => ToNative::Boolean(v.value > 0),
        ValueKind::Undefined => ToNative::Undefined,
        ValueKind::NativeObject => ToNative::Object(v.value),
        _ => ToNative::Number(v.value),
    }
}


/// A boolean goes to a native method as true exactly when its payload is positive, so
/// the booleans `true` and `false` arrive as themselves; numbers and strings keep their
/// payload.
pub proof fn lemma_to_native(v: GValue, b: bool)
    ensures
        v.kind == ValueKind::Boolean ==> to_native(v) == ToNative::Boolean(v.value > 0),
        to_native(GValue { kind: ValueKind::Boolean, value: if b { 1i32 } else { 0i32 } }) == ToNative::Boolean(b),
        v.kind == ValueKind::Number ==> to_native(v) == ToNative::Number(v.value),
        v.kind == ValueKind::String ==> to_native(v) == ToNative::Text(v.value),
        v.kind == ValueKind::Undefined ==> to_native(v) == ToNative::Undefined,
{
}

} // verus!
