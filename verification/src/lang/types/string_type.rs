//! `String`: a reference into the virtual machine's string pool.
use vstd::prelude::*;

use crate::lang::value::{bool_value, GValue, Operation, ValueKind};
use crate::text::{concat, decimal, int_to_text, push_char, same_text};
use vstd::utf8::{encode_utf8, is_char_boundary};
use vstd::string::StringSliceAdditionalSpecFns;

verus! {

/// The operations that `String` supports.
pub open spec fn string_supports(op: Operation) -> bool {
    op == Operation::Add || op == Operation::Get || op == Operation::Eql
}

/// The text that `+` appends to a string for the other operand: a string's own
/// text, a number's digits, `true` or `false` for a boolean, nothing otherwise.
pub open spec fn operand_text(other: GValue, other_text: Seq<char>) -> Seq<char> {
    match other.kind {
        ValueKind::String => other_text,
        ValueKind::Number => decimal(other.value as int),
        ValueKind::Boolean => if other.value > 0 { "true"@ } else { "false"@ },
        _ => Seq::empty(),
    }
}

/// What reading a field of a string yields.
#[derive(Debug, Clone, PartialEq, Eq)]
pub enum StringGet {
    /// The character at this byte index, as a new string (undefined past the end).
    CharAt(i32),
    /// The text in lower case, as a new string.
    Lowercase,
    /// The length of the text in bytes.
    Length,
    /// The bytes of the text.
    Bytes,
    /// The pool reference itself, as a number.
    Ref,
    Undefined,
}

/// What reading the field `field` (whose text is `field_text` when it is a string) of a
/// string yields.
pub open spec fn string_get(field: GValue, field_text: Seq<char>) -> StringGet {
    if field.kind == ValueKind::Number {
        StringGet::CharAt(field.value)
    } else if field.kind == ValueKind::String {
        if field_text == "lowercase"@ {
            StringGet::Lowercase
        } else if field_text == "length"@ {
            StringGet::Length
        } else if field_text == "bytes"@ {
            StringGet::Bytes
        } else if field_text == "ref"@ {
            StringGet::Ref
        } else {
            StringGet::Undefined
        }
    } else {
        StringGet::Undefined
    }
}

/// The lower-case form of a text, as `str::to_lowercase` computes it.
pub uninterp spec fn lowercase(s: Seq<char>) -> Seq<char>;

/// `str::to_lowercase`: the lower-case form of the text, by Unicode's rules.
#[verifier::external_body]
fn to_lowercase(s: &str) -> (r: String)
    ensures
        r@ == lowercase(s@),
{
    s.to_lowercase()
}

#[derive(Debug, Clone, Copy)]
pub struct StringType;

impl StringType {
    pub fn name(&self) -> (r: &'static str)
        ensures
            r@ == "String"@,
    {
        "String"
    }

    pub fn supports_operation(&self, op: Operation) -> (r: bool)
        ensures
            r == string_supports(op),
    {
        op == Operation::Add || op == Operation::Get || op == Operation::Eql
    }

    /// Whether a value of type `other` is a string.
    pub fn is_instance(&self, other: ValueKind) -> (r: bool)
        ensures
            r == (other == ValueKind::String),
    {
        other == ValueKind::String
    }

    /// The text of `this + other`: the string's text followed by the other operand's
    /// text (`other_text` is the pool text of `other` when it is a string).
    pub fn concatenate(&self, this_text: &str, other: GValue, other_text: &str) -> (r: String)
        ensures
            r@ == this_text@ + operand_text(other, other_text@),
    {
        let appended: String = match other.kind {
            ValueKind::String => concat(other_text, ""),
            ValueKind::Number => int_to_text(other.value),
            ValueKind::Boolean => {
                if other.value > 0 {
                    String::from_str("true")
                } else {
                    String::from_str("false")
                }
            },
            _ => String::new(),
        };
        proof {
            reveal_strlit("");
            reveal_strlit("true");
            reveal_strlit("false");
        }
        assert(other_text@ + ""@ =~= other_text@);
        concat(this_text, appended.as_str())
    }

    /// What reading the field `field` of a string yields.
    pub fn get_action(&self, field: GValue, field_text: &str) -> (r: StringGet)
        ensures
            r == string_get(field, field_text@),
    {
        if field.kind == ValueKind::Number {
            StringGet::CharAt(field.value)
        } else if field.kind == ValueKind::String {
            if same_text(field_text, "lowercase") {
                StringGet::Lowercase
            } else if same_text(field_text, "length") {
                StringGet::Length
            } else if same_text(field_text, "bytes") {
                StringGet::Bytes
            } else if same_text(field_text, "ref") {
                StringGet::Ref
            } else {
                StringGet::Undefined
            }
        } else {
            StringGet::Undefined
        }
    }

    /// The text of the `lowercase` field.
    pub fn lowercase_text(&self, text: &str) -> (r: String)
        ensures
            r@ == lowercase(text@),
    {
        to_lowercase(text)
    }

    /// The `length` field: the number of bytes of the text.
    pub fn length(&self, text: &str) -> (r: GValue)
        ensures
            r.kind == ValueKind::Number,
            r.value == (text.spec_bytes().len() as usize) as i32,
    {
        GValue::new(text.len() as i32, ValueKind::Number)
    }

    /// The field at a number `index`: the character that starts at that byte of the
    /// text, as a new text; nothing for an index outside the text. An index inside
    /// the text must fall on a character boundary.
    pub fn char_at(&self, text: &str, index: i32) -> (r: Option<String>)
        requires
            text.spec_bytes().len() <= usize::MAX,
            index < 0 || index >= text.spec_bytes().len()
                || is_char_boundary(text.spec_bytes(), index as int),
        ensures
            r is None <==> (index < 0 || index >= text.spec_bytes().len()),
            r matches Some(t) ==> t@ == seq![
                vstd::utf8::decode_utf8(text.spec_bytes().subrange(index as int, text.spec_bytes().len() as int))[0],
            ],
    {
        if index < 0 {
            return None;
        }
        let idx: usize = index as usize;
        if idx >= text.len() {
            return None;
        }
        let (_, rest) = text.split_at(idx);
        proof {
            broadcast use vstd::utf8::encode_utf8_decode_utf8;
            assert(rest.spec_bytes().len() > 0);
            assert(rest@.len() > 0) by {
                if rest@.len() == 0 {
                    assert(encode_utf8(rest@) =~= Seq::<u8>::empty());
                }
            }
            assert(vstd::utf8::decode_utf8(rest.spec_bytes()) == rest@);
        }
        let mut it = rest.chars();
        proof {
            broadcast use vstd::string::axiom_spec_iter;
        }
        let next = it.next();
        proof {
            broadcast use vstd::string::next_postcondition;
        }
        match next {
            Some(c) => {
                let mut t = String::new();
                push_char(&mut t, c);
                assert(t@ =~= seq![c]);
                Some(t)
            },
            None => {
                assert(false);
                None
            },
        }
    }

    /// The `ref` field: the pool reference, as a number.
    pub fn reference(&self, this_value: GValue) -> (r: GValue)
        ensures
            r == (GValue { kind: ValueKind::Number, value: this_value.value }),
    {
        GValue::new(this_value.value, ValueKind::Number)
    }

    /// `this == other`: the same pool reference.
    pub fn equals(&self, this_value: GValue, other: GValue) -> (r: GValue)
        ensures
            r == bool_value(this_value.value == other.value),
    {
        GValue::boolean(this_value.value == other.value)
    }
}


/// Reading a field of a string: a number reads the character at that index; the names
/// `lowercase`, `length`, `bytes` and `ref` read those properties, each a different one;
/// any other name or field reads nothing. Adding to a string appends a boolean as `true`
/// or `false`, a number as its decimal digits, a string as its text.
pub proof fn lemma_string_fields(field: GValue, t: Seq<char>, other: GValue, other_text: Seq<char>)
    ensures
        field.kind == ValueKind::Number ==> string_get(field, t) == StringGet::CharAt(field.value),
        field.kind == ValueKind::String ==> (string_get(field, t) == StringGet::Lowercase
            <==> t == seq!['l', 'o', 'w', 'e', 'r', 'c', 'a', 's', 'e']),
        field.kind == ValueKind::String ==> (string_get(field, t) == StringGet::Length
            <==> t == seq!['l', 'e', 'n', 'g', 't', 'h']),
        field.kind == ValueKind::String ==> (string_get(field, t) == StringGet::Bytes
            <==> t == seq!['b', 'y', 't', 'e', 's']),
        field.kind == ValueKind::String ==> (string_get(field, t) == StringGet::Ref
            <==> t == seq!['r', 'e', 'f']),
        !(field.kind == ValueKind::Number || field.kind == ValueKind::String) ==> string_get(field, t) == StringGet::Undefined,
        other.kind == ValueKind::Boolean ==> operand_text(other, other_text)
            == if other.value > 0 { seq!['t', 'r', 'u', 'e'] } else { seq!['f', 'a', 'l', 's', 'e'] },
        other.kind == ValueKind::Number ==> operand_text(other, other_text) == decimal(other.value as int),
        other.kind == ValueKind::String ==> operand_text(other, other_text) == other_text,
{
    reveal_strlit("lowercase");
    reveal_strlit("length");
    reveal_strlit("bytes");
    reveal_strlit("ref");
    reveal_strlit("true");
    reveal_strlit("false");
    assert("lowercase"@ =~= seq!['l', 'o', 'w', 'e', 'r', 'c', 'a', 's', 'e']);
    assert("length"@ =~= seq!['l', 'e', 'n', 'g', 't', 'h']);
    assert("bytes"@ =~= seq!['b', 'y', 't', 'e', 's']);
    assert("ref"@ =~= seq!['r', 'e', 'f']);
    assert("true"@ =~= seq!['t', 'r', 'u', 'e']);
    assert("false"@ =~= seq!['f', 'a', 'l', 's', 'e']);
}

} // verus!
