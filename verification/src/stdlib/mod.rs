//! The native modules of the standard library: their class names, the methods they
//! offer, and how each call is checked and dispatched. The operating-system work that a
//! call asks for is done by the program that hosts the virtual machine.
pub mod io;
pub mod net;
pub mod system;

use vstd::prelude::*;

use crate::text::concat;

verus! {

/// A value handed to or returned by a native method.
#[derive(Debug, Clone, PartialEq, Eq)]
pub enum NativeArg {
    Undefined,
    Number(i32),
    Boolean(bool),
    String(String),
    Bytes(Vec<u8>),
    /// An object made by a native module.
    Instance,
}

/// A method that a native module or object offers: its name and number of arguments.
#[derive(Debug, Clone, PartialEq, Eq)]
pub struct MethodDescriptor {
    pub name: String,
    pub arg_count: i32,
}

/// The methods of a list, seen as names and argument counts.
pub open spec fn methods_view(v: Seq<MethodDescriptor>) -> Seq<(Seq<char>, i32)> {
    v.map_values(|m: MethodDescriptor| (m.name@, m.arg_count))
}

pub fn method(name: &str, arg_count: i32) -> (r: MethodDescriptor)
    ensures
        r.name@ == name@,
        r.arg_count == arg_count,
{
    MethodDescriptor { name: name.to_owned(), arg_count }
}

/// `Unknown static method <method> on <class>`.
pub open spec fn unknown_static_text(method: Seq<char>, class: Seq<char>) -> Seq<char> {
    "Unknown static method "@ + method + " on "@ + class
}

/// `Unknown method <method> on <type>`.
pub open spec fn unknown_method_text(method: Seq<char>, owner: Seq<char>) -> Seq<char> {
    "Unknown method "@ + method + " on "@ + owner
}

pub fn unknown_static_method(method: &str, class: &str) -> (r: String)
    ensures
        r@ == unknown_static_text(method@, class@),
{
    let a = concat("Unknown static method ", method);
    let b = concat(a.as_str(), " on ");
    let r = concat(b.as_str(), class);
    assert(r@ =~= unknown_static_text(method@, class@));
    r
}

pub fn unknown_method(method: &str, owner: &str) -> (r: String)
    ensures
        r@ == unknown_method_text(method@, owner@),
{
    let a = concat("Unknown method ", method);
    let b = concat(a.as_str(), " on ");
    let r = concat(b.as_str(), owner);
    assert(r@ =~= unknown_method_text(method@, owner@));
    r
}


/// The error for an unknown method names the method and then its class or type:
/// `Unknown static method <m> on <class>` and `Unknown method <m> on <type>`.
pub proof fn lemma_unknown_method_texts(m: Seq<char>, owner: Seq<char>)
    ensures
        unknown_static_text(m, owner) == seq!['U', 'n', 'k', 'n', 'o', 'w', 'n', ' ', 's', 't', 'a', 't', 'i', 'c', ' ',
            'm', 'e', 't', 'h', 'o', 'd', ' '] + m + seq![' ', 'o', 'n', ' '] + owner,
        unknown_method_text(m, owner) == seq!['U', 'n', 'k', 'n', 'o', 'w', 'n', ' ', 'm', 'e', 't', 'h', 'o', 'd', ' ']
            + m + seq![' ', 'o', 'n', ' '] + owner,
{
    reveal_strlit("Unknown static method ");
    reveal_strlit("Unknown method ");
    reveal_strlit(" on ");
    assert("Unknown static method "@ =~= seq!['U', 'n', 'k', 'n', 'o', 'w', 'n', ' ', 's', 't', 'a', 't', 'i', 'c', ' ',
        'm', 'e', 't', 'h', 'o', 'd', ' ']);
    assert("Unknown method "@ =~= seq!['U', 'n', 'k', 'n', 'o', 'w', 'n', ' ', 'm', 'e', 't', 'h', 'o', 'd', ' ']);
    assert(" on "@ =~= seq![' ', 'o', 'n', ' ']);
}

} // verus!
