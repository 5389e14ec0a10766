//! `gs.system.Runtime`: printing.
use vstd::prelude::*;

use crate::stdlib::{method, methods_view, unknown_static_method, unknown_static_text, MethodDescriptor, NativeArg};
use crate::text::{concat, decimal, int_to_text, same_text};

verus! {

/// What a call of `Runtime` asks the host to do.
#[derive(Debug, Clone, PartialEq, Eq)]
pub enum RuntimeCall {
    /// Print this line.
    PrintLine(String),
    /// Print the first argument in its debug form.
    PrintDebug,
    /// Nothing to print.
    Nothing,
}

/// The line that `print` writes for its argument.
pub open spec fn print_text(a: NativeArg) -> Option<Seq<char>> {
    match a {
        NativeArg::String(s) => Some(s@),
        NativeArg::Number(n) => Some(decimal(n as int)),
        NativeArg::Boolean(b) => Some(if b { "true"@ } else { "false"@ }),
        NativeArg::Undefined => Some("undefined"@),
        _ => None,
    }
}

/// `print` writes a boolean as `true` when it holds and as `false` when it does not, so
/// the two booleans print differently; a number prints as its decimal digits, a string as
/// its own text and undefined as `undefined`.
pub proof fn lemma_print_text(b: bool, n: i32, t: String)
    ensures
        print_text(NativeArg::Boolean(b)) == Some(if b { seq!['t', 'r', 'u', 'e'] } else { seq!['f', 'a', 'l', 's', 'e'] }),
        print_text(NativeArg::Boolean(true)) != print_text(NativeArg::Boolean(false)),
        print_text(NativeArg::Number(n)) == Some(decimal(n as int)),
        print_text(NativeArg::String(t)) == Some(t@),
        print_text(NativeArg::Undefined) == Some(seq!['u', 'n', 'd', 'e', 'f', 'i', 'n', 'e', 'd']),
{
    reveal_strlit("true");
    reveal_strlit("false");
    reveal_strlit("undefined");
    assert("true"@ =~= seq!['t', 'r', 'u', 'e']);
    assert("false"@ =~= seq!['f', 'a', 'l', 's', 'e']);
    assert("undefined"@ =~= seq!['u', 'n', 'd', 'e', 'f', 'i', 'n', 'e', 'd']);
}

pub struct RuntimeModule;

impl RuntimeModule {
    pub fn class_name(&self) -> (r: &'static str)
        ensures
            r@ == "gs.system.Runtime"@,
    {
        "gs.system.Runtime"
    }

    /// `Runtime` cannot be constructed.
    pub fn constructor(&self) -> (r: Result<(), String>)
        ensures
            r matches Err(e) && e@ == "gs.system.Runtime is static-only"@,
    {
        Err(String::from_str("gs.system.Runtime is static-only"))
    }

    pub fn static_methods(&self) -> (r: Vec<MethodDescriptor>)
        ensures
            methods_view(r@) == seq![("print"@, 1i32)],
    {
        let mut r: Vec<MethodDescriptor> = Vec::new();
        r.push(method("print", 1));
        assert(methods_view(r@) =~= seq![("print"@, 1i32)]);
        r
    }

    /// `print(x)`: a line with `x`'s text; nothing without an argument.
    pub fn call_static(&self, method_name: &str, args: &Vec<NativeArg>) -> (r: Result<RuntimeCall, String>)
        ensures
            method_name@ == "print"@ ==> (r matches Ok(c) && (
                if args@.len() == 0 { c == RuntimeCall::Nothing } else {
                    match print_text(args@[0]) {
                        Some(t) => (c matches RuntimeCall::PrintLine(l) && l@ == t),
                        None => c == RuntimeCall::PrintDebug,
                    }
                })),
            method_name@ != "print"@ ==> (r matches Err(e) && e@ == unknown_static_text(method_name@, "gs.system.Runtime"@)),
    {
        proof {
            reveal_strlit("print");
        }
        if same_text(method_name, "print") {
            if args.len() == 0 {
                return Ok(RuntimeCall::Nothing);
            }
            proof {
                reveal_strlit("");
            }
            match &args[0] {
                NativeArg::String(s) => {
                    let l = concat(s.as_str(), "");
                    assert(l@ =~= s@);
                    Ok(RuntimeCall::PrintLine(l))
                },
                NativeArg::Number(n) => Ok(RuntimeCall::PrintLine(int_to_text(*n))),
                NativeArg::Boolean(b) => Ok(RuntimeCall::PrintLine(
                    if *b { String::from_str("true") } else { String::from_str("false") },
                )),
                NativeArg::Undefined => Ok(RuntimeCall::PrintLine(String::from_str("undefined"))),
                _ => Ok(RuntimeCall::PrintDebug),
            }
        } else {
            Err(unknown_static_method(method_name, "gs.system.Runtime"))
        }
    }
}

} // verus!
