//! `gs.system.Environment`: environment variables.
use vstd::prelude::*;

use crate::stdlib::{method, methods_view, unknown_static_method, unknown_static_text, MethodDescriptor, NativeArg};
use crate::text::{concat, same_text};

verus! {

/// What a call of `Environment` asks the host to do.
#[derive(Debug, Clone, PartialEq, Eq)]
pub enum EnvironmentCall {
    /// Read the variable of this name (undefined when it is not set).
    GetVar(String),
    /// Set the variable to the value.
    SetVar(String, String),
}

/// The text of a string argument.
fn string_arg(args: &Vec<NativeArg>, i: usize) -> (r: Option<String>)
    ensures
        match r {
            Some(s) => i < args@.len() && (args@[i as int] matches NativeArg::String(a) && s@ == a@),
            None => !(i < args@.len() && args@[i as int] is String),
        },
{
    if i < args.len() {
        match &args[i] {
            NativeArg::String(s) => {
                proof {
                    reveal_strlit("");
                }
                let t = concat(s.as_str(), "");
                assert(t@ =~= s@);
                Some(t)
            },
            _ => None,
        }
    } else {
        None
    }
}

pub struct EnvironmentModule;

impl EnvironmentModule {
    pub fn class_name(&self) -> (r: &'static str)
        ensures
            r@ == "gs.system.Environment"@,
    {
        "gs.system.Environment"
    }

    /// `Environment` cannot be constructed.
    pub fn constructor(&self) -> (r: Result<(), String>)
        ensures
            r matches Err(e) && e@ == "gs.system.Environment is static-only"@,
    {
        Err(String::from_str("gs.system.Environment is static-only"))
    }

    pub fn static_methods(&self) -> (r: Vec<MethodDescriptor>)
        ensures
            methods_view(r@) == seq![("get"@, 1i32), ("set"@, 2i32)],
    {
        let mut r: Vec<MethodDescriptor> = Vec::new();
        r.push(method("get", 1));
        r.push(method("set", 2));
        assert(methods_view(r@) =~= seq![("get"@, 1i32), ("set"@, 2i32)]);
        r
    }

    /// `get(key)` and `set(key, value)`, whose arguments must be strings.
    pub fn call_static(&self, method_name: &str, args: &Vec<NativeArg>) -> (r: Result<EnvironmentCall, String>)
        ensures
            if method_name@ == "get"@ {
                match r {
                    Ok(EnvironmentCall::GetVar(k)) => args@.len() > 0 && (args@[0] matches NativeArg::String(a) && k@ == a@),
                    Err(e) => !(args@.len() > 0 && args@[0] is String) && e@ == "Environment.get: expected String key"@,
                    _ => false,
                }
            } else if method_name@ == "set"@ {
                match r {
                    Ok(EnvironmentCall::SetVar(k, v)) => args@.len() > 1 && (args@[0] matches NativeArg::String(a)
                        && k@ == a@) && (args@[1] matches NativeArg::String(b) && v@ == b@),
                    Err(e) => if !(args@.len() > 0 && args@[0] is String) {
                        e@ == "Environment.set: expected String key"@
                    } else {
                        !(args@.len() > 1 && args@[1] is String) && e@ == "Environment.set: expected String value"@
                    },
                    _ => false,
                }
            } else {
                r matches Err(e) && e@ == unknown_static_text(method_name@, "gs.system.Environment"@)
            },
    {
        proof {
            reveal_strlit("get");
            reveal_strlit("set");
        }
        if same_text(method_name, "get") {
            match string_arg(args, 0) {
                Some(k) => Ok(EnvironmentCall::GetVar(k)),
                None => Err(String::from_str("Environment.get: expected String key")),
            }
        } else if same_text(method_name, "set") {
            let key = match string_arg(args, 0) {
                Some(k) => k,
                None => {
                    return Err(String::from_str("Environment.set: expected String key"));
                },
            };
            match string_arg(args, 1) {
                Some(v) => Ok(EnvironmentCall::SetVar(key, v)),
                None => Err(String::from_str("Environment.set: expected String value")),
            }
        } else {
            Err(unknown_static_method(method_name, "gs.system.Environment"))
        }
    }
}

} // verus!
