//! `gs.system.Time`: the clock and sleeping.
use vstd::prelude::*;

use crate::stdlib::{method, methods_view, unknown_static_method, unknown_static_text, MethodDescriptor, NativeArg};
use crate::text::same_text;

verus! {

/// What a call of `Time` asks the host to do.
#[derive(Debug, Clone, PartialEq, Eq)]
pub enum TimeCall {
    /// The milliseconds since the Unix epoch.
    Now,
    /// Sleep this many milliseconds.
    Sleep(u64),
}

pub struct TimeModule;

impl TimeModule {
    pub fn class_name(&self) -> (r: &'static str)
        ensures
            r@ == "gs.system.Time"@,
    {
        "gs.system.Time"
    }

    /// `Time` cannot be constructed.
    pub fn constructor(&self) -> (r: Result<(), String>)
        ensures
            r matches Err(e) && e@ == "gs.system.Time is static-only"@,
    {
        Err(String::from_str("gs.system.Time is static-only"))
    }

    pub fn static_methods(&self) -> (r: Vec<MethodDescriptor>)
        ensures
            methods_view(r@) == seq![("now"@, 0i32), ("sleep"@, 1i32)],
    {
        let mut r: Vec<MethodDescriptor> = Vec::new();
        r.push(method("now", 0));
        r.push(method("sleep", 1));
        assert(methods_view(r@) =~= seq![("now"@, 0i32), ("sleep"@, 1i32)]);
        r
    }

    /// `now()`, and `sleep(ms)`, which sleeps `ms` (as `u64`) milliseconds, 0 when the
    /// argument is not a number.
    pub fn call_static(&self, method_name: &str, args: &Vec<NativeArg>) -> (r: Result<TimeCall, String>)
        ensures
            if method_name@ == "now"@ {
                r == Ok::<TimeCall, String>(TimeCall::Now)
            } else if method_name@ == "sleep"@ {
                r == Ok::<TimeCall, String>(TimeCall::Sleep(
                    if args@.len() > 0 && args@[0] is Number { args@[0]->Number_0 as u64 } else { 0u64 },
                ))
            } else {
                r matches Err(e) && e@ == unknown_static_text(method_name@, "gs.system.Time"@)
            },
    {
        proof {
            reveal_strlit("now");
            reveal_strlit("sleep");
        }
        if same_text(method_name, "now") {
            Ok(TimeCall::Now)
        } else if same_text(method_name, "sleep") {
            let ms: u64 = if args.len() > 0 {
                match &args[0] {
                    NativeArg::Number(n) => *n as u64,
                    _ => 0,
                }
            } else {
                0
            };
            Ok(TimeCall::Sleep(ms))
        } else {
            Err(unknown_static_method(method_name, "gs.system.Time"))
        }
    }
}

} // verus!
