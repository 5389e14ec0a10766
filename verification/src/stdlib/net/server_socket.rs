//! `gs.net.ServerSocket`: a listening socket.
use vstd::prelude::*;

use crate::stdlib::net::socket::{address, address_text};
use crate::stdlib::{
    method, methods_view, unknown_method, unknown_method_text, unknown_static_method, unknown_static_text,
    MethodDescriptor, NativeArg,
};
use crate::text::same_text;

verus! {

/// What a call on a server socket asks the host to do.
#[derive(Debug, Clone, PartialEq, Eq)]
pub enum ServerSocketCall {
    /// Wait for a connection.
    Accept,
    /// Nothing: the listener closes when it is dropped.
    Close,
}

pub struct ServerSocketModule;

impl ServerSocketModule {
    pub fn class_name(&self) -> (r: &'static str)
        ensures
            r@ == "gs.net.ServerSocket"@,
    {
        "gs.net.ServerSocket"
    }

    /// `new ServerSocket(port)`: the address to listen on, on every interface; port 8080
    /// when no number is given, and the port taken modulo 2^16.
    pub fn constructor(&self, args: &Vec<NativeArg>) -> (r: String)
        ensures
            r@ == address_text("0.0.0.0"@, if args@.len() > 0 && args@[0] is Number {
                (args@[0]->Number_0) as u16
            } else {
                8080u16
            }),
    {
        let port: u16 = if args.len() > 0 {
            match &args[0] {
                NativeArg::Number(p) => *p as u16,
                _ => 8080,
            }
        } else {
            8080
        };
        address("0.0.0.0", port)
    }

    pub fn static_methods(&self) -> (r: Vec<MethodDescriptor>)
        ensures
            r@.len() == 0,
    {
        Vec::new()
    }

    pub fn call_static(&self, method_name: &str) -> (r: String)
        ensures
            r@ == unknown_static_text(method_name@, "gs.net.ServerSocket"@),
    {
        unknown_static_method(method_name, "gs.net.ServerSocket")
    }
}

/// The methods of a server socket.
pub struct ServerSocketMethods;

impl ServerSocketMethods {
    pub fn instance_type(&self) -> (r: &'static str)
        ensures
            r@ == "ServerSocket"@,
    {
        "ServerSocket"
    }

    pub fn instance_methods(&self) -> (r: Vec<MethodDescriptor>)
        ensures
            methods_view(r@) == seq![("accept"@, 0i32), ("close"@, 0i32)],
    {
        let mut r: Vec<MethodDescriptor> = Vec::new();
        r.push(method("accept", 0));
        r.push(method("close", 0));
        assert(methods_view(r@) =~= seq![("accept"@, 0i32), ("close"@, 0i32)]);
        r
    }

    pub fn call_method(&self, method_name: &str) -> (r: Result<ServerSocketCall, String>)
        ensures
            if method_name@ == "accept"@ {
                r == Ok::<ServerSocketCall, String>(ServerSocketCall::Accept)
            } else if method_name@ == "close"@ {
                r == Ok::<ServerSocketCall, String>(ServerSocketCall::Close)
            } else {
                r matches Err(e) && e@ == unknown_method_text(method_name@, "ServerSocket"@)
            },
    {
        proof {
            reveal_strlit("accept");
            reveal_strlit("close");
        }
        if same_text(method_name, "accept") {
            Ok(ServerSocketCall::Accept)
        } else if same_text(method_name, "close") {
            Ok(ServerSocketCall::Close)
        } else {
            Err(unknown_method(method_name, "ServerSocket"))
        }
    }
}

} // verus!
