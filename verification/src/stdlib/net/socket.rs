//! `gs.net.Socket`: a client connection.
use vstd::prelude::*;

use crate::stdlib::{unknown_static_method, unknown_static_text, MethodDescriptor, NativeArg};
use crate::text::{concat, decimal, int_to_text};

verus! {

/// The text of a socket address: `host:port`.
pub open spec fn address_text(host: Seq<char>, port: u16) -> Seq<char> {
    host + ":"@ + decimal(port as int)
}

pub fn address(host: &str, port: u16) -> (r: String)
    ensures
        r@ == address_text(host@, port),
{
    let a = concat(host, ":");
    let p = int_to_text(port as i32);
    let r = concat(a.as_str(), p.as_str());
    assert(r@ =~= address_text(host@, port));
    r
}

pub struct SocketModule;

impl SocketModule {
    pub fn class_name(&self) -> (r: &'static str)
        ensures
            r@ == "gs.net.Socket"@,
    {
        "gs.net.Socket"
    }

    /// `new Socket(host, port)`: the address to connect to; the port is taken modulo
    /// 2^16.
    pub fn constructor(&self, args: &Vec<NativeArg>) -> (r: Result<String, String>)
        ensures
            match r {
                Ok(a) => args@.len() > 1 && (args@[0] matches NativeArg::String(h)
                    && (args@[1] matches NativeArg::Number(p) && a@ == address_text(h@, p as u16))),
                Err(e) => if !(args@.len() > 0 && args@[0] is String) {
                    e@ == "Socket: first argument must be a host string"@
                } else {
                    !(args@.len() > 1 && args@[1] is Number) && e@ == "Socket: second argument must be a port number"@
                },
            },
    {
        let host: &String = if args.len() > 0 {
            match &args[0] {
                NativeArg::String(h) => h,
                _ => {
                    return Err(String::from_str("Socket: first argument must be a host string"));
                },
            }
        } else {
            return Err(String::from_str("Socket: first argument must be a host string"));
        };
        let port: u16 = if args.len() > 1 {
            match &args[1] {
                NativeArg::Number(p) => *p as u16,
                _ => {
                    return Err(String::from_str("Socket: second argument must be a port number"));
                },
            }
        } else {
            return Err(String::from_str("Socket: second argument must be a port number"));
        };
        Ok(address(host.as_str(), port))
    }

    pub fn static_methods(&self) -> (r: Vec<MethodDescriptor>)
        ensures
            r@.len() == 0,
    {
        Vec::new()
    }

    pub fn call_static(&self, method_name: &str) -> (r: String)
        ensures
            r@ == unknown_static_text(method_name@, "gs.net.Socket"@),
    {
        unknown_static_method(method_name, "gs.net.Socket")
    }
}


/// A socket address is the host, a colon, and the port's decimal digits.
pub proof fn lemma_address_text(host: Seq<char>, port: u16)
    ensures
        address_text(host, port) == host + seq![':'] + decimal(port as int),
{
    reveal_strlit(":");
    assert(":"@ =~= seq![':']);
}

} // verus!
