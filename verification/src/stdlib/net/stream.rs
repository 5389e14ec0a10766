//! The streams of a TCP connection.
use vstd::prelude::*;

use crate::stdlib::{
    method, methods_view, unknown_method, unknown_method_text, unknown_static_method, unknown_static_text,
    MethodDescriptor, NativeArg,
};
use crate::text::same_text;

verus! {

/// `gs.net.TcpStream`: made by `ServerSocket.accept()`.
pub struct TcpStreamModule;

impl TcpStreamModule {
    pub fn class_name(&self) -> (r: &'static str)
        ensures
            r@ == "gs.net.TcpStream"@,
    {
        "gs.net.TcpStream"
    }

    pub fn constructor(&self) -> (r: Result<(), String>)
        ensures
            r matches Err(e) && e@ == "gs.net.TcpStream cannot be constructed directly; use ServerSocket.accept()"@,
    {
        Err(String::from_str("gs.net.TcpStream cannot be constructed directly; use ServerSocket.accept()"))
    }

    pub fn static_methods(&self) -> (r: Vec<MethodDescriptor>)
        ensures
            r@.len() == 0,
    {
        Vec::new()
    }

    pub fn call_static(&self, method_name: &str) -> (r: String)
        ensures
            r@ == unknown_static_text(method_name@, "gs.net.TcpStream"@),
    {
        unknown_static_method(method_name, "gs.net.TcpStream")
    }
}

/// What a call on a connection asks the host to do.
#[derive(Debug, Clone, PartialEq, Eq)]
pub enum TcpStreamCall {
    GetInputStream,
    GetOutputStream,
    /// Shut both directions down.
    Close,
}

/// The methods of a connection.
pub struct TcpStreamMethods;

impl TcpStreamMethods {
    pub fn instance_type(&self) -> (r: &'static str)
        ensures
            r@ == "TcpStream"@,
    {
        "TcpStream"
    }

    pub fn instance_methods(&self) -> (r: Vec<MethodDescriptor>)
        ensures
            methods_view(r@) == seq![("getInputStream"@, 0i32), ("getOutputStream"@, 0i32), ("close"@, 0i32)],
    {
        let mut r: Vec<MethodDescriptor> = Vec::new();
        r.push(method("getInputStream", 0));
        r.push(method("getOutputStream", 0));
        r.push(method("close", 0));
        assert(methods_view(r@) =~= seq![("getInputStream"@, 0i32), ("getOutputStream"@, 0i32), ("close"@, 0i32)]);
        r
    }

    pub fn call_method(&self, method_name: &str) -> (r: Result<TcpStreamCall, String>)
        ensures
            if method_name@ == "getInputStream"@ {
                r == Ok::<TcpStreamCall, String>(TcpStreamCall::GetInputStream)
            } else if method_name@ == "getOutputStream"@ {
                r == Ok::<TcpStreamCall, String>(TcpStreamCall::GetOutputStream)
            } else if method_name@ == "close"@ {
                r == Ok::<TcpStreamCall, String>(TcpStreamCall::Close)
            } else {
                r matches Err(e) && e@ == unknown_method_text(method_name@, "TcpStream"@)
            },
    {
        proof {
            reveal_strlit("getInputStream");
            reveal_strlit("getOutputStream");
            reveal_strlit("close");
        }
        if same_text(method_name, "getInputStream") {
            Ok(TcpStreamCall::GetInputStream)
        } else if same_text(method_name, "getOutputStream") {
            Ok(TcpStreamCall::GetOutputStream)
        } else if same_text(method_name, "close") {
            Ok(TcpStreamCall::Close)
        } else {
            Err(unknown_method(method_name, "TcpStream"))
        }
    }
}

/// `gs.net.InputStream`: the reading side of a connection.
pub struct InputStreamModule;

impl InputStreamModule {
    pub fn class_name(&self) -> (r: &'static str)
        ensures
            r@ == "gs.net.InputStream"@,
    {
        "gs.net.InputStream"
    }

    pub fn constructor(&self) -> (r: Result<(), String>)
        ensures
            r matches Err(e) && e@ == "gs.net.InputStream cannot be constructed directly"@,
    {
        Err(String::from_str("gs.net.InputStream cannot be constructed directly"))
    }

    pub fn static_methods(&self) -> (r: Vec<MethodDescriptor>)
        ensures
            r@.len() == 0,
    {
        Vec::new()
    }

    pub fn call_static(&self, method_name: &str) -> (r: String)
        ensures
            r@ == unknown_static_text(method_name@, "gs.net.InputStream"@),
    {
        unknown_static_method(method_name, "gs.net.InputStream")
    }
}

/// The methods of an input stream: none of its own (a buffered reader reads it).
pub struct InputStreamMethods;

impl InputStreamMethods {
    pub fn instance_type(&self) -> (r: &'static str)
        ensures
            r@ == "InputStream"@,
    {
        "InputStream"
    }

    pub fn instance_methods(&self) -> (r: Vec<MethodDescriptor>)
        ensures
            r@.len() == 0,
    {
        Vec::new()
    }

    pub fn call_method(&self, method_name: &str) -> (r: String)
        ensures
            r@ == unknown_method_text(method_name@, "InputStream"@),
    {
        unknown_method(method_name, "InputStream")
    }
}

/// `gs.net.OutputStream`: the writing side of a connection.
pub struct OutputStreamModule;

impl OutputStreamModule {
    pub fn class_name(&self) -> (r: &'static str)
        ensures
            r@ == "gs.net.OutputStream"@,
    {
        "gs.net.OutputStream"
    }

    pub fn constructor(&self) -> (r: Result<(), String>)
        ensures
            r matches Err(e) && e@ == "gs.net.OutputStream cannot be constructed directly"@,
    {
        Err(String::from_str("gs.net.OutputStream cannot be constructed directly"))
    }

    pub fn static_methods(&self) -> (r: Vec<MethodDescriptor>)
        ensures
            r@.len() == 0,
    {
        Vec::new()
    }

    pub fn call_static(&self, method_name: &str) -> (r: String)
        ensures
            r@ == unknown_static_text(method_name@, "gs.net.OutputStream"@),
    {
        unknown_static_method(method_name, "gs.net.OutputStream")
    }
}

/// What a call on an output stream asks the host to do.
#[derive(Debug, Clone, PartialEq, Eq)]
pub enum OutputStreamCall {
    /// Write these bytes.
    Write(Vec<u8>),
    Flush,
    /// Shut the writing side down.
    Close,
}

/// The methods of an output stream.
pub struct OutputStreamMethods;

impl OutputStreamMethods {
    pub fn instance_type(&self) -> (r: &'static str)
        ensures
            r@ == "OutputStream"@,
    {
        "OutputStream"
    }

    pub fn instance_methods(&self) -> (r: Vec<MethodDescriptor>)
        ensures
            methods_view(r@) == seq![("write"@, 1i32), ("flush"@, 0i32), ("close"@, 0i32)],
    {
        let mut r: Vec<MethodDescriptor> = Vec::new();
        r.push(method("write", 1));
        r.push(method("flush", 0));
        r.push(method("close", 0));
        assert(methods_view(r@) =~= seq![("write"@, 1i32), ("flush"@, 0i32), ("close"@, 0i32)]);
        r
    }

    /// `write(data)` writes bytes, or the UTF-8 bytes of a string; `flush()`; `close()`.
    pub fn call_method(&self, method_name: &str, args: &Vec<NativeArg>) -> (r: Result<OutputStreamCall, String>)
        ensures
            if method_name@ == "write"@ {
                match r {
                    Ok(OutputStreamCall::Write(data)) => args@.len() > 0 && match args@[0] {
                        NativeArg::Bytes(b) => data@ == b@,
                        NativeArg::String(s) => data@ == vstd::utf8::encode_utf8(s@),
                        _ => false,
                    },
                    Err(e) => !(args@.len() > 0 && (args@[0] is Bytes || args@[0] is String))
                        && e@ == "write: expected Bytes or String argument"@,
                    _ => false,
                }
            } else if method_name@ == "flush"@ {
                r == Ok::<OutputStreamCall, String>(OutputStreamCall::Flush)
            } else if method_name@ == "close"@ {
                r == Ok::<OutputStreamCall, String>(OutputStreamCall::Close)
            } else {
                r matches Err(e) && e@ == unknown_method_text(method_name@, "OutputStream"@)
            },
    {
        proof {
            reveal_strlit("write");
            reveal_strlit("flush");
            reveal_strlit("close");
        }
        if same_text(method_name, "write") {
            if args.len() > 0 {
                match &args[0] {
                    NativeArg::Bytes(b) => {
                        return Ok(OutputStreamCall::Write(b.clone()));
                    },
                    NativeArg::String(s) => {
                        let bytes = vstd::slice::slice_to_vec(s.as_str().as_bytes());
                        return Ok(OutputStreamCall::Write(bytes));
                    },
                    _ => {},
                }
            }
            Err(String::from_str("write: expected Bytes or String argument"))
        } else if same_text(method_name, "flush") {
            Ok(OutputStreamCall::Flush)
        } else if same_text(method_name, "close") {
            Ok(OutputStreamCall::Close)
        } else {
            Err(unknown_method(method_name, "OutputStream"))
        }
    }
}

} // verus!
