//! `gs.io.File`: a file named by its path.
use vstd::prelude::*;

use crate::stdlib::{
    method, methods_view, unknown_method, unknown_method_text, unknown_static_method, unknown_static_text,
    MethodDescriptor, NativeArg,
};
use crate::text::{concat, same_text};
use vstd::utf8::valid_utf8;

verus! {

/// `String::from_utf8`: the text that the bytes encode where they are valid UTF-8
/// (well-formed sequences, no overlong encodings, no surrogates); otherwise the error's
/// text, which is not stated here.
#[verifier::external_body]
fn decode_utf8(b: &Vec<u8>) -> (r: Result<String, String>)
    ensures
        r is Ok <==> valid_utf8(b@),
        r matches Ok(t) ==> t@ == vstd::utf8::decode_utf8(b@),
{
    match String::from_utf8(b.clone()) {
        Ok(t) => Ok(t),
        Err(e) => Err(e.to_string()),
    }
}

/// What the text argument of the file method `m` comes to: the text of a string; the
/// decoding of bytes that are valid UTF-8; for other bytes an error that begins with
/// `"<m>: invalid UTF-8: "`; for anything else, or no argument, the error
/// `"<m>: expected String argument"`.
pub open spec fn text_arg(args: Seq<NativeArg>, m: Seq<char>, r: Result<Seq<char>, Seq<char>>) -> bool {
    if args.len() > 0 && args[0] is String {
        args[0] matches NativeArg::String(s) && r == Ok::<Seq<char>, Seq<char>>(s@)
    } else if args.len() > 0 && args[0] is Bytes {
        args[0] matches NativeArg::Bytes(b) && if valid_utf8(b@) {
            r == Ok::<Seq<char>, Seq<char>>(vstd::utf8::decode_utf8(b@))
        } else {
            r matches Err(e) && (m + ": invalid UTF-8: "@).is_prefix_of(e)
        }
    } else {
        r == Err::<Seq<char>, Seq<char>>(m + ": expected String argument"@)
    }
}

/// The text argument of a file method: a string, or bytes that are valid UTF-8.
pub fn extract_string_arg(args: &Vec<NativeArg>, method_name: &str) -> (r: Result<String, String>)
    ensures
        text_arg(args@, method_name@, match r { Ok(t) => Ok(t@), Err(e) => Err(e@) }),
{
    proof {
        reveal_strlit("");
        reveal_strlit(": invalid UTF-8: ");
    }
    if args.len() > 0 {
        match &args[0] {
            NativeArg::String(s) => {
                let t = concat(s.as_str(), "");
                assert(t@ =~= s@);
                return Ok(t);
            },
            NativeArg::Bytes(b) => {
                return match decode_utf8(b) {
                    Ok(t) => Ok(t),
                    Err(e) => {
                        let head = concat(method_name, ": invalid UTF-8: ");
                        let msg = concat(head.as_str(), e.as_str());
                        assert(msg@.subrange(0, head@.len() as int) =~= head@);
                        Err(msg)
                    },
                };
            },
            _ => {},
        }
    }
    Err(concat(method_name, ": expected String argument"))
}

/// What a call on a file asks the host to do with the file at its path.
#[derive(Debug, Clone, PartialEq, Eq)]
pub enum FileCall {
    Read,
    Write(String),
    Append(String),
    Exists,
    Delete,
}

pub struct FileModule;

impl FileModule {
    pub fn class_name(&self) -> (r: &'static str)
        ensures
            r@ == "gs.io.File"@,
    {
        "gs.io.File"
    }

    /// `new File(path)`: a file object for the path.
    pub fn constructor(&self, args: &Vec<NativeArg>) -> (r: Result<FileMethods, String>)
        ensures
            match r {
                Ok(f) => args@.len() > 0 && (args@[0] matches NativeArg::String(p) && f.path@ == p@),
                Err(e) => !(args@.len() > 0 && args@[0] is String) && e@ == "File: requires a String path argument"@,
            },
    {
        if args.len() > 0 {
            if let NativeArg::String(p) = &args[0] {
                proof {
                    reveal_strlit("");
                }
                let path = concat(p.as_str(), "");
                assert(path@ =~= p@);
                return Ok(FileMethods { path });
            }
        }
        Err(String::from_str("File: requires a String path argument"))
    }

    pub fn static_methods(&self) -> (r: Vec<MethodDescriptor>)
        ensures
            r@.len() == 0,
    {
        Vec::new()
    }

    pub fn call_static(&self, method_name: &str) -> (r: String)
        ensures
            r@ == unknown_static_text(method_name@, "gs.io.File"@),
    {
        unknown_static_method(method_name, "gs.io.File")
    }
}

/// The methods of a file object.
pub struct FileMethods {
    pub path: String,
}

impl FileMethods {
    pub fn instance_type(&self) -> (r: &'static str)
        ensures
            r@ == "File"@,
    {
        "File"
    }

    pub fn instance_methods(&self) -> (r: Vec<MethodDescriptor>)
        ensures
            methods_view(r@) == seq![("read"@, 0i32), ("write"@, 1i32), ("append"@, 1i32), ("exists"@, 0i32), ("delete"@, 0i32)],
    {
        let mut r: Vec<MethodDescriptor> = Vec::new();
        r.push(method("read", 0));
        r.push(method("write", 1));
        r.push(method("append", 1));
        r.push(method("exists", 0));
        r.push(method("delete", 0));
        assert(methods_view(r@) =~= seq![("read"@, 0i32), ("write"@, 1i32), ("append"@, 1i32), ("exists"@, 0i32), ("delete"@, 0i32)]);
        r
    }

    /// `read()`, `write(text)`, `append(text)`, `exists()` and `delete()`.
    pub fn call_method(&self, method_name: &str, args: &Vec<NativeArg>) -> (r: Result<FileCall, String>)
        ensures
            if method_name@ == "read"@ {
                r == Ok::<FileCall, String>(FileCall::Read)
            } else if method_name@ == "write"@ {
                match r {
                    Ok(FileCall::Write(t)) => text_arg(args@, "write"@, Ok(t@)),
                    Err(e) => text_arg(args@, "write"@, Err(e@)),
                    _ => false,
                }
            } else if method_name@ == "append"@ {
                match r {
                    Ok(FileCall::Append(t)) => text_arg(args@, "append"@, Ok(t@)),
                    Err(e) => text_arg(args@, "append"@, Err(e@)),
                    _ => false,
                }
            } else if method_name@ == "exists"@ {
                r == Ok::<FileCall, String>(FileCall::Exists)
            } else if method_name@ == "delete"@ {
                r == Ok::<FileCall, String>(FileCall::Delete)
            } else {
                r matches Err(e) && e@ == unknown_method_text(method_name@, "File"@)
            },
    {
        proof {
            reveal_strlit("read");
            reveal_strlit("write");
            reveal_strlit("append");
            reveal_strlit("exists");
            reveal_strlit("delete");
        }
        if same_text(method_name, "read") {
            Ok(FileCall::Read)
        } else if same_text(method_name, "write") {
            match extract_string_arg(args, "write") {
                Ok(data) => Ok(FileCall::Write(data)),
                Err(e) => Err(e),
            }
        } else if same_text(method_name, "append") {
            match extract_string_arg(args, "append") {
                Ok(data) => Ok(FileCall::Append(data)),
                Err(e) => Err(e),
            }
        } else if same_text(method_name, "exists") {
            Ok(FileCall::Exists)
        } else if same_text(method_name, "delete") {
            Ok(FileCall::Delete)
        } else {
            Err(unknown_method(method_name, "File"))
        }
    }
}

} // verus!
