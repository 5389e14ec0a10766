use gs_lang::stdlib::io::buffered_reader::{BufferedReaderMethods, BufferedReaderModule};
use gs_lang::stdlib::io::file::{FileCall, FileModule};
use gs_lang::stdlib::net::server_socket::{ServerSocketCall, ServerSocketMethods, ServerSocketModule};
use gs_lang::stdlib::net::socket::SocketModule;
use gs_lang::stdlib::net::stream::{OutputStreamCall, OutputStreamMethods, TcpStreamCall, TcpStreamMethods, TcpStreamModule};
use gs_lang::stdlib::system::env::{EnvironmentCall, EnvironmentModule};
use gs_lang::stdlib::system::runtime::{RuntimeCall, RuntimeModule};
use gs_lang::stdlib::system::time::{TimeCall, TimeModule};
use gs_lang::stdlib::NativeArg;

fn s(t: &str) -> NativeArg {
    NativeArg::String(t.to_string())
}

#[test]
fn runtime_print_renders_its_argument() {
    let m = RuntimeModule;
    assert_eq!(m.class_name(), "gs.system.Runtime");
    assert_eq!(m.call_static("print", &vec![s("hi")]), Ok(RuntimeCall::PrintLine("hi".to_string())));
    assert_eq!(m.call_static("print", &vec![NativeArg::Number(-3)]), Ok(RuntimeCall::PrintLine("-3".to_string())));
    assert_eq!(m.call_static("print", &vec![NativeArg::Boolean(true)]), Ok(RuntimeCall::PrintLine("true".to_string())));
    assert_eq!(m.call_static("print", &vec![NativeArg::Undefined]), Ok(RuntimeCall::PrintLine("undefined".to_string())));
    assert_eq!(m.call_static("print", &vec![NativeArg::Instance]), Ok(RuntimeCall::PrintDebug));
    assert_eq!(m.call_static("print", &vec![]), Ok(RuntimeCall::Nothing));
    assert_eq!(m.call_static("println", &vec![]), Err("Unknown static method println on gs.system.Runtime".to_string()));
    assert_eq!(m.constructor(), Err("gs.system.Runtime is static-only".to_string()));
    let methods = m.static_methods();
    assert_eq!(methods.len(), 1);
    assert_eq!(methods[0].name, "print");
    assert_eq!(methods[0].arg_count, 1);
}

#[test]
fn time_calls() {
    let m = TimeModule;
    assert_eq!(m.call_static("now", &vec![]), Ok(TimeCall::Now));
    assert_eq!(m.call_static("sleep", &vec![NativeArg::Number(250)]), Ok(TimeCall::Sleep(250)));
    assert_eq!(m.call_static("sleep", &vec![s("x")]), Ok(TimeCall::Sleep(0)));
    assert_eq!(m.call_static("sleep", &vec![NativeArg::Number(-1)]), Ok(TimeCall::Sleep(u64::MAX)));
    assert_eq!(m.call_static("later", &vec![]), Err("Unknown static method later on gs.system.Time".to_string()));
}

#[test]
fn environment_calls_check_their_arguments() {
    let m = EnvironmentModule;
    assert_eq!(m.call_static("get", &vec![s("HOME")]), Ok(EnvironmentCall::GetVar("HOME".to_string())));
    assert_eq!(m.call_static("get", &vec![NativeArg::Number(1)]), Err("Environment.get: expected String key".to_string()));
    assert_eq!(m.call_static("set", &vec![s("A"), s("b")]), Ok(EnvironmentCall::SetVar("A".to_string(), "b".to_string())));
    assert_eq!(m.call_static("set", &vec![s("A")]), Err("Environment.set: expected String value".to_string()));
    assert_eq!(m.call_static("set", &vec![]), Err("Environment.set: expected String key".to_string()));
}

#[test]
fn file_calls() {
    let m = FileModule;
    let f = m.constructor(&vec![s("/tmp/x")]).unwrap();
    assert_eq!(f.path, "/tmp/x");
    assert_eq!(m.constructor(&vec![]).err(), Some("File: requires a String path argument".to_string()));
    assert_eq!(f.call_method("read", &vec![]), Ok(FileCall::Read));
    assert_eq!(f.call_method("write", &vec![s("data")]), Ok(FileCall::Write("data".to_string())));
    assert_eq!(f.call_method("append", &vec![NativeArg::Bytes(b"ab".to_vec())]), Ok(FileCall::Append("ab".to_string())));
    assert_eq!(f.call_method("write", &vec![NativeArg::Number(1)]), Err("write: expected String argument".to_string()));
    let bad = f.call_method("write", &vec![NativeArg::Bytes(vec![0xff, 0xfe])]).unwrap_err();
    assert!(bad.starts_with("write: invalid UTF-8: "));
    assert_eq!(f.call_method("stat", &vec![]), Err("Unknown method stat on File".to_string()));
    assert_eq!(f.instance_methods().len(), 5);
    assert_eq!(m.call_static("open"), "Unknown static method open on gs.io.File");
}

#[test]
fn buffered_reader_trims_line_endings() {
    let m = BufferedReaderModule;
    assert!(m.constructor(&vec![NativeArg::Instance]).is_ok());
    assert_eq!(m.constructor(&vec![s("x")]), Err("BufferedReader: requires an InputStream argument".to_string()));
    let r = BufferedReaderMethods;
    assert_eq!(r.line_result(0, ""), NativeArg::Undefined);
    assert_eq!(r.line_result(7, "hello\r\n"), s("hello"));
    assert_eq!(r.line_result(3, "ab\n"), s("ab"));
    assert_eq!(r.line_result(2, "\n\n"), s(""));
    assert_eq!(r.call_method("readLine"), Ok(()));
    assert_eq!(r.call_method("read"), Err("Unknown method read on BufferedReader".to_string()));
}

#[test]
fn socket_addresses() {
    assert_eq!(SocketModule.constructor(&vec![s("localhost"), NativeArg::Number(80)]), Ok("localhost:80".to_string()));
    assert_eq!(SocketModule.constructor(&vec![s("h"), NativeArg::Number(65536 + 22)]), Ok("h:22".to_string()));
    assert_eq!(SocketModule.constructor(&vec![NativeArg::Number(80)]), Err("Socket: first argument must be a host string".to_string()));
    assert_eq!(SocketModule.constructor(&vec![s("h")]), Err("Socket: second argument must be a port number".to_string()));
    assert_eq!(ServerSocketModule.constructor(&vec![NativeArg::Number(9000)]), "0.0.0.0:9000");
    assert_eq!(ServerSocketModule.constructor(&vec![]), "0.0.0.0:8080");
    assert_eq!(ServerSocketMethods.call_method("accept"), Ok(ServerSocketCall::Accept));
    assert_eq!(ServerSocketMethods.call_method("close"), Ok(ServerSocketCall::Close));
}

#[test]
fn stream_calls() {
    assert!(TcpStreamModule.constructor().is_err());
    assert_eq!(TcpStreamMethods.call_method("getInputStream"), Ok(TcpStreamCall::GetInputStream));
    assert_eq!(TcpStreamMethods.call_method("close"), Ok(TcpStreamCall::Close));
    let o = OutputStreamMethods;
    assert_eq!(o.call_method("write", &vec![s("hé")]), Ok(OutputStreamCall::Write("hé".as_bytes().to_vec())));
    assert_eq!(o.call_method("write", &vec![NativeArg::Bytes(vec![1, 2])]), Ok(OutputStreamCall::Write(vec![1, 2])));
    assert_eq!(o.call_method("write", &vec![]), Err("write: expected Bytes or String argument".to_string()));
    assert_eq!(o.call_method("flush", &vec![]), Ok(OutputStreamCall::Flush));
    assert_eq!(o.call_method("seek", &vec![]), Err("Unknown method seek on OutputStream".to_string()));
}

#[test]
fn file_text_follows_the_argument() {
    let f = FileModule.constructor(&vec![s("out.txt")]).unwrap();
    assert_eq!(f.call_method("write", &vec![s("héllo")]), Ok(FileCall::Write("héllo".to_string())));
    assert_eq!(
        f.call_method("append", &vec![NativeArg::Bytes("grüß".as_bytes().to_vec())]),
        Ok(FileCall::Append("grüß".to_string()))
    );
    assert_eq!(f.call_method("append", &vec![NativeArg::Bytes(vec![])]), Ok(FileCall::Append(String::new())));
    assert_eq!(f.call_method("append", &vec![]), Err("append: expected String argument".to_string()));
    // An overlong encoding of '/' is not UTF-8.
    let bad = f.call_method("append", &vec![NativeArg::Bytes(vec![0xc0, 0xaf])]).unwrap_err();
    assert!(bad.starts_with("append: invalid UTF-8: "));
}

#[test]
fn numbers_render_in_decimal() {
    let m = RuntimeModule;
    assert_eq!(m.call_static("print", &vec![NativeArg::Number(i32::MIN)]), Ok(RuntimeCall::PrintLine("-2147483648".to_string())));
    assert_eq!(m.call_static("print", &vec![NativeArg::Number(0)]), Ok(RuntimeCall::PrintLine("0".to_string())));
    assert_eq!(m.call_static("print", &vec![NativeArg::Number(1234509)]), Ok(RuntimeCall::PrintLine("1234509".to_string())));
}
