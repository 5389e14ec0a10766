//! `gs.io.BufferedReader`: lines read from an input stream.
use vstd::prelude::*;

use crate::stdlib::{
    method, methods_view, unknown_method, unknown_method_text, unknown_static_method, unknown_static_text,
    MethodDescriptor, NativeArg,
};
use crate::text::same_text;

verus! {

/// The text without the copies of `c` at its end.
pub open spec fn trim_end(s: Seq<char>, c: char) -> Seq<char>
    decreases s.len(),
{
    if s.len() > 0 && s.last() == c {
        trim_end(s.drop_last(), c)
    } else {
        s
    }
}

/// A line as `readLine` gives it: without its trailing line feeds, then without the
/// carriage returns before them.
pub open spec fn trimmed_line(s: Seq<char>) -> Seq<char> {
    trim_end(trim_end(s, '\n'), '\r')
}

/// The number of characters left once the copies of `c` at the end of `s[..n]` go.
fn trimmed_len(s: &Vec<char>, n: usize, c: char) -> (r: usize)
    requires
        n <= s@.len(),
    ensures
        r <= n,
        s@.take(r as int) == trim_end(s@.take(n as int), c),
    decreases n,
{
    if n > 0 && s[n - 1] == c {
        assert(s@.take(n as int).drop_last() =~= s@.take(n - 1));
        trimmed_len(s, n - 1, c)
    } else {
        n
    }
}

pub struct BufferedReaderModule;

impl BufferedReaderModule {
    pub fn class_name(&self) -> (r: &'static str)
        ensures
            r@ == "gs.io.BufferedReader"@,
    {
        "gs.io.BufferedReader"
    }

    /// `new BufferedReader(stream)`: the argument must be a native object (the host checks
    /// that it is an input stream).
    pub fn constructor(&self, args: &Vec<NativeArg>) -> (r: Result<(), String>)
        ensures
            r is Ok <==> (args@.len() > 0 && args@[0] is Instance),
            r matches Err(e) ==> e@ == "BufferedReader: requires an InputStream argument"@,
    {
        if args.len() > 0 {
            if let NativeArg::Instance = &args[0] {
                return Ok(());
            }
        }
        Err(String::from_str("BufferedReader: requires an InputStream argument"))
    }

    pub fn static_methods(&self) -> (r: Vec<MethodDescriptor>)
        ensures
            r@.len() == 0,
    {
        Vec::new()
    }

    pub fn call_static(&self, method_name: &str) -> (r: String)
        ensures
            r@ == unknown_static_text(method_name@, "gs.io.BufferedReader"@),
    {
        unknown_static_method(method_name, "gs.io.BufferedReader")
    }
}

/// The methods of a buffered reader.
pub struct BufferedReaderMethods;

impl BufferedReaderMethods {
    pub fn instance_type(&self) -> (r: &'static str)
        ensures
            r@ == "BufferedReader"@,
    {
        "BufferedReader"
    }

    pub fn instance_methods(&self) -> (r: Vec<MethodDescriptor>)
        ensures
            methods_view(r@) == seq![("readLine"@, 0i32)],
    {
        let mut r: Vec<MethodDescriptor> = Vec::new();
        r.push(method("readLine", 0));
        assert(methods_view(r@) =~= seq![("readLine"@, 0i32)]);
        r
    }

    /// Only `readLine()` exists.
    pub fn call_method(&self, method_name: &str) -> (r: Result<(), String>)
        ensures
            r is Ok <==> method_name@ == "readLine"@,
            r matches Err(e) ==> e@ == unknown_method_text(method_name@, "BufferedReader"@),
    {
        proof {
            reveal_strlit("readLine");
        }
        if same_text(method_name, "readLine") {
            Ok(())
        } else {
            Err(unknown_method(method_name, "BufferedReader"))
        }
    }

    /// The result of `readLine()` once the host has read `bytes_read` bytes into `line`:
    /// undefined at the end of the input, else the line without its line ending.
    pub fn line_result(&self, bytes_read: usize, line: &str) -> (r: NativeArg)
        ensures
            bytes_read == 0 ==> r == NativeArg::Undefined,
            bytes_read != 0 ==> (r matches NativeArg::String(t) && t@ == trimmed_line(line@)),
    {
        if bytes_read == 0 {
            return NativeArg::Undefined;
        }
        let mut chars: Vec<char> = Vec::new();
        for c in it: line.chars()
            invariant
                chars@ == it.seq().take(it.index() as int),
        {
            chars.push(c);
        }
        assert(chars@ == line@);
        let n1 = trimmed_len(&chars, chars.len(), '\n');
        let n2 = trimmed_len(&chars, n1, '\r');
        assert(chars@.take(chars@.len() as int) =~= line@);
        let mut out = String::new();
        let mut i: usize = 0;
        while i < n2
            invariant
                i <= n2,
                n2 <= chars@.len(),
                out@ == chars@.take(i as int),
            decreases n2 - i,
        {
            crate::text::push_char(&mut out, chars[i]);
            assert(chars@.take(i + 1) =~= chars@.take(i as int).push(chars@[i as int]));
            i += 1;
        }
        NativeArg::String(out)
    }
}


/// Trimming `c` from the end keeps a prefix of the text, removes only copies of `c`, and
/// leaves a text that does not end with `c`.
pub proof fn lemma_trim_end(s: Seq<char>, c: char)
    ensures
        trim_end(s, c).len() <= s.len(),
        trim_end(s, c) == s.take(trim_end(s, c).len() as int),
        forall|i: int| trim_end(s, c).len() <= i < s.len() ==> #[trigger] s[i] == c,
        trim_end(s, c).len() == 0 || trim_end(s, c).last() != c,
    decreases s.len(),
{
    if s.len() > 0 && s.last() == c {
        lemma_trim_end(s.drop_last(), c);
        let t = trim_end(s.drop_last(), c);
        assert(s.drop_last().take(t.len() as int) =~= s.take(t.len() as int));
        assert forall|i: int| t.len() <= i < s.len() implies #[trigger] s[i] == c by {
            if i < s.len() - 1 {
                assert(s.drop_last()[i] == s[i]);
            }
        }
    } else {
        assert(s.take(s.len() as int) =~= s);
    }
}

/// A line as `readLine` gives it is a prefix of what was read, and what it leaves out at
/// the end is only line feeds and carriage returns.
pub proof fn lemma_trimmed_line(s: Seq<char>)
    ensures
        trimmed_line(s) == s.take(trimmed_line(s).len() as int),
        forall|i: int| trimmed_line(s).len() <= i < s.len() ==> (#[trigger] s[i] == '\n' || s[i] == '\r'),
        trimmed_line(s).len() == 0 || trimmed_line(s).last() != '\r',
{
    lemma_trim_end(s, '\n');
    let a = trim_end(s, '\n');
    lemma_trim_end(a, '\r');
    let b = trim_end(a, '\r');
    assert(a.take(b.len() as int) =~= s.take(b.len() as int));
    assert forall|i: int| b.len() <= i < s.len() implies (#[trigger] s[i] == '\n' || s[i] == '\r') by {
        if i < a.len() {
            assert(a[i] == s[i]);
        }
    }
}

} // verus!
