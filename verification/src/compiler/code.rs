//! The instruction stream of a compiled function.
use vstd::prelude::*;

verus! {

/// A virtual-machine instruction.
#[derive(Debug, Clone, Copy, PartialEq, Eq, Structural)]
pub enum Opcode {
    New,
    Invoke,
    Put,
    Pop,
    Get,
    GetDynamic,
    Not,
    Cjmp,
    Jmp,
    LdcD,
    Lds,
    Return,
    Throw,
    Add,
    Sub,
    Mult,
    Div,
    Mod,
    And,
    Or,
    Eql,
    Gt,
    Lt,
    Native,
    Fork,
    Halt,
    Debug,
}

/// One item of an instruction stream.
#[derive(Debug, Clone, PartialEq, Eq)]
pub enum Code {
    /// An instruction.
    Op(Opcode),
    /// An integer operand.
    Int(i32),
    /// A type name operand.
    Text(String),
    /// An integer operand: the string-pool reference of this text.
    StringRef(String),
    /// An integer operand: the index of a compiled function.
    FunctionRef(usize),
    /// An integer operand: a position in the same stream; `None` until it is patched.
    Jump(Option<usize>),
}

/// The view of an item: its texts as character sequences.
pub enum CodeModel {
    Op(Opcode),
    Int(i32),
    Text(Seq<char>),
    StringRef(Seq<char>),
    FunctionRef(usize),
    Jump(Option<usize>),
}

impl View for Code {
    type V = CodeModel;

    open spec fn view(&self) -> CodeModel {
        match self {
            Code::Op(o) => CodeModel::Op(*o),
            Code::Int(v) => CodeModel::Int(*v),
            Code::Text(t) => CodeModel::Text(t@),
            Code::StringRef(t) => CodeModel::StringRef(t@),
            Code::FunctionRef(k) => CodeModel::FunctionRef(*k),
            Code::Jump(t) => CodeModel::Jump(*t),
        }
    }
}

/// The view of a stream.
pub open spec fn codes_view(c: Seq<Code>) -> Seq<CodeModel> {
    c.map_values(|x: Code| x@)
}

/// Every jump of a stream lands inside it (or at its end), and every function it refers
/// to is among the first `n`.
pub open spec fn code_ok(c: Seq<Code>, n: nat) -> bool {
    forall|i: int| 0 <= i < c.len() ==> item_ok(#[trigger] c[i], c.len(), n)
}

pub open spec fn item_ok(x: Code, len: nat, n: nat) -> bool {
    match x {
        Code::Jump(Some(a)) => a <= len,
        Code::FunctionRef(k) => k < n,
        _ => true,
    }
}

/// The stream `c2` continues `c1`: it is at least as long, and keeps each item of `c1`
/// except that a jump may be retargeted.
pub open spec fn extends(c1: Seq<Code>, c2: Seq<Code>) -> bool {
    &&& c1.len() <= c2.len()
    &&& forall|i: int| 0 <= i < c1.len() ==> same_or_retargeted(#[trigger] c1[i], c2[i])
}

pub open spec fn same_or_retargeted(a: Code, b: Code) -> bool {
    a == b || (a is Jump && b is Jump)
}

/// A growable instruction stream.
pub struct CodeBuffer {
    items: Vec<Code>,
}

impl View for CodeBuffer {
    type V = Seq<Code>;

    closed spec fn view(&self) -> Seq<Code> {
        self.items@
    }
}

pub proof fn lemma_code_ok_more_functions(c: Seq<Code>, n: nat, m: nat)
    requires
        code_ok(c, n),
        n <= m,
    ensures
        code_ok(c, m),
{
    assert forall|i: int| 0 <= i < c.len() implies item_ok(#[trigger] c[i], c.len(), m) by {
        assert(item_ok(c[i], c.len(), n));
    }
}

pub proof fn lemma_extends_trans(a: Seq<Code>, b: Seq<Code>, c: Seq<Code>)
    requires
        extends(a, b),
        extends(b, c),
    ensures
        extends(a, c),
{
    assert forall|i: int| 0 <= i < a.len() implies same_or_retargeted(#[trigger] a[i], c[i]) by {
        assert(same_or_retargeted(a[i], b[i]));
        assert(same_or_retargeted(b[i], c[i]));
    }
}

/// `extends` chains: a continuation of a continuation is a continuation.
pub broadcast proof fn lemma_extends_chain(a: Seq<Code>, b: Seq<Code>, c: Seq<Code>)
    requires
        #[trigger] extends(a, b),
        #[trigger] extends(b, c),
    ensures
        extends(a, c),
{
    lemma_extends_trans(a, b, c);
}

impl CodeBuffer {
    pub fn new() -> (r: CodeBuffer)
        ensures
            r@ == Seq::<Code>::empty(),
    {
        CodeBuffer { items: Vec::new() }
    }

    pub fn len(&self) -> (r: usize)
        ensures
            r == self@.len(),
    {
        self.items.len()
    }

    /// Appends an item that refers to no position and to no function.
    pub fn emit(&mut self, x: Code)
        requires
            !(x is Jump),
            !(x is FunctionRef),
        ensures
            codes_view(final(self)@) == codes_view(old(self)@).push(x@),
            final(self)@ == old(self)@.push(x),
            forall|n: nat| code_ok(old(self)@, n) ==> code_ok(final(self)@, n),
            extends(old(self)@, final(self)@),
    {
        let ghost c = self.items@;
        self.items.push(x);
        assert(codes_view(self.items@) =~= codes_view(c).push(x@));
        proof {
            assert forall|n: nat| code_ok(c, n) implies code_ok(self.items@, n) by {
                assert forall|i: int| 0 <= i < self.items@.len() implies item_ok(#[trigger] self.items@[i], self.items@.len(), n) by {
                    if i < c.len() {
                        assert(item_ok(c[i], c.len(), n));
                    }
                }
            }
        }
    }

    pub fn emit_op(&mut self, op: Opcode)
        ensures
            codes_view(final(self)@) == codes_view(old(self)@).push(CodeModel::Op(op)),
            final(self)@ == old(self)@.push(Code::Op(op)),
            forall|n: nat| code_ok(old(self)@, n) ==> code_ok(final(self)@, n),
            extends(old(self)@, final(self)@),
    {
        self.emit(Code::Op(op));
    }

    pub fn emit_int(&mut self, v: i32)
        ensures
            codes_view(final(self)@) == codes_view(old(self)@).push(CodeModel::Int(v)),
            final(self)@ == old(self)@.push(Code::Int(v)),
            forall|n: nat| code_ok(old(self)@, n) ==> code_ok(final(self)@, n),
            extends(old(self)@, final(self)@),
    {
        self.emit(Code::Int(v));
    }

    pub fn emit_text(&mut self, s: &str)
        ensures
            codes_view(final(self)@) == codes_view(old(self)@).push(CodeModel::Text(s@)),
            final(self)@.len() == old(self)@.len() + 1,
            final(self)@.drop_last() == old(self)@,
            final(self)@.last() matches Code::Text(t) && t@ == s@,
            forall|n: nat| code_ok(old(self)@, n) ==> code_ok(final(self)@, n),
            extends(old(self)@, final(self)@),
    {
        let t = s.to_owned();
        self.emit(Code::Text(t));
    }

    pub fn emit_function_ref(&mut self, k: usize)
        ensures
            codes_view(final(self)@) == codes_view(old(self)@).push(CodeModel::FunctionRef(k)),
            final(self)@ == old(self)@.push(Code::FunctionRef(k)),
            forall|n: nat| code_ok(old(self)@, n) && k < n ==> code_ok(final(self)@, n),
            extends(old(self)@, final(self)@),
    {
        let ghost c = self.items@;
        self.items.push(Code::FunctionRef(k));
        assert(codes_view(self.items@) =~= codes_view(c).push(CodeModel::FunctionRef(k)));
        proof {
            assert forall|n: nat| code_ok(c, n) && k < n implies code_ok(self.items@, n) by {
                assert forall|i: int| 0 <= i < self.items@.len() implies item_ok(#[trigger] self.items@[i], self.items@.len(), n) by {
                    if i < c.len() {
                        assert(item_ok(c[i], c.len(), n));
                    }
                }
            }
        }
    }

    /// Appends a jump operand to `target`, or a placeholder to patch later.
    pub fn emit_jump(&mut self, target: Option<usize>)
        requires
            target matches Some(t) ==> t <= old(self)@.len() + 1,
        ensures
            codes_view(final(self)@) == codes_view(old(self)@).push(CodeModel::Jump(target)),
            final(self)@ == old(self)@.push(Code::Jump(target)),
            forall|n: nat| code_ok(old(self)@, n) ==> code_ok(final(self)@, n),
            extends(old(self)@, final(self)@),
    {
        let ghost c = self.items@;
        self.items.push(Code::Jump(target));
        assert(codes_view(self.items@) =~= codes_view(c).push(CodeModel::Jump(target)));
        proof {
            assert forall|n: nat| code_ok(c, n) implies code_ok(self.items@, n) by {
                assert forall|i: int| 0 <= i < self.items@.len() implies item_ok(#[trigger] self.items@[i], self.items@.len(), n) by {
                    if i < c.len() {
                        assert(item_ok(c[i], c.len(), n));
                    }
                }
            }
        }
    }

    /// Points the jump operand at `pos` to `target`. A position that holds no jump
    /// operand is left as it is.
    pub fn patch(&mut self, pos: usize, target: usize)
        requires
            target <= old(self)@.len(),
        ensures
            codes_view(final(self)@) == if pos < old(self)@.len() && old(self)@[pos as int] is Jump {
                codes_view(old(self)@).update(pos as int, CodeModel::Jump(Some(target)))
            } else {
                codes_view(old(self)@)
            },
            final(self)@ == if pos < old(self)@.len() && old(self)@[pos as int] is Jump {
                old(self)@.update(pos as int, Code::Jump(Some(target)))
            } else {
                old(self)@
            },
            forall|n: nat| code_ok(old(self)@, n) ==> code_ok(final(self)@, n),
            extends(old(self)@, final(self)@),
    {
        let ghost c = self.items@;
        if pos < self.items.len() {
            let is_jump = match &self.items[pos] {
                Code::Jump(_) => true,
                _ => false,
            };
            if is_jump {
                self.items.set(pos, Code::Jump(Some(target)));
                assert(codes_view(self.items@) =~= codes_view(c).update(pos as int, CodeModel::Jump(Some(target))));
            }
        }
        proof {
            assert forall|n: nat| code_ok(c, n) implies code_ok(self.items@, n) by {
                assert forall|i: int| 0 <= i < self.items@.len() implies item_ok(#[trigger] self.items@[i], self.items@.len(), n) by {
                    assert(item_ok(c[i], c.len(), n));
                }
            }
        }
    }

    /// The items, for building the program.
    pub fn into_items(self) -> (r: Vec<Code>)
        ensures
            r@ == self@,
    {
        self.items
    }
}

} // verus!
