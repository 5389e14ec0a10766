//! Compiles GScript syntax trees to virtual-machine code: one instruction stream per
//! function, with jumps given as positions in the stream.
pub mod code;
pub mod scheme;

use vstd::prelude::*;

use crate::ast::{Expression, Module, Position, Statement};
use crate::text::{concat, same_text};
use self::scheme::{
    debug_code, expr_code, exprs_code, elements_code, entries_code, number_constant, plain_expr, plain_exprs, plain_stmt,
    main_code, plain_stmts, slot_of, stmt_code, stmts_code, string_constant, export_code, exports_code,
    function_code, exit_holes, stmts_exit_holes, patch_all, lemma_stmt_fills, lemma_patch_fills,
    names_view, FnModel, defined_fn, expr_fns, exprs_fns, entries_fns, stmt_fns, stmts_fns, expr_fn_count,
    exprs_fn_count, entries_fn_count, stmt_fn_count, stmts_fn_count, assign_op, assigned_fn_name, function_ref,
    plain_body, lemma_expr_fns_len, lemma_stmts_fns_len,
    lemma_no_stmts_exit_holes, lemma_plain_body, expr_gates, exprs_gates, entries_gates, stmt_gates, stmts_gates,
    tail_gates, with_gate, gate_index, tail_code, tail_args_code, tail_fn_count, tail_fns,
    stmt_locals, stmts_locals, with_local, stmt_catches, stmts_catches, catch_slot,
};
use self::code::{
    code_ok, codes_view, CodeModel, extends, lemma_code_ok_more_functions, lemma_extends_chain, lemma_extends_trans, Code,
    CodeBuffer, Opcode,
};

verus! {

broadcast use lemma_extends_chain;

#[derive(Debug, Clone, Copy, PartialEq, Eq, Hash, Structural)]
pub enum CompilerOptimization {
    TailRecursion,
}

/// The break and continue jumps of a loop, to patch once the loop is compiled.
struct LoopInfo {
    break_positions: Vec<usize>,
    continue_positions: Vec<usize>,
}

impl LoopInfo {
    fn new() -> (r: LoopInfo)
        ensures
            r.break_positions@.len() == 0,
            r.continue_positions@.len() == 0,
    {
        LoopInfo { break_positions: Vec::new(), continue_positions: Vec::new() }
    }
}

/// The positions of a list, as integers.
spec fn positions(v: Seq<usize>) -> Seq<int> {
    v.map_values(|p: usize| p as int)
}

/// The break and continue positions recorded with each loop being compiled.
spec fn loop_view(ls: Seq<LoopInfo>) -> Seq<(Seq<int>, Seq<int>)> {
    ls.map_values(|li: LoopInfo| (positions(li.break_positions@), positions(li.continue_positions@)))
}

/// The exits recorded with the innermost loop, from `before` to `after`: the break jumps
/// at `bh` and the continue jumps at `ch`. Outside any loop nothing is recorded.
spec fn recorded(before: Seq<LoopInfo>, after: Seq<LoopInfo>, bh: Seq<int>, ch: Seq<int>) -> bool {
    let v = loop_view(before);
    if before.len() == 0 {
        after.len() == 0
    } else {
        loop_view(after) == v.update(v.len() - 1, (v.last().0 + bh, v.last().1 + ch))
    }
}

proof fn lemma_recorded_same(a: Seq<LoopInfo>, b: Seq<LoopInfo>)
    requires
        loop_view(a) == loop_view(b),
    ensures
        recorded(a, b, Seq::empty(), Seq::empty()),
{
    assert(a.len() == loop_view(a).len());
    assert(b.len() == loop_view(b).len());
    if a.len() > 0 {
        let v = loop_view(a);
        assert(v.update(v.len() - 1, (v.last().0 + Seq::<int>::empty(), v.last().1 + Seq::<int>::empty())) =~= v);
    }
}

proof fn lemma_recorded_nothing(a: Seq<LoopInfo>, b: Seq<LoopInfo>)
    requires
        recorded(a, b, Seq::empty(), Seq::empty()),
    ensures
        loop_view(a) == loop_view(b),
{
    if a.len() > 0 {
        let v = loop_view(a);
        assert(v.update(v.len() - 1, (v.last().0 + Seq::<int>::empty(), v.last().1 + Seq::<int>::empty())) =~= v);
    } else {
        assert(loop_view(a) =~= loop_view(b));
    }
}

proof fn lemma_recorded_trans(a: Seq<LoopInfo>, b: Seq<LoopInfo>, c: Seq<LoopInfo>, h1: Seq<int>, c1: Seq<int>, h2: Seq<int>, c2: Seq<int>)
    requires
        recorded(a, b, h1, c1),
        recorded(b, c, h2, c2),
    ensures
        recorded(a, c, h1 + h2, c1 + c2),
{
    assert(a.len() == loop_view(a).len());
    assert(b.len() == loop_view(b).len());
    if a.len() > 0 {
        let v = loop_view(a);
        let w = loop_view(b);
        assert(w.last() == (v.last().0 + h1, v.last().1 + c1));
        assert(v.last().0 + h1 + h2 =~= v.last().0 + (h1 + h2));
        assert(v.last().1 + c1 + c2 =~= v.last().1 + (c1 + c2));
        assert(w.update(w.len() - 1, (w.last().0 + h2, w.last().1 + c2))
            =~= v.update(v.len() - 1, (v.last().0 + (h1 + h2), v.last().1 + (c1 + c2))));
    }
}

/// A loop's exits: with a fresh entry pushed on `a` (giving `b`), the statements compiled
/// into `c` recorded the break jumps `bh` and the continue jumps `ch` in that entry; the
/// entries below it are those of `a`.
proof fn lemma_loop_closed(a: Seq<LoopInfo>, b: Seq<LoopInfo>, c: Seq<LoopInfo>, bh: Seq<int>, ch: Seq<int>)
    requires
        b.len() == a.len() + 1,
        b.drop_last() == a,
        b.last().break_positions@.len() == 0,
        b.last().continue_positions@.len() == 0,
        recorded(b, c, bh, ch),
    ensures
        c.len() == b.len(),
        loop_view(c.drop_last()) == loop_view(a),
        positions(c.last().break_positions@) == bh,
        positions(c.last().continue_positions@) == ch,
{
    let v = loop_view(b);
    assert(c.len() == loop_view(c).len());
    assert(v.last() == (positions(b.last().break_positions@), positions(b.last().continue_positions@)));
    assert(positions(b.last().break_positions@) =~= Seq::<int>::empty());
    assert(positions(b.last().continue_positions@) =~= Seq::<int>::empty());
    assert(loop_view(c)[c.len() - 1] == (positions(c.last().break_positions@), positions(c.last().continue_positions@)));
    assert(Seq::<int>::empty() + bh =~= bh);
    assert(Seq::<int>::empty() + ch =~= ch);
    assert(loop_view(c.drop_last()) =~= loop_view(a)) by {
        assert forall|i: int| 0 <= i < a.len() implies loop_view(c.drop_last())[i] == loop_view(a)[i] by {
            assert(loop_view(c)[i] == v[i]);
            assert(b[i] == a[i]);
        }
    }
}

/// Aiming one more position: `patch_all` with `p` added is the jump at `p`, if there is
/// one, aimed at `t`.
proof fn lemma_patch_all_push(c: Seq<CodeModel>, ps: Seq<int>, p: int, t: usize)
    ensures
        patch_all(c, ps.push(p), t) == if 0 <= p < c.len() && patch_all(c, ps, t)[p] is Jump {
            patch_all(c, ps, t).update(p, CodeModel::Jump(Some(t)))
        } else {
            patch_all(c, ps, t)
        },
{
    let a = patch_all(c, ps, t);
    let b = patch_all(c, ps.push(p), t);
    assert forall|i: int| 0 <= i < c.len() implies (ps.push(p).contains(i) <==> ps.contains(i) || i == p) by {
        if ps.push(p).contains(i) {
            let j = choose|j: int| 0 <= j < ps.push(p).len() && ps.push(p)[j] == i;
            if j < ps.len() {
                assert(ps[j] == i);
            }
        }
        if ps.contains(i) {
            let j = choose|j: int| 0 <= j < ps.len() && ps[j] == i;
            assert(ps.push(p)[j] == i);
        }
        if i == p {
            assert(ps.push(p)[ps.len() as int] == p);
        }
    }
    if 0 <= p < c.len() && a[p] is Jump {
        assert(b =~= a.update(p, CodeModel::Jump(Some(t))));
    } else {
        assert(b =~= a);
    }
}

/// A region of a function's code whose exceptions the code at `handler` catches.
#[derive(Debug, Clone, Copy)]
pub struct CatchBlock {
    pub start: usize,
    pub end: usize,
    pub handler: usize,
}

pub open spec fn catch_ok(b: CatchBlock, len: nat) -> bool {
    b.start <= b.end < b.handler <= len
}

/// A compiled function.
pub struct CompiledFunction {
    pub code: Vec<Code>,
    pub parameters: Vec<String>,
    pub locals: Vec<String>,
    pub debug_name: Option<String>,
    pub catch_blocks: Vec<CatchBlock>,
}

/// A text of an option, as characters.
pub open spec fn opt_view(o: Option<String>) -> Option<Seq<char>> {
    match o {
        Some(t) => Some(t@),
        None => None,
    }
}

/// What a compiled function holds, as values.
pub open spec fn fn_view(f: CompiledFunction) -> FnModel {
    FnModel {
        code: codes_view(f.code@),
        params: names_view(f.parameters@),
        locals: names_view(f.locals@),
        debug_name: opt_view(f.debug_name),
        catches: catch_view(f.catch_blocks@),
    }
}

/// Catch regions as (start, end, handler).
pub open spec fn catch_view(v: Seq<CatchBlock>) -> Seq<(usize, usize, usize)> {
    v.map_values(|b: CatchBlock| (b.start, b.end, b.handler))
}

/// What a list of compiled functions holds, as values.
pub open spec fn fns_view(fs: Seq<CompiledFunction>) -> Seq<FnModel> {
    fs.map_values(|f: CompiledFunction| fn_view(f))
}

/// A function's code is well formed against `n` functions, and its catch regions lie
/// inside its code.
pub open spec fn function_ok(f: CompiledFunction, n: nat) -> bool {
    &&& code_ok(f.code@, n)
    &&& forall|j: int| 0 <= j < f.catch_blocks@.len() ==> catch_ok(#[trigger] f.catch_blocks@[j], f.code@.len())
}

pub open spec fn functions_ok(fs: Seq<CompiledFunction>, n: nat) -> bool {
    forall|j: int| 0 <= j < fs.len() ==> function_ok(#[trigger] fs[j], n)
}

/// No argument count has two native call gates.
pub open spec fn distinct_counts(s: Seq<i32>) -> bool {
    forall|a: int, b: int| 0 <= a < b < s.len() ==> s[a] != s[b]
}

/// A compiled program: its functions (the first is the entry point) and the argument
/// counts of its native call gates.
pub struct CompiledProgram {
    pub functions: Vec<CompiledFunction>,
    pub natives: Vec<i32>,
}

/// Every function of the program is well formed: its jumps land inside its own code and
/// the functions it refers to exist.
pub open spec fn program_ok(p: CompiledProgram) -> bool {
    &&& p.functions@.len() > 0
    &&& functions_ok(p.functions@, p.functions@.len())
}

proof fn lemma_functions_ok_more(fs: Seq<CompiledFunction>, n: nat, m: nat)
    requires
        functions_ok(fs, n),
        n <= m,
    ensures
        functions_ok(fs, m),
{
    assert forall|j: int| 0 <= j < fs.len() implies function_ok(#[trigger] fs[j], m) by {
        assert(function_ok(fs[j], n));
        lemma_code_ok_more_functions(fs[j].code@, n, m);
    }
}

/// Whether every operator in an expression is one the compiler knows.
pub open spec fn compilable_expr(e: Expression) -> bool
    decreases e,
{
    match e {
        Expression::Additive(l, op, r) => (op@ == "+"@ || op@ == "-"@) && compilable_expr(*l) && compilable_expr(*r),
        Expression::Multiplicative(l, op, r) => (op@ == "*"@ || op@ == "/"@ || op@ == "%"@) && compilable_expr(*l)
            && compilable_expr(*r),
        Expression::And(l, r) => compilable_expr(*l) && compilable_expr(*r),
        Expression::Or(l, r) => compilable_expr(*l) && compilable_expr(*r),
        Expression::Not(a) => compilable_expr(*a),
        Expression::Equality(l, op, r) => (op@ == "=="@ || op@ == "!="@) && compilable_expr(*l) && compilable_expr(*r),
        Expression::Relational(l, op, r) => (op@ == ">"@ || op@ == "<"@ || op@ == ">="@ || op@ == "<="@)
            && compilable_expr(*l) && compilable_expr(*r),
        Expression::Assignment { value, operator, variable } => (match operator {
            None => true,
            Some(o) => o@ == "="@ || o@ == "+="@ || o@ == "-="@ || o@ == "*="@ || o@ == "/="@,
        }) && compilable_expr(*value) && compilable_expr(*variable),
        Expression::Constant { .. } => true,
        Expression::Variable { field, .. } => match field {
            Some(f) => compilable_expr(*f),
            None => true,
        },
        Expression::This { field } => match field {
            Some(f) => compilable_expr(*f),
            None => true,
        },
        Expression::FunctionCall { function, parameters, field } => compilable_expr(*function)
            && compilable_exprs(parameters@) && match field {
            Some(f) => compilable_expr(*f),
            None => true,
        },
        Expression::FunctionDef { statements, .. } => compilable_stmts(statements@),
        Expression::NativeFunctionCall { parameters } => compilable_exprs(parameters@),
        Expression::ConstructorCall { function } => compilable_expr(*function),
        Expression::ImplicitConstructor { statements } => compilable_stmts(statements@),
        Expression::ArrayDefinition { elements } => compilable_exprs(elements@),
        Expression::ArrayReference { index, reference } => compilable_expr(*index) && compilable_expr(*reference),
        Expression::MapDefinition { keys, values } => keys@.len() <= values@.len() && compilable_exprs(keys@)
            && forall|i: int| 0 <= i < keys@.len() ==> compilable_expr(#[trigger] values@[i]),
        Expression::Fork => true,
        Expression::PostFixOperator { operator, argument } => (operator@ == "++"@ || operator@ == "--"@)
            && compilable_expr(*argument),
        Expression::Conditional { condition, positive, negative } => compilable_expr(*condition)
            && compilable_expr(*positive) && compilable_expr(*negative),
    }
}

pub open spec fn compilable_exprs(v: Seq<Expression>) -> bool
    decreases v,
{
    forall|i: int| 0 <= i < v.len() ==> compilable_expr(#[trigger] v[i])
}

/// Whether every operator in a statement is one the compiler knows.
pub open spec fn compilable_stmt(s: Statement) -> bool
    decreases s,
{
    match s {
        Statement::Expression(e, _) => compilable_expr(e),
        Statement::If { condition, then_clause, else_clause, .. } => compilable_expr(condition)
            && compilable_stmt(*then_clause) && match else_clause {
            Some(b) => compilable_stmt(*b),
            None => true,
        },
        Statement::While { condition, body, .. } => compilable_expr(condition) && compilable_stmt(*body),
        Statement::For { init, condition, update, body, .. } => compilable_expr(init) && compilable_expr(condition)
            && compilable_expr(update) && compilable_stmt(*body),
        Statement::Return { value, .. } => match value {
            Some(v) => compilable_expr(v),
            None => true,
        },
        Statement::Throw { exception, .. } => compilable_expr(exception),
        Statement::TryCatch { try_block, catch_block, .. } => compilable_stmt(*try_block) && compilable_stmt(*catch_block),
        Statement::Scope { statements, .. } => compilable_stmts(statements@),
        _ => true,
    }
}

pub open spec fn compilable_stmts(v: Seq<Statement>) -> bool
    decreases v,
{
    forall|i: int| 0 <= i < v.len() ==> compilable_stmt(#[trigger] v[i])
}

/// Whether every statement of every module compiles.
pub open spec fn compilable_modules(ms: Seq<Module>) -> bool {
    forall|i: int| 0 <= i < ms.len() ==> compilable_stmts(#[trigger] ms[i].statements@)
}


/// Compiles syntax trees to a [`CompiledProgram`].
pub struct GScriptCompiler {
    code: CodeBuffer,
    functions: Vec<CompiledFunction>,
    natives: Vec<i32>,
    loop_stack: Vec<LoopInfo>,
    enabled_optimizations: Vec<CompilerOptimization>,
    current_module_name: String,
    current_function_idx: usize,
    current_parameters: Vec<String>,
    current_locals: Vec<String>,
    current_catch_blocks: Vec<CatchBlock>,
    pending_debug_name: Option<String>,
}

/// The first position at which `name` stands in `v`.
fn position_of(v: &Vec<String>, name: &str) -> (r: Option<usize>)
    ensures
        match r {
            Some(i) => i < v@.len() && v@[i as int]@ == name@ && forall|j: int| 0 <= j < i ==> v@[j]@ != name@,
            None => forall|j: int| 0 <= j < v@.len() ==> v@[j]@ != name@,
        },
{
    let mut i: usize = 0;
    while i < v.len()
        invariant
            i <= v@.len(),
            forall|j: int| 0 <= j < i ==> v@[j]@ != name@,
        decreases v@.len() - i,
    {
        if same_text(v[i].as_str(), name) {
            return Some(i);
        }
        i += 1;
    }
    None
}

impl GScriptCompiler {
    /// The compiler's state is consistent: the current function exists, the code being
    /// written and every function already compiled are well formed, the catch regions of
    /// the current function lie inside its code, and tail calls are compiled as jumps.
    pub closed spec fn wf(&self) -> bool {
        &&& self.current_function_idx < self.functions@.len()
        &&& code_ok(self.code@, self.functions@.len())
        &&& functions_ok(self.functions@, self.functions@.len())
        &&& forall|j: int| 0 <= j < self.current_catch_blocks@.len()
            ==> catch_ok(#[trigger] self.current_catch_blocks@[j], self.code@.len())
        &&& distinct_counts(self.natives@)
        &&& self.tail_recursion_enabled()
    }

    /// The code of the function being compiled.
    pub closed spec fn current_code(&self) -> Seq<Code> {
        self.code@
    }

    /// The argument counts of the native call gates made so far.
    pub closed spec fn native_gates(&self) -> Seq<i32> {
        self.natives@
    }

    /// Whether tail calls are compiled as jumps.
    pub closed spec fn tail_recursion_enabled(&self) -> bool {
        self.enabled_optimizations@.contains(CompilerOptimization::TailRecursion)
    }

    /// A compiler with tail-call optimisation enabled.
    pub fn new() -> (r: GScriptCompiler)
        ensures
            r.native_gates() == Seq::<i32>::empty(),
            r.tail_recursion_enabled(),
            r.module() == "unknown"@,
    {
        let mut optimizations: Vec<CompilerOptimization> = Vec::new();
        optimizations.push(CompilerOptimization::TailRecursion);
        assert(optimizations@[0] == CompilerOptimization::TailRecursion);
        GScriptCompiler {
            code: CodeBuffer::new(),
            functions: Vec::new(),
            natives: Vec::new(),
            loop_stack: Vec::new(),
            enabled_optimizations: optimizations,
            current_module_name: String::from_str("unknown"),
            current_function_idx: 0,
            current_parameters: Vec::new(),
            current_locals: Vec::new(),
            current_catch_blocks: Vec::new(),
            pending_debug_name: None,
        }
    }

    fn is_enabled(&self, opt: CompilerOptimization) -> (r: bool)
        ensures
            r == self.enabled_optimizations@.contains(opt),
    {
        let mut i: usize = 0;
        while i < self.enabled_optimizations.len()
            invariant
                i <= self.enabled_optimizations@.len(),
                forall|j: int| 0 <= j < i ==> self.enabled_optimizations@[j] != opt,
            decreases self.enabled_optimizations@.len() - i,
        {
            if self.enabled_optimizations[i] == opt {
                return true;
            }
            i += 1;
        }
        false
    }

    /// The native call gate for `arg_count` arguments: the first one made for that count,
    /// or a new one.
    fn get_native_method_index(&mut self, arg_count: i32) -> (r: usize)
        requires
            distinct_counts(old(self).natives@),
        ensures
            distinct_counts(final(self).natives@),
            final(self).current_module_name == old(self).current_module_name,
            final(self).loop_stack == old(self).loop_stack,
            r < final(self).natives@.len(),
            final(self).natives@[r as int] == arg_count,
            forall|j: int| 0 <= j < r ==> old(self).natives@[j] != arg_count,
            final(self).pending_debug_name == old(self).pending_debug_name,
            final(self).natives@ == if r < old(self).natives@.len() {
                old(self).natives@
            } else {
                old(self).natives@.push(arg_count)
            },
            final(self).code == old(self).code,
            final(self).functions == old(self).functions,
            final(self).current_function_idx == old(self).current_function_idx,
            final(self).current_catch_blocks == old(self).current_catch_blocks,
            final(self).current_parameters == old(self).current_parameters,
            final(self).current_locals == old(self).current_locals,
            final(self).enabled_optimizations == old(self).enabled_optimizations,
            r == gate_index(old(self).natives@, arg_count),
            final(self).natives@ == with_gate(old(self).natives@, arg_count),
    {
        let mut i: usize = 0;
        while i < self.natives.len()
            invariant
                i <= self.natives@.len(),
                self.natives@ == old(self).natives@,
                distinct_counts(self.natives@),
                forall|j: int| 0 <= j < i ==> self.natives@[j] != arg_count,
            decreases self.natives@.len() - i,
        {
            if self.natives[i] == arg_count {
                proof {
                    lemma_gate_index(self.natives@, arg_count, i as int);
                }
                return i;
            }
            i += 1;
        }
        proof {
            lemma_no_gate(self.natives@, arg_count);
        }
        self.natives.push(arg_count);
        self.natives.len() - 1
    }

    /// Adds `name` to the current function's local variables unless it is there.
    fn register_local_variable(&mut self, name: &str)
        ensures
            final(self).pending_debug_name == old(self).pending_debug_name,
            final(self).current_module_name == old(self).current_module_name,
            final(self).loop_stack == old(self).loop_stack,
            final(self).current_locals@.len() >= old(self).current_locals@.len(),
            exists|j: int| 0 <= j < final(self).current_locals@.len() && #[trigger] final(self).current_locals@[j]@ == name@,
            names_view(final(self).current_locals@) == with_local(names_view(old(self).current_locals@), name@),
            final(self).code == old(self).code,
            final(self).functions == old(self).functions,
            final(self).natives == old(self).natives,
            final(self).current_function_idx == old(self).current_function_idx,
            final(self).current_catch_blocks == old(self).current_catch_blocks,
            final(self).current_parameters == old(self).current_parameters,
            final(self).enabled_optimizations == old(self).enabled_optimizations,
    {
        let ghost before = names_view(self.current_locals@);
        match position_of(&self.current_locals, name) {
            Some(i) => {
                assert(self.current_locals@[i as int]@ == name@);
                assert(before[i as int] == name@);
            },
            None => {
                assert(!before.contains(name@)) by {
                    if before.contains(name@) {
                        let j = choose|j: int| 0 <= j < before.len() && before[j] == name@;
                        assert(self.current_locals@[j]@ == name@);
                    }
                }
                let n = name.to_owned();
                self.current_locals.push(n);
                assert(self.current_locals@[self.current_locals@.len() - 1]@ == name@);
                assert(names_view(self.current_locals@) =~= before.push(name@));
            },
        }
    }

    /// `DEBUG line module`: the source line of the statement that follows.
    fn emit_debug(&mut self, pos: &Position)
        requires
            old(self).wf(),
        ensures
            final(self).wrote(&*old(self), debug_code(pos.line, old(self).module())),
            final(self).loop_stack == old(self).loop_stack,
            final(self).wf(),
            extends(old(self).code@, final(self).code@),
            final(self).code@.len() == old(self).code@.len() + 3,
            final(self).code@[old(self).code@.len() as int] == Code::Op(Opcode::Debug),
            final(self).code@[old(self).code@.len() + 1int] == Code::Int(pos.line),
            final(self).code@[old(self).code@.len() + 2int] matches Code::StringRef(m) && m@ == old(self).current_module_name@,
            final(self).functions == old(self).functions,
            final(self).natives == old(self).natives,
            final(self).current_function_idx == old(self).current_function_idx,
            final(self).current_parameters == old(self).current_parameters,
            final(self).current_locals == old(self).current_locals,
            final(self).enabled_optimizations == old(self).enabled_optimizations,
            final(self).current_module_name == old(self).current_module_name,
    {
        let ghost c0 = self.code@;
        self.code.emit_op(Opcode::Debug);
        self.code.emit_int(pos.line);
        let m = self.current_module_name.clone();
        self.code.emit(Code::StringRef(m));
        assert(codes_view(self.code@) =~= codes_view(old(self).code@) + debug_code(pos.line, old(self).module()));
        proof {
            lemma_extends_trans(c0, c0.push(Code::Op(Opcode::Debug)), c0.push(Code::Op(Opcode::Debug)).push(Code::Int(pos.line)));
            lemma_extends_trans(c0, c0.push(Code::Op(Opcode::Debug)).push(Code::Int(pos.line)), self.code@);
        }
    }
}

impl GScriptCompiler {
    /// `self` continues the compilation that `before` was at: still consistent, the
    /// current code extended, no function dropped, and the current function, its
    /// parameters and the settings unchanged.
    closed spec fn advanced(&self, before: &Self) -> bool {
        &&& self.wf()
        &&& extends(before.code@, self.code@)
        &&& before.functions@.len() <= self.functions@.len()
        &&& self.current_function_idx == before.current_function_idx
        &&& self.current_parameters == before.current_parameters
        &&& self.enabled_optimizations == before.enabled_optimizations
        &&& self.current_module_name == before.current_module_name
        &&& self.pending_debug_name is None
        &&& before.natives@.len() <= self.natives@.len()
        &&& forall|j: int| 0 <= j < before.natives@.len() ==> #[trigger] self.natives@[j] == before.natives@[j]
        &&& forall|j: int| 0 <= j < before.functions@.len() ==> #[trigger] self.functions@[j] == before.functions@[j]
    }

    /// `self` is `before` with `c` written after its code and nothing else changed.
    closed spec fn wrote(&self, before: &Self, c: Seq<CodeModel>) -> bool {
        &&& codes_view(self.code@) == codes_view(before.code@) + c
        &&& self.functions == before.functions
        &&& self.natives == before.natives
        &&& self.current_locals == before.current_locals
        &&& self.current_catch_blocks == before.current_catch_blocks
        &&& self.pending_debug_name == before.pending_debug_name
        &&& self.loop_stack == before.loop_stack
    }

    /// `self` is `before` with `c` written after its code, the functions `fs` added and the
    /// native call gates now `gates`, and nothing else changed.
    closed spec fn wrote_fns(&self, before: &Self, c: Seq<CodeModel>, fs: Seq<FnModel>, gates: Seq<i32>) -> bool {
        &&& codes_view(self.code@) == codes_view(before.code@) + c
        &&& fns_view(self.functions@) == fns_view(before.functions@) + fs
        &&& self.natives@ == gates
        &&& self.current_locals == before.current_locals
        &&& self.current_catch_blocks == before.current_catch_blocks
        &&& loop_view(self.loop_stack@) == loop_view(before.loop_stack@)
    }

    /// `self` is `before` with `c` written after its code, the functions `fs` added, the
    /// break jumps at `bh` and the continue jumps at `ch` recorded with the innermost loop,
    /// the local variables now `locals`, the catch regions `catches` added and the native
    /// call gates now `gates`, and nothing else changed.
    closed spec fn wrote_stmt(
        &self,
        before: &Self,
        c: Seq<CodeModel>,
        fs: Seq<FnModel>,
        bh: Seq<int>,
        ch: Seq<int>,
        locals: Seq<Seq<char>>,
        catches: Seq<(usize, usize, usize)>,
        gates: Seq<i32>,
    ) -> bool {
        &&& codes_view(self.code@) == codes_view(before.code@) + c
        &&& fns_view(self.functions@) == fns_view(before.functions@) + fs
        &&& self.natives@ == gates
        &&& self.locals() == locals
        &&& catch_view(self.current_catch_blocks@) == catch_view(before.current_catch_blocks@) + catches
        &&& recorded(before.loop_stack@, self.loop_stack@, bh, ch)
    }

    /// `self` is `before` after compiling the expression `e`, a function defined directly by
    /// it named `name`: its code written, its functions added, nothing else changed.
    closed spec fn compiled_expr(&self, before: &Self, e: Expression, name: Option<Seq<char>>) -> bool {
        let nf = before.functions@.len() as int;
        let ng = before.natives@;
        &&& self.wrote_fns(before, expr_code(e, before.params(), before.locals(), before.code@.len() as int, nf, ng),
            expr_fns(e, before.module(), nf, ng, name), expr_gates(e, ng))
        &&& self.functions@.len() == nf + expr_fn_count(e)
    }

    /// `self` is `before` after compiling the statement `s`: its code written, its
    /// functions added, its exits recorded with the innermost loop, its catch variables and
    /// catch regions added, nothing else changed.
    closed spec fn compiled_stmt(&self, before: &Self, s: Statement) -> bool {
        let nf = before.functions@.len() as int;
        let ng = before.natives@;
        let cur = before.current_function_idx as int;
        let (p, l, m, b) = (before.params(), before.locals(), before.module(), before.code@.len() as int);
        &&& self.wrote_stmt(before, stmt_code(s, p, l, m, b, None, None, nf, ng, cur), stmt_fns(s, m, nf, ng),
            exit_holes(s, p, l, m, b, true, nf, ng, cur), exit_holes(s, p, l, m, b, false, nf, ng, cur),
            stmt_locals(s, l), stmt_catches(s, p, l, m, b, nf, ng, cur), stmt_gates(s, ng))
        &&& self.functions@.len() == nf + stmt_fn_count(s)
    }

    /// `self` is `before` after compiling the first `k` statements of `v`.
    closed spec fn compiled_stmts(&self, before: &Self, v: Seq<Statement>, k: int) -> bool {
        let nf = before.functions@.len() as int;
        let ng = before.natives@;
        let cur = before.current_function_idx as int;
        let (p, l, m, b) = (before.params(), before.locals(), before.module(), before.code@.len() as int);
        &&& self.wrote_stmt(before, stmts_code(v, p, l, m, b, k, None, None, nf, ng, cur), stmts_fns(v, m, nf, ng, k),
            stmts_exit_holes(v, p, l, m, b, k, true, nf, ng, cur), stmts_exit_holes(v, p, l, m, b, k, false, nf, ng, cur),
            stmts_locals(v, l, k), stmts_catches(v, p, l, m, b, k, nf, ng, cur), stmts_gates(v, k, ng))
        &&& self.functions@.len() == nf + stmts_fn_count(v, k)
    }

    /// The parameters of the function being compiled.
    closed spec fn params(&self) -> Seq<Seq<char>> {
        names_view(self.current_parameters@)
    }

    /// The local variables of the function being compiled.
    closed spec fn locals(&self) -> Seq<Seq<char>> {
        names_view(self.current_locals@)
    }

    /// The name of the module being compiled, as debug records give it.
    pub closed spec fn module(&self) -> Seq<char> {
        self.current_module_name@
    }

    /// Compiles the expressions of `v` one after the other.
    #[verifier::spinoff_prover]
    fn compile_expressions(&mut self, v: &Vec<Expression>)
        requires
            old(self).wf(),
            old(self).pending_debug_name is None,
            compilable_exprs(v@),
        ensures
            plain_exprs(v@) ==> final(self).wrote_fns(&*old(self),
                exprs_code(v@, old(self).params(), old(self).locals(), old(self).code@.len() as int, v@.len() as int, old(self).functions@.len() as int, old(self).natives@),
                exprs_fns(v@, old(self).module(), old(self).functions@.len() as int, old(self).natives@, v@.len() as int),
                exprs_gates(v@, v@.len() as int, old(self).natives@)),
            plain_exprs(v@) ==> final(self).functions@.len() == old(self).functions@.len() + exprs_fn_count(v@, v@.len() as int),
            final(self).advanced(&*old(self)),
            final(self).loop_stack@.len() == old(self).loop_stack@.len(),
        decreases *v, 1int,
    {
        let ghost p = old(self).params();
        let ghost l = old(self).locals();
        let ghost m = old(self).module();
        let ghost b = old(self).code@.len() as int;
        let ghost nf = old(self).functions@.len() as int;
        let ghost ng = old(self).natives@;
        let ghost cur = old(self).current_function_idx as int;
        proof {
            assert(codes_view(self.code@) =~= codes_view(old(self).code@) + Seq::<CodeModel>::empty());
            assert(fns_view(self.functions@) =~= fns_view(old(self).functions@) + Seq::<FnModel>::empty());
        }
        let mut i: usize = 0;
        while i < v.len()
            invariant
                i <= v@.len(),
                compilable_exprs(v@),
                self.advanced(&*old(self)),
                self.loop_stack@.len() == old(self).loop_stack@.len(),
                p == old(self).params(),
                l == old(self).locals(),
                m == old(self).module(),
                b == old(self).code@.len(),
                nf == old(self).functions@.len(),
                ng == old(self).natives@,
                plain_exprs(v@) ==> self.wrote_fns(&*old(self), exprs_code(v@, p, l, b, i as int, nf, ng), exprs_fns(v@, m, nf, ng, i as int),
                    exprs_gates(v@, i as int, ng)),
                plain_exprs(v@) ==> self.functions@.len() == nf + exprs_fn_count(v@, i as int),
            decreases v@.len() - i,
        {
            assert(compilable_expr(v@[i as int]));
            let ghost before = *self;
            self.compile_expression(&v[i]);
            proof {
                if plain_exprs(v@) {
                    assert(plain_expr(v@[i as int]));
                    let prev = exprs_code(v@, p, l, b, i as int, nf, ng);
                    assert(before.code@.len() == b + prev.len());
                    assert(before.params() == p && before.locals() == l && before.module() == m);
                    assert(codes_view(self.code@) =~= codes_view(old(self).code@) + exprs_code(v@, p, l, b, i + 1, nf, ng));
                    assert(fns_view(self.functions@) =~= fns_view(old(self).functions@) + exprs_fns(v@, m, nf, ng, i + 1));
                }
            }
            i += 1;
        }
    }

    /// Compiles the statements of `v` one after the other.
    #[verifier::spinoff_prover]
    fn compile_statements(&mut self, v: &Vec<Statement>)
        requires
            old(self).wf(),
            old(self).pending_debug_name is None,
            compilable_stmts(v@),
        ensures
            plain_stmts(v@) ==> final(self).compiled_stmts(&*old(self), v@, v@.len() as int),
            final(self).advanced(&*old(self)),
            final(self).loop_stack@.len() == old(self).loop_stack@.len(),
        decreases *v, 1int,
    {
        let ghost p = old(self).params();
        let ghost l = old(self).locals();
        let ghost m = old(self).module();
        let ghost b = old(self).code@.len() as int;
        let ghost nf = old(self).functions@.len() as int;
        let ghost ng = old(self).natives@;
        let ghost cur = old(self).current_function_idx as int;
        proof {
            lemma_recorded_same(old(self).loop_stack@, self.loop_stack@);
            assert(codes_view(self.code@) =~= codes_view(old(self).code@) + Seq::<CodeModel>::empty());
            assert(fns_view(self.functions@) =~= fns_view(old(self).functions@) + Seq::<FnModel>::empty());
            assert(catch_view(self.current_catch_blocks@) =~= catch_view(old(self).current_catch_blocks@)
                + Seq::<(usize, usize, usize)>::empty());
        }
        let mut i: usize = 0;
        while i < v.len()
            invariant
                i <= v@.len(),
                compilable_stmts(v@),
                self.advanced(&*old(self)),
                self.loop_stack@.len() == old(self).loop_stack@.len(),
                p == old(self).params(),
                l == old(self).locals(),
                m == old(self).module(),
                b == old(self).code@.len(),
                nf == old(self).functions@.len(),
                ng == old(self).natives@,
                cur == old(self).current_function_idx,
                plain_stmts(v@) ==> self.compiled_stmts(&*old(self), v@, i as int),
            decreases v@.len() - i,
        {
            assert(compilable_stmt(v@[i as int]));
            let ghost before = *self;
            self.compile_statement(&v[i]);
            proof {
                if plain_stmts(v@) {
                    assert(plain_stmt(v@[i as int]));
                    let prev = stmts_code(v@, p, l, m, b, i as int, None, None, nf, ng, cur);
                    let n1 = nf + stmts_fn_count(v@, i as int);
                    let g1 = stmts_gates(v@, i as int, ng);
                    let li = stmts_locals(v@, l, i as int);
                    assert(before.params() == p && before.locals() == li && before.module() == m);
                    assert(before.code@.len() == b + prev.len());
                    assert(before.current_function_idx == cur);
                    lemma_recorded_trans(old(self).loop_stack@, before.loop_stack@, self.loop_stack@,
                        stmts_exit_holes(v@, p, l, m, b, i as int, true, nf, ng, cur), stmts_exit_holes(v@, p, l, m, b, i as int, false, nf, ng, cur),
                        exit_holes(v@[i as int], p, li, m, b + prev.len(), true, n1, g1, cur), exit_holes(v@[i as int], p, li, m, b + prev.len(), false, n1, g1, cur));
                    assert(codes_view(self.code@) =~= codes_view(old(self).code@) + stmts_code(v@, p, l, m, b, i + 1, None, None, nf, ng, cur));
                    assert(fns_view(self.functions@) =~= fns_view(old(self).functions@) + stmts_fns(v@, m, nf, ng, i + 1));
                    assert(catch_view(self.current_catch_blocks@) =~= catch_view(old(self).current_catch_blocks@)
                        + stmts_catches(v@, p, l, m, b, i + 1, nf, ng, cur));
                }
            }
            i += 1;
        }
    }

    /// `LDC_D 0 Undefined`: the undefined value.
    fn emit_undefined(&mut self)
        requires
            old(self).wf(),
            old(self).pending_debug_name is None,
        ensures
            final(self).wrote(&*old(self), seq![CodeModel::Op(Opcode::LdcD), CodeModel::Int(0), CodeModel::Text("Undefined"@)]),
            final(self).advanced(&*old(self)),
            final(self).loop_stack@.len() == old(self).loop_stack@.len(),
    {
        self.code.emit_op(Opcode::LdcD);
        self.code.emit_int(0);
        self.code.emit_text("Undefined");
        assert(codes_view(self.code@) =~= codes_view(old(self).code@) + seq![CodeModel::Op(Opcode::LdcD), CodeModel::Int(0), CodeModel::Text("Undefined"@)]);
    }

    /// `LDC_D <pool reference of text> String`: a string constant.
    fn emit_string_constant(&mut self, text: &str)
        requires
            old(self).wf(),
            old(self).pending_debug_name is None,
        ensures
            final(self).wrote(&*old(self), string_constant(text@)),
            final(self).advanced(&*old(self)),
            final(self).loop_stack@.len() == old(self).loop_stack@.len(),
    {
        self.code.emit_op(Opcode::LdcD);
        self.code.emit(Code::StringRef(text.to_owned()));
        self.code.emit_text("String");
        assert(codes_view(self.code@) =~= codes_view(old(self).code@) + string_constant(text@));
    }

    /// `LDC_D <number> Number`: a number constant.
    fn emit_number_constant(&mut self, value: i32)
        requires
            old(self).wf(),
            old(self).pending_debug_name is None,
        ensures
            final(self).wrote(&*old(self), number_constant(value)),
            final(self).advanced(&*old(self)),
            final(self).loop_stack@.len() == old(self).loop_stack@.len(),
    {
        self.code.emit_op(Opcode::LdcD);
        self.code.emit_int(value);
        self.code.emit_text("Number");
        assert(codes_view(self.code@) =~= codes_view(old(self).code@) + number_constant(value));
    }

    /// Compiles a function: its body in a code stream of its own, then an implicit
    /// `return undefined` unless the body ends in a return. `return_this` appends a
    /// `return this` at that position to the body. Gives the new function's index, and
    /// emits `LDC_D <function> Function` into the current code.
    #[verifier::spinoff_prover]
    fn compile_function(&mut self, parameters: &Vec<String>, statements: &Vec<Statement>, return_this: Option<Position>) -> (r: usize)
        requires
            old(self).wf(),
            compilable_stmts(statements@),
        ensures
            final(self).advanced(&*old(self)),
            final(self).loop_stack@.len() == old(self).loop_stack@.len(),
            r < final(self).functions@.len(),
            r == old(self).functions@.len(),
            codes_view(final(self).code@) == codes_view(old(self).code@) + function_ref(r as int),
            names_view(final(self).functions@[r as int].parameters@) == names_view(parameters@),
            final(self).functions@[r as int].debug_name == old(self).pending_debug_name,
            final(self).current_locals == old(self).current_locals,
            final(self).current_catch_blocks == old(self).current_catch_blocks,
            plain_stmts(statements@) ==> {
                &&& final(self).functions@.len() == r + 1 + stmts_fn_count(statements@, statements@.len() as int)
                &&& final(self).natives@ == stmts_gates(statements@, statements@.len() as int, old(self).natives@)
                &&& fns_view(final(self).functions@) == fns_view(old(self).functions@)
                    + seq![defined_fn(statements@, names_view(parameters@), old(self).module(), return_this,
                        opt_view(old(self).pending_debug_name), r as int, old(self).natives@)]
                    + stmts_fns(statements@, old(self).module(), r + 1, old(self).natives@, statements@.len() as int)
            },
            plain_body(statements@) ==> loop_view(final(self).loop_stack@) == loop_view(old(self).loop_stack@),
        decreases *statements, 2int,
    {
        // Set the caller's state aside.
        let mut saved_code = CodeBuffer::new();
        std::mem::swap(&mut self.code, &mut saved_code);
        let saved_function_idx = self.current_function_idx;
        let mut saved_parameters = clone_names(parameters);
        std::mem::swap(&mut self.current_parameters, &mut saved_parameters);
        let mut saved_locals: Vec<String> = Vec::new();
        std::mem::swap(&mut self.current_locals, &mut saved_locals);
        let mut saved_catch_blocks: Vec<CatchBlock> = Vec::new();
        std::mem::swap(&mut self.current_catch_blocks, &mut saved_catch_blocks);
        let ghost n0 = self.functions@.len();
        let ghost ng = old(self).natives@;

        let debug_name = self.pending_debug_name.take();
        let index = self.functions.len();
        self.functions.push(CompiledFunction {
            code: Vec::new(),
            parameters: clone_names(parameters),
            locals: Vec::new(),
            debug_name: None,
            catch_blocks: Vec::new(),
        });
        self.current_function_idx = index;
        proof {
            lemma_functions_ok_more(old(self).functions@, n0, self.functions@.len());
            assert forall|j: int| 0 <= j < self.functions@.len() implies function_ok(#[trigger] self.functions@[j], self.functions@.len()) by {
                if j < n0 {
                    assert(self.functions@[j] == old(self).functions@[j]);
                }
            }
        }

        proof {
            assert(self.params() =~= names_view(parameters@));
            assert(self.locals() =~= Seq::<Seq<char>>::empty());
        }
        let ghost before_body = *self;
        self.compile_statements(statements);
        let ghost s_body = *self;
        let ghost k = statements@.len() as int;
        let ghost body_code = stmts_code(statements@, names_view(parameters@), Seq::empty(), old(self).module(), 0, k, None, None, index + 1, ng, index as int);
        assert(plain_stmts(statements@) ==> codes_view(self.code@) == body_code
            && self.functions@.len() == index + 1 + stmts_fn_count(statements@, k)
            && self.natives@ == stmts_gates(statements@, k, ng));
        proof {
            if plain_body(statements@) {
                lemma_plain_body(statements@);
                lemma_no_stmts_exit_holes(statements@, names_view(parameters@), Seq::empty(), old(self).module(), 0, k, true, index + 1, ng, index as int);
                lemma_no_stmts_exit_holes(statements@, names_view(parameters@), Seq::empty(), old(self).module(), 0, k, false, index + 1, ng, index as int);
                lemma_recorded_nothing(before_body.loop_stack@, self.loop_stack@);
            }
        }
        let mut needs_implicit_return = true;
        if statements.len() > 0 {
            if let Statement::Return { .. } = &statements[statements.len() - 1] {
                needs_implicit_return = false;
            }
        }
        match return_this {
            Some(pos) => {
                // `return this`
                self.emit_debug(&pos);
                self.code.emit_op(Opcode::Lds);
                self.code.emit_int(0);
                self.code.emit_op(Opcode::Return);
            },
            None => {
                if needs_implicit_return {
                    self.emit_undefined();
                    self.code.emit_op(Opcode::Return);
                }
            },
        }

        assert(plain_stmts(statements@) ==> codes_view(self.code@)
            == function_code(statements@, names_view(parameters@), old(self).module(), return_this, index + 1, ng));
        // Store the function and return to the caller's state.
        std::mem::swap(&mut self.code, &mut saved_code);
        std::mem::swap(&mut self.current_locals, &mut saved_locals);
        std::mem::swap(&mut self.current_catch_blocks, &mut saved_catch_blocks);
        std::mem::swap(&mut self.current_parameters, &mut saved_parameters);
        self.current_function_idx = saved_function_idx;
        let ghost n1 = self.functions@.len();
        let f = CompiledFunction {
            code: saved_code.into_items(),
            parameters: clone_names(parameters),
            locals: saved_locals,
            debug_name,
            catch_blocks: saved_catch_blocks,
        };
        assert(function_ok(f, n1));
        let ghost fs1 = self.functions@;
        self.functions.set(index, f);
        proof {
            assert forall|j: int| 0 <= j < self.functions@.len() implies function_ok(#[trigger] self.functions@[j], self.functions@.len()) by {
                if j != index {
                    assert(function_ok(fs1[j], n1));
                }
            }
            lemma_code_ok_more_functions(old(self).code@, n0, n1);
        }
        self.code.emit_op(Opcode::LdcD);
        self.code.emit_function_ref(index);
        self.code.emit_text("Function");
        assert(codes_view(self.code@) =~= codes_view(old(self).code@) + function_ref(index as int));
        proof {
            if plain_stmts(statements@) {
                let d = defined_fn(statements@, names_view(parameters@), old(self).module(), return_this,
                    opt_view(old(self).pending_debug_name), index as int, old(self).natives@);
                assert(names_view(self.functions@[index as int].parameters@) =~= names_view(parameters@));
                assert(names_view(self.functions@[index as int].locals@) == stmts_locals(statements@, Seq::empty(), k)) by {
                    assert(before_body.locals() == Seq::<Seq<char>>::empty());
                }
                assert(catch_view(self.functions@[index as int].catch_blocks@)
                    =~= stmts_catches(statements@, names_view(parameters@), Seq::empty(), old(self).module(), 0, k, index + 1, ng, index as int)) by {
                    assert(catch_view(before_body.current_catch_blocks@) =~= Seq::<(usize, usize, usize)>::empty());
                }
                assert(fn_view(self.functions@[index as int]) == d);
                assert(fns_view(s_body.functions@) == fns_view(before_body.functions@)
                    + stmts_fns(statements@, old(self).module(), index + 1, ng, k));
                let sf = stmts_fns(statements@, old(self).module(), index + 1, ng, k);
                let n0 = old(self).functions@.len() as int;
                let g0 = old(self).natives@;
                lemma_stmts_fns_len(statements@, old(self).module(), index + 1, ng, k);
                assert(before_body.module() == old(self).module());
                assert(before_body.functions@.len() == index + 1);
                assert(fns_view(s_body.functions@) == fns_view(before_body.functions@) + sf);
                assert(self.functions@.len() == s_body.functions@.len());
                assert(fns_view(s_body.functions@).len() == s_body.functions@.len());
                assert(fns_view(self.functions@) =~= fns_view(old(self).functions@) + seq![d] + sf) by {
                    assert forall|j: int| 0 <= j < self.functions@.len() implies #[trigger] fns_view(self.functions@)[j]
                        == (fns_view(old(self).functions@) + seq![d] + sf)[j] by {
                        if j < n0 {
                            assert(self.functions@[j] == s_body.functions@[j]);
                            assert(fns_view(s_body.functions@)[j] == fns_view(before_body.functions@)[j]);
                            assert(before_body.functions@[j] == old(self).functions@[j]);
                        } else if j > n0 {
                            assert(self.functions@[j] == s_body.functions@[j]);
                            assert(fns_view(s_body.functions@)[j] == sf[j - n0 - 1]);
                        }
                    }
                }
            }
        }
        index
    }
}

impl GScriptCompiler {
    /// Compiles an expression: code that leaves its value on the stack.
    #[verifier::spinoff_prover]
    #[verifier::rlimit(50)]
    #[verifier::loop_isolation(false)]
    fn compile_expression(&mut self, expr: &Expression)
        requires
            old(self).wf(),
            old(self).pending_debug_name is None || *expr is FunctionDef,
            compilable_expr(*expr),
        ensures
            plain_expr(*expr) ==> final(self).compiled_expr(&*old(self), *expr, opt_view(old(self).pending_debug_name)),
            final(self).advanced(&*old(self)),
            final(self).loop_stack@.len() == old(self).loop_stack@.len(),
        decreases *expr, 3int,
    {
        match expr {
            Expression::Additive(lhs, op, rhs) => {
                self.compile_expression(lhs);
                self.compile_expression(rhs);
                if same_text(op.as_str(), "+") {
                    self.code.emit_op(Opcode::Add);
                } else {
                    self.code.emit_op(Opcode::Sub);
                }
            },
            Expression::Multiplicative(lhs, op, rhs) => {
                self.compile_expression(lhs);
                self.compile_expression(rhs);
                if same_text(op.as_str(), "*") {
                    self.code.emit_op(Opcode::Mult);
                } else if same_text(op.as_str(), "/") {
                    self.code.emit_op(Opcode::Div);
                } else {
                    self.code.emit_op(Opcode::Mod);
                }
            },
            Expression::And(lhs, rhs) => {
                self.compile_expression(lhs);
                self.compile_expression(rhs);
                self.code.emit_op(Opcode::And);
            },
            Expression::Or(lhs, rhs) => {
                self.compile_expression(lhs);
                self.compile_expression(rhs);
                self.code.emit_op(Opcode::Or);
            },
            Expression::Not(arg) => {
                self.compile_expression(arg);
                self.code.emit_op(Opcode::Not);
            },
            Expression::Equality(lhs, op, rhs) => {
                self.compile_expression(lhs);
                self.compile_expression(rhs);
                self.code.emit_op(Opcode::Eql);
                if !same_text(op.as_str(), "==") {
                    self.code.emit_op(Opcode::Not);
                }
            },
            Expression::Relational(..) => {
                self.compile_relational(expr);
            },
            Expression::Assignment { .. } => {
                self.compile_assignment(expr);
            },
            Expression::Constant { .. } => {
                self.compile_constant(expr);
            },
            Expression::Variable { .. } => {
                self.compile_variable(expr);
            },
            Expression::This { field } => {
                self.code.emit_op(Opcode::Lds);
                self.code.emit_int(0);
                if let Some(f) = field {
                    self.compile_expression(f);
                }
            },
            Expression::FunctionCall { .. } => {
                self.compile_call(expr);
            },
            Expression::FunctionDef { parameters, statements } => {
                proof {
                    if plain_expr(*expr) {
                        lemma_plain_body(statements@);
                    }
                }
                self.compile_function(parameters, statements, None);
            },
            Expression::NativeFunctionCall { .. } => {
                self.compile_native_call(expr);
            },
            Expression::ConstructorCall { function } => {
                self.compile_expression(function);
            },
            Expression::ImplicitConstructor { .. } => {
                self.compile_implicit_constructor(expr);
            },
            Expression::ArrayDefinition { .. } => {
                self.compile_array_definition(expr);
            },
            Expression::ArrayReference { index, reference } => {
                self.compile_expression(reference);
                self.compile_expression(index);
                self.code.emit_op(Opcode::Get);
            },
            Expression::MapDefinition { .. } => {
                self.compile_map_definition(expr);
            },
            Expression::Fork => {
                self.code.emit_op(Opcode::Fork);
            },
            Expression::PostFixOperator { .. } => {
                self.compile_postfix(expr);
            },
            Expression::Conditional { .. } => {
                self.compile_conditional(expr);
            },
        }
        proof {
            if plain_expr(*expr) {
                assert(codes_view(self.code@) =~= codes_view(old(self).code@) + expr_code(*expr, old(self).params(), old(self).locals(), old(self).code@.len() as int, old(self).functions@.len() as int, old(self).natives@));
                assert(fns_view(self.functions@) =~= fns_view(old(self).functions@) + expr_fns(*expr, old(self).module(), old(self).functions@.len() as int, old(self).natives@, opt_view(old(self).pending_debug_name)));
                lemma_expr_fns_len(*expr, old(self).module(), old(self).functions@.len() as int, old(self).natives@, opt_view(old(self).pending_debug_name));
            }
        }
    }

    /// `>`, `<`, and `>=` and `<=` as the strict comparison or equality.
    #[verifier::spinoff_prover]
    #[verifier::loop_isolation(false)]
    fn compile_relational(&mut self, expr: &Expression)
        requires
            old(self).wf(),
            old(self).pending_debug_name is None,
            *expr is Relational,
            compilable_expr(*expr),
        ensures
            plain_expr(*expr) ==> final(self).compiled_expr(&*old(self), *expr, None),
            final(self).advanced(&*old(self)),
            final(self).loop_stack@.len() == old(self).loop_stack@.len(),
        decreases *expr, 2int,
    {
        match expr {
            Expression::Relational(lhs, op, rhs) => {
            if same_text(op.as_str(), ">") {
                self.compile_expression(lhs);
                self.compile_expression(rhs);
                self.code.emit_op(Opcode::Gt);
            } else if same_text(op.as_str(), "<") {
                self.compile_expression(lhs);
                self.compile_expression(rhs);
                self.code.emit_op(Opcode::Lt);
            } else {
                // `a >= b` is `(a > b) || (a == b)`, and `a <= b` is `(a < b) || (a == b)`.
                let strict = if same_text(op.as_str(), ">=") { Opcode::Gt } else { Opcode::Lt };
                self.compile_expression(lhs);
                self.compile_expression(rhs);
                self.code.emit_op(strict);
                self.compile_expression(lhs);
                self.compile_expression(rhs);
                self.code.emit_op(Opcode::Eql);
                self.code.emit_op(Opcode::Or);
            }
            },
            _ => {},
        }
        proof {
            if plain_expr(*expr) {
                assert(codes_view(self.code@) =~= codes_view(old(self).code@) + expr_code(*expr, old(self).params(), old(self).locals(), old(self).code@.len() as int, old(self).functions@.len() as int, old(self).natives@));
                assert(fns_view(self.functions@) =~= fns_view(old(self).functions@) + expr_fns(*expr, old(self).module(), old(self).functions@.len() as int, old(self).natives@, None));
                lemma_expr_fns_len(*expr, old(self).module(), old(self).functions@.len() as int, old(self).natives@, None);
            }
        }
    }

    /// `=` and the compound assignments.
    #[verifier::spinoff_prover]
    #[verifier::loop_isolation(false)]
    fn compile_assignment(&mut self, expr: &Expression)
        requires
            old(self).wf(),
            old(self).pending_debug_name is None,
            *expr is Assignment,
            compilable_expr(*expr),
        ensures
            plain_expr(*expr) ==> final(self).compiled_expr(&*old(self), *expr, None),
            final(self).advanced(&*old(self)),
            final(self).loop_stack@.len() == old(self).loop_stack@.len(),
        decreases *expr, 2int,
    {
        match expr {
            Expression::Assignment { value, operator, variable } => {
            let compound = match operator {
                None => None,
                Some(o) => {
                    if same_text(o.as_str(), "+=") {
                        Some(Opcode::Add)
                    } else if same_text(o.as_str(), "-=") {
                        Some(Opcode::Sub)
                    } else if same_text(o.as_str(), "*=") {
                        Some(Opcode::Mult)
                    } else if same_text(o.as_str(), "/=") {
                        Some(Opcode::Div)
                    } else {
                        None
                    }
                },
            };
            assert(compound == assign_op(*operator));
            let ghost p = old(self).params();
            let ghost l = old(self).locals();
            let ghost b = old(self).code@.len() as int;
            let ghost m = old(self).module();
            let ghost nf = old(self).functions@.len() as int;
        let ghost ng = old(self).natives@;
        let ghost cur = old(self).current_function_idx as int;
            proof {
                if plain_expr(*expr) {
                    assert(plain_expr(**value));
                }
            }
            match compound {
                None => {
                    // A function assigned to a name is named after it.
                    if let Expression::FunctionDef { .. } = &**value {
                        match &**variable {
                            Expression::Variable { name, field: None } => {
                                self.pending_debug_name = Some(name.clone());
                            },
                            Expression::This { field: Some(f) } => {
                                if let Expression::Variable { name, field: None } = &**f {
                                    self.pending_debug_name = Some(name.clone());
                                }
                            },
                            _ => {},
                        }
                    }
                    let ghost named = *self;
                    self.compile_expression(value);
                    self.compile_expression(variable);
                    self.code.emit_op(Opcode::Put);
                    proof {
                        if plain_expr(*expr) {
                            let dn = assigned_fn_name(**variable);
                            if **value is FunctionDef {
                                assert(opt_view(named.pending_debug_name) == dn);
                            } else {
                                assert(expr_fns(**value, m, nf, ng, opt_view(named.pending_debug_name)) == expr_fns(**value, m, nf, ng, dn));
                            }
                            let cv = expr_code(**value, p, l, b, nf, ng);
                            let cw = expr_code(**variable, p, l, b + cv.len(), nf + expr_fn_count(**value), expr_gates(**value, ng));
                            assert(codes_view(self.code@) =~= codes_view(old(self).code@) + (cv + cw + seq![CodeModel::Op(Opcode::Put)]));
                            assert(expr_code(*expr, p, l, b, nf, ng) == cv + cw + seq![CodeModel::Op(Opcode::Put)]);
                            assert(fns_view(self.functions@) =~= fns_view(old(self).functions@)
                                + (expr_fns(**value, m, nf, ng, dn) + expr_fns(**variable, m, nf + expr_fn_count(**value), expr_gates(**value, ng), None)));
                            assert(expr_fns(*expr, m, nf, ng, None) == expr_fns(**value, m, nf, ng, dn)
                                + expr_fns(**variable, m, nf + expr_fn_count(**value), expr_gates(**value, ng), None));
                            lemma_expr_fns_len(*expr, m, nf, ng, None);
                        }
                    }
                },
                Some(arith) => {
                    self.compile_expression(variable);
                    self.compile_expression(value);
                    self.code.emit_op(arith);
                    self.compile_expression(variable);
                    self.code.emit_op(Opcode::Put);
                    proof {
                        if plain_expr(*expr) {
                            let n1 = nf + expr_fn_count(**variable);
                            let g1 = expr_gates(**variable, ng);
                            let n2 = n1 + expr_fn_count(**value);
                            let g2 = expr_gates(**value, g1);
                            let c1 = expr_code(**variable, p, l, b, nf, ng);
                            let c2 = expr_code(**value, p, l, b + c1.len(), n1, g1);
                            let c3 = expr_code(**variable, p, l, b + c1.len() + c2.len() + 1, n2, g2);
                            assert(codes_view(self.code@) =~= codes_view(old(self).code@)
                                + (c1 + c2 + seq![CodeModel::Op(arith)] + c3 + seq![CodeModel::Op(Opcode::Put)]));
                            assert(expr_code(*expr, p, l, b, nf, ng) == c1 + c2 + seq![CodeModel::Op(arith)] + c3 + seq![CodeModel::Op(Opcode::Put)]);
                            assert(fns_view(self.functions@) =~= fns_view(old(self).functions@)
                                + (expr_fns(**variable, m, nf, ng, None) + expr_fns(**value, m, n1, g1, None) + expr_fns(**variable, m, n2, g2, None)));
                            lemma_expr_fns_len(*expr, m, nf, ng, None);
                        }
                    }
                },
            }
            },
            _ => {},
        }
    }

    /// A constant: a string, an object constructor, or a typed number.
    #[verifier::spinoff_prover]
    #[verifier::loop_isolation(false)]
    fn compile_constant(&mut self, expr: &Expression)
        requires
            old(self).wf(),
            old(self).pending_debug_name is None,
            *expr is Constant,
            compilable_expr(*expr),
        ensures
            plain_expr(*expr) ==> final(self).compiled_expr(&*old(self), *expr, None),
            final(self).advanced(&*old(self)),
            final(self).loop_stack@.len() == old(self).loop_stack@.len(),
        decreases *expr, 2int,
    {
        match expr {
            Expression::Constant { value, type_label, string } => {
            match string {
                Some(text) => {
                    self.emit_string_constant(text.as_str());
                },
                None => {
                    if *value == -1 {
                        // An object constructor.
                        self.code.emit_op(Opcode::New);
                        self.code.emit_text(type_label.as_str());
                    } else {
                        self.code.emit_op(Opcode::LdcD);
                        self.code.emit_int(*value);
                        self.code.emit_text(type_label.as_str());
                    }
                },
            }
            },
            _ => {},
        }
        proof {
            if plain_expr(*expr) {
                assert(codes_view(self.code@) =~= codes_view(old(self).code@) + expr_code(*expr, old(self).params(), old(self).locals(), old(self).code@.len() as int, old(self).functions@.len() as int, old(self).natives@));
                assert(fns_view(self.functions@) =~= fns_view(old(self).functions@) + expr_fns(*expr, old(self).module(), old(self).functions@.len() as int, old(self).natives@, None));
                lemma_expr_fns_len(*expr, old(self).module(), old(self).functions@.len() as int, old(self).natives@, None);
            }
        }
    }

    /// A variable: a parameter or local slot, a field of a value, or a lookup by name.
    #[verifier::spinoff_prover]
    #[verifier::loop_isolation(false)]
    fn compile_variable(&mut self, expr: &Expression)
        requires
            old(self).wf(),
            old(self).pending_debug_name is None,
            *expr is Variable,
            compilable_expr(*expr),
        ensures
            plain_expr(*expr) ==> final(self).compiled_expr(&*old(self), *expr, None),
            final(self).advanced(&*old(self)),
            final(self).loop_stack@.len() == old(self).loop_stack@.len(),
        decreases *expr, 2int,
    {
        match expr {
            Expression::Variable { name, field } => {
            let param = if field.is_none() { position_of(&self.current_parameters, name.as_str()) } else { None };
            let local = if field.is_none() && param.is_none() { position_of(&self.current_locals, name.as_str()) } else { None };
            match (param, local) {
                (Some(idx), _) => {
                    // A parameter: its stack slot.
                    proof {
                        lemma_slot_of(self.current_parameters@, name@, idx as int);
                    }
                    self.code.emit_op(Opcode::Lds);
                    self.code.emit_int((1u128 + idx as u128) as i32);
                },
                (None, Some(idx)) => {
                    // A local variable: its stack slot after the parameters.
                    proof {
                        lemma_slot_of(self.current_locals@, name@, idx as int);
                        lemma_no_slot(self.current_parameters@, name@);
                    }
                    self.code.emit_op(Opcode::Lds);
                    let slot = 1u128 + self.current_parameters.len() as u128 + idx as u128;
                    self.code.emit_int(slot as i32);
                },
                (None, None) => {
                    proof {
                        if field is None {
                            lemma_no_slot(self.current_parameters@, name@);
                            lemma_no_slot(self.current_locals@, name@);
                        }
                    }
                    match field {
                        Some(parent) => {
                            // A field of the parent value.
                            self.compile_expression(parent);
                            self.emit_string_constant(name.as_str());
                            self.code.emit_op(Opcode::Get);
                        },
                        None => {
                            // A variable looked up by name.
                            self.emit_string_constant(name.as_str());
                            self.code.emit_op(Opcode::GetDynamic);
                        },
                    }
                },
            }
            },
            _ => {},
        }
        proof {
            if plain_expr(*expr) {
                assert(codes_view(self.code@) =~= codes_view(old(self).code@) + expr_code(*expr, old(self).params(), old(self).locals(), old(self).code@.len() as int, old(self).functions@.len() as int, old(self).natives@));
                assert(fns_view(self.functions@) =~= fns_view(old(self).functions@) + expr_fns(*expr, old(self).module(), old(self).functions@.len() as int, old(self).natives@, None));
                lemma_expr_fns_len(*expr, old(self).module(), old(self).functions@.len() as int, old(self).natives@, None);
            }
        }
    }

    /// A call: receiver, arguments, function, `INVOKE`.
    #[verifier::spinoff_prover]
    #[verifier::loop_isolation(false)]
    fn compile_call(&mut self, expr: &Expression)
        requires
            old(self).wf(),
            old(self).pending_debug_name is None,
            *expr is FunctionCall,
            compilable_expr(*expr),
        ensures
            plain_expr(*expr) ==> final(self).compiled_expr(&*old(self), *expr, None),
            final(self).advanced(&*old(self)),
            final(self).loop_stack@.len() == old(self).loop_stack@.len(),
        decreases *expr, 2int,
    {
        match expr {
            Expression::FunctionCall { function, parameters, field } => {
            match field {
                None => {
                    // The receiver is `this`.
                    self.code.emit_op(Opcode::Lds);
                    self.code.emit_int(0);
                },
                Some(f) => {
                    self.compile_expression(f);
                },
            }
            self.compile_expressions(parameters);
            self.compile_expression(function);
            self.code.emit_op(Opcode::Invoke);
            self.code.emit_int(parameters.len() as i32);
            },
            _ => {},
        }
        proof {
            if plain_expr(*expr) {
                assert(codes_view(self.code@) =~= codes_view(old(self).code@) + expr_code(*expr, old(self).params(), old(self).locals(), old(self).code@.len() as int, old(self).functions@.len() as int, old(self).natives@));
                assert(fns_view(self.functions@) =~= fns_view(old(self).functions@) + expr_fns(*expr, old(self).module(), old(self).functions@.len() as int, old(self).natives@, None));
                lemma_expr_fns_len(*expr, old(self).module(), old(self).functions@.len() as int, old(self).natives@, None);
            }
        }
    }

    /// `native(...)`: its arguments, then the index of the native gate that takes that many, then `NATIVE`.
    #[verifier::spinoff_prover]
    #[verifier::loop_isolation(false)]
    fn compile_native_call(&mut self, expr: &Expression)
        requires
            old(self).wf(),
            old(self).pending_debug_name is None,
            *expr is NativeFunctionCall,
            compilable_expr(*expr),
        ensures
            plain_expr(*expr) ==> final(self).compiled_expr(&*old(self), *expr, None),
            final(self).advanced(&*old(self)),
            final(self).loop_stack@.len() == old(self).loop_stack@.len(),
        decreases *expr, 2int,
    {
        match expr {
            Expression::NativeFunctionCall { parameters } => {
            let identifier = self.get_native_method_index(parameters.len() as i32);
            self.compile_expressions(parameters);
            self.code.emit_op(Opcode::LdcD);
            self.code.emit_int(identifier as i32);
            self.code.emit_text("Function");
            self.code.emit_op(Opcode::Native);
            proof {
                if plain_expr(*expr) {
                    let nf = old(self).functions@.len() as int;
                    let ng = old(self).natives@;
                    let m = old(self).module();
                    assert(codes_view(self.code@) =~= codes_view(old(self).code@)
                        + expr_code(*expr, old(self).params(), old(self).locals(), old(self).code@.len() as int, nf, ng));
                    assert(fns_view(self.functions@) =~= fns_view(old(self).functions@) + expr_fns(*expr, m, nf, ng, None));
                    lemma_expr_fns_len(*expr, m, nf, ng, None);
                }
            }
            },
            _ => {},
        }
    }

    /// `new { ... }`: a new object initialised by its statements.
    #[verifier::spinoff_prover]
    #[verifier::loop_isolation(false)]
    fn compile_implicit_constructor(&mut self, expr: &Expression)
        requires
            old(self).wf(),
            old(self).pending_debug_name is None,
            *expr is ImplicitConstructor,
            compilable_expr(*expr),
        ensures
            plain_expr(*expr) ==> final(self).compiled_expr(&*old(self), *expr, None),
            final(self).advanced(&*old(self)),
            final(self).loop_stack@.len() == old(self).loop_stack@.len(),
        decreases *expr, 2int,
    {
        match expr {
            Expression::ImplicitConstructor { statements } => {
            // A new object, initialised by a function of the statements that returns it.
            self.code.emit_op(Opcode::New);
            self.code.emit_text("Object");
            let no_parameters: Vec<String> = Vec::new();
            proof {
                if plain_expr(*expr) {
                    lemma_plain_body(statements@);
                }
            }
            self.compile_function(&no_parameters, statements, Some(Position { line: 0, column: 0 }));
            self.code.emit_op(Opcode::Invoke);
            self.code.emit_int(0);
            proof {
                if plain_expr(*expr) {
                    let nf = old(self).functions@.len() as int;
                    let ng = old(self).natives@;
                    let m = old(self).module();
                    assert(names_view(no_parameters@) =~= Seq::<Seq<char>>::empty());
                    assert(codes_view(self.code@) =~= codes_view(old(self).code@)
                        + expr_code(*expr, old(self).params(), old(self).locals(), old(self).code@.len() as int, nf, ng));
                    assert(fns_view(self.functions@) =~= fns_view(old(self).functions@) + expr_fns(*expr, m, nf, ng, None));
                    lemma_expr_fns_len(*expr, m, nf, ng, None);
                }
            }
            },
            _ => {},
        }
    }

    /// An array literal: a new array, each element stored at its index.
    #[verifier::spinoff_prover]
    #[verifier::loop_isolation(false)]
    fn compile_array_definition(&mut self, expr: &Expression)
        requires
            old(self).wf(),
            old(self).pending_debug_name is None,
            *expr is ArrayDefinition,
            compilable_expr(*expr),
        ensures
            plain_expr(*expr) ==> final(self).compiled_expr(&*old(self), *expr, None),
            final(self).advanced(&*old(self)),
            final(self).loop_stack@.len() == old(self).loop_stack@.len(),
        decreases *expr, 2int,
    {
        let ghost p = old(self).params();
        let ghost l = old(self).locals();
        let ghost b = old(self).code@.len() as int;
        let ghost m = old(self).module();
        let ghost nf = old(self).functions@.len() as int;
        let ghost ng = old(self).natives@;
        let ghost cur = old(self).current_function_idx as int;
        match expr {
            Expression::ArrayDefinition { elements } => {
            let ghost head = seq![CodeModel::Op(Opcode::New), CodeModel::Text("Array"@)];
            self.code.emit_op(Opcode::New);
            self.code.emit_text("Array");
            assert(codes_view(self.code@) =~= codes_view(old(self).code@) + (head + elements_code(elements@, p, l, b + 2, 0, nf, ng)));
            assert(fns_view(self.functions@) =~= fns_view(old(self).functions@) + exprs_fns(elements@, m, nf, ng, 0));
            let mut counter: usize = 0;
            while counter < elements.len()
                invariant
                    counter <= elements@.len(),
                    compilable_exprs(elements@),
                    self.advanced(&*old(self)),
                    self.loop_stack@.len() == old(self).loop_stack@.len(),
                    plain_expr(*expr) ==> self.wrote_fns(&*old(self), head + elements_code(elements@, p, l, b + 2, counter as int, nf, ng),
                        exprs_fns(elements@, m, nf, ng, counter as int), exprs_gates(elements@, counter as int, ng)),
                    plain_expr(*expr) ==> self.functions@.len() == nf + exprs_fn_count(elements@, counter as int),
                decreases elements@.len() - counter,
            {
                assert(compilable_expr(elements@[counter as int]));
                let ghost before = *self;
                self.compile_expression(&elements[counter]);
                self.code.emit_op(Opcode::Lds);
                self.code.emit_int(-1);
                self.emit_number_constant(counter as i32);
                self.code.emit_op(Opcode::Get);
                self.code.emit_op(Opcode::Put);
                self.code.emit_op(Opcode::Pop);
                proof {
                    if plain_expr(*expr) {
                        assert(plain_exprs(elements@));
                        assert(plain_expr(elements@[counter as int]));
                        let prev = elements_code(elements@, p, l, b + 2, counter as int, nf, ng);
                        let n1 = nf + exprs_fn_count(elements@, counter as int);
                        let g1 = exprs_gates(elements@, counter as int, ng);
                        let ce = expr_code(elements@[counter as int], p, l, b + 2 + prev.len(), n1, g1);
                        assert(before.code@.len() == b + 2 + prev.len());
                        assert(elements_code(elements@, p, l, b + 2, counter + 1, nf, ng) == prev + ce
                            + seq![CodeModel::Op(Opcode::Lds), CodeModel::Int(-1i32)] + number_constant(counter as i32)
                            + seq![CodeModel::Op(Opcode::Get), CodeModel::Op(Opcode::Put), CodeModel::Op(Opcode::Pop)]);
                        assert(codes_view(self.code@) =~= codes_view(old(self).code@) + (head + elements_code(elements@, p, l, b + 2, counter + 1, nf, ng)));
                        assert(fns_view(self.functions@) =~= fns_view(old(self).functions@) + exprs_fns(elements@, m, nf, ng, counter + 1));
                    }
                }
                counter += 1;
            }
            },
            _ => {},
        }
        proof {
            if plain_expr(*expr) {
                assert(codes_view(self.code@) =~= codes_view(old(self).code@) + expr_code(*expr, p, l, b, nf, ng));
                assert(fns_view(self.functions@) =~= fns_view(old(self).functions@) + expr_fns(*expr, m, nf, ng, None));
                lemma_expr_fns_len(*expr, m, nf, ng, None);
            }
        }
    }

    /// A map literal: a new object, each value stored under its key.
    #[verifier::spinoff_prover]
    #[verifier::loop_isolation(false)]
    fn compile_map_definition(&mut self, expr: &Expression)
        requires
            old(self).wf(),
            old(self).pending_debug_name is None,
            *expr is MapDefinition,
            compilable_expr(*expr),
        ensures
            plain_expr(*expr) ==> final(self).compiled_expr(&*old(self), *expr, None),
            final(self).advanced(&*old(self)),
            final(self).loop_stack@.len() == old(self).loop_stack@.len(),
        decreases *expr, 2int,
    {
        let ghost p = old(self).params();
        let ghost l = old(self).locals();
        let ghost b = old(self).code@.len() as int;
        let ghost m = old(self).module();
        let ghost nf = old(self).functions@.len() as int;
        let ghost ng = old(self).natives@;
        let ghost cur = old(self).current_function_idx as int;
        match expr {
            Expression::MapDefinition { keys, values } => {
            let ghost head = seq![CodeModel::Op(Opcode::New), CodeModel::Text("Object"@)];
            self.code.emit_op(Opcode::New);
            self.code.emit_text("Object");
            assert(codes_view(self.code@) =~= codes_view(old(self).code@) + (head + entries_code(*expr, p, l, b + 2, 0, nf, ng)));
            assert(fns_view(self.functions@) =~= fns_view(old(self).functions@) + entries_fns(*expr, m, nf, ng, 0));
            let mut i: usize = 0;
            while i < keys.len()
                invariant
                    i <= keys@.len(),
                    keys@.len() <= values@.len(),
                    compilable_exprs(keys@),
                    forall|k: int| 0 <= k < keys@.len() ==> compilable_expr(#[trigger] values@[k]),
                    self.advanced(&*old(self)),
                    self.loop_stack@.len() == old(self).loop_stack@.len(),
                    plain_expr(*expr) ==> self.wrote_fns(&*old(self), head + entries_code(*expr, p, l, b + 2, i as int, nf, ng),
                        entries_fns(*expr, m, nf, ng, i as int), entries_gates(*expr, i as int, ng)),
                    plain_expr(*expr) ==> self.functions@.len() == nf + entries_fn_count(*expr, i as int),
                decreases keys@.len() - i,
            {
                assert(compilable_expr(values@[i as int]));
                assert(compilable_expr(keys@[i as int]));
                let ghost before = *self;
                self.compile_expression(&values[i]);
                self.code.emit_op(Opcode::Lds);
                self.code.emit_int(-1);
                self.compile_expression(&keys[i]);
                self.code.emit_op(Opcode::Get);
                self.code.emit_op(Opcode::Put);
                self.code.emit_op(Opcode::Pop);
                proof {
                    if plain_expr(*expr) {
                        assert(plain_expr(values@[i as int]));
                        assert(plain_exprs(keys@));
                        assert(plain_expr(keys@[i as int]));
                        let prev = entries_code(*expr, p, l, b + 2, i as int, nf, ng);
                        let n1 = nf + entries_fn_count(*expr, i as int);
                        let g1 = entries_gates(*expr, i as int, ng);
                        let cv = expr_code(values@[i as int], p, l, b + 2 + prev.len(), n1, g1);
                        let ck = expr_code(keys@[i as int], p, l, b + 2 + prev.len() + cv.len() + 2, n1 + expr_fn_count(values@[i as int]), expr_gates(values@[i as int], g1));
                        assert(before.code@.len() == b + 2 + prev.len());
                        assert(entries_code(*expr, p, l, b + 2, i + 1, nf, ng) == prev + cv
                            + seq![CodeModel::Op(Opcode::Lds), CodeModel::Int(-1i32)] + ck
                            + seq![CodeModel::Op(Opcode::Get), CodeModel::Op(Opcode::Put), CodeModel::Op(Opcode::Pop)]);
                        assert(codes_view(self.code@) =~= codes_view(old(self).code@) + (head + entries_code(*expr, p, l, b + 2, i + 1, nf, ng)));
                        assert(fns_view(self.functions@) =~= fns_view(old(self).functions@) + entries_fns(*expr, m, nf, ng, i + 1));
                    }
                }
                i += 1;
            }
            },
            _ => {},
        }
        proof {
            if plain_expr(*expr) {
                assert(codes_view(self.code@) =~= codes_view(old(self).code@) + expr_code(*expr, p, l, b, nf, ng));
                assert(fns_view(self.functions@) =~= fns_view(old(self).functions@) + expr_fns(*expr, m, nf, ng, None));
                lemma_expr_fns_len(*expr, m, nf, ng, None);
            }
        }
    }

    /// `x++` and `x--`: the old value, then the variable updated.
    #[verifier::spinoff_prover]
    #[verifier::loop_isolation(false)]
    fn compile_postfix(&mut self, expr: &Expression)
        requires
            old(self).wf(),
            old(self).pending_debug_name is None,
            *expr is PostFixOperator,
            compilable_expr(*expr),
        ensures
            plain_expr(*expr) ==> final(self).compiled_expr(&*old(self), *expr, None),
            final(self).advanced(&*old(self)),
            final(self).loop_stack@.len() == old(self).loop_stack@.len(),
        decreases *expr, 2int,
    {
        match expr {
            Expression::PostFixOperator { operator, argument } => {
            // The old value (`argument + 0`), then `argument = argument ± 1`.
            let step = if same_text(operator.as_str(), "++") { Opcode::Add } else { Opcode::Sub };
            self.compile_expression(argument);
            self.emit_number_constant(0);
            self.code.emit_op(Opcode::Add);
            self.compile_expression(argument);
            self.emit_number_constant(1);
            self.code.emit_op(step);
            self.compile_expression(argument);
            self.code.emit_op(Opcode::Put);
            self.code.emit_op(Opcode::Pop);
            },
            _ => {},
        }
        proof {
            if plain_expr(*expr) {
                assert(codes_view(self.code@) =~= codes_view(old(self).code@) + expr_code(*expr, old(self).params(), old(self).locals(), old(self).code@.len() as int, old(self).functions@.len() as int, old(self).natives@));
                assert(fns_view(self.functions@) =~= fns_view(old(self).functions@) + expr_fns(*expr, old(self).module(), old(self).functions@.len() as int, old(self).natives@, None));
                lemma_expr_fns_len(*expr, old(self).module(), old(self).functions@.len() as int, old(self).natives@, None);
            }
        }
    }

    /// `c ? a : b` with two jumps.
    #[verifier::spinoff_prover]
    #[verifier::loop_isolation(false)]
    fn compile_conditional(&mut self, expr: &Expression)
        requires
            old(self).wf(),
            old(self).pending_debug_name is None,
            *expr is Conditional,
            compilable_expr(*expr),
        ensures
            plain_expr(*expr) ==> final(self).compiled_expr(&*old(self), *expr, None),
            final(self).advanced(&*old(self)),
            final(self).loop_stack@.len() == old(self).loop_stack@.len(),
        decreases *expr, 2int,
    {
        match expr {
            Expression::Conditional { condition, positive, negative } => {
            self.compile_expression(condition);
            self.code.emit_op(Opcode::Not);
            self.code.emit_op(Opcode::Cjmp);
            let else_pos = self.code.len();
            self.code.emit_jump(None);
            self.compile_expression(positive);
            self.code.emit_op(Opcode::Jmp);
            let end_of_true = self.code.len();
            self.code.emit_jump(None);
            let here = self.code.len();
            self.code.patch(else_pos, here);
            self.compile_expression(negative);
            let end = self.code.len();
            self.code.patch(end_of_true, end);
            },
            _ => {},
        }
        proof {
            if plain_expr(*expr) {
                assert(codes_view(self.code@) =~= codes_view(old(self).code@) + expr_code(*expr, old(self).params(), old(self).locals(), old(self).code@.len() as int, old(self).functions@.len() as int, old(self).natives@));
                assert(fns_view(self.functions@) =~= fns_view(old(self).functions@) + expr_fns(*expr, old(self).module(), old(self).functions@.len() as int, old(self).natives@, None));
                lemma_expr_fns_len(*expr, old(self).module(), old(self).functions@.len() as int, old(self).natives@, None);
            }
        }
    }

    /// Whether `return expr` can reuse the current call's frame.
    fn can_optimize_tail_recursion(&self, expr: &Expression) -> (r: bool)
        ensures
            r == (expr is FunctionCall && self.enabled_optimizations@.contains(CompilerOptimization::TailRecursion)),
    {
        match expr {
            Expression::FunctionCall { .. } => self.is_enabled(CompilerOptimization::TailRecursion),
            _ => false,
        }
    }

    /// Before `return f(args)`: when `f` is the current function, stores the arguments in
    /// its parameter slots and jumps back to its start.
    #[verifier::spinoff_prover]
    #[verifier::rlimit(50)]
    #[verifier::loop_isolation(false)]
    fn generate_tail_recursion_check(&mut self, expr: &Expression)
        requires
            old(self).wf(),
            old(self).pending_debug_name is None,
            *expr is FunctionCall,
            compilable_expr(*expr),
        ensures
            plain_expr(*expr) ==> final(self).wrote_fns(&*old(self),
                tail_code(*expr, old(self).params(), old(self).locals(), old(self).code@.len() as int,
                    old(self).functions@.len() as int, old(self).natives@, old(self).current_function_idx as int),
                tail_fns(*expr, old(self).module(), old(self).functions@.len() as int, old(self).natives@),
                tail_gates(*expr, old(self).natives@)),
            plain_expr(*expr) ==> final(self).functions@.len() == old(self).functions@.len() + tail_fn_count(*expr),
            final(self).advanced(&*old(self)),
            final(self).loop_stack@.len() == old(self).loop_stack@.len(),
        decreases *expr, 4int,
    {
        let ghost p = old(self).params();
        let ghost l = old(self).locals();
        let ghost b = old(self).code@.len() as int;
        let ghost m = old(self).module();
        let ghost nf = old(self).functions@.len() as int;
        let ghost ng = old(self).natives@;
        let ghost cur = old(self).current_function_idx as int;
        if let Expression::FunctionCall { function, parameters, .. } = expr {
            self.compile_expression(function);
            self.code.emit_op(Opcode::LdcD);
            self.code.emit_function_ref(self.current_function_idx);
            self.code.emit_text("Function");
            self.code.emit_op(Opcode::Eql);
            self.code.emit_op(Opcode::Not);
            self.code.emit_op(Opcode::Cjmp);
            let jump_location = self.code.len();
            self.code.emit_jump(None);
            let ghost cf = expr_code(**function, p, l, b, nf, ng);
            let ghost n1 = nf + expr_fn_count(**function);
            let ghost g1 = expr_gates(**function, ng);
            let ghost b1 = b + cf.len() + 7;
            let ghost head = cf + seq![CodeModel::Op(Opcode::LdcD), CodeModel::FunctionRef(cur as usize), CodeModel::Text("Function"@),
                CodeModel::Op(Opcode::Eql), CodeModel::Op(Opcode::Not), CodeModel::Op(Opcode::Cjmp), CodeModel::Jump(None)];
            proof {
                if plain_expr(*expr) {
                    assert(codes_view(self.code@) =~= codes_view(old(self).code@) + head
                        + tail_args_code(parameters@, p, l, b1, 0, n1, g1));
                    assert(fns_view(self.functions@) =~= fns_view(old(self).functions@) + expr_fns(**function, m, nf, ng, None)
                        + exprs_fns(parameters@, m, n1, g1, 0));
                }
            }
            let mut x: usize = 0;
            while x < parameters.len()
                invariant
                    x <= parameters@.len(),
                    compilable_exprs(parameters@),
                    self.advanced(&*old(self)),
                    self.loop_stack@.len() == old(self).loop_stack@.len(),
                    plain_expr(*expr) ==> {
                        &&& codes_view(self.code@) == codes_view(old(self).code@) + head
                            + tail_args_code(parameters@, p, l, b1, x as int, n1, g1)
                        &&& fns_view(self.functions@) == fns_view(old(self).functions@) + expr_fns(**function, m, nf, ng, None)
                            + exprs_fns(parameters@, m, n1, g1, x as int)
                        &&& self.functions@.len() == n1 + exprs_fn_count(parameters@, x as int)
                        &&& self.natives@ == exprs_gates(parameters@, x as int, g1)
                        &&& self.current_locals == old(self).current_locals
                        &&& self.current_catch_blocks == old(self).current_catch_blocks
                        &&& loop_view(self.loop_stack@) == loop_view(old(self).loop_stack@)
                    },
                decreases parameters@.len() - x,
            {
                assert(compilable_expr(parameters@[x as int]));
                let ghost before = *self;
                self.compile_expression(&parameters[x]);
                self.code.emit_op(Opcode::Lds);
                self.code.emit_int((1usize).wrapping_add(x) as i32);
                self.code.emit_op(Opcode::Put);
                self.code.emit_op(Opcode::Pop);
                proof {
                    if plain_expr(*expr) {
                        assert(plain_exprs(parameters@));
                        assert(plain_expr(parameters@[x as int]));
                        let prev = tail_args_code(parameters@, p, l, b1, x as int, n1, g1);
                        assert(before.code@.len() == b1 + prev.len());
                        assert((1usize).wrapping_add(x) as i32 == (x + 1) as i32);
                        assert(codes_view(self.code@) =~= codes_view(old(self).code@) + head
                            + tail_args_code(parameters@, p, l, b1, x + 1, n1, g1));
                        assert(fns_view(self.functions@) =~= fns_view(old(self).functions@) + expr_fns(**function, m, nf, ng, None)
                            + exprs_fns(parameters@, m, n1, g1, x + 1));
                    }
                }
                x += 1;
            }
            self.code.emit_op(Opcode::Jmp);
            self.code.emit_jump(Some(0));
            let jump = self.code.len();
            self.code.patch(jump_location, jump);
            proof {
                if plain_expr(*expr) {
                    assert(codes_view(self.code@) =~= codes_view(old(self).code@)
                        + tail_code(*expr, p, l, b, nf, ng, cur));
                    assert(fns_view(self.functions@) =~= fns_view(old(self).functions@) + tail_fns(*expr, m, nf, ng));
                }
            }
        }
    }

    /// Patches the break and continue jumps of a finished loop.
    fn close_loop(&mut self, end_pos: usize, continue_target: usize)
        requires
            old(self).wf(),
            old(self).pending_debug_name is None,
            end_pos <= old(self).code@.len(),
            continue_target <= old(self).code@.len(),
            old(self).loop_stack@.len() > 0,
        ensures
            final(self).advanced(&*old(self)),
            final(self).code@.len() == old(self).code@.len(),
            final(self).loop_stack@ == old(self).loop_stack@.drop_last(),
            codes_view(final(self).code@) == patch_all(
                patch_all(codes_view(old(self).code@), positions(old(self).loop_stack@.last().break_positions@), end_pos),
                positions(old(self).loop_stack@.last().continue_positions@),
                continue_target,
            ),
            final(self).functions == old(self).functions,
            final(self).natives == old(self).natives,
            final(self).current_locals == old(self).current_locals,
            final(self).current_catch_blocks == old(self).current_catch_blocks,
            final(self).pending_debug_name == old(self).pending_debug_name,
    {
        let info = self.loop_stack.pop().unwrap();
        let ghost c0 = codes_view(self.code@);
        let ghost bps = positions(info.break_positions@);
        let ghost cps = positions(info.continue_positions@);
        assert(patch_all(c0, bps.subrange(0, 0), end_pos) =~= c0);
        let mut i: usize = 0;
        while i < info.break_positions.len()
            invariant
                i <= info.break_positions@.len(),
                self.advanced(&*old(self)),
                self.code@.len() == old(self).code@.len(),
                end_pos <= old(self).code@.len(),
                self.loop_stack@ == old(self).loop_stack@.drop_last(),
                bps == positions(info.break_positions@),
                codes_view(self.code@) == patch_all(c0, bps.subrange(0, i as int), end_pos),
                self.functions == old(self).functions,
                self.natives == old(self).natives,
                self.current_locals == old(self).current_locals,
                self.current_catch_blocks == old(self).current_catch_blocks,
                self.pending_debug_name == old(self).pending_debug_name,
            decreases info.break_positions@.len() - i,
        {
            let p = info.break_positions[i];
            proof {
                lemma_patch_all_push(c0, bps.subrange(0, i as int), p as int, end_pos);
                assert(bps.subrange(0, i + 1) =~= bps.subrange(0, i as int).push(p as int));
                if p < self.code@.len() {
                    assert(codes_view(self.code@)[p as int] == self.code@[p as int]@);
                }
            }
            self.code.patch(p, end_pos);
            i += 1;
        }
        assert(bps.subrange(0, bps.len() as int) =~= bps);
        let ghost c1 = codes_view(self.code@);
        assert(patch_all(c1, cps.subrange(0, 0), continue_target) =~= c1);
        let mut i: usize = 0;
        while i < info.continue_positions.len()
            invariant
                i <= info.continue_positions@.len(),
                self.advanced(&*old(self)),
                self.code@.len() == old(self).code@.len(),
                continue_target <= old(self).code@.len(),
                self.loop_stack@ == old(self).loop_stack@.drop_last(),
                cps == positions(info.continue_positions@),
                codes_view(self.code@) == patch_all(c1, cps.subrange(0, i as int), continue_target),
                self.functions == old(self).functions,
                self.natives == old(self).natives,
                self.current_locals == old(self).current_locals,
                self.current_catch_blocks == old(self).current_catch_blocks,
                self.pending_debug_name == old(self).pending_debug_name,
            decreases info.continue_positions@.len() - i,
        {
            let p = info.continue_positions[i];
            proof {
                lemma_patch_all_push(c1, cps.subrange(0, i as int), p as int, continue_target);
                assert(cps.subrange(0, i + 1) =~= cps.subrange(0, i as int).push(p as int));
                if p < self.code@.len() {
                    assert(codes_view(self.code@)[p as int] == self.code@[p as int]@);
                }
            }
            self.code.patch(p, continue_target);
            i += 1;
        }
        assert(cps.subrange(0, cps.len() as int) =~= cps);
    }

    /// Emits a jump placeholder and records it with the innermost loop, if any.
    fn emit_loop_exit(&mut self, is_break: bool)
        requires
            old(self).wf(),
            old(self).pending_debug_name is None,
        ensures
            final(self).advanced(&*old(self)),
            final(self).loop_stack@.len() == old(self).loop_stack@.len(),
            final(self).functions == old(self).functions,
            final(self).wrote_stmt(&*old(self), seq![CodeModel::Op(Opcode::Jmp), CodeModel::Jump(None)], Seq::empty(),
                if is_break { seq![old(self).code@.len() + 1int] } else { Seq::empty() },
                if is_break { Seq::empty() } else { seq![old(self).code@.len() + 1int] }, old(self).locals(), Seq::empty(),
                old(self).natives@),
    {
        self.code.emit_op(Opcode::Jmp);
        let jump_pos = self.code.len();
        self.code.emit_jump(None);
        assert(codes_view(self.code@) =~= codes_view(old(self).code@) + seq![CodeModel::Op(Opcode::Jmp), CodeModel::Jump(None)]);
        assert(fns_view(self.functions@) =~= fns_view(old(self).functions@) + Seq::<FnModel>::empty());
        assert(catch_view(self.current_catch_blocks@) =~= catch_view(old(self).current_catch_blocks@)
            + Seq::<(usize, usize, usize)>::empty());
        let n = self.loop_stack.len();
        if n > 0 {
            let ghost ls = self.loop_stack@;
            let mut info = self.loop_stack.pop().unwrap();
            let ghost v = loop_view(ls);
            if is_break {
                info.break_positions.push(jump_pos);
            } else {
                info.continue_positions.push(jump_pos);
            }
            self.loop_stack.push(info);
            proof {
                let bh = if is_break { seq![jump_pos as int] } else { Seq::<int>::empty() };
                let ch = if is_break { Seq::<int>::empty() } else { seq![jump_pos as int] };
                assert(v.last() == (positions(ls.last().break_positions@), positions(ls.last().continue_positions@)));
                assert(positions(info.break_positions@) =~= v.last().0 + bh);
                assert(positions(info.continue_positions@) =~= v.last().1 + ch);
                assert(loop_view(self.loop_stack@) =~= v.update(v.len() - 1, (v.last().0 + bh, v.last().1 + ch))) by {
                    assert forall|i: int| 0 <= i < v.len() - 1 implies loop_view(self.loop_stack@)[i] == v[i] by {
                        assert(self.loop_stack@[i] == ls[i]);
                    }
                }
            }
        } else {
            assert(self.loop_stack@.len() == 0);
        }
    }
}

impl GScriptCompiler {
    /// Compiles a statement: code that leaves the stack as it found it.
    #[verifier::spinoff_prover]
    #[verifier::rlimit(50)]
    fn compile_statement(&mut self, stmt: &Statement)
        requires
            old(self).wf(),
            old(self).pending_debug_name is None,
            compilable_stmt(*stmt),
        ensures
            plain_stmt(*stmt) ==> final(self).compiled_stmt(&*old(self), *stmt),
            final(self).advanced(&*old(self)),
            final(self).loop_stack@.len() == old(self).loop_stack@.len(),
        decreases *stmt, 3int,
    {
        let ghost p = old(self).params();
        let ghost l = old(self).locals();
        let ghost m = old(self).module();
        let ghost b = old(self).code@.len() as int;
        let ghost nf = old(self).functions@.len() as int;
        let ghost ng = old(self).natives@;
        let ghost cur = old(self).current_function_idx as int;
        match stmt {
            Statement::Expression(expr, pos) => {
                self.emit_debug(pos);
                self.compile_expression(expr);
                self.code.emit_op(Opcode::Pop);
                proof {
                    if plain_stmt(*stmt) {
                        lemma_recorded_same(old(self).loop_stack@, self.loop_stack@);
                        assert(codes_view(self.code@) =~= codes_view(old(self).code@) + stmt_code(*stmt, p, l, m, b, None, None, nf, ng, cur));
                        assert(fns_view(self.functions@) =~= fns_view(old(self).functions@) + stmt_fns(*stmt, m, nf, ng));
                        assert(catch_view(self.current_catch_blocks@) =~= catch_view(old(self).current_catch_blocks@) + stmt_catches(*stmt, p, l, m, b, nf, ng, cur));
                    }
                }
            },
            Statement::If { .. } => {
                self.compile_if(stmt);
            },
            Statement::While { .. } => {
                self.compile_while(stmt);
            },
            Statement::For { .. } => {
                self.compile_for(stmt);
            },
            Statement::Return { value, pos } => {
                self.emit_debug(pos);
                match value {
                    Some(ret_val) => {
                        if self.can_optimize_tail_recursion(ret_val) {
                            self.generate_tail_recursion_check(ret_val);
                        }
                        proof {
                            if plain_stmt(*stmt) && !(*ret_val is FunctionCall) {
                                assert(tail_code(*ret_val, p, l, b + 3, nf, ng, cur) =~= Seq::<CodeModel>::empty());
                                assert(tail_fns(*ret_val, m, nf, ng) =~= Seq::<FnModel>::empty());
                            }
                        }
                        self.compile_expression(ret_val);
                    },
                    None => {
                        self.emit_undefined();
                    },
                }
                self.code.emit_op(Opcode::Return);
                proof {
                    if plain_stmt(*stmt) {
                        lemma_recorded_same(old(self).loop_stack@, self.loop_stack@);
                        assert(codes_view(self.code@) =~= codes_view(old(self).code@) + stmt_code(*stmt, p, l, m, b, None, None, nf, ng, cur));
                        assert(fns_view(self.functions@) =~= fns_view(old(self).functions@) + stmt_fns(*stmt, m, nf, ng));
                        assert(catch_view(self.current_catch_blocks@) =~= catch_view(old(self).current_catch_blocks@) + stmt_catches(*stmt, p, l, m, b, nf, ng, cur));
                    }
                }
            },
            Statement::Throw { exception, pos } => {
                self.emit_debug(pos);
                self.compile_expression(exception);
                self.code.emit_op(Opcode::Throw);
                proof {
                    if plain_stmt(*stmt) {
                        lemma_recorded_same(old(self).loop_stack@, self.loop_stack@);
                        assert(codes_view(self.code@) =~= codes_view(old(self).code@) + stmt_code(*stmt, p, l, m, b, None, None, nf, ng, cur));
                        assert(fns_view(self.functions@) =~= fns_view(old(self).functions@) + stmt_fns(*stmt, m, nf, ng));
                        assert(catch_view(self.current_catch_blocks@) =~= catch_view(old(self).current_catch_blocks@) + stmt_catches(*stmt, p, l, m, b, nf, ng, cur));
                    }
                }
            },
            Statement::Break(_) => {
                self.emit_loop_exit(true);
                proof {
                    assert(fns_view(self.functions@) =~= fns_view(old(self).functions@) + stmt_fns(*stmt, m, nf, ng));
                    assert(catch_view(self.current_catch_blocks@) =~= catch_view(old(self).current_catch_blocks@) + stmt_catches(*stmt, p, l, m, b, nf, ng, cur));
                }
            },
            Statement::Continue(_) => {
                self.emit_loop_exit(false);
                proof {
                    assert(fns_view(self.functions@) =~= fns_view(old(self).functions@) + stmt_fns(*stmt, m, nf, ng));
                    assert(catch_view(self.current_catch_blocks@) =~= catch_view(old(self).current_catch_blocks@) + stmt_catches(*stmt, p, l, m, b, nf, ng, cur));
                }
            },
            Statement::TryCatch { .. } => {
                self.compile_try(stmt);
            },
            Statement::Scope { statements, pos } => {
                self.emit_debug(pos);
                proof {
                    if plain_stmt(*stmt) {
                        assert(plain_stmts(statements@));
                    }
                }
                let ghost s1 = *self;
                self.compile_statements(statements);
                proof {
                    if plain_stmt(*stmt) {
                        assert(s1.params() == p && s1.locals() == l && s1.module() == m);
                        let k = statements@.len() as int;
                        let bh = stmts_exit_holes(statements@, p, l, m, b + 3, k, true, nf, ng, cur);
                        let ch = stmts_exit_holes(statements@, p, l, m, b + 3, k, false, nf, ng, cur);
                        lemma_recorded_same(old(self).loop_stack@, s1.loop_stack@);
                        lemma_recorded_trans(old(self).loop_stack@, s1.loop_stack@, self.loop_stack@, Seq::empty(), Seq::empty(), bh, ch);
                        assert(Seq::<int>::empty() + bh =~= bh);
                        assert(Seq::<int>::empty() + ch =~= ch);
                        assert(codes_view(self.code@) =~= codes_view(old(self).code@) + stmt_code(*stmt, p, l, m, b, None, None, nf, ng, cur));
                        assert(fns_view(self.functions@) =~= fns_view(old(self).functions@) + stmt_fns(*stmt, m, nf, ng));
                        assert(catch_view(self.current_catch_blocks@) =~= catch_view(old(self).current_catch_blocks@) + stmt_catches(*stmt, p, l, m, b, nf, ng, cur));
                    }
                }
            },
            Statement::Void(_) => {
                proof {
                    lemma_recorded_same(old(self).loop_stack@, self.loop_stack@);
                    assert(codes_view(self.code@) =~= codes_view(old(self).code@) + stmt_code(*stmt, p, l, m, b, None, None, nf, ng, cur));
                    assert(fns_view(self.functions@) =~= fns_view(old(self).functions@) + stmt_fns(*stmt, m, nf, ng));
                    assert(catch_view(self.current_catch_blocks@) =~= catch_view(old(self).current_catch_blocks@) + stmt_catches(*stmt, p, l, m, b, nf, ng, cur));
                }
            },
        }
    }

    /// A `while` loop: the condition, a jump past the loop when it is false, the body, and
    /// a jump back to the condition; `break` leaves the loop and `continue` goes back to the
    /// condition.
    #[verifier::spinoff_prover]
    #[verifier::rlimit(50)]
    fn compile_while(&mut self, stmt: &Statement)
        requires
            old(self).wf(),
            old(self).pending_debug_name is None,
            *stmt is While,
            compilable_stmt(*stmt),
        ensures
            plain_stmt(*stmt) ==> final(self).compiled_stmt(&*old(self), *stmt),
            final(self).advanced(&*old(self)),
            final(self).loop_stack@.len() == old(self).loop_stack@.len(),
        decreases *stmt, 2int,
    {
        let ghost p = old(self).params();
        let ghost l = old(self).locals();
        let ghost m = old(self).module();
        let ghost b = old(self).code@.len() as int;
        let ghost nf = old(self).functions@.len() as int;
        let ghost ng = old(self).natives@;
        let ghost cur = old(self).current_function_idx as int;
        if let Statement::While { condition, body, pos } = stmt {
            self.emit_debug(pos);
            let loop_start = self.code.len();
            self.compile_expression(condition);
            let ghost s_cond = *self;
            self.loop_stack.push(LoopInfo::new());
            self.code.emit_op(Opcode::Not);
            self.code.emit_op(Opcode::Cjmp);
            let placeholder = self.code.len();
            self.code.emit_jump(None);
            let ghost s_body = *self;
            self.compile_statement(body);
            let ghost s_after = *self;
            self.code.emit_op(Opcode::Jmp);
            self.code.emit_jump(Some(loop_start));
            let end_pos = self.code.len();
            self.code.patch(placeholder, end_pos);
            let ghost s_close = *self;
            self.close_loop(end_pos, loop_start);
            proof {
                if plain_stmt(*stmt) {
                    let cc = expr_code(*condition, p, l, b + 3, nf, ng);
                    let b1 = b + 3 + cc.len() + 3;
                    let n1 = nf + expr_fn_count(*condition);
                    let g1 = expr_gates(*condition, ng);
                    assert(s_body.code@.len() == b1);
                    assert(s_body.functions@.len() == n1);
                    assert(s_body.params() == p && s_body.locals() == l && s_body.module() == m);
                    let bn = stmt_code(**body, p, l, m, b1, None, None, n1, g1, cur);
                    let bh = exit_holes(**body, p, l, m, b1, true, n1, g1, cur);
                    let ch = exit_holes(**body, p, l, m, b1, false, n1, g1, cur);
                    lemma_stmt_fills(**body, p, l, m, b1, end_pos, loop_start, n1, g1, cur);
                    let bs = stmt_code(**body, p, l, m, b1, Some(end_pos), Some(loop_start), n1, g1, cur);
                    let pre = codes_view(old(self).code@) + debug_code(pos.line, m) + cc
                        + seq![CodeModel::Op(Opcode::Not), CodeModel::Op(Opcode::Cjmp), CodeModel::Jump(Some(end_pos))];
                    let post = seq![CodeModel::Op(Opcode::Jmp), CodeModel::Jump(Some(loop_start))];
                    assert(codes_view(s_body.code@) =~= codes_view(old(self).code@) + debug_code(pos.line, m) + cc
                        + seq![CodeModel::Op(Opcode::Not), CodeModel::Op(Opcode::Cjmp), CodeModel::Jump(None)]);
                    assert(codes_view(s_close.code@) =~= pre + bn + post);
                    assert(s_body.loop_stack@.drop_last() =~= s_cond.loop_stack@);
                    lemma_loop_closed(s_cond.loop_stack@, s_body.loop_stack@, s_after.loop_stack@, bh, ch);
                    lemma_patch_fills(pre, bn, bs, post, bh, ch, end_pos, loop_start);
                    assert(end_pos == b1 + bn.len() + 2);
                    assert(codes_view(self.code@) =~= codes_view(old(self).code@) + stmt_code(*stmt, p, l, m, b, None, None, nf, ng, cur));
                    assert(fns_view(self.functions@) =~= fns_view(old(self).functions@) + stmt_fns(*stmt, m, nf, ng));
                    assert(catch_view(self.current_catch_blocks@) =~= catch_view(old(self).current_catch_blocks@) + stmt_catches(*stmt, p, l, m, b, nf, ng, cur));
                    assert(loop_view(self.loop_stack@) == loop_view(old(self).loop_stack@));
                    lemma_recorded_same(old(self).loop_stack@, self.loop_stack@);
                }
            }
        }
    }

    /// A `for` loop: the initialiser, then as for `while`, with the update after the body;
    /// `continue` goes to the update.
    #[verifier::spinoff_prover]
    #[verifier::rlimit(50)]
    fn compile_for(&mut self, stmt: &Statement)
        requires
            old(self).wf(),
            old(self).pending_debug_name is None,
            *stmt is For,
            compilable_stmt(*stmt),
        ensures
            plain_stmt(*stmt) ==> final(self).compiled_stmt(&*old(self), *stmt),
            final(self).advanced(&*old(self)),
            final(self).loop_stack@.len() == old(self).loop_stack@.len(),
        decreases *stmt, 2int,
    {
        let ghost p = old(self).params();
        let ghost l = old(self).locals();
        let ghost m = old(self).module();
        let ghost b = old(self).code@.len() as int;
        let ghost nf = old(self).functions@.len() as int;
        let ghost ng = old(self).natives@;
        let ghost cur = old(self).current_function_idx as int;
        if let Statement::For { init, condition, update, body, pos } = stmt {
            self.emit_debug(pos);
            self.compile_expression(init);
            self.code.emit_op(Opcode::Pop);
            let condition_pos = self.code.len();
            self.compile_expression(condition);
            self.code.emit_op(Opcode::Not);
            self.code.emit_op(Opcode::Cjmp);
            let else_pos = self.code.len();
            self.code.emit_jump(None);
            let ghost s_cond = *self;
            self.loop_stack.push(LoopInfo::new());
            let ghost s_body = *self;
            self.compile_statement(body);
            let ghost s_after = *self;
            let update_pos = self.code.len();
            self.compile_expression(update);
            let ghost s_update = *self;
            self.code.emit_op(Opcode::Pop);
            self.code.emit_op(Opcode::Jmp);
            self.code.emit_jump(Some(condition_pos));
            let end_pos = self.code.len();
            self.code.patch(else_pos, end_pos);
            let ghost s_close = *self;
            self.close_loop(end_pos, update_pos);
            proof {
                if plain_stmt(*stmt) {
                    let ci = expr_code(*init, p, l, b + 3, nf, ng);
                    let start = b + 3 + ci.len() + 1;
                    let n1 = nf + expr_fn_count(*init);
                    let g1 = expr_gates(*init, ng);
                    let cc = expr_code(*condition, p, l, start, n1, g1);
                    let b1 = start + cc.len() + 3;
                    let n2 = n1 + expr_fn_count(*condition);
                    let g2 = expr_gates(*condition, g1);
                    assert(s_body.code@.len() == b1);
                    assert(s_body.functions@.len() == n2);
                    assert(s_body.params() == p && s_body.locals() == l && s_body.module() == m);
                    let bn = stmt_code(**body, p, l, m, b1, None, None, n2, g2, cur);
                    let bh = exit_holes(**body, p, l, m, b1, true, n2, g2, cur);
                    let ch = exit_holes(**body, p, l, m, b1, false, n2, g2, cur);
                    let cu = expr_code(*update, p, stmt_locals(**body, l), b1 + bn.len(), n2 + stmt_fn_count(**body), stmt_gates(**body, g2));
                    lemma_stmt_fills(**body, p, l, m, b1, end_pos, update_pos, n2, g2, cur);
                    let bs = stmt_code(**body, p, l, m, b1, Some(end_pos), Some(update_pos), n2, g2, cur);
                    let pre = codes_view(old(self).code@) + debug_code(pos.line, m) + ci + seq![CodeModel::Op(Opcode::Pop)] + cc
                        + seq![CodeModel::Op(Opcode::Not), CodeModel::Op(Opcode::Cjmp), CodeModel::Jump(Some(end_pos))];
                    let post = cu + seq![CodeModel::Op(Opcode::Pop), CodeModel::Op(Opcode::Jmp), CodeModel::Jump(Some(condition_pos))];
                    assert(codes_view(s_body.code@) =~= codes_view(old(self).code@) + debug_code(pos.line, m) + ci
                        + seq![CodeModel::Op(Opcode::Pop)] + cc
                        + seq![CodeModel::Op(Opcode::Not), CodeModel::Op(Opcode::Cjmp), CodeModel::Jump(None)]);
                    assert(codes_view(s_close.code@) =~= pre + bn + post);
                    assert(loop_view(s_update.loop_stack@) == loop_view(s_after.loop_stack@));
                    assert(s_body.loop_stack@.drop_last() =~= s_cond.loop_stack@);
                    lemma_loop_closed(s_cond.loop_stack@, s_body.loop_stack@, s_update.loop_stack@, bh, ch);
                    lemma_patch_fills(pre, bn, bs, post, bh, ch, end_pos, update_pos);
                    assert(codes_view(self.code@) =~= codes_view(old(self).code@) + stmt_code(*stmt, p, l, m, b, None, None, nf, ng, cur));
                    assert(fns_view(self.functions@) =~= fns_view(old(self).functions@) + stmt_fns(*stmt, m, nf, ng));
                    assert(catch_view(self.current_catch_blocks@) =~= catch_view(old(self).current_catch_blocks@) + stmt_catches(*stmt, p, l, m, b, nf, ng, cur));
                    assert(loop_view(self.loop_stack@) == loop_view(old(self).loop_stack@));
                    lemma_recorded_same(old(self).loop_stack@, self.loop_stack@);
                }
            }
        }
    }

    /// `try`: the protected block, a jump over the handler, then the handler, which stores
    /// the caught exception in the catch variable's slot; the protected region and its
    /// handler are added to the current function's catch regions.
    #[verifier::spinoff_prover]
    #[verifier::rlimit(100)]
    fn compile_try(&mut self, stmt: &Statement)
        requires
            old(self).wf(),
            old(self).pending_debug_name is None,
            *stmt is TryCatch,
            compilable_stmt(*stmt),
        ensures
            plain_stmt(*stmt) ==> final(self).compiled_stmt(&*old(self), *stmt),
            final(self).advanced(&*old(self)),
            final(self).loop_stack@.len() == old(self).loop_stack@.len(),
        decreases *stmt, 2int,
    {
        let ghost p = old(self).params();
        let ghost l = old(self).locals();
        let ghost m = old(self).module();
        let ghost b = old(self).code@.len() as int;
        let ghost nf = old(self).functions@.len() as int;
        let ghost ng = old(self).natives@;
        let ghost cur = old(self).current_function_idx as int;
        if let Statement::TryCatch { try_block, catch_var, catch_block, pos } = stmt {
            self.emit_debug(pos);
            let start_index = self.code.len();
            let ghost s1 = *self;
            self.compile_statement(try_block);
            let ghost s2 = *self;
            self.code.emit_op(Opcode::Jmp);
            let end_of_try = self.code.len();
            self.code.emit_jump(Some(0));
            // The caught exception goes into the catch variable's slot.
            self.register_local_variable(catch_var.as_str());
            let found = position_of(&self.current_locals, catch_var.as_str());
            let local_idx = match found {
                Some(i) => i,
                None => 0,
            };
            self.code.emit_op(Opcode::Lds);
            let slot = 1u128 + self.current_parameters.len() as u128 + local_idx as u128;
            self.code.emit_int(slot as i32);
            self.code.emit_op(Opcode::Put);
            let ghost s3 = *self;
            self.compile_statement(catch_block);
            let ghost s4 = *self;
            let current_pos = self.code.len();
            self.code.patch(end_of_try, current_pos);
            // The handler starts after the jump's operand.
            self.current_catch_blocks.push(CatchBlock { start: start_index, end: end_of_try - 1, handler: end_of_try + 1 });
            proof {
                if plain_stmt(*stmt) {
                    let ct = stmt_code(**try_block, p, l, m, b + 3, None, None, nf, ng, cur);
                    let lc = with_local(stmt_locals(**try_block, l), catch_var@);
                    let b2 = b + 3 + ct.len() + 5;
                    let n2 = nf + stmt_fn_count(**try_block);
                    let g2 = stmt_gates(**try_block, ng);
                    let cc = stmt_code(**catch_block, p, lc, m, b2, None, None, n2, g2, cur);
                    let th = exit_holes(**try_block, p, l, m, b + 3, true, nf, ng, cur);
                    let tc = exit_holes(**try_block, p, l, m, b + 3, false, nf, ng, cur);
                    let eh = exit_holes(**catch_block, p, lc, m, b2, true, n2, g2, cur);
                    let ec = exit_holes(**catch_block, p, lc, m, b2, false, n2, g2, cur);
                    assert(s1.params() == p && s1.locals() == l && s1.module() == m && s1.code@.len() == b + 3);
                    assert(s3.locals() == lc && s3.params() == p && s3.module() == m && s3.code@.len() == b2);
                    assert(slot_of(lc, catch_var@) == Some(local_idx as int)) by {
                        match found {
                            Some(i) => {
                                lemma_slot_of(s3.current_locals@, catch_var@, i as int);
                            },
                            None => {
                                let j = choose|j: int| 0 <= j < s3.current_locals@.len() && #[trigger] s3.current_locals@[j]@ == catch_var@;
                                assert(s3.current_locals@[j]@ == catch_var@);
                            },
                        }
                    }
                    let mid = seq![CodeModel::Op(Opcode::Jmp), CodeModel::Jump(Some((b2 + cc.len()) as usize)), CodeModel::Op(Opcode::Lds),
                        CodeModel::Int(catch_slot(p, lc, catch_var@)), CodeModel::Op(Opcode::Put)];
                    assert(codes_view(self.code@) =~= codes_view(old(self).code@) + (debug_code(pos.line, m) + ct + mid + cc)) by {
                        assert(slot as i32 == catch_slot(p, lc, catch_var@));
                    }
                    assert(stmt_code(*stmt, p, l, m, b, None, None, nf, ng, cur) == debug_code(pos.line, m) + ct + mid + cc);
                    assert(fns_view(self.functions@) =~= fns_view(old(self).functions@) + stmt_fns(*stmt, m, nf, ng));
                    assert(catch_view(self.current_catch_blocks@) == catch_view(old(self).current_catch_blocks@)
                        + stmt_catches(*stmt, p, l, m, b, nf, ng, cur)) by {
                        let ca = stmt_catches(**try_block, p, l, m, b + 3, nf, ng, cur);
                        let cb = stmt_catches(**catch_block, p, lc, m, b2, n2, g2, cur);
                        let own = ((b + 3) as usize, (end_of_try - 1) as usize, (end_of_try + 1) as usize);
                        assert(end_of_try == b + 3 + ct.len() + 1);
                        assert(stmt_catches(*stmt, p, l, m, b, nf, ng, cur) == ca + cb + seq![own]);
                        assert(catch_view(s2.current_catch_blocks@) == catch_view(old(self).current_catch_blocks@) + ca);
                        assert(s3.current_catch_blocks == s2.current_catch_blocks);
                        assert(catch_view(s4.current_catch_blocks@) == catch_view(s3.current_catch_blocks@) + cb);
                        assert(catch_view(self.current_catch_blocks@) =~= catch_view(s4.current_catch_blocks@).push(own));
                        assert(catch_view(old(self).current_catch_blocks@) + ca + cb + seq![own]
                            =~= catch_view(old(self).current_catch_blocks@) + (ca + cb + seq![own]));
                    }
                    assert(self.locals() == stmt_locals(*stmt, l));
                    assert(recorded(old(self).loop_stack@, self.loop_stack@, exit_holes(*stmt, p, l, m, b, true, nf, ng, cur),
                        exit_holes(*stmt, p, l, m, b, false, nf, ng, cur))) by {
                        lemma_recorded_same(old(self).loop_stack@, s1.loop_stack@);
                        lemma_recorded_trans(old(self).loop_stack@, s1.loop_stack@, s2.loop_stack@, Seq::empty(), Seq::empty(), th, tc);
                        assert(Seq::<int>::empty() + th =~= th);
                        assert(Seq::<int>::empty() + tc =~= tc);
                        lemma_recorded_trans(old(self).loop_stack@, s2.loop_stack@, self.loop_stack@, th, tc, eh, ec);
                    }
                }
            }
        }
    }

    /// An `if` statement: the condition, a jump past the then-branch when it is false, and
    /// the else-branch after a jump over it.
    #[verifier::spinoff_prover]
    #[verifier::rlimit(50)]
    fn compile_if(&mut self, stmt: &Statement)
        requires
            old(self).wf(),
            old(self).pending_debug_name is None,
            *stmt is If,
            compilable_stmt(*stmt),
        ensures
            plain_stmt(*stmt) ==> final(self).compiled_stmt(&*old(self), *stmt),
            final(self).advanced(&*old(self)),
            final(self).loop_stack@.len() == old(self).loop_stack@.len(),
        decreases *stmt, 2int,
    {
        let ghost p = old(self).params();
        let ghost l = old(self).locals();
        let ghost m = old(self).module();
        let ghost b = old(self).code@.len() as int;
        let ghost nf = old(self).functions@.len() as int;
        let ghost ng = old(self).natives@;
        let ghost cur = old(self).current_function_idx as int;
        if let Statement::If { condition, then_clause, else_clause, pos } = stmt {
            self.emit_debug(pos);
            self.compile_expression(condition);
            self.code.emit_op(Opcode::Not);
            self.code.emit_op(Opcode::Cjmp);
            let else_pos = self.code.len();
            self.code.emit_jump(None);
            let ghost s1 = *self;
            self.compile_statement(then_clause);
            let ghost s2 = *self;
            proof {
                if plain_stmt(*stmt) {
                    assert(s1.params() == p && s1.locals() == l && s1.module() == m);
                    lemma_recorded_same(old(self).loop_stack@, s1.loop_stack@);
                }
            }
            match else_clause {
                Some(else_stmt) => {
                    self.code.emit_op(Opcode::Jmp);
                    let end_of_true = self.code.len();
                    self.code.emit_jump(None);
                    let here = self.code.len();
                    self.code.patch(else_pos, here);
                    let ghost s3 = *self;
                    self.compile_statement(else_stmt);
                    let end = self.code.len();
                    self.code.patch(end_of_true, end);
                    proof {
                        if plain_stmt(*stmt) {
                            let cc = expr_code(*condition, p, l, b + 3, nf, ng);
                            let b1 = b + 3 + cc.len() + 3;
                            let n1 = nf + expr_fn_count(*condition);
                            let g1 = expr_gates(*condition, ng);
                            let b2 = b1 + stmt_code(**then_clause, p, l, m, b1, None, None, n1, g1, cur).len() + 2;
                            let n2 = n1 + stmt_fn_count(**then_clause);
                            let g2 = stmt_gates(**then_clause, g1);
                            let lt = stmt_locals(**then_clause, l);
                            assert(s3.code@.len() == b2);
                            assert(s3.params() == p && s3.locals() == lt && s3.module() == m);
                            let th = exit_holes(**then_clause, p, l, m, b1, true, n1, g1, cur);
                            let tc = exit_holes(**then_clause, p, l, m, b1, false, n1, g1, cur);
                            lemma_recorded_trans(old(self).loop_stack@, s1.loop_stack@, s2.loop_stack@,
                                Seq::empty(), Seq::empty(), th, tc);
                            assert(Seq::<int>::empty() + th =~= th);
                            assert(Seq::<int>::empty() + tc =~= tc);
                            lemma_recorded_trans(old(self).loop_stack@, s2.loop_stack@, self.loop_stack@,
                                th, tc, exit_holes(**else_stmt, p, lt, m, b2, true, n2, g2, cur), exit_holes(**else_stmt, p, lt, m, b2, false, n2, g2, cur));
                            assert(codes_view(self.code@) =~= codes_view(old(self).code@) + stmt_code(*stmt, p, l, m, b, None, None, nf, ng, cur));
                            assert(fns_view(self.functions@) =~= fns_view(old(self).functions@) + stmt_fns(*stmt, m, nf, ng));
                            assert(catch_view(self.current_catch_blocks@) =~= catch_view(old(self).current_catch_blocks@) + stmt_catches(*stmt, p, l, m, b, nf, ng, cur));
                        }
                    }
                },
                None => {
                    let here = self.code.len();
                    self.code.patch(else_pos, here);
                    proof {
                        if plain_stmt(*stmt) {
                            let cc = expr_code(*condition, p, l, b + 3, nf, ng);
                            let b1 = b + 3 + cc.len() + 3;
                            let n1 = nf + expr_fn_count(*condition);
                            let g1 = expr_gates(*condition, ng);
                            let th = exit_holes(**then_clause, p, l, m, b1, true, n1, g1, cur);
                            let tc = exit_holes(**then_clause, p, l, m, b1, false, n1, g1, cur);
                            lemma_recorded_trans(old(self).loop_stack@, s1.loop_stack@, s2.loop_stack@,
                                Seq::empty(), Seq::empty(), th, tc);
                            assert(Seq::<int>::empty() + th =~= th);
                            assert(Seq::<int>::empty() + tc =~= tc);
                            assert(codes_view(self.code@) =~= codes_view(old(self).code@) + stmt_code(*stmt, p, l, m, b, None, None, nf, ng, cur));
                            assert(fns_view(self.functions@) =~= fns_view(old(self).functions@) + stmt_fns(*stmt, m, nf, ng));
                            assert(catch_view(self.current_catch_blocks@) =~= catch_view(old(self).current_catch_blocks@) + stmt_catches(*stmt, p, l, m, b, nf, ng, cur));
                        }
                    }
                },
            }
        }
    }
}

/// The name that a top-level statement `name = ...` (or a compound assignment to
/// `name`) assigns, if it is one.
pub open spec fn assigned_name(s: Statement) -> Option<Seq<char>> {
    match s {
        Statement::Expression(Expression::Assignment { variable, .. }, _) => match *variable {
            Expression::Variable { name, field: None } => Some(name@),
            _ => None,
        },
        _ => None,
    }
}

/// The names that the first `k` statements of a module assign at top level, each once,
/// in the order of their first assignment.
pub open spec fn exported_names(stmts: Seq<Statement>, k: int) -> Seq<Seq<char>>
    decreases k,
{
    if k <= 0 {
        Seq::empty()
    } else {
        let prev = exported_names(stmts, k - 1);
        match assigned_name(stmts[k - 1]) {
            Some(n) => if prev.contains(n) { prev } else { prev.push(n) },
            None => prev,
        }
    }
}

/// The exported names of a module are distinct, and each is assigned by one of its
/// top-level statements.
pub proof fn lemma_exported_names_distinct(stmts: Seq<Statement>, k: int)
    requires
        0 <= k <= stmts.len(),
    ensures
        forall|a: int, b: int| 0 <= a < b < exported_names(stmts, k).len()
            ==> exported_names(stmts, k)[a] != exported_names(stmts, k)[b],
        forall|a: int| 0 <= a < exported_names(stmts, k).len() ==> exists|j: int|
            0 <= j < k && #[trigger] assigned_name(stmts[j]) == Some(#[trigger] exported_names(stmts, k)[a]),
    decreases k,
{
    if k > 0 {
        lemma_exported_names_distinct(stmts, k - 1);
        let prev = exported_names(stmts, k - 1);
        let cur = exported_names(stmts, k);
        assert forall|a: int| #![trigger cur[a]] 0 <= a < cur.len() implies exists|j: int|
            0 <= j < k && #[trigger] assigned_name(stmts[j]) == Some(cur[a]) by {
            if a < prev.len() {
                assert(cur[a] == prev[a]);
            } else {
                assert(assigned_name(stmts[k - 1]) == Some(cur[a]));
            }
        }
    }
}

/// Every name that a top-level statement `name = ...` (or `name op= ...`) assigns is
/// exported, so each top-level variable becomes a field of the module.
pub proof fn lemma_assigned_names_exported(stmts: Seq<Statement>, k: int, value: Expression,
    operator: Option<String>, name: String, pos: Position)
    requires
        0 <= k <= stmts.len(),
    ensures
        assigned_name(Statement::Expression(Expression::Assignment { value: Box::new(value), operator,
            variable: Box::new(Expression::Variable { name, field: None }) }, pos)) == Some(name@),
        forall|j: int| 0 <= j < k && #[trigger] assigned_name(stmts[j]) is Some
            ==> exported_names(stmts, k).contains(assigned_name(stmts[j])->0),
    decreases k,
{
    if k > 0 {
        lemma_assigned_names_exported(stmts, k - 1, value, operator, name, pos);
        let prev = exported_names(stmts, k - 1);
        let cur = exported_names(stmts, k);
        assert forall|j: int| 0 <= j < k && #[trigger] assigned_name(stmts[j]) is Some
            implies cur.contains(assigned_name(stmts[j])->0) by {
            if j < k - 1 {
                let n = assigned_name(stmts[j])->0;
                assert(prev.contains(n));
                let i = choose|i: int| 0 <= i < prev.len() && prev[i] == n;
                assert(cur[i] == n);
            } else {
                let n = assigned_name(stmts[j])->0;
                if prev.contains(n) {
                    let i = choose|i: int| 0 <= i < prev.len() && prev[i] == n;
                    assert(cur[i] == n);
                } else {
                    assert(cur[prev.len() as int] == n);
                }
            }
        }
    }
}

/// What `compile_module` writes into the main code at `base` for module `m`, whose
/// initialising function has index `fn_index`, where the native call gates were `ng`: a
/// new object, the function invoked on it, and the result stored in the variable of the
/// module's name.
pub open spec fn module_code(m: Module, fn_index: int, base: int, ng: Seq<i32>) -> Seq<CodeModel> {
    seq![CodeModel::Op(Opcode::New), CodeModel::Text("Object"@)] + function_ref(fn_index)
        + seq![CodeModel::Op(Opcode::Invoke), CodeModel::Int(0)]
        + expr_code(Expression::Variable { name: m.name, field: None }, Seq::empty(), Seq::empty(), base + 7,
            fn_index + module_fn_count(m), module_gates(m, ng))
        + seq![CodeModel::Op(Opcode::Put)]
}

/// The functions that compiling module `m` defines from index `fn_index`: its
/// initialising function, named `<module>.<init>`, then those of its statements.
pub open spec fn module_fns(m: Module, fn_index: int, ng: Seq<i32>) -> Seq<FnModel> {
    seq![defined_fn(m.statements@, Seq::empty(), m.name@, Some(m.pos), Some(m.name@ + ".<init>"@), fn_index, ng)]
        + stmts_fns(m.statements@, m.name@, fn_index + 1, ng, m.statements@.len() as int)
}

/// The native call gates after compiling module `m`.
pub open spec fn module_gates(m: Module, ng: Seq<i32>) -> Seq<i32> {
    stmts_gates(m.statements@, m.statements@.len() as int, ng)
}

/// The native call gates after compiling the first `k` modules.
pub open spec fn modules_gates(ms: Seq<Module>, k: int, ng: Seq<i32>) -> Seq<i32>
    decreases k,
{
    if k <= 0 || k > ms.len() {
        ng
    } else {
        module_gates(ms[k - 1], modules_gates(ms, k - 1, ng))
    }
}

/// The number of functions that compiling module `m` defines.
pub open spec fn module_fn_count(m: Module) -> int {
    1 + stmts_fn_count(m.statements@, m.statements@.len() as int)
}

/// Whether every module holds only plain statements.
pub open spec fn plain_modules(ms: Seq<Module>) -> bool {
    forall|k: int| 0 <= k < ms.len() ==> plain_stmts(#[trigger] ms[k].statements@)
}

/// The number of functions that compiling the first `k` modules defines.
pub open spec fn modules_fn_count(ms: Seq<Module>, k: int) -> int
    decreases k,
{
    if k <= 0 || k > ms.len() {
        0
    } else {
        modules_fn_count(ms, k - 1) + module_fn_count(ms[k - 1])
    }
}

/// The main code for the first `k` modules from `base`, where the native call gates were
/// `ng`: for each module, its object and then its exports. The functions of the modules
/// follow the entry point's, in order.
pub open spec fn modules_code(ms: Seq<Module>, base: int, k: int, ng: Seq<i32>) -> Seq<CodeModel>
    decreases k,
{
    if k <= 0 || k > ms.len() {
        Seq::empty()
    } else {
        let prev = modules_code(ms, base, k - 1, ng);
        let m = ms[k - 1];
        prev + module_code(m, 1 + modules_fn_count(ms, k - 1), base + prev.len(), modules_gates(ms, k - 1, ng))
            + exports_code(m.name@, exported_names(m.statements@, m.statements@.len() as int),
                exported_names(m.statements@, m.statements@.len() as int).len() as int)
    }
}

/// The functions that compiling the first `k` modules defines, after the entry point.
pub open spec fn modules_fns(ms: Seq<Module>, k: int, ng: Seq<i32>) -> Seq<FnModel>
    decreases k,
{
    if k <= 0 || k > ms.len() {
        Seq::empty()
    } else {
        modules_fns(ms, k - 1, ng) + module_fns(ms[k - 1], 1 + modules_fn_count(ms, k - 1), modules_gates(ms, k - 1, ng))
    }
}

/// The entry point of a program: no parameters, no local variables recorded, and the
/// catch regions `catches`.
pub open spec fn entry_fn(code: Seq<CodeModel>, debug_name: Option<Seq<char>>, catches: Seq<(usize, usize, usize)>) -> FnModel {
    FnModel { code, params: Seq::empty(), locals: Seq::empty(), debug_name, catches }
}

/// The code of the entry point for a list of modules.
pub open spec fn modules_main_code(ms: Seq<Module>, ng: Seq<i32>) -> Seq<CodeModel> {
    seq![CodeModel::Op(Opcode::New), CodeModel::Text("Object"@)] + modules_code(ms, 2, ms.len() as int, ng)
        + seq![CodeModel::Op(Opcode::Halt)]
}

impl GScriptCompiler {
    /// The names that a module assigns at top level: they become fields of the module
    /// object.
    fn extract_exported_names(module: &Module) -> (r: Vec<String>)
        ensures
            names_view(r@) == exported_names(module.statements@, module.statements@.len() as int),
    {
        let mut names: Vec<String> = Vec::new();
        let mut i: usize = 0;
        while i < module.statements.len()
            invariant
                i <= module.statements@.len(),
                names_view(names@) == exported_names(module.statements@, i as int),
            decreases module.statements@.len() - i,
        {
            if let Statement::Expression(Expression::Assignment { variable, .. }, _) = &module.statements[i] {
                if let Expression::Variable { name, field: None } = &**variable {
                    match position_of(&names, name.as_str()) {
                        Some(k) => {
                            assert(names_view(names@)[k as int] == name@);
                        },
                        None => {
                            assert(!names_view(names@).contains(name@)) by {
                                if names_view(names@).contains(name@) {
                                    let k = choose|k: int| 0 <= k < names_view(names@).len() && names_view(names@)[k] == name@;
                                    assert(names@[k]@ == name@);
                                }
                            }
                            let ghost before = names@;
                            names.push(name.clone());
                            assert(names_view(names@) =~= names_view(before).push(name@));
                        },
                    }
                }
            }
            i += 1;
        }
        names
    }

    /// For each exported name: `name = module.name`, so that the module's fields are
    /// visible by their own names.
    fn emit_module_exports(&mut self, module_name: &str, names: &Vec<String>)
        requires
            old(self).wf(),
            old(self).pending_debug_name is None,
        ensures
            final(self).wrote(&*old(self), exports_code(module_name@, names_view(names@), names@.len() as int)),
            final(self).advanced(&*old(self)),
            final(self).loop_stack@.len() == old(self).loop_stack@.len(),
    {
        let mut i: usize = 0;
        while i < names.len()
            invariant
                i <= names@.len(),
                self.advanced(&*old(self)),
                self.loop_stack@.len() == old(self).loop_stack@.len(),
                self.wrote(&*old(self), exports_code(module_name@, names_view(names@), i as int)),
            decreases names@.len() - i,
        {
            let ghost before = codes_view(self.code@);
            self.emit_string_constant(module_name);
            self.code.emit_op(Opcode::GetDynamic);
            self.emit_string_constant(names[i].as_str());
            self.code.emit_op(Opcode::Get);
            self.emit_string_constant(names[i].as_str());
            self.code.emit_op(Opcode::GetDynamic);
            self.code.emit_op(Opcode::Put);
            self.code.emit_op(Opcode::Pop);
            assert(names_view(names@)[i as int] == names@[i as int]@);
            assert(codes_view(self.code@) =~= before + export_code(module_name@, names_view(names@)[i as int]));
            assert(exports_code(module_name@, names_view(names@), i + 1) == exports_code(module_name@, names_view(names@), i as int)
                + export_code(module_name@, names_view(names@)[i as int]));
            assert(codes_view(self.code@) =~= codes_view(old(self).code@) + exports_code(module_name@, names_view(names@), i + 1));
            i += 1;
        }
    }

    /// A module: a new object, initialised by a function of the module's statements that
    /// returns it, and stored in the variable named after the module.
    fn compile_module(&mut self, module: &Module)
        requires
            old(self).wf(),
            old(self).pending_debug_name is None,
            compilable_stmts(module.statements@),
            old(self).params() == Seq::<Seq<char>>::empty(),
            old(self).locals() == Seq::<Seq<char>>::empty(),
            old(self).module() == module.name@,
        ensures
            final(self).advanced(&*old(self)),
            final(self).loop_stack@.len() == old(self).loop_stack@.len(),
            final(self).current_locals == old(self).current_locals,
            final(self).current_catch_blocks == old(self).current_catch_blocks,
            final(self).functions@.len() > old(self).functions@.len(),
            plain_stmts(module.statements@) ==> {
                &&& final(self).functions@.len() == old(self).functions@.len() + module_fn_count(*module)
                &&& final(self).natives@ == module_gates(*module, old(self).natives@)
                &&& codes_view(final(self).code@) == codes_view(old(self).code@)
                    + module_code(*module, old(self).functions@.len() as int, old(self).code@.len() as int, old(self).natives@)
                &&& fns_view(final(self).functions@) == fns_view(old(self).functions@)
                    + module_fns(*module, old(self).functions@.len() as int, old(self).natives@)
            },
    {
        let ghost c0 = codes_view(self.code@);
        self.code.emit_op(Opcode::New);
        self.code.emit_text("Object");
        self.pending_debug_name = Some(concat(module.name.as_str(), ".<init>"));
        let no_parameters: Vec<String> = Vec::new();
        let ghost mid = *self;
        let index = self.compile_function(&no_parameters, &module.statements, Some(module.pos));
        proof {
            assert(names_view(no_parameters@) =~= Seq::<Seq<char>>::empty());
            assert(mid.module() == old(self).module());
        }
        self.code.emit_op(Opcode::Invoke);
        self.code.emit_int(0);
        let var = Expression::Variable { name: module.name.clone(), field: None };
        assert(plain_expr(var));
        let ghost before_var = *self;
        assert(before_var.params() == old(self).params());
        assert(before_var.locals() == old(self).locals());
        self.compile_expression(&var);
        self.code.emit_op(Opcode::Put);
        proof {
            reveal_strlit(".<init>");
            if plain_stmts(module.statements@) {
                let nf = old(self).functions@.len() as int;
                assert(before_var.code@.len() == old(self).code@.len() + 7);
                assert(before_var.functions@.len() == nf + module_fn_count(*module));
                assert(var == Expression::Variable { name: module.name, field: None });
                assert(codes_view(self.code@) =~= codes_view(old(self).code@)
                    + module_code(*module, nf, old(self).code@.len() as int, old(self).natives@));
                assert(fns_view(self.functions@) =~= fns_view(old(self).functions@) + module_fns(*module, nf, old(self).natives@));
            }
        }
    }

    /// Starts a fresh program whose entry point is function 0, named `debug_name`; its
    /// code begins by making the object of the main scope.
    fn start_program(&mut self, debug_name: Option<String>)
        requires
            distinct_counts(old(self).natives@),
            old(self).tail_recursion_enabled(),
        ensures
            final(self).wf(),
            final(self).functions@.len() == 1,
            final(self).functions@[0].debug_name == debug_name,
            final(self).functions@[0].parameters@.len() == 0,
            final(self).functions@[0].locals@.len() == 0,
            final(self).current_catch_blocks@.len() == 0,
            final(self).current_function_idx == 0,
            final(self).code@.len() == 2,
            final(self).code@[0] == Code::Op(Opcode::New),
            final(self).code@[1] matches Code::Text(t) && t@ == "Object"@,
            codes_view(final(self).code@) == seq![CodeModel::Op(Opcode::New), CodeModel::Text("Object"@)],
            final(self).params() == Seq::<Seq<char>>::empty(),
            final(self).locals() == Seq::<Seq<char>>::empty(),
            final(self).current_module_name == old(self).current_module_name,
            final(self).natives == old(self).natives,
            final(self).enabled_optimizations == old(self).enabled_optimizations,
            final(self).loop_stack == old(self).loop_stack,
            final(self).pending_debug_name is None,
    {
        self.functions = Vec::new();
        self.functions.push(CompiledFunction {
            code: Vec::new(),
            parameters: Vec::new(),
            locals: Vec::new(),
            debug_name,
            catch_blocks: Vec::new(),
        });
        self.code = CodeBuffer::new();
        self.current_function_idx = 0;
        self.current_parameters = Vec::new();
        self.current_locals = Vec::new();
        self.current_catch_blocks = Vec::new();
        self.pending_debug_name = None;
        self.code.emit_op(Opcode::New);
        let ghost c1 = self.code@;
        self.code.emit_text("Object");
        assert(self.code@[0] == self.code@.drop_last()[0]);
        assert(codes_view(self.code@) =~= seq![CodeModel::Op(Opcode::New), CodeModel::Text("Object"@)]);
        assert(self.params() =~= Seq::<Seq<char>>::empty());
        assert(self.locals() =~= Seq::<Seq<char>>::empty());
    }

    /// Ends the program: `HALT`, the entry point's code and catch regions stored, and the
    /// native call gates handed over.
    fn finish_program(&mut self) -> (r: CompiledProgram)
        requires
            old(self).wf(),
            old(self).current_function_idx == 0,
        ensures
            program_ok(r),
            r.functions@.len() == old(self).functions@.len(),
            r.functions@[0].code@ == old(self).code@.push(Code::Op(Opcode::Halt)),
            r.functions@[0].debug_name == old(self).functions@[0].debug_name,
            r.functions@[0].parameters == old(self).functions@[0].parameters,
            r.functions@[0].locals == old(self).functions@[0].locals,
            r.functions@[0].catch_blocks == old(self).current_catch_blocks,
            r.natives@ == old(self).natives@,
            distinct_counts(r.natives@),
            final(self).natives@.len() == 0,
            final(self).enabled_optimizations == old(self).enabled_optimizations,
            forall|j: int| 0 < j < r.functions@.len() ==> #[trigger] r.functions@[j] == old(self).functions@[j],
    {
        self.code.emit_op(Opcode::Halt);
        let mut code = CodeBuffer::new();
        std::mem::swap(&mut self.code, &mut code);
        let mut catch_blocks: Vec<CatchBlock> = Vec::new();
        std::mem::swap(&mut self.current_catch_blocks, &mut catch_blocks);
        let mut natives: Vec<i32> = Vec::new();
        std::mem::swap(&mut self.natives, &mut natives);
        let mut functions: Vec<CompiledFunction> = Vec::new();
        std::mem::swap(&mut self.functions, &mut functions);
        let ghost n = functions@.len();
        let ghost fs0 = functions@;
        let mut main = functions.remove(0);
        main.code = code.into_items();
        main.catch_blocks = catch_blocks;
        assert(function_ok(main, n));
        functions.insert(0, main);
        proof {
            assert forall|j: int| 0 <= j < functions@.len() implies function_ok(#[trigger] functions@[j], functions@.len()) by {
                if j > 0 {
                    assert(functions@[j] == fs0[j]);
                    assert(function_ok(fs0[j], n));
                }
            }
        }
        // The compiler is left with an empty program; start_program begins the next one.
        self.functions.push(CompiledFunction {
            code: Vec::new(),
            parameters: Vec::new(),
            locals: Vec::new(),
            debug_name: None,
            catch_blocks: Vec::new(),
        });
        self.current_function_idx = 0;
        CompiledProgram { functions, natives }
    }

    /// Compiles a list of statements as the whole program.
    pub fn compile(&mut self, statements: Vec<Statement>) -> (r: CompiledProgram)
        requires
            compilable_stmts(statements@),
            distinct_counts(old(self).native_gates()),
            old(self).tail_recursion_enabled(),
        ensures
            final(self).tail_recursion_enabled(),
            program_ok(r),
            distinct_counts(r.natives@),
            distinct_counts(final(self).native_gates()),
            plain_stmts(statements@) ==> {
                &&& fns_view(r.functions@) == seq![entry_fn(main_code(statements@, old(self).module(), old(self).native_gates()), None,
                    stmts_catches(statements@, Seq::empty(), Seq::empty(), old(self).module(), 2, statements@.len() as int, 1,
                        old(self).native_gates(), 0))]
                    + stmts_fns(statements@, old(self).module(), 1, old(self).native_gates(), statements@.len() as int)
                &&& r.natives@ == stmts_gates(statements@, statements@.len() as int, old(self).native_gates())
            },
            r.functions@[0].debug_name is None,
            r.functions@[0].code@.len() >= 3,
            r.functions@[0].code@[0] == Code::Op(Opcode::New),
            r.functions@[0].code@.last() == Code::Op(Opcode::Halt),
            r.natives@.len() >= old(self).native_gates().len(),
            r.natives@.subrange(0, old(self).native_gates().len() as int) == old(self).native_gates(),
            final(self).native_gates().len() == 0,
    {
        self.start_program(None);
        let ghost c0 = self.code@;
        let ghost s0 = *self;
        let ghost m = old(self).module();
        let ghost g0 = old(self).natives@;
        proof {
            assert(fns_view(self.functions@).skip(1) =~= Seq::<FnModel>::empty());
            assert(catch_view(self.current_catch_blocks@) =~= Seq::<(usize, usize, usize)>::empty());
        }
        let mut i: usize = 0;
        while i < statements.len()
            invariant
                i <= statements@.len(),
                compilable_stmts(statements@),
                self.wf(),
                self.pending_debug_name is None,
                self.current_function_idx == 0,
                extends(c0, self.code@),
                c0.len() == 2,
                c0[0] == Code::Op(Opcode::New),
                self.natives@.len() >= old(self).natives@.len(),
                forall|j: int| 0 <= j < old(self).natives@.len() ==> #[trigger] self.natives@[j] == old(self).natives@[j],
                self.functions@.len() > 0,
                self.functions@[0] == s0.functions@[0],
                self.current_module_name == old(self).current_module_name,
                m == old(self).module(),
                g0 == old(self).natives@,
                self.params() == Seq::<Seq<char>>::empty(),
                plain_stmts(statements@) ==> {
                    &&& self.functions@.len() == 1 + stmts_fn_count(statements@, i as int)
                    &&& self.locals() == stmts_locals(statements@, Seq::empty(), i as int)
                    &&& catch_view(self.current_catch_blocks@) == stmts_catches(statements@, Seq::empty(), Seq::empty(), m, 2, i as int, 1, g0, 0)
                    &&& self.natives@ == stmts_gates(statements@, i as int, g0)
                    &&& codes_view(self.code@) == seq![CodeModel::Op(Opcode::New), CodeModel::Text("Object"@)]
                        + stmts_code(statements@, Seq::empty(), Seq::empty(), m, 2, i as int, None, None, 1, g0, 0)
                    &&& fns_view(self.functions@).skip(1) == stmts_fns(statements@, m, 1, g0, i as int)
                },
            decreases statements@.len() - i,
        {
            assert(compilable_stmt(statements@[i as int]));
            let ghost before = *self;
            self.compile_statement(&statements[i]);
            proof {
                if plain_stmts(statements@) {
                    assert(plain_stmt(statements@[i as int]));
                    assert(codes_view(self.code@) =~= seq![CodeModel::Op(Opcode::New), CodeModel::Text("Object"@)]
                        + stmts_code(statements@, Seq::empty(), Seq::empty(), m, 2, i + 1, None, None, 1, g0, 0));
                    assert(fns_view(self.functions@).skip(1) =~= stmts_fns(statements@, m, 1, g0, i + 1)) by {
                        assert(fns_view(self.functions@) == fns_view(before.functions@)
                            + stmt_fns(statements@[i as int], m, 1 + stmts_fn_count(statements@, i as int), stmts_gates(statements@, i as int, g0)));
                    }
                    assert(catch_view(self.current_catch_blocks@) =~= stmts_catches(statements@, Seq::empty(), Seq::empty(), m, 2, i + 1, 1, g0, 0));
                }
            }
            i += 1;
        }
        proof {
            if plain_stmts(statements@) {
                assert(codes_view(self.code@.push(Code::Op(Opcode::Halt))) =~= main_code(statements@, m, g0));
            }
        }
        let ghost fs = self.functions@;
        let r = self.finish_program();
        proof {
            if plain_stmts(statements@) {
                assert(names_view(r.functions@[0].parameters@) =~= Seq::<Seq<char>>::empty());
                assert(names_view(r.functions@[0].locals@) =~= Seq::<Seq<char>>::empty());
                assert(catch_view(r.functions@[0].catch_blocks@)
                    == stmts_catches(statements@, Seq::empty(), Seq::empty(), m, 2, statements@.len() as int, 1, g0, 0));
                assert(fn_view(r.functions@[0]) == entry_fn(main_code(statements@, m, g0), None, stmts_catches(statements@, Seq::empty(), Seq::empty(), m, 2, statements@.len() as int, 1, g0, 0)));
                assert(fns_view(r.functions@) =~= seq![entry_fn(main_code(statements@, m, g0), None, stmts_catches(statements@, Seq::empty(), Seq::empty(), m, 2, statements@.len() as int, 1, g0, 0))]
                    + stmts_fns(statements@, m, 1, g0, statements@.len() as int)) by {
                    assert forall|j: int| 0 < j < r.functions@.len() implies #[trigger] fns_view(r.functions@)[j] == fns_view(fs)[j] by {
                        assert(r.functions@[j] == fs[j]);
                    }
                }
            }
        }
        r
    }

    /// Compiles modules into one program: each module becomes an object in the variable
    /// of its name, and the names it assigns at top level are copied into variables of
    /// their own.
    pub fn compile_modules(&mut self, modules: Vec<Module>) -> (r: CompiledProgram)
        requires
            compilable_modules(modules@),
            distinct_counts(old(self).native_gates()),
            old(self).tail_recursion_enabled(),
        ensures
            final(self).tail_recursion_enabled(),
            program_ok(r),
            distinct_counts(r.natives@),
            distinct_counts(final(self).native_gates()),
            r.functions@[0].debug_name matches Some(name) && name@ == "main"@,
            r.functions@[0].code@.len() >= 3,
            r.functions@[0].code@[0] == Code::Op(Opcode::New),
            r.functions@[0].code@.last() == Code::Op(Opcode::Halt),
            r.natives@.len() >= old(self).native_gates().len(),
            r.natives@.subrange(0, old(self).native_gates().len() as int) == old(self).native_gates(),
            final(self).native_gates().len() == 0,
            plain_modules(modules@) ==> {
                &&& fns_view(r.functions@) == seq![entry_fn(modules_main_code(modules@, old(self).native_gates()), Some("main"@), Seq::empty())]
                    + modules_fns(modules@, modules@.len() as int, old(self).native_gates())
                &&& r.natives@ == modules_gates(modules@, modules@.len() as int, old(self).native_gates())
            },
    {
        self.start_program(Some(String::from_str("main")));
        proof {
            reveal_strlit("main");
        }
        let ghost c0 = self.code@;
        let ghost s_start = *self;
        let ghost g0 = old(self).natives@;
        proof {
            assert(fns_view(self.functions@).skip(1) =~= Seq::<FnModel>::empty());
        }
        let mut i: usize = 0;
        while i < modules.len()
            invariant
                i <= modules@.len(),
                compilable_modules(modules@),
                self.wf(),
                self.pending_debug_name is None,
                self.current_function_idx == 0,
                extends(c0, self.code@),
                c0.len() == 2,
                c0[0] == Code::Op(Opcode::New),
                self.natives@.len() >= old(self).natives@.len(),
                forall|j: int| 0 <= j < old(self).natives@.len() ==> #[trigger] self.natives@[j] == old(self).natives@[j],
                self.functions@.len() > i,
                self.functions@[0] == s_start.functions@[0],
                s_start.functions@[0].debug_name matches Some(name) && name@ == "main"@,
                self.params() == Seq::<Seq<char>>::empty(),
                self.locals() == Seq::<Seq<char>>::empty(),
                self.current_catch_blocks@.len() == 0,
                g0 == old(self).natives@,
                plain_modules(modules@) ==> {
                    &&& self.functions@.len() == 1 + modules_fn_count(modules@, i as int)
                    &&& self.natives@ == modules_gates(modules@, i as int, g0)
                    &&& codes_view(self.code@) == seq![CodeModel::Op(Opcode::New), CodeModel::Text("Object"@)]
                        + modules_code(modules@, 2, i as int, g0)
                    &&& fns_view(self.functions@).skip(1) == modules_fns(modules@, i as int, g0)
                },
            decreases modules@.len() - i,
        {
            let m = &modules[i];
            assert(compilable_stmts(modules@[i as int].statements@));
            self.current_module_name = m.name.clone();
            let exported = Self::extract_exported_names(m);
            let ghost s0 = *self;
            self.compile_module(m);
            let ghost s1 = *self;
            self.emit_module_exports(m.name.as_str(), &exported);
            proof {
                if plain_modules(modules@) {
                    assert(plain_stmts(modules@[i as int].statements@));
                    let names = exported_names(m.statements@, m.statements@.len() as int);
                    assert(names_view(exported@) == names);
                    assert(codes_view(self.code@) =~= seq![CodeModel::Op(Opcode::New), CodeModel::Text("Object"@)]
                        + modules_code(modules@, 2, i + 1, g0));
                    assert(fns_view(self.functions@).skip(1) =~= modules_fns(modules@, i + 1, g0)) by {
                        assert(fns_view(s1.functions@) == fns_view(s0.functions@)
                            + module_fns(*m, 1 + modules_fn_count(modules@, i as int), modules_gates(modules@, i as int, g0)));
                    }
                }
            }
            i += 1;
        }
        proof {
            if plain_modules(modules@) {
                assert(codes_view(self.code@.push(Code::Op(Opcode::Halt))) =~= modules_main_code(modules@, g0));
            }
        }
        let ghost fs = self.functions@;
        let r = self.finish_program();
        proof {
            if plain_modules(modules@) {
                assert(names_view(r.functions@[0].parameters@) =~= Seq::<Seq<char>>::empty());
                assert(names_view(r.functions@[0].locals@) =~= Seq::<Seq<char>>::empty());
                assert(catch_view(r.functions@[0].catch_blocks@)
                    =~= Seq::<(usize, usize, usize)>::empty());
                assert(fn_view(r.functions@[0]) == entry_fn(modules_main_code(modules@, g0), Some("main"@), Seq::empty()));
                assert(fns_view(r.functions@) =~= seq![entry_fn(modules_main_code(modules@, g0), Some("main"@), Seq::empty())]
                    + modules_fns(modules@, modules@.len() as int, g0)) by {
                    assert forall|j: int| 0 < j < r.functions@.len() implies #[trigger] fns_view(r.functions@)[j] == fns_view(fs)[j] by {
                        assert(r.functions@[j] == fs[j]);
                    }
                }
            }
        }
        r
    }
}

/// Whether every operator of an expression is one the compiler knows.
#[verifier::loop_isolation(false)]
pub fn check_expression(e: &Expression) -> (r: bool)
    ensures
        r == compilable_expr(*e),
    decreases *e, 1int,
{
    match e {
        Expression::Additive(l, op, r) => (same_text(op.as_str(), "+") || same_text(op.as_str(), "-"))
            && check_expression(l) && check_expression(r),
        Expression::Multiplicative(l, op, r) => (same_text(op.as_str(), "*") || same_text(op.as_str(), "/")
            || same_text(op.as_str(), "%")) && check_expression(l) && check_expression(r),
        Expression::And(l, r) => check_expression(l) && check_expression(r),
        Expression::Or(l, r) => check_expression(l) && check_expression(r),
        Expression::Not(a) => check_expression(a),
        Expression::Equality(l, op, r) => (same_text(op.as_str(), "==") || same_text(op.as_str(), "!="))
            && check_expression(l) && check_expression(r),
        Expression::Relational(l, op, r) => (same_text(op.as_str(), ">") || same_text(op.as_str(), "<")
            || same_text(op.as_str(), ">=") || same_text(op.as_str(), "<=")) && check_expression(l)
            && check_expression(r),
        Expression::Assignment { value, operator, variable } => {
            let op_ok = match operator {
                None => true,
                Some(o) => same_text(o.as_str(), "=") || same_text(o.as_str(), "+=") || same_text(o.as_str(), "-=")
                    || same_text(o.as_str(), "*=") || same_text(o.as_str(), "/="),
            };
            op_ok && check_expression(value) && check_expression(variable)
        },
        Expression::Constant { .. } => true,
        Expression::Variable { field, .. } => match field {
            Some(f) => check_expression(f),
            None => true,
        },
        Expression::This { field } => match field {
            Some(f) => check_expression(f),
            None => true,
        },
        Expression::FunctionCall { function, parameters, field } => {
            let field_ok = match field {
                Some(f) => check_expression(f),
                None => true,
            };
            check_expression(function) && check_expressions(parameters) && field_ok
        },
        Expression::FunctionDef { statements, .. } => check_statements(statements),
        Expression::NativeFunctionCall { parameters } => check_expressions(parameters),
        Expression::ConstructorCall { function } => check_expression(function),
        Expression::ImplicitConstructor { statements } => check_statements(statements),
        Expression::ArrayDefinition { elements } => check_expressions(elements),
        Expression::ArrayReference { index, reference } => check_expression(index) && check_expression(reference),
        Expression::MapDefinition { keys, values } => {
            if keys.len() > values.len() || !check_expressions(keys) {
                return false;
            }
            let mut i: usize = 0;
            while i < keys.len()
                invariant
                    i <= keys@.len(),
                    keys@.len() <= values@.len(),
                    forall|k: int| 0 <= k < i ==> compilable_expr(#[trigger] values@[k]),
                decreases keys@.len() - i,
            {
                if !check_expression(&values[i]) {
                    return false;
                }
                i += 1;
            }
            true
        },
        Expression::Fork => true,
        Expression::PostFixOperator { operator, argument } => (same_text(operator.as_str(), "++")
            || same_text(operator.as_str(), "--")) && check_expression(argument),
        Expression::Conditional { condition, positive, negative } => check_expression(condition)
            && check_expression(positive) && check_expression(negative),
    }
}

/// Whether every operator of the expressions of `v` is one the compiler knows.
pub fn check_expressions(v: &Vec<Expression>) -> (r: bool)
    ensures
        r == compilable_exprs(v@),
    decreases *v, 0int,
{
    let mut i: usize = 0;
    while i < v.len()
        invariant
            i <= v@.len(),
            forall|k: int| 0 <= k < i ==> compilable_expr(#[trigger] v@[k]),
        decreases v@.len() - i,
    {
        if !check_expression(&v[i]) {
            return false;
        }
        i += 1;
    }
    true
}

/// Whether every operator of a statement is one the compiler knows.
pub fn check_statement(s: &Statement) -> (r: bool)
    ensures
        r == compilable_stmt(*s),
    decreases *s, 1int,
{
    match s {
        Statement::Expression(e, _) => check_expression(e),
        Statement::If { condition, then_clause, else_clause, .. } => {
            let else_ok = match else_clause {
                Some(b) => check_statement(b),
                None => true,
            };
            check_expression(condition) && check_statement(then_clause) && else_ok
        },
        Statement::While { condition, body, .. } => check_expression(condition) && check_statement(body),
        Statement::For { init, condition, update, body, .. } => check_expression(init) && check_expression(condition)
            && check_expression(update) && check_statement(body),
        Statement::Return { value, .. } => match value {
            Some(v) => check_expression(v),
            None => true,
        },
        Statement::Throw { exception, .. } => check_expression(exception),
        Statement::TryCatch { try_block, catch_block, .. } => check_statement(try_block) && check_statement(catch_block),
        Statement::Scope { statements, .. } => check_statements(statements),
        _ => true,
    }
}

/// Whether every operator of the statements of `v` is one the compiler knows.
pub fn check_statements(v: &Vec<Statement>) -> (r: bool)
    ensures
        r == compilable_stmts(v@),
    decreases *v, 0int,
{
    let mut i: usize = 0;
    while i < v.len()
        invariant
            i <= v@.len(),
            forall|k: int| 0 <= k < i ==> compilable_stmt(#[trigger] v@[k]),
        decreases v@.len() - i,
    {
        if !check_statement(&v[i]) {
            return false;
        }
        i += 1;
    }
    true
}

/// Whether every statement of every module compiles.
pub fn check_modules(ms: &Vec<Module>) -> (r: bool)
    ensures
        r == compilable_modules(ms@),
{
    let mut i: usize = 0;
    while i < ms.len()
        invariant
            i <= ms@.len(),
            forall|k: int| 0 <= k < i ==> compilable_stmts(#[trigger] ms@[k].statements@),
        decreases ms@.len() - i,
    {
        if !check_statements(&ms[i].statements) {
            return false;
        }
        i += 1;
    }
    true
}

/// The first position of a name, as `position_of` finds it, is its slot.
/// The first gate for `n` arguments, at `i`, is the one `gate_index` gives.
proof fn lemma_gate_index(g: Seq<i32>, n: i32, i: int)
    requires
        0 <= i < g.len(),
        g[i] == n,
        forall|j: int| 0 <= j < i ==> g[j] != n,
    ensures
        gate_index(g, n) == i,
        g.contains(n),
{
    let k = choose|k: int| 0 <= k < g.len() && g[k] == n && forall|j: int| 0 <= j < k ==> g[j] != n;
    assert(k == i) by {
        if k < i {
            assert(g[k] != n);
        } else if k > i {
            assert(g[i] != n);
        }
    }
}

/// With no gate for `n` arguments, `gate_index` gives the number of gates.
proof fn lemma_no_gate(g: Seq<i32>, n: i32)
    requires
        forall|j: int| 0 <= j < g.len() ==> g[j] != n,
    ensures
        gate_index(g, n) == g.len(),
        !g.contains(n),
{
}

proof fn lemma_slot_of(v: Seq<String>, name: Seq<char>, i: int)
    requires
        0 <= i < v.len(),
        v[i]@ == name,
        forall|j: int| 0 <= j < i ==> v[j]@ != name,
    ensures
        slot_of(names_view(v), name) == Some(i),
{
    let n = names_view(v);
    assert(n[i] == name);
    assert(forall|j: int| 0 <= j < i ==> n[j] != name) by {
        assert forall|j: int| 0 <= j < i implies n[j] != name by {
            assert(n[j] == v[j]@);
        }
    }
    let c = choose|c: int| 0 <= c < n.len() && n[c] == name && forall|j: int| 0 <= j < c ==> n[j] != name;
    if c < i {
        assert(n[c] == v[c]@);
    } else if c > i {
        assert(n[i] != name);
    }
}

/// A name that stands nowhere in a list has no slot.
proof fn lemma_no_slot(v: Seq<String>, name: Seq<char>)
    requires
        forall|j: int| 0 <= j < v.len() ==> v[j]@ != name,
    ensures
        slot_of(names_view(v), name) is None,
{
    let n = names_view(v);
    assert forall|i: int| 0 <= i < n.len() implies n[i] != name by {
        assert(n[i] == v[i]@);
    }
}

/// A copy of a list of names.
fn clone_names(v: &Vec<String>) -> (r: Vec<String>)
    ensures
        r@.len() == v@.len(),
        forall|j: int| 0 <= j < v@.len() ==> #[trigger] r@[j]@ == v@[j]@,
{
    let mut r: Vec<String> = Vec::new();
    let mut i: usize = 0;
    while i < v.len()
        invariant
            i <= v@.len(),
            r@.len() == i,
            forall|j: int| 0 <= j < i ==> #[trigger] r@[j]@ == v@[j]@,
        decreases v@.len() - i,
    {
        r.push(v[i].clone());
        i += 1;
    }
    r
}

} // verus!
