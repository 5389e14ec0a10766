//! What the compiler produces for expressions and statements: the code it writes, the
//! functions it defines, the catch regions and local variables it adds and the native call
//! gates it makes, each as a function of the compiler's state before.
use vstd::prelude::*;

use crate::ast::{Expression, Position, Statement};
use super::code::{CodeModel, Opcode};

verus! {

/// The first position of `name` in `v`.
pub open spec fn slot_of(v: Seq<Seq<char>>, name: Seq<char>) -> Option<int> {
    if exists|i: int| 0 <= i < v.len() && v[i] == name && forall|j: int| 0 <= j < i ==> v[j] != name {
        Some(choose|i: int| 0 <= i < v.len() && v[i] == name && forall|j: int| 0 <= j < i ==> v[j] != name)
    } else {
        None
    }
}

/// Whether the compiler's work on an expression is described by `expr_code`, `expr_fns`
/// and `expr_gates`: every map literal has a value for each key, and the functions it
/// defines are plain and do not leave their body by `break` or `continue`.
pub open spec fn plain_expr(e: Expression) -> bool
    decreases e,
{
    match e {
        Expression::Additive(l, _, r) => plain_expr(*l) && plain_expr(*r),
        Expression::Multiplicative(l, _, r) => plain_expr(*l) && plain_expr(*r),
        Expression::And(l, r) => plain_expr(*l) && plain_expr(*r),
        Expression::Or(l, r) => plain_expr(*l) && plain_expr(*r),
        Expression::Not(a) => plain_expr(*a),
        Expression::Equality(l, _, r) => plain_expr(*l) && plain_expr(*r),
        Expression::Relational(l, _, r) => plain_expr(*l) && plain_expr(*r),
        Expression::Assignment { value, variable, .. } => plain_expr(*value) && plain_expr(*variable),
        Expression::Constant { .. } => true,
        Expression::Variable { field, .. } => match field {
            Some(f) => plain_expr(*f),
            None => true,
        },
        Expression::This { field } => match field {
            Some(f) => plain_expr(*f),
            None => true,
        },
        Expression::FunctionCall { function, parameters, field } => plain_expr(*function)
            && plain_exprs(parameters@) && match field {
            Some(f) => plain_expr(*f),
            None => true,
        },
        Expression::FunctionDef { statements, .. } => plain_body(statements@),
        Expression::NativeFunctionCall { parameters } => plain_exprs(parameters@),
        Expression::ConstructorCall { function } => plain_expr(*function),
        Expression::ImplicitConstructor { statements } => plain_body(statements@),
        Expression::ArrayDefinition { elements } => plain_exprs(elements@),
        Expression::ArrayReference { index, reference } => plain_expr(*index) && plain_expr(*reference),
        Expression::MapDefinition { keys, values } => keys@.len() <= values@.len() && plain_exprs(keys@)
            && forall|i: int| 0 <= i < keys@.len() ==> plain_expr(#[trigger] values@[i]),
        Expression::Fork => true,
        Expression::PostFixOperator { argument, .. } => plain_expr(*argument),
        Expression::Conditional { condition, positive, negative } => plain_expr(*condition)
            && plain_expr(*positive) && plain_expr(*negative),
    }
}

pub open spec fn plain_exprs(v: Seq<Expression>) -> bool
    decreases v,
{
    forall|i: int| 0 <= i < v.len() ==> plain_expr(#[trigger] v[i])
}

/// Whether a function body is plain and has no `break` or `continue` outside its loops
/// (such an exit would be recorded with a loop of the code that defines the function).
pub open spec fn plain_body(v: Seq<Statement>) -> bool
    decreases v,
{
    forall|i: int| 0 <= i < v.len() ==> plain_stmt(#[trigger] v[i]) && exits_inside(v[i])
}

/// A plain body is a list of plain statements whose exits stand inside their loops.
pub proof fn lemma_plain_body(v: Seq<Statement>)
    requires
        plain_body(v),
    ensures
        plain_stmts(v),
        forall|i: int| 0 <= i < v.len() ==> exits_inside(#[trigger] v[i]),
{
    assert forall|i: int| 0 <= i < v.len() implies plain_stmt(#[trigger] v[i]) by {
        assert(plain_stmt(v[i]) && exits_inside(v[i]));
    }
    assert forall|i: int| 0 <= i < v.len() implies exits_inside(#[trigger] v[i]) by {
        assert(plain_stmt(v[i]) && exits_inside(v[i]));
    }
}

/// Whether every `break` and `continue` of a statement stands inside one of its loops.
pub open spec fn exits_inside(s: Statement) -> bool
    decreases s,
{
    match s {
        Statement::If { then_clause, else_clause, .. } => exits_inside(*then_clause) && match else_clause {
            Some(b) => exits_inside(*b),
            None => true,
        },
        Statement::Break(_) => false,
        Statement::Continue(_) => false,
        Statement::TryCatch { try_block, catch_block, .. } => exits_inside(*try_block) && exits_inside(*catch_block),
        Statement::Scope { statements, .. } => forall|i: int| 0 <= i < statements@.len() ==> exits_inside(#[trigger] statements@[i]),
        _ => true,
    }
}

/// The names of a list of strings.
pub open spec fn names_view(v: Seq<String>) -> Seq<Seq<char>> {
    v.map_values(|x: String| x@)
}

/// The number of functions that compiling an expression defines; a part compiled twice
/// defines its functions twice.
pub open spec fn expr_fn_count(e: Expression) -> int
    decreases e, map_rank(e),
{
    match e {
        Expression::Additive(l, _, r) => expr_fn_count(*l) + expr_fn_count(*r),
        Expression::Multiplicative(l, _, r) => expr_fn_count(*l) + expr_fn_count(*r),
        Expression::And(l, r) => expr_fn_count(*l) + expr_fn_count(*r),
        Expression::Or(l, r) => expr_fn_count(*l) + expr_fn_count(*r),
        Expression::Not(a) => expr_fn_count(*a),
        Expression::Equality(l, _, r) => expr_fn_count(*l) + expr_fn_count(*r),
        Expression::Relational(l, op, r) => if op@ == ">"@ || op@ == "<"@ {
            expr_fn_count(*l) + expr_fn_count(*r)
        } else {
            2 * (expr_fn_count(*l) + expr_fn_count(*r))
        },
        Expression::Assignment { value, operator, variable } => match assign_op(operator) {
            None => expr_fn_count(*value) + expr_fn_count(*variable),
            Some(_) => 2 * expr_fn_count(*variable) + expr_fn_count(*value),
        },
        Expression::Variable { field, .. } => match field {
            Some(f) => expr_fn_count(*f),
            None => 0,
        },
        Expression::This { field } => match field {
            Some(f) => expr_fn_count(*f),
            None => 0,
        },
        Expression::FunctionCall { function, parameters, field } => {
            let cf = match field {
                Some(f) => expr_fn_count(*f),
                None => 0,
            };
            cf + exprs_fn_count(parameters@, parameters@.len() as int) + expr_fn_count(*function)
        },
        Expression::FunctionDef { statements, .. } => 1 + stmts_fn_count(statements@, statements@.len() as int),
        Expression::NativeFunctionCall { parameters } => exprs_fn_count(parameters@, parameters@.len() as int),
        Expression::ConstructorCall { function } => expr_fn_count(*function),
        Expression::ImplicitConstructor { statements } => 1 + stmts_fn_count(statements@, statements@.len() as int),
        Expression::ArrayDefinition { elements } => exprs_fn_count(elements@, elements@.len() as int),
        Expression::ArrayReference { index, reference } => expr_fn_count(*reference) + expr_fn_count(*index),
        Expression::MapDefinition { keys, .. } => entries_fn_count(e, keys@.len() as int),
        Expression::PostFixOperator { argument, .. } => 3 * expr_fn_count(*argument),
        Expression::Conditional { condition, positive, negative } => expr_fn_count(*condition)
            + expr_fn_count(*positive) + expr_fn_count(*negative),
        _ => 0,
    }
}

pub open spec fn exprs_fn_count(v: Seq<Expression>, k: int) -> int
    decreases v, k,
{
    if k <= 0 || k > v.len() {
        0
    } else {
        exprs_fn_count(v, k - 1) + expr_fn_count(v[k - 1])
    }
}

pub open spec fn entries_fn_count(e: Expression, k: int) -> int
    decreases e, k,
{
    match e {
        Expression::MapDefinition { keys, values } => if k <= 0 || k > keys@.len() || k > values@.len() {
            0
        } else {
            entries_fn_count(e, k - 1) + expr_fn_count(values@[k - 1]) + expr_fn_count(keys@[k - 1])
        },
        _ => 0,
    }
}

pub open spec fn stmt_fn_count(s: Statement) -> int
    decreases s, 0int,
{
    match s {
        Statement::Expression(e, _) => expr_fn_count(e),
        Statement::If { condition, then_clause, else_clause, .. } => {
            let ce = match else_clause {
                Some(b) => stmt_fn_count(*b),
                None => 0,
            };
            expr_fn_count(condition) + stmt_fn_count(*then_clause) + ce
        },
        Statement::While { condition, body, .. } => expr_fn_count(condition) + stmt_fn_count(*body),
        Statement::For { init, condition, update, body, .. } => expr_fn_count(init) + expr_fn_count(condition)
            + stmt_fn_count(*body) + expr_fn_count(update),
        Statement::Return { value, .. } => match value {
            Some(v) => tail_fn_count(v) + expr_fn_count(v),
            None => 0,
        },
        Statement::Throw { exception, .. } => expr_fn_count(exception),
        Statement::TryCatch { try_block, catch_block, .. } => stmt_fn_count(*try_block) + stmt_fn_count(*catch_block),
        Statement::Scope { statements, .. } => stmts_fn_count(statements@, statements@.len() as int),
        _ => 0,
    }
}

pub open spec fn stmts_fn_count(v: Seq<Statement>, k: int) -> int
    decreases v, k,
{
    if k <= 0 || k > v.len() {
        0
    } else {
        stmts_fn_count(v, k - 1) + stmt_fn_count(v[k - 1])
    }
}

/// The native call gates `gates` with one for `n` arguments added unless there is one.
pub open spec fn with_gate(gates: Seq<i32>, n: i32) -> Seq<i32> {
    if gates.contains(n) {
        gates
    } else {
        gates.push(n)
    }
}

/// The index of the first gate for `n` arguments, or the number of gates if there is none.
pub open spec fn gate_index(gates: Seq<i32>, n: i32) -> int {
    if exists|i: int| 0 <= i < gates.len() && gates[i] == n && forall|j: int| 0 <= j < i ==> gates[j] != n {
        choose|i: int| 0 <= i < gates.len() && gates[i] == n && forall|j: int| 0 <= j < i ==> gates[j] != n
    } else {
        gates.len() as int
    }
}

/// The native call gates after compiling an expression where they were `ng`.
pub open spec fn expr_gates(e: Expression, ng: Seq<i32>) -> Seq<i32>
    decreases e, map_rank(e),
{
    match e {
        Expression::Additive(l, _, r) => expr_gates(*r, expr_gates(*l, ng)),
        Expression::Multiplicative(l, _, r) => expr_gates(*r, expr_gates(*l, ng)),
        Expression::And(l, r) => expr_gates(*r, expr_gates(*l, ng)),
        Expression::Or(l, r) => expr_gates(*r, expr_gates(*l, ng)),
        Expression::Not(a) => expr_gates(*a, ng),
        Expression::Equality(l, _, r) => expr_gates(*r, expr_gates(*l, ng)),
        Expression::Relational(l, op, r) => {
            let once = expr_gates(*r, expr_gates(*l, ng));
            if op@ == ">"@ || op@ == "<"@ {
                once
            } else {
                expr_gates(*r, expr_gates(*l, once))
            }
        },
        Expression::Assignment { value, operator, variable } => match assign_op(operator) {
            None => expr_gates(*variable, expr_gates(*value, ng)),
            Some(_) => expr_gates(*variable, expr_gates(*value, expr_gates(*variable, ng))),
        },
        Expression::Variable { field, .. } => match field {
            Some(f) => expr_gates(*f, ng),
            None => ng,
        },
        Expression::This { field } => match field {
            Some(f) => expr_gates(*f, ng),
            None => ng,
        },
        Expression::FunctionCall { function, parameters, field } => {
            let g1 = match field {
                Some(f) => expr_gates(*f, ng),
                None => ng,
            };
            expr_gates(*function, exprs_gates(parameters@, parameters@.len() as int, g1))
        },
        Expression::FunctionDef { statements, .. } => stmts_gates(statements@, statements@.len() as int, ng),
        Expression::NativeFunctionCall { parameters } => exprs_gates(parameters@, parameters@.len() as int,
            with_gate(ng, parameters@.len() as i32)),
        Expression::ConstructorCall { function } => expr_gates(*function, ng),
        Expression::ImplicitConstructor { statements } => stmts_gates(statements@, statements@.len() as int, ng),
        Expression::ArrayDefinition { elements } => exprs_gates(elements@, elements@.len() as int, ng),
        Expression::ArrayReference { index, reference } => expr_gates(*index, expr_gates(*reference, ng)),
        Expression::MapDefinition { keys, .. } => entries_gates(e, keys@.len() as int, ng),
        Expression::PostFixOperator { argument, .. } => expr_gates(*argument, expr_gates(*argument, expr_gates(*argument, ng))),
        Expression::Conditional { condition, positive, negative } => expr_gates(*negative,
            expr_gates(*positive, expr_gates(*condition, ng))),
        _ => ng,
    }
}

pub open spec fn exprs_gates(v: Seq<Expression>, k: int, ng: Seq<i32>) -> Seq<i32>
    decreases v, k,
{
    if k <= 0 || k > v.len() {
        ng
    } else {
        expr_gates(v[k - 1], exprs_gates(v, k - 1, ng))
    }
}

pub open spec fn entries_gates(e: Expression, k: int, ng: Seq<i32>) -> Seq<i32>
    decreases e, k,
{
    match e {
        Expression::MapDefinition { keys, values } => if k <= 0 || k > keys@.len() || k > values@.len() {
            ng
        } else {
            expr_gates(keys@[k - 1], expr_gates(values@[k - 1], entries_gates(e, k - 1, ng)))
        },
        _ => ng,
    }
}

/// The native call gates after compiling a statement where they were `ng`.
pub open spec fn stmt_gates(s: Statement, ng: Seq<i32>) -> Seq<i32>
    decreases s, 0int,
{
    match s {
        Statement::Expression(e, _) => expr_gates(e, ng),
        Statement::If { condition, then_clause, else_clause, .. } => {
            let gt = stmt_gates(*then_clause, expr_gates(condition, ng));
            match else_clause {
                Some(b) => stmt_gates(*b, gt),
                None => gt,
            }
        },
        Statement::While { condition, body, .. } => stmt_gates(*body, expr_gates(condition, ng)),
        Statement::For { init, condition, update, body, .. } => expr_gates(update,
            stmt_gates(*body, expr_gates(condition, expr_gates(init, ng)))),
        Statement::Return { value, .. } => match value {
            Some(v) => expr_gates(v, tail_gates(v, ng)),
            None => ng,
        },
        Statement::Throw { exception, .. } => expr_gates(exception, ng),
        Statement::TryCatch { try_block, catch_block, .. } => stmt_gates(*catch_block, stmt_gates(*try_block, ng)),
        Statement::Scope { statements, .. } => stmts_gates(statements@, statements@.len() as int, ng),
        _ => ng,
    }
}

pub open spec fn stmts_gates(v: Seq<Statement>, k: int, ng: Seq<i32>) -> Seq<i32>
    decreases v, k,
{
    if k <= 0 || k > v.len() {
        ng
    } else {
        stmt_gates(v[k - 1], stmts_gates(v, k - 1, ng))
    }
}

/// The native call gates after the tail-call test before `return v`.
pub open spec fn tail_gates(v: Expression, ng: Seq<i32>) -> Seq<i32>
    decreases v, 0int,
{
    match v {
        Expression::FunctionCall { function, parameters, .. } => exprs_gates(parameters@, parameters@.len() as int,
            expr_gates(*function, ng)),
        _ => ng,
    }
}

/// The arithmetic of a compound assignment operator (`+=`, `-=`, `*=`, `/=`); `None` for
/// a plain assignment.
pub open spec fn assign_op(operator: Option<String>) -> Option<Opcode> {
    match operator {
        None => None,
        Some(o) => if o@ == "+="@ {
            Some(Opcode::Add)
        } else if o@ == "-="@ {
            Some(Opcode::Sub)
        } else if o@ == "*="@ {
            Some(Opcode::Mult)
        } else if o@ == "/="@ {
            Some(Opcode::Div)
        } else {
            None
        },
    }
}

/// `LDC_D <pool reference of text> String`.
pub open spec fn string_constant(text: Seq<char>) -> Seq<CodeModel> {
    seq![CodeModel::Op(Opcode::LdcD), CodeModel::StringRef(text), CodeModel::Text("String"@)]
}

/// `LDC_D <value> Number`.
pub open spec fn number_constant(value: i32) -> Seq<CodeModel> {
    seq![CodeModel::Op(Opcode::LdcD), CodeModel::Int(value), CodeModel::Text("Number"@)]
}

/// One more than the number of entries of a map literal (0 for other expressions): the
/// second component of the measure under which `expr_code` calls `entries_code`.
pub open spec fn map_rank(e: Expression) -> int {
    match e {
        Expression::MapDefinition { keys, .. } => keys@.len() + 1int,
        _ => 0,
    }
}

/// The code of an expression, written from position `base`, where the current function
/// has parameters `params` and local variables `locals`, and the first function it defines
/// gets index `nf`.
pub open spec fn expr_code(e: Expression, params: Seq<Seq<char>>, locals: Seq<Seq<char>>, base: int, nf: int, ng: Seq<i32>) -> Seq<CodeModel>
    decreases e, map_rank(e),
{
    match e {
        Expression::Additive(l, op, r) => {
            let cl = expr_code(*l, params, locals, base, nf, ng);
            let cr = expr_code(*r, params, locals, base + cl.len(), nf + expr_fn_count(*l), expr_gates(*l, ng));
            cl + cr + seq![CodeModel::Op(if op@ == "+"@ { Opcode::Add } else { Opcode::Sub })]
        },
        Expression::Multiplicative(l, op, r) => {
            let cl = expr_code(*l, params, locals, base, nf, ng);
            let cr = expr_code(*r, params, locals, base + cl.len(), nf + expr_fn_count(*l), expr_gates(*l, ng));
            cl + cr + seq![CodeModel::Op(
                if op@ == "*"@ { Opcode::Mult } else if op@ == "/"@ { Opcode::Div } else { Opcode::Mod },
            )]
        },
        Expression::And(l, r) => {
            let cl = expr_code(*l, params, locals, base, nf, ng);
            let cr = expr_code(*r, params, locals, base + cl.len(), nf + expr_fn_count(*l), expr_gates(*l, ng));
            cl + cr + seq![CodeModel::Op(Opcode::And)]
        },
        Expression::Or(l, r) => {
            let cl = expr_code(*l, params, locals, base, nf, ng);
            let cr = expr_code(*r, params, locals, base + cl.len(), nf + expr_fn_count(*l), expr_gates(*l, ng));
            cl + cr + seq![CodeModel::Op(Opcode::Or)]
        },
        Expression::Not(a) => expr_code(*a, params, locals, base, nf, ng) + seq![CodeModel::Op(Opcode::Not)],
        Expression::Equality(l, op, r) => {
            let cl = expr_code(*l, params, locals, base, nf, ng);
            let cr = expr_code(*r, params, locals, base + cl.len(), nf + expr_fn_count(*l), expr_gates(*l, ng));
            cl + cr + if op@ == "=="@ {
                seq![CodeModel::Op(Opcode::Eql)]
            } else {
                seq![CodeModel::Op(Opcode::Eql), CodeModel::Op(Opcode::Not)]
            }
        },
        Expression::Relational(l, op, r) => {
            let cl = expr_code(*l, params, locals, base, nf, ng);
            let n1 = nf + expr_fn_count(*l);
            let g1 = expr_gates(*l, ng);
            let cr = expr_code(*r, params, locals, base + cl.len(), n1, g1);
            if op@ == ">"@ {
                cl + cr + seq![CodeModel::Op(Opcode::Gt)]
            } else if op@ == "<"@ {
                cl + cr + seq![CodeModel::Op(Opcode::Lt)]
            } else {
                // `>=` and `<=`: the strict comparison, or equality.
                let strict = if op@ == ">="@ { Opcode::Gt } else { Opcode::Lt };
                let b2 = base + cl.len() + cr.len() + 1;
                let n2 = n1 + expr_fn_count(*r);
                let g2 = expr_gates(*r, g1);
                let cl2 = expr_code(*l, params, locals, b2, n2, g2);
                let cr2 = expr_code(*r, params, locals, b2 + cl2.len(), n2 + expr_fn_count(*l), expr_gates(*l, g2));
                cl + cr + seq![CodeModel::Op(strict)] + cl2 + cr2 + seq![CodeModel::Op(Opcode::Eql), CodeModel::Op(Opcode::Or)]
            }
        },
        Expression::Assignment { value, operator, variable } => match assign_op(operator) {
            None => {
                let cv = expr_code(*value, params, locals, base, nf, ng);
                let cw = expr_code(*variable, params, locals, base + cv.len(), nf + expr_fn_count(*value), expr_gates(*value, ng));
                cv + cw + seq![CodeModel::Op(Opcode::Put)]
            },
            Some(a) => {
                let n1 = nf + expr_fn_count(*variable);
                let g1 = expr_gates(*variable, ng);
                let n2 = n1 + expr_fn_count(*value);
                let g2 = expr_gates(*value, g1);
                let c1 = expr_code(*variable, params, locals, base, nf, ng);
                let c2 = expr_code(*value, params, locals, base + c1.len(), n1, g1);
                let c3 = expr_code(*variable, params, locals, base + c1.len() + c2.len() + 1, n2, g2);
                c1 + c2 + seq![CodeModel::Op(a)] + c3 + seq![CodeModel::Op(Opcode::Put)]
            },
        },
        Expression::Constant { value, type_label, string } => match string {
            Some(text) => string_constant(text@),
            None => if value == -1 {
                seq![CodeModel::Op(Opcode::New), CodeModel::Text(type_label@)]
            } else {
                seq![CodeModel::Op(Opcode::LdcD), CodeModel::Int(value), CodeModel::Text(type_label@)]
            },
        },
        Expression::Variable { name, field } => {
            let param = if field is None { slot_of(params, name@) } else { None };
            let local = if field is None && param is None { slot_of(locals, name@) } else { None };
            match (param, local) {
                (Some(i), _) => seq![CodeModel::Op(Opcode::Lds), CodeModel::Int((1 + i) as i32)],
                (None, Some(i)) => seq![CodeModel::Op(Opcode::Lds), CodeModel::Int((1 + params.len() + i) as i32)],
                (None, None) => match field {
                    Some(parent) => expr_code(*parent, params, locals, base, nf, ng) + string_constant(name@)
                        + seq![CodeModel::Op(Opcode::Get)],
                    None => string_constant(name@) + seq![CodeModel::Op(Opcode::GetDynamic)],
                },
            }
        },
        Expression::This { field } => seq![CodeModel::Op(Opcode::Lds), CodeModel::Int(0)] + match field {
            Some(f) => expr_code(*f, params, locals, base + 2, nf, ng),
            None => Seq::empty(),
        },
        Expression::FunctionCall { function, parameters, field } => {
            let receiver = match field {
                None => seq![CodeModel::Op(Opcode::Lds), CodeModel::Int(0)],
                Some(f) => expr_code(*f, params, locals, base, nf, ng),
            };
            let n1 = nf + match field {
                Some(f) => expr_fn_count(*f),
                None => 0,
            };
            let g1 = match field {
                Some(f) => expr_gates(*f, ng),
                None => ng,
            };
            let args = exprs_code(parameters@, params, locals, base + receiver.len(), parameters@.len() as int, n1, g1);
            let callee = expr_code(*function, params, locals, base + receiver.len() + args.len(),
                n1 + exprs_fn_count(parameters@, parameters@.len() as int), exprs_gates(parameters@, parameters@.len() as int, g1));
            receiver + args + callee + seq![CodeModel::Op(Opcode::Invoke), CodeModel::Int(parameters@.len() as i32)]
        },
        Expression::FunctionDef { .. } => function_ref(nf),
        Expression::NativeFunctionCall { parameters } => {
            let n = parameters@.len() as i32;
            exprs_code(parameters@, params, locals, base, parameters@.len() as int, nf, with_gate(ng, n))
                + seq![CodeModel::Op(Opcode::LdcD), CodeModel::Int(gate_index(ng, n) as i32), CodeModel::Text("Function"@),
                    CodeModel::Op(Opcode::Native)]
        },
        Expression::ConstructorCall { function } => expr_code(*function, params, locals, base, nf, ng),
        Expression::ImplicitConstructor { .. } => seq![CodeModel::Op(Opcode::New), CodeModel::Text("Object"@)]
            + function_ref(nf) + seq![CodeModel::Op(Opcode::Invoke), CodeModel::Int(0)],
        Expression::ArrayDefinition { elements } => seq![CodeModel::Op(Opcode::New), CodeModel::Text("Array"@)]
            + elements_code(elements@, params, locals, base + 2, elements@.len() as int, nf, ng),
        Expression::ArrayReference { index, reference } => {
            let cr = expr_code(*reference, params, locals, base, nf, ng);
            let ci = expr_code(*index, params, locals, base + cr.len(), nf + expr_fn_count(*reference), expr_gates(*reference, ng));
            cr + ci + seq![CodeModel::Op(Opcode::Get)]
        },
        Expression::MapDefinition { keys, values } => seq![CodeModel::Op(Opcode::New), CodeModel::Text("Object"@)]
            + entries_code(e, params, locals, base + 2, keys@.len() as int, nf, ng),
        Expression::Fork => seq![CodeModel::Op(Opcode::Fork)],
        Expression::PostFixOperator { operator, argument } => {
            let step = if operator@ == "++"@ { Opcode::Add } else { Opcode::Sub };
            let k = expr_fn_count(*argument);
            let c1 = expr_code(*argument, params, locals, base, nf, ng);
            let b2 = base + c1.len() + 4;
            let c2 = expr_code(*argument, params, locals, b2, nf + k, expr_gates(*argument, ng));
            let b3 = b2 + c2.len() + 4;
            let c3 = expr_code(*argument, params, locals, b3, nf + 2 * k, expr_gates(*argument, expr_gates(*argument, ng)));
            c1 + number_constant(0) + seq![CodeModel::Op(Opcode::Add)] + c2 + number_constant(1)
                + seq![CodeModel::Op(step)] + c3 + seq![CodeModel::Op(Opcode::Put), CodeModel::Op(Opcode::Pop)]
        },
        Expression::Conditional { condition, positive, negative } => {
            let cc = expr_code(*condition, params, locals, base, nf, ng);
            let b1 = base + cc.len() + 3;
            let n1 = nf + expr_fn_count(*condition);
            let g1 = expr_gates(*condition, ng);
            let cp = expr_code(*positive, params, locals, b1, n1, g1);
            let b2 = b1 + cp.len() + 2;
            let cn = expr_code(*negative, params, locals, b2, n1 + expr_fn_count(*positive), expr_gates(*positive, g1));
            cc + seq![CodeModel::Op(Opcode::Not), CodeModel::Op(Opcode::Cjmp), CodeModel::Jump(Some(b2 as usize))]
                + cp + seq![CodeModel::Op(Opcode::Jmp), CodeModel::Jump(Some((b2 + cn.len()) as usize))] + cn
        },
        _ => Seq::empty(),
    }
}

/// `LDC_D <function> Function`: a reference to the function of index `k`.
pub open spec fn function_ref(k: int) -> Seq<CodeModel> {
    seq![CodeModel::Op(Opcode::LdcD), CodeModel::FunctionRef(k as usize), CodeModel::Text("Function"@)]
}

/// The code of the first `k` expressions of `v`, one after the other, from `base`.
pub open spec fn exprs_code(v: Seq<Expression>, params: Seq<Seq<char>>, locals: Seq<Seq<char>>, base: int, k: int, nf: int, ng: Seq<i32>) -> Seq<CodeModel>
    decreases v, k,
{
    if k <= 0 || k > v.len() {
        Seq::empty()
    } else {
        let prev = exprs_code(v, params, locals, base, k - 1, nf, ng);
        prev + expr_code(v[k - 1], params, locals, base + prev.len(), nf + exprs_fn_count(v, k - 1), exprs_gates(v, k - 1, ng))
    }
}

/// The code that stores the first `k` elements of an array literal at their indices.
pub open spec fn elements_code(v: Seq<Expression>, params: Seq<Seq<char>>, locals: Seq<Seq<char>>, base: int, k: int, nf: int, ng: Seq<i32>) -> Seq<CodeModel>
    decreases v, k,
{
    if k <= 0 || k > v.len() {
        Seq::empty()
    } else {
        let prev = elements_code(v, params, locals, base, k - 1, nf, ng);
        prev + expr_code(v[k - 1], params, locals, base + prev.len(), nf + exprs_fn_count(v, k - 1), exprs_gates(v, k - 1, ng))
            + seq![CodeModel::Op(Opcode::Lds), CodeModel::Int(-1i32)] + number_constant((k - 1) as i32)
            + seq![CodeModel::Op(Opcode::Get), CodeModel::Op(Opcode::Put), CodeModel::Op(Opcode::Pop)]
    }
}

/// The code that stores the first `k` values of a map literal `e` under their keys.
pub open spec fn entries_code(e: Expression, params: Seq<Seq<char>>, locals: Seq<Seq<char>>, base: int, k: int, nf: int, ng: Seq<i32>) -> Seq<CodeModel>
    decreases e, k,
{
    match e {
        Expression::MapDefinition { keys, values } => if k <= 0 || k > keys@.len() || k > values@.len() {
            Seq::empty()
        } else {
            let prev = entries_code(e, params, locals, base, k - 1, nf, ng);
            let n1 = nf + entries_fn_count(e, k - 1);
            let g1 = entries_gates(e, k - 1, ng);
            let cv = expr_code(values@[k - 1], params, locals, base + prev.len(), n1, g1);
            let ck = expr_code(keys@[k - 1], params, locals, base + prev.len() + cv.len() + 2, n1 + expr_fn_count(values@[k - 1]), expr_gates(values@[k - 1], g1));
            prev + cv + seq![CodeModel::Op(Opcode::Lds), CodeModel::Int(-1i32)] + ck
                + seq![CodeModel::Op(Opcode::Get), CodeModel::Op(Opcode::Put), CodeModel::Op(Opcode::Pop)]
        },
        _ => Seq::empty(),
    }
}

/// Whether the compiler's work on a statement is described by `stmt_code`, `stmt_fns`,
/// `stmt_locals`, `stmt_catches`, `stmt_gates` and `exit_holes`: its expressions are plain.
/// Besides writing code and defining functions, it records the jumps of `break` and
/// `continue` with the innermost loop being compiled, and a `try` adds its catch variable
/// and its catch region to the current function.
pub open spec fn plain_stmt(s: Statement) -> bool
    decreases s,
{
    match s {
        Statement::Expression(e, _) => plain_expr(e),
        Statement::If { condition, then_clause, else_clause, .. } => plain_expr(condition) && plain_stmt(*then_clause)
            && match else_clause {
            Some(b) => plain_stmt(*b),
            None => true,
        },
        Statement::While { condition, body, .. } => plain_expr(condition) && plain_stmt(*body),
        Statement::For { init, condition, update, body, .. } => plain_expr(init) && plain_expr(condition)
            && plain_expr(update) && plain_stmt(*body),
        Statement::Return { value, .. } => match value {
            Some(v) => plain_expr(v),
            None => true,
        },
        Statement::Throw { exception, .. } => plain_expr(exception),
        Statement::Break(_) => true,
        Statement::Continue(_) => true,
        Statement::TryCatch { try_block, catch_block, .. } => plain_stmt(*try_block) && plain_stmt(*catch_block),
        Statement::Scope { statements, .. } => plain_stmts(statements@),
        Statement::Void(_) => true,
    }
}

pub open spec fn plain_stmts(v: Seq<Statement>) -> bool
    decreases v,
{
    forall|i: int| 0 <= i < v.len() ==> plain_stmt(#[trigger] v[i])
}

/// `DEBUG line module`.
pub open spec fn debug_code(line: i32, module: Seq<char>) -> Seq<CodeModel> {
    seq![CodeModel::Op(Opcode::Debug), CodeModel::Int(line), CodeModel::StringRef(module)]
}

/// `locals` with `name` added unless it is there.
pub open spec fn with_local(locals: Seq<Seq<char>>, name: Seq<char>) -> Seq<Seq<char>> {
    if locals.contains(name) {
        locals
    } else {
        locals.push(name)
    }
}

/// The local variables after compiling a statement where they were `locals`: each catch
/// variable is added unless it is there.
pub open spec fn stmt_locals(s: Statement, locals: Seq<Seq<char>>) -> Seq<Seq<char>>
    decreases s, 0int,
{
    match s {
        Statement::If { then_clause, else_clause, .. } => {
            let lt = stmt_locals(*then_clause, locals);
            match else_clause {
                Some(e) => stmt_locals(*e, lt),
                None => lt,
            }
        },
        Statement::While { body, .. } => stmt_locals(*body, locals),
        Statement::For { body, .. } => stmt_locals(*body, locals),
        Statement::TryCatch { try_block, catch_var, catch_block, .. } => stmt_locals(*catch_block,
            with_local(stmt_locals(*try_block, locals), catch_var@)),
        Statement::Scope { statements, .. } => stmts_locals(statements@, locals, statements@.len() as int),
        _ => locals,
    }
}

/// The local variables after compiling the first `k` statements of `v`.
pub open spec fn stmts_locals(v: Seq<Statement>, locals: Seq<Seq<char>>, k: int) -> Seq<Seq<char>>
    decreases v, k,
{
    if k <= 0 || k > v.len() {
        locals
    } else {
        stmt_locals(v[k - 1], stmts_locals(v, locals, k - 1))
    }
}

/// Before `return f(args)` in the function of index `cur`: `f`, compared with that
/// function; when they are the same, the arguments stored in the parameter slots and a
/// jump back to the start. Nothing before any other returned value.
pub open spec fn tail_code(v: Expression, params: Seq<Seq<char>>, locals: Seq<Seq<char>>, base: int, nf: int, ng: Seq<i32>, cur: int) -> Seq<CodeModel> {
    match v {
        Expression::FunctionCall { function, parameters, .. } => {
            let cf = expr_code(*function, params, locals, base, nf, ng);
            let b1 = base + cf.len() + 7;
            let ca = tail_args_code(parameters@, params, locals, b1, parameters@.len() as int, nf + expr_fn_count(*function), expr_gates(*function, ng));
            let after = b1 + ca.len() + 2;
            cf + seq![CodeModel::Op(Opcode::LdcD), CodeModel::FunctionRef(cur as usize), CodeModel::Text("Function"@),
                CodeModel::Op(Opcode::Eql), CodeModel::Op(Opcode::Not), CodeModel::Op(Opcode::Cjmp), CodeModel::Jump(Some(after as usize))]
                + ca + seq![CodeModel::Op(Opcode::Jmp), CodeModel::Jump(Some(0usize))]
        },
        _ => Seq::empty(),
    }
}

/// The first `k` arguments of a tail call, each stored in its parameter slot.
pub open spec fn tail_args_code(v: Seq<Expression>, params: Seq<Seq<char>>, locals: Seq<Seq<char>>, base: int, k: int, nf: int, ng: Seq<i32>) -> Seq<CodeModel>
    decreases k,
{
    if k <= 0 || k > v.len() {
        Seq::empty()
    } else {
        let prev = tail_args_code(v, params, locals, base, k - 1, nf, ng);
        prev + expr_code(v[k - 1], params, locals, base + prev.len(), nf + exprs_fn_count(v, k - 1), exprs_gates(v, k - 1, ng))
            + seq![CodeModel::Op(Opcode::Lds), CodeModel::Int(k as i32), CodeModel::Op(Opcode::Put), CodeModel::Op(Opcode::Pop)]
    }
}

/// The number of functions that the tail-call test before `return v` defines.
pub open spec fn tail_fn_count(v: Expression) -> int
    decreases v, 0int,
{
    match v {
        Expression::FunctionCall { function, parameters, .. } => expr_fn_count(*function)
            + exprs_fn_count(parameters@, parameters@.len() as int),
        _ => 0,
    }
}

/// The functions that the tail-call test before `return v` defines, from index `nf`.
pub open spec fn tail_fns(v: Expression, module: Seq<char>, nf: int, ng: Seq<i32>) -> Seq<FnModel>
    decreases v, 0int,
{
    match v {
        Expression::FunctionCall { function, parameters, .. } => expr_fns(*function, module, nf, ng, None)
            + exprs_fns(parameters@, module, nf + expr_fn_count(*function), expr_gates(*function, ng), parameters@.len() as int),
        _ => Seq::empty(),
    }
}

/// The code of a statement, written from position `base`, in module `module`, in the
/// function of index `cur` with parameters `params` and, so far, local variables
/// `locals`; the first function it defines gets index `nf`. A `break` jumps to `brk` and a
/// `continue` to `cont`; `None` is a jump not yet aimed anywhere.
pub open spec fn stmt_code(
    s: Statement,
    params: Seq<Seq<char>>,
    locals: Seq<Seq<char>>,
    module: Seq<char>,
    base: int,
    brk: Option<usize>,
    cont: Option<usize>,
    nf: int, ng: Seq<i32>,
    cur: int) -> Seq<CodeModel>
    decreases s, 0int,
{
    match s {
        Statement::Expression(e, pos) => debug_code(pos.line, module) + expr_code(e, params, locals, base + 3, nf, ng)
            + seq![CodeModel::Op(Opcode::Pop)],
        Statement::If { condition, then_clause, else_clause, pos } => {
            let cc = expr_code(condition, params, locals, base + 3, nf, ng);
            let b1 = base + 3 + cc.len() + 3;
            let n1 = nf + expr_fn_count(condition);
            let g1 = expr_gates(condition, ng);
            let ct = stmt_code(*then_clause, params, locals, module, b1, brk, cont, n1, g1, cur);
            match else_clause {
                Some(e) => {
                    let b2 = b1 + ct.len() + 2;
                    let ce = stmt_code(*e, params, stmt_locals(*then_clause, locals), module, b2, brk, cont,
                        n1 + stmt_fn_count(*then_clause), stmt_gates(*then_clause, g1), cur);
                    debug_code(pos.line, module) + cc
                        + seq![CodeModel::Op(Opcode::Not), CodeModel::Op(Opcode::Cjmp), CodeModel::Jump(Some(b2 as usize))]
                        + ct + seq![CodeModel::Op(Opcode::Jmp), CodeModel::Jump(Some((b2 + ce.len()) as usize))] + ce
                },
                None => debug_code(pos.line, module) + cc
                    + seq![CodeModel::Op(Opcode::Not), CodeModel::Op(Opcode::Cjmp), CodeModel::Jump(Some((b1 + ct.len()) as usize))]
                    + ct,
            }
        },
        Statement::While { condition, body, pos } => {
            let start = base + 3;
            let cc = expr_code(condition, params, locals, start, nf, ng);
            let b1 = start + cc.len() + 3;
            let n1 = nf + expr_fn_count(condition);
            let g1 = expr_gates(condition, ng);
            let end = b1 + stmt_code(*body, params, locals, module, b1, None, None, n1, g1, cur).len() + 2;
            debug_code(pos.line, module) + cc
                + seq![CodeModel::Op(Opcode::Not), CodeModel::Op(Opcode::Cjmp), CodeModel::Jump(Some(end as usize))]
                + stmt_code(*body, params, locals, module, b1, Some(end as usize), Some(start as usize), n1, g1, cur)
                + seq![CodeModel::Op(Opcode::Jmp), CodeModel::Jump(Some(start as usize))]
        },
        Statement::For { init, condition, update, body, pos } => {
            let ci = expr_code(init, params, locals, base + 3, nf, ng);
            let start = base + 3 + ci.len() + 1;
            let n1 = nf + expr_fn_count(init);
            let g1 = expr_gates(init, ng);
            let cc = expr_code(condition, params, locals, start, n1, g1);
            let b1 = start + cc.len() + 3;
            let n2 = n1 + expr_fn_count(condition);
            let g2 = expr_gates(condition, g1);
            let next = b1 + stmt_code(*body, params, locals, module, b1, None, None, n2, g2, cur).len();
            let cu = expr_code(update, params, stmt_locals(*body, locals), next, n2 + stmt_fn_count(*body), stmt_gates(*body, g2));
            let end = next + cu.len() + 3;
            debug_code(pos.line, module) + ci + seq![CodeModel::Op(Opcode::Pop)] + cc
                + seq![CodeModel::Op(Opcode::Not), CodeModel::Op(Opcode::Cjmp), CodeModel::Jump(Some(end as usize))]
                + stmt_code(*body, params, locals, module, b1, Some(end as usize), Some(next as usize), n2, g2, cur) + cu
                + seq![CodeModel::Op(Opcode::Pop), CodeModel::Op(Opcode::Jmp), CodeModel::Jump(Some(start as usize))]
        },
        Statement::Return { value, pos } => {
            let cv = match value {
                Some(v) => {
                    let ct = tail_code(v, params, locals, base + 3, nf, ng, cur);
                    ct + expr_code(v, params, locals, base + 3 + ct.len(), nf + tail_fn_count(v), tail_gates(v, ng))
                },
                None => seq![CodeModel::Op(Opcode::LdcD), CodeModel::Int(0), CodeModel::Text("Undefined"@)],
            };
            debug_code(pos.line, module) + cv + seq![CodeModel::Op(Opcode::Return)]
        },
        Statement::Throw { exception, pos } => debug_code(pos.line, module) + expr_code(exception, params, locals, base + 3, nf, ng)
            + seq![CodeModel::Op(Opcode::Throw)],
        Statement::Break(_) => seq![CodeModel::Op(Opcode::Jmp), CodeModel::Jump(brk)],
        Statement::Continue(_) => seq![CodeModel::Op(Opcode::Jmp), CodeModel::Jump(cont)],
        Statement::TryCatch { try_block, catch_var, catch_block, pos } => {
            let ct = stmt_code(*try_block, params, locals, module, base + 3, brk, cont, nf, ng, cur);
            let lc = with_local(stmt_locals(*try_block, locals), catch_var@);
            let b2 = base + 3 + ct.len() + 5;
            let cc = stmt_code(*catch_block, params, lc, module, b2, brk, cont, nf + stmt_fn_count(*try_block), stmt_gates(*try_block, ng), cur);
            debug_code(pos.line, module) + ct
                + seq![CodeModel::Op(Opcode::Jmp), CodeModel::Jump(Some((b2 + cc.len()) as usize)), CodeModel::Op(Opcode::Lds),
                    CodeModel::Int(catch_slot(params, lc, catch_var@)), CodeModel::Op(Opcode::Put)]
                + cc
        },
        Statement::Scope { statements, pos } => debug_code(pos.line, module)
            + stmts_code(statements@, params, locals, module, base + 3, statements@.len() as int, brk, cont, nf, ng, cur),
        Statement::Void(_) => Seq::empty(),
    }
}

/// The stack slot of the catch variable `name` among the local variables `locals`, after
/// `this` and the parameters.
pub open spec fn catch_slot(params: Seq<Seq<char>>, locals: Seq<Seq<char>>, name: Seq<char>) -> i32 {
    match slot_of(locals, name) {
        Some(i) => (1 + params.len() + i) as i32,
        None => (1 + params.len()) as i32,
    }
}

/// The code of the first `k` statements of `v`, one after the other, from `base`.
pub open spec fn stmts_code(
    v: Seq<Statement>,
    params: Seq<Seq<char>>,
    locals: Seq<Seq<char>>,
    module: Seq<char>,
    base: int,
    k: int,
    brk: Option<usize>,
    cont: Option<usize>,
    nf: int, ng: Seq<i32>,
    cur: int) -> Seq<CodeModel>
    decreases v, k,
{
    if k <= 0 || k > v.len() {
        Seq::empty()
    } else {
        let prev = stmts_code(v, params, locals, module, base, k - 1, brk, cont, nf, ng, cur);
        prev + stmt_code(v[k - 1], params, stmts_locals(v, locals, k - 1), module, base + prev.len(), brk, cont,
            nf + stmts_fn_count(v, k - 1), stmts_gates(v, k - 1, ng), cur)
    }
}

/// The positions of the jump operands of the `break` statements (`breaks`) or of the
/// `continue` statements of a statement compiled from `base`, outside any loop inside it:
/// the jumps that the innermost enclosing loop aims.
pub open spec fn exit_holes(
    s: Statement,
    params: Seq<Seq<char>>,
    locals: Seq<Seq<char>>,
    module: Seq<char>,
    base: int,
    breaks: bool,
    nf: int, ng: Seq<i32>,
    cur: int) -> Seq<int>
    decreases s, 0int,
{
    match s {
        Statement::If { condition, then_clause, else_clause, .. } => {
            let cc = expr_code(condition, params, locals, base + 3, nf, ng);
            let b1 = base + 3 + cc.len() + 3;
            let n1 = nf + expr_fn_count(condition);
            let g1 = expr_gates(condition, ng);
            let ht = exit_holes(*then_clause, params, locals, module, b1, breaks, n1, g1, cur);
            match else_clause {
                Some(e) => {
                    let b2 = b1 + stmt_code(*then_clause, params, locals, module, b1, None, None, n1, g1, cur).len() + 2;
                    ht + exit_holes(*e, params, stmt_locals(*then_clause, locals), module, b2, breaks,
                        n1 + stmt_fn_count(*then_clause), stmt_gates(*then_clause, g1), cur)
                },
                None => ht,
            }
        },
        Statement::Break(_) => if breaks { seq![base + 1] } else { Seq::empty() },
        Statement::Continue(_) => if breaks { Seq::empty() } else { seq![base + 1] },
        Statement::TryCatch { try_block, catch_var, catch_block, .. } => {
            let ct = stmt_code(*try_block, params, locals, module, base + 3, None, None, nf, ng, cur);
            let lc = with_local(stmt_locals(*try_block, locals), catch_var@);
            let b2 = base + 3 + ct.len() + 5;
            exit_holes(*try_block, params, locals, module, base + 3, breaks, nf, ng, cur)
                + exit_holes(*catch_block, params, lc, module, b2, breaks, nf + stmt_fn_count(*try_block), stmt_gates(*try_block, ng), cur)
        },
        Statement::Scope { statements, .. } => stmts_exit_holes(statements@, params, locals, module, base + 3,
            statements@.len() as int, breaks, nf, ng, cur),
        _ => Seq::empty(),
    }
}

pub open spec fn stmts_exit_holes(
    v: Seq<Statement>,
    params: Seq<Seq<char>>,
    locals: Seq<Seq<char>>,
    module: Seq<char>,
    base: int,
    k: int,
    breaks: bool,
    nf: int, ng: Seq<i32>,
    cur: int) -> Seq<int>
    decreases v, k,
{
    if k <= 0 || k > v.len() {
        Seq::empty()
    } else {
        let prev = stmts_code(v, params, locals, module, base, k - 1, None, None, nf, ng, cur);
        stmts_exit_holes(v, params, locals, module, base, k - 1, breaks, nf, ng, cur)
            + exit_holes(v[k - 1], params, stmts_locals(v, locals, k - 1), module, base + prev.len(), breaks,
                nf + stmts_fn_count(v, k - 1), stmts_gates(v, k - 1, ng), cur)
    }
}

/// The catch regions (start, end, handler) that compiling a statement adds to the current
/// function, in the order they are added.
pub open spec fn stmt_catches(
    s: Statement,
    params: Seq<Seq<char>>,
    locals: Seq<Seq<char>>,
    module: Seq<char>,
    base: int,
    nf: int, ng: Seq<i32>,
    cur: int) -> Seq<(usize, usize, usize)>
    decreases s, 0int,
{
    match s {
        Statement::If { condition, then_clause, else_clause, .. } => {
            let cc = expr_code(condition, params, locals, base + 3, nf, ng);
            let b1 = base + 3 + cc.len() + 3;
            let n1 = nf + expr_fn_count(condition);
            let g1 = expr_gates(condition, ng);
            let ht = stmt_catches(*then_clause, params, locals, module, b1, n1, g1, cur);
            match else_clause {
                Some(e) => {
                    let b2 = b1 + stmt_code(*then_clause, params, locals, module, b1, None, None, n1, g1, cur).len() + 2;
                    ht + stmt_catches(*e, params, stmt_locals(*then_clause, locals), module, b2, n1 + stmt_fn_count(*then_clause), stmt_gates(*then_clause, g1), cur)
                },
                None => ht,
            }
        },
        Statement::While { condition, body, .. } => {
            let cc = expr_code(condition, params, locals, base + 3, nf, ng);
            stmt_catches(*body, params, locals, module, base + 3 + cc.len() + 3, nf + expr_fn_count(condition), expr_gates(condition, ng), cur)
        },
        Statement::For { init, condition, body, .. } => {
            let ci = expr_code(init, params, locals, base + 3, nf, ng);
            let start = base + 3 + ci.len() + 1;
            let n1 = nf + expr_fn_count(init);
            let g1 = expr_gates(init, ng);
            let cc = expr_code(condition, params, locals, start, n1, g1);
            stmt_catches(*body, params, locals, module, start + cc.len() + 3, n1 + expr_fn_count(condition), expr_gates(condition, g1), cur)
        },
        Statement::TryCatch { try_block, catch_var, catch_block, .. } => {
            let ct = stmt_code(*try_block, params, locals, module, base + 3, None, None, nf, ng, cur);
            let lc = with_local(stmt_locals(*try_block, locals), catch_var@);
            let end_of_try = base + 3 + ct.len() + 1;
            stmt_catches(*try_block, params, locals, module, base + 3, nf, ng, cur)
                + stmt_catches(*catch_block, params, lc, module, end_of_try + 4, nf + stmt_fn_count(*try_block), stmt_gates(*try_block, ng), cur)
                + seq![((base + 3) as usize, (end_of_try - 1) as usize, (end_of_try + 1) as usize)]
        },
        Statement::Scope { statements, .. } => stmts_catches(statements@, params, locals, module, base + 3,
            statements@.len() as int, nf, ng, cur),
        _ => Seq::empty(),
    }
}

pub open spec fn stmts_catches(
    v: Seq<Statement>,
    params: Seq<Seq<char>>,
    locals: Seq<Seq<char>>,
    module: Seq<char>,
    base: int,
    k: int,
    nf: int, ng: Seq<i32>,
    cur: int) -> Seq<(usize, usize, usize)>
    decreases v, k,
{
    if k <= 0 || k > v.len() {
        Seq::empty()
    } else {
        let prev = stmts_code(v, params, locals, module, base, k - 1, None, None, nf, ng, cur);
        stmts_catches(v, params, locals, module, base, k - 1, nf, ng, cur)
            + stmt_catches(v[k - 1], params, stmts_locals(v, locals, k - 1), module, base + prev.len(),
                nf + stmts_fn_count(v, k - 1), stmts_gates(v, k - 1, ng), cur)
    }
}

/// How an item of a statement's code with its exits unaimed (`x`) and the same item with
/// them aimed (`y`) differ: at a break position `x` is an unaimed jump and `y` a jump to
/// `e`, at a continue position one to `c`, elsewhere they are the same.
pub open spec fn aimed(x: CodeModel, y: CodeModel, at_break: bool, at_continue: bool, e: usize, c: usize) -> bool {
    if at_break {
        !at_continue && x == CodeModel::Jump(None) && y == CodeModel::Jump(Some(e))
    } else if at_continue {
        x == CodeModel::Jump(None) && y == CodeModel::Jump(Some(c))
    } else {
        x == y
    }
}

/// `some` is `none`, written from `base`, with the break jumps at the positions `bh`
/// aimed at `e` and the continue jumps at the positions `ch` aimed at `c`.
pub open spec fn fills(none: Seq<CodeModel>, some: Seq<CodeModel>, base: int, bh: Seq<int>, ch: Seq<int>, e: usize, c: usize) -> bool {
    &&& none.len() == some.len()
    &&& forall|j: int| 0 <= j < bh.len() ==> base <= #[trigger] bh[j] < base + none.len()
    &&& forall|j: int| 0 <= j < ch.len() ==> base <= #[trigger] ch[j] < base + none.len()
    &&& forall|i: int| 0 <= i < none.len() ==> aimed(#[trigger] none[i], some[i], bh.contains(base + i), ch.contains(base + i), e, c)
}

/// Code without exits fills itself.
pub proof fn lemma_fills_same(x: Seq<CodeModel>, base: int, e: usize, c: usize)
    ensures
        fills(x, x, base, Seq::empty(), Seq::empty(), e, c),
{
}

/// `fills` holds of two pieces written one after the other.
pub proof fn lemma_fills_concat(
    a1: Seq<CodeModel>, a2: Seq<CodeModel>, b1: Seq<CodeModel>, b2: Seq<CodeModel>, base: int,
    ha: Seq<int>, ca: Seq<int>, hb: Seq<int>, cb: Seq<int>, e: usize, c: usize,
)
    requires
        fills(a1, a2, base, ha, ca, e, c),
        fills(b1, b2, base + a1.len(), hb, cb, e, c),
    ensures
        fills(a1 + b1, a2 + b2, base, ha + hb, ca + cb, e, c),
{
    let x = a1 + b1;
    let y = a2 + b2;
    let h = ha + hb;
    let k = ca + cb;
    assert forall|j: int| 0 <= j < h.len() implies base <= #[trigger] h[j] < base + x.len() by {
        if j < ha.len() {
            assert(h[j] == ha[j]);
        } else {
            assert(h[j] == hb[j - ha.len()]);
        }
    }
    assert forall|j: int| 0 <= j < k.len() implies base <= #[trigger] k[j] < base + x.len() by {
        if j < ca.len() {
            assert(k[j] == ca[j]);
        } else {
            assert(k[j] == cb[j - ca.len()]);
        }
    }
    assert forall|i: int| 0 <= i < x.len() implies aimed(#[trigger] x[i], y[i], h.contains(base + i), k.contains(base + i), e, c) by {
        if i < a1.len() {
            assert(x[i] == a1[i] && y[i] == a2[i]);
            assert(h.contains(base + i) == ha.contains(base + i)) by {
                if h.contains(base + i) {
                    let j = choose|j: int| 0 <= j < h.len() && h[j] == base + i;
                    if j >= ha.len() {
                        assert(hb[j - ha.len()] == h[j]);
                    } else {
                        assert(ha[j] == h[j]);
                    }
                }
                if ha.contains(base + i) {
                    let j = choose|j: int| 0 <= j < ha.len() && ha[j] == base + i;
                    assert(h[j] == ha[j]);
                }
            }
            assert(k.contains(base + i) == ca.contains(base + i)) by {
                if k.contains(base + i) {
                    let j = choose|j: int| 0 <= j < k.len() && k[j] == base + i;
                    if j >= ca.len() {
                        assert(cb[j - ca.len()] == k[j]);
                    } else {
                        assert(ca[j] == k[j]);
                    }
                }
                if ca.contains(base + i) {
                    let j = choose|j: int| 0 <= j < ca.len() && ca[j] == base + i;
                    assert(k[j] == ca[j]);
                }
            }
        } else {
            let i2 = i - a1.len();
            assert(x[i] == b1[i2] && y[i] == b2[i2]);
            assert(base + i == base + a1.len() + i2);
            assert(h.contains(base + i) == hb.contains(base + i)) by {
                if h.contains(base + i) {
                    let j = choose|j: int| 0 <= j < h.len() && h[j] == base + i;
                    if j < ha.len() {
                        assert(ha[j] == h[j]);
                    } else {
                        assert(hb[j - ha.len()] == h[j]);
                    }
                }
                if hb.contains(base + i) {
                    let j = choose|j: int| 0 <= j < hb.len() && hb[j] == base + i;
                    assert(h[j + ha.len()] == hb[j]);
                }
            }
            assert(k.contains(base + i) == cb.contains(base + i)) by {
                if k.contains(base + i) {
                    let j = choose|j: int| 0 <= j < k.len() && k[j] == base + i;
                    if j < ca.len() {
                        assert(ca[j] == k[j]);
                    } else {
                        assert(cb[j - ca.len()] == k[j]);
                    }
                }
                if cb.contains(base + i) {
                    let j = choose|j: int| 0 <= j < cb.len() && cb[j] == base + i;
                    assert(k[j + ca.len()] == cb[j]);
                }
            }
        }
    }
}

/// `fills` carries over to code written before and after the statement's own.
pub proof fn lemma_fills_around(
    head: Seq<CodeModel>, none: Seq<CodeModel>, some: Seq<CodeModel>, tail: Seq<CodeModel>, base: int,
    bh: Seq<int>, ch: Seq<int>, e: usize, c: usize,
)
    requires
        fills(none, some, base + head.len(), bh, ch, e, c),
    ensures
        fills(head + none + tail, head + some + tail, base, bh, ch, e, c),
{
    lemma_fills_same(head, base, e, c);
    lemma_fills_concat(head, head, none, some, base, Seq::empty(), Seq::empty(), bh, ch, e, c);
    assert(Seq::<int>::empty() + bh =~= bh);
    assert(Seq::<int>::empty() + ch =~= ch);
    lemma_fills_same(tail, base + head.len() + none.len(), e, c);
    lemma_fills_concat(head + none, head + some, tail, tail, base, bh, ch, Seq::empty(), Seq::empty(), e, c);
    assert(bh + Seq::<int>::empty() =~= bh);
    assert(ch + Seq::<int>::empty() =~= ch);
}

/// The code of a statement with its exits unaimed fills, at its exit holes, to the code
/// with them aimed.
pub proof fn lemma_stmt_fills(
    s: Statement, params: Seq<Seq<char>>, locals: Seq<Seq<char>>, module: Seq<char>, base: int, e: usize, c: usize, nf: int, ng: Seq<i32>, cur: int)
    ensures
        fills(
            stmt_code(s, params, locals, module, base, None, None, nf, ng, cur),
            stmt_code(s, params, locals, module, base, Some(e), Some(c), nf, ng, cur),
            base,
            exit_holes(s, params, locals, module, base, true, nf, ng, cur),
            exit_holes(s, params, locals, module, base, false, nf, ng, cur),
            e,
            c,
        ),
    decreases s, 2int,
{
    let n = stmt_code(s, params, locals, module, base, None, None, nf, ng, cur);
    let y = stmt_code(s, params, locals, module, base, Some(e), Some(c), nf, ng, cur);
    match s {
        Statement::If { .. } => {
            lemma_if_fills(s, params, locals, module, base, e, c, nf, ng, cur);
        },
        Statement::TryCatch { .. } => {
            lemma_try_fills(s, params, locals, module, base, e, c, nf, ng, cur);
        },
        Statement::Break(_) => {
            let h = seq![base + 1];
            assert(h[0] == base + 1);
            assert(!h.contains(base)) by {
                if h.contains(base) {
                    let j = choose|j: int| 0 <= j < h.len() && h[j] == base;
                    assert(h[j] == base + 1);
                }
            }
            assert(aimed(n[0], y[0], h.contains(base), Seq::<int>::empty().contains(base), e, c));
            assert(aimed(n[1], y[1], h.contains(base + 1), Seq::<int>::empty().contains(base + 1), e, c));
        },
        Statement::Continue(_) => {
            let h = seq![base + 1];
            assert(h[0] == base + 1);
            assert(!h.contains(base)) by {
                if h.contains(base) {
                    let j = choose|j: int| 0 <= j < h.len() && h[j] == base;
                    assert(h[j] == base + 1);
                }
            }
            assert(aimed(n[0], y[0], Seq::<int>::empty().contains(base), h.contains(base), e, c));
            assert(aimed(n[1], y[1], Seq::<int>::empty().contains(base + 1), h.contains(base + 1), e, c));
        },
        Statement::Scope { statements, pos } => {
            let k = statements@.len() as int;
            lemma_stmts_fills(statements@, params, locals, module, base + 3, k, e, c, nf, ng, cur);
            lemma_fills_around(debug_code(pos.line, module),
                stmts_code(statements@, params, locals, module, base + 3, k, None, None, nf, ng, cur),
                stmts_code(statements@, params, locals, module, base + 3, k, Some(e), Some(c), nf, ng, cur),
                Seq::empty(), base,
                stmts_exit_holes(statements@, params, locals, module, base + 3, k, true, nf, ng, cur),
                stmts_exit_holes(statements@, params, locals, module, base + 3, k, false, nf, ng, cur), e, c);
            assert(n =~= debug_code(pos.line, module)
                + stmts_code(statements@, params, locals, module, base + 3, k, None, None, nf, ng, cur)
                + Seq::<CodeModel>::empty());
            assert(y =~= debug_code(pos.line, module)
                + stmts_code(statements@, params, locals, module, base + 3, k, Some(e), Some(c), nf, ng, cur)
                + Seq::<CodeModel>::empty());
        },
        _ => {
            assert(n == y);
            lemma_fills_same(n, base, e, c);
        },
    }
}

/// `lemma_stmt_fills` for an `if` statement.
#[verifier::spinoff_prover]
proof fn lemma_if_fills(
    s: Statement, params: Seq<Seq<char>>, locals: Seq<Seq<char>>, module: Seq<char>, base: int, e: usize, c: usize, nf: int, ng: Seq<i32>, cur: int)
    requires
        s is If,
    ensures
        fills(
            stmt_code(s, params, locals, module, base, None, None, nf, ng, cur),
            stmt_code(s, params, locals, module, base, Some(e), Some(c), nf, ng, cur),
            base,
            exit_holes(s, params, locals, module, base, true, nf, ng, cur),
            exit_holes(s, params, locals, module, base, false, nf, ng, cur),
            e,
            c,
        ),
    decreases s, 1int,
{
    let n = stmt_code(s, params, locals, module, base, None, None, nf, ng, cur);
    let y = stmt_code(s, params, locals, module, base, Some(e), Some(c), nf, ng, cur);
    if let Statement::If { condition, then_clause, else_clause, pos } = s {
        let cc = expr_code(condition, params, locals, base + 3, nf, ng);
        let b1 = base + 3 + cc.len() + 3;
        let n1 = nf + expr_fn_count(condition);
        let g1 = expr_gates(condition, ng);
        lemma_stmt_fills(*then_clause, params, locals, module, b1, e, c, n1, g1, cur);
        let ctn = stmt_code(*then_clause, params, locals, module, b1, None, None, n1, g1, cur);
        let cts = stmt_code(*then_clause, params, locals, module, b1, Some(e), Some(c), n1, g1, cur);
        let htb = exit_holes(*then_clause, params, locals, module, b1, true, n1, g1, cur);
        let htc = exit_holes(*then_clause, params, locals, module, b1, false, n1, g1, cur);
        match else_clause {
            Some(el) => {
                let b2 = b1 + ctn.len() + 2;
                let n2 = n1 + stmt_fn_count(*then_clause);
                let g2 = stmt_gates(*then_clause, g1);
                let lt = stmt_locals(*then_clause, locals);
                lemma_stmt_fills(*el, params, lt, module, b2, e, c, n2, g2, cur);
                let cen = stmt_code(*el, params, lt, module, b2, None, None, n2, g2, cur);
                let ces = stmt_code(*el, params, lt, module, b2, Some(e), Some(c), n2, g2, cur);
                let head = debug_code(pos.line, module) + cc
                    + seq![CodeModel::Op(Opcode::Not), CodeModel::Op(Opcode::Cjmp), CodeModel::Jump(Some(b2 as usize))];
                let mid = seq![CodeModel::Op(Opcode::Jmp), CodeModel::Jump(Some((b2 + cen.len()) as usize))];
                assert(head.len() == b1 - base);
                lemma_fills_around(head, ctn, cts, mid, base, htb, htc, e, c);
                lemma_fills_concat(head + ctn + mid, head + cts + mid, cen, ces, base, htb, htc,
                    exit_holes(*el, params, lt, module, b2, true, n2, g2, cur), exit_holes(*el, params, lt, module, b2, false, n2, g2, cur), e, c);
                assert(n == head + ctn + mid + cen);
                assert(y == head + cts + mid + ces);
            },
            None => {
                let head = debug_code(pos.line, module) + cc
                    + seq![CodeModel::Op(Opcode::Not), CodeModel::Op(Opcode::Cjmp), CodeModel::Jump(Some((b1 + ctn.len()) as usize))];
                assert(head.len() == b1 - base);
                lemma_fills_around(head, ctn, cts, Seq::empty(), base, htb, htc, e, c);
                assert(n =~= head + ctn + Seq::<CodeModel>::empty());
                assert(y =~= head + cts + Seq::<CodeModel>::empty());
            },
        }
    }
}

/// `lemma_stmt_fills` for a `try` statement.
#[verifier::spinoff_prover]
proof fn lemma_try_fills(
    s: Statement, params: Seq<Seq<char>>, locals: Seq<Seq<char>>, module: Seq<char>, base: int, e: usize, c: usize, nf: int, ng: Seq<i32>, cur: int)
    requires
        s is TryCatch,
    ensures
        fills(
            stmt_code(s, params, locals, module, base, None, None, nf, ng, cur),
            stmt_code(s, params, locals, module, base, Some(e), Some(c), nf, ng, cur),
            base,
            exit_holes(s, params, locals, module, base, true, nf, ng, cur),
            exit_holes(s, params, locals, module, base, false, nf, ng, cur),
            e,
            c,
        ),
    decreases s, 1int,
{
    let n = stmt_code(s, params, locals, module, base, None, None, nf, ng, cur);
    let y = stmt_code(s, params, locals, module, base, Some(e), Some(c), nf, ng, cur);
    if let Statement::TryCatch { try_block, catch_var, catch_block, pos } = s {
        lemma_stmt_fills(*try_block, params, locals, module, base + 3, e, c, nf, ng, cur);
        let ctn = stmt_code(*try_block, params, locals, module, base + 3, None, None, nf, ng, cur);
        let cts = stmt_code(*try_block, params, locals, module, base + 3, Some(e), Some(c), nf, ng, cur);
        let lc = with_local(stmt_locals(*try_block, locals), catch_var@);
        let b2 = base + 3 + ctn.len() + 5;
        let n2 = nf + stmt_fn_count(*try_block);
        let g2 = stmt_gates(*try_block, ng);
        lemma_stmt_fills(*catch_block, params, lc, module, b2, e, c, n2, g2, cur);
        let ccn = stmt_code(*catch_block, params, lc, module, b2, None, None, n2, g2, cur);
        let ccs = stmt_code(*catch_block, params, lc, module, b2, Some(e), Some(c), n2, g2, cur);
        let head = debug_code(pos.line, module);
        let mid = seq![CodeModel::Op(Opcode::Jmp), CodeModel::Jump(Some((b2 + ccn.len()) as usize)), CodeModel::Op(Opcode::Lds),
            CodeModel::Int(catch_slot(params, lc, catch_var@)), CodeModel::Op(Opcode::Put)];
        lemma_fills_around(head, ctn, cts, mid, base,
            exit_holes(*try_block, params, locals, module, base + 3, true, nf, ng, cur),
            exit_holes(*try_block, params, locals, module, base + 3, false, nf, ng, cur), e, c);
        lemma_fills_concat(head + ctn + mid, head + cts + mid, ccn, ccs, base,
            exit_holes(*try_block, params, locals, module, base + 3, true, nf, ng, cur),
            exit_holes(*try_block, params, locals, module, base + 3, false, nf, ng, cur),
            exit_holes(*catch_block, params, lc, module, b2, true, n2, g2, cur),
            exit_holes(*catch_block, params, lc, module, b2, false, n2, g2, cur), e, c);
        assert(n == head + ctn + mid + ccn);
        assert(y == head + cts + mid + ccs);
    }
}

/// `lemma_stmt_fills` for the first `k` statements of a list.
pub proof fn lemma_stmts_fills(
    v: Seq<Statement>, params: Seq<Seq<char>>, locals: Seq<Seq<char>>, module: Seq<char>, base: int, k: int, e: usize, c: usize, nf: int, ng: Seq<i32>, cur: int)
    ensures
        fills(
            stmts_code(v, params, locals, module, base, k, None, None, nf, ng, cur),
            stmts_code(v, params, locals, module, base, k, Some(e), Some(c), nf, ng, cur),
            base,
            stmts_exit_holes(v, params, locals, module, base, k, true, nf, ng, cur),
            stmts_exit_holes(v, params, locals, module, base, k, false, nf, ng, cur),
            e,
            c,
        ),
    decreases v, k,
{
    if k <= 0 || k > v.len() {
        lemma_fills_same(Seq::empty(), base, e, c);
    } else {
        lemma_stmts_fills(v, params, locals, module, base, k - 1, e, c, nf, ng, cur);
        let pn = stmts_code(v, params, locals, module, base, k - 1, None, None, nf, ng, cur);
        let ps = stmts_code(v, params, locals, module, base, k - 1, Some(e), Some(c), nf, ng, cur);
        let n1 = nf + stmts_fn_count(v, k - 1);
        let g1 = stmts_gates(v, k - 1, ng);
        let lk = stmts_locals(v, locals, k - 1);
        lemma_stmt_fills(v[k - 1], params, lk, module, base + pn.len(), e, c, n1, g1, cur);
        lemma_fills_concat(pn, ps,
            stmt_code(v[k - 1], params, lk, module, base + pn.len(), None, None, n1, g1, cur),
            stmt_code(v[k - 1], params, lk, module, base + pn.len(), Some(e), Some(c), n1, g1, cur),
            base,
            stmts_exit_holes(v, params, locals, module, base, k - 1, true, nf, ng, cur),
            stmts_exit_holes(v, params, locals, module, base, k - 1, false, nf, ng, cur),
            exit_holes(v[k - 1], params, lk, module, base + pn.len(), true, n1, g1, cur),
            exit_holes(v[k - 1], params, lk, module, base + pn.len(), false, n1, g1, cur), e, c);
    }
}

/// `c` with the jump at each position of `ps` aimed at `t`.
pub open spec fn patch_all(c: Seq<CodeModel>, ps: Seq<int>, t: usize) -> Seq<CodeModel> {
    Seq::new(c.len(), |i: int| if ps.contains(i) && c[i] is Jump { CodeModel::Jump(Some(t)) } else { c[i] })
}

/// Aiming the break and continue holes of a statement's code, wherever it stands, gives
/// the statement's code with its exits aimed.
pub proof fn lemma_patch_fills(
    pre: Seq<CodeModel>, none: Seq<CodeModel>, some: Seq<CodeModel>, post: Seq<CodeModel>,
    bh: Seq<int>, ch: Seq<int>, e: usize, c: usize,
)
    requires
        fills(none, some, pre.len() as int, bh, ch, e, c),
    ensures
        patch_all(patch_all(pre + none + post, bh, e), ch, c) == pre + some + post,
{
    let x = pre + none + post;
    let p1 = patch_all(x, bh, e);
    let p2 = patch_all(p1, ch, c);
    let y = pre + some + post;
    assert forall|i: int| 0 <= i < y.len() implies p2[i] == y[i] by {
        let inside = pre.len() <= i < pre.len() + none.len();
        if !inside {
            if bh.contains(i) {
                let j = choose|j: int| 0 <= j < bh.len() && bh[j] == i;
                assert(pre.len() <= bh[j] < pre.len() + none.len());
            }
            if ch.contains(i) {
                let j = choose|j: int| 0 <= j < ch.len() && ch[j] == i;
                assert(pre.len() <= ch[j] < pre.len() + none.len());
            }
            if i < pre.len() {
                assert(x[i] == pre[i] && y[i] == pre[i]);
            } else {
                assert(x[i] == post[i - pre.len() - none.len()] && y[i] == post[i - pre.len() - none.len()]);
            }
        } else {
            let j = i - pre.len();
            assert(x[i] == none[j] && y[i] == some[j]);
            assert(pre.len() + j == i);
            assert(aimed(none[j], some[j], bh.contains(i), ch.contains(i), e, c));
        }
    }
    assert(p2 =~= y);
}

/// What a function's code ends with after its body: `return this` where `return_this`
/// gives a position, else `return undefined` unless the body ends in a return.
pub open spec fn function_tail(body: Seq<Statement>, module: Seq<char>, return_this: Option<Position>) -> Seq<CodeModel> {
    match return_this {
        Some(pos) => debug_code(pos.line, module)
            + seq![CodeModel::Op(Opcode::Lds), CodeModel::Int(0), CodeModel::Op(Opcode::Return)],
        None => if body.len() > 0 && body.last() is Return {
            Seq::empty()
        } else {
            seq![CodeModel::Op(Opcode::LdcD), CodeModel::Int(0), CodeModel::Text("Undefined"@), CodeModel::Op(Opcode::Return)]
        },
    }
}

/// The code of a function with parameters `params` and body `body`, compiled in module
/// `module`, where the functions it defines start at index `nf` (the function's own index
/// is `nf - 1`): the body from position 0, then its tail.
pub open spec fn function_code(body: Seq<Statement>, params: Seq<Seq<char>>, module: Seq<char>, return_this: Option<Position>, nf: int, ng: Seq<i32>) -> Seq<CodeModel> {
    stmts_code(body, params, Seq::empty(), module, 0, body.len() as int, None, None, nf, ng, nf - 1) + function_tail(body, module, return_this)
}

/// What a compiled function holds, as values: its code, its parameters and local
/// variables, its name for debugging, and its catch regions (start, end, handler).
pub struct FnModel {
    pub code: Seq<CodeModel>,
    pub params: Seq<Seq<char>>,
    pub locals: Seq<Seq<char>>,
    pub debug_name: Option<Seq<char>>,
    pub catches: Seq<(usize, usize, usize)>,
}

/// The function of index `k` that a definition with parameters `params` and body `body`
/// compiles to in module `module`; the functions that its body defines follow it.
pub open spec fn defined_fn(
    body: Seq<Statement>,
    params: Seq<Seq<char>>,
    module: Seq<char>,
    return_this: Option<Position>,
    debug_name: Option<Seq<char>>,
    k: int, ng: Seq<i32>) -> FnModel {
    FnModel {
        code: function_code(body, params, module, return_this, k + 1, ng),
        params,
        locals: stmts_locals(body, Seq::empty(), body.len() as int),
        debug_name,
        catches: stmts_catches(body, params, Seq::empty(), module, 0, body.len() as int, k + 1, ng, k),
    }
}

/// The name that a function assigned to `variable` is given: that of a variable, or of a
/// field of `this`.
pub open spec fn assigned_fn_name(variable: Expression) -> Option<Seq<char>> {
    match variable {
        Expression::Variable { name, field: None } => Some(name@),
        Expression::This { field: Some(f) } => match *f {
            Expression::Variable { name, field: None } => Some(name@),
            _ => None,
        },
        _ => None,
    }
}

/// The functions that compiling an expression defines in module `module`, from index
/// `nf`, in the order of their indices; a definition compiled directly is named `name`.
pub open spec fn expr_fns(e: Expression, module: Seq<char>, nf: int, ng: Seq<i32>, name: Option<Seq<char>>) -> Seq<FnModel>
    decreases e, map_rank(e),
{
    match e {
        Expression::Additive(l, _, r) => expr_fns(*l, module, nf, ng, None) + expr_fns(*r, module, nf + expr_fn_count(*l), expr_gates(*l, ng), None),
        Expression::Multiplicative(l, _, r) => expr_fns(*l, module, nf, ng, None) + expr_fns(*r, module, nf + expr_fn_count(*l), expr_gates(*l, ng), None),
        Expression::And(l, r) => expr_fns(*l, module, nf, ng, None) + expr_fns(*r, module, nf + expr_fn_count(*l), expr_gates(*l, ng), None),
        Expression::Or(l, r) => expr_fns(*l, module, nf, ng, None) + expr_fns(*r, module, nf + expr_fn_count(*l), expr_gates(*l, ng), None),
        Expression::Not(a) => expr_fns(*a, module, nf, ng, None),
        Expression::Equality(l, _, r) => expr_fns(*l, module, nf, ng, None) + expr_fns(*r, module, nf + expr_fn_count(*l), expr_gates(*l, ng), None),
        Expression::Relational(l, op, r) => {
            let once = expr_fns(*l, module, nf, ng, None) + expr_fns(*r, module, nf + expr_fn_count(*l), expr_gates(*l, ng), None);
            if op@ == ">"@ || op@ == "<"@ {
                once
            } else {
                let n2 = nf + expr_fn_count(*l) + expr_fn_count(*r);
                let g2 = expr_gates(*r, expr_gates(*l, ng));
                once + expr_fns(*l, module, n2, g2, None) + expr_fns(*r, module, n2 + expr_fn_count(*l), expr_gates(*l, g2), None)
            }
        },
        Expression::Assignment { value, operator, variable } => match assign_op(operator) {
            None => expr_fns(*value, module, nf, ng, assigned_fn_name(*variable))
                + expr_fns(*variable, module, nf + expr_fn_count(*value), expr_gates(*value, ng), None),
            Some(_) => {
                let n1 = nf + expr_fn_count(*variable);
                let g1 = expr_gates(*variable, ng);
                expr_fns(*variable, module, nf, ng, None) + expr_fns(*value, module, n1, g1, None)
                    + expr_fns(*variable, module, n1 + expr_fn_count(*value), expr_gates(*value, g1), None)
            },
        },
        Expression::Variable { field, .. } => match field {
            Some(f) => expr_fns(*f, module, nf, ng, None),
            None => Seq::empty(),
        },
        Expression::This { field } => match field {
            Some(f) => expr_fns(*f, module, nf, ng, None),
            None => Seq::empty(),
        },
        Expression::FunctionCall { function, parameters, field } => {
            let fr = match field {
                Some(f) => expr_fns(*f, module, nf, ng, None),
                None => Seq::empty(),
            };
            let n1 = nf + match field {
                Some(f) => expr_fn_count(*f),
                None => 0,
            };
            let g1 = match field {
                Some(f) => expr_gates(*f, ng),
                None => ng,
            };
            fr + exprs_fns(parameters@, module, n1, g1, parameters@.len() as int)
                + expr_fns(*function, module, n1 + exprs_fn_count(parameters@, parameters@.len() as int), exprs_gates(parameters@, parameters@.len() as int, g1), None)
        },
        Expression::FunctionDef { parameters, statements } => seq![defined_fn(statements@, names_view(parameters@), module, None, name, nf, ng)]
            + stmts_fns(statements@, module, nf + 1, ng, statements@.len() as int),
        Expression::NativeFunctionCall { parameters } => exprs_fns(parameters@, module, nf,
            with_gate(ng, parameters@.len() as i32), parameters@.len() as int),
        Expression::ConstructorCall { function } => expr_fns(*function, module, nf, ng, None),
        Expression::ImplicitConstructor { statements } => seq![defined_fn(statements@, Seq::empty(), module,
            Some(Position { line: 0, column: 0 }), None, nf, ng)] + stmts_fns(statements@, module, nf + 1, ng, statements@.len() as int),
        Expression::ArrayDefinition { elements } => exprs_fns(elements@, module, nf, ng, elements@.len() as int),
        Expression::ArrayReference { index, reference } => expr_fns(*reference, module, nf, ng, None)
            + expr_fns(*index, module, nf + expr_fn_count(*reference), expr_gates(*reference, ng), None),
        Expression::MapDefinition { keys, .. } => entries_fns(e, module, nf, ng, keys@.len() as int),
        Expression::PostFixOperator { argument, .. } => {
            let k = expr_fn_count(*argument);
            expr_fns(*argument, module, nf, ng, None) + expr_fns(*argument, module, nf + k, expr_gates(*argument, ng), None)
                + expr_fns(*argument, module, nf + 2 * k, expr_gates(*argument, expr_gates(*argument, ng)), None)
        },
        Expression::Conditional { condition, positive, negative } => {
            let n1 = nf + expr_fn_count(*condition);
            let g1 = expr_gates(*condition, ng);
            expr_fns(*condition, module, nf, ng, None) + expr_fns(*positive, module, n1, g1, None)
                + expr_fns(*negative, module, n1 + expr_fn_count(*positive), expr_gates(*positive, g1), None)
        },
        _ => Seq::empty(),
    }
}

pub open spec fn exprs_fns(v: Seq<Expression>, module: Seq<char>, nf: int, ng: Seq<i32>, k: int) -> Seq<FnModel>
    decreases v, k,
{
    if k <= 0 || k > v.len() {
        Seq::empty()
    } else {
        exprs_fns(v, module, nf, ng, k - 1) + expr_fns(v[k - 1], module, nf + exprs_fn_count(v, k - 1), exprs_gates(v, k - 1, ng), None)
    }
}

pub open spec fn entries_fns(e: Expression, module: Seq<char>, nf: int, ng: Seq<i32>, k: int) -> Seq<FnModel>
    decreases e, k,
{
    match e {
        Expression::MapDefinition { keys, values } => if k <= 0 || k > keys@.len() || k > values@.len() {
            Seq::empty()
        } else {
            let n1 = nf + entries_fn_count(e, k - 1);
            let g1 = entries_gates(e, k - 1, ng);
            entries_fns(e, module, nf, ng, k - 1) + expr_fns(values@[k - 1], module, n1, g1, None)
                + expr_fns(keys@[k - 1], module, n1 + expr_fn_count(values@[k - 1]), expr_gates(values@[k - 1], g1), None)
        },
        _ => Seq::empty(),
    }
}

/// The functions that compiling a statement defines, from index `nf`.
pub open spec fn stmt_fns(s: Statement, module: Seq<char>, nf: int, ng: Seq<i32>) -> Seq<FnModel>
    decreases s, 0int,
{
    match s {
        Statement::Expression(e, _) => expr_fns(e, module, nf, ng, None),
        Statement::If { condition, then_clause, else_clause, .. } => {
            let n1 = nf + expr_fn_count(condition);
            let g1 = expr_gates(condition, ng);
            let fe = match else_clause {
                Some(b) => stmt_fns(*b, module, n1 + stmt_fn_count(*then_clause), stmt_gates(*then_clause, g1)),
                None => Seq::empty(),
            };
            expr_fns(condition, module, nf, ng, None) + stmt_fns(*then_clause, module, n1, g1) + fe
        },
        Statement::While { condition, body, .. } => expr_fns(condition, module, nf, ng, None)
            + stmt_fns(*body, module, nf + expr_fn_count(condition), expr_gates(condition, ng)),
        Statement::For { init, condition, update, body, .. } => {
            let n1 = nf + expr_fn_count(init);
            let g1 = expr_gates(init, ng);
            let n2 = n1 + expr_fn_count(condition);
            let g2 = expr_gates(condition, g1);
            expr_fns(init, module, nf, ng, None) + expr_fns(condition, module, n1, g1, None) + stmt_fns(*body, module, n2, g2)
                + expr_fns(update, module, n2 + stmt_fn_count(*body), stmt_gates(*body, g2), None)
        },
        Statement::Return { value, .. } => match value {
            Some(v) => tail_fns(v, module, nf, ng) + expr_fns(v, module, nf + tail_fn_count(v), tail_gates(v, ng), None),
            None => Seq::empty(),
        },
        Statement::Throw { exception, .. } => expr_fns(exception, module, nf, ng, None),
        Statement::TryCatch { try_block, catch_block, .. } => stmt_fns(*try_block, module, nf, ng)
            + stmt_fns(*catch_block, module, nf + stmt_fn_count(*try_block), stmt_gates(*try_block, ng)),
        Statement::Scope { statements, .. } => stmts_fns(statements@, module, nf, ng, statements@.len() as int),
        _ => Seq::empty(),
    }
}

pub open spec fn stmts_fns(v: Seq<Statement>, module: Seq<char>, nf: int, ng: Seq<i32>, k: int) -> Seq<FnModel>
    decreases v, k,
{
    if k <= 0 || k > v.len() {
        Seq::empty()
    } else {
        stmts_fns(v, module, nf, ng, k - 1) + stmt_fns(v[k - 1], module, nf + stmts_fn_count(v, k - 1), stmts_gates(v, k - 1, ng))
    }
}

/// As many functions are defined as counted.
pub proof fn lemma_expr_fns_len(e: Expression, module: Seq<char>, nf: int, ng: Seq<i32>, name: Option<Seq<char>>)
    ensures
        expr_fns(e, module, nf, ng, name).len() == expr_fn_count(e),
    decreases e, map_rank(e),
{
    match e {
        Expression::Additive(l, _, r) => {
            lemma_expr_fns_len(*l, module, nf, ng, None);
            lemma_expr_fns_len(*r, module, nf + expr_fn_count(*l), expr_gates(*l, ng), None);
        },
        Expression::Multiplicative(l, _, r) => {
            lemma_expr_fns_len(*l, module, nf, ng, None);
            lemma_expr_fns_len(*r, module, nf + expr_fn_count(*l), expr_gates(*l, ng), None);
        },
        Expression::And(l, r) => {
            lemma_expr_fns_len(*l, module, nf, ng, None);
            lemma_expr_fns_len(*r, module, nf + expr_fn_count(*l), expr_gates(*l, ng), None);
        },
        Expression::Or(l, r) => {
            lemma_expr_fns_len(*l, module, nf, ng, None);
            lemma_expr_fns_len(*r, module, nf + expr_fn_count(*l), expr_gates(*l, ng), None);
        },
        Expression::Not(a) => {
            lemma_expr_fns_len(*a, module, nf, ng, None);
        },
        Expression::Equality(l, _, r) => {
            lemma_expr_fns_len(*l, module, nf, ng, None);
            lemma_expr_fns_len(*r, module, nf + expr_fn_count(*l), expr_gates(*l, ng), None);
        },
        Expression::Relational(l, _, r) => {
            let n2 = nf + expr_fn_count(*l) + expr_fn_count(*r);
            let g2 = expr_gates(*r, expr_gates(*l, ng));
            lemma_expr_fns_len(*l, module, nf, ng, None);
            lemma_expr_fns_len(*r, module, nf + expr_fn_count(*l), expr_gates(*l, ng), None);
            lemma_expr_fns_len(*l, module, n2, g2, None);
            lemma_expr_fns_len(*r, module, n2 + expr_fn_count(*l), expr_gates(*l, g2), None);
        },
        Expression::Assignment { value, operator, variable } => {
            let n1 = nf + expr_fn_count(*variable);
            let g1 = expr_gates(*variable, ng);
            lemma_expr_fns_len(*value, module, nf, ng, assigned_fn_name(*variable));
            lemma_expr_fns_len(*variable, module, nf + expr_fn_count(*value), expr_gates(*value, ng), None);
            lemma_expr_fns_len(*variable, module, nf, ng, None);
            lemma_expr_fns_len(*value, module, n1, g1, None);
            lemma_expr_fns_len(*variable, module, n1 + expr_fn_count(*value), expr_gates(*value, g1), None);
        },
        Expression::Variable { field, .. } => {
            if let Some(f) = field {
                lemma_expr_fns_len(*f, module, nf, ng, None);
            }
        },
        Expression::This { field } => {
            if let Some(f) = field {
                lemma_expr_fns_len(*f, module, nf, ng, None);
            }
        },
        Expression::FunctionCall { function, parameters, field } => {
            let n1 = nf + match field {
                Some(f) => expr_fn_count(*f),
                None => 0,
            };
            let g1 = match field {
                Some(f) => expr_gates(*f, ng),
                None => ng,
            };
            if let Some(f) = field {
                lemma_expr_fns_len(*f, module, nf, ng, None);
            }
            lemma_exprs_fns_len(parameters@, module, n1, g1, parameters@.len() as int);
            lemma_expr_fns_len(*function, module, n1 + exprs_fn_count(parameters@, parameters@.len() as int), exprs_gates(parameters@, parameters@.len() as int, g1), None);
        },
        Expression::FunctionDef { statements, .. } => {
            lemma_stmts_fns_len(statements@, module, nf + 1, ng, statements@.len() as int);
        },
        Expression::NativeFunctionCall { parameters } => {
            lemma_exprs_fns_len(parameters@, module, nf, with_gate(ng, parameters@.len() as i32), parameters@.len() as int);
        },
        Expression::ConstructorCall { function } => {
            lemma_expr_fns_len(*function, module, nf, ng, None);
        },
        Expression::ImplicitConstructor { statements } => {
            lemma_stmts_fns_len(statements@, module, nf + 1, ng, statements@.len() as int);
        },
        Expression::ArrayDefinition { elements } => {
            lemma_exprs_fns_len(elements@, module, nf, ng, elements@.len() as int);
        },
        Expression::ArrayReference { index, reference } => {
            lemma_expr_fns_len(*reference, module, nf, ng, None);
            lemma_expr_fns_len(*index, module, nf + expr_fn_count(*reference), expr_gates(*reference, ng), None);
        },
        Expression::MapDefinition { keys, .. } => {
            lemma_entries_fns_len(e, module, nf, ng, keys@.len() as int);
        },
        Expression::PostFixOperator { argument, .. } => {
            let k = expr_fn_count(*argument);
            lemma_expr_fns_len(*argument, module, nf, ng, None);
            lemma_expr_fns_len(*argument, module, nf + k, expr_gates(*argument, ng), None);
            lemma_expr_fns_len(*argument, module, nf + 2 * k, expr_gates(*argument, expr_gates(*argument, ng)), None);
        },
        Expression::Conditional { condition, positive, negative } => {
            let n1 = nf + expr_fn_count(*condition);
            let g1 = expr_gates(*condition, ng);
            lemma_expr_fns_len(*condition, module, nf, ng, None);
            lemma_expr_fns_len(*positive, module, n1, g1, None);
            lemma_expr_fns_len(*negative, module, n1 + expr_fn_count(*positive), expr_gates(*positive, g1), None);
        },
        _ => {},
    }
}

pub proof fn lemma_exprs_fns_len(v: Seq<Expression>, module: Seq<char>, nf: int, ng: Seq<i32>, k: int)
    ensures
        exprs_fns(v, module, nf, ng, k).len() == exprs_fn_count(v, k),
    decreases v, k,
{
    if 0 < k <= v.len() {
        lemma_exprs_fns_len(v, module, nf, ng, k - 1);
        lemma_expr_fns_len(v[k - 1], module, nf + exprs_fn_count(v, k - 1), exprs_gates(v, k - 1, ng), None);
    }
}

pub proof fn lemma_entries_fns_len(e: Expression, module: Seq<char>, nf: int, ng: Seq<i32>, k: int)
    ensures
        entries_fns(e, module, nf, ng, k).len() == entries_fn_count(e, k),
    decreases e, k,
{
    if let Expression::MapDefinition { keys, values } = e {
        if 0 < k <= keys@.len() && k <= values@.len() {
            let n1 = nf + entries_fn_count(e, k - 1);
            let g1 = entries_gates(e, k - 1, ng);
            lemma_entries_fns_len(e, module, nf, ng, k - 1);
            lemma_expr_fns_len(values@[k - 1], module, n1, g1, None);
            lemma_expr_fns_len(keys@[k - 1], module, n1 + expr_fn_count(values@[k - 1]), expr_gates(values@[k - 1], g1), None);
        }
    }
}

pub proof fn lemma_stmt_fns_len(s: Statement, module: Seq<char>, nf: int, ng: Seq<i32>)
    ensures
        stmt_fns(s, module, nf, ng).len() == stmt_fn_count(s),
    decreases s, 0int,
{
    match s {
        Statement::Expression(e, _) => {
            lemma_expr_fns_len(e, module, nf, ng, None);
        },
        Statement::If { condition, then_clause, else_clause, .. } => {
            let n1 = nf + expr_fn_count(condition);
            let g1 = expr_gates(condition, ng);
            lemma_expr_fns_len(condition, module, nf, ng, None);
            lemma_stmt_fns_len(*then_clause, module, n1, g1);
            if let Some(b) = else_clause {
                lemma_stmt_fns_len(*b, module, n1 + stmt_fn_count(*then_clause), stmt_gates(*then_clause, g1));
            }
        },
        Statement::While { condition, body, .. } => {
            lemma_expr_fns_len(condition, module, nf, ng, None);
            lemma_stmt_fns_len(*body, module, nf + expr_fn_count(condition), expr_gates(condition, ng));
        },
        Statement::For { init, condition, update, body, .. } => {
            let n1 = nf + expr_fn_count(init);
            let g1 = expr_gates(init, ng);
            let n2 = n1 + expr_fn_count(condition);
            let g2 = expr_gates(condition, g1);
            lemma_expr_fns_len(init, module, nf, ng, None);
            lemma_expr_fns_len(condition, module, n1, g1, None);
            lemma_stmt_fns_len(*body, module, n2, g2);
            lemma_expr_fns_len(update, module, n2 + stmt_fn_count(*body), stmt_gates(*body, g2), None);
        },
        Statement::Return { value, .. } => {
            if let Some(v) = value {
                lemma_tail_fns_len(v, module, nf, ng);
                lemma_expr_fns_len(v, module, nf + tail_fn_count(v), tail_gates(v, ng), None);
            }
        },
        Statement::Throw { exception, .. } => {
            lemma_expr_fns_len(exception, module, nf, ng, None);
        },
        Statement::TryCatch { try_block, catch_block, .. } => {
            lemma_stmt_fns_len(*try_block, module, nf, ng);
            lemma_stmt_fns_len(*catch_block, module, nf + stmt_fn_count(*try_block), stmt_gates(*try_block, ng));
        },
        Statement::Scope { statements, .. } => {
            lemma_stmts_fns_len(statements@, module, nf, ng, statements@.len() as int);
        },
        _ => {},
    }
}

pub proof fn lemma_tail_fns_len(v: Expression, module: Seq<char>, nf: int, ng: Seq<i32>)
    ensures
        tail_fns(v, module, nf, ng).len() == tail_fn_count(v),
    decreases v, 1int,
{
    if let Expression::FunctionCall { function, parameters, .. } = v {
        lemma_expr_fns_len(*function, module, nf, ng, None);
        lemma_exprs_fns_len(parameters@, module, nf + expr_fn_count(*function), expr_gates(*function, ng), parameters@.len() as int);
    }
}

pub proof fn lemma_stmts_fns_len(v: Seq<Statement>, module: Seq<char>, nf: int, ng: Seq<i32>, k: int)
    ensures
        stmts_fns(v, module, nf, ng, k).len() == stmts_fn_count(v, k),
    decreases v, k,
{
    if 0 < k <= v.len() {
        lemma_stmts_fns_len(v, module, nf, ng, k - 1);
        lemma_stmt_fns_len(v[k - 1], module, nf + stmts_fn_count(v, k - 1), stmts_gates(v, k - 1, ng));
    }
}

/// A statement whose exits all stand inside its loops leaves none for an enclosing loop.
pub proof fn lemma_no_exit_holes(
    s: Statement, params: Seq<Seq<char>>, locals: Seq<Seq<char>>, module: Seq<char>, base: int, breaks: bool, nf: int, ng: Seq<i32>, cur: int)
    requires
        exits_inside(s),
    ensures
        exit_holes(s, params, locals, module, base, breaks, nf, ng, cur) == Seq::<int>::empty(),
    decreases s, 0int,
{
    match s {
        Statement::If { condition, then_clause, else_clause, .. } => {
            let cc = expr_code(condition, params, locals, base + 3, nf, ng);
            let b1 = base + 3 + cc.len() + 3;
            let n1 = nf + expr_fn_count(condition);
            let g1 = expr_gates(condition, ng);
            lemma_no_exit_holes(*then_clause, params, locals, module, b1, breaks, n1, g1, cur);
            if let Some(e) = else_clause {
                let b2 = b1 + stmt_code(*then_clause, params, locals, module, b1, None, None, n1, g1, cur).len() + 2;
                lemma_no_exit_holes(*e, params, stmt_locals(*then_clause, locals), module, b2, breaks, n1 + stmt_fn_count(*then_clause), stmt_gates(*then_clause, g1), cur);
                assert(Seq::<int>::empty() + Seq::<int>::empty() =~= Seq::<int>::empty());
            }
        },
        Statement::TryCatch { try_block, catch_var, catch_block, .. } => {
            let ct = stmt_code(*try_block, params, locals, module, base + 3, None, None, nf, ng, cur);
            let lc = with_local(stmt_locals(*try_block, locals), catch_var@);
            lemma_no_exit_holes(*try_block, params, locals, module, base + 3, breaks, nf, ng, cur);
            lemma_no_exit_holes(*catch_block, params, lc, module, base + 3 + ct.len() + 5, breaks, nf + stmt_fn_count(*try_block), stmt_gates(*try_block, ng), cur);
            assert(Seq::<int>::empty() + Seq::<int>::empty() =~= Seq::<int>::empty());
        },
        Statement::Scope { statements, .. } => {
            assert forall|i: int| 0 <= i < statements@.len() implies exits_inside(#[trigger] statements@[i]) by {}
            lemma_no_stmts_exit_holes(statements@, params, locals, module, base + 3, statements@.len() as int, breaks, nf, ng, cur);
        },
        _ => {},
    }
}

pub proof fn lemma_no_stmts_exit_holes(
    v: Seq<Statement>, params: Seq<Seq<char>>, locals: Seq<Seq<char>>, module: Seq<char>, base: int, k: int, breaks: bool, nf: int, ng: Seq<i32>, cur: int)
    requires
        forall|i: int| 0 <= i < v.len() ==> exits_inside(#[trigger] v[i]),
    ensures
        stmts_exit_holes(v, params, locals, module, base, k, breaks, nf, ng, cur) == Seq::<int>::empty(),
    decreases v, k,
{
    if 0 < k <= v.len() {
        lemma_no_stmts_exit_holes(v, params, locals, module, base, k - 1, breaks, nf, ng, cur);
        let prev = stmts_code(v, params, locals, module, base, k - 1, None, None, nf, ng, cur);
        lemma_no_exit_holes(v[k - 1], params, stmts_locals(v, locals, k - 1), module, base + prev.len(), breaks,
            nf + stmts_fn_count(v, k - 1), stmts_gates(v, k - 1, ng), cur);
        assert(Seq::<int>::empty() + Seq::<int>::empty() =~= Seq::<int>::empty());
    }
}

/// `name = module.name` for one exported name: the module's field copied into the
/// variable of the same name.
pub open spec fn export_code(module_name: Seq<char>, name: Seq<char>) -> Seq<CodeModel> {
    string_constant(module_name) + seq![CodeModel::Op(Opcode::GetDynamic)] + string_constant(name)
        + seq![CodeModel::Op(Opcode::Get)] + string_constant(name)
        + seq![CodeModel::Op(Opcode::GetDynamic), CodeModel::Op(Opcode::Put), CodeModel::Op(Opcode::Pop)]
}

/// The exports of the first `k` names, one after the other.
pub open spec fn exports_code(module_name: Seq<char>, names: Seq<Seq<char>>, k: int) -> Seq<CodeModel>
    decreases k,
{
    if k <= 0 || k > names.len() {
        Seq::empty()
    } else {
        exports_code(module_name, names, k - 1) + export_code(module_name, names[k - 1])
    }
}

/// The code of the entry point for a list of statements compiled in module `module`:
/// the object of the main scope, the statements, then `HALT`.
pub open spec fn main_code(stmts: Seq<Statement>, module: Seq<char>, ng: Seq<i32>) -> Seq<CodeModel> {
    seq![CodeModel::Op(Opcode::New), CodeModel::Text("Object"@)]
        + stmts_code(stmts, Seq::empty(), Seq::empty(), module, 2, stmts.len() as int, None, None, 1, ng, 0)
        + seq![CodeModel::Op(Opcode::Halt)]
}


/// The code of both operands of a binary expression, left first.
pub open spec fn operands_code(l: Expression, r: Expression, params: Seq<Seq<char>>, locals: Seq<Seq<char>>,
    base: int, nf: int, ng: Seq<i32>) -> Seq<CodeModel> {
    let cl = expr_code(l, params, locals, base, nf, ng);
    cl + expr_code(r, params, locals, base + cl.len(), nf + expr_fn_count(l), expr_gates(l, ng))
}

/// Each arithmetic and logical operator compiles to the code of its operands, left then
/// right, followed by its own instruction: `+` to ADD, `-` to SUB, `*` to MULT, `/` to
/// DIV, `%` to MOD, `&&` to AND, `||` to OR, `!` to NOT, `==` to EQL and `!=` to EQL
/// then NOT, `>` to GT and `<` to LT.
pub proof fn lemma_operator_instructions(l: Expression, op: String, r: Expression, params: Seq<Seq<char>>,
    locals: Seq<Seq<char>>, base: int, nf: int, ng: Seq<i32>)
    ensures
        op@ == "+"@ ==> expr_code(Expression::Additive(Box::new(l), op, Box::new(r)), params, locals, base, nf, ng)
            == operands_code(l, r, params, locals, base, nf, ng) + seq![CodeModel::Op(Opcode::Add)],
        op@ == "-"@ ==> expr_code(Expression::Additive(Box::new(l), op, Box::new(r)), params, locals, base, nf, ng)
            == operands_code(l, r, params, locals, base, nf, ng) + seq![CodeModel::Op(Opcode::Sub)],
        op@ == "*"@ ==> expr_code(Expression::Multiplicative(Box::new(l), op, Box::new(r)), params, locals, base, nf, ng)
            == operands_code(l, r, params, locals, base, nf, ng) + seq![CodeModel::Op(Opcode::Mult)],
        op@ == "/"@ ==> expr_code(Expression::Multiplicative(Box::new(l), op, Box::new(r)), params, locals, base, nf, ng)
            == operands_code(l, r, params, locals, base, nf, ng) + seq![CodeModel::Op(Opcode::Div)],
        op@ == "%"@ ==> expr_code(Expression::Multiplicative(Box::new(l), op, Box::new(r)), params, locals, base, nf, ng)
            == operands_code(l, r, params, locals, base, nf, ng) + seq![CodeModel::Op(Opcode::Mod)],
        op@ == "=="@ ==> expr_code(Expression::Equality(Box::new(l), op, Box::new(r)), params, locals, base, nf, ng)
            == operands_code(l, r, params, locals, base, nf, ng) + seq![CodeModel::Op(Opcode::Eql)],
        op@ == "!="@ ==> expr_code(Expression::Equality(Box::new(l), op, Box::new(r)), params, locals, base, nf, ng)
            == operands_code(l, r, params, locals, base, nf, ng) + seq![CodeModel::Op(Opcode::Eql), CodeModel::Op(Opcode::Not)],
        op@ == ">"@ ==> expr_code(Expression::Relational(Box::new(l), op, Box::new(r)), params, locals, base, nf, ng)
            == operands_code(l, r, params, locals, base, nf, ng) + seq![CodeModel::Op(Opcode::Gt)],
        op@ == "<"@ ==> expr_code(Expression::Relational(Box::new(l), op, Box::new(r)), params, locals, base, nf, ng)
            == operands_code(l, r, params, locals, base, nf, ng) + seq![CodeModel::Op(Opcode::Lt)],
        expr_code(Expression::And(Box::new(l), Box::new(r)), params, locals, base, nf, ng)
            == operands_code(l, r, params, locals, base, nf, ng) + seq![CodeModel::Op(Opcode::And)],
        expr_code(Expression::Or(Box::new(l), Box::new(r)), params, locals, base, nf, ng)
            == operands_code(l, r, params, locals, base, nf, ng) + seq![CodeModel::Op(Opcode::Or)],
        expr_code(Expression::Not(Box::new(l)), params, locals, base, nf, ng)
            == expr_code(l, params, locals, base, nf, ng) + seq![CodeModel::Op(Opcode::Not)],
{
    reveal_strlit("+");
    reveal_strlit("-");
    reveal_strlit("*");
    reveal_strlit("/");
    reveal_strlit("%");
    reveal_strlit("==");
    reveal_strlit("!=");
    reveal_strlit(">");
    reveal_strlit("<");
    assert("-"@[0] != "+"@[0]);
    assert("/"@[0] != "*"@[0]);
    assert("%"@[0] != "*"@[0] && "%"@[0] != "/"@[0]);
    assert("!="@[0] != "=="@[0]);
    assert("<"@[0] != ">"@[0]);
}

/// `>=` compiles to the operands and GT, then the operands again and EQL, then OR;
/// `<=` the same with LT: the strict comparison or equality.
pub proof fn lemma_non_strict_comparisons(l: Expression, op: String, r: Expression, params: Seq<Seq<char>>,
    locals: Seq<Seq<char>>, base: int, nf: int, ng: Seq<i32>)
    ensures
        (op@ == ">="@ || op@ == "<="@) ==> ({
            let c = expr_code(Expression::Relational(Box::new(l), op, Box::new(r)), params, locals, base, nf, ng);
            let first = operands_code(l, r, params, locals, base, nf, ng);
            let second = operands_code(l, r, params, locals, base + first.len() + 1,
                nf + expr_fn_count(l) + expr_fn_count(r), expr_gates(r, expr_gates(l, ng)));
            c == first + seq![CodeModel::Op(if op@ == ">="@ { Opcode::Gt } else { Opcode::Lt })] + second
                + seq![CodeModel::Op(Opcode::Eql), CodeModel::Op(Opcode::Or)]
        }),
{
    reveal_strlit(">=");
    reveal_strlit("<=");
    reveal_strlit(">");
    reveal_strlit("<");
    assert(">="@.len() != ">"@.len() && ">="@.len() != "<"@.len());
    assert("<="@.len() != ">"@.len() && "<="@.len() != "<"@.len());
    assert("<="@[0] != ">="@[0]);
    let c = expr_code(Expression::Relational(Box::new(l), op, Box::new(r)), params, locals, base, nf, ng);
    let first = operands_code(l, r, params, locals, base, nf, ng);
    let second = operands_code(l, r, params, locals, base + first.len() + 1,
        nf + expr_fn_count(l) + expr_fn_count(r), expr_gates(r, expr_gates(l, ng)));
    if op@ == ">="@ || op@ == "<="@ {
        assert(c =~= first + seq![CodeModel::Op(if op@ == ">="@ { Opcode::Gt } else { Opcode::Lt })] + second
            + seq![CodeModel::Op(Opcode::Eql), CodeModel::Op(Opcode::Or)]);
    }
}

/// A compound assignment computes with the instruction of its operator: `+=` with ADD,
/// `-=` with SUB, `*=` with MULT, `/=` with DIV; a plain assignment computes nothing.
pub proof fn lemma_compound_assignment_instructions(o: String)
    ensures
        o@ == "+="@ ==> assign_op(Some(o)) == Some(Opcode::Add),
        o@ == "-="@ ==> assign_op(Some(o)) == Some(Opcode::Sub),
        o@ == "*="@ ==> assign_op(Some(o)) == Some(Opcode::Mult),
        o@ == "/="@ ==> assign_op(Some(o)) == Some(Opcode::Div),
        o@ == "="@ ==> assign_op(Some(o)) is None,
        assign_op(None) is None,
{
    reveal_strlit("+=");
    reveal_strlit("-=");
    reveal_strlit("*=");
    reveal_strlit("/=");
    reveal_strlit("=");
    assert("-="@[0] != "+="@[0]);
    assert("*="@[0] != "+="@[0] && "*="@[0] != "-="@[0]);
    assert("/="@[0] != "+="@[0] && "/="@[0] != "-="@[0] && "/="@[0] != "*="@[0]);
    assert("="@.len() != "+="@.len());
}

/// For each exported name `n` of module `m`, the export code reads the field `m.n` as
/// the value (`m` GETDYNAMIC, `n` GET) and then names the global variable `n` as the
/// target (`n` GETDYNAMIC) and stores into it (PUT), dropping the result (POP); the
/// names are exported in order.
pub proof fn lemma_export_reads_module_writes_global(m: Seq<char>, names: Seq<Seq<char>>, k: int)
    requires
        1 <= k <= names.len(),
    ensures
        exports_code(m, names, k) == exports_code(m, names, k - 1) + seq![
            CodeModel::Op(Opcode::LdcD), CodeModel::StringRef(m), CodeModel::Text("String"@),
            CodeModel::Op(Opcode::GetDynamic),
            CodeModel::Op(Opcode::LdcD), CodeModel::StringRef(names[k - 1]), CodeModel::Text("String"@),
            CodeModel::Op(Opcode::Get),
            CodeModel::Op(Opcode::LdcD), CodeModel::StringRef(names[k - 1]), CodeModel::Text("String"@),
            CodeModel::Op(Opcode::GetDynamic),
            CodeModel::Op(Opcode::Put),
            CodeModel::Op(Opcode::Pop),
        ],
        exports_code(m, names, 0) == Seq::<CodeModel>::empty(),
{
    assert(export_code(m, names[k - 1]) =~= seq![
        CodeModel::Op(Opcode::LdcD), CodeModel::StringRef(m), CodeModel::Text("String"@),
        CodeModel::Op(Opcode::GetDynamic),
        CodeModel::Op(Opcode::LdcD), CodeModel::StringRef(names[k - 1]), CodeModel::Text("String"@),
        CodeModel::Op(Opcode::Get),
        CodeModel::Op(Opcode::LdcD), CodeModel::StringRef(names[k - 1]), CodeModel::Text("String"@),
        CodeModel::Op(Opcode::GetDynamic),
        CodeModel::Op(Opcode::Put),
        CodeModel::Op(Opcode::Pop),
    ]);
}

/// `if` tests its condition, then NOT and CJMP: without `else` the jump skips the
/// then-part to the end of the statement; with `else` it lands just after the JMP that
/// ends the then-part, and that JMP goes to the end of the statement.
pub proof fn lemma_if_jumps(condition: Expression, then_clause: Statement, else_clause: Option<Box<Statement>>,
    pos: Position, params: Seq<Seq<char>>, locals: Seq<Seq<char>>, module: Seq<char>, base: int,
    brk: Option<usize>, cont: Option<usize>, nf: int, ng: Seq<i32>, cur: int)
    ensures
        ({
            let c = stmt_code(Statement::If { condition, then_clause: Box::new(then_clause), else_clause, pos },
                params, locals, module, base, brk, cont, nf, ng, cur);
            let k: int = 3 + expr_code(condition, params, locals, base + 3, nf, ng).len() as int;
            let ct = stmt_code(then_clause, params, locals, module, base + k + 3, brk, cont,
                nf + expr_fn_count(condition), expr_gates(condition, ng), cur);
            &&& c[0] == CodeModel::Op(Opcode::Debug)
            &&& c[k] == CodeModel::Op(Opcode::Not)
            &&& c[k + 1] == CodeModel::Op(Opcode::Cjmp)
            &&& c.subrange(k + 3, k + 3 + ct.len()) == ct
            &&& (else_clause is None ==> {
                &&& c.len() == k + 3 + ct.len()
                &&& c[k + 2] == CodeModel::Jump(Some((base + c.len()) as usize))
            })
            &&& (else_clause is Some ==> {
                &&& c[k + 2] == CodeModel::Jump(Some((base + k + 3 + ct.len() + 2) as usize))
                &&& c[k + 3 + ct.len()] == CodeModel::Op(Opcode::Jmp)
                &&& c[k + 4 + ct.len()] == CodeModel::Jump(Some((base + c.len()) as usize))
            })
        }),
{
    let c = stmt_code(Statement::If { condition, then_clause: Box::new(then_clause), else_clause, pos },
        params, locals, module, base, brk, cont, nf, ng, cur);
    let cc = expr_code(condition, params, locals, base + 3, nf, ng);
    let k: int = 3 + cc.len() as int;
    let ct = stmt_code(then_clause, params, locals, module, base + k + 3, brk, cont,
        nf + expr_fn_count(condition), expr_gates(condition, ng), cur);
    assert(c.subrange(k + 3, k + 3 + ct.len()) =~= ct);
}

/// `while` tests its condition, then NOT and CJMP to the end of the loop; the loop ends
/// with a JMP back to the start of the condition.
pub proof fn lemma_while_jumps(condition: Expression, body: Statement, pos: Position, params: Seq<Seq<char>>,
    locals: Seq<Seq<char>>, module: Seq<char>, base: int, brk: Option<usize>, cont: Option<usize>, nf: int,
    ng: Seq<i32>, cur: int)
    ensures
        ({
            let c = stmt_code(Statement::While { condition, body: Box::new(body), pos },
                params, locals, module, base, brk, cont, nf, ng, cur);
            let k: int = 3 + expr_code(condition, params, locals, base + 3, nf, ng).len() as int;
            &&& c.subrange(3, k) == expr_code(condition, params, locals, base + 3, nf, ng)
            &&& c[k] == CodeModel::Op(Opcode::Not)
            &&& c[k + 1] == CodeModel::Op(Opcode::Cjmp)
            &&& c[k + 2] == CodeModel::Jump(Some((base + c.len()) as usize))
            &&& c[c.len() - 2] == CodeModel::Op(Opcode::Jmp)
            &&& c[c.len() - 1] == CodeModel::Jump(Some((base + 3) as usize))
        }),
{
    let c = stmt_code(Statement::While { condition, body: Box::new(body), pos },
        params, locals, module, base, brk, cont, nf, ng, cur);
    let cc = expr_code(condition, params, locals, base + 3, nf, ng);
    let b1 = base + 3 + cc.len() + 3;
    let n1 = nf + expr_fn_count(condition);
    let g1 = expr_gates(condition, ng);
    let end = b1 + stmt_code(body, params, locals, module, b1, None, None, n1, g1, cur).len() + 2;
    lemma_stmt_fills(body, params, locals, module, b1, end as usize, (base + 3) as usize, n1, g1, cur);
    assert(c.subrange(3, 3 + cc.len() as int) =~= cc);
}

/// `for` runs its initialiser, tests its condition with NOT and CJMP to the end of the
/// loop, and ends with a JMP back to the start of the condition, just after the
/// initialiser's POP.
pub proof fn lemma_for_jumps(init: Expression, condition: Expression, update: Expression, body: Statement,
    pos: Position, params: Seq<Seq<char>>, locals: Seq<Seq<char>>, module: Seq<char>, base: int,
    brk: Option<usize>, cont: Option<usize>, nf: int, ng: Seq<i32>, cur: int)
    ensures
        ({
            let c = stmt_code(Statement::For { init, condition, update, body: Box::new(body), pos },
                params, locals, module, base, brk, cont, nf, ng, cur);
            let ki: int = 3 + expr_code(init, params, locals, base + 3, nf, ng).len() as int;
            let k: int = ki + 1 + expr_code(condition, params, locals, base + ki + 1, nf + expr_fn_count(init),
                expr_gates(init, ng)).len();
            &&& c[ki] == CodeModel::Op(Opcode::Pop)
            &&& c[k] == CodeModel::Op(Opcode::Not)
            &&& c[k + 1] == CodeModel::Op(Opcode::Cjmp)
            &&& c[k + 2] == CodeModel::Jump(Some((base + c.len()) as usize))
            &&& c[c.len() - 2] == CodeModel::Op(Opcode::Jmp)
            &&& c[c.len() - 1] == CodeModel::Jump(Some((base + ki + 1) as usize))
        }),
{
    let ci = expr_code(init, params, locals, base + 3, nf, ng);
    let start = base + 3 + ci.len() + 1;
    let n1 = nf + expr_fn_count(init);
    let g1 = expr_gates(init, ng);
    let cc = expr_code(condition, params, locals, start, n1, g1);
    let b1 = start + cc.len() + 3;
    let n2 = n1 + expr_fn_count(condition);
    let g2 = expr_gates(condition, g1);
    let next = b1 + stmt_code(body, params, locals, module, b1, None, None, n2, g2, cur).len();
    let cu = expr_code(update, params, stmt_locals(body, locals), next, n2 + stmt_fn_count(body), stmt_gates(body, g2));
    let end = next + cu.len() + 3;
    lemma_stmt_fills(body, params, locals, module, b1, end as usize, next as usize, n2, g2, cur);
}


/// A function returns at its end: a module's initialiser returns its own object (LDS 0,
/// RETURN); any other function whose body does not end with `return` returns undefined
/// (LDC_D 0 Undefined, RETURN). The entry point creates the object of the main scope
/// first (NEW Object) and ends with HALT.
pub proof fn lemma_function_ends(body: Seq<Statement>, params: Seq<Seq<char>>, module: Seq<char>,
    return_this: Option<Position>, nf: int, ng: Seq<i32>)
    ensures
        ({
            let c = function_code(body, params, module, return_this, nf, ng);
            &&& return_this is Some ==> c.subrange(c.len() - 3, c.len() as int)
                == seq![CodeModel::Op(Opcode::Lds), CodeModel::Int(0), CodeModel::Op(Opcode::Return)]
            &&& (return_this is None && !(body.len() > 0 && body.last() is Return)) ==> c.subrange(c.len() - 4, c.len() as int)
                == seq![CodeModel::Op(Opcode::LdcD), CodeModel::Int(0), CodeModel::Text(seq!['U', 'n', 'd', 'e', 'f', 'i', 'n', 'e', 'd']),
                    CodeModel::Op(Opcode::Return)]
        }),
        main_code(body, module, ng).subrange(0, 2) == seq![CodeModel::Op(Opcode::New), CodeModel::Text(seq!['O', 'b', 'j', 'e', 'c', 't'])],
        main_code(body, module, ng).last() == CodeModel::Op(Opcode::Halt),
{
    reveal_strlit("Undefined");
    reveal_strlit("Object");
    assert("Undefined"@ =~= seq!['U', 'n', 'd', 'e', 'f', 'i', 'n', 'e', 'd']);
    assert("Object"@ =~= seq!['O', 'b', 'j', 'e', 'c', 't']);
    let c = function_code(body, params, module, return_this, nf, ng);
    let b = stmts_code(body, params, Seq::empty(), module, 0, body.len() as int, None, None, nf, ng, nf - 1);
    let t = function_tail(body, module, return_this);
    assert(c.subrange(c.len() - t.len(), c.len() as int) =~= t);
    if return_this is Some {
        assert(t.subrange(t.len() - 3, t.len() as int) =~= c.subrange(c.len() - 3, c.len() as int));
    }
    let m = main_code(body, module, ng);
    assert(m.subrange(0, 2) =~= seq![CodeModel::Op(Opcode::New), CodeModel::Text("Object"@)]);
}


/// The simple statements: an expression statement evaluates its expression and drops the
/// result (POP); `throw` evaluates and throws (THROW); a bare `return` returns undefined;
/// each starts with DEBUG, its line and its module. `break` jumps to the break target and
/// `continue` to the continue target.
pub proof fn lemma_statement_instructions(e: Expression, pos: Position, params: Seq<Seq<char>>,
    locals: Seq<Seq<char>>, module: Seq<char>, base: int, brk: Option<usize>, cont: Option<usize>, nf: int,
    ng: Seq<i32>, cur: int)
    ensures
        stmt_code(Statement::Expression(e, pos), params, locals, module, base, brk, cont, nf, ng, cur)
            == seq![CodeModel::Op(Opcode::Debug), CodeModel::Int(pos.line), CodeModel::StringRef(module)]
            + expr_code(e, params, locals, base + 3, nf, ng) + seq![CodeModel::Op(Opcode::Pop)],
        stmt_code(Statement::Throw { exception: e, pos }, params, locals, module, base, brk, cont, nf, ng, cur)
            == seq![CodeModel::Op(Opcode::Debug), CodeModel::Int(pos.line), CodeModel::StringRef(module)]
            + expr_code(e, params, locals, base + 3, nf, ng) + seq![CodeModel::Op(Opcode::Throw)],
        stmt_code(Statement::Return { value: None, pos }, params, locals, module, base, brk, cont, nf, ng, cur)
            == seq![CodeModel::Op(Opcode::Debug), CodeModel::Int(pos.line), CodeModel::StringRef(module),
                CodeModel::Op(Opcode::LdcD), CodeModel::Int(0),
                CodeModel::Text(seq!['U', 'n', 'd', 'e', 'f', 'i', 'n', 'e', 'd']), CodeModel::Op(Opcode::Return)],
        stmt_code(Statement::Break(pos), params, locals, module, base, brk, cont, nf, ng, cur)
            == seq![CodeModel::Op(Opcode::Jmp), CodeModel::Jump(brk)],
        stmt_code(Statement::Continue(pos), params, locals, module, base, brk, cont, nf, ng, cur)
            == seq![CodeModel::Op(Opcode::Jmp), CodeModel::Jump(cont)],
{
    reveal_strlit("Undefined");
    assert("Undefined"@ =~= seq!['U', 'n', 'd', 'e', 'f', 'i', 'n', 'e', 'd']);
    assert(stmt_code(Statement::Return { value: None, pos }, params, locals, module, base, brk, cont, nf, ng, cur)
        =~= seq![CodeModel::Op(Opcode::Debug), CodeModel::Int(pos.line), CodeModel::StringRef(module),
            CodeModel::Op(Opcode::LdcD), CodeModel::Int(0),
            CodeModel::Text(seq!['U', 'n', 'd', 'e', 'f', 'i', 'n', 'e', 'd']), CodeModel::Op(Opcode::Return)]);
}

/// `x++` adds one and `x--` subtracts one: the step is the constant 1 with ADD or SUB,
/// after the old value is kept (plus 0), and the result is stored back (PUT) and dropped.
pub proof fn lemma_postfix_step(operator: String, argument: Expression, params: Seq<Seq<char>>,
    locals: Seq<Seq<char>>, base: int, nf: int, ng: Seq<i32>)
    ensures
        ({
            let c = expr_code(Expression::PostFixOperator { operator, argument: Box::new(argument) }, params, locals, base, nf, ng);
            let k = expr_fn_count(argument);
            let c1 = expr_code(argument, params, locals, base, nf, ng);
            let c2 = expr_code(argument, params, locals, base + c1.len() + 4, nf + k, expr_gates(argument, ng));
            let i: int = c1.len() as int + 4 + c2.len() as int;
            &&& c.subrange(c1.len() as int, c1.len() + 4int) == seq![CodeModel::Op(Opcode::LdcD), CodeModel::Int(0),
                CodeModel::Text(seq!['N', 'u', 'm', 'b', 'e', 'r']), CodeModel::Op(Opcode::Add)]
            &&& c.subrange(i, i + 4) == seq![CodeModel::Op(Opcode::LdcD), CodeModel::Int(1),
                CodeModel::Text(seq!['N', 'u', 'm', 'b', 'e', 'r']),
                CodeModel::Op(if operator@ == seq!['+', '+'] { Opcode::Add } else { Opcode::Sub })]
            &&& c.subrange(c.len() - 2, c.len() as int) == seq![CodeModel::Op(Opcode::Put), CodeModel::Op(Opcode::Pop)]
        }),
{
    reveal_strlit("Number");
    reveal_strlit("++");
    assert("Number"@ =~= seq!['N', 'u', 'm', 'b', 'e', 'r']);
    assert("++"@ =~= seq!['+', '+']);
    let c = expr_code(Expression::PostFixOperator { operator, argument: Box::new(argument) }, params, locals, base, nf, ng);
    let k = expr_fn_count(argument);
    let c1 = expr_code(argument, params, locals, base, nf, ng);
    let c2 = expr_code(argument, params, locals, base + c1.len() + 4, nf + k, expr_gates(argument, ng));
    let i: int = c1.len() as int + 4 + c2.len() as int;
    assert(c.subrange(c1.len() as int, c1.len() + 4int) =~= seq![CodeModel::Op(Opcode::LdcD), CodeModel::Int(0),
        CodeModel::Text(seq!['N', 'u', 'm', 'b', 'e', 'r']), CodeModel::Op(Opcode::Add)]);
    assert(c.subrange(i, i + 4) =~= seq![CodeModel::Op(Opcode::LdcD), CodeModel::Int(1),
        CodeModel::Text(seq!['N', 'u', 'm', 'b', 'e', 'r']),
        CodeModel::Op(if operator@ == seq!['+', '+'] { Opcode::Add } else { Opcode::Sub })]);
    assert(c.subrange(c.len() - 2, c.len() as int) =~= seq![CodeModel::Op(Opcode::Put), CodeModel::Op(Opcode::Pop)]);
}

} // verus!
