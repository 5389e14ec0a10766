use vstd::prelude::*;

verus! {

/// Position in source code.
#[derive(Debug, Clone, Copy)]
pub struct Position {
    pub line: i32,
    pub column: i32,
}

/// AST expression nodes for GScript.
#[derive(Debug)]
#[allow(inconsistent_fields)]
pub enum Expression {
    Additive(Box<Expression>, String, Box<Expression>),
    Multiplicative(Box<Expression>, String, Box<Expression>),
    And(Box<Expression>, Box<Expression>),
    Or(Box<Expression>, Box<Expression>),
    Not(Box<Expression>),
    Equality(Box<Expression>, String, Box<Expression>),
    Relational(Box<Expression>, String, Box<Expression>),
    Assignment { value: Box<Expression>, operator: Option<String>, variable: Box<Expression> },
    Constant { value: i32, type_label: String, string: Option<String> },
    Variable { name: String, field: Option<Box<Expression>> },
    This { field: Option<Box<Expression>> },
    FunctionCall {
        function: Box<Expression>,
        parameters: Vec<Expression>,
        field: Option<Box<Expression>>,
    },
    FunctionDef { parameters: Vec<String>, statements: Vec<Statement> },
    NativeFunctionCall { parameters: Vec<Expression> },
    ConstructorCall { function: Box<Expression> },
    ImplicitConstructor { statements: Vec<Statement> },
    ArrayDefinition { elements: Vec<Expression> },
    ArrayReference { index: Box<Expression>, reference: Box<Expression> },
    MapDefinition { keys: Vec<Expression>, values: Vec<Expression> },
    Fork,
    PostFixOperator { operator: String, argument: Box<Expression> },
    Conditional { condition: Box<Expression>, positive: Box<Expression>, negative: Box<Expression> },
}

/// AST statement nodes for GScript.
#[derive(Debug)]
pub enum Statement {
    Expression(Expression, Position),
    If {
        condition: Expression,
        then_clause: Box<Statement>,
        else_clause: Option<Box<Statement>>,
        pos: Position,
    },
    While { condition: Expression, body: Box<Statement>, pos: Position },
    For {
        init: Expression,
        condition: Expression,
        update: Expression,
        body: Box<Statement>,
        pos: Position,
    },
    Return { value: Option<Expression>, pos: Position },
    Throw { exception: Expression, pos: Position },
    Break(Position),
    Continue(Position),
    TryCatch {
        try_block: Box<Statement>,
        catch_var: String,
        catch_block: Box<Statement>,
        pos: Position,
    },
    Scope { statements: Vec<Statement>, pos: Position },
    Void(Position),
}

/// A GScript module (compilation unit).
#[derive(Debug)]
pub struct Module {
    pub name: String,
    pub imports: Vec<String>,
    pub statements: Vec<Statement>,
    pub pos: Position,
}

/// Mathematical model of an [`Expression`]: strings become character
/// sequences and vectors become sequences.
#[allow(inconsistent_fields)]
pub enum ExpressionModel {
    Additive(Box<ExpressionModel>, Seq<char>, Box<ExpressionModel>),
    Multiplicative(Box<ExpressionModel>, Seq<char>, Box<ExpressionModel>),
    And(Box<ExpressionModel>, Box<ExpressionModel>),
    Or(Box<ExpressionModel>, Box<ExpressionModel>),
    Not(Box<ExpressionModel>),
    Equality(Box<ExpressionModel>, Seq<char>, Box<ExpressionModel>),
    Relational(Box<ExpressionModel>, Seq<char>, Box<ExpressionModel>),
    Assignment {
        value: Box<ExpressionModel>,
        operator: Option<Seq<char>>,
        variable: Box<ExpressionModel>,
    },
    Constant { value: i32, type_label: Seq<char>, string: Option<Seq<char>> },
    Variable { name: Seq<char>, field: Option<Box<ExpressionModel>> },
    This { field: Option<Box<ExpressionModel>> },
    FunctionCall {
        function: Box<ExpressionModel>,
        parameters: Seq<ExpressionModel>,
        field: Option<Box<ExpressionModel>>,
    },
    FunctionDef { parameters: Seq<Seq<char>>, statements: Seq<StatementModel> },
    NativeFunctionCall { parameters: Seq<ExpressionModel> },
    ConstructorCall { function: Box<ExpressionModel> },
    ImplicitConstructor { statements: Seq<StatementModel> },
    ArrayDefinition { elements: Seq<ExpressionModel> },
    ArrayReference { index: Box<ExpressionModel>, reference: Box<ExpressionModel> },
    MapDefinition { keys: Seq<ExpressionModel>, values: Seq<ExpressionModel> },
    Fork,
    PostFixOperator { operator: Seq<char>, argument: Box<ExpressionModel> },
    Conditional {
        condition: Box<ExpressionModel>,
        positive: Box<ExpressionModel>,
        negative: Box<ExpressionModel>,
    },
}

/// Mathematical model of a [`Statement`].
pub enum StatementModel {
    Expression(ExpressionModel, Position),
    If {
        condition: ExpressionModel,
        then_clause: Box<StatementModel>,
        else_clause: Option<Box<StatementModel>>,
        pos: Position,
    },
    While { condition: ExpressionModel, body: Box<StatementModel>, pos: Position },
    For {
        init: ExpressionModel,
        condition: ExpressionModel,
        update: ExpressionModel,
        body: Box<StatementModel>,
        pos: Position,
    },
    Return { value: Option<ExpressionModel>, pos: Position },
    Throw { exception: ExpressionModel, pos: Position },
    Break(Position),
    Continue(Position),
    TryCatch {
        try_block: Box<StatementModel>,
        catch_var: Seq<char>,
        catch_block: Box<StatementModel>,
        pos: Position,
    },
    Scope { statements: Seq<StatementModel>, pos: Position },
    Void(Position),
}

/// Mathematical model of a [`Module`].
pub struct ModuleModel {
    pub name: Seq<char>,
    pub imports: Seq<Seq<char>>,
    pub statements: Seq<StatementModel>,
    pub pos: Position,
}

pub open spec fn placeholder_expression() -> ExpressionModel {
    ExpressionModel::Fork
}

pub open spec fn placeholder_statement() -> StatementModel {
    StatementModel::Void(Position { line: 0, column: 0 })
}

pub open spec fn strings_view(v: Seq<String>) -> Seq<Seq<char>> {
    Seq::new(v.len(), |i: int| v[i]@)
}

pub open spec fn boxed_expr_view(b: Box<Expression>) -> Box<ExpressionModel>
    decreases b,
{
    Box::new(expr_view(*b))
}


pub open spec fn exprs_view(v: Seq<Expression>) -> Seq<ExpressionModel>
    decreases v,
{
    Seq::new(
        v.len(),
        |i: int|
            if 0 <= i < v.len() {
                expr_view(v[i])
            } else {
                placeholder_expression()
            },
    )
}

pub open spec fn stmts_view(v: Seq<Statement>) -> Seq<StatementModel>
    decreases v,
{
    Seq::new(
        v.len(),
        |i: int|
            if 0 <= i < v.len() {
                stmt_view(v[i])
            } else {
                placeholder_statement()
            },
    )
}

pub open spec fn expr_view(e: Expression) -> ExpressionModel
    decreases e,
{
    match e {
        Expression::Additive(l, op, r) => ExpressionModel::Additive(
            Box::new(expr_view(*l)),
            op@,
            Box::new(expr_view(*r)),
        ),
        Expression::Multiplicative(l, op, r) => ExpressionModel::Multiplicative(
            Box::new(expr_view(*l)),
            op@,
            Box::new(expr_view(*r)),
        ),
        Expression::And(l, r) => ExpressionModel::And(
            Box::new(expr_view(*l)),
            Box::new(expr_view(*r)),
        ),
        Expression::Or(l, r) => ExpressionModel::Or(
            Box::new(expr_view(*l)),
            Box::new(expr_view(*r)),
        ),
        Expression::Not(a) => ExpressionModel::Not(Box::new(expr_view(*a))),
        Expression::Equality(l, op, r) => ExpressionModel::Equality(
            Box::new(expr_view(*l)),
            op@,
            Box::new(expr_view(*r)),
        ),
        Expression::Relational(l, op, r) => ExpressionModel::Relational(
            Box::new(expr_view(*l)),
            op@,
            Box::new(expr_view(*r)),
        ),
        Expression::Assignment { value, operator, variable } => ExpressionModel::Assignment {
            value: Box::new(expr_view(*value)),
            operator: match operator {
                Some(o) => Some(o@),
                None => None,
            },
            variable: Box::new(expr_view(*variable)),
        },
        Expression::Constant { value, type_label, string } => ExpressionModel::Constant {
            value,
            type_label: type_label@,
            string: match string {
                Some(s) => Some(s@),
                None => None,
            },
        },
        Expression::Variable { name, field } => ExpressionModel::Variable {
            name: name@,
            field: match field {
                Some(b) => Some(Box::new(expr_view(*b))),
                None => None,
            },
        },
        Expression::This { field } => ExpressionModel::This {
            field: match field {
                Some(b) => Some(Box::new(expr_view(*b))),
                None => None,
            },
        },
        Expression::FunctionCall { function, parameters, field } => ExpressionModel::FunctionCall {
            function: Box::new(expr_view(*function)),
            parameters: exprs_view(parameters@),
            field: match field {
                Some(b) => Some(Box::new(expr_view(*b))),
                None => None,
            },
        },
        Expression::FunctionDef { parameters, statements } => ExpressionModel::FunctionDef {
            parameters: strings_view(parameters@),
            statements: stmts_view(statements@),
        },
        Expression::NativeFunctionCall { parameters } => ExpressionModel::NativeFunctionCall {
            parameters: exprs_view(parameters@),
        },
        Expression::ConstructorCall { function } => ExpressionModel::ConstructorCall {
            function: Box::new(expr_view(*function)),
        },
        Expression::ImplicitConstructor { statements } => ExpressionModel::ImplicitConstructor {
            statements: stmts_view(statements@),
        },
        Expression::ArrayDefinition { elements } => ExpressionModel::ArrayDefinition {
            elements: exprs_view(elements@),
        },
        Expression::ArrayReference { index, reference } => ExpressionModel::ArrayReference {
            index: Box::new(expr_view(*index)),
            reference: Box::new(expr_view(*reference)),
        },
        Expression::MapDefinition { keys, values } => ExpressionModel::MapDefinition {
            keys: exprs_view(keys@),
            values: exprs_view(values@),
        },
        Expression::Fork => ExpressionModel::Fork,
        Expression::PostFixOperator { operator, argument } => ExpressionModel::PostFixOperator {
            operator: operator@,
            argument: Box::new(expr_view(*argument)),
        },
        Expression::Conditional { condition, positive, negative } => ExpressionModel::Conditional {
            condition: Box::new(expr_view(*condition)),
            positive: Box::new(expr_view(*positive)),
            negative: Box::new(expr_view(*negative)),
        },
    }
}

pub open spec fn stmt_view(s: Statement) -> StatementModel
    decreases s,
{
    match s {
        Statement::Expression(e, pos) => StatementModel::Expression(expr_view(e), pos),
        Statement::If { condition, then_clause, else_clause, pos } => StatementModel::If {
            condition: expr_view(condition),
            then_clause: Box::new(stmt_view(*then_clause)),
            else_clause: match else_clause {
                Some(b) => Some(Box::new(stmt_view(*b))),
                None => None,
            },
            pos,
        },
        Statement::While { condition, body, pos } => StatementModel::While {
            condition: expr_view(condition),
            body: Box::new(stmt_view(*body)),
            pos,
        },
        Statement::For { init, condition, update, body, pos } => StatementModel::For {
            init: expr_view(init),
            condition: expr_view(condition),
            update: expr_view(update),
            body: Box::new(stmt_view(*body)),
            pos,
        },
        Statement::Return { value, pos } => StatementModel::Return {
            value: match value {
                Some(e) => Some(expr_view(e)),
                None => None,
            },
            pos,
        },
        Statement::Throw { exception, pos } => StatementModel::Throw {
            exception: expr_view(exception),
            pos,
        },
        Statement::Break(pos) => StatementModel::Break(pos),
        Statement::Continue(pos) => StatementModel::Continue(pos),
        Statement::TryCatch { try_block, catch_var, catch_block, pos } => StatementModel::TryCatch {
            try_block: Box::new(stmt_view(*try_block)),
            catch_var: catch_var@,
            catch_block: Box::new(stmt_view(*catch_block)),
            pos,
        },
        Statement::Scope { statements, pos } => StatementModel::Scope {
            statements: stmts_view(statements@),
            pos,
        },
        Statement::Void(pos) => StatementModel::Void(pos),
    }
}

impl View for Expression {
    type V = ExpressionModel;

    open spec fn view(&self) -> ExpressionModel {
        expr_view(*self)
    }
}

impl View for Statement {
    type V = StatementModel;

    open spec fn view(&self) -> StatementModel {
        stmt_view(*self)
    }
}

impl View for Module {
    type V = ModuleModel;

    open spec fn view(&self) -> ModuleModel {
        ModuleModel {
            name: self.name@,
            imports: strings_view(self.imports@),
            statements: stmts_view(self.statements@),
            pos: self.pos,
        }
    }
}

fn clone_opt_string(o: &Option<String>) -> (r: Option<String>)
    ensures
        match (r, *o) {
            (Some(a), Some(b)) => a@ == b@,
            (None, None) => true,
            _ => false,
        },
{
    match o {
        Some(x) => Some(x.clone()),
        None => None,
    }
}

fn clone_strings(v: &Vec<String>) -> (r: Vec<String>)
    ensures
        strings_view(r@) == strings_view(v@),
{
    let mut r: Vec<String> = Vec::new();
    let mut i: usize = 0;
    while i < v.len()
        invariant
            i <= v@.len(),
            r@.len() == i,
            forall|j: int| 0 <= j < i ==> r@[j]@ == v@[j]@,
        decreases v@.len() - i,
    {
        r.push(v[i].clone());
        i = i + 1;
    }
    assert(strings_view(r@) =~= strings_view(v@));
    r
}

fn clone_opt_expression(o: &Option<Box<Expression>>) -> (r: Option<Box<Expression>>)
    ensures
        match (r, *o) {
            (Some(a), Some(b)) => expr_view(*a) == expr_view(*b),
            (None, None) => true,
            _ => false,
        },
    decreases *o,
{
    match o {
        Some(b) => Some(Box::new(clone_expression(b))),
        None => None,
    }
}

pub fn clone_expressions(v: &Vec<Expression>) -> (r: Vec<Expression>)
    ensures
        exprs_view(r@) == exprs_view(v@),
    decreases *v,
{
    let mut r: Vec<Expression> = Vec::new();
    let mut i: usize = 0;
    while i < v.len()
        invariant
            i <= v@.len(),
            r@.len() == i,
            forall|j: int| 0 <= j < i ==> expr_view(r@[j]) == expr_view(v@[j]),
        decreases v@.len() - i,
    {
        r.push(clone_expression(&v[i]));
        i = i + 1;
    }
    assert(exprs_view(r@) =~= exprs_view(v@));
    r
}

pub fn clone_statements(v: &Vec<Statement>) -> (r: Vec<Statement>)
    ensures
        stmts_view(r@) == stmts_view(v@),
    decreases *v,
{
    let mut r: Vec<Statement> = Vec::new();
    let mut i: usize = 0;
    while i < v.len()
        invariant
            i <= v@.len(),
            r@.len() == i,
            forall|j: int| 0 <= j < i ==> stmt_view(r@[j]) == stmt_view(v@[j]),
        decreases v@.len() - i,
    {
        r.push(clone_statement(&v[i]));
        i = i + 1;
    }
    assert(stmts_view(r@) =~= stmts_view(v@));
    r
}

/// A deep copy of an expression.
pub fn clone_expression(e: &Expression) -> (r: Expression)
    ensures
        r@ == e@,
    decreases *e,
{
    match e {
        Expression::Additive(l, op, r) => Expression::Additive(
            Box::new(clone_expression(l)),
            op.clone(),
            Box::new(clone_expression(r)),
        ),
        Expression::Multiplicative(l, op, r) => Expression::Multiplicative(
            Box::new(clone_expression(l)),
            op.clone(),
            Box::new(clone_expression(r)),
        ),
        Expression::And(l, r) => Expression::And(
            Box::new(clone_expression(l)),
            Box::new(clone_expression(r)),
        ),
        Expression::Or(l, r) => Expression::Or(
            Box::new(clone_expression(l)),
            Box::new(clone_expression(r)),
        ),
        Expression::Not(a) => Expression::Not(Box::new(clone_expression(a))),
        Expression::Equality(l, op, r) => Expression::Equality(
            Box::new(clone_expression(l)),
            op.clone(),
            Box::new(clone_expression(r)),
        ),
        Expression::Relational(l, op, r) => Expression::Relational(
            Box::new(clone_expression(l)),
            op.clone(),
            Box::new(clone_expression(r)),
        ),
        Expression::Assignment { value, operator, variable } => Expression::Assignment {
            value: Box::new(clone_expression(value)),
            operator: clone_opt_string(operator),
            variable: Box::new(clone_expression(variable)),
        },
        Expression::Constant { value, type_label, string } => Expression::Constant {
            value: *value,
            type_label: type_label.clone(),
            string: clone_opt_string(string),
        },
        Expression::Variable { name, field } => Expression::Variable {
            name: name.clone(),
            field: clone_opt_expression(field),
        },
        Expression::This { field } => Expression::This { field: clone_opt_expression(field) },
        Expression::FunctionCall { function, parameters, field } => Expression::FunctionCall {
            function: Box::new(clone_expression(function)),
            parameters: clone_expressions(parameters),
            field: clone_opt_expression(field),
        },
        Expression::FunctionDef { parameters, statements } => Expression::FunctionDef {
            parameters: clone_strings(parameters),
            statements: clone_statements(statements),
        },
        Expression::NativeFunctionCall { parameters } => Expression::NativeFunctionCall {
            parameters: clone_expressions(parameters),
        },
        Expression::ConstructorCall { function } => Expression::ConstructorCall {
            function: Box::new(clone_expression(function)),
        },
        Expression::ImplicitConstructor { statements } => Expression::ImplicitConstructor {
            statements: clone_statements(statements),
        },
        Expression::ArrayDefinition { elements } => Expression::ArrayDefinition {
            elements: clone_expressions(elements),
        },
        Expression::ArrayReference { index, reference } => Expression::ArrayReference {
            index: Box::new(clone_expression(index)),
            reference: Box::new(clone_expression(reference)),
        },
        Expression::MapDefinition { keys, values } => Expression::MapDefinition {
            keys: clone_expressions(keys),
            values: clone_expressions(values),
        },
        Expression::Fork => Expression::Fork,
        Expression::PostFixOperator { operator, argument } => Expression::PostFixOperator {
            operator: operator.clone(),
            argument: Box::new(clone_expression(argument)),
        },
        Expression::Conditional { condition, positive, negative } => Expression::Conditional {
            condition: Box::new(clone_expression(condition)),
            positive: Box::new(clone_expression(positive)),
            negative: Box::new(clone_expression(negative)),
        },
    }
}

/// A deep copy of a statement.
pub fn clone_statement(st: &Statement) -> (r: Statement)
    ensures
        r@ == st@,
    decreases *st,
{
    match st {
        Statement::Expression(e, pos) => Statement::Expression(clone_expression(e), *pos),
        Statement::If { condition, then_clause, else_clause, pos } => Statement::If {
            condition: clone_expression(condition),
            then_clause: Box::new(clone_statement(then_clause)),
            else_clause: match else_clause {
                Some(b) => Some(Box::new(clone_statement(b))),
                None => None,
            },
            pos: *pos,
        },
        Statement::While { condition, body, pos } => Statement::While {
            condition: clone_expression(condition),
            body: Box::new(clone_statement(body)),
            pos: *pos,
        },
        Statement::For { init, condition, update, body, pos } => Statement::For {
            init: clone_expression(init),
            condition: clone_expression(condition),
            update: clone_expression(update),
            body: Box::new(clone_statement(body)),
            pos: *pos,
        },
        Statement::Return { value, pos } => Statement::Return {
            value: match value {
                Some(e) => Some(clone_expression(e)),
                None => None,
            },
            pos: *pos,
        },
        Statement::Throw { exception, pos } => Statement::Throw {
            exception: clone_expression(exception),
            pos: *pos,
        },
        Statement::Break(pos) => Statement::Break(*pos),
        Statement::Continue(pos) => Statement::Continue(*pos),
        Statement::TryCatch { try_block, catch_var, catch_block, pos } => Statement::TryCatch {
            try_block: Box::new(clone_statement(try_block)),
            catch_var: catch_var.clone(),
            catch_block: Box::new(clone_statement(catch_block)),
            pos: *pos,
        },
        Statement::Scope { statements, pos } => Statement::Scope {
            statements: clone_statements(statements),
            pos: *pos,
        },
        Statement::Void(pos) => Statement::Void(*pos),
    }
}

impl Clone for Expression {
    fn clone(&self) -> (r: Self)
        ensures
            r@ == self@,
    {
        clone_expression(self)
    }
}

impl Clone for Statement {
    fn clone(&self) -> (r: Self)
        ensures
            r@ == self@,
    {
        clone_statement(self)
    }
}

} // verus!
