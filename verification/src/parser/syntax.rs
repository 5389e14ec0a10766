//! The grammar routines of the parser: references, expressions, statements.
use vstd::prelude::*;

use crate::ast::{
    Position, exprs_view, stmts_view, strings_view, Expression, ExpressionModel, Statement, StatementModel,
};
use super::{res_view, Parser};
use super::grammar::{
    adv, err, line_col, position_at, stuck,
    additive, additive_operator, additive_rest, agrees, and_expression, and_rest, arguments_rest,
    array_or_map_definition, array_rest, assignment_operator, char_at, conditional,
    conditional_rest, constant, dotted_reference, equality, equality_rest, expect_char,
    expression, expression_rest, for_statement, function_arguments, function_body, function_definition,
    identifier, if_statement, return_statement, scope_statement, statement, try_catch_statement, while_statement, expect_keyword,
    identifiers_rest, is_function_definition, lemma_reference_ws, lemma_ws, map_rest,
    multiplicative, multiplicative_operator, multiplicative_rest, native_function_call,
    new_expression, or_expression, or_rest, other_expression, paren_scan, postfix_chain,
    reference, relational, relational_operator, relational_rest, set_deepest, starts_with,
    statements_until, try_char, try_keyword, try_str, unary, ws, PErr, PRes,
};

verus! {

pub open spec fn exprs_res(r: Result<Vec<Expression>, String>) -> Result<Seq<ExpressionModel>, Seq<char>> {
    match r {
        Ok(v) => Ok(exprs_view(v@)),
        Err(e) => Err(e@),
    }
}

pub open spec fn stmts_res(r: Result<Vec<Statement>, String>) -> Result<Seq<StatementModel>, Seq<char>> {
    match r {
        Ok(v) => Ok(stmts_view(v@)),
        Err(e) => Err(e@),
    }
}

pub open spec fn strings_res(r: Result<Vec<String>, String>) -> Result<Seq<Seq<char>>, Seq<char>> {
    match r {
        Ok(v) => Ok(strings_view(v@)),
        Err(e) => Err(e@),
    }
}

/// `]` closes a map literal.
pub open spec fn close_map(s: Seq<char>, p: int, keys: Seq<ExpressionModel>, values: Seq<ExpressionModel>) -> PRes<ExpressionModel> {
    match expect_char(s, p, ']') {
        Ok((_, p2)) => Ok((ExpressionModel::MapDefinition { keys, values }, p2)),
        Err(e) => Err(e),
    }
}

/// `]` closes an array literal.
pub open spec fn close_array(s: Seq<char>, p: int, elements: Seq<ExpressionModel>) -> PRes<ExpressionModel> {
    match expect_char(s, p, ']') {
        Ok((_, p2)) => Ok((ExpressionModel::ArrayDefinition { elements }, p2)),
        Err(e) => Err(e),
    }
}

impl Parser {
    // ---- references ----

    #[verifier::spinoff_prover]
    fn parse_reference(&mut self) -> (r: Result<Expression, String>)
        requires
            old(self).wf(),
        ensures
            final(self).wf(),
            final(self).input@ == old(self).input@,
            agrees(old(self).input@, res_view(r), final(self).pos as int, reference(old(self).input@, old(self).pos as int)),
            r is Ok ==> old(self).pos < final(self).pos,
    {
        proof {
            self.lemma_wf();
            lemma_ws(self.input@, self.pos as int);
            lemma_reference_ws(self.input@, self.pos as int);
        }
        self.skip_whitespace();
        self.parse_reference_chain()
    }

    #[verifier::spinoff_prover]
    fn parse_reference_chain(&mut self) -> (r: Result<Expression, String>)
        requires
            old(self).wf(),
        ensures
            final(self).wf(),
            final(self).input@ == old(self).input@,
            agrees(old(self).input@, res_view(r), final(self).pos as int, reference(old(self).input@, old(self).pos as int)),
            r is Ok ==> old(self).pos < final(self).pos,
        decreases old(self).input@.len() - old(self).pos, 1int,
    {
        reveal(reference);
        reveal(dotted_reference);
        proof {
            self.lemma_wf();
            lemma_ws(self.input@, self.pos as int);
            reveal_strlit("this");
        }
        self.skip_whitespace();
        let base = if self.try_keyword("this") {
            Expression::This { field: None }
        } else {
            let name = self.parse_identifier()?;
            Expression::Variable { name, field: None }
        };
        self.build_dotted_reference(base)
    }

    #[verifier::spinoff_prover]
    fn build_dotted_reference(&mut self, base: Expression) -> (r: Result<Expression, String>)
        requires
            old(self).wf(),
        ensures
            final(self).wf(),
            final(self).input@ == old(self).input@,
            agrees(old(self).input@, res_view(r), final(self).pos as int, dotted_reference(old(self).input@, old(self).pos as int, base@)),
            r is Ok ==> old(self).pos <= final(self).pos,
        decreases old(self).input@.len() - old(self).pos, 0int,
    {
        reveal(dotted_reference);
        reveal(reference);
        proof {
            self.lemma_wf();
            lemma_ws(self.input@, self.pos as int);
        }
        let state = self.save();
        if self.try_char('.') {
            let sub = self.parse_reference_chain()?;
            Ok(self.set_deepest_field(sub, base))
        } else {
            self.restore(state);
            Ok(base)
        }
    }

    /// Attaches `parent` as the innermost field of the reference chain `expr`.
    #[verifier::spinoff_prover]
    fn set_deepest_field(&self, expr: Expression, parent: Expression) -> (r: Expression)
        ensures
            r@ == set_deepest(expr@, parent@),
        decreases expr,
    {
        match expr {
            Expression::Variable { name, field } => match field {
                Some(inner) => Expression::Variable {
                    name,
                    field: Some(Box::new(self.set_deepest_field(*inner, parent))),
                },
                None => Expression::Variable { name, field: Some(Box::new(parent)) },
            },
            Expression::This { field } => match field {
                Some(inner) => Expression::This {
                    field: Some(Box::new(self.set_deepest_field(*inner, parent))),
                },
                None => Expression::This { field: Some(Box::new(parent)) },
            },
            other => other,
        }
    }
}


impl Parser {
    // ---- expressions ----

    #[verifier::spinoff_prover]
    fn parse_expression(&mut self) -> (r: Result<Expression, String>)
        requires
            old(self).wf(),
        ensures
            final(self).wf(),
            final(self).input@ == old(self).input@,
            agrees(old(self).input@, res_view(r), final(self).pos as int, expression(old(self).input@, old(self).pos as int)),
            r is Ok ==> old(self).pos < final(self).pos,
        decreases old(self).input@.len() - old(self).pos, 50int,
    {
        reveal(expression);
        reveal(expression_rest);
        reveal(conditional);
        let ghost s = self.input@;
        let ghost p0 = self.pos as int;
        proof {
            self.lemma_wf();
        }
        let mut left = self.parse_conditional_expression()?;
        loop
            invariant_except_break
                self.wf(),
                self.input@ == s,
                s == old(self).input@,
                p0 == old(self).pos,
                p0 < self.pos,
                expression(s, p0) == expression_rest(s, self.pos as int, left@),
            ensures
                self.wf(),
                self.input@ == s,
                p0 < self.pos,
                expression(s, p0) == Ok::<(ExpressionModel, int), PErr>((left@, self.pos as int)),
            decreases s.len() - self.pos,
        {
            reveal(expression);
            reveal(expression_rest);
            reveal(conditional);
            proof {
                self.lemma_wf();
                lemma_ws(s, self.pos as int);
            }
            self.skip_whitespace();
            match self.try_assignment_operator() {
                Some(op) => {
                    let right = self.parse_conditional_expression()?;
                    let operator = if op == String::from_str("=") {
                        None
                    } else {
                        Some(op)
                    };
                    left = Expression::Assignment {
                        variable: Box::new(left),
                        operator,
                        value: Box::new(right),
                    };
                },
                None => {
                    break;
                },
            }
        }
        Ok(left)
    }

    #[verifier::spinoff_prover]
    fn try_assignment_operator(&mut self) -> (r: Option<String>)
        requires
            old(self).wf(),
        ensures
            final(self).wf(),
            final(self).input@ == old(self).input@,
            (match r {
                Some(o) => Some(o@),
                None => None::<Seq<char>>,
            }, final(self).pos as int) == assignment_operator(old(self).input@, old(self).pos as int),
            r is Some ==> old(self).pos < final(self).pos,
            old(self).pos <= final(self).pos,
    {
        proof {
            self.lemma_wf();
            lemma_ws(self.input@, self.pos as int);
            reveal_strlit("+=");
            reveal_strlit("-=");
            reveal_strlit("*=");
            reveal_strlit("/=");
        }
        self.skip_whitespace();
        let state = self.save();
        if self.try_str("+=") {
            return Some(String::from_str("+="));
        }
        if self.try_str("-=") {
            return Some(String::from_str("-="));
        }
        if self.try_str("*=") {
            return Some(String::from_str("*="));
        }
        if self.try_str("/=") {
            return Some(String::from_str("/="));
        }
        if self.peek() == Some('=') {
            if self.peek_ahead(1) != Some('=') && self.peek_ahead(1) != Some('>') {
                self.advance();
                return Some(String::from_str("="));
            }
        }
        self.restore(state);
        None
    }

    #[verifier::spinoff_prover]
    fn parse_conditional_expression(&mut self) -> (r: Result<Expression, String>)
        requires
            old(self).wf(),
        ensures
            final(self).wf(),
            final(self).input@ == old(self).input@,
            agrees(old(self).input@, res_view(r), final(self).pos as int, conditional(old(self).input@, old(self).pos as int)),
            r is Ok ==> old(self).pos < final(self).pos,
        decreases old(self).input@.len() - old(self).pos, 48int,
    {
        reveal(conditional);
        reveal(conditional_rest);
        reveal(or_expression);
        reveal(expression);
        let ghost s = self.input@;
        let ghost p0 = self.pos as int;
        proof {
            self.lemma_wf();
        }
        let mut expr = self.parse_or_expression()?;
        loop
            invariant_except_break
                self.wf(),
                self.input@ == s,
                s == old(self).input@,
                p0 == old(self).pos,
                p0 < self.pos,
                conditional(s, p0) == conditional_rest(s, self.pos as int, expr@),
            ensures
                self.wf(),
                self.input@ == s,
                p0 < self.pos,
                conditional(s, p0) == Ok::<(ExpressionModel, int), PErr>((expr@, self.pos as int)),
            decreases s.len() - self.pos,
        {
            reveal(conditional);
            reveal(conditional_rest);
            reveal(or_expression);
            reveal(expression);
            proof {
                self.lemma_wf();
                lemma_ws(s, self.pos as int);
            }
            self.skip_whitespace();
            if self.try_char('?') {
                let positive = self.parse_expression()?;
                self.expect_char(':')?;
                let negative = self.parse_or_expression()?;
                expr = Expression::Conditional {
                    condition: Box::new(expr),
                    positive: Box::new(positive),
                    negative: Box::new(negative),
                };
            } else {
                break;
            }
        }
        Ok(expr)
    }

    #[verifier::spinoff_prover]
    fn parse_or_expression(&mut self) -> (r: Result<Expression, String>)
        requires
            old(self).wf(),
        ensures
            final(self).wf(),
            final(self).input@ == old(self).input@,
            agrees(old(self).input@, res_view(r), final(self).pos as int, or_expression(old(self).input@, old(self).pos as int)),
            r is Ok ==> old(self).pos < final(self).pos,
        decreases old(self).input@.len() - old(self).pos, 46int,
    {
        reveal(or_expression);
        reveal(or_rest);
        reveal(and_expression);
        let ghost s = self.input@;
        let ghost p0 = self.pos as int;
        proof {
            self.lemma_wf();
        }
        let mut left = self.parse_and_expression()?;
        loop
            invariant_except_break
                self.wf(),
                self.input@ == s,
                s == old(self).input@,
                p0 == old(self).pos,
                p0 < self.pos,
                or_expression(s, p0) == or_rest(s, self.pos as int, left@),
            ensures
                self.wf(),
                self.input@ == s,
                p0 < self.pos,
                or_expression(s, p0) == Ok::<(ExpressionModel, int), PErr>((left@, self.pos as int)),
            decreases s.len() - self.pos,
        {
            reveal(or_expression);
            reveal(or_rest);
            reveal(and_expression);
            proof {
                self.lemma_wf();
                lemma_ws(s, self.pos as int);
                reveal_strlit("||");
            }
            self.skip_whitespace();
            if self.try_str("||") {
                let right = self.parse_and_expression()?;
                left = Expression::Or(Box::new(left), Box::new(right));
            } else {
                break;
            }
        }
        Ok(left)
    }

    #[verifier::spinoff_prover]
    fn parse_and_expression(&mut self) -> (r: Result<Expression, String>)
        requires
            old(self).wf(),
        ensures
            final(self).wf(),
            final(self).input@ == old(self).input@,
            agrees(old(self).input@, res_view(r), final(self).pos as int, and_expression(old(self).input@, old(self).pos as int)),
            r is Ok ==> old(self).pos < final(self).pos,
        decreases old(self).input@.len() - old(self).pos, 44int,
    {
        reveal(and_expression);
        reveal(and_rest);
        reveal(equality);
        let ghost s = self.input@;
        let ghost p0 = self.pos as int;
        proof {
            self.lemma_wf();
        }
        let mut left = self.parse_equality_expression()?;
        loop
            invariant_except_break
                self.wf(),
                self.input@ == s,
                s == old(self).input@,
                p0 == old(self).pos,
                p0 < self.pos,
                and_expression(s, p0) == and_rest(s, self.pos as int, left@),
            ensures
                self.wf(),
                self.input@ == s,
                p0 < self.pos,
                and_expression(s, p0) == Ok::<(ExpressionModel, int), PErr>((left@, self.pos as int)),
            decreases s.len() - self.pos,
        {
            reveal(and_expression);
            reveal(and_rest);
            reveal(equality);
            proof {
                self.lemma_wf();
                lemma_ws(s, self.pos as int);
                reveal_strlit("&&");
            }
            self.skip_whitespace();
            if self.try_str("&&") {
                let right = self.parse_equality_expression()?;
                left = Expression::And(Box::new(left), Box::new(right));
            } else {
                break;
            }
        }
        Ok(left)
    }

    #[verifier::spinoff_prover]
    fn parse_equality_expression(&mut self) -> (r: Result<Expression, String>)
        requires
            old(self).wf(),
        ensures
            final(self).wf(),
            final(self).input@ == old(self).input@,
            agrees(old(self).input@, res_view(r), final(self).pos as int, equality(old(self).input@, old(self).pos as int)),
            r is Ok ==> old(self).pos < final(self).pos,
        decreases old(self).input@.len() - old(self).pos, 42int,
    {
        reveal(equality);
        reveal(equality_rest);
        reveal(relational);
        let ghost s = self.input@;
        let ghost p0 = self.pos as int;
        proof {
            self.lemma_wf();
        }
        let mut left = self.parse_relational_expression()?;
        loop
            invariant_except_break
                self.wf(),
                self.input@ == s,
                s == old(self).input@,
                p0 == old(self).pos,
                p0 < self.pos,
                equality(s, p0) == equality_rest(s, self.pos as int, left@),
            ensures
                self.wf(),
                self.input@ == s,
                p0 < self.pos,
                equality(s, p0) == Ok::<(ExpressionModel, int), PErr>((left@, self.pos as int)),
            decreases s.len() - self.pos,
        {
            reveal(equality);
            reveal(equality_rest);
            reveal(relational);
            proof {
                self.lemma_wf();
                lemma_ws(s, self.pos as int);
                lemma_ws(s, ws(s, self.pos as int));
                reveal_strlit("==");
                reveal_strlit("!=");
            }
            self.skip_whitespace();
            let state = self.save();
            if self.try_str("==") {
                let right = self.parse_relational_expression()?;
                left = Expression::Equality(Box::new(left), String::from_str("=="), Box::new(right));
            } else if self.try_str("!=") {
                let right = self.parse_relational_expression()?;
                left = Expression::Equality(Box::new(left), String::from_str("!="), Box::new(right));
            } else {
                self.restore(state);
                break;
            }
        }
        Ok(left)
    }

    #[verifier::spinoff_prover]
    fn parse_relational_expression(&mut self) -> (r: Result<Expression, String>)
        requires
            old(self).wf(),
        ensures
            final(self).wf(),
            final(self).input@ == old(self).input@,
            agrees(old(self).input@, res_view(r), final(self).pos as int, relational(old(self).input@, old(self).pos as int)),
            r is Ok ==> old(self).pos < final(self).pos,
        decreases old(self).input@.len() - old(self).pos, 40int,
    {
        reveal(relational);
        reveal(relational_rest);
        reveal(additive);
        let ghost s = self.input@;
        let ghost p0 = self.pos as int;
        proof {
            self.lemma_wf();
        }
        let mut left = self.parse_additive_expression()?;
        loop
            invariant_except_break
                self.wf(),
                self.input@ == s,
                s == old(self).input@,
                p0 == old(self).pos,
                p0 < self.pos,
                relational(s, p0) == relational_rest(s, self.pos as int, left@),
            ensures
                self.wf(),
                self.input@ == s,
                p0 < self.pos,
                relational(s, p0) == Ok::<(ExpressionModel, int), PErr>((left@, self.pos as int)),
            decreases s.len() - self.pos,
        {
            reveal(relational);
            reveal(relational_rest);
            reveal(additive);
            proof {
                self.lemma_wf();
                lemma_ws(s, self.pos as int);
                lemma_ws(s, ws(s, self.pos as int));
                reveal_strlit("<=");
                reveal_strlit(">=");
            }
            self.skip_whitespace();
            let state = self.save();
            if self.try_str("<=") {
                let right = self.parse_additive_expression()?;
                left = Expression::Relational(Box::new(left), String::from_str("<="), Box::new(right));
            } else if self.try_str(">=") {
                let right = self.parse_additive_expression()?;
                left = Expression::Relational(Box::new(left), String::from_str(">="), Box::new(right));
            } else if self.peek() == Some('<') {
                self.advance();
                let right = self.parse_additive_expression()?;
                left = Expression::Relational(Box::new(left), String::from_str("<"), Box::new(right));
            } else if self.peek() == Some('>') {
                self.advance();
                let right = self.parse_additive_expression()?;
                left = Expression::Relational(Box::new(left), String::from_str(">"), Box::new(right));
            } else {
                self.restore(state);
                break;
            }
        }
        Ok(left)
    }

    #[verifier::spinoff_prover]
    fn parse_additive_expression(&mut self) -> (r: Result<Expression, String>)
        requires
            old(self).wf(),
        ensures
            final(self).wf(),
            final(self).input@ == old(self).input@,
            agrees(old(self).input@, res_view(r), final(self).pos as int, additive(old(self).input@, old(self).pos as int)),
            r is Ok ==> old(self).pos < final(self).pos,
        decreases old(self).input@.len() - old(self).pos, 38int,
    {
        reveal(additive);
        reveal(additive_rest);
        reveal(multiplicative);
        let ghost s = self.input@;
        let ghost p0 = self.pos as int;
        proof {
            self.lemma_wf();
        }
        let mut left = self.parse_multiplicative_expression()?;
        loop
            invariant_except_break
                self.wf(),
                self.input@ == s,
                s == old(self).input@,
                p0 == old(self).pos,
                p0 < self.pos,
                additive(s, p0) == additive_rest(s, self.pos as int, left@),
            ensures
                self.wf(),
                self.input@ == s,
                p0 < self.pos,
                additive(s, p0) == Ok::<(ExpressionModel, int), PErr>((left@, self.pos as int)),
            decreases s.len() - self.pos,
        {
            reveal(additive);
            reveal(additive_rest);
            reveal(multiplicative);
            proof {
                self.lemma_wf();
                lemma_ws(s, self.pos as int);
            }
            self.skip_whitespace();
            let state = self.save();
            if self.peek() == Some('+') && self.peek_ahead(1) != Some('+') && self.peek_ahead(1)
                != Some('=') {
                self.advance();
                let right = self.parse_multiplicative_expression()?;
                left = Expression::Additive(Box::new(left), String::from_str("+"), Box::new(right));
            } else if self.peek() == Some('-') && self.peek_ahead(1) != Some('-') && self.peek_ahead(1)
                != Some('>') && self.peek_ahead(1) != Some('=') {
                self.advance();
                let right = self.parse_multiplicative_expression()?;
                left = Expression::Additive(Box::new(left), String::from_str("-"), Box::new(right));
            } else {
                self.restore(state);
                break;
            }
        }
        Ok(left)
    }

    #[verifier::spinoff_prover]
    fn parse_multiplicative_expression(&mut self) -> (r: Result<Expression, String>)
        requires
            old(self).wf(),
        ensures
            final(self).wf(),
            final(self).input@ == old(self).input@,
            agrees(old(self).input@, res_view(r), final(self).pos as int, multiplicative(old(self).input@, old(self).pos as int)),
            r is Ok ==> old(self).pos < final(self).pos,
        decreases old(self).input@.len() - old(self).pos, 36int,
    {
        reveal(multiplicative);
        reveal(multiplicative_rest);
        reveal(unary);
        let ghost s = self.input@;
        let ghost p0 = self.pos as int;
        proof {
            self.lemma_wf();
        }
        let mut left = self.parse_unary_expression()?;
        loop
            invariant_except_break
                self.wf(),
                self.input@ == s,
                s == old(self).input@,
                p0 == old(self).pos,
                p0 < self.pos,
                multiplicative(s, p0) == multiplicative_rest(s, self.pos as int, left@),
            ensures
                self.wf(),
                self.input@ == s,
                p0 < self.pos,
                multiplicative(s, p0) == Ok::<(ExpressionModel, int), PErr>((left@, self.pos as int)),
            decreases s.len() - self.pos,
        {
            reveal(multiplicative);
            reveal(multiplicative_rest);
            reveal(unary);
            proof {
                self.lemma_wf();
                lemma_ws(s, self.pos as int);
            }
            self.skip_whitespace();
            let state = self.save();
            if self.peek() == Some('*') && self.peek_ahead(1) != Some('=') {
                self.advance();
                let right = self.parse_unary_expression()?;
                left = Expression::Multiplicative(Box::new(left), String::from_str("*"), Box::new(right));
            } else if self.peek() == Some('/') && self.peek_ahead(1) != Some('=') && self.peek_ahead(1)
                != Some('/') && self.peek_ahead(1) != Some('*') {
                self.advance();
                let right = self.parse_unary_expression()?;
                left = Expression::Multiplicative(Box::new(left), String::from_str("/"), Box::new(right));
            } else if self.peek() == Some('%') {
                self.advance();
                let right = self.parse_unary_expression()?;
                left = Expression::Multiplicative(Box::new(left), String::from_str("%"), Box::new(right));
            } else {
                self.restore(state);
                break;
            }
        }
        Ok(left)
    }

    #[verifier::spinoff_prover]
    fn parse_unary_expression(&mut self) -> (r: Result<Expression, String>)
        requires
            old(self).wf(),
        ensures
            final(self).wf(),
            final(self).input@ == old(self).input@,
            agrees(old(self).input@, res_view(r), final(self).pos as int, unary(old(self).input@, old(self).pos as int)),
            r is Ok ==> old(self).pos < final(self).pos,
        decreases old(self).input@.len() - old(self).pos, 34int,
    {
        reveal(unary);
        reveal(postfix_chain);
        reveal(other_expression);
        let ghost s = self.input@;
        proof {
            self.lemma_wf();
            lemma_ws(s, self.pos as int);
            lemma_ws(s, ws(s, self.pos as int));
            reveal_strlit("++");
            reveal_strlit("--");
        }
        self.skip_whitespace();
        if self.try_char('!') {
            let expr = self.parse_unary_expression()?;
            return Ok(Expression::Not(Box::new(expr)));
        }
        let state = self.save();
        match self.parse_reference() {
            Ok(reference) => {
                let pstate = self.save();
                if self.try_str("++") {
                    return Ok(
                        Expression::PostFixOperator {
                            operator: String::from_str("++"),
                            argument: Box::new(reference),
                        },
                    );
                }
                if self.try_str("--") {
                    return Ok(
                        Expression::PostFixOperator {
                            operator: String::from_str("--"),
                            argument: Box::new(reference),
                        },
                    );
                }
                self.restore(pstate);
                let pstate2 = self.save();
                self.skip_whitespace();
                if self.peek() == Some('[') || self.peek() == Some('(') {
                    match self.parse_postfix_chain(reference.clone()) {
                        Ok(expr) => {
                            return Ok(expr);
                        },
                        Err(_) => {},
                    }
                    self.restore(pstate2);
                }
                return Ok(reference);
            },
            Err(_) => {},
        }
        self.restore(state);
        self.parse_other_expression()
    }

    #[verifier::spinoff_prover]
    fn parse_postfix_chain(&mut self, base: Expression) -> (r: Result<Expression, String>)
        requires
            old(self).wf(),
        ensures
            final(self).wf(),
            final(self).input@ == old(self).input@,
            agrees(old(self).input@, res_view(r), final(self).pos as int, postfix_chain(old(self).input@, old(self).pos as int, base@, false)),
            r is Ok ==> old(self).pos < final(self).pos,
        decreases old(self).input@.len() - old(self).pos, 32int,
    {
        reveal(postfix_chain);
        reveal(function_arguments);
        let ghost s = self.input@;
        let ghost p0 = self.pos as int;
        let ghost base_model = base@;
        let mut expr = base;
        let mut had_postfix = false;
        loop
            invariant_except_break
                self.wf(),
                self.input@ == s,
                s == old(self).input@,
                p0 == old(self).pos,
                p0 <= self.pos,
                had_postfix ==> p0 < self.pos,
                base_model == base@,
                postfix_chain(s, p0, base_model, false) == postfix_chain(s, self.pos as int, expr@, had_postfix),
            ensures
                self.wf(),
                self.input@ == s,
                p0 <= self.pos,
                had_postfix ==> p0 < self.pos,
                postfix_chain(s, p0, base_model, false) == (if had_postfix {
                    Ok::<(ExpressionModel, int), PErr>((expr@, self.pos as int))
                } else {
                    err::<ExpressionModel>(self.pos as int, "expected postfix reference"@)
                }),
            decreases s.len() - self.pos,
        {
            reveal(postfix_chain);
            reveal(function_arguments);
            proof {
                self.lemma_wf();
                lemma_ws(s, self.pos as int);
            }
            self.skip_whitespace();
            if self.peek() == Some('[') {
                self.advance();
                let index = self.parse_expression()?;
                self.expect_char(']')?;
                expr = Expression::ArrayReference { reference: Box::new(expr), index: Box::new(index) };
                had_postfix = true;
            } else if self.peek() == Some('(') {
                self.advance();
                let args = self.parse_function_arguments()?;
                self.expect_char(')')?;
                expr = Expression::FunctionCall { function: Box::new(expr), parameters: args, field: None };
                had_postfix = true;
            } else if self.peek() == Some('.') {
                let state = self.save();
                self.advance();
                match self.parse_reference_chain() {
                    Ok(chain) => {
                        expr = self.set_deepest_field(chain, expr);
                        had_postfix = true;
                    },
                    Err(_) => {
                        self.restore(state);
                        break;
                    },
                }
            } else {
                break;
            }
        }
        if had_postfix {
            Ok(expr)
        } else {
            self.error("expected postfix reference")
        }
    }

    #[verifier::spinoff_prover]
    fn parse_other_expression(&mut self) -> (r: Result<Expression, String>)
        requires
            old(self).wf(),
        ensures
            final(self).wf(),
            final(self).input@ == old(self).input@,
            agrees(old(self).input@, res_view(r), final(self).pos as int, other_expression(old(self).input@, old(self).pos as int)),
            r is Ok ==> old(self).pos < final(self).pos,
        decreases old(self).input@.len() - old(self).pos, 33int,
    {
        reveal(other_expression);
        reveal(new_expression);
        reveal(function_definition);
        reveal(native_function_call);
        let ghost s = self.input@;
        proof {
            self.lemma_wf();
            lemma_ws(s, self.pos as int);
            lemma_ws(s, ws(s, self.pos as int));
            reveal_strlit("new");
            reveal_strlit("native");
            reveal_strlit("fork");
            reveal_strlit("true");
            reveal_strlit("false");
            reveal_strlit("undef");
        }
        self.skip_whitespace();
        if self.try_keyword("new") {
            return self.parse_new_expression();
        }
        if self.is_function_definition() {
            return self.parse_function_definition();
        }
        if self.try_keyword("native") {
            return self.parse_native_function_call();
        }
        if self.try_keyword("fork") {
            self.expect_char('(')?;
            self.expect_char(')')?;
            return Ok(Expression::Fork);
        }
        if self.try_keyword("true") {
            return Ok(Expression::Constant { value: 1, type_label: String::from_str("Boolean"), string: None });
        }
        if self.try_keyword("false") {
            return Ok(Expression::Constant { value: 0, type_label: String::from_str("Boolean"), string: None });
        }
        if self.try_keyword("undef") {
            return Ok(Expression::Constant { value: 0, type_label: String::from_str("Undefined"), string: None });
        }
        if let Some(ch) = self.peek() {
            if crate::text::is_ascii_digit(ch) {
                return self.parse_number();
            }
        }
        if self.peek() == Some('"') {
            return self.parse_string();
        }
        self.parse_reference()
    }

    #[verifier::spinoff_prover]
    fn is_function_definition(&mut self) -> (r: bool)
        requires
            old(self).wf(),
        ensures
            final(self).wf(),
            final(self).input@ == old(self).input@,
            r == is_function_definition(old(self).input@, old(self).pos as int),
            final(self).pos == ws(old(self).input@, old(self).pos as int),
    {
        let ghost s = self.input@;
        proof {
            self.lemma_wf();
            reveal_strlit("->");
            assert("->"@ == seq!['-', '>']);
        }
        self.skip_whitespace();
        if self.peek() != Some('(') {
            return false;
        }
        let state = self.save();
        let ghost start = self.pos as int;
        self.advance();
        let mut depth: i32 = 1;
        while depth > 0
            invariant
                self.wf(),
                self.input@ == s,
                start < self.pos,
                0 <= depth <= self.pos - start,
                state.0 == start,
                state.1 as int == line_col(s, start).0,
                state.2 as int == line_col(s, start).1,
                start == ws(s, old(self).pos as int),
                s == old(self).input@,
                paren_scan(s, self.pos as int, depth as int) == paren_scan(s, start + 1, 1),
            decreases s.len() - self.pos,
        {
            reveal(other_expression);
            reveal(new_expression);
            reveal(function_definition);
            reveal(native_function_call);
            proof {
                self.lemma_wf();
            }
            match self.advance() {
                Some(c) => {
                    if c == '(' {
                        depth = depth + 1;
                    } else if c == ')' {
                        depth = depth - 1;
                    }
                },
                None => {
                    self.restore(state);
                    return false;
                },
            }
        }
        self.skip_whitespace();
        let result = self.starts_with("->");
        self.restore(state);
        result
    }

    #[verifier::spinoff_prover]
    fn parse_new_expression(&mut self) -> (r: Result<Expression, String>)
        requires
            old(self).wf(),
        ensures
            final(self).wf(),
            final(self).input@ == old(self).input@,
            agrees(old(self).input@, res_view(r), final(self).pos as int, new_expression(old(self).input@, old(self).pos as int)),
            r is Ok ==> old(self).pos < final(self).pos,
        decreases old(self).input@.len() - old(self).pos, 32int,
    {
        reveal(new_expression);
        let ghost s = self.input@;
        proof {
            self.lemma_wf();
            lemma_ws(s, self.pos as int);
        }
        self.skip_whitespace();
        if self.peek() == Some('{') {
            self.advance();
            let stmts = self.parse_statements_until('}')?;
            self.expect_char('}')?;
            return Ok(Expression::ImplicitConstructor { statements: stmts });
        }
        if self.peek() == Some('[') {
            self.advance();
            return self.parse_array_or_map_definition();
        }
        let var_expr = self.parse_reference()?;
        let expr_with_postfix = self.parse_postfix_chain(var_expr)?;
        Ok(Expression::ConstructorCall { function: Box::new(expr_with_postfix) })
    }

    #[verifier::spinoff_prover]
    fn parse_array_or_map_definition(&mut self) -> (r: Result<Expression, String>)
        requires
            old(self).wf(),
        ensures
            final(self).wf(),
            final(self).input@ == old(self).input@,
            agrees(old(self).input@, res_view(r), final(self).pos as int, array_or_map_definition(old(self).input@, old(self).pos as int)),
            r is Ok ==> old(self).pos < final(self).pos,
        decreases old(self).input@.len() - old(self).pos, 55int,
    {
        reveal(array_or_map_definition);
        let ghost s = self.input@;
        let ghost p0 = self.pos as int;
        proof {
            self.lemma_wf();
            lemma_ws(s, self.pos as int);
            reveal_strlit("=>");
        }
        self.skip_whitespace();
        if self.peek() == Some(']') {
            self.advance();
            let elements: Vec<Expression> = Vec::new();
            assert(exprs_view(elements@) =~= Seq::<ExpressionModel>::empty());
            return Ok(Expression::ArrayDefinition { elements });
        }
        proof {
            lemma_array_or_map_unfold(s, p0);
        }
        let first = self.parse_expression()?;
        proof {
            self.lemma_wf();
            lemma_ws(s, self.pos as int);
            lemma_ws(s, ws(s, self.pos as int));
        }
        self.skip_whitespace();
        if self.try_str("=>") {
            let first_val = self.parse_expression()?;
            let mut keys: Vec<Expression> = Vec::new();
            keys.push(first);
            let mut values: Vec<Expression> = Vec::new();
            values.push(first_val);
            assert(exprs_view(keys@) =~= seq![keys@[0]@]);
            assert(exprs_view(values@) =~= seq![values@[0]@]);
            loop
                invariant_except_break
                    self.wf(),
                    self.input@ == s,
                    s == old(self).input@,
                    p0 == old(self).pos,
                    p0 < self.pos,
                    array_or_map_definition(s, p0) == map_rest(s, self.pos as int, exprs_view(keys@), exprs_view(values@)),
                ensures
                    self.wf(),
                    self.input@ == s,
                    p0 < self.pos,
                    array_or_map_definition(s, p0) == close_map(s, self.pos as int, exprs_view(keys@), exprs_view(values@)),
                decreases s.len() - self.pos,
            {
                proof {
                    self.lemma_wf();
                    lemma_ws(s, self.pos as int);
                    lemma_map_rest_unfold(s, self.pos as int, exprs_view(keys@), exprs_view(values@));
                }
                if !self.try_char(',') {
                    break;
                }
                let k = self.parse_expression()?;
                proof {
                    self.lemma_wf();
                    lemma_ws(s, self.pos as int);
                    lemma_ws(s, ws(s, self.pos as int));
                }
                self.skip_whitespace();
                if !self.try_str("=>") {
                    return self.error("expected '=>' in map literal");
                }
                let v = self.parse_expression()?;
                let ghost kv = keys@;
                let ghost vv = values@;
                keys.push(k);
                values.push(v);
                assert(exprs_view(keys@) =~= exprs_view(kv).push(keys@[keys@.len() - 1]@));
                assert(exprs_view(values@) =~= exprs_view(vv).push(values@[values@.len() - 1]@));
            }
            self.expect_char(']')?;
            return Ok(Expression::MapDefinition { keys, values });
        }
        let mut elements: Vec<Expression> = Vec::new();
        elements.push(first);
        assert(exprs_view(elements@) =~= seq![elements@[0]@]);
        loop
            invariant_except_break
                self.wf(),
                self.input@ == s,
                s == old(self).input@,
                p0 == old(self).pos,
                p0 < self.pos,
                array_or_map_definition(s, p0) == array_rest(s, self.pos as int, exprs_view(elements@)),
            ensures
                self.wf(),
                self.input@ == s,
                p0 < self.pos,
                array_or_map_definition(s, p0) == close_array(s, self.pos as int, exprs_view(elements@)),
            decreases s.len() - self.pos,
        {
            proof {
                self.lemma_wf();
                lemma_ws(s, self.pos as int);
                lemma_array_rest_unfold(s, self.pos as int, exprs_view(elements@));
            }
            if !self.try_char(',') {
                break;
            }
            let e = self.parse_expression()?;
            let ghost ev = elements@;
            elements.push(e);
            assert(exprs_view(elements@) =~= exprs_view(ev).push(elements@[elements@.len() - 1]@));
        }
        self.expect_char(']')?;
        Ok(Expression::ArrayDefinition { elements })
    }
}


impl Parser {
    #[verifier::spinoff_prover]
    fn parse_function_definition(&mut self) -> (r: Result<Expression, String>)
        requires
            old(self).wf(),
        ensures
            final(self).wf(),
            final(self).input@ == old(self).input@,
            agrees(old(self).input@, res_view(r), final(self).pos as int, function_definition(old(self).input@, old(self).pos as int)),
            r is Ok ==> old(self).pos < final(self).pos,
        decreases old(self).input@.len() - old(self).pos, 32int,
    {
        let ghost s = self.input@;
        let ghost p0 = self.pos as int;
        proof {
            lemma_function_definition_unfold(s, p0);
            self.lemma_wf();
            lemma_ws(s, self.pos as int);
            reveal_strlit("->");
        }
        self.expect_char('(')?;
        let mut params: Vec<String> = Vec::new();
        proof {
            self.lemma_wf();
            lemma_ws(s, self.pos as int);
        }
        self.skip_whitespace();
        let ghost q = self.pos as int;
        assert(function_definition(s, p0) == function_body(s, q, if char_at(s, q) != Some(')') {
            match identifier(s, q) {
                Ok((first, p2)) => if !adv(s, q, p2) {
                    stuck()
                } else {
                    identifiers_rest(s, p2, seq![first])
                },
                Err(e) => Err(e),
            }
        } else {
            Ok((Seq::empty(), q))
        }));
        if self.peek() != Some(')') {
            let first = self.parse_identifier()?;
            params.push(first);
            assert(strings_view(params@) =~= seq![params@[0]@]);
            loop
                invariant_except_break
                    self.wf(),
                    self.input@ == s,
                    s == old(self).input@,
                    p0 == old(self).pos,
                    p0 < q < self.pos,
                    function_definition(s, p0) == function_body(s, q, identifiers_rest(s, self.pos as int, strings_view(params@))),
                    forall|e: PErr| #[trigger] function_body(s, q, Err(e)) == Err::<(ExpressionModel, int), PErr>(e),
                ensures
                    self.wf(),
                    self.input@ == s,
                    p0 < q < self.pos,
                    function_definition(s, p0) == function_body(s, q, Ok::<(Seq<Seq<char>>, int), PErr>((strings_view(params@), self.pos as int))),
                decreases s.len() - self.pos,
            {
                reveal(identifiers_rest);
                proof {
                    self.lemma_wf();
                    lemma_ws(s, self.pos as int);
                }
                if !self.try_char(',') {
                    break;
                }
                let name = self.parse_identifier()?;
                let ghost pv = params@;
                params.push(name);
                assert(strings_view(params@) =~= strings_view(pv).push(params@[params@.len() - 1]@));
            }
        } else {
            assert(strings_view(params@) =~= Seq::<Seq<char>>::empty());
        }
        proof {
            lemma_function_body_unfold(s, q, strings_view(params@), self.pos as int);
            self.lemma_wf();
            lemma_ws(s, self.pos as int);
        }
        self.expect_char(')')?;
        proof {
            self.lemma_wf();
            lemma_ws(s, self.pos as int);
            lemma_ws(s, ws(s, self.pos as int));
        }
        self.skip_whitespace();
        if !self.try_str("->") {
            return self.error("expected '->' in function definition");
        }
        proof {
            self.lemma_wf();
            lemma_ws(s, self.pos as int);
        }
        self.expect_char('{')?;
        let stmts = self.parse_statements_until('}')?;
        self.expect_char('}')?;
        Ok(Expression::FunctionDef { parameters: params, statements: stmts })
    }

    #[verifier::spinoff_prover]
    fn parse_native_function_call(&mut self) -> (r: Result<Expression, String>)
        requires
            old(self).wf(),
        ensures
            final(self).wf(),
            final(self).input@ == old(self).input@,
            agrees(old(self).input@, res_view(r), final(self).pos as int, native_function_call(old(self).input@, old(self).pos as int)),
            r is Ok ==> old(self).pos < final(self).pos,
        decreases old(self).input@.len() - old(self).pos, 32int,
    {
        reveal(native_function_call);
        reveal(function_arguments);
        proof {
            self.lemma_wf();
            lemma_ws(self.input@, self.pos as int);
        }
        self.expect_char('(')?;
        let args = self.parse_function_arguments()?;
        self.expect_char(')')?;
        Ok(Expression::NativeFunctionCall { parameters: args })
    }

    #[verifier::spinoff_prover]
    fn parse_function_arguments(&mut self) -> (r: Result<Vec<Expression>, String>)
        requires
            old(self).wf(),
        ensures
            final(self).wf(),
            final(self).input@ == old(self).input@,
            agrees(old(self).input@, exprs_res(r), final(self).pos as int, function_arguments(old(self).input@, old(self).pos as int)),
            r is Ok ==> old(self).pos <= final(self).pos,
        decreases old(self).input@.len() - old(self).pos, 55int,
    {
        reveal(function_arguments);
        reveal(arguments_rest);
        reveal(expression);
        let ghost s = self.input@;
        let ghost p0 = self.pos as int;
        proof {
            self.lemma_wf();
            lemma_ws(s, self.pos as int);
        }
        self.skip_whitespace();
        if self.peek() == Some(')') {
            let empty: Vec<Expression> = Vec::new();
            assert(exprs_view(empty@) =~= Seq::<ExpressionModel>::empty());
            return Ok(empty);
        }
        let first = self.parse_expression()?;
        let mut args: Vec<Expression> = Vec::new();
        args.push(first);
        assert(exprs_view(args@) =~= seq![args@[0]@]);
        loop
            invariant_except_break
                self.wf(),
                self.input@ == s,
                s == old(self).input@,
                p0 == old(self).pos,
                p0 < self.pos,
                function_arguments(s, p0) == arguments_rest(s, self.pos as int, exprs_view(args@)),
            ensures
                self.wf(),
                self.input@ == s,
                p0 < self.pos,
                function_arguments(s, p0) == Ok::<(Seq<ExpressionModel>, int), PErr>((exprs_view(args@), self.pos as int)),
            decreases s.len() - self.pos,
        {
            reveal(function_arguments);
            reveal(arguments_rest);
            reveal(expression);
            proof {
                self.lemma_wf();
                lemma_ws(s, self.pos as int);
            }
            if !self.try_char(',') {
                break;
            }
            let a = self.parse_expression()?;
            let ghost av = args@;
            args.push(a);
            assert(exprs_view(args@) =~= exprs_view(av).push(args@[args@.len() - 1]@));
        }
        Ok(args)
    }

    // ---- statements ----

    #[verifier::spinoff_prover]
    fn parse_statements_until(&mut self, terminator: char) -> (r: Result<Vec<Statement>, String>)
        requires
            old(self).wf(),
        ensures
            final(self).wf(),
            final(self).input@ == old(self).input@,
            agrees(old(self).input@, stmts_res(r), final(self).pos as int, statements_until(old(self).input@, ws(old(self).input@, old(self).pos as int), terminator, Seq::empty())),
            r is Ok ==> old(self).pos <= final(self).pos,
        decreases old(self).input@.len() - old(self).pos, 90int,
    {
        reveal(statements_until);
        reveal(statement);
        let ghost s = self.input@;
        let ghost p0 = self.pos as int;
        proof {
            self.lemma_wf();
            lemma_ws(s, self.pos as int);
        }
        let mut stmts: Vec<Statement> = Vec::new();
        self.skip_whitespace();
        assert(stmts_view(stmts@) =~= Seq::<StatementModel>::empty());
        loop
            invariant_except_break
                self.wf(),
                self.input@ == s,
                s == old(self).input@,
                p0 == old(self).pos,
                p0 <= self.pos,
                statements_until(s, ws(s, p0), terminator, Seq::empty()) == statements_until(s, self.pos as int, terminator, stmts_view(stmts@)),
            ensures
                self.wf(),
                self.input@ == s,
                p0 <= self.pos,
                statements_until(s, ws(s, p0), terminator, Seq::empty()) == Ok::<(Seq<StatementModel>, int), PErr>((stmts_view(stmts@), self.pos as int)),
            decreases s.len() - self.pos,
        {
            reveal(statements_until);
            reveal(statement);
            proof {
                self.lemma_wf();
            }
            if self.peek() == Some(terminator) || self.at_end() {
                break;
            }
            let st = self.parse_statement()?;
            let ghost sv = stmts@;
            stmts.push(st);
            assert(stmts_view(stmts@) =~= stmts_view(sv).push(stmts@[stmts@.len() - 1]@));
            proof {
                self.lemma_wf();
                lemma_ws(s, self.pos as int);
            }
            self.try_char(';');
            proof {
                self.lemma_wf();
                lemma_ws(s, self.pos as int);
            }
            self.skip_whitespace();
        }
        Ok(stmts)
    }

    #[verifier::spinoff_prover]
    pub(super) fn parse_statement(&mut self) -> (r: Result<Statement, String>)
        requires
            old(self).wf(),
        ensures
            final(self).wf(),
            final(self).input@ == old(self).input@,
            agrees(old(self).input@, res_view(r), final(self).pos as int, statement(old(self).input@, old(self).pos as int)),
            r is Ok ==> old(self).pos < final(self).pos,
        decreases old(self).input@.len() - old(self).pos, 80int,
    {
        reveal(statement);
        reveal(scope_statement);
        reveal(return_statement);
        reveal(for_statement);
        reveal(while_statement);
        reveal(if_statement);
        reveal(try_catch_statement);
        reveal(expression);
        let ghost s = self.input@;
        proof {
            self.lemma_wf();
            lemma_ws(s, self.pos as int);
            lemma_ws(s, ws(s, self.pos as int));
            reveal_strlit("return");
            reveal_strlit("for");
            reveal_strlit("while");
            reveal_strlit("if");
            reveal_strlit("try");
            reveal_strlit("break");
            reveal_strlit("continue");
            reveal_strlit("throw");
        }
        self.skip_whitespace();
        let pos = self.position();
        if self.peek() == Some('{') {
            return self.parse_scope_statement();
        }
        if self.try_keyword("return") {
            return self.parse_return_statement(pos);
        }
        if self.try_keyword("for") {
            return self.parse_for_statement(pos);
        }
        if self.try_keyword("while") {
            return self.parse_while_statement(pos);
        }
        if self.try_keyword("if") {
            return self.parse_if_statement(pos);
        }
        if self.try_keyword("try") {
            return self.parse_try_catch_statement(pos);
        }
        if self.try_keyword("break") {
            return Ok(Statement::Break(pos));
        }
        if self.try_keyword("continue") {
            return Ok(Statement::Continue(pos));
        }
        if self.try_keyword("throw") {
            let expr = self.parse_expression()?;
            return Ok(Statement::Throw { exception: expr, pos });
        }
        let expr = self.parse_expression()?;
        Ok(Statement::Expression(expr, pos))
    }

    #[verifier::spinoff_prover]
    fn parse_scope_statement(&mut self) -> (r: Result<Statement, String>)
        requires
            old(self).wf(),
        ensures
            final(self).wf(),
            final(self).input@ == old(self).input@,
            agrees(old(self).input@, res_view(r), final(self).pos as int, scope_statement(old(self).input@, old(self).pos as int)),
            r is Ok ==> old(self).pos < final(self).pos,
        decreases old(self).input@.len() - old(self).pos, 70int,
    {
        proof {
            self.lemma_wf();
            lemma_ws(self.input@, self.pos as int);
            lemma_scope_statement_unfold(self.input@, self.pos as int);
        }
        let pos = self.position();
        self.expect_char('{')?;
        let stmts = self.parse_statements_until('}')?;
        self.expect_char('}')?;
        Ok(Statement::Scope { statements: stmts, pos })
    }

    #[verifier::spinoff_prover]
    fn parse_return_statement(&mut self, pos: Position) -> (r: Result<Statement, String>)
        requires
            old(self).wf(),
        ensures
            final(self).wf(),
            final(self).input@ == old(self).input@,
            agrees(old(self).input@, res_view(r), final(self).pos as int, return_statement(old(self).input@, old(self).pos as int, pos)),
            r is Ok ==> old(self).pos <= final(self).pos,
        decreases old(self).input@.len() - old(self).pos, 60int,
    {
        reveal(return_statement);
        reveal(expression);
        let ghost s = self.input@;
        let ghost p0 = self.pos as int;
        proof {
            self.lemma_wf();
            lemma_ws(s, p0);
        }
        self.skip_whitespace();
        let ghost q = self.pos as int;
        assert(return_statement(s, p0, pos) == (if q >= s.len() || char_at(s, q) == Some('}') || char_at(s, q) == Some(';') {
            Ok((StatementModel::Return { value: None, pos }, q))
        } else {
            match expression(s, q) {
                Ok((e, p1)) => Ok((StatementModel::Return { value: Some(e), pos }, p1)),
                Err(e) => Err(e),
            }
        }));
        let is_bare = self.at_end() || self.peek() == Some('}') || self.peek() == Some(';');
        if is_bare {
            return Ok(Statement::Return { value: None, pos });
        }
        let expr = self.parse_expression()?;
        Ok(Statement::Return { value: Some(expr), pos })
    }

    #[verifier::spinoff_prover]
    fn parse_for_statement(&mut self, pos: Position) -> (r: Result<Statement, String>)
        requires
            old(self).wf(),
        ensures
            final(self).wf(),
            final(self).input@ == old(self).input@,
            agrees(old(self).input@, res_view(r), final(self).pos as int, for_statement(old(self).input@, old(self).pos as int, pos)),
            r is Ok ==> old(self).pos < final(self).pos,
        decreases old(self).input@.len() - old(self).pos, 60int,
    {
        reveal(for_statement);
        reveal(expression);
        reveal(statement);
        let ghost s = self.input@;
        proof {
            self.lemma_wf();
            lemma_ws(s, self.pos as int);
        }
        self.expect_char('(')?;
        let init = self.parse_expression()?;
        proof {
            self.lemma_wf();
            lemma_ws(s, self.pos as int);
        }
        self.expect_char(';')?;
        let cond = self.parse_expression()?;
        proof {
            self.lemma_wf();
            lemma_ws(s, self.pos as int);
        }
        self.expect_char(';')?;
        let update = self.parse_expression()?;
        proof {
            self.lemma_wf();
            lemma_ws(s, self.pos as int);
        }
        self.expect_char(')')?;
        let body = self.parse_statement()?;
        Ok(Statement::For { init, condition: cond, update, body: Box::new(body), pos })
    }

    #[verifier::spinoff_prover]
    fn parse_while_statement(&mut self, pos: Position) -> (r: Result<Statement, String>)
        requires
            old(self).wf(),
        ensures
            final(self).wf(),
            final(self).input@ == old(self).input@,
            agrees(old(self).input@, res_view(r), final(self).pos as int, while_statement(old(self).input@, old(self).pos as int, pos)),
            r is Ok ==> old(self).pos < final(self).pos,
        decreases old(self).input@.len() - old(self).pos, 60int,
    {
        reveal(while_statement);
        reveal(expression);
        reveal(statement);
        let ghost s = self.input@;
        proof {
            self.lemma_wf();
            lemma_ws(s, self.pos as int);
        }
        self.expect_char('(')?;
        let cond = self.parse_expression()?;
        proof {
            self.lemma_wf();
            lemma_ws(s, self.pos as int);
        }
        self.expect_char(')')?;
        let body = self.parse_statement()?;
        Ok(Statement::While { condition: cond, body: Box::new(body), pos })
    }

    #[verifier::spinoff_prover]
    fn parse_if_statement(&mut self, pos: Position) -> (r: Result<Statement, String>)
        requires
            old(self).wf(),
        ensures
            final(self).wf(),
            final(self).input@ == old(self).input@,
            agrees(old(self).input@, res_view(r), final(self).pos as int, if_statement(old(self).input@, old(self).pos as int, pos)),
            r is Ok ==> old(self).pos < final(self).pos,
        decreases old(self).input@.len() - old(self).pos, 60int,
    {
        reveal(if_statement);
        reveal(expression);
        reveal(statement);
        let ghost s = self.input@;
        proof {
            self.lemma_wf();
            lemma_ws(s, self.pos as int);
            reveal_strlit("else");
        }
        self.expect_char('(')?;
        let cond = self.parse_expression()?;
        proof {
            self.lemma_wf();
            lemma_ws(s, self.pos as int);
        }
        self.expect_char(')')?;
        let then_clause = self.parse_statement()?;
        proof {
            self.lemma_wf();
            lemma_ws(s, self.pos as int);
        }
        if self.try_keyword("else") {
            let else_clause = self.parse_statement()?;
            Ok(Statement::If {
                condition: cond,
                then_clause: Box::new(then_clause),
                else_clause: Some(Box::new(else_clause)),
                pos,
            })
        } else {
            Ok(Statement::If { condition: cond, then_clause: Box::new(then_clause), else_clause: None, pos })
        }
    }

    #[verifier::spinoff_prover]
    fn parse_try_catch_statement(&mut self, pos: Position) -> (r: Result<Statement, String>)
        requires
            old(self).wf(),
        ensures
            final(self).wf(),
            final(self).input@ == old(self).input@,
            agrees(old(self).input@, res_view(r), final(self).pos as int, try_catch_statement(old(self).input@, old(self).pos as int, pos)),
            r is Ok ==> old(self).pos < final(self).pos,
        decreases old(self).input@.len() - old(self).pos, 90int,
    {
        reveal(try_catch_statement);
        reveal(statement);
        let ghost s = self.input@;
        proof {
            self.lemma_wf();
            reveal_strlit("catch");
        }
        let try_block = self.parse_statement()?;
        proof {
            self.lemma_wf();
            lemma_ws(s, self.pos as int);
        }
        self.expect_keyword("catch")?;
        self.expect_char('(')?;
        let catch_var = self.parse_identifier()?;
        self.expect_char(')')?;
        let catch_block = self.parse_statement()?;
        Ok(Statement::TryCatch {
            try_block: Box::new(try_block),
            catch_var,
            catch_block: Box::new(catch_block),
            pos,
        })
    }
}

} // verus!

verus! {

/// One unfolding of `array_or_map_definition` past an opening bracket that is not
/// directly closed.
proof fn lemma_array_or_map_unfold(s: Seq<char>, p0: int)
    requires
        0 <= p0 <= s.len(),
        char_at(s, ws(s, p0)) != Some(']'),
    ensures
        ({
            let q = ws(s, p0);
            match expression(s, q) {
                Err(e) => array_or_map_definition(s, p0) == Err::<(ExpressionModel, int), PErr>(e),
                Ok((fm, p1)) => p0 < p1 <= s.len() ==> {
                    let (arrow, p2) = try_str(s, ws(s, p1), "=>"@);
                    if arrow {
                        match expression(s, p2) {
                            Err(e) => array_or_map_definition(s, p0) == Err::<(ExpressionModel, int), PErr>(e),
                            Ok((fvm, p3)) => adv(s, p2, p3) ==> array_or_map_definition(s, p0)
                                == map_rest(s, p3, seq![fm], seq![fvm]),
                        }
                    } else {
                        array_or_map_definition(s, p0) == array_rest(s, p2, seq![fm])
                    }
                },
            }
        }),
{
    reveal(array_or_map_definition);
    reveal(expression);
    reveal(map_rest);
    reveal(array_rest);
    lemma_ws(s, p0);
    if let Ok((fm, p1)) = expression(s, ws(s, p0)) {
        if p0 < p1 <= s.len() {
            lemma_ws(s, p1);
            lemma_ws(s, ws(s, p1));
        }
    }
}

/// One step of the entries of a map literal.
proof fn lemma_map_rest_unfold(s: Seq<char>, p: int, keys: Seq<ExpressionModel>, values: Seq<ExpressionModel>)
    requires
        0 <= p <= s.len(),
    ensures
        ({
            let (comma, p1) = try_char(s, p, ',');
            if !comma {
                map_rest(s, p, keys, values) == close_map(s, p1, keys, values)
            } else {
                match expression(s, p1) {
                    Err(e) => map_rest(s, p, keys, values) == Err::<(ExpressionModel, int), PErr>(e),
                    Ok((k, p2)) => adv(s, p1, p2) ==> {
                        let (arrow, p3) = try_str(s, ws(s, p2), "=>"@);
                        if !arrow {
                            map_rest(s, p, keys, values) == err::<ExpressionModel>(p3, "expected '=>' in map literal"@)
                        } else {
                            match expression(s, p3) {
                                Err(e) => map_rest(s, p, keys, values) == Err::<(ExpressionModel, int), PErr>(e),
                                Ok((v, p4)) => adv(s, p3, p4) ==> map_rest(s, p, keys, values)
                                    == map_rest(s, p4, keys.push(k), values.push(v)),
                            }
                        }
                    },
                }
            }
        }),
{
    reveal(map_rest);
    reveal(expression);
    lemma_ws(s, p);
    let (comma, p1) = try_char(s, p, ',');
    if comma {
        if let Ok((k, p2)) = expression(s, p1) {
            if adv(s, p1, p2) {
                lemma_ws(s, p2);
                lemma_ws(s, ws(s, p2));
            }
        }
    }
}

/// One step of the elements of an array literal.
proof fn lemma_array_rest_unfold(s: Seq<char>, p: int, elements: Seq<ExpressionModel>)
    requires
        0 <= p <= s.len(),
    ensures
        ({
            let (comma, p1) = try_char(s, p, ',');
            if !comma {
                array_rest(s, p, elements) == close_array(s, p1, elements)
            } else {
                match expression(s, p1) {
                    Err(e) => array_rest(s, p, elements) == Err::<(ExpressionModel, int), PErr>(e),
                    Ok((e, p2)) => adv(s, p1, p2) ==> array_rest(s, p, elements)
                        == array_rest(s, p2, elements.push(e)),
                }
            }
        }),
{
    reveal(array_rest);
    reveal(expression);
    lemma_ws(s, p);
}

/// One unfolding of `function_definition`: the opening parenthesis, then the parameters
/// handed to `function_body`.
proof fn lemma_function_definition_unfold(s: Seq<char>, p0: int)
    requires
        0 <= p0 <= s.len(),
    ensures
        match expect_char(s, p0, '(') {
            Err(e) => function_definition(s, p0) == Err::<(ExpressionModel, int), PErr>(e),
            Ok((_, p1)) => {
                let q = ws(s, p1);
                &&& p0 < q <= s.len()
                &&& forall|e: PErr| #[trigger] function_body(s, q, Err(e)) == Err::<(ExpressionModel, int), PErr>(e)
                &&& function_definition(s, p0) == function_body(s, q, if char_at(s, q) != Some(')') {
                    match identifier(s, q) {
                        Ok((first, p2)) => if !adv(s, q, p2) {
                            stuck()
                        } else {
                            identifiers_rest(s, p2, seq![first])
                        },
                        Err(e) => Err(e),
                    }
                } else {
                    Ok((Seq::empty(), q))
                })
            },
        },
{
    reveal(function_definition);
    reveal(function_body);
    lemma_ws(s, p0);
    if let Ok((_, p1)) = expect_char(s, p0, '(') {
        lemma_ws(s, p1);
    }
}

/// One unfolding of `function_body` once the parameters are read.
proof fn lemma_function_body_unfold(s: Seq<char>, q: int, parameters: Seq<Seq<char>>, p3: int)
    requires
        0 <= q <= p3 <= s.len(),
    ensures
        ({
            let fb = function_body(s, q, Ok((parameters, p3)));
            match expect_char(s, p3, ')') {
                Err(e) => fb == Err::<(ExpressionModel, int), PErr>(e),
                Ok((_, p4)) => {
                    let (arrow, p5) = try_str(s, ws(s, p4), "->"@);
                    if !arrow {
                        fb == err::<ExpressionModel>(p5, "expected '->' in function definition"@)
                    } else {
                        match expect_char(s, p5, '{') {
                            Err(e) => fb == Err::<(ExpressionModel, int), PErr>(e),
                            Ok((_, p6)) => match statements_until(s, ws(s, p6), '}', Seq::empty()) {
                                Err(e) => fb == Err::<(ExpressionModel, int), PErr>(e),
                                Ok((statements, p7)) => match expect_char(s, p7, '}') {
                                    Err(e) => fb == Err::<(ExpressionModel, int), PErr>(e),
                                    Ok((_, p8)) => fb == Ok::<(ExpressionModel, int), PErr>(
                                        (ExpressionModel::FunctionDef { parameters, statements }, p8),
                                    ),
                                },
                            },
                        }
                    }
                },
            }
        }),
{
    reveal(function_body);
    reveal(statements_until);
    lemma_ws(s, p3);
    if let Ok((_, p4)) = expect_char(s, p3, ')') {
        lemma_ws(s, p4);
        lemma_ws(s, ws(s, p4));
        let (arrow, p5) = try_str(s, ws(s, p4), "->"@);
        if arrow {
            lemma_ws(s, p5);
            if let Ok((_, p6)) = expect_char(s, p5, '{') {
                lemma_ws(s, p6);
            }
        }
    }
}

/// One unfolding of `scope_statement`.
proof fn lemma_scope_statement_unfold(s: Seq<char>, p: int)
    requires
        0 <= p <= s.len(),
    ensures
        scope_statement(s, p) == match expect_char(s, p, '{') {
            Ok((_, p1)) => match statements_until(s, ws(s, p1), '}', Seq::empty()) {
                Ok((stmts, p2)) => match expect_char(s, p2, '}') {
                    Ok((_, p3)) => Ok((StatementModel::Scope { statements: stmts, pos: position_at(s, p) }, p3)),
                    Err(e) => Err(e),
                },
                Err(e) => Err(e),
            },
            Err(e) => Err(e),
        },
{
    reveal(scope_statement);
    reveal(statements_until);
    lemma_ws(s, p);
    if let Ok((_, p1)) = expect_char(s, p, '{') {
        lemma_ws(s, p1);
    }
}

} // verus!
