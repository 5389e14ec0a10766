//! The mathematical model of the GScript parser: each spec function takes the
//! source text and a position and gives what the parser reads there and where
//! it stops, or the error it reports.
use vstd::prelude::*;

use crate::ast::{ExpressionModel, ModuleModel, Position, StatementModel};
use crate::text::{all_digits, decimal, is_digit_char, is_ident_char, is_ident_start_char, is_numeral, is_ws_char, numeral_value};

verus! {

/// The message of a parse error. `Unstated` is the one error whose text
/// comes from `str::parse` (an integer literal that does not fit in `i32`).
pub enum ErrMsg {
    Text(Seq<char>),
    Unstated,
}

/// A parse error: the offset at which it is reported and its message.
pub struct PErr {
    pub pos: int,
    pub msg: ErrMsg,
}

pub type PRes<T> = Result<(T, int), PErr>;

pub open spec fn err<T>(pos: int, msg: Seq<char>) -> PRes<T> {
    Err(PErr { pos, msg: ErrMsg::Text(msg) })
}

// ---- line and column ----

/// Line and column (both from 1) of offset `p` in `s`.
pub open spec fn line_col(s: Seq<char>, p: int) -> (int, int)
    decreases p,
{
    if p <= 0 {
        (1, 1)
    } else {
        let (l, c) = line_col(s, p - 1);
        if s[p - 1] == '\n' {
            (l + 1, 1)
        } else {
            (l, c + 1)
        }
    }
}

pub open spec fn position_at(s: Seq<char>, p: int) -> Position {
    Position { line: line_col(s, p).0 as i32, column: line_col(s, p).1 as i32 }
}

/// The text of an error as the parser reports it: `"{line}:{column}: {message}"`.
pub open spec fn error_prefix(s: Seq<char>, p: int) -> Seq<char> {
    decimal(line_col(s, p).0) + ":"@ + decimal(line_col(s, p).1) + ": "@
}

/// Whether `text` is how the parser reports the error `e` in source `s`.
pub open spec fn reports(s: Seq<char>, e: PErr, text: Seq<char>) -> bool {
    match e.msg {
        ErrMsg::Text(m) => text == error_prefix(s, e.pos) + m,
        ErrMsg::Unstated => error_prefix(s, e.pos).is_prefix_of(text),
    }
}

/// Whether a parser result `r` (with the offset `end` it stopped at) is the
/// one that the model `m` gives: the same value at the same offset, or an
/// error reported as `m`'s error.
pub open spec fn agrees<T>(s: Seq<char>, r: Result<T, Seq<char>>, end: int, m: PRes<T>) -> bool {
    match m {
        Ok((v, p)) => r == Ok::<T, Seq<char>>(v) && end == p,
        Err(e) => r is Err && reports(s, e, r->Err_0),
    }
}

pub proof fn lemma_line_col_bounds(s: Seq<char>, p: int)
    requires
        0 <= p,
    ensures
        1 <= line_col(s, p).0 <= p + 1,
        1 <= line_col(s, p).1 <= p + 1,
    decreases p,
{
    if p > 0 {
        lemma_line_col_bounds(s, p - 1);
    }
}

/// How many line breaks a text holds.
pub open spec fn newline_count(t: Seq<char>) -> int
    decreases t.len(),
{
    if t.len() == 0 {
        0
    } else {
        newline_count(t.drop_last()) + if t.last() == '\n' { 1int } else { 0int }
    }
}

/// Moving from offset `i` to offset `j` of the source: the line grows by the line breaks
/// passed; the column grows by the characters passed when none was a line break, and
/// otherwise is one more than the number of characters after the last line break.
pub proof fn lemma_line_col_between(s: Seq<char>, i: int, j: int)
    requires
        0 <= i <= j <= s.len(),
    ensures
        line_col(s, j).0 == line_col(s, i).0 + newline_count(s.subrange(i, j)),
        newline_count(s.subrange(i, j)) == 0 ==> line_col(s, j).1 == line_col(s, i).1 + (j - i),
        forall|k: int| i <= k < j && s[k] == '\n' && (forall|m: int| k < m < j ==> s[m] != '\n')
            ==> line_col(s, j).1 == j - k,
    decreases j - i,
{
    if j > i {
        lemma_line_col_between(s, i, j - 1);
        assert(s.subrange(i, j).drop_last() =~= s.subrange(i, j - 1));
        lemma_newline_count_nonneg(s.subrange(i, j - 1));
        assert forall|k: int| i <= k < j && s[k] == '\n' && (forall|m: int| k < m < j ==> s[m] != '\n')
            implies line_col(s, j).1 == j - k by {
            if k < j - 1 {
                assert(s[j - 1] != '\n');
            }
        }
    }
}

proof fn lemma_newline_count_nonneg(t: Seq<char>)
    ensures
        0 <= newline_count(t),
    decreases t.len(),
{
    if t.len() > 0 {
        lemma_newline_count_nonneg(t.drop_last());
    }
}

// ---- characters and whitespace ----

pub open spec fn starts_with(s: Seq<char>, p: int, t: Seq<char>) -> bool {
    0 <= p && p + t.len() <= s.len() && s.subrange(p, p + t.len()) == t
}

pub open spec fn char_at(s: Seq<char>, p: int) -> Option<char> {
    if 0 <= p < s.len() {
        Some(s[p])
    } else {
        None
    }
}

/// End of a line comment whose text starts at `p`: the next line feed or the end.
pub open spec fn line_comment_end(s: Seq<char>, p: int) -> int
    decreases s.len() - p,
{
    if 0 <= p < s.len() && s[p] != '\n' {
        line_comment_end(s, p + 1)
    } else {
        p
    }
}

/// End of a block comment whose text starts at `p`: just after `*/`, or the end.
pub open spec fn block_comment_end(s: Seq<char>, p: int) -> int
    decreases s.len() - p,
{
    if p >= s.len() || p < 0 {
        p
    } else if starts_with(s, p, seq!['*', '/']) {
        p + 2
    } else {
        block_comment_end(s, p + 1)
    }
}

pub proof fn lemma_line_comment_end(s: Seq<char>, p: int)
    requires
        0 <= p <= s.len(),
    ensures
        p <= line_comment_end(s, p) <= s.len(),
    decreases s.len() - p,
{
    if p < s.len() && s[p] != '\n' {
        lemma_line_comment_end(s, p + 1);
    }
}

pub proof fn lemma_block_comment_end(s: Seq<char>, p: int)
    requires
        0 <= p <= s.len(),
    ensures
        p <= block_comment_end(s, p) <= s.len(),
    decreases s.len() - p,
{
    if p < s.len() && !starts_with(s, p, seq!['*', '/']) {
        lemma_block_comment_end(s, p + 1);
    }
}

/// Where the parser stops when it skips whitespace and comments from `p`.
pub open spec fn ws(s: Seq<char>, p: int) -> int
    decreases s.len() - p,
{
    if 0 <= p < s.len() && is_ws_char(s[p]) {
        ws(s, p + 1)
    } else if starts_with(s, p, seq!['/', '/']) {
        proof {
            lemma_line_comment_end(s, p + 2);
        }
        ws(s, line_comment_end(s, p + 2))
    } else if starts_with(s, p, seq!['/', '*']) {
        proof {
            lemma_block_comment_end(s, p + 2);
        }
        ws(s, block_comment_end(s, p + 2))
    } else {
        p
    }
}

pub proof fn lemma_ws(s: Seq<char>, p: int)
    requires
        0 <= p <= s.len(),
    ensures
        p <= ws(s, p) <= s.len(),
        ws(s, ws(s, p)) == ws(s, p),
        ws(s, p) < s.len() ==> !is_ws_char(s[ws(s, p)]),
        !starts_with(s, ws(s, p), seq!['/', '/']),
        !starts_with(s, ws(s, p), seq!['/', '*']),
    decreases s.len() - p,
{
    if 0 <= p < s.len() && is_ws_char(s[p]) {
        lemma_ws(s, p + 1);
    } else if starts_with(s, p, seq!['/', '/']) {
        lemma_line_comment_end(s, p + 2);
        lemma_ws(s, line_comment_end(s, p + 2));
    } else if starts_with(s, p, seq!['/', '*']) {
        lemma_block_comment_end(s, p + 2);
        lemma_ws(s, block_comment_end(s, p + 2));
    }
}

// ---- tokens ----

/// `try_char`: after whitespace, consume `c` if it is next.
pub open spec fn try_char(s: Seq<char>, p: int, c: char) -> (bool, int) {
    let q = ws(s, p);
    if char_at(s, q) == Some(c) {
        (true, q + 1)
    } else {
        (false, q)
    }
}

/// `try_str`: after whitespace, consume `t` if it comes next.
pub open spec fn try_str(s: Seq<char>, p: int, t: Seq<char>) -> (bool, int) {
    let q = ws(s, p);
    if starts_with(s, q, t) {
        (true, q + t.len())
    } else {
        (false, q)
    }
}

/// Whether keyword `kw` stands at `q`: its letters, then no identifier character.
pub open spec fn keyword_at(s: Seq<char>, q: int, kw: Seq<char>) -> bool {
    &&& starts_with(s, q, kw)
    &&& !(q + kw.len() < s.len() && is_ident_char(s[q + kw.len()]))
}

/// `try_keyword`: after whitespace, consume keyword `kw` if it comes next.
pub open spec fn try_keyword(s: Seq<char>, p: int, kw: Seq<char>) -> (bool, int) {
    let q = ws(s, p);
    if keyword_at(s, q, kw) {
        (true, q + kw.len())
    } else {
        (false, q)
    }
}

pub open spec fn expected_char_msg(c: char, found: Option<char>) -> Seq<char> {
    match found {
        Some(ch) => "expected '"@ + seq![c] + "', found '"@ + seq![ch] + "'"@,
        None => "expected '"@ + seq![c] + "', found end of input"@,
    }
}

/// `expect_char`: after whitespace, `c` must come next.
pub open spec fn expect_char(s: Seq<char>, p: int, c: char) -> PRes<()> {
    let q = ws(s, p);
    if char_at(s, q) == Some(c) {
        Ok(((), q + 1))
    } else {
        err(q, expected_char_msg(c, char_at(s, q)))
    }
}

/// `expect_keyword`: after whitespace, keyword `kw` must come next.
pub open spec fn expect_keyword(s: Seq<char>, p: int, kw: Seq<char>) -> PRes<()> {
    let q = ws(s, p);
    if keyword_at(s, q, kw) {
        Ok(((), q + kw.len()))
    } else {
        err(q, "expected keyword '"@ + kw + "'"@)
    }
}

// ---- identifiers, numbers, strings ----

pub open spec fn ident_end(s: Seq<char>, p: int) -> int
    decreases s.len() - p,
{
    if 0 <= p < s.len() && is_ident_char(s[p]) {
        ident_end(s, p + 1)
    } else {
        p
    }
}

pub open spec fn digits_end(s: Seq<char>, p: int) -> int
    decreases s.len() - p,
{
    if 0 <= p < s.len() && is_digit_char(s[p]) {
        digits_end(s, p + 1)
    } else {
        p
    }
}

/// The reserved keywords, which can never be identifiers.
pub open spec fn is_reserved(name: Seq<char>) -> bool {
    ||| name == "module"@
    ||| name == "import"@
    ||| name == "new"@
    ||| name == "native"@
    ||| name == "this"@
    ||| name == "return"@
    ||| name == "break"@
    ||| name == "continue"@
    ||| name == "if"@
    ||| name == "else"@
    ||| name == "while"@
    ||| name == "for"@
    ||| name == "true"@
    ||| name == "false"@
    ||| name == "try"@
    ||| name == "catch"@
    ||| name == "undef"@
    ||| name == "throw"@
    ||| name == "fork"@
    ||| name == "global"@
}

/// An identifier: a letter or `_`, then letters, digits and `_`; never a
/// reserved keyword.
pub open spec fn identifier(s: Seq<char>, p: int) -> PRes<Seq<char>> {
    let q = ws(s, p);
    if 0 <= q < s.len() && is_ident_start_char(s[q]) {
        let e = ident_end(s, q + 1);
        let name = s.subrange(q, e);
        if is_reserved(name) {
            err(e, "'"@ + name + "' is a reserved keyword"@)
        } else {
            Ok((name, e))
        }
    } else {
        err(q, "expected identifier"@)
    }
}

pub open spec fn constant(value: i32, label: Seq<char>, string: Option<Seq<char>>) -> ExpressionModel {
    ExpressionModel::Constant { value, type_label: label, string }
}

/// An integer literal: an optional `-` and decimal digits; its value must fit in `i32`.
pub open spec fn number(s: Seq<char>, p: int) -> PRes<ExpressionModel> {
    let q = ws(s, p);
    let r = if char_at(s, q) == Some('-') { q + 1 } else { q };
    if 0 <= r < s.len() && is_digit_char(s[r]) {
        let e = digits_end(s, r + 1);
        let v = numeral_value(s.subrange(q, e));
        if i32::MIN <= v <= i32::MAX {
            Ok((constant(v as i32, "Number"@, None), e))
        } else {
            Err(PErr { pos: e, msg: ErrMsg::Unstated })
        }
    } else {
        err(r, "expected digit"@)
    }
}

/// What an escape `\c` inside a string literal stands for.
pub open spec fn escape_text(c: char) -> Seq<char> {
    if c == 'n' {
        seq!['\n']
    } else if c == 'r' {
        seq!['\r']
    } else if c == 't' {
        seq!['\t']
    } else if c == '\\' {
        seq!['\\']
    } else if c == '"' {
        seq!['"']
    } else {
        seq!['\\', c]
    }
}

/// A backslash escape in a string literal stands for one character: `\n` a line feed,
/// `\r` a carriage return, `\t` a tab, `\\` a backslash and `\"` a quote. After any other
/// character the backslash stays, followed by that character.
pub proof fn lemma_escapes(c: char)
    ensures
        c == 'n' ==> escape_text(c) == seq!['\x0A'],
        c == 'r' ==> escape_text(c) == seq!['\x0D'],
        c == 't' ==> escape_text(c) == seq!['\x09'],
        c == '\\' ==> escape_text(c) == seq!['\x5C'],
        c == '"' ==> escape_text(c) == seq!['\x22'],
        escape_text(c).len() == 1 <==> (c == 'n' || c == 'r' || c == 't' || c == '\\' || c == '"'),
        !(c == 'n' || c == 'r' || c == 't' || c == '\\' || c == '"') ==> escape_text(c) == seq!['\x5C', c],
{
}

/// The rest of a string literal from `p`, with the text `acc` read so far.
pub open spec fn string_body(s: Seq<char>, p: int, acc: Seq<char>) -> PRes<Seq<char>>
    decreases s.len() - p,
{
    if p < 0 || p >= s.len() {
        err(p, "unterminated string literal"@)
    } else if s[p] == '"' {
        Ok((acc, p + 1))
    } else if s[p] == '\\' {
        if p + 1 >= s.len() {
            err(p + 1, "unterminated escape in string"@)
        } else {
            string_body(s, p + 2, acc + escape_text(s[p + 1]))
        }
    } else {
        string_body(s, p + 1, acc.push(s[p]))
    }
}

/// A string literal between double quotes.
pub open spec fn string_literal(s: Seq<char>, p: int) -> PRes<ExpressionModel> {
    let q = ws(s, p);
    match expect_char(s, q, '"') {
        Ok((_, p1)) => match string_body(s, p1, Seq::empty()) {
            Ok((text, p2)) => Ok((constant(0, "String"@, Some(text)), p2)),
            Err(e) => Err(e),
        },
        Err(e) => Err(e),
    }
}


// ---- grammar ----
//
// Each function below stands for one parsing routine. Every recursive call is
// made either at a later offset or, at the same offset, to a routine of lower
// rank (the second `decreases` component). Offsets that routines return are
// checked to move forward (`adv`); they always do, and the exec routines prove it.

/// `b` is an offset at or after `a` within `s`.
pub open spec fn adv(s: Seq<char>, a: int, b: int) -> bool {
    a <= b && b <= s.len()
}

/// The result of a path that no parse reaches (offsets never move backwards).
pub open spec fn stuck<T>() -> PRes<T> {
    err(-1, Seq::empty())
}

pub open spec fn boxed(e: ExpressionModel) -> Box<ExpressionModel> {
    Box::new(e)
}

/// Attach `parent` as the innermost `field` of a reference chain.
pub open spec fn set_deepest(e: ExpressionModel, parent: ExpressionModel) -> ExpressionModel
    decreases e,
{
    match e {
        ExpressionModel::Variable { name, field } => match field {
            Some(inner) => ExpressionModel::Variable {
                name,
                field: Some(Box::new(set_deepest(*inner, parent))),
            },
            None => ExpressionModel::Variable { name, field: Some(Box::new(parent)) },
        },
        ExpressionModel::This { field } => match field {
            Some(inner) => ExpressionModel::This { field: Some(Box::new(set_deepest(*inner, parent))) },
            None => ExpressionModel::This { field: Some(Box::new(parent)) },
        },
        _ => e,
    }
}

/// A reference: `this` or an identifier, then optionally `.` and a further
/// reference; `a.b.c` reads as `c` whose field is `b` whose field is `a`.
#[verifier::opaque]
pub open spec fn reference(s: Seq<char>, p: int) -> PRes<ExpressionModel>
    decreases s.len() - p, 1int when 0 <= p <= s.len()
{
    proof {
        lemma_ws(s, p);
        lemma_ws(s, ws(s, p));
        reveal_strlit("this");
    }
    let q = ws(s, p);
    let (is_this, q1) = try_keyword(s, q, "this"@);
    let base = if is_this {
        Ok((ExpressionModel::This { field: None }, q1))
    } else {
        match identifier(s, q1) {
            Ok((name, e)) => Ok((ExpressionModel::Variable { name, field: None }, e)),
            Err(e) => Err(e),
        }
    };
    match base {
        Ok((b, p2)) => if !adv(s, q, p2) {
            stuck()
        } else {
            dotted_reference(s, p2, b)
        },
        Err(e) => Err(e),
    }
}

pub proof fn lemma_reference_ws(s: Seq<char>, p: int)
    requires
        0 <= p <= s.len(),
    ensures
        reference(s, ws(s, p)) == reference(s, p),
{
    reveal(reference);
    lemma_ws(s, p);
}

/// After the first name of a reference: `.` and the rest of the chain, or nothing.
#[verifier::opaque]
pub open spec fn dotted_reference(s: Seq<char>, p: int, base: ExpressionModel) -> PRes<ExpressionModel>
    decreases s.len() - p, 0int when 0 <= p <= s.len()
{
    proof {
        lemma_ws(s, p);
    }
    let (dot, p3) = try_char(s, p, '.');
    if dot {
        match reference(s, p3) {
            Ok((sub, p4)) => Ok((set_deepest(sub, base), p4)),
            Err(e) => Err(e),
        }
    } else {
        Ok((base, p))
    }
}

/// Where the parenthesis matching an already open one (`depth` deep) closes:
/// the offset just after it, or `None` at the end of the text.
pub open spec fn paren_scan(s: Seq<char>, p: int, depth: int) -> Option<int>
    decreases s.len() - p,
{
    if depth <= 0 {
        Some(p)
    } else if p < 0 || p >= s.len() {
        None
    } else if s[p] == '(' {
        paren_scan(s, p + 1, depth + 1)
    } else if s[p] == ')' {
        paren_scan(s, p + 1, depth - 1)
    } else {
        paren_scan(s, p + 1, depth)
    }
}

/// Whether a function definition `( ... ) ->` starts after the whitespace at `p`.
pub open spec fn is_function_definition(s: Seq<char>, p: int) -> bool {
    let q = ws(s, p);
    if char_at(s, q) != Some('(') {
        false
    } else {
        match paren_scan(s, q + 1, 1) {
            Some(r) => starts_with(s, ws(s, r), seq!['-', '>']),
            None => false,
        }
    }
}

/// `try_assignment_operator`: one of `+=`, `-=`, `*=`, `/=`, or a `=` that
/// is not part of `==` or `=>`.
pub open spec fn assignment_operator(s: Seq<char>, p: int) -> (Option<Seq<char>>, int) {
    let q = ws(s, p);
    let (b1, q1) = try_str(s, q, "+="@);
    if b1 {
        (Some("+="@), q1)
    } else {
        let (b2, q2) = try_str(s, q1, "-="@);
        if b2 {
            (Some("-="@), q2)
        } else {
            let (b3, q3) = try_str(s, q2, "*="@);
            if b3 {
                (Some("*="@), q3)
            } else {
                let (b4, q4) = try_str(s, q3, "/="@);
                if b4 {
                    (Some("/="@), q4)
                } else if char_at(s, q4) == Some('=') && char_at(s, q4 + 1) != Some('=')
                    && char_at(s, q4 + 1) != Some('>') {
                    (Some("="@), q4 + 1)
                } else {
                    (None, q)
                }
            }
        }
    }
}

#[verifier::opaque]
pub open spec fn identifiers_rest(s: Seq<char>, p: int, acc: Seq<Seq<char>>) -> PRes<Seq<Seq<char>>>
    decreases s.len() - p when 0 <= p <= s.len()
{
    proof {
        lemma_ws(s, p);
    }
    let (comma, p1) = try_char(s, p, ',');
    if comma {
        match identifier(s, p1) {
            Ok((name, p2)) => if !adv(s, p1, p2) {
                stuck()
            } else {
                identifiers_rest(s, p2, acc.push(name))
            },
            Err(e) => Err(e),
        }
    } else {
        Ok((acc, p1))
    }
}

#[verifier::opaque]
pub open spec fn statements_until(s: Seq<char>, p: int, term: char, acc: Seq<StatementModel>) -> PRes<Seq<StatementModel>>
    decreases s.len() - p, 90int when 0 <= p <= s.len()
{
    if char_at(s, p) == Some(term) || p >= s.len() {
        Ok((acc, p))
    } else {
        match statement(s, p) {
            Ok((st, p2)) => if !(p < p2 <= s.len()) {
                stuck()
            } else {
                proof {
                    lemma_ws(s, p2);
                    lemma_ws(s, try_char(s, p2, ';').1);
                }
                statements_until(s, ws(s, try_char(s, p2, ';').1), term, acc.push(st))
            },
            Err(e) => Err(e),
        }
    }
}

#[verifier::opaque]
pub open spec fn try_catch_statement(s: Seq<char>, p: int, pos: Position) -> PRes<StatementModel>
    decreases s.len() - p, 90int when 0 <= p <= s.len()
{
    match statement(s, p) {
        Ok((try_block, p1)) => if !adv(s, p, p1) {
            stuck()
        } else {
            match expect_keyword(s, p1, "catch"@) {
                Ok((_, p2)) => match expect_char(s, p2, '(') {
                    Ok((_, p3)) => match identifier(s, p3) {
                        Ok((catch_var, p4)) => match expect_char(s, p4, ')') {
                            Ok((_, p5)) => if !adv(s, p, p5) {
                                stuck()
                            } else {
                                match statement(s, p5) {
                                    Ok((catch_block, p6)) => Ok((
                                        StatementModel::TryCatch {
                                            try_block: Box::new(try_block),
                                            catch_var,
                                            catch_block: Box::new(catch_block),
                                            pos,
                                        },
                                        p6,
                                    )),
                                    Err(e) => Err(e),
                                }
                            },
                            Err(e) => Err(e),
                        },
                        Err(e) => Err(e),
                    },
                    Err(e) => Err(e),
                },
                Err(e) => Err(e),
            }
        },
        Err(e) => Err(e),
    }
}

#[verifier::opaque]
pub open spec fn statement(s: Seq<char>, p: int) -> PRes<StatementModel>
    decreases s.len() - p, 80int when 0 <= p <= s.len()
{
    proof {
        lemma_ws(s, p);
    }
    let q = ws(s, p);
    let pos = position_at(s, q);
    if char_at(s, q) == Some('{') {
        scope_statement(s, q)
    } else {
        let (b1, q1) = try_keyword(s, q, "return"@);
        if b1 {
            return_statement(s, q1, pos)
        } else {
            let (b2, q2) = try_keyword(s, q1, "for"@);
            if b2 {
                for_statement(s, q2, pos)
            } else {
                let (b3, q3) = try_keyword(s, q2, "while"@);
                if b3 {
                    while_statement(s, q3, pos)
                } else {
                    let (b4, q4) = try_keyword(s, q3, "if"@);
                    if b4 {
                        if_statement(s, q4, pos)
                    } else {
                        let (b5, q5) = try_keyword(s, q4, "try"@);
                        if b5 {
                            proof {
                                reveal_strlit("try");
                            }
                            try_catch_statement(s, q5, pos)
                        } else {
                            let (b6, q6) = try_keyword(s, q5, "break"@);
                            if b6 {
                                Ok((StatementModel::Break(pos), q6))
                            } else {
                                let (b7, q7) = try_keyword(s, q6, "continue"@);
                                if b7 {
                                    Ok((StatementModel::Continue(pos), q7))
                                } else {
                                    let (b8, q8) = try_keyword(s, q7, "throw"@);
                                    if b8 {
                                        match expression(s, q8) {
                                            Ok((e, p9)) => Ok((StatementModel::Throw { exception: e, pos }, p9)),
                                            Err(e) => Err(e),
                                        }
                                    } else {
                                        match expression(s, q8) {
                                            Ok((e, p9)) => Ok((StatementModel::Expression(e, pos), p9)),
                                            Err(e) => Err(e),
                                        }
                                    }
                                }
                            }
                        }
                    }
                }
            }
        }
    }
}

#[verifier::opaque]
pub open spec fn scope_statement(s: Seq<char>, p: int) -> PRes<StatementModel>
    decreases s.len() - p, 70int when 0 <= p <= s.len()
{
    let pos = position_at(s, p);
    match expect_char(s, p, '{') {
        Ok((_, p1)) => {
            proof {
                lemma_ws(s, p);
                lemma_ws(s, p1);
            }
            match statements_until(s, ws(s, p1), '}', Seq::empty()) {
                Ok((stmts, p2)) => match expect_char(s, p2, '}') {
                    Ok((_, p3)) => Ok((StatementModel::Scope { statements: stmts, pos }, p3)),
                    Err(e) => Err(e),
                },
                Err(e) => Err(e),
            }
        },
        Err(e) => Err(e),
    }
}

#[verifier::opaque]
pub open spec fn return_statement(s: Seq<char>, p: int, pos: Position) -> PRes<StatementModel>
    decreases s.len() - p, 60int when 0 <= p <= s.len()
{
    proof {
        lemma_ws(s, p);
    }
    let q = ws(s, p);
    if q >= s.len() || char_at(s, q) == Some('}') || char_at(s, q) == Some(';') {
        Ok((StatementModel::Return { value: None, pos }, q))
    } else {
        match expression(s, q) {
            Ok((e, p1)) => Ok((StatementModel::Return { value: Some(e), pos }, p1)),
            Err(e) => Err(e),
        }
    }
}

#[verifier::opaque]
pub open spec fn for_statement(s: Seq<char>, p: int, pos: Position) -> PRes<StatementModel>
    decreases s.len() - p, 60int when 0 <= p <= s.len()
{
    proof {
        lemma_ws(s, p);
    }
    match expect_char(s, p, '(') {
        Ok((_, p1)) => match expression(s, p1) {
            Ok((init, p2)) => if !adv(s, p1, p2) {
                stuck()
            } else {
                proof {
                    lemma_ws(s, p2);
                }
                match expect_char(s, p2, ';') {
                    Ok((_, p3)) => match expression(s, p3) {
                        Ok((condition, p4)) => if !adv(s, p3, p4) {
                            stuck()
                        } else {
                            proof {
                                lemma_ws(s, p4);
                            }
                            match expect_char(s, p4, ';') {
                                Ok((_, p5)) => match expression(s, p5) {
                                    Ok((update, p6)) => if !adv(s, p5, p6) {
                                        stuck()
                                    } else {
                                        proof {
                                            lemma_ws(s, p6);
                                        }
                                        match expect_char(s, p6, ')') {
                                            Ok((_, p7)) => match statement(s, p7) {
                                                Ok((body, p8)) => Ok((
                                                    StatementModel::For {
                                                        init,
                                                        condition,
                                                        update,
                                                        body: Box::new(body),
                                                        pos,
                                                    },
                                                    p8,
                                                )),
                                                Err(e) => Err(e),
                                            },
                                            Err(e) => Err(e),
                                        }
                                    },
                                    Err(e) => Err(e),
                                },
                                Err(e) => Err(e),
                            }
                        },
                        Err(e) => Err(e),
                    },
                    Err(e) => Err(e),
                }
            },
            Err(e) => Err(e),
        },
        Err(e) => Err(e),
    }
}

#[verifier::opaque]
pub open spec fn while_statement(s: Seq<char>, p: int, pos: Position) -> PRes<StatementModel>
    decreases s.len() - p, 60int when 0 <= p <= s.len()
{
    proof {
        lemma_ws(s, p);
    }
    match expect_char(s, p, '(') {
        Ok((_, p1)) => match expression(s, p1) {
            Ok((condition, p2)) => if !adv(s, p1, p2) {
                stuck()
            } else {
                proof {
                    lemma_ws(s, p2);
                }
                match expect_char(s, p2, ')') {
                    Ok((_, p3)) => match statement(s, p3) {
                        Ok((body, p4)) => Ok((
                            StatementModel::While { condition, body: Box::new(body), pos },
                            p4,
                        )),
                        Err(e) => Err(e),
                    },
                    Err(e) => Err(e),
                }
            },
            Err(e) => Err(e),
        },
        Err(e) => Err(e),
    }
}

#[verifier::opaque]
pub open spec fn if_statement(s: Seq<char>, p: int, pos: Position) -> PRes<StatementModel>
    decreases s.len() - p, 60int when 0 <= p <= s.len()
{
    proof {
        lemma_ws(s, p);
    }
    match expect_char(s, p, '(') {
        Ok((_, p1)) => match expression(s, p1) {
            Ok((condition, p2)) => if !adv(s, p1, p2) {
                stuck()
            } else {
                proof {
                    lemma_ws(s, p2);
                }
                match expect_char(s, p2, ')') {
                    Ok((_, p3)) => match statement(s, p3) {
                        Ok((then_clause, p4)) => if !adv(s, p3, p4) {
                            stuck()
                        } else {
                            proof {
                                lemma_ws(s, p4);
                            }
                            let (has_else, p5) = try_keyword(s, p4, "else"@);
                            if has_else {
                                match statement(s, p5) {
                                    Ok((else_clause, p6)) => Ok((
                                        StatementModel::If {
                                            condition,
                                            then_clause: Box::new(then_clause),
                                            else_clause: Some(Box::new(else_clause)),
                                            pos,
                                        },
                                        p6,
                                    )),
                                    Err(e) => Err(e),
                                }
                            } else {
                                Ok((
                                    StatementModel::If {
                                        condition,
                                        then_clause: Box::new(then_clause),
                                        else_clause: None,
                                        pos,
                                    },
                                    p5,
                                ))
                            }
                        },
                        Err(e) => Err(e),
                    },
                    Err(e) => Err(e),
                }
            },
            Err(e) => Err(e),
        },
        Err(e) => Err(e),
    }
}

// ---- expressions ----

#[verifier::opaque]
pub open spec fn expression(s: Seq<char>, p: int) -> PRes<ExpressionModel>
    decreases s.len() - p, 50int when 0 <= p <= s.len()
{
    match conditional(s, p) {
        Ok((left, p1)) => if !adv(s, p, p1) {
            stuck()
        } else {
            expression_rest(s, p1, left)
        },
        Err(e) => Err(e),
    }
}

#[verifier::opaque]
pub open spec fn expression_rest(s: Seq<char>, p: int, left: ExpressionModel) -> PRes<ExpressionModel>
    decreases s.len() - p, 49int when 0 <= p <= s.len()
{
    proof {
        lemma_ws(s, p);
        lemma_ws(s, ws(s, p));
    }
    let (op, p1) = assignment_operator(s, ws(s, p));
    match op {
        Some(o) => if !(p < p1 <= s.len()) {
            stuck()
        } else {
            match conditional(s, p1) {
                Ok((right, p2)) => if !adv(s, p1, p2) {
                    stuck()
                } else {
                    expression_rest(
                        s,
                        p2,
                        ExpressionModel::Assignment {
                            variable: Box::new(left),
                            operator: if o == "="@ {
                                None
                            } else {
                                Some(o)
                            },
                            value: Box::new(right),
                        },
                    )
                },
                Err(e) => Err(e),
            }
        },
        None => Ok((left, p1)),
    }
}

#[verifier::opaque]
pub open spec fn conditional(s: Seq<char>, p: int) -> PRes<ExpressionModel>
    decreases s.len() - p, 48int when 0 <= p <= s.len()
{
    match or_expression(s, p) {
        Ok((e, p1)) => if !adv(s, p, p1) {
            stuck()
        } else {
            conditional_rest(s, p1, e)
        },
        Err(e) => Err(e),
    }
}

#[verifier::opaque]
pub open spec fn conditional_rest(s: Seq<char>, p: int, expr: ExpressionModel) -> PRes<ExpressionModel>
    decreases s.len() - p, 47int when 0 <= p <= s.len()
{
    proof {
        lemma_ws(s, p);
        lemma_ws(s, ws(s, p));
    }
    let (question, p1) = try_char(s, ws(s, p), '?');
    if question {
        match expression(s, p1) {
            Ok((positive, p2)) => if !adv(s, p1, p2) {
                stuck()
            } else {
                proof {
                    lemma_ws(s, p2);
                }
                match expect_char(s, p2, ':') {
                    Ok((_, p3)) => match or_expression(s, p3) {
                        Ok((negative, p4)) => if !adv(s, p3, p4) {
                            stuck()
                        } else {
                            conditional_rest(
                                s,
                                p4,
                                ExpressionModel::Conditional {
                                    condition: Box::new(expr),
                                    positive: Box::new(positive),
                                    negative: Box::new(negative),
                                },
                            )
                        },
                        Err(e) => Err(e),
                    },
                    Err(e) => Err(e),
                }
            },
            Err(e) => Err(e),
        }
    } else {
        Ok((expr, p1))
    }
}

#[verifier::opaque]
pub open spec fn or_expression(s: Seq<char>, p: int) -> PRes<ExpressionModel>
    decreases s.len() - p, 46int when 0 <= p <= s.len()
{
    match and_expression(s, p) {
        Ok((e, p1)) => if !adv(s, p, p1) {
            stuck()
        } else {
            or_rest(s, p1, e)
        },
        Err(e) => Err(e),
    }
}

#[verifier::opaque]
pub open spec fn or_rest(s: Seq<char>, p: int, left: ExpressionModel) -> PRes<ExpressionModel>
    decreases s.len() - p, 45int when 0 <= p <= s.len()
{
    proof {
        lemma_ws(s, p);
        lemma_ws(s, ws(s, p));
    }
    let (found, p1) = try_str(s, ws(s, p), "||"@);
    if found && p1 > p {
        match and_expression(s, p1) {
            Ok((right, p2)) => if !adv(s, p1, p2) {
                stuck()
            } else {
                or_rest(s, p2, ExpressionModel::Or(Box::new(left), Box::new(right)))
            },
            Err(e) => Err(e),
        }
    } else {
        Ok((left, p1))
    }
}

#[verifier::opaque]
pub open spec fn and_expression(s: Seq<char>, p: int) -> PRes<ExpressionModel>
    decreases s.len() - p, 44int when 0 <= p <= s.len()
{
    match equality(s, p) {
        Ok((e, p1)) => if !adv(s, p, p1) {
            stuck()
        } else {
            and_rest(s, p1, e)
        },
        Err(e) => Err(e),
    }
}

#[verifier::opaque]
pub open spec fn and_rest(s: Seq<char>, p: int, left: ExpressionModel) -> PRes<ExpressionModel>
    decreases s.len() - p, 43int when 0 <= p <= s.len()
{
    proof {
        lemma_ws(s, p);
        lemma_ws(s, ws(s, p));
    }
    let (found, p1) = try_str(s, ws(s, p), "&&"@);
    if found && p1 > p {
        match equality(s, p1) {
            Ok((right, p2)) => if !adv(s, p1, p2) {
                stuck()
            } else {
                and_rest(s, p2, ExpressionModel::And(Box::new(left), Box::new(right)))
            },
            Err(e) => Err(e),
        }
    } else {
        Ok((left, p1))
    }
}

#[verifier::opaque]
pub open spec fn equality(s: Seq<char>, p: int) -> PRes<ExpressionModel>
    decreases s.len() - p, 42int when 0 <= p <= s.len()
{
    match relational(s, p) {
        Ok((e, p1)) => if !adv(s, p, p1) {
            stuck()
        } else {
            equality_rest(s, p1, e)
        },
        Err(e) => Err(e),
    }
}

#[verifier::opaque]
pub open spec fn equality_rest(s: Seq<char>, p: int, left: ExpressionModel) -> PRes<ExpressionModel>
    decreases s.len() - p, 41int when 0 <= p <= s.len()
{
    proof {
        lemma_ws(s, p);
        lemma_ws(s, ws(s, p));
    }
    let q = ws(s, p);
    let (eq, p1) = try_str(s, q, "=="@);
    let (ne, p2) = try_str(s, p1, "!="@);
    let op = if eq { "=="@ } else { "!="@ };
    let next = if eq { p1 } else { p2 };
    if (eq || ne) && next > p {
        match relational(s, next) {
            Ok((right, p3)) => if !adv(s, next, p3) {
                stuck()
            } else {
                equality_rest(s, p3, ExpressionModel::Equality(Box::new(left), op, Box::new(right)))
            },
            Err(e) => Err(e),
        }
    } else {
        Ok((left, q))
    }
}

#[verifier::opaque]
pub open spec fn relational(s: Seq<char>, p: int) -> PRes<ExpressionModel>
    decreases s.len() - p, 40int when 0 <= p <= s.len()
{
    match additive(s, p) {
        Ok((e, p1)) => if !adv(s, p, p1) {
            stuck()
        } else {
            relational_rest(s, p1, e)
        },
        Err(e) => Err(e),
    }
}

/// The relational operator that comes next after whitespace (`<=`, `>=`, `<`
/// or `>`) and the offset after it.
pub open spec fn relational_operator(s: Seq<char>, p: int) -> Option<(Seq<char>, int)> {
    let q = ws(s, p);
    let (le, p1) = try_str(s, q, "<="@);
    let (ge, p2) = try_str(s, p1, ">="@);
    if le {
        Some(("<="@, p1))
    } else if ge {
        Some((">="@, p2))
    } else if char_at(s, p2) == Some('<') {
        Some(("<"@, p2 + 1))
    } else if char_at(s, p2) == Some('>') {
        Some((">"@, p2 + 1))
    } else {
        None
    }
}

#[verifier::opaque]
pub open spec fn relational_rest(s: Seq<char>, p: int, left: ExpressionModel) -> PRes<ExpressionModel>
    decreases s.len() - p, 39int when 0 <= p <= s.len()
{
    proof {
        lemma_ws(s, p);
        lemma_ws(s, ws(s, p));
    }
    match relational_operator(s, p) {
        Some((op, next)) => if !(p < next <= s.len()) {
            stuck()
        } else {
            match additive(s, next) {
                Ok((right, p3)) => if !adv(s, next, p3) {
                    stuck()
                } else {
                    relational_rest(s, p3, ExpressionModel::Relational(Box::new(left), op, Box::new(right)))
                },
                Err(e) => Err(e),
            }
        },
        None => Ok((left, ws(s, p))),
    }
}

#[verifier::opaque]
pub open spec fn additive(s: Seq<char>, p: int) -> PRes<ExpressionModel>
    decreases s.len() - p, 38int when 0 <= p <= s.len()
{
    match multiplicative(s, p) {
        Ok((e, p1)) => if !adv(s, p, p1) {
            stuck()
        } else {
            additive_rest(s, p1, e)
        },
        Err(e) => Err(e),
    }
}

/// `+` not followed by `+` or `=`, or `-` not followed by `-`, `>` or `=`.
pub open spec fn additive_operator(s: Seq<char>, q: int) -> Option<Seq<char>> {
    if char_at(s, q) == Some('+') && char_at(s, q + 1) != Some('+') && char_at(s, q + 1) != Some('=') {
        Some("+"@)
    } else if char_at(s, q) == Some('-') && char_at(s, q + 1) != Some('-') && char_at(s, q + 1)
        != Some('>') && char_at(s, q + 1) != Some('=') {
        Some("-"@)
    } else {
        None
    }
}

#[verifier::opaque]
pub open spec fn additive_rest(s: Seq<char>, p: int, left: ExpressionModel) -> PRes<ExpressionModel>
    decreases s.len() - p, 37int when 0 <= p <= s.len()
{
    proof {
        lemma_ws(s, p);
    }
    let q = ws(s, p);
    match additive_operator(s, q) {
        Some(op) => match multiplicative(s, q + 1) {
            Ok((right, p2)) => if !adv(s, q + 1, p2) {
                stuck()
            } else {
                additive_rest(s, p2, ExpressionModel::Additive(Box::new(left), op, Box::new(right)))
            },
            Err(e) => Err(e),
        },
        None => Ok((left, q)),
    }
}

#[verifier::opaque]
pub open spec fn multiplicative(s: Seq<char>, p: int) -> PRes<ExpressionModel>
    decreases s.len() - p, 36int when 0 <= p <= s.len()
{
    match unary(s, p) {
        Ok((e, p1)) => if !adv(s, p, p1) {
            stuck()
        } else {
            multiplicative_rest(s, p1, e)
        },
        Err(e) => Err(e),
    }
}

/// `*` not followed by `=`; `/` not followed by `=`, `/` or `*`; or `%`.
pub open spec fn multiplicative_operator(s: Seq<char>, q: int) -> Option<Seq<char>> {
    if char_at(s, q) == Some('*') && char_at(s, q + 1) != Some('=') {
        Some("*"@)
    } else if char_at(s, q) == Some('/') && char_at(s, q + 1) != Some('=') && char_at(s, q + 1)
        != Some('/') && char_at(s, q + 1) != Some('*') {
        Some("/"@)
    } else if char_at(s, q) == Some('%') {
        Some("%"@)
    } else {
        None
    }
}

#[verifier::opaque]
pub open spec fn multiplicative_rest(s: Seq<char>, p: int, left: ExpressionModel) -> PRes<ExpressionModel>
    decreases s.len() - p, 35int when 0 <= p <= s.len()
{
    proof {
        lemma_ws(s, p);
    }
    let q = ws(s, p);
    match multiplicative_operator(s, q) {
        Some(op) => match unary(s, q + 1) {
            Ok((right, p2)) => if !adv(s, q + 1, p2) {
                stuck()
            } else {
                multiplicative_rest(s, p2, ExpressionModel::Multiplicative(Box::new(left), op, Box::new(right)))
            },
            Err(e) => Err(e),
        },
        None => Ok((left, q)),
    }
}

#[verifier::opaque]
pub open spec fn unary(s: Seq<char>, p: int) -> PRes<ExpressionModel>
    decreases s.len() - p, 34int when 0 <= p <= s.len()
{
    proof {
        lemma_ws(s, p);
        lemma_ws(s, ws(s, p));
    }
    let (not, p1) = try_char(s, ws(s, p), '!');
    if not {
        match unary(s, p1) {
            Ok((e, p2)) => Ok((ExpressionModel::Not(Box::new(e)), p2)),
            Err(e) => Err(e),
        }
    } else {
        match reference(s, p1) {
            Ok((r, p2)) => if !(p < p2 <= s.len()) {
                stuck()
            } else {
                proof {
                    lemma_ws(s, p2);
                }
                let (inc, p3) = try_str(s, p2, "++"@);
                let (dec, p4) = try_str(s, p3, "--"@);
                if inc {
                    Ok((ExpressionModel::PostFixOperator { operator: "++"@, argument: Box::new(r) }, p3))
                } else if dec {
                    Ok((ExpressionModel::PostFixOperator { operator: "--"@, argument: Box::new(r) }, p4))
                } else {
                    let q5 = ws(s, p2);
                    if char_at(s, q5) == Some('[') || char_at(s, q5) == Some('(') {
                        match postfix_chain(s, q5, r, false) {
                            Ok((x, p6)) => Ok((x, p6)),
                            Err(_) => Ok((r, p2)),
                        }
                    } else {
                        Ok((r, q5))
                    }
                }
            },
            Err(_) => other_expression(s, p1),
        }
    }
}

/// The postfix references after `expr`: `[index]`, `(arguments)` and `.name`,
/// any number of them; at least one must come (`had` says whether one did).
#[verifier::opaque]
pub open spec fn postfix_chain(s: Seq<char>, p: int, expr: ExpressionModel, had: bool) -> PRes<ExpressionModel>
    decreases s.len() - p, 32int when 0 <= p <= s.len()
{
    proof {
        lemma_ws(s, p);
    }
    let q = ws(s, p);
    if char_at(s, q) == Some('[') {
        match expression(s, q + 1) {
            Ok((index, p1)) => if !adv(s, q + 1, p1) {
                stuck()
            } else {
                proof {
                    lemma_ws(s, p1);
                }
                match expect_char(s, p1, ']') {
                    Ok((_, p2)) => postfix_chain(
                        s,
                        p2,
                        ExpressionModel::ArrayReference { reference: Box::new(expr), index: Box::new(index) },
                        true,
                    ),
                    Err(e) => Err(e),
                }
            },
            Err(e) => Err(e),
        }
    } else if char_at(s, q) == Some('(') {
        match function_arguments(s, q + 1) {
            Ok((args, p1)) => if !adv(s, q + 1, p1) {
                stuck()
            } else {
                proof {
                    lemma_ws(s, p1);
                }
                match expect_char(s, p1, ')') {
                    Ok((_, p2)) => postfix_chain(
                        s,
                        p2,
                        ExpressionModel::FunctionCall { function: Box::new(expr), parameters: args, field: None },
                        true,
                    ),
                    Err(e) => Err(e),
                }
            },
            Err(e) => Err(e),
        }
    } else if char_at(s, q) == Some('.') {
        match reference(s, q + 1) {
            Ok((chain, p1)) => if !adv(s, q + 1, p1) {
                stuck()
            } else {
                postfix_chain(s, p1, set_deepest(chain, expr), true)
            },
            Err(_) => if had {
                Ok((expr, q))
            } else {
                err(q, "expected postfix reference"@)
            },
        }
    } else if had {
        Ok((expr, q))
    } else {
        err(q, "expected postfix reference"@)
    }
}

#[verifier::opaque]
pub open spec fn other_expression(s: Seq<char>, p: int) -> PRes<ExpressionModel>
    decreases s.len() - p, 33int when 0 <= p <= s.len()
{
    proof {
        lemma_ws(s, p);
        lemma_ws(s, ws(s, p));
    }
    let q = ws(s, p);
    let (is_new, q1) = try_keyword(s, q, "new"@);
    if is_new {
        new_expression(s, q1)
    } else if is_function_definition(s, q1) {
        function_definition(s, ws(s, q1))
    } else {
        let q2 = ws(s, q1);
        let (is_native, q3) = try_keyword(s, q2, "native"@);
        if is_native {
            native_function_call(s, q3)
        } else {
            let (is_fork, q4) = try_keyword(s, q3, "fork"@);
            if is_fork {
                match expect_char(s, q4, '(') {
                    Ok((_, q5)) => match expect_char(s, q5, ')') {
                        Ok((_, q6)) => Ok((ExpressionModel::Fork, q6)),
                        Err(e) => Err(e),
                    },
                    Err(e) => Err(e),
                }
            } else {
                let (is_true, q5) = try_keyword(s, q4, "true"@);
                if is_true {
                    Ok((constant(1, "Boolean"@, None), q5))
                } else {
                    let (is_false, q6) = try_keyword(s, q5, "false"@);
                    if is_false {
                        Ok((constant(0, "Boolean"@, None), q6))
                    } else {
                        let (is_undef, q7) = try_keyword(s, q6, "undef"@);
                        if is_undef {
                            Ok((constant(0, "Undefined"@, None), q7))
                        } else if 0 <= q7 < s.len() && is_digit_char(s[q7]) {
                            number(s, q7)
                        } else if char_at(s, q7) == Some('"') {
                            string_literal(s, q7)
                        } else {
                            reference(s, q7)
                        }
                    }
                }
            }
        }
    }
}

#[verifier::opaque]
pub open spec fn new_expression(s: Seq<char>, p: int) -> PRes<ExpressionModel>
    decreases s.len() - p, 32int when 0 <= p <= s.len()
{
    proof {
        lemma_ws(s, p);
    }
    let q = ws(s, p);
    if char_at(s, q) == Some('{') {
        proof {
            lemma_ws(s, q + 1);
        }
        match statements_until(s, ws(s, q + 1), '}', Seq::empty()) {
            Ok((stmts, p1)) => match expect_char(s, p1, '}') {
                Ok((_, p2)) => Ok((ExpressionModel::ImplicitConstructor { statements: stmts }, p2)),
                Err(e) => Err(e),
            },
            Err(e) => Err(e),
        }
    } else if char_at(s, q) == Some('[') {
        array_or_map_definition(s, q + 1)
    } else {
        match reference(s, q) {
            Ok((var, p1)) => if !(p < p1 <= s.len()) {
                stuck()
            } else {
                match postfix_chain(s, p1, var, false) {
                    Ok((e, p2)) => Ok((ExpressionModel::ConstructorCall { function: Box::new(e) }, p2)),
                    Err(e) => Err(e),
                }
            },
            Err(e) => Err(e),
        }
    }
}

#[verifier::opaque]
pub open spec fn array_or_map_definition(s: Seq<char>, p: int) -> PRes<ExpressionModel>
    decreases s.len() - p, 55int when 0 <= p <= s.len()
{
    proof {
        lemma_ws(s, p);
    }
    let q = ws(s, p);
    if char_at(s, q) == Some(']') {
        Ok((ExpressionModel::ArrayDefinition { elements: Seq::empty() }, q + 1))
    } else {
        match expression(s, q) {
            Ok((first, p1)) => if !(p < p1 <= s.len()) {
                stuck()
            } else {
                proof {
                    lemma_ws(s, p1);
                    lemma_ws(s, ws(s, p1));
                }
                let (arrow, p2) = try_str(s, ws(s, p1), "=>"@);
                if arrow {
                    match expression(s, p2) {
                        Ok((first_value, p3)) => if !adv(s, p2, p3) {
                            stuck()
                        } else {
                            map_rest(s, p3, seq![first], seq![first_value])
                        },
                        Err(e) => Err(e),
                    }
                } else {
                    array_rest(s, p2, seq![first])
                }
            },
            Err(e) => Err(e),
        }
    }
}

#[verifier::opaque]
pub open spec fn map_rest(s: Seq<char>, p: int, keys: Seq<ExpressionModel>, values: Seq<ExpressionModel>) -> PRes<ExpressionModel>
    decreases s.len() - p, 55int when 0 <= p <= s.len()
{
    proof {
        lemma_ws(s, p);
    }
    let (comma, p1) = try_char(s, p, ',');
    if comma {
        match expression(s, p1) {
            Ok((k, p2)) => if !adv(s, p1, p2) {
                stuck()
            } else {
                proof {
                    lemma_ws(s, p2);
                    lemma_ws(s, ws(s, p2));
                }
                let (arrow, p3) = try_str(s, ws(s, p2), "=>"@);
                if !arrow {
                    err(p3, "expected '=>' in map literal"@)
                } else {
                    match expression(s, p3) {
                        Ok((v, p4)) => if !adv(s, p3, p4) {
                            stuck()
                        } else {
                            map_rest(s, p4, keys.push(k), values.push(v))
                        },
                        Err(e) => Err(e),
                    }
                }
            },
            Err(e) => Err(e),
        }
    } else {
        match expect_char(s, p1, ']') {
            Ok((_, p2)) => Ok((ExpressionModel::MapDefinition { keys, values }, p2)),
            Err(e) => Err(e),
        }
    }
}

#[verifier::opaque]
pub open spec fn array_rest(s: Seq<char>, p: int, elements: Seq<ExpressionModel>) -> PRes<ExpressionModel>
    decreases s.len() - p, 55int when 0 <= p <= s.len()
{
    proof {
        lemma_ws(s, p);
    }
    let (comma, p1) = try_char(s, p, ',');
    if comma {
        match expression(s, p1) {
            Ok((e, p2)) => if !adv(s, p1, p2) {
                stuck()
            } else {
                array_rest(s, p2, elements.push(e))
            },
            Err(e) => Err(e),
        }
    } else {
        match expect_char(s, p1, ']') {
            Ok((_, p2)) => Ok((ExpressionModel::ArrayDefinition { elements }, p2)),
            Err(e) => Err(e),
        }
    }
}

#[verifier::opaque]
pub open spec fn function_definition(s: Seq<char>, p: int) -> PRes<ExpressionModel>
    decreases s.len() - p, 32int when 0 <= p <= s.len()
{
    proof {
        lemma_ws(s, p);
    }
    match expect_char(s, p, '(') {
        Ok((_, p1)) => {
            proof {
                lemma_ws(s, p1);
            }
            let q = ws(s, p1);
            let params = if char_at(s, q) != Some(')') {
                match identifier(s, q) {
                    Ok((first, p2)) => if !adv(s, q, p2) {
                        stuck()
                    } else {
                        identifiers_rest(s, p2, seq![first])
                    },
                    Err(e) => Err(e),
                }
            } else {
                Ok((Seq::empty(), q))
            };
            function_body(s, q, params)
        },
        Err(e) => Err(e),
    }
}

/// The rest of a function definition once its parameters (read from `q` on) are known:
/// `)`, `->`, and the body between braces.
#[verifier::opaque]
pub open spec fn function_body(s: Seq<char>, q: int, params: PRes<Seq<Seq<char>>>) -> PRes<ExpressionModel>
    decreases s.len() - q, 31int when 0 <= q <= s.len()
{
    match params {
        Ok((parameters, p3)) => if !adv(s, q, p3) {
            stuck()
        } else {
            proof {
                lemma_ws(s, p3);
            }
            match expect_char(s, p3, ')') {
                Ok((_, p4)) => {
                    proof {
                        lemma_ws(s, p4);
                        lemma_ws(s, ws(s, p4));
                    }
                    let (arrow, p5) = try_str(s, ws(s, p4), "->"@);
                    if !arrow {
                        err(p5, "expected '->' in function definition"@)
                    } else {
                        proof {
                            lemma_ws(s, p5);
                        }
                        match expect_char(s, p5, '{') {
                            Ok((_, p6)) => {
                                proof {
                                    lemma_ws(s, p6);
                                }
                                match statements_until(s, ws(s, p6), '}', Seq::empty()) {
                                    Ok((statements, p7)) => match expect_char(s, p7, '}') {
                                        Ok((_, p8)) => Ok((
                                            ExpressionModel::FunctionDef { parameters, statements },
                                            p8,
                                        )),
                                        Err(e) => Err(e),
                                    },
                                    Err(e) => Err(e),
                                }
                            },
                            Err(e) => Err(e),
                        }
                    }
                },
                Err(e) => Err(e),
            }
        },
        Err(e) => Err(e),
    }
}

#[verifier::opaque]
pub open spec fn native_function_call(s: Seq<char>, p: int) -> PRes<ExpressionModel>
    decreases s.len() - p, 32int when 0 <= p <= s.len()
{
    proof {
        lemma_ws(s, p);
    }
    match expect_char(s, p, '(') {
        Ok((_, p1)) => match function_arguments(s, p1) {
            Ok((args, p2)) => match expect_char(s, p2, ')') {
                Ok((_, p3)) => Ok((ExpressionModel::NativeFunctionCall { parameters: args }, p3)),
                Err(e) => Err(e),
            },
            Err(e) => Err(e),
        },
        Err(e) => Err(e),
    }
}

#[verifier::opaque]
pub open spec fn function_arguments(s: Seq<char>, p: int) -> PRes<Seq<ExpressionModel>>
    decreases s.len() - p, 55int when 0 <= p <= s.len()
{
    proof {
        lemma_ws(s, p);
    }
    let q = ws(s, p);
    if char_at(s, q) == Some(')') {
        Ok((Seq::empty(), q))
    } else {
        match expression(s, q) {
            Ok((first, p1)) => if !(p < p1 <= s.len()) {
                stuck()
            } else {
                arguments_rest(s, p1, seq![first])
            },
            Err(e) => Err(e),
        }
    }
}

#[verifier::opaque]
pub open spec fn arguments_rest(s: Seq<char>, p: int, acc: Seq<ExpressionModel>) -> PRes<Seq<ExpressionModel>>
    decreases s.len() - p, 55int when 0 <= p <= s.len()
{
    proof {
        lemma_ws(s, p);
    }
    let (comma, p1) = try_char(s, p, ',');
    if comma {
        match expression(s, p1) {
            Ok((a, p2)) => if !adv(s, p1, p2) {
                stuck()
            } else {
                arguments_rest(s, p2, acc.push(a))
            },
            Err(e) => Err(e),
        }
    } else {
        Ok((acc, p1))
    }
}

// ---- modules ----

#[verifier::opaque]
pub open spec fn statements_until_eof(s: Seq<char>, p: int, acc: Seq<StatementModel>) -> PRes<Seq<StatementModel>>
    decreases s.len() - p when 0 <= p <= s.len()
{
    if p >= s.len() {
        Ok((acc, p))
    } else {
        match statement(s, p) {
            Ok((st, p2)) => if !(p < p2 <= s.len()) {
                stuck()
            } else {
                proof {
                    lemma_ws(s, p2);
                    lemma_ws(s, try_char(s, p2, ';').1);
                }
                statements_until_eof(s, ws(s, try_char(s, p2, ';').1), acc.push(st))
            },
            Err(e) => Err(e),
        }
    }
}

#[verifier::opaque]
pub open spec fn imports(s: Seq<char>, p: int, acc: Seq<Seq<char>>) -> PRes<Seq<Seq<char>>>
    decreases s.len() - p when 0 <= p <= s.len()
{
    proof {
        lemma_ws(s, p);
    }
    let (found, p1) = try_keyword(s, p, "import"@);
    if found {
        match identifier(s, p1) {
            Ok((name, p2)) => if !adv(s, p1, p2) {
                stuck()
            } else {
                proof {
                    lemma_ws(s, p2);
                }
                imports(s, try_char(s, p2, ';').1, acc.push(name))
            },
            Err(e) => Err(e),
        }
    } else {
        Ok((acc, p1))
    }
}

/// `module name` and an optional `;`.
pub open spec fn module_declaration(s: Seq<char>, p: int) -> PRes<Seq<char>> {
    match expect_keyword(s, p, "module"@) {
        Ok((_, p1)) => match identifier(s, p1) {
            Ok((name, p2)) => Ok((name, try_char(s, p2, ';').1)),
            Err(e) => Err(e),
        },
        Err(e) => Err(e),
    }
}

/// `module name;`, then the imports, then statements up to the end of the text.
pub open spec fn program(s: Seq<char>, p: int) -> PRes<ModuleModel> {
    let q = ws(s, p);
    let pos = position_at(s, q);
    match module_declaration(s, q) {
        Ok((name, p2)) => match imports(s, p2, Seq::empty()) {
            Ok((imported, p3)) => match statements_until_eof(s, ws(s, p3), Seq::empty()) {
                Ok((statements, p4)) => Ok((ModuleModel { name, imports: imported, statements, pos }, p4)),
                Err(e) => Err(e),
            },
            Err(e) => Err(e),
        },
        Err(e) => Err(e),
    }
}

/// Statements up to the end of the text, from offset `p`.
pub open spec fn statements_only(s: Seq<char>, p: int) -> PRes<Seq<StatementModel>> {
    statements_until_eof(s, ws(s, ws(s, p)), Seq::empty())
}


/// The additive, multiplicative and relational operators that the parser reads are the
/// very characters found in the source: `+` or `-`, `*`, `/` or `%`, and `<`, `>`, `<=`
/// or `>=`, ending where the parser goes on.
pub proof fn lemma_operator_tokens(s: Seq<char>, q: int, p: int)
    ensures
        additive_operator(s, q) matches Some(op) ==> (0 <= q < s.len() && op == seq![s[q]]
            && (s[q] == '+' || s[q] == '-')),
        multiplicative_operator(s, q) matches Some(op) ==> (0 <= q < s.len() && op == seq![s[q]]
            && (s[q] == '*' || s[q] == '/' || s[q] == '%')),
        relational_operator(s, p) matches Some((op, e)) ==> ({
            &&& 0 <= e - op.len() && e <= s.len()
            &&& op == s.subrange(e - op.len(), e)
            &&& (op == seq!['<'] || op == seq!['>'] || op == seq!['<', '='] || op == seq!['>', '='])
        }),
{
    reveal(additive_operator);
    reveal(multiplicative_operator);
    reveal_strlit("+");
    reveal_strlit("-");
    reveal_strlit("*");
    reveal_strlit("/");
    reveal_strlit("%");
    reveal_strlit("<");
    reveal_strlit(">");
    reveal_strlit("<=");
    reveal_strlit(">=");
    if let Some((op, e)) = relational_operator(s, p) {
        let q0 = ws(s, p);
        let (le, p1) = try_str(s, q0, "<="@);
        let (ge, p2) = try_str(s, p1, ">="@);
        if le {
            assert(s.subrange(ws(s, q0), ws(s, q0) + 2) == "<="@);
        } else if ge {
            assert(s.subrange(ws(s, p1), ws(s, p1) + 2) == ">="@);
        } else {
            assert(s.subrange(e - 1, e) =~= seq![s[p2]]);
        }
    }
}


proof fn lemma_ident_end(s: Seq<char>, p: int)
    requires
        0 <= p <= s.len(),
    ensures
        p <= ident_end(s, p) <= s.len(),
        forall|i: int| p <= i < ident_end(s, p) ==> is_ident_char(#[trigger] s[i]),
        ident_end(s, p) == s.len() || !is_ident_char(s[ident_end(s, p)]),
    decreases s.len() - p,
{
    if p < s.len() && is_ident_char(s[p]) {
        lemma_ident_end(s, p + 1);
    }
}

/// An identifier that the parser reads is the longest run of identifier characters at
/// that point, starting with a letter or `_`, and it is never one of the reserved
/// keywords.
pub proof fn lemma_identifier_read(s: Seq<char>, p: int)
    ensures
        identifier(s, p) matches Ok((n, e)) ==> ({
            &&& n.len() > 0 && 0 <= e - n.len() && e <= s.len()
            &&& n == s.subrange(e - n.len(), e)
            &&& is_ident_start_char(n[0])
            &&& forall|i: int| 0 <= i < n.len() ==> is_ident_char(#[trigger] n[i])
            &&& (e == s.len() || !is_ident_char(s[e]))
            &&& n != seq!['m', 'o', 'd', 'u', 'l', 'e']
            &&& n != seq!['i', 'm', 'p', 'o', 'r', 't']
            &&& n != seq!['n', 'e', 'w']
            &&& n != seq!['n', 'a', 't', 'i', 'v', 'e']
            &&& n != seq!['t', 'h', 'i', 's']
            &&& n != seq!['r', 'e', 't', 'u', 'r', 'n']
            &&& n != seq!['b', 'r', 'e', 'a', 'k']
            &&& n != seq!['c', 'o', 'n', 't', 'i', 'n', 'u', 'e']
            &&& n != seq!['i', 'f']
            &&& n != seq!['e', 'l', 's', 'e']
            &&& n != seq!['w', 'h', 'i', 'l', 'e']
            &&& n != seq!['f', 'o', 'r']
            &&& n != seq!['t', 'r', 'u', 'e']
            &&& n != seq!['f', 'a', 'l', 's', 'e']
            &&& n != seq!['t', 'r', 'y']
            &&& n != seq!['c', 'a', 't', 'c', 'h']
            &&& n != seq!['u', 'n', 'd', 'e', 'f']
            &&& n != seq!['t', 'h', 'r', 'o', 'w']
            &&& n != seq!['f', 'o', 'r', 'k']
            &&& n != seq!['g', 'l', 'o', 'b', 'a', 'l']
        }),
{
    reveal_strlit("module");
    reveal_strlit("import");
    reveal_strlit("new");
    reveal_strlit("native");
    reveal_strlit("this");
    reveal_strlit("return");
    reveal_strlit("break");
    reveal_strlit("continue");
    reveal_strlit("if");
    reveal_strlit("else");
    reveal_strlit("while");
    reveal_strlit("for");
    reveal_strlit("true");
    reveal_strlit("false");
    reveal_strlit("try");
    reveal_strlit("catch");
    reveal_strlit("undef");
    reveal_strlit("throw");
    reveal_strlit("fork");
    reveal_strlit("global");
    assert("module"@ =~= seq!['m', 'o', 'd', 'u', 'l', 'e']);
    assert("import"@ =~= seq!['i', 'm', 'p', 'o', 'r', 't']);
    assert("new"@ =~= seq!['n', 'e', 'w']);
    assert("native"@ =~= seq!['n', 'a', 't', 'i', 'v', 'e']);
    assert("this"@ =~= seq!['t', 'h', 'i', 's']);
    assert("return"@ =~= seq!['r', 'e', 't', 'u', 'r', 'n']);
    assert("break"@ =~= seq!['b', 'r', 'e', 'a', 'k']);
    assert("continue"@ =~= seq!['c', 'o', 'n', 't', 'i', 'n', 'u', 'e']);
    assert("if"@ =~= seq!['i', 'f']);
    assert("else"@ =~= seq!['e', 'l', 's', 'e']);
    assert("while"@ =~= seq!['w', 'h', 'i', 'l', 'e']);
    assert("for"@ =~= seq!['f', 'o', 'r']);
    assert("true"@ =~= seq!['t', 'r', 'u', 'e']);
    assert("false"@ =~= seq!['f', 'a', 'l', 's', 'e']);
    assert("try"@ =~= seq!['t', 'r', 'y']);
    assert("catch"@ =~= seq!['c', 'a', 't', 'c', 'h']);
    assert("undef"@ =~= seq!['u', 'n', 'd', 'e', 'f']);
    assert("throw"@ =~= seq!['t', 'h', 'r', 'o', 'w']);
    assert("fork"@ =~= seq!['f', 'o', 'r', 'k']);
    assert("global"@ =~= seq!['g', 'l', 'o', 'b', 'a', 'l']);
    let q = ws(s, p);
    if 0 <= q < s.len() && is_ident_start_char(s[q]) {
        lemma_ident_end(s, q + 1);
        let e = ident_end(s, q + 1);
        let n = s.subrange(q, e);
        assert forall|i: int| 0 <= i < n.len() implies is_ident_char(#[trigger] n[i]) by {
            if i > 0 {
                assert(n[i] == s[q + i]);
            }
        }
    }
}


proof fn lemma_digits_end(s: Seq<char>, p: int)
    requires
        0 <= p <= s.len(),
    ensures
        p <= digits_end(s, p) <= s.len(),
        forall|i: int| p <= i < digits_end(s, p) ==> is_digit_char(#[trigger] s[i]),
        digits_end(s, p) == s.len() || !is_digit_char(s[digits_end(s, p)]),
    decreases s.len() - p,
{
    if p < s.len() && is_digit_char(s[p]) {
        lemma_digits_end(s, p + 1);
    }
}

/// A number that the parser reads is a numeral (an optional `-` and the longest run of
/// digits after the whitespace at `p`), and the constant holds the value of that numeral
/// as a `Number`.
pub proof fn lemma_number_read(s: Seq<char>, p: int)
    requires
        0 <= p <= s.len(),
    ensures
        number(s, p) matches Ok((c, e)) ==> ({
            let t = s.subrange(ws(s, p), e);
            &&& ws(s, p) < e <= s.len()
            &&& is_numeral(t)
            &&& c == ExpressionModel::Constant { value: numeral_value(t) as i32,
                    type_label: seq!['N', 'u', 'm', 'b', 'e', 'r'], string: None }
            &&& i32::MIN <= numeral_value(t) <= i32::MAX
            &&& (e == s.len() || !is_digit_char(s[e]))
        }),
{
    reveal_strlit("Number");
    assert("Number"@ =~= seq!['N', 'u', 'm', 'b', 'e', 'r']);
    lemma_ws(s, p);
    let q = ws(s, p);
    let r = if char_at(s, q) == Some('-') { q + 1 } else { q };
    if 0 <= r < s.len() && is_digit_char(s[r]) {
        lemma_digits_end(s, r + 1);
        let e = digits_end(s, r + 1);
        let t = s.subrange(q, e);
        let d = if t.len() > 0 && t[0] == '-' { t.drop_first() } else { t };
        assert(d =~= s.subrange(r, e));
        assert forall|i: int| 0 <= i < d.len() implies is_digit_char(#[trigger] d[i]) by {
            assert(d[i] == s[r + i]);
        }
        assert(all_digits(d));
    }
}

} // verus!
