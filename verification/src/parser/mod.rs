//! Recursive-descent parser for GScript source text.
pub mod grammar;
mod syntax;
mod toplevel;

use vstd::prelude::*;

use crate::ast::{Expression, Position};
use crate::text::{
    is_ascii_alphabetic, is_ascii_digit, is_ascii_whitespace, is_identifier_char, located_message,
    is_digit_char, lemma_numeral_is_int_text, parse_i32, push_char,
};
use self::grammar::{
    agrees, char_at, constant, digits_end, escape_text, ident_end, identifier, is_reserved, number,
    string_body, string_literal, error_prefix, expect_char, expect_keyword, expected_char_msg, keyword_at,
    lemma_block_comment_end, lemma_line_col_bounds, lemma_line_comment_end, lemma_ws, line_col,
    line_comment_end, block_comment_end, position_at, starts_with, try_char, try_keyword, try_str,
    ws,
};

verus! {

pub struct Parser {
    input: Vec<char>,
    pos: usize,
    line: i32,
    column: i32,
}

impl Parser {
    /// The source text being parsed.
    pub closed spec fn source(&self) -> Seq<char> {
        self.input@
    }

    /// The offset of the next character to read.
    pub closed spec fn offset(&self) -> int {
        self.pos as int
    }

    /// The parser's state is consistent: the offset lies within the source,
    /// line and column are those of the offset, and the source is short
    /// enough that they fit in `i32`.
    pub closed spec fn wf(&self) -> bool {
        &&& self.pos <= self.input@.len()
        &&& self.input@.len() < i32::MAX
        &&& self.line as int == line_col(self.input@, self.pos as int).0
        &&& self.column as int == line_col(self.input@, self.pos as int).1
    }

    pub fn new(input: &str) -> (p: Self)
        ensures
            p.source() == input@,
            p.offset() == 0,
            input@.len() < i32::MAX ==> p.wf(),
    {
        let mut chars: Vec<char> = Vec::new();
        for c in it: input.chars()
            invariant
                chars@ == it.seq().take(it.index() as int),
        {
            chars.push(c);
        }
        assert(chars@ == input@);
        Self { input: chars, pos: 0, line: 1, column: 1 }
    }
}

/// A parser result seen through the views of its value and its error text.
pub open spec fn res_view<V: View>(r: Result<V, String>) -> Result<V::V, Seq<char>> {
    match r {
        Ok(v) => Ok(v@),
        Err(e) => Err(e@),
    }
}

impl Parser {
    // ---- position helpers ----

    fn position(&self) -> (r: Position)
        requires
            self.wf(),
        ensures
            r == position_at(self.input@, self.pos as int),
    {
        Position { line: self.line, column: self.column }
    }

    fn error<T>(&self, msg: &str) -> (r: Result<T, String>)
        requires
            self.wf(),
        ensures
            r matches Err(e) && e@ == error_prefix(self.input@, self.pos as int) + msg@,
    {
        Err(located_message(self.line, self.column, msg))
    }

    // ---- character-level helpers ----

    fn peek(&self) -> (r: Option<char>)
        requires
            self.wf(),
        ensures
            r == char_at(self.input@, self.pos as int),
    {
        if self.pos < self.input.len() {
            Some(self.input[self.pos])
        } else {
            None
        }
    }

    fn peek_ahead(&self, offset: usize) -> (r: Option<char>)
        requires
            self.wf(),
            self.pos + offset <= usize::MAX,
        ensures
            r == char_at(self.input@, self.pos + offset),
    {
        if self.pos + offset < self.input.len() {
            Some(self.input[self.pos + offset])
        } else {
            None
        }
    }

    fn advance(&mut self) -> (r: Option<char>)
        requires
            old(self).wf(),
        ensures
            final(self).wf(),
            final(self).input@ == old(self).input@,
            r == char_at(old(self).input@, old(self).pos as int),
            final(self).pos == if old(self).pos < old(self).input@.len() {
                old(self).pos + 1
            } else {
                old(self).pos as int
            },
    {
        if self.pos >= self.input.len() {
            return None;
        }
        let ch = self.input[self.pos];
        proof {
            lemma_line_col_bounds(self.input@, self.pos as int);
        }
        self.pos = self.pos + 1;
        if ch == '\n' {
            self.line = self.line + 1;
            self.column = 1;
        } else {
            self.column = self.column + 1;
        }
        Some(ch)
    }

    fn at_end(&self) -> (r: bool)
        requires
            self.wf(),
        ensures
            r == (self.pos >= self.input@.len()),
    {
        self.pos >= self.input.len()
    }

    fn skip_whitespace(&mut self)
        requires
            old(self).wf(),
        ensures
            final(self).wf(),
            final(self).input@ == old(self).input@,
            final(self).pos == ws(old(self).input@, old(self).pos as int),
            old(self).pos <= final(self).pos,
    {
        let ghost s = self.input@;
        let ghost target = ws(s, self.pos as int);
        proof {
            lemma_ws(s, self.pos as int);
        }
        proof {
            reveal_strlit("//");
            reveal_strlit("/*");
            reveal_strlit("*/");
            assert("//"@ == seq!['/', '/']);
            assert("/*"@ == seq!['/', '*']);
            assert("*/"@ == seq!['*', '/']);
        }
        loop
            invariant_except_break
                self.wf(),
                self.input@ == s,
                ws(s, self.pos as int) == target,
            ensures
                self.wf(),
                self.input@ == s,
                self.pos == target,
            decreases s.len() - self.pos,
        {
            proof {
                reveal_strlit("//");
                reveal_strlit("/*");
                assert("//"@ == seq!['/', '/']);
                assert("/*"@ == seq!['/', '*']);
            }
            if let Some(ch) = self.peek() {
                if is_ascii_whitespace(ch) {
                    self.advance();
                    continue;
                }
            }
            if self.starts_with("//") {
                let ghost start = self.pos as int;
                self.advance();
                self.advance();
                proof {
                    lemma_line_comment_end(s, start + 2);
                }
                loop
                    invariant_except_break
                        self.wf(),
                        self.input@ == s,
                        start + 2 <= self.pos,
                        line_comment_end(s, self.pos as int) == line_comment_end(s, start + 2),
                    ensures
                        self.wf(),
                        self.input@ == s,
                        self.pos == line_comment_end(s, start + 2),
                    decreases s.len() - self.pos,
                {
                    match self.peek() {
                        Some(c) => {
                            if c == '\n' {
                                break;
                            }
                            self.advance();
                        },
                        None => {
                            break;
                        },
                    }
                }
                continue;
            }
            if self.starts_with("/*") {
                let ghost start = self.pos as int;
                self.advance();
                self.advance();
                proof {
                    lemma_block_comment_end(s, start + 2);
                }
                loop
                    invariant_except_break
                        self.wf(),
                        self.input@ == s,
                        start + 2 <= self.pos,
                        block_comment_end(s, self.pos as int) == block_comment_end(s, start + 2),
                    ensures
                        self.wf(),
                        self.input@ == s,
                        self.pos == block_comment_end(s, start + 2),
                    decreases s.len() - self.pos,
                {
                    proof {
                        reveal_strlit("*/");
                        assert("*/"@ == seq!['*', '/']);
                    }
                    if self.at_end() {
                        break;
                    }
                    if self.starts_with("*/") {
                        self.advance();
                        self.advance();
                        break;
                    }
                    self.advance();
                }
                continue;
            }
            break;
        }
    }

    fn starts_with(&self, t: &str) -> (r: bool)
        requires
            self.wf(),
        ensures
            r == starts_with(self.input@, self.pos as int, t@),
    {
        let n = t.unicode_len();
        let mut i: usize = 0;
        while i < n
            invariant
                self.wf(),
                n == t@.len(),
                i <= n,
                forall|j: int|
                    0 <= j < i ==> self.pos + j < self.input@.len() && self.input@[self.pos + j]
                        == t@[j],
            decreases n - i,
        {
            if i >= self.input.len() - self.pos {
                return false;
            }
            if t.get_char(i) != self.input[self.pos + i] {
                return false;
            }
            i = i + 1;
        }
        if n > 0 {
            let ghost last = t@[n - 1];
            assert(self.pos + (n - 1) < self.input@.len());
        }
        assert(self.input@.subrange(self.pos as int, self.pos + n) =~= t@);
        true
    }

    fn expect_char(&mut self, expected: char) -> (r: Result<(), String>)
        requires
            old(self).wf(),
        ensures
            final(self).wf(),
            final(self).input@ == old(self).input@,
            agrees(old(self).input@, res_view(r), final(self).pos as int, expect_char(old(self).input@, old(self).pos as int, expected)),
            r is Ok ==> old(self).pos < final(self).pos,
    {
        proof {
            lemma_ws(self.input@, self.pos as int);
        }
        self.skip_whitespace();
        match self.peek() {
            Some(ch) => {
                if ch == expected {
                    self.advance();
                    Ok(())
                } else {
                    let mut msg = String::from_str("expected '");
                    push_char(&mut msg, expected);
                    msg.append("', found '");
                    push_char(&mut msg, ch);
                    msg.append("'");
                    assert(msg@ =~= expected_char_msg(expected, Some(ch)));
                    self.error(msg.as_str())
                }
            },
            None => {
                let mut msg = String::from_str("expected '");
                push_char(&mut msg, expected);
                msg.append("', found end of input");
                assert(msg@ =~= expected_char_msg(expected, None));
                self.error(msg.as_str())
            },
        }
    }

    /// Consumes keyword `kw` when it comes next (after whitespace) and no identifier
    /// character follows it; `Err` otherwise, at the offset after the whitespace.
    fn expect_keyword(&mut self, kw: &str) -> (r: Result<(), String>)
        requires
            old(self).wf(),
        ensures
            final(self).wf(),
            final(self).input@ == old(self).input@,
            agrees(old(self).input@, res_view(r), final(self).pos as int, expect_keyword(old(self).input@, old(self).pos as int, kw@)),
            r is Ok && kw@.len() > 0 ==> old(self).pos < final(self).pos,
    {
        if self.try_keyword(kw) {
            Ok(())
        } else {
            let mut msg = String::from_str("expected keyword '");
            msg.append(kw);
            msg.append("'");
            self.error(msg.as_str())
        }
    }

    fn try_keyword(&mut self, kw: &str) -> (r: bool)
        requires
            old(self).wf(),
        ensures
            final(self).wf(),
            final(self).input@ == old(self).input@,
            (r, final(self).pos as int) == try_keyword(old(self).input@, old(self).pos as int, kw@),
            old(self).pos <= final(self).pos,
            r && kw@.len() > 0 ==> old(self).pos < final(self).pos,
    {
        proof {
            lemma_ws(self.input@, self.pos as int);
        }
        self.skip_whitespace();
        if self.starts_with(kw) {
            let n = kw.unicode_len();
            let after = self.pos + n;
            if after < self.input.len() && is_identifier_char(self.input[after]) {
                return false;
            }
            let ghost s = self.input@;
            let ghost start = self.pos as int;
            let mut i: usize = 0;
            while i < n
                invariant
                    self.wf(),
                    self.input@ == s,
                    n == kw@.len(),
                    start + n <= s.len(),
                    i <= n,
                    self.pos == start + i,
                decreases n - i,
            {
                self.advance();
                i = i + 1;
            }
            true
        } else {
            false
        }
    }

    fn try_char(&mut self, expected: char) -> (r: bool)
        requires
            old(self).wf(),
        ensures
            final(self).wf(),
            final(self).input@ == old(self).input@,
            (r, final(self).pos as int) == try_char(old(self).input@, old(self).pos as int, expected),
            old(self).pos <= final(self).pos,
            r ==> old(self).pos < final(self).pos,
    {
        proof {
            lemma_ws(self.input@, self.pos as int);
        }
        self.skip_whitespace();
        if self.peek() == Some(expected) {
            self.advance();
            true
        } else {
            false
        }
    }

    fn try_str(&mut self, t: &str) -> (r: bool)
        requires
            old(self).wf(),
        ensures
            final(self).wf(),
            final(self).input@ == old(self).input@,
            (r, final(self).pos as int) == try_str(old(self).input@, old(self).pos as int, t@),
            old(self).pos <= final(self).pos,
            r && t@.len() > 0 ==> old(self).pos < final(self).pos,
    {
        proof {
            lemma_ws(self.input@, self.pos as int);
        }
        self.skip_whitespace();
        if self.starts_with(t) {
            let n = t.unicode_len();
            let ghost s = self.input@;
            let ghost start = self.pos as int;
            let mut i: usize = 0;
            while i < n
                invariant
                    self.wf(),
                    self.input@ == s,
                    n == t@.len(),
                    start + n <= s.len(),
                    i <= n,
                    self.pos == start + i,
                decreases n - i,
            {
                self.advance();
                i = i + 1;
            }
            true
        } else {
            false
        }
    }

    proof fn lemma_wf(&self)
        requires
            self.wf(),
        ensures
            self.pos <= self.input@.len(),
            self.input@.len() < i32::MAX,
            self.line as int == line_col(self.input@, self.pos as int).0,
            self.column as int == line_col(self.input@, self.pos as int).1,
    {
    }

    fn save(&self) -> (r: (usize, i32, i32))
        requires
            self.wf(),
        ensures
            r.0 <= self.input@.len(),
            r.1 as int == line_col(self.input@, r.0 as int).0,
            r.2 as int == line_col(self.input@, r.0 as int).1,
            r == (self.pos, self.line, self.column),
    {
        (self.pos, self.line, self.column)
    }

    fn restore(&mut self, state: (usize, i32, i32))
        requires
            old(self).wf(),
            state.0 <= old(self).input@.len(),
            state.1 as int == line_col(old(self).input@, state.0 as int).0,
            state.2 as int == line_col(old(self).input@, state.0 as int).1,
        ensures
            final(self).wf(),
            final(self).input@ == old(self).input@,
            final(self).pos == state.0,
            final(self).line == state.1,
            final(self).column == state.2,
    {
        self.pos = state.0;
        self.line = state.1;
        self.column = state.2;
    }
}

impl Parser {
    // ---- identifier / number / string ----

    /// Whether the source between `start` and `end` is the text `t`.
    fn slice_equals(&self, start: usize, end: usize, t: &str) -> (r: bool)
        requires
            start <= end <= self.input@.len(),
        ensures
            r == (self.input@.subrange(start as int, end as int) == t@),
    {
        let n = t.unicode_len();
        if end - start != n {
            return false;
        }
        let mut i: usize = 0;
        while i < n
            invariant
                start <= end <= self.input@.len(),
                n == t@.len(),
                end - start == n,
                i <= n,
                forall|j: int| 0 <= j < i ==> self.input@[start + j] == t@[j],
            decreases n - i,
        {
            if self.input[start + i] != t.get_char(i) {
                assert(self.input@.subrange(start as int, end as int)[i as int] != t@[i as int]);
                return false;
            }
            i = i + 1;
        }
        assert(self.input@.subrange(start as int, end as int) =~= t@);
        true
    }

    fn is_reserved_slice(&self, start: usize, end: usize) -> (r: bool)
        requires
            start <= end <= self.input@.len(),
        ensures
            r == is_reserved(self.input@.subrange(start as int, end as int)),
    {
        self.slice_equals(start, end, "module") || self.slice_equals(start, end, "import")
            || self.slice_equals(start, end, "new") || self.slice_equals(start, end, "native")
            || self.slice_equals(start, end, "this") || self.slice_equals(start, end, "return")
            || self.slice_equals(start, end, "break") || self.slice_equals(start, end, "continue")
            || self.slice_equals(start, end, "if") || self.slice_equals(start, end, "else")
            || self.slice_equals(start, end, "while") || self.slice_equals(start, end, "for")
            || self.slice_equals(start, end, "true") || self.slice_equals(start, end, "false")
            || self.slice_equals(start, end, "try") || self.slice_equals(start, end, "catch")
            || self.slice_equals(start, end, "undef") || self.slice_equals(start, end, "throw")
            || self.slice_equals(start, end, "fork") || self.slice_equals(start, end, "global")
    }

    fn parse_identifier(&mut self) -> (r: Result<String, String>)
        requires
            old(self).wf(),
        ensures
            final(self).wf(),
            final(self).input@ == old(self).input@,
            agrees(old(self).input@, res_view(r), final(self).pos as int, identifier(old(self).input@, old(self).pos as int)),
            r is Ok ==> old(self).pos < final(self).pos,
    {
        proof {
            lemma_ws(self.input@, self.pos as int);
        }
        let ghost s = self.input@;
        self.skip_whitespace();
        let start = self.pos;
        let mut name = String::new();
        match self.peek() {
            Some(ch) => {
                if is_ascii_alphabetic(ch) || ch == '_' {
                    push_char(&mut name, ch);
                    self.advance();
                } else {
                    return self.error("expected identifier");
                }
            },
            None => {
                return self.error("expected identifier");
            },
        }
        loop
            invariant_except_break
                self.wf(),
                self.input@ == s,
                start < self.pos,
                name@ == s.subrange(start as int, self.pos as int),
                ident_end(s, self.pos as int) == ident_end(s, start + 1),
            ensures
                self.wf(),
                self.input@ == s,
                start < self.pos,
                name@ == s.subrange(start as int, self.pos as int),
                self.pos == ident_end(s, start + 1),
            decreases s.len() - self.pos,
        {
            match self.peek() {
                Some(ch) => {
                    if is_identifier_char(ch) {
                        push_char(&mut name, ch);
                        self.advance();
                        assert(name@ =~= s.subrange(start as int, self.pos as int));
                    } else {
                        break;
                    }
                },
                None => {
                    break;
                },
            }
        }
        if self.is_reserved_slice(start, self.pos) {
            let mut msg = String::from_str("'");
            msg.append(name.as_str());
            msg.append("' is a reserved keyword");
            return self.error(msg.as_str());
        }
        Ok(name)
    }

    /// An identifier if one comes next; otherwise nothing, and the parser stays where it was.
    fn _try_identifier(&mut self) -> (r: Option<String>)
        requires
            old(self).wf(),
        ensures
            final(self).wf(),
            final(self).input@ == old(self).input@,
            match identifier(old(self).input@, old(self).pos as int) {
                Ok((name, p)) => (r matches Some(n) && n@ == name) && final(self).pos == p,
                Err(_) => r is None && final(self).pos == old(self).pos,
            },
    {
        let state = self.save();
        match self.parse_identifier() {
            Ok(name) => Some(name),
            Err(_) => {
                self.restore(state);
                None
            },
        }
    }

    fn parse_number(&mut self) -> (r: Result<Expression, String>)
        requires
            old(self).wf(),
        ensures
            final(self).wf(),
            final(self).input@ == old(self).input@,
            agrees(old(self).input@, res_view(r), final(self).pos as int, number(old(self).input@, old(self).pos as int)),
            r is Ok ==> old(self).pos < final(self).pos,
    {
        proof {
            lemma_ws(self.input@, self.pos as int);
        }
        let ghost s = self.input@;
        self.skip_whitespace();
        let start = self.pos;
        let mut text = String::new();
        let negative = self.peek() == Some('-');
        if negative {
            push_char(&mut text, '-');
            self.advance();
        }
        let ghost first = self.pos as int;
        match self.peek() {
            Some(ch) => {
                if is_ascii_digit(ch) {
                    push_char(&mut text, ch);
                    self.advance();
                } else {
                    return self.error("expected digit");
                }
            },
            None => {
                return self.error("expected digit");
            },
        }
        loop
            invariant_except_break
                self.wf(),
                self.input@ == s,
                start <= first < self.pos,
                text@ == s.subrange(start as int, self.pos as int),
                digits_end(s, self.pos as int) == digits_end(s, first + 1),
                forall|i: int| first <= i < self.pos ==> is_digit_char(#[trigger] s[i]),
            ensures
                self.wf(),
                self.input@ == s,
                start <= first < self.pos,
                text@ == s.subrange(start as int, self.pos as int),
                self.pos == digits_end(s, first + 1),
                forall|i: int| first <= i < self.pos ==> is_digit_char(#[trigger] s[i]),
            decreases s.len() - self.pos,
        {
            match self.peek() {
                Some(ch) => {
                    if is_ascii_digit(ch) {
                        push_char(&mut text, ch);
                        self.advance();
                        assert(text@ =~= s.subrange(start as int, self.pos as int));
                    } else {
                        break;
                    }
                },
                None => {
                    break;
                },
            }
        }
        proof {
            let t = text@;
            let d = if t.len() > 0 && t[0] == '-' { t.drop_first() } else { t };
            assert(d =~= s.subrange(first, self.pos as int));
            assert forall|i: int| 0 <= i < d.len() implies is_digit_char(#[trigger] d[i]) by {
                assert(d[i] == s[first + i]);
            }
            lemma_numeral_is_int_text(t);
        }
        let val = match parse_i32(text.as_str()) {
            Ok(v) => v,
            Err(e) => {
                let msg = located_message(self.line, self.column, e.as_str());
                proof {
                    let pre = error_prefix(s, self.pos as int);
                    assert(pre.is_prefix_of(msg@)) by {
                        assert(msg@ =~= pre + e@);
                        assert(msg@.subrange(0, pre.len() as int) =~= pre);
                    }
                }
                return Err(msg);
            },
        };
        Ok(Expression::Constant { value: val, type_label: String::from_str("Number"), string: None })
    }

    fn parse_string(&mut self) -> (r: Result<Expression, String>)
        requires
            old(self).wf(),
        ensures
            final(self).wf(),
            final(self).input@ == old(self).input@,
            agrees(old(self).input@, res_view(r), final(self).pos as int, string_literal(old(self).input@, old(self).pos as int)),
            r is Ok ==> old(self).pos < final(self).pos,
    {
        proof {
            lemma_ws(self.input@, self.pos as int);
        }
        let ghost s = self.input@;
        self.skip_whitespace();
        let ghost p0 = old(self).pos as int;
        self.expect_char('"')?;
        let ghost body_start = self.pos as int;
        let mut text = String::new();
        loop
            invariant_except_break
                self.wf(),
                self.input@ == s,
                s == old(self).input@,
                p0 == old(self).pos,
                expect_char(s, ws(s, p0), '"') == Ok::<((), int), grammar::PErr>(((), body_start)),
                p0 < self.pos,
                string_body(s, self.pos as int, text@) == string_body(s, body_start, Seq::empty()),
            ensures
                self.wf(),
                self.input@ == s,
                p0 < self.pos,
                string_body(s, body_start, Seq::empty()) == Ok::<(Seq<char>, int), grammar::PErr>((text@, self.pos as int)),
            decreases s.len() - self.pos,
        {
            match self.advance() {
                None => {
                    return self.error("unterminated string literal");
                },
                Some(c) => {
                    if c == '"' {
                        break;
                    } else if c == '\\' {
                        match self.advance() {
                            None => {
                                return self.error("unterminated escape in string");
                            },
                            Some(e) => {
                                let ghost before = text@;
                                if e == 'n' {
                                    push_char(&mut text, '\n');
                                } else if e == 'r' {
                                    push_char(&mut text, '\r');
                                } else if e == 't' {
                                    push_char(&mut text, '\t');
                                } else if e == '\\' {
                                    push_char(&mut text, '\\');
                                } else if e == '"' {
                                    push_char(&mut text, '"');
                                } else {
                                    push_char(&mut text, '\\');
                                    push_char(&mut text, e);
                                }
                                assert(text@ =~= before + escape_text(e));
                            },
                        }
                    } else {
                        push_char(&mut text, c);
                    }
                },
            }
        }
        Ok(Expression::Constant { value: 0, type_label: String::from_str("String"), string: Some(text) })
    }
}

} // verus!
