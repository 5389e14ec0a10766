//! The top level of a source file: the module declaration, the imports, and the
//! statements up to the end of the text.
use vstd::prelude::*;

use crate::ast::{stmts_view, strings_view, Module, Statement, StatementModel};
use super::{res_view, Parser};
use super::grammar::{
    agrees, identifier, imports, lemma_ws, module_declaration, program, statement, statements_only,
    statements_until_eof, try_char, try_keyword, ws, PErr,
};

verus! {

/// A parser result holding names, seen through their views.
pub open spec fn names_res(r: Result<Vec<String>, String>) -> Result<Seq<Seq<char>>, Seq<char>> {
    match r {
        Ok(v) => Ok(strings_view(v@)),
        Err(e) => Err(e@),
    }
}

/// A parser result holding statements, seen through their views.
pub open spec fn statements_res(r: Result<Vec<Statement>, String>) -> Result<Seq<StatementModel>, Seq<char>> {
    match r {
        Ok(v) => Ok(stmts_view(v@)),
        Err(e) => Err(e@),
    }
}

impl Parser {
    /// Parses a whole source file: `module name;`, the imports, then every statement
    /// up to the end of the text.
    pub fn parse_program(&mut self) -> (r: Result<Module, String>)
        requires
            old(self).wf(),
        ensures
            final(self).wf(),
            final(self).source() == old(self).source(),
            agrees(old(self).source(), res_view(r), final(self).offset(), program(old(self).source(), old(self).offset())),
            r is Ok ==> final(self).offset() == final(self).source().len(),
    {
        proof {
            self.lemma_wf();
            lemma_ws(self.input@, self.pos as int);
        }
        self.skip_whitespace();
        let pos = self.position();
        let name = self.parse_module_declaration()?;
        let imports = self.parse_imports()?;
        let statements = self.parse_statements_until_eof()?;
        Ok(Module { name, imports, statements, pos })
    }

    /// Parses statements up to the end of the text, without a module declaration.
    pub fn parse_statements_only(&mut self) -> (r: Result<Vec<Statement>, String>)
        requires
            old(self).wf(),
        ensures
            final(self).wf(),
            final(self).source() == old(self).source(),
            agrees(old(self).source(), statements_res(r), final(self).offset(), statements_only(old(self).source(), old(self).offset())),
            r is Ok ==> final(self).offset() == final(self).source().len(),
    {
        proof {
            self.lemma_wf();
            lemma_ws(self.input@, self.pos as int);
        }
        self.skip_whitespace();
        self.parse_statements_until_eof()
    }

    fn parse_module_declaration(&mut self) -> (r: Result<String, String>)
        requires
            old(self).wf(),
        ensures
            final(self).wf(),
            final(self).input@ == old(self).input@,
            agrees(old(self).input@, res_view(r), final(self).pos as int, module_declaration(old(self).input@, old(self).pos as int)),
    {
        self.expect_keyword("module")?;
        let name = self.parse_identifier()?;
        self.try_char(';');
        Ok(name)
    }

    fn parse_imports(&mut self) -> (r: Result<Vec<String>, String>)
        requires
            old(self).wf(),
        ensures
            final(self).wf(),
            final(self).input@ == old(self).input@,
            agrees(old(self).input@, names_res(r), final(self).pos as int, imports(old(self).input@, old(self).pos as int, Seq::empty())),
    {
        let ghost s = self.input@;
        let ghost p0 = self.pos as int;
        let mut names: Vec<String> = Vec::new();
        assert(strings_view(names@) =~= Seq::<Seq<char>>::empty());
        loop
            invariant_except_break
                self.wf(),
                self.input@ == s,
                s == old(self).input@,
                p0 == old(self).pos,
                imports(s, p0, Seq::empty()) == imports(s, self.pos as int, strings_view(names@)),
            ensures
                self.wf(),
                self.input@ == s,
                imports(s, p0, Seq::empty()) == Ok::<(Seq<Seq<char>>, int), PErr>((strings_view(names@), self.pos as int)),
            decreases s.len() - self.pos,
        {
            reveal(imports);
            proof {
                self.lemma_wf();
                lemma_ws(s, self.pos as int);
            }
            if !self.try_keyword("import") {
                break;
            }
            let name = self.parse_identifier()?;
            proof {
                self.lemma_wf();
                lemma_ws(s, self.pos as int);
            }
            self.try_char(';');
            let ghost before = names@;
            names.push(name);
            assert(strings_view(names@) =~= strings_view(before).push(names@[names@.len() - 1]@));
        }
        Ok(names)
    }

    fn parse_statements_until_eof(&mut self) -> (r: Result<Vec<Statement>, String>)
        requires
            old(self).wf(),
        ensures
            final(self).wf(),
            final(self).input@ == old(self).input@,
            agrees(old(self).input@, statements_res(r), final(self).pos as int,
                statements_until_eof(old(self).input@, ws(old(self).input@, old(self).pos as int), Seq::empty())),
            r is Ok ==> final(self).pos == final(self).input@.len(),
    {
        let ghost s = self.input@;
        proof {
            self.lemma_wf();
            lemma_ws(s, self.pos as int);
        }
        let mut stmts: Vec<Statement> = Vec::new();
        self.skip_whitespace();
        let ghost p0 = self.pos as int;
        assert(stmts_view(stmts@) =~= Seq::<StatementModel>::empty());
        while !self.at_end()
            invariant
                self.wf(),
                self.input@ == s,
                s == old(self).input@,
                p0 == ws(s, old(self).pos as int),
                statements_until_eof(s, p0, Seq::empty()) == statements_until_eof(s, self.pos as int, stmts_view(stmts@)),
            decreases s.len() - self.pos,
        {
            reveal(statements_until_eof);
            proof {
                self.lemma_wf();
            }
            let st = self.parse_statement()?;
            proof {
                self.lemma_wf();
                lemma_ws(s, self.pos as int);
            }
            self.try_char(';');
            proof {
                self.lemma_wf();
                lemma_ws(s, self.pos as int);
            }
            self.skip_whitespace();
            let ghost before = stmts@;
            stmts.push(st);
            assert(stmts_view(stmts@) =~= stmts_view(before).push(stmts@[stmts@.len() - 1]@));
        }
        proof {
            reveal(statements_until_eof);
            self.lemma_wf();
        }
        Ok(stmts)
    }
}

} // verus!
