//! Statements and blocks.
use crate::lexer::{SpecToken, SpecTokenKind, TokenKind};
use crate::parser::errors::{
    ParsePossibility, ParsingError, ParsingErrorKind, SpecParsingError, SpecParsingErrorKind,
    spec_error,
};
use crate::parser::parser::{
    Out, Parser, SpecBranch, assign_ops, assignment_operator, err_out, finish_if, g_assign_or_exp, g_assignment, g_block,
    g_block_loop, g_const_decl_stmt, g_decl_statement, g_decl_statement_loop, g_else_loop,
    g_expression, g_if_statement, g_return_statement, g_statement, g_statement_body,
    g_var_access, g_var_decl, need, ok_out, rv, rv_if, rv_stmts, rv_var_decls,
};
use crate::types::{
    branches_view, lemma_branches_view_push, lemma_stmts_view_push, stmts_view, var_decls_view,
    Assignment, IfBranch, IfStatement, ReturnStatement, SpecExpression, SpecStatement,
    SpecVarDeclaration, Statement, VarDeclaration,
};
use vstd::prelude::*;

verus! {

impl Parser {
    /// A statement followed by `;`.
    pub fn statement(&mut self) -> (r: Result<Statement, ParsingError>)
        requires
            old(self).wf(),
        ensures
            final(self).wf(),
            final(self).toks() == old(self).toks(),
            old(self).cur() <= final(self).cur(),
            r is Ok ==> old(self).cur() < final(self).cur(),
            forall|f: nat|
                f >= need(old(self).toks().len() as int, old(self).cur(), 21) ==> #[trigger] g_statement(
                    old(self).toks(),
                    old(self).cur(),
                    old(self).prog(),
                    f,
                ) == (Out { cur: final(self).cur(), prog: final(self).prog(), res: rv(r) }),
        decreases old(self).toks().len() - old(self).cur(), 21int,
    {
        let ghost t = self.toks();
        let ghost c0 = self.cur();
        let ghost p0 = self.prog();
        proof {
            self.lemma_wf();
        }
        let body = self.statement_body();
        let ghost c1 = self.cur();
        let ghost p1 = self.prog();
        let ghost br = rv(body);
        let r = match body {
            Err(e) => Err(e),
            Ok(s) => {
                if let Err(_) = self.consume(TokenKind::Semicolon) {
                    Err(
                        ParsingError::from_token(
                            ParsingErrorKind::StatementWithoutSemicolon,
                            self.current_id(),
                            false,
                        ),
                    )
                } else {
                    Ok(s)
                }
            },
        };
        proof {
            assert forall|f: nat| f >= need(t.len() as int, c0, 21) implies #[trigger] g_statement(
                t,
                c0,
                p0,
                f,
            ) == (Out { cur: self.cur(), prog: self.prog(), res: rv(r) }) by {
                assert(f > 0);
                assert(g_statement_body(t, c0, p0, (f - 1) as nat) == (Out {
                    cur: c1,
                    prog: p1,
                    res: br,
                }));
            }
        }
        r
    }

    /// What a statement holds before its `;`.
    fn statement_body(&mut self) -> (r: Result<Statement, ParsingError>)
        requires
            old(self).wf(),
        ensures
            final(self).wf(),
            final(self).toks() == old(self).toks(),
            old(self).cur() <= final(self).cur(),
            r is Ok ==> old(self).cur() < final(self).cur(),
            forall|f: nat|
                f >= need(old(self).toks().len() as int, old(self).cur(), 20) ==> #[trigger] g_statement_body(
                    old(self).toks(),
                    old(self).cur(),
                    old(self).prog(),
                    f,
                ) == (Out { cur: final(self).cur(), prog: final(self).prog(), res: rv(r) }),
        decreases old(self).toks().len() - old(self).cur(), 20int,
    {
        let ghost t = self.toks();
        let ghost c0 = self.cur();
        let ghost p0 = self.prog();
        proof {
            self.lemma_wf();
        }
        if self.check(TokenKind::If) {
            let res = self.if_statement();
            let ghost rr = rv_if(res);
            let r = match res {
                Ok(i) => Ok(Statement::If(Box::new(i))),
                Err(e) => Err(e),
            };
            proof {
                assert forall|f: nat| f >= need(t.len() as int, c0, 20) implies #[trigger] g_statement_body(
                    t,
                    c0,
                    p0,
                    f,
                ) == (Out { cur: self.cur(), prog: self.prog(), res: rv(r) }) by {
                    assert(f > 0);
                    assert(g_if_statement(t, c0, p0, (f - 1) as nat) == (Out {
                        cur: self.cur(),
                        prog: self.prog(),
                        res: rr,
                    }));
                }
            }
            return r;
        }
        if self.check(TokenKind::Var) {
            let res = self.var_decl();
            let ghost rr = rv_var_decls(res);
            let r = match res {
                Ok(v) => Ok(Statement::VarDeclarations(v)),
                Err(e) => Err(e),
            };
            proof {
                assert forall|f: nat| f >= need(t.len() as int, c0, 20) implies #[trigger] g_statement_body(
                    t,
                    c0,
                    p0,
                    f,
                ) == (Out { cur: self.cur(), prog: self.prog(), res: rv(r) }) by {
                    assert(f > 0);
                    assert(g_var_decl(t, c0, p0, (f - 1) as nat) == (Out {
                        cur: self.cur(),
                        prog: self.prog(),
                        res: rr,
                    }));
                }
            }
            return r;
        }
        if self.check(TokenKind::Const) {
            let r = self.const_decl_stmt();
            proof {
                assert forall|f: nat| f >= need(t.len() as int, c0, 20) implies #[trigger] g_statement_body(
                    t,
                    c0,
                    p0,
                    f,
                ) == (Out { cur: self.cur(), prog: self.prog(), res: rv(r) }) by {
                    assert(f > 0);
                    assert(g_const_decl_stmt(t, c0, p0, (f - 1) as nat) == (Out {
                        cur: self.cur(),
                        prog: self.prog(),
                        res: rv(r),
                    }));
                }
            }
            return r;
        }
        if self.check(TokenKind::Return) {
            let r = self.return_statement();
            proof {
                assert forall|f: nat| f >= need(t.len() as int, c0, 20) implies #[trigger] g_statement_body(
                    t,
                    c0,
                    p0,
                    f,
                ) == (Out { cur: self.cur(), prog: self.prog(), res: rv(r) }) by {
                    assert(f > 0);
                    assert(g_return_statement(t, c0, p0, (f - 1) as nat) == (Out {
                        cur: self.cur(),
                        prog: self.prog(),
                        res: rv(r),
                    }));
                }
            }
            return r;
        }
        let r = self.assignment_or_expression();
        proof {
            assert forall|f: nat| f >= need(t.len() as int, c0, 20) implies #[trigger] g_statement_body(
                t,
                c0,
                p0,
                f,
            ) == (Out { cur: self.cur(), prog: self.prog(), res: rv(r) }) by {
                assert(f > 0);
                assert(g_assign_or_exp(t, c0, p0, (f - 1) as nat) == (Out {
                    cur: self.cur(),
                    prog: self.prog(),
                    res: rv(r),
                }));
            }
        }
        r
    }

    /// An assignment, else an expression.
    fn assignment_or_expression(&mut self) -> (r: Result<Statement, ParsingError>)
        requires
            old(self).wf(),
        ensures
            final(self).wf(),
            final(self).toks() == old(self).toks(),
            old(self).cur() <= final(self).cur(),
            r is Ok ==> old(self).cur() < final(self).cur(),
            forall|f: nat|
                f >= need(old(self).toks().len() as int, old(self).cur(), 16) ==> #[trigger] g_assign_or_exp(
                    old(self).toks(),
                    old(self).cur(),
                    old(self).prog(),
                    f,
                ) == (Out { cur: final(self).cur(), prog: final(self).prog(), res: rv(r) }),
    {
        let ghost t = self.toks();
        let ghost c0 = self.cur();
        let ghost p0 = self.prog();
        proof {
            self.lemma_wf();
        }
        let ice = self.freeze();
        let ares = self.assignment();
        let ghost c1 = self.cur();
        let ghost p1 = self.prog();
        let ghost ar = rv(ares);
        proof {
            assert forall|f: nat| f >= need(t.len() as int, c0, 16) implies #[trigger] g_assignment(
                t,
                c0,
                p0,
                (f - 1) as nat,
            ) == (Out { cur: c1, prog: p1, res: ar }) by {
                assert((f - 1) as nat >= need(t.len() as int, c0, 15));
            }
        }
        match ares {
            Ok(a) => {
                let r = Ok(Statement::Ass(a));
                proof {
                    assert forall|f: nat| f >= need(t.len() as int, c0, 16) implies #[trigger] g_assign_or_exp(
                        t,
                        c0,
                        p0,
                        f,
                    ) == (Out { cur: self.cur(), prog: self.prog(), res: rv(r) }) by {
                        assert(f > 0);
                        assert(g_assignment(t, c0, p0, (f - 1) as nat) == (Out { cur: c1, prog: p1, res: ar }));
                    }
                }
                return r;
            },
            Err(e) => {
                if !e.recoverable {
                    let r = Err(e);
                    proof {
                        assert forall|f: nat| f >= need(t.len() as int, c0, 16) implies #[trigger] g_assign_or_exp(
                            t,
                            c0,
                            p0,
                            f,
                        ) == (Out { cur: self.cur(), prog: self.prog(), res: rv(r) }) by {
                            assert(f > 0);
                            assert(g_assignment(t, c0, p0, (f - 1) as nat) == (Out { cur: c1, prog: p1, res: ar }));
                        }
                    }
                    return r;
                }
                self.restore(ice);
            },
        }
        let eres = self.expression();
        let ghost c2 = self.cur();
        let ghost p2 = self.prog();
        let ghost er = rv(eres);
        let r = match eres {
            Ok(x) => Ok(Statement::Exp(x)),
            Err(e) => {
                if !e.recoverable {
                    Err(e)
                } else {
                    self.restore(ice);
                    Err(
                        ParsingError::from_token(
                            ParsingErrorKind::ExpectedOneOf(
                                vec![
                                    ParsePossibility::IfClause,
                                    ParsePossibility::Assignment,
                                    ParsePossibility::Expression,
                                    ParsePossibility::Declaration,
                                ],
                            ),
                            self.current_id(),
                            false,
                        ),
                    )
                }
            },
        };
        proof {
            assert forall|f: nat| f >= need(t.len() as int, c0, 16) implies #[trigger] g_assign_or_exp(
                t,
                c0,
                p0,
                f,
            ) == (Out { cur: self.cur(), prog: self.prog(), res: rv(r) }) by {
                assert(f > 0);
                assert(g_assignment(t, c0, p0, (f - 1) as nat) == (Out { cur: c1, prog: p1, res: ar }));
                assert((f - 1) as nat >= need(t.len() as int, c0, 12));
                assert(g_expression(t, c0, p1, (f - 1) as nat) == (Out { cur: c2, prog: p2, res: er }));
            }
        }
        r
    }

    /// `VARIABLE OP EXPRESSION` with OP one of `= += -= /= *=`.
    pub fn assignment(&mut self) -> (r: Result<Assignment, ParsingError>)
        requires
            old(self).wf(),
        ensures
            final(self).wf(),
            final(self).toks() == old(self).toks(),
            old(self).cur() <= final(self).cur(),
            r is Ok ==> old(self).cur() < final(self).cur(),
            forall|f: nat|
                f >= need(old(self).toks().len() as int, old(self).cur(), 15) ==> #[trigger] g_assignment(
                    old(self).toks(),
                    old(self).cur(),
                    old(self).prog(),
                    f,
                ) == (Out { cur: final(self).cur(), prog: final(self).prog(), res: rv(r) }),
    {
        let ghost t = self.toks();
        let ghost c0 = self.cur();
        let ghost p0 = self.prog();
        proof {
            self.lemma_wf();
        }
        let vres = self.var_access();
        let ghost c1 = self.cur();
        let ghost p1 = self.prog();
        let ghost vr = rv(vres);
        let left = match vres {
            Ok(v) => v,
            Err(e) => {
                let r = Err(e);
                proof {
                    assert forall|f: nat| f >= need(t.len() as int, c0, 15) implies #[trigger] g_assignment(
                        t,
                        c0,
                        p0,
                        f,
                    ) == (Out { cur: self.cur(), prog: self.prog(), res: rv(r) }) by {
                        assert(f > 0);
                        assert(g_var_access(t, c0, p0, (f - 1) as nat) == (Out { cur: c1, prog: p1, res: vr }));
                    }
                }
                return r;
            },
        };
        proof {
            self.lemma_wf();
        }
        let op = match assignment_operator(self.kind()) {
            Some(op) => op,
            None => {
                let expected = vec![
                    TokenKind::Assign,
                    TokenKind::PlusAssign,
                    TokenKind::MinusAssign,
                    TokenKind::DivideAssign,
                    TokenKind::MultiplyAssign,
                ];
                proof {
                    assert(expected@.map_values(|k: TokenKind| k@) =~= assign_ops());
                }
                let r = Err(
                    ParsingError::from_token(
                        ParsingErrorKind::ExpectedOneOfToken(expected),
                        self.current_id(),
                        true,
                    ),
                );
                proof {
                    assert forall|f: nat| f >= need(t.len() as int, c0, 15) implies #[trigger] g_assignment(
                        t,
                        c0,
                        p0,
                        f,
                    ) == (Out { cur: self.cur(), prog: self.prog(), res: rv(r) }) by {
                        assert(f > 0);
                        assert(g_var_access(t, c0, p0, (f - 1) as nat) == (Out { cur: c1, prog: p1, res: vr }));
                    }
                }
                return r;
            },
        };
        self.advance();
        let eres = self.expression();
        let ghost c2 = self.cur();
        let ghost p2 = self.prog();
        let ghost er = rv(eres);
        let r = match eres {
            Err(e) => Err(e),
            Ok(exp) => {
                let span = (left.span.0, exp.get_span().1);
                Ok(Assignment { var: left, op, exp, span })
            },
        };
        proof {
            assert forall|f: nat| f >= need(t.len() as int, c0, 15) implies #[trigger] g_assignment(
                t,
                c0,
                p0,
                f,
            ) == (Out { cur: self.cur(), prog: self.prog(), res: rv(r) }) by {
                assert(f > 0);
                assert(g_var_access(t, c0, p0, (f - 1) as nat) == (Out { cur: c1, prog: p1, res: vr }));
                assert((f - 1) as nat >= need(t.len() as int, c1 + 1, 12));
                assert(g_expression(t, c1 + 1, p1, (f - 1) as nat) == (Out { cur: c2, prog: p2, res: er }));
            }
        }
        r
    }

    /// `return`, with an expression unless a `;` follows.
    pub fn return_statement(&mut self) -> (r: Result<Statement, ParsingError>)
        requires
            old(self).wf(),
        ensures
            final(self).wf(),
            final(self).toks() == old(self).toks(),
            old(self).cur() <= final(self).cur(),
            r is Ok ==> old(self).cur() < final(self).cur(),
            forall|f: nat|
                f >= need(old(self).toks().len() as int, old(self).cur(), 16) ==> #[trigger] g_return_statement(
                    old(self).toks(),
                    old(self).cur(),
                    old(self).prog(),
                    f,
                ) == (Out { cur: final(self).cur(), prog: final(self).prog(), res: rv(r) }),
    {
        let ghost t = self.toks();
        let ghost c0 = self.cur();
        let ghost p0 = self.prog();
        proof {
            self.lemma_wf();
        }
        let start = self.span_start();
        if let Err(e) = self.consume(TokenKind::Return) {
            let r = Err(e);
            proof {
                assert forall|f: nat| f >= need(t.len() as int, c0, 16) implies #[trigger] g_return_statement(
                    t,
                    c0,
                    p0,
                    f,
                ) == (Out { cur: self.cur(), prog: self.prog(), res: rv(r) }) by {
                    assert(f > 0);
                }
            }
            return r;
        }
        let ghost c1 = self.cur();
        let ghost p1 = self.prog();
        let exp = if !self.check(TokenKind::Semicolon) {
            let eres = self.expression();
            let ghost c2 = self.cur();
            let ghost p2 = self.prog();
            let ghost er = rv(eres);
            proof {
                assert forall|f: nat| f >= need(t.len() as int, c0, 16) implies #[trigger] g_expression(
                    t,
                    c1,
                    p1,
                    (f - 1) as nat,
                ) == (Out { cur: c2, prog: p2, res: er }) by {
                    assert((f - 1) as nat >= need(t.len() as int, c1, 12));
                }
            }
            match eres {
                Ok(x) => Some(x),
                Err(e) => {
                    let r = Err(e);
                    proof {
                        assert forall|f: nat| f >= need(t.len() as int, c0, 16) implies #[trigger] g_return_statement(
                            t,
                            c0,
                            p0,
                            f,
                        ) == (Out { cur: self.cur(), prog: self.prog(), res: rv(r) }) by {
                            assert(f > 0);
                            assert(g_expression(t, c1, p1, (f - 1) as nat) == (Out { cur: c2, prog: p2, res: er }));
                        }
                    }
                    return r;
                },
            }
        } else {
            None
        };
        let ghost c3 = self.cur();
        let ghost p3 = self.prog();
        let ghost xv = match &exp {
            Some(x) => Ok::<SpecExpression, SpecParsingError>(x@),
            None => Ok::<SpecExpression, SpecParsingError>(SpecExpression::Int(0, (0, 0))),
        };
        let end = self.span_end();
        let r = Ok(Statement::ReturnStatement(ReturnStatement { exp, span: (start, end) }));
        proof {
            assert forall|f: nat| f >= need(t.len() as int, c0, 16) implies #[trigger] g_return_statement(
                t,
                c0,
                p0,
                f,
            ) == (Out { cur: self.cur(), prog: self.prog(), res: rv(r) }) by {
                assert(f > 0);
                if !(t[c1].kind is Semicolon) {
                    assert(g_expression(t, c1, p1, (f - 1) as nat) == (Out { cur: c3, prog: p3, res: xv }));
                }
            }
        }
        r
    }

    /// `{ STATEMENT* }`.
    #[verifier::rlimit(60)]
    pub fn block(&mut self) -> (r: Result<Vec<Statement>, ParsingError>)
        requires
            old(self).wf(),
        ensures
            final(self).wf(),
            final(self).toks() == old(self).toks(),
            old(self).cur() <= final(self).cur(),
            r is Ok ==> old(self).cur() + 1 < final(self).cur(),
            forall|f: nat|
                f >= need(old(self).toks().len() as int, old(self).cur(), 23) ==> #[trigger] g_block(
                    old(self).toks(),
                    old(self).cur(),
                    old(self).prog(),
                    f,
                ) == (Out { cur: final(self).cur(), prog: final(self).prog(), res: rv_stmts(r) }),
        decreases old(self).toks().len() - old(self).cur(), 23int,
    {
        let ghost t = self.toks();
        let ghost c0 = self.cur();
        let ghost p0 = self.prog();
        proof {
            self.lemma_wf();
        }
        if let Err(e) = self.consume(TokenKind::BracketOpen) {
            let r = Err(e);
            proof {
                assert forall|f: nat| f >= need(t.len() as int, c0, 23) implies #[trigger] g_block(
                    t,
                    c0,
                    p0,
                    f,
                ) == (Out { cur: self.cur(), prog: self.prog(), res: rv_stmts(r) }) by {
                    assert(f > 0);
                }
            }
            return r;
        }
        self.save_progress();
        let mut body: Vec<Statement> = Vec::new();
        let ghost mut i: int = 0;
        proof {
            assert(stmts_view(body@) =~= seq![]);
            assert forall|f: nat| f >= need(t.len() as int, c0, 23) implies #[trigger] g_block(
                t,
                c0,
                p0,
                f,
            ) == g_block_loop(t, self.cur(), self.prog(), stmts_view(body@), (f - 1 - i) as nat) by {
                assert(f > 0);
            }
        }
        loop
            invariant
                t == old(self).toks(),
                c0 == old(self).cur(),
                p0 == old(self).prog(),
                self.wf(),
                self.toks() == t,
                c0 < t.len(),
                0 <= i,
                self.cur() >= c0 + 1 + i,
                self.prog() == self.cur(),
                forall|f: nat|
                    f >= need(t.len() as int, c0, 23) ==> #[trigger] g_block(t, c0, p0, f)
                        == g_block_loop(
                        t,
                        self.cur(),
                        self.prog(),
                        stmts_view(body@),
                        (f - 1 - i) as nat,
                    ),
            decreases t.len() - self.cur(),
        {
            let ghost cc = self.cur();
            let ghost acc = stmts_view(body@);
            proof {
                self.lemma_wf();
            }
            if self.match_tok(TokenKind::BracketClose) {
                let r = Ok(body);
                proof {
                    assert forall|f: nat| f >= need(t.len() as int, c0, 23) implies #[trigger] g_block(
                        t,
                        c0,
                        p0,
                        f,
                    ) == (Out { cur: self.cur(), prog: self.prog(), res: rv_stmts(r) }) by {
                        assert((f - 1 - i) as nat > 0);
                    }
                }
                return r;
            }
            let sres = self.statement();
            let ghost sr = rv(sres);
            proof {
                assert forall|f: nat| f >= need(t.len() as int, c0, 23) implies #[trigger] g_block(
                    t,
                    c0,
                    p0,
                    f,
                ) == (match sr {
                    Err(e) => err_out(self.cur(), self.prog(), e),
                    Ok(st) => g_block_loop(
                        t,
                        self.cur(),
                        self.cur(),
                        acc.push(st),
                        (f - 1 - (i + 1)) as nat,
                    ),
                }) by {
                    assert((f - 1 - i) as nat > 0);
                    assert((f - 2 - i) as nat >= need(t.len() as int, cc, 21));
                    assert(g_statement(t, cc, cc, (f - 2 - i) as nat) == (Out {
                        cur: self.cur(),
                        prog: self.prog(),
                        res: sr,
                    }));
                }
            }
            let st = match sres {
                Ok(st) => st,
                Err(e) => return Err(e),
            };
            let ghost before = body@;
            body.push(st);
            proof {
                lemma_stmts_view_push(before, st);
            }
            self.save_progress();
            proof {
                self.lemma_wf();
                i = i + 1;
            }
        }
    }

    /// `if COND BLOCK`, any number of `else if COND BLOCK`, and an optional `else BLOCK`.
    pub fn if_statement(&mut self) -> (r: Result<IfStatement, ParsingError>)
        requires
            old(self).wf(),
        ensures
            final(self).wf(),
            final(self).toks() == old(self).toks(),
            old(self).cur() <= final(self).cur(),
            r is Ok ==> old(self).cur() < final(self).cur(),
            forall|f: nat|
                f >= need(old(self).toks().len() as int, old(self).cur(), 19) ==> #[trigger] g_if_statement(
                    old(self).toks(),
                    old(self).cur(),
                    old(self).prog(),
                    f,
                ) == (Out { cur: final(self).cur(), prog: final(self).prog(), res: rv_if(r) }),
        decreases old(self).toks().len() - old(self).cur(), 19int,
    {
        let ghost t = self.toks();
        let ghost c0 = self.cur();
        let ghost p0 = self.prog();
        proof {
            self.lemma_wf();
        }
        if let Err(e) = self.consume(TokenKind::If) {
            let r = Err(e);
            proof {
                assert forall|f: nat| f >= need(t.len() as int, c0, 19) implies #[trigger] g_if_statement(
                    t,
                    c0,
                    p0,
                    f,
            ) == (Out { cur: self.cur(), prog: self.prog(), res: rv_if(r) }) by {
                    lemma_if_first_branch(t, c0, p0, f, g_expression(t, c0 + 1, c0 + 1, (f - 1) as nat), g_block(t, 0, 0, 0));
                }
            }
            return r;
        }
        let if_begin = self.previous_span().0;
        let ghost c1 = self.cur();
        let ghost p1 = self.prog();
        let eres = self.expression();
        let ghost c2 = self.cur();
        let ghost p2 = self.prog();
        let ghost er = rv(eres);
        let ghost eo = Out { cur: c2, prog: p2, res: er };
        proof {
            self.lemma_wf();
            assert forall|f: nat| f >= need(t.len() as int, c0, 19) implies #[trigger] g_expression(t, c1, p1, (f - 1) as nat) == eo by {
                assert((f - 1) as nat >= need(t.len() as int, c1, 12));
            }
        }
        let cond = match eres {
            Ok(x) => x,
            Err(e) => {
                let r = Err(e);
                proof {
                    assert forall|f: nat| f >= need(t.len() as int, c0, 19) implies #[trigger] g_if_statement(
                            t,
                            c0,
                            p0,
                            f,
                    ) == (Out { cur: self.cur(), prog: self.prog(), res: rv_if(r) }) by {
                        assert(g_expression(t, c1, p1, (f - 1) as nat) == eo);
                        lemma_if_first_branch(t, c0, p0, f, eo, g_block(t, 0, 0, 0));
                    }
                }
                return r;
            },
        };
        let bres = self.block();
        let ghost c3 = self.cur();
        let ghost p3 = self.prog();
        let ghost brr = rv_stmts(bres);
        let ghost bo = Out { cur: c3, prog: p3, res: brr };
        proof {
            self.lemma_wf();
            assert forall|f: nat| f >= need(t.len() as int, c0, 19) implies #[trigger] g_block(t, c2, p2, (f - 1) as nat) == bo by {
                assert((f - 1) as nat >= need(t.len() as int, c2, 23));
            }
        }
        let body = match bres {
            Ok(b) => b,
            Err(e) => {
                let r = Err(e);
                proof {
                    assert forall|f: nat| f >= need(t.len() as int, c0, 19) implies #[trigger] g_if_statement(
                            t,
                            c0,
                            p0,
                            f,
                    ) == (Out { cur: self.cur(), prog: self.prog(), res: rv_if(r) }) by {
                        assert(g_expression(t, c1, p1, (f - 1) as nat) == eo);
                        assert(g_block(t, c2, p2, (f - 1) as nat) == bo);
                        lemma_if_first_branch(t, c0, p0, f, eo, bo);
                    }
                }
                return r;
            },
        };
        let body_end = self.previous_span().1;
        let mut branches: Vec<IfBranch> = Vec::new();
        branches.push(IfBranch { cond, body, span: (if_begin, body_end) });
        proof {
            lemma_branches_view_push(seq![], branches@[0]);
            assert(branches@ =~= Seq::<IfBranch>::empty().push(branches@[0]));
            assert(branches_view(Seq::<IfBranch>::empty()) =~= seq![]);
            assert(branches_view(branches@) =~= seq![
                (er->Ok_0, brr->Ok_0, (if_begin as int, t[c3 - 1].span.1)),
            ]);
        }
        let ghost bv = branches_view(branches@);
        let r = self.else_branches(branches, if_begin);
        proof {
            assert forall|f: nat| f >= need(t.len() as int, c0, 19) implies #[trigger] g_if_statement(
                    t,
                    c0,
                    p0,
                    f,
            ) == (Out { cur: self.cur(), prog: self.prog(), res: rv_if(r) }) by {
                assert(g_expression(t, c1, p1, (f - 1) as nat) == eo);
                assert(g_block(t, c2, p2, (f - 1) as nat) == bo);
                lemma_if_first_branch(t, c0, p0, f, eo, bo);
                assert((f - 1) as nat >= need(t.len() as int, c3, 22));
                assert(g_else_loop(t, c3, p3, bv, if_begin as int, (f - 1) as nat) == (Out {
                    cur: self.cur(),
                    prog: self.prog(),
                    res: rv_if(r),
                }));
            }
        }
        r
    }

    /// The `else if` and `else` branches after the first branch of an if clause.
    #[verifier::spinoff_prover]
    #[verifier::rlimit(60)]
    fn else_branches(&mut self, branches: Vec<IfBranch>, if_begin: usize) -> (r: Result<
        IfStatement,
        ParsingError,
    >)
        requires
            old(self).wf(),
            old(self).cur() > 0,
        ensures
            final(self).wf(),
            final(self).toks() == old(self).toks(),
            old(self).cur() <= final(self).cur(),
            forall|f: nat|
                f >= need(old(self).toks().len() as int, old(self).cur(), 22) ==> #[trigger] g_else_loop(
                    old(self).toks(),
                    old(self).cur(),
                    old(self).prog(),
                    branches_view(branches@),
                    if_begin as int,
                    f,
                ) == (Out { cur: final(self).cur(), prog: final(self).prog(), res: rv_if(r) }),
        decreases old(self).toks().len() - old(self).cur(), 22int,
    {
        let ghost t = self.toks();
        let ghost c0 = self.cur();
        let ghost p0 = self.prog();
        let ghost bv = branches_view(branches@);
        proof {
            self.lemma_wf();
        }
        let mut branches = branches;
        if !self.match_tok(TokenKind::Else) {
            let if_end = self.previous_span().1;
            let r = Ok(IfStatement { branches, else_branch: None, span: (if_begin, if_end) });
            proof {
                assert forall|f: nat| f >= need(t.len() as int, c0, 22) implies #[trigger] g_else_loop(
                    t,
                    c0,
                    p0,
                    bv,
                    if_begin as int,
                    f,
                ) == (Out { cur: self.cur(), prog: self.prog(), res: rv_if(r) }) by {
                    assert(f > 0);
                    let eo = g_expression(t, c0 + 2, p0, (f - 1) as nat);
                    let bo = if c0 + 1 < t.len() && t[c0 + 1].kind is If {
                        g_block(t, eo.cur, eo.prog, (f - 1) as nat)
                    } else {
                        g_block(t, c0 + 1, p0, (f - 1) as nat)
                    };
                    lemma_else_step(t, c0, p0, bv, if_begin as int, f, eo, bo);
                }
            }
            return r;
        }
        let else_begin = self.previous_span().0;
        if self.match_tok(TokenKind::If) {
            let ghost c4 = self.cur();
            proof {
                self.lemma_wf();
            }
            let eres = self.expression();
            let ghost c5 = self.cur();
            let ghost p5 = self.prog();
            let ghost er = rv(eres);
            proof {
                self.lemma_wf();
            }
            let cond = match eres {
                Ok(x) => x,
                Err(e) => {
                    let r = Err(e);
                    proof {
                        assert forall|f: nat| f >= need(t.len() as int, c0, 22) implies #[trigger] g_else_loop(
                            t,
                            c0,
                            p0,
                            bv,
                            if_begin as int,
                            f,
                        ) == (Out { cur: self.cur(), prog: self.prog(), res: rv_if(r) }) by {
                            assert(f > 0);
                            let eo = g_expression(t, c0 + 2, p0, (f - 1) as nat);
                            let bo = if c0 + 1 < t.len() && t[c0 + 1].kind is If {
                                g_block(t, eo.cur, eo.prog, (f - 1) as nat)
                            } else {
                                g_block(t, c0 + 1, p0, (f - 1) as nat)
                            };
                            lemma_else_step(t, c0, p0, bv, if_begin as int, f, eo, bo);
                            assert((f - 1) as nat >= need(t.len() as int, c4, 12));
                            assert(g_expression(t, c4, p0, (f - 1) as nat) == (Out { cur: c5, prog: p5, res: er }));
                        }
                    }
                    return r;
                },
            };
            let bres = self.block();
            let ghost c6 = self.cur();
            let ghost p6 = self.prog();
            let ghost br = rv_stmts(bres);
            proof {
                self.lemma_wf();
            }
            let body = match bres {
                Ok(b) => b,
                Err(e) => {
                    let r = Err(e);
                    proof {
                        assert forall|f: nat| f >= need(t.len() as int, c0, 22) implies #[trigger] g_else_loop(
                            t,
                            c0,
                            p0,
                            bv,
                            if_begin as int,
                            f,
                        ) == (Out { cur: self.cur(), prog: self.prog(), res: rv_if(r) }) by {
                            assert(f > 0);
                            let eo = g_expression(t, c0 + 2, p0, (f - 1) as nat);
                            let bo = if c0 + 1 < t.len() && t[c0 + 1].kind is If {
                                g_block(t, eo.cur, eo.prog, (f - 1) as nat)
                            } else {
                                g_block(t, c0 + 1, p0, (f - 1) as nat)
                            };
                            lemma_else_step(t, c0, p0, bv, if_begin as int, f, eo, bo);
                            assert((f - 1) as nat >= need(t.len() as int, c4, 12));
                            assert(g_expression(t, c4, p0, (f - 1) as nat) == (Out { cur: c5, prog: p5, res: er }));
                            assert((f - 1) as nat >= need(t.len() as int, c5, 23));
                            assert(g_block(t, c5, p5, (f - 1) as nat) == (Out { cur: c6, prog: p6, res: br }));
                        }
                    }
                    return r;
                },
            };
            let body_end = self.previous_span().0;
            let branch = IfBranch { cond, body, span: (else_begin, body_end) };
            let ghost before = branches@;
            branches.push(branch);
            proof {
                lemma_branches_view_push(before, branch);
            }
            let ghost bv2 = branches_view(branches@);
            let r = self.else_branches(branches, if_begin);
            proof {
                assert forall|f: nat| f >= need(t.len() as int, c0, 22) implies #[trigger] g_else_loop(
                    t,
                    c0,
                    p0,
                    bv,
                    if_begin as int,
                    f,
                ) == (Out { cur: self.cur(), prog: self.prog(), res: rv_if(r) }) by {
                    assert(f > 0);
                    let eo = g_expression(t, c0 + 2, p0, (f - 1) as nat);
                    let bo = if c0 + 1 < t.len() && t[c0 + 1].kind is If {
                        g_block(t, eo.cur, eo.prog, (f - 1) as nat)
                    } else {
                        g_block(t, c0 + 1, p0, (f - 1) as nat)
                    };
                    lemma_else_step(t, c0, p0, bv, if_begin as int, f, eo, bo);
                    assert((f - 1) as nat >= need(t.len() as int, c4, 12));
                    assert(g_expression(t, c4, p0, (f - 1) as nat) == (Out { cur: c5, prog: p5, res: er }));
                    assert((f - 1) as nat >= need(t.len() as int, c5, 23));
                    assert(g_block(t, c5, p5, (f - 1) as nat) == (Out { cur: c6, prog: p6, res: br }));
                    assert((f - 1) as nat >= need(t.len() as int, c6, 22));
                    assert(g_else_loop(t, c6, p6, bv2, if_begin as int, (f - 1) as nat) == (Out {
                        cur: self.cur(),
                        prog: self.prog(),
                        res: rv_if(r),
                    }));
                }
            }
            r
        } else {
            let ghost c4 = self.cur();
            proof {
                self.lemma_wf();
            }
            let bres = self.block();
            let ghost c6 = self.cur();
            let ghost p6 = self.prog();
            let ghost br = rv_stmts(bres);
            let r = match bres {
                Err(e) => Err(e),
                Ok(b) => {
                    let if_end = self.previous_span().1;
                    Ok(IfStatement { branches, else_branch: Some(b), span: (if_begin, if_end) })
                },
            };
            proof {
                assert forall|f: nat| f >= need(t.len() as int, c0, 22) implies #[trigger] g_else_loop(
                    t,
                    c0,
                    p0,
                    bv,
                    if_begin as int,
                    f,
                ) == (Out { cur: self.cur(), prog: self.prog(), res: rv_if(r) }) by {
                    assert(f > 0);
                    let eo = g_expression(t, c0 + 2, p0, (f - 1) as nat);
                    let bo = if c0 + 1 < t.len() && t[c0 + 1].kind is If {
                        g_block(t, eo.cur, eo.prog, (f - 1) as nat)
                    } else {
                        g_block(t, c0 + 1, p0, (f - 1) as nat)
                    };
                    lemma_else_step(t, c0, p0, bv, if_begin as int, f, eo, bo);
                    assert((f - 1) as nat >= need(t.len() as int, c4, 23));
                    assert(g_block(t, c4, p0, (f - 1) as nat) == (Out { cur: c6, prog: p6, res: br }));
                }
            }
            r
        }
    }

    /// Variable declarations starting with `var`, for as long as commas join them.
    pub fn decl_statement(&mut self) -> (r: Result<Vec<VarDeclaration>, ParsingError>)
        requires
            old(self).wf(),
        ensures
            final(self).wf(),
            final(self).toks() == old(self).toks(),
            old(self).cur() <= final(self).cur(),
            forall|f: nat|
                f >= need(old(self).toks().len() as int, old(self).cur(), 20) ==> #[trigger] g_decl_statement(
                    old(self).toks(),
                    old(self).cur(),
                    old(self).prog(),
                    f,
                ) == (Out { cur: final(self).cur(), prog: final(self).prog(), res: rv_var_decls(r) }),
    {
        let ghost t = self.toks();
        let ghost c0 = self.cur();
        let ghost p0 = self.prog();
        proof {
            self.lemma_wf();
        }
        let mut decls: Vec<VarDeclaration> = Vec::new();
        let ghost mut i: int = 0;
        proof {
            assert(var_decls_view(decls@) =~= seq![]);
        }
        loop
            invariant
                t == old(self).toks(),
                c0 == old(self).cur(),
                p0 == old(self).prog(),
                self.wf(),
                self.toks() == t,
                c0 < t.len(),
                0 <= i,
                self.cur() >= c0 + 2 * i,
                forall|f: nat|
                    f >= need(t.len() as int, c0, 20) ==> #[trigger] g_decl_statement(t, c0, p0, f)
                        == g_decl_statement_loop(
                        t,
                        self.cur(),
                        self.prog(),
                        var_decls_view(decls@),
                        (f - 1 - i) as nat,
                    ),
            decreases t.len() - self.cur(),
        {
            let ghost cc = self.cur();
            let ghost pp = self.prog();
            let ghost acc = var_decls_view(decls@);
            proof {
                self.lemma_wf();
            }
            if !self.check(TokenKind::Var) {
                let r = Ok(decls);
                proof {
                    assert forall|f: nat| f >= need(t.len() as int, c0, 20) implies #[trigger] g_decl_statement(
                        t,
                        c0,
                        p0,
                        f,
                    ) == (Out { cur: self.cur(), prog: self.prog(), res: rv_var_decls(r) }) by {
                        assert((f - 1 - i) as nat > 0);
                    }
                }
                return r;
            }
            let vres = self.var_decl();
            let ghost vr = rv_var_decls(vres);
            proof {
                self.lemma_wf();
                assert forall|f: nat| f >= need(t.len() as int, c0, 20) implies #[trigger] g_decl_statement(
                    t,
                    c0,
                    p0,
                    f,
                ) == (match vr {
                    Err(e) => err_out(self.cur(), self.prog(), e),
                    Ok(ds) => if t[self.cur()].kind is Comma {
                        g_decl_statement_loop(
                            t,
                            self.cur() + 1,
                            self.prog(),
                            acc + ds,
                            (f - 1 - (i + 1)) as nat,
                        )
                    } else {
                        ok_out(self.cur(), self.prog(), acc + ds)
                    },
                }) by {
                    assert((f - 1 - i) as nat > 0);
                    assert((f - 2 - i) as nat >= need(t.len() as int, cc, 18));
                    assert(g_var_decl(t, cc, pp, (f - 2 - i) as nat) == (Out {
                        cur: self.cur(),
                        prog: self.prog(),
                        res: vr,
                    }));
                }
            }
            let mut ds = match vres {
                Ok(ds) => ds,
                Err(e) => return Err(e),
            };
            let ghost before = decls@;
            let ghost dsv = ds@;
            decls.append(&mut ds);
            proof {
                assert(var_decls_view(decls@) =~= acc + var_decls_view(dsv));
            }
            if !self.match_tok(TokenKind::Comma) {
                let r = Ok(decls);
                proof {
                    assert forall|f: nat| f >= need(t.len() as int, c0, 20) implies #[trigger] g_decl_statement(
                        t,
                        c0,
                        p0,
                        f,
                    ) == (Out { cur: self.cur(), prog: self.prog(), res: rv_var_decls(r) }) by {
                    }
                }
                return r;
            }
            proof {
                self.lemma_wf();
                i = i + 1;
            }
        }
    }
}

/// How an if clause continues once its first condition and block are parsed.
proof fn lemma_if_first_branch(
    t: Seq<SpecToken>,
    c0: int,
    p0: int,
    f: nat,
    eo: Out<SpecExpression>,
    bo: Out<Seq<SpecStatement>>,
)
    requires
        f > 0,
        0 <= c0 < t.len(),
        t[c0].kind == SpecTokenKind::If ==> g_expression(t, c0 + 1, c0 + 1, (f - 1) as nat) == eo,
        t[c0].kind == SpecTokenKind::If && eo.res is Ok ==> g_block(t, eo.cur, eo.prog, (f - 1) as nat) == bo,
    ensures
        t[c0].kind != SpecTokenKind::If ==> g_if_statement(t, c0, p0, f) == err_out::<SpecStatement>(
            c0,
            p0,
            spec_error(SpecParsingErrorKind::ExpectedToken(SpecTokenKind::If), c0, true),
        ),
        t[c0].kind == SpecTokenKind::If ==> g_if_statement(t, c0, p0, f) == (match eo.res {
            Err(e) => err_out(eo.cur, eo.prog, e),
            Ok(cond) => match bo.res {
                Err(e) => err_out(bo.cur, bo.prog, e),
                Ok(body) => g_else_loop(
                    t,
                    bo.cur,
                    bo.prog,
                    seq![(cond, body, (t[c0].span.0, t[bo.cur - 1].span.1))],
                    t[c0].span.0,
                    (f - 1) as nat,
                ),
            },
        }),
{
}

/// How the `else` part of an if clause unfolds, given what its parts parse to.
proof fn lemma_else_step(
    t: Seq<SpecToken>,
    c: int,
    p: int,
    bv: Seq<SpecBranch>,
    begin: int,
    f: nat,
    eo: Out<SpecExpression>,
    bo: Out<Seq<SpecStatement>>,
)
    requires
        f > 0,
        0 <= c < t.len(),
        t[c].kind is Else && (c + 1 < t.len() && t[c + 1].kind is If) ==> g_expression(t, c + 2, p, (f - 1) as nat) == eo,
        t[c].kind is Else && (c + 1 < t.len() && t[c + 1].kind is If) && eo.res is Ok ==> g_block(
            t,
            eo.cur,
            eo.prog,
            (f - 1) as nat,
        ) == bo,
        t[c].kind is Else && !((c + 1 < t.len() && t[c + 1].kind is If)) ==> g_block(t, c + 1, p, (f - 1) as nat) == bo,
    ensures
        !(t[c].kind is Else) ==> g_else_loop(t, c, p, bv, begin, f) == finish_if(
            t,
            c,
            p,
            bv,
            None,
            begin,
        ),
        t[c].kind is Else && (c + 1 < t.len() && t[c + 1].kind is If) ==> g_else_loop(t, c, p, bv, begin, f) == (match eo.res {
            Err(e) => err_out(eo.cur, eo.prog, e),
            Ok(cond) => match bo.res {
                Err(e) => err_out(bo.cur, bo.prog, e),
                Ok(body) => g_else_loop(
                    t,
                    bo.cur,
                    bo.prog,
                    bv.push((cond, body, (t[c].span.0, t[bo.cur - 1].span.0))),
                    begin,
                    (f - 1) as nat,
                ),
            },
        }),
        t[c].kind is Else && !((c + 1 < t.len() && t[c + 1].kind is If)) ==> g_else_loop(t, c, p, bv, begin, f) == (match bo.res {
            Err(e) => err_out(bo.cur, bo.prog, e),
            Ok(body) => finish_if(t, bo.cur, bo.prog, bv, Some(body), begin),
        }),
{
}

} // verus!
