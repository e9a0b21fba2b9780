//! Variable, constant, class and global declarations.
use crate::lexer::{SpecTokenKind, TokenKind};
use crate::parser::errors::{ParsingError, ParsingErrorKind, SpecParsingError, SpecParsingErrorKind, spec_error};
use crate::parser::parser::{
    g_class_decl, g_class_loop, g_const_decl_decl, g_func_decl, g_global_declaration,
    g_instance_decl, g_prototype_decl,
    Out, Parser, err_out, g_array_size, g_const_array, g_const_decl_stmt, g_const_rest, g_consume,
    g_expression, g_expression_list, g_ident, g_single_var_decl, g_var_decl, g_var_decl_loop,
    need, ok_out, rv, rv_exprs, rv_var_decls,
};
use crate::types::{
    Class, Declaration, Instance,
    array_size_view, var_decls_view, ArraySizeDeclaration, ConstArrayDeclaration,
    ConstArrayInitializer, ConstDeclaration, Identifier, SpecIdentifier, SpecStatement,
    SpecVarDeclaration, Statement, VarDeclaration,
};
use vstd::prelude::*;

verus! {

impl Parser {
    /// `var TYPE NAME`, then after each comma another `var` declaration or a further name
    /// of the first declaration's type.
    pub fn var_decl(&mut self) -> (r: Result<Vec<VarDeclaration>, ParsingError>)
        requires
            old(self).wf(),
        ensures
            final(self).wf(),
            final(self).toks() == old(self).toks(),
            old(self).cur() <= final(self).cur(),
            r is Ok ==> old(self).cur() < final(self).cur(),
            forall|f: nat|
                f >= need(old(self).toks().len() as int, old(self).cur(), 18) ==> #[trigger] g_var_decl(
                    old(self).toks(),
                    old(self).cur(),
                    old(self).prog(),
                    f,
                ) == (Out { cur: final(self).cur(), prog: final(self).prog(), res: rv_var_decls(r) }),
    {
        let ghost t = self.toks();
        let ghost c0 = self.cur();
        let ghost p0 = self.prog();
        proof {
            self.lemma_wf();
        }
        let fres = self.single_var_decl();
        let ghost fr = rv(fres);
        proof {
            assert(g_single_var_decl(t, c0, p0) == (Out { cur: self.cur(), prog: self.prog(), res: fr }));
        }
        let first = match fres {
            Ok(d) => d,
            Err(e) => {
                let r = Err(e);
                proof {
                    assert(fr == Err::<SpecVarDeclaration, SpecParsingError>(e@));
                    assert(rv_var_decls(r) == Err::<Seq<SpecVarDeclaration>, SpecParsingError>(e@));
                    assert forall|f: nat| f >= need(t.len() as int, c0, 18) implies #[trigger] g_var_decl(t, c0, p0, f) == (Out { cur: self.cur(), prog: self.prog(), res: rv_var_decls(r) }) by {
                        assert(f > 0);
                    }
                }
                return r;
            },
        };
        self.save_progress();
        let typ = first.typ.duplicate();
        let ghost typ_v = typ@;
        let mut decls: Vec<VarDeclaration> = Vec::new();
        decls.push(first);
        let ghost mut i: int = 0;
        proof {
            assert forall|f: nat| f >= need(t.len() as int, c0, 18) implies #[trigger] g_var_decl(t, c0, p0, f) == g_var_decl_loop(t, self.cur(), self.prog(), var_decls_view(decls@), typ_v, (f - 1 - i) as nat) by {
                assert(f > 0);
                assert(var_decls_view(decls@) =~= seq![decls@[0]@]);
            }
        }
        loop
            invariant
                t == old(self).toks(),
                c0 == old(self).cur(),
                p0 == old(self).prog(),
                self.wf(),
                self.toks() == t,
                c0 < t.len(),
                typ@ == typ_v,
                0 <= i,
                self.cur() >= c0 + 1 + i,
                self.prog() == self.cur(),
                forall|f: nat|
                    f >= need(t.len() as int, c0, 18) ==> #[trigger] g_var_decl(t, c0, p0, f)
                        == g_var_decl_loop(
                        t,
                        self.cur(),
                        self.prog(),
                        var_decls_view(decls@),
                        typ_v,
                        (f - 1 - i) as nat,
                    ),
            decreases t.len() - self.cur(),
        {
            let ghost cc = self.cur();
            let ghost acc = var_decls_view(decls@);
            proof {
                self.lemma_wf();
            }
            if !self.match_tok(TokenKind::Comma) {
                let r = Ok(decls);
                proof {
                    assert forall|f: nat| f >= need(t.len() as int, c0, 18) implies #[trigger] g_var_decl(t, c0, p0, f) == (Out { cur: self.cur(), prog: self.prog(), res: rv_var_decls(r) }) by {
                        assert((f - 1 - i) as nat > 0);
                    }
                }
                return r;
            }
            let d = if self.check(TokenKind::Var) {
                let sres = self.single_var_decl();
                match sres {
                    Ok(d) => d,
                    Err(e) => {
                        let r = Err(e);
                        proof {
                            assert forall|f: nat| f >= need(t.len() as int, c0, 18) implies #[trigger] g_var_decl(t, c0, p0, f) == (Out { cur: self.cur(), prog: self.prog(), res: rv_var_decls(r) }) by {
                                assert((f - 1 - i) as nat > 0);
                            }
                        }
                        return r;
                    },
                }
            } else {
                let start = self.span_start();
                let name = match self.ident() {
                    Ok(n) => n,
                    Err(e) => {
                        let r = Err(e);
                        proof {
                            assert forall|f: nat| f >= need(t.len() as int, c0, 18) implies #[trigger] g_var_decl(t, c0, p0, f) == (Out { cur: self.cur(), prog: self.prog(), res: rv_var_decls(r) }) by {
                                assert((f - 1 - i) as nat > 0);
                            }
                        }
                        return r;
                    },
                };
                let ice = self.freeze();
                let size = match self.array_size_decl() {
                    Ok(a) => Some(a),
                    Err(_) => {
                        self.restore(ice);
                        None
                    },
                };
                let end = self.span_end();
                VarDeclaration::new(typ.duplicate(), name, size, (start, end))
            };
            self.save_progress();
            let ghost before = decls@;
            decls.push(d);
            proof {
                assert(var_decls_view(decls@) =~= acc.push(d@));
                assert forall|f: nat| f >= need(t.len() as int, c0, 18) implies #[trigger] g_var_decl(t, c0, p0, f) == g_var_decl_loop(t, self.cur(), self.prog(), var_decls_view(decls@), typ_v, (f - 1 - (i + 1)) as nat) by {
                    assert((f - 1 - i) as nat > 0);
                }
                i = i + 1;
            }
        }
    }

    /// `const TYPE NAME = EXPRESSION`, or `const TYPE NAME [SIZE] = { EXPRESSIONS }`.
    pub fn const_decl_stmt(&mut self) -> (r: Result<Statement, ParsingError>)
        requires
            old(self).wf(),
        ensures
            final(self).wf(),
            final(self).toks() == old(self).toks(),
            old(self).cur() <= final(self).cur(),
            r is Ok ==> old(self).cur() < final(self).cur(),
            forall|f: nat|
                f >= need(old(self).toks().len() as int, old(self).cur(), 17) ==> #[trigger] g_const_decl_stmt(
                    old(self).toks(),
                    old(self).cur(),
                    old(self).prog(),
                    f,
                ) == (Out { cur: final(self).cur(), prog: final(self).prog(), res: rv(r) }),
    {
        let ghost t = self.toks();
        let ghost c0 = self.cur();
        let ghost p0 = self.prog();
        proof {
            self.lemma_wf();
        }
        let begin = self.span_start();
        if let Err(e) = self.consume(TokenKind::Const) {
            let r = Err(e);
            proof {
                assert forall|f: nat| f >= need(t.len() as int, c0, 17) implies #[trigger] g_const_decl_stmt(t, c0, p0, f) == (Out { cur: self.cur(), prog: self.prog(), res: rv(r) }) by {
                    assert(f > 0);
                }
            }
            return r;
        }
        let typ = match self.ident() {
            Ok(x) => x,
            Err(e) => {
                let r = Err(e);
                proof {
                    assert forall|f: nat| f >= need(t.len() as int, c0, 17) implies #[trigger] g_const_decl_stmt(t, c0, p0, f) == (Out { cur: self.cur(), prog: self.prog(), res: rv(r) }) by {
                        assert(f > 0);
                    }
                }
                return r;
            },
        };
        let name = match self.ident() {
            Ok(x) => x,
            Err(e) => {
                let r = Err(e);
                proof {
                    assert forall|f: nat| f >= need(t.len() as int, c0, 17) implies #[trigger] g_const_decl_stmt(t, c0, p0, f) == (Out { cur: self.cur(), prog: self.prog(), res: rv(r) }) by {
                        assert(f > 0);
                    }
                }
                return r;
            },
        };
        let ghost c3 = self.cur();
        let ghost p3 = self.prog();
        let ghost tv = typ@;
        let ghost nv = name@;
        let r = self.const_rest(begin, typ, name);
        proof {
            assert forall|f: nat| f >= need(t.len() as int, c0, 17) implies #[trigger] g_const_decl_stmt(t, c0, p0, f) == (Out { cur: self.cur(), prog: self.prog(), res: rv(r) }) by {
                assert(f > 0);
                assert(g_const_rest(t, c3, p3, begin as int, tv, nv, (f - 1) as nat) == (Out {
                    cur: self.cur(),
                    prog: self.prog(),
                    res: rv(r),
                }));
            }
        }
        r
    }

    /// What follows the name of a constant: `= EXPRESSION` or `[SIZE] = { EXPRESSIONS }`.
    fn const_rest(&mut self, begin: usize, typ: Identifier, name: Identifier) -> (r: Result<
        Statement,
        ParsingError,
    >)
        requires
            old(self).wf(),
        ensures
            final(self).wf(),
            final(self).toks() == old(self).toks(),
            old(self).cur() <= final(self).cur(),
            r is Ok ==> old(self).cur() < final(self).cur(),
            forall|f: nat|
                f >= need(old(self).toks().len() as int, old(self).cur(), 16) ==> #[trigger] g_const_rest(
                    old(self).toks(),
                    old(self).cur(),
                    old(self).prog(),
                    begin as int,
                    typ@,
                    name@,
                    f,
                ) == (Out { cur: final(self).cur(), prog: final(self).prog(), res: rv(r) }),
    {
        let ghost t = self.toks();
        let ghost c0 = self.cur();
        let ghost p0 = self.prog();
        proof {
            self.lemma_wf();
        }
        let ghost tv = typ@;
        let ghost nv = name@;
        if self.match_tok(TokenKind::Assign) {
            let eres = self.expression();
            let ghost c1 = self.cur();
            let ghost p1 = self.prog();
            let ghost er = rv(eres);
            proof {
                self.lemma_wf();
            }
            let r = match eres {
                Err(e) => Err(e),
                Ok(x) => {
                    let end = self.span_end();
                    Ok(Statement::ConstDeclaration(ConstDeclaration::new(typ, name, x, (begin, end))))
                },
            };
            proof {
                assert forall|f: nat| f >= need(t.len() as int, c0, 16) implies #[trigger] g_const_rest(t, c0, p0, begin as int, tv, nv, f) == (Out { cur: self.cur(), prog: self.prog(), res: rv(r) }) by {
                    assert(f > 0);
                    assert((f - 1) as nat >= need(t.len() as int, c0 + 1, 12));
                    assert(g_expression(t, c0 + 1, p0, (f - 1) as nat) == (Out { cur: c1, prog: p1, res: er }));
                }
            }
            return r;
        }
        if !self.check(TokenKind::SquareOpen) {
            let expected = vec![TokenKind::SquareOpen, TokenKind::Assign];
            proof {
                assert(expected@.map_values(|k: TokenKind| k@) =~= seq![SpecTokenKind::SquareOpen, SpecTokenKind::Assign]);
            }
            let r = Err(
                ParsingError::from_token(
                    ParsingErrorKind::ExpectedOneOfToken(expected),
                    self.current_id(),
                    true,
                ),
            );
            proof {
                assert forall|f: nat| f >= need(t.len() as int, c0, 16) implies #[trigger] g_const_rest(t, c0, p0, begin as int, tv, nv, f) == (Out { cur: self.cur(), prog: self.prog(), res: rv(r) }) by {
                    assert(f > 0);
                }
            }
            return r;
        }
        let r = self.const_array_rest(begin, typ, name);
        proof {
            assert forall|f: nat| f >= need(t.len() as int, c0, 16) implies #[trigger] g_const_rest(t, c0, p0, begin as int, tv, nv, f) == (Out { cur: self.cur(), prog: self.prog(), res: rv(r) }) by {
                assert(f > 0);
                assert((f - 1) as nat >= need(t.len() as int, c0, 15));
            }
        }
        r
    }

    /// `[SIZE] = { EXPRESSIONS }` after the name of a constant.
    fn const_array_rest(&mut self, begin: usize, typ: Identifier, name: Identifier) -> (r: Result<
        Statement,
        ParsingError,
    >)
        requires
            old(self).wf(),
        ensures
            final(self).wf(),
            final(self).toks() == old(self).toks(),
            old(self).cur() <= final(self).cur(),
            r is Ok ==> old(self).cur() < final(self).cur(),
            forall|f: nat|
                f >= need(old(self).toks().len() as int, old(self).cur(), 15) ==> #[trigger] g_const_array(
                    old(self).toks(),
                    old(self).cur(),
                    old(self).prog(),
                    begin as int,
                    typ@,
                    name@,
                    f,
                ) == (Out { cur: final(self).cur(), prog: final(self).prog(), res: rv(r) }),
    {
        let ghost t = self.toks();
        let ghost c0 = self.cur();
        let ghost p0 = self.prog();
        let ghost tv = typ@;
        let ghost nv = name@;
        proof {
            self.lemma_wf();
        }
        let size = match self.array_size_decl() {
            Ok(a) => a,
            Err(e) => {
                let r = Err(e);
                proof {
                    assert forall|f: nat| f >= need(t.len() as int, c0, 15) implies #[trigger] g_const_array(t, c0, p0, begin as int, tv, nv, f) == (Out { cur: self.cur(), prog: self.prog(), res: rv(r) }) by {
                        assert(f > 0);
                    }
                }
                return r;
            },
        };
        if let Err(e) = self.consume(TokenKind::Assign) {
            let r = Err(e);
            proof {
                assert forall|f: nat| f >= need(t.len() as int, c0, 15) implies #[trigger] g_const_array(t, c0, p0, begin as int, tv, nv, f) == (Out { cur: self.cur(), prog: self.prog(), res: rv(r) }) by {
                    assert(f > 0);
                }
            }
            return r;
        }
        if let Err(e) = self.consume(TokenKind::BracketOpen) {
            let r = Err(e);
            proof {
                assert forall|f: nat| f >= need(t.len() as int, c0, 15) implies #[trigger] g_const_array(t, c0, p0, begin as int, tv, nv, f) == (Out { cur: self.cur(), prog: self.prog(), res: rv(r) }) by {
                    assert(f > 0);
                }
            }
            return r;
        }
        let istart = self.span_start();
        let ghost c4 = self.cur();
        let ghost p4 = self.prog();
        let lres = self.expression_list();
        let ghost c5 = self.cur();
        let ghost p5 = self.prog();
        let ghost lr = rv_exprs(lres);
        let exps = match lres {
            Ok(x) => x,
            Err(e) => {
                let r = Err(e);
                proof {
                    assert forall|f: nat| f >= need(t.len() as int, c0, 15) implies #[trigger] g_const_array(t, c0, p0, begin as int, tv, nv, f) == (Out { cur: self.cur(), prog: self.prog(), res: rv(r) }) by {
                        assert(f > 0);
                    assert((f - 1) as nat >= need(t.len() as int, c4, 14));
                    assert(g_expression_list(t, c4, p4, (f - 1) as nat) == (Out { cur: c5, prog: p5, res: lr }));
                    }
                }
                return r;
            },
        };
        let iend = self.span_end();
        if let Err(e) = self.consume(TokenKind::BracketClose) {
            let r = Err(e);
            proof {
                assert forall|f: nat| f >= need(t.len() as int, c0, 15) implies #[trigger] g_const_array(t, c0, p0, begin as int, tv, nv, f) == (Out { cur: self.cur(), prog: self.prog(), res: rv(r) }) by {
                    assert(f > 0);
                    assert((f - 1) as nat >= need(t.len() as int, c4, 14));
                    assert(g_expression_list(t, c4, p4, (f - 1) as nat) == (Out { cur: c5, prog: p5, res: lr }));
                }
            }
            return r;
        }
        let end = self.span_end();
        let init = ConstArrayInitializer::new(exps, (istart, iend));
        let r = Ok(
            Statement::ConstArrayDeclaration(
                ConstArrayDeclaration::new(typ, name, size, init, (begin, end)),
            ),
        );
        proof {
            assert forall|f: nat| f >= need(t.len() as int, c0, 15) implies #[trigger] g_const_array(t, c0, p0, begin as int, tv, nv, f) == (Out { cur: self.cur(), prog: self.prog(), res: rv(r) }) by {
                assert(f > 0);
                    assert((f - 1) as nat >= need(t.len() as int, c4, 14));
                    assert(g_expression_list(t, c4, p4, (f - 1) as nat) == (Out { cur: c5, prog: p5, res: lr }));
            }
        }
        r
    }

    /// A constant declaration at the top level of a file.
    pub fn const_decl_decl(&mut self) -> (r: Result<Declaration, ParsingError>)
        requires
            old(self).wf(),
        ensures
            final(self).wf(),
            final(self).toks() == old(self).toks(),
            old(self).cur() <= final(self).cur(),
            r is Ok ==> old(self).cur() < final(self).cur(),
            forall|f: nat|
                f >= need(old(self).toks().len() as int, old(self).cur(), 18) ==> #[trigger] g_const_decl_decl(
                    old(self).toks(),
                    old(self).cur(),
                    old(self).prog(),
                    f,
                ) == (Out { cur: final(self).cur(), prog: final(self).prog(), res: rv(r) }),
    {
        let ghost t = self.toks();
        let ghost c0 = self.cur();
        let ghost p0 = self.prog();
        proof {
            self.lemma_wf();
        }
        let sres = self.const_decl_stmt();
        let ghost c1 = self.cur();
        let ghost p1 = self.prog();
        let ghost sr = rv(sres);
        let r = match sres {
            Err(e) => Err(e),
            Ok(Statement::ConstDeclaration(d)) => Ok(Declaration::Const(d)),
            Ok(Statement::ConstArrayDeclaration(d)) => Ok(Declaration::ConstArray(d)),
            Ok(_) => Err(ParsingError::internal_error()),
        };
        proof {
            assert forall|f: nat| f >= need(t.len() as int, c0, 18) implies #[trigger] g_const_decl_decl(t, c0, p0, f) == (Out { cur: self.cur(), prog: self.prog(), res: rv(r) }) by {
                assert(f > 0);
                assert((f - 1) as nat >= need(t.len() as int, c0, 17));
                assert(g_const_decl_stmt(t, c0, p0, (f - 1) as nat) == (Out { cur: c1, prog: p1, res: sr }));
            }
        }
        r
    }


    /// Member declarations of a class, each followed by `;`, up to the closing bracket.
    fn class_members(&mut self) -> (r: Result<Vec<VarDeclaration>, ParsingError>)
        requires
            old(self).wf(),
        ensures
            final(self).wf(),
            final(self).toks() == old(self).toks(),
            old(self).cur() <= final(self).cur(),
            forall|f: nat|
                f >= need(old(self).toks().len() as int, old(self).cur(), 19) ==> #[trigger] g_class_loop(
                    old(self).toks(),
                    old(self).cur(),
                    old(self).prog(),
                    seq![],
                    f,
                ) == (Out { cur: final(self).cur(), prog: final(self).prog(), res: rv_var_decls(r) }),
    {
        let ghost t = self.toks();
        let ghost c0 = self.cur();
        let ghost p0 = self.prog();
        proof {
            self.lemma_wf();
        }
        let mut decls: Vec<VarDeclaration> = Vec::new();
        let ghost mut i: int = 0;
        proof {
            assert(var_decls_view(decls@) =~= seq![]);
        }
        loop
            invariant
                t == old(self).toks(),
                c0 == old(self).cur(),
                p0 == old(self).prog(),
                self.wf(),
                self.toks() == t,
                c0 < t.len(),
                0 <= i,
                self.cur() >= c0 + 2 * i,
                forall|f: nat|
                    f >= need(t.len() as int, c0, 19) ==> #[trigger] g_class_loop(t, c0, p0, seq![], f)
                        == g_class_loop(t, self.cur(), self.prog(), var_decls_view(decls@), (f - i) as nat),
            decreases t.len() - self.cur(),
        {
            let ghost cc = self.cur();
            let ghost pp = self.prog();
            let ghost acc = var_decls_view(decls@);
            proof {
                self.lemma_wf();
            }
            if self.check(TokenKind::BracketClose) {
                let r = Ok(decls);
                proof {
                    assert forall|f: nat| f >= need(t.len() as int, c0, 19) implies #[trigger] g_class_loop(t, c0, p0, seq![], f) == (Out { cur: self.cur(), prog: self.prog(), res: rv_var_decls(r) }) by {
                        assert((f - i) as nat > 0);
                    }
                }
                return r;
            }
            let vres = self.var_decl();
            let ghost c1 = self.cur();
            let ghost p1 = self.prog();
            let ghost vr = rv_var_decls(vres);
            proof {
                assert forall|f: nat| f >= need(t.len() as int, c0, 19) implies #[trigger] g_var_decl(t, cc, pp, (f - i - 1) as nat) == (Out { cur: c1, prog: p1, res: vr }) by {
                    assert((f - i - 1) as nat >= need(t.len() as int, cc, 18));
                }
            }
            let mut ds = match vres {
                Ok(ds) => ds,
                Err(e) => {
                    let r = Err(e);
                    proof {
                        assert forall|f: nat| f >= need(t.len() as int, c0, 19) implies #[trigger] g_class_loop(t, c0, p0, seq![], f) == (Out { cur: self.cur(), prog: self.prog(), res: rv_var_decls(r) }) by {
                            assert((f - i) as nat > 0);
                            assert(g_var_decl(t, cc, pp, (f - i - 1) as nat) == (Out { cur: c1, prog: p1, res: vr }));
                        }
                    }
                    return r;
                },
            };
            let ghost dsv = ds@;
            decls.append(&mut ds);
            proof {
                assert(var_decls_view(decls@) =~= acc + var_decls_view(dsv));
            }
            if let Err(e) = self.consume(TokenKind::Semicolon) {
                let r = Err(e);
                proof {
                    assert forall|f: nat| f >= need(t.len() as int, c0, 19) implies #[trigger] g_class_loop(t, c0, p0, seq![], f) == (Out { cur: self.cur(), prog: self.prog(), res: rv_var_decls(r) }) by {
                        assert((f - i) as nat > 0);
                        assert(g_var_decl(t, cc, pp, (f - i - 1) as nat) == (Out { cur: c1, prog: p1, res: vr }));
                    }
                }
                return r;
            }
            proof {
                assert forall|f: nat| f >= need(t.len() as int, c0, 19) implies #[trigger] g_class_loop(t, c0, p0, seq![], f) == g_class_loop(t, self.cur(), self.prog(), var_decls_view(decls@), (f - (i + 1)) as nat) by {
                    assert((f - i) as nat > 0);
                    assert(g_var_decl(t, cc, pp, (f - i - 1) as nat) == (Out { cur: c1, prog: p1, res: vr }));
                }
                self.lemma_wf();
                i = i + 1;
            }
        }
    }


    /// `class NAME { MEMBERS }`.
    pub fn class_decl(&mut self) -> (r: Result<Class, ParsingError>)
        requires
            old(self).wf(),
        ensures
            final(self).wf(),
            final(self).toks() == old(self).toks(),
            old(self).cur() <= final(self).cur(),
            r is Ok ==> old(self).cur() < final(self).cur(),
            forall|f: nat|
                f >= need(old(self).toks().len() as int, old(self).cur(), 21) ==> #[trigger] g_class_decl(
                    old(self).toks(),
                    old(self).cur(),
                    old(self).prog(),
                    f,
                ) == (Out { cur: final(self).cur(), prog: final(self).prog(), res: rv(r) }),
    {
        let ghost t = self.toks();
        let ghost c0 = self.cur();
        let ghost p0 = self.prog();
        proof {
            self.lemma_wf();
        }
        if let Err(e) = self.consume(TokenKind::Class) {
            let r = Err(e);
            proof {
                assert forall|f: nat| f >= need(t.len() as int, c0, 21) implies #[trigger] g_class_decl(t, c0, p0, f) == (Out { cur: self.cur(), prog: self.prog(), res: rv(r) }) by {
                    assert(f > 0);
                }
            }
            return r;
        }
        let name = match self.ident() {
            Ok(n) => n,
            Err(e) => {
                let r = Err(e);
                proof {
                    assert forall|f: nat| f >= need(t.len() as int, c0, 21) implies #[trigger] g_class_decl(t, c0, p0, f) == (Out { cur: self.cur(), prog: self.prog(), res: rv(r) }) by {
                        assert(f > 0);
                    }
                }
                return r;
            },
        };
        if let Err(e) = self.consume(TokenKind::BracketOpen) {
            let r = Err(e);
            proof {
                assert forall|f: nat| f >= need(t.len() as int, c0, 21) implies #[trigger] g_class_decl(t, c0, p0, f) == (Out { cur: self.cur(), prog: self.prog(), res: rv(r) }) by {
                    assert(f > 0);
                }
            }
            return r;
        }
        let ghost c3 = self.cur();
        let ghost p3 = self.prog();
        let mres = self.class_members();
        let ghost c4 = self.cur();
        let ghost p4 = self.prog();
        let ghost lr = rv_var_decls(mres);
        let members = match mres {
            Ok(m) => m,
            Err(e) => {
                let r = Err(e);
                proof {
                    assert forall|f: nat| f >= need(t.len() as int, c0, 21) implies #[trigger] g_class_decl(t, c0, p0, f) == (Out { cur: self.cur(), prog: self.prog(), res: rv(r) }) by {
                        assert(f > 0);
                        assert((f - 1) as nat >= need(t.len() as int, c3, 19));
                        assert(g_class_loop(t, c3, p3, seq![], (f - 1) as nat) == (Out { cur: c4, prog: p4, res: lr }));
                    }
                }
                return r;
            },
        };
        let r = match self.consume(TokenKind::BracketClose) {
            Err(e) => Err(e),
            Ok(_) => Ok(Class { name, members }),
        };
        proof {
            assert forall|f: nat| f >= need(t.len() as int, c0, 21) implies #[trigger] g_class_decl(t, c0, p0, f) == (Out { cur: self.cur(), prog: self.prog(), res: rv(r) }) by {
                assert(f > 0);
                assert((f - 1) as nat >= need(t.len() as int, c3, 19));
                assert(g_class_loop(t, c3, p3, seq![], (f - 1) as nat) == (Out { cur: c4, prog: p4, res: lr }));
            }
        }
        r
    }


    /// A declaration at the top level of a file, chosen by its first keyword.
    pub fn global_declaration(&mut self) -> (r: Result<Declaration, ParsingError>)
        requires
            old(self).wf(),
        ensures
            final(self).wf(),
            final(self).toks() == old(self).toks(),
            old(self).cur() <= final(self).cur(),
            r is Ok ==> old(self).cur() < final(self).cur(),
            forall|f: nat|
                f >= need(old(self).toks().len() as int, old(self).cur(), 25) ==> #[trigger] g_global_declaration(
                    old(self).toks(),
                    old(self).cur(),
                    old(self).prog(),
                    f,
                ) == (Out { cur: final(self).cur(), prog: final(self).prog(), res: rv(r) }),
    {
        let ghost t = self.toks();
        let ghost c0 = self.cur();
        let ghost p0 = self.prog();
        proof {
            self.lemma_wf();
        }
        if self.check(TokenKind::Func) {
            let res = self.func_decl();
            let ghost rr = rv(res);
            let r = match res {
                Ok(d) => Ok(Declaration::Func(d)),
                Err(e) => Err(e),
            };
            proof {
                assert forall|f: nat| f >= need(t.len() as int, c0, 25) implies #[trigger] g_global_declaration(t, c0, p0, f) == (Out { cur: self.cur(), prog: self.prog(), res: rv(r) }) by {
                    assert(f > 0);
                    reveal(g_global_declaration);
                    assert((f - 1) as nat >= need(t.len() as int, c0, 24));
                    assert(g_func_decl(t, c0, p0, (f - 1) as nat) == (Out { cur: self.cur(), prog: self.prog(), res: rr }));
                }
            }
            return r;
        }
        if self.check(TokenKind::Var) {
            let res = self.var_decl();
            let ghost rr = rv_var_decls(res);
            let r = match res {
                Ok(d) => Ok(Declaration::Var(d)),
                Err(e) => Err(e),
            };
            proof {
                assert forall|f: nat| f >= need(t.len() as int, c0, 25) implies #[trigger] g_global_declaration(t, c0, p0, f) == (Out { cur: self.cur(), prog: self.prog(), res: rv(r) }) by {
                    assert(f > 0);
                    reveal(g_global_declaration);
                    assert((f - 1) as nat >= need(t.len() as int, c0, 18));
                    assert(g_var_decl(t, c0, p0, (f - 1) as nat) == (Out { cur: self.cur(), prog: self.prog(), res: rr }));
                }
            }
            return r;
        }
        if self.check(TokenKind::Const) {
            let r = self.const_decl_decl();
            proof {
                assert forall|f: nat| f >= need(t.len() as int, c0, 25) implies #[trigger] g_global_declaration(t, c0, p0, f) == (Out { cur: self.cur(), prog: self.prog(), res: rv(r) }) by {
                    assert(f > 0);
                    reveal(g_global_declaration);
                    assert((f - 1) as nat >= need(t.len() as int, c0, 18));
                    assert(g_const_decl_decl(t, c0, p0, (f - 1) as nat) == (Out { cur: self.cur(), prog: self.prog(), res: rv(r) }));
                }
            }
            return r;
        }
        if self.check(TokenKind::Instance) {
            let res = self.instance_decl();
            let ghost rr = rv(res);
            let r = match res {
                Ok(d) => {
                    let v = vec![d];
                    proof {
                        assert(v@.map_values(|i: Instance| i@) =~= seq![rr->Ok_0]);
                    }
                    Ok(Declaration::Inst(v))
                },
                Err(e) => Err(e),
            };
            proof {
                assert forall|f: nat| f >= need(t.len() as int, c0, 25) implies #[trigger] g_global_declaration(t, c0, p0, f) == (Out { cur: self.cur(), prog: self.prog(), res: rv(r) }) by {
                    assert(f > 0);
                    reveal(g_global_declaration);
                    assert((f - 1) as nat >= need(t.len() as int, c0, 24));
                    assert(g_instance_decl(t, c0, p0, (f - 1) as nat) == (Out { cur: self.cur(), prog: self.prog(), res: rr }));
                }
            }
            return r;
        }
        if self.check(TokenKind::Prototype) {
            let res = self.prototype_decl();
            let ghost rr = rv(res);
            let r = match res {
                Ok(d) => Ok(Declaration::Proto(d)),
                Err(e) => Err(e),
            };
            proof {
                assert forall|f: nat| f >= need(t.len() as int, c0, 25) implies #[trigger] g_global_declaration(t, c0, p0, f) == (Out { cur: self.cur(), prog: self.prog(), res: rv(r) }) by {
                    assert(f > 0);
                    reveal(g_global_declaration);
                    assert((f - 1) as nat >= need(t.len() as int, c0, 24));
                    assert(g_prototype_decl(t, c0, p0, (f - 1) as nat) == (Out { cur: self.cur(), prog: self.prog(), res: rr }));
                }
            }
            return r;
        }
        if self.check(TokenKind::Class) {
            let res = self.class_decl();
            let ghost rr = rv(res);
            let r = match res {
                Ok(d) => Ok(Declaration::Class(d)),
                Err(e) => Err(e),
            };
            proof {
                assert forall|f: nat| f >= need(t.len() as int, c0, 25) implies #[trigger] g_global_declaration(t, c0, p0, f) == (Out { cur: self.cur(), prog: self.prog(), res: rv(r) }) by {
                    assert(f > 0);
                    reveal(g_global_declaration);
                    assert((f - 1) as nat >= need(t.len() as int, c0, 21));
                    assert(g_class_decl(t, c0, p0, (f - 1) as nat) == (Out { cur: self.cur(), prog: self.prog(), res: rr }));
                }
            }
            return r;
        }
        let expected = vec![
            TokenKind::Func,
            TokenKind::Var,
            TokenKind::Const,
            TokenKind::Prototype,
            TokenKind::Class,
        ];
        proof {
            assert(expected@.map_values(|k: TokenKind| k@) =~= seq![
                SpecTokenKind::Func,
                SpecTokenKind::Var,
                SpecTokenKind::Const,
                SpecTokenKind::Prototype,
                SpecTokenKind::Class,
            ]);
        }
        let r = Err(
            ParsingError::from_token(
                ParsingErrorKind::ExpectedOneOfToken(expected),
                self.current_id(),
                false,
            ),
        );
        proof {
            assert forall|f: nat| f >= need(t.len() as int, c0, 25) implies #[trigger] g_global_declaration(t, c0, p0, f) == (Out { cur: self.cur(), prog: self.prog(), res: rv(r) }) by {
                assert(f > 0);
                reveal(g_global_declaration);
            }
        }
        r
    }
}

} // verus!
