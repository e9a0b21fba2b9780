//! Functions, instances and prototypes.
use crate::lexer::TokenKind;
use crate::parser::errors::{ParsingError, ParsingErrorKind};
use crate::parser::parser::{
    Out, Parser, g_block, g_func_decl, g_instance_decl, g_params_loop, g_prototype_decl, need, rv,
    rv_stmts, rv_var_decls,
};
use crate::types::{lemma_var_decls_view_push, var_decls_view, Function, Instance, Prototype, VarDeclaration};
use vstd::prelude::*;

verus! {

impl Parser {
    /// Parameter declarations separated by commas.
    fn params(&mut self) -> (r: Result<Vec<VarDeclaration>, ParsingError>)
        requires
            old(self).wf(),
        ensures
            final(self).wf(),
            final(self).toks() == old(self).toks(),
            old(self).cur() <= final(self).cur(),
            forall|f: nat|
                f >= need(old(self).toks().len() as int, old(self).cur(), 2) ==> #[trigger] g_params_loop(
                    old(self).toks(),
                    old(self).cur(),
                    old(self).prog(),
                    seq![],
                    f,
                ) == (Out { cur: final(self).cur(), prog: final(self).prog(), res: rv_var_decls(r) }),
    {
        let ghost t = self.toks();
        let ghost c0 = self.cur();
        let ghost p0 = self.prog();
        proof {
            self.lemma_wf();
        }
        let mut params: Vec<VarDeclaration> = Vec::new();
        let ghost mut i: int = 0;
        proof {
            assert(var_decls_view(params@) =~= seq![]);
        }
        loop
            invariant
                t == old(self).toks(),
                c0 == old(self).cur(),
                p0 == old(self).prog(),
                self.wf(),
                self.toks() == t,
                c0 < t.len(),
                0 <= i,
                self.cur() >= c0 + i,
                forall|f: nat|
                    f >= need(t.len() as int, c0, 2) ==> #[trigger] g_params_loop(t, c0, p0, seq![], f)
                        == g_params_loop(t, self.cur(), self.prog(), var_decls_view(params@), (f - i) as nat),
            decreases t.len() - self.cur(),
        {
            let ghost cc = self.cur();
            let ghost acc = var_decls_view(params@);
            proof {
                self.lemma_wf();
            }
            if !self.check(TokenKind::Var) {
                let r = Ok(params);
                proof {
                    assert forall|f: nat| f >= need(t.len() as int, c0, 2) implies #[trigger] g_params_loop(t, c0, p0, seq![], f) == (Out { cur: self.cur(), prog: self.prog(), res: rv_var_decls(r) }) by {
                        assert((f - i) as nat > 0);
                    }
                }
                return r;
            }
            let d = match self.single_var_decl() {
                Ok(d) => d,
                Err(e) => {
                    let r = Err(e);
                    proof {
                        assert forall|f: nat| f >= need(t.len() as int, c0, 2) implies #[trigger] g_params_loop(t, c0, p0, seq![], f) == (Out { cur: self.cur(), prog: self.prog(), res: rv_var_decls(r) }) by {
                            assert((f - i) as nat > 0);
                        }
                    }
                    return r;
                },
            };
            let ghost before = params@;
            params.push(d);
            proof {
                lemma_var_decls_view_push(before, d);
                self.lemma_wf();
            }
            if !self.match_tok(TokenKind::Comma) {
                let r = Ok(params);
                proof {
                    assert forall|f: nat| f >= need(t.len() as int, c0, 2) implies #[trigger] g_params_loop(t, c0, p0, seq![], f) == (Out { cur: self.cur(), prog: self.prog(), res: rv_var_decls(r) }) by {
                        assert((f - i) as nat > 0);
                    }
                }
                return r;
            }
            proof {
                assert forall|f: nat| f >= need(t.len() as int, c0, 2) implies #[trigger] g_params_loop(t, c0, p0, seq![], f) == g_params_loop(t, self.cur(), self.prog(), var_decls_view(params@), (f - (i + 1)) as nat) by {
                    assert((f - i) as nat > 0);
                }
                self.lemma_wf();
                i = i + 1;
            }
        }
    }


    /// `func TYPE NAME ( PARAMETERS ) BLOCK`.
    pub fn func_decl(&mut self) -> (r: Result<Function, ParsingError>)
        requires
            old(self).wf(),
        ensures
            final(self).wf(),
            final(self).toks() == old(self).toks(),
            old(self).cur() <= final(self).cur(),
            r is Ok ==> old(self).cur() < final(self).cur(),
            forall|f: nat|
                f >= need(old(self).toks().len() as int, old(self).cur(), 24) ==> #[trigger] g_func_decl(
                    old(self).toks(),
                    old(self).cur(),
                    old(self).prog(),
                    f,
                ) == (Out { cur: final(self).cur(), prog: final(self).prog(), res: rv(r) }),
    {
        let ghost t = self.toks();
        let ghost c0 = self.cur();
        let ghost p0 = self.prog();
        proof {
            self.lemma_wf();
        }
        if let Err(e) = self.consume(TokenKind::Func) {
            let r = Err(e);
            proof {
                assert forall|f: nat| f >= need(t.len() as int, c0, 24) implies #[trigger] g_func_decl(t, c0, p0, f) == (Out { cur: self.cur(), prog: self.prog(), res: rv(r) }) by {
                    assert(f > 0);
                }
            }
            return r;
        }
        let typ = match self.ident() {
            Ok(typ) => typ,
            Err(_) => {
                let e = ParsingError::from_token(
                    ParsingErrorKind::MissingFunctionType,
                    self.current_id(),
                    false,
                );
                let r = Err(e);
                proof {
                    assert forall|f: nat| f >= need(t.len() as int, c0, 24) implies #[trigger] g_func_decl(t, c0, p0, f) == (Out { cur: self.cur(), prog: self.prog(), res: rv(r) }) by {
                        assert(f > 0);
                    }
                }
                return r;
            },
        };
        let name = match self.ident() {
            Ok(name) => name,
            Err(_) => {
                let e = ParsingError::from_token(
                    ParsingErrorKind::MissingFunctionName,
                    self.current_id(),
                    false,
                );
                let r = Err(e);
                proof {
                    assert forall|f: nat| f >= need(t.len() as int, c0, 24) implies #[trigger] g_func_decl(t, c0, p0, f) == (Out { cur: self.cur(), prog: self.prog(), res: rv(r) }) by {
                        assert(f > 0);
                    }
                }
                return r;
            },
        };
        if let Err(e) = self.consume(TokenKind::ParenOpen) {
            let r = Err(e);
            proof {
                assert forall|f: nat| f >= need(t.len() as int, c0, 24) implies #[trigger] g_func_decl(t, c0, p0, f) == (Out { cur: self.cur(), prog: self.prog(), res: rv(r) }) by {
                    assert(f > 0);
                }
            }
            return r;
        }
        let ghost c3 = self.cur();
        let ghost p3 = self.prog();
        let pres = self.params();
        let ghost c4 = self.cur();
        let ghost p4 = self.prog();
        let ghost lr = rv_var_decls(pres);
        let params = match pres {
            Ok(p) => p,
            Err(e) => {
                let r = Err(e);
                proof {
                    assert forall|f: nat| f >= need(t.len() as int, c0, 24) implies #[trigger] g_func_decl(t, c0, p0, f) == (Out { cur: self.cur(), prog: self.prog(), res: rv(r) }) by {
                        assert(f > 0);
                        assert((f - 1) as nat >= need(t.len() as int, c3, 2));
                        assert(g_params_loop(t, c3, p3, seq![], (f - 1) as nat) == (Out { cur: c4, prog: p4, res: lr }));
                    }
                }
                return r;
            },
        };
        if let Err(e) = self.consume(TokenKind::ParenClose) {
            let r = Err(e);
            proof {
                assert forall|f: nat| f >= need(t.len() as int, c0, 24) implies #[trigger] g_func_decl(t, c0, p0, f) == (Out { cur: self.cur(), prog: self.prog(), res: rv(r) }) by {
                    assert(f > 0);
                    assert((f - 1) as nat >= need(t.len() as int, c3, 2));
                    assert(g_params_loop(t, c3, p3, seq![], (f - 1) as nat) == (Out { cur: c4, prog: p4, res: lr }));
                }
            }
            return r;
        }
        self.save_progress();
        let ghost c5 = self.cur();
        let bres = self.block();
        let ghost c6 = self.cur();
        let ghost p6 = self.prog();
        let ghost br = rv_stmts(bres);
        let r = match bres {
            Err(e) => Err(e),
            Ok(body) => Ok(Function { typ, name, params, body }),
        };
        proof {
            assert forall|f: nat| f >= need(t.len() as int, c0, 24) implies #[trigger] g_func_decl(t, c0, p0, f) == (Out { cur: self.cur(), prog: self.prog(), res: rv(r) }) by {
                assert(f > 0);
                assert((f - 1) as nat >= need(t.len() as int, c3, 2));
                assert(g_params_loop(t, c3, p3, seq![], (f - 1) as nat) == (Out { cur: c4, prog: p4, res: lr }));
                assert((f - 1) as nat >= need(t.len() as int, c5, 23));
                assert(g_block(t, c5, c5, (f - 1) as nat) == (Out { cur: c6, prog: p6, res: br }));
            }
        }
        r
    }


    /// `instance NAME ( CLASS )`, with a block or without one.
    pub fn instance_decl(&mut self) -> (r: Result<Instance, ParsingError>)
        requires
            old(self).wf(),
        ensures
            final(self).wf(),
            final(self).toks() == old(self).toks(),
            old(self).cur() <= final(self).cur(),
            r is Ok ==> old(self).cur() < final(self).cur(),
            forall|f: nat|
                f >= need(old(self).toks().len() as int, old(self).cur(), 24) ==> #[trigger] g_instance_decl(
                    old(self).toks(),
                    old(self).cur(),
                    old(self).prog(),
                    f,
                ) == (Out { cur: final(self).cur(), prog: final(self).prog(), res: rv(r) }),
    {
        let ghost t = self.toks();
        let ghost c0 = self.cur();
        let ghost p0 = self.prog();
        proof {
            self.lemma_wf();
        }
        if let Err(e) = self.consume(TokenKind::Instance) {
            let r = Err(e);
            proof {
                assert forall|f: nat| f >= need(t.len() as int, c0, 24) implies #[trigger] g_instance_decl(t, c0, p0, f) == (Out { cur: self.cur(), prog: self.prog(), res: rv(r) }) by {
                    assert(f > 0);
                }
            }
            return r;
        }
        let name = match self.ident() {
            Ok(name) => name,
            Err(_) => {
                let e = ParsingError::from_token(
                    ParsingErrorKind::MissingInstanceName,
                    self.current_id(),
                    false,
                );
                let r = Err(e);
                proof {
                    assert forall|f: nat| f >= need(t.len() as int, c0, 24) implies #[trigger] g_instance_decl(t, c0, p0, f) == (Out { cur: self.cur(), prog: self.prog(), res: rv(r) }) by {
                        assert(f > 0);
                    }
                }
                return r;
            },
        };
        if let Err(e) = self.consume(TokenKind::ParenOpen) {
            let r = Err(e);
            proof {
                assert forall|f: nat| f >= need(t.len() as int, c0, 24) implies #[trigger] g_instance_decl(t, c0, p0, f) == (Out { cur: self.cur(), prog: self.prog(), res: rv(r) }) by {
                    assert(f > 0);
                }
            }
            return r;
        }
        let class = match self.ident() {
            Ok(class) => class,
            Err(_) => {
                let e = ParsingError::from_token(
                    ParsingErrorKind::MissingInstanceType,
                    self.current_id(),
                    false,
                );
                let r = Err(e);
                proof {
                    assert forall|f: nat| f >= need(t.len() as int, c0, 24) implies #[trigger] g_instance_decl(t, c0, p0, f) == (Out { cur: self.cur(), prog: self.prog(), res: rv(r) }) by {
                        assert(f > 0);
                    }
                }
                return r;
            },
        };
        if let Err(e) = self.consume(TokenKind::ParenClose) {
            let r = Err(e);
            proof {
                assert forall|f: nat| f >= need(t.len() as int, c0, 24) implies #[trigger] g_instance_decl(t, c0, p0, f) == (Out { cur: self.cur(), prog: self.prog(), res: rv(r) }) by {
                    assert(f > 0);
                }
            }
            return r;
        }
        let ghost c5 = self.cur();
        let ghost p5 = self.prog();
        let bres = if self.check(TokenKind::BracketOpen) {
            self.block()
        } else {
            Ok(Vec::new())
        };
        let ghost c6 = self.cur();
        let ghost p6 = self.prog();
        let ghost br = rv_stmts(bres);
        let r = match bres {
            Err(e) => Err(e),
            Ok(body) => Ok(Instance { name, class, body }),
        };
        proof {
            assert forall|f: nat| f >= need(t.len() as int, c0, 24) implies #[trigger] g_instance_decl(t, c0, p0, f) == (Out { cur: self.cur(), prog: self.prog(), res: rv(r) }) by {
                assert(f > 0);
                if t[c5].kind is BracketOpen {
                    assert((f - 1) as nat >= need(t.len() as int, c5, 23));
                    assert(g_block(t, c5, p5, (f - 1) as nat) == (Out { cur: c6, prog: p6, res: br }));
                }
            }
        }
        r
    }


    /// `prototype NAME ( CLASS ) BLOCK`.
    pub fn prototype_decl(&mut self) -> (r: Result<Prototype, ParsingError>)
        requires
            old(self).wf(),
        ensures
            final(self).wf(),
            final(self).toks() == old(self).toks(),
            old(self).cur() <= final(self).cur(),
            r is Ok ==> old(self).cur() < final(self).cur(),
            forall|f: nat|
                f >= need(old(self).toks().len() as int, old(self).cur(), 24) ==> #[trigger] g_prototype_decl(
                    old(self).toks(),
                    old(self).cur(),
                    old(self).prog(),
                    f,
                ) == (Out { cur: final(self).cur(), prog: final(self).prog(), res: rv(r) }),
    {
        let ghost t = self.toks();
        let ghost c0 = self.cur();
        let ghost p0 = self.prog();
        proof {
            self.lemma_wf();
        }
        if let Err(e) = self.consume(TokenKind::Prototype) {
            let r = Err(e);
            proof {
                assert forall|f: nat| f >= need(t.len() as int, c0, 24) implies #[trigger] g_prototype_decl(t, c0, p0, f) == (Out { cur: self.cur(), prog: self.prog(), res: rv(r) }) by {
                    assert(f > 0);
                }
            }
            return r;
        }
        let name = match self.ident() {
            Ok(name) => name,
            Err(e) => {
                let r = Err(e);
                proof {
                    assert forall|f: nat| f >= need(t.len() as int, c0, 24) implies #[trigger] g_prototype_decl(t, c0, p0, f) == (Out { cur: self.cur(), prog: self.prog(), res: rv(r) }) by {
                        assert(f > 0);
                    }
                }
                return r;
            },
        };
        if let Err(e) = self.consume(TokenKind::ParenOpen) {
            let r = Err(e);
            proof {
                assert forall|f: nat| f >= need(t.len() as int, c0, 24) implies #[trigger] g_prototype_decl(t, c0, p0, f) == (Out { cur: self.cur(), prog: self.prog(), res: rv(r) }) by {
                    assert(f > 0);
                }
            }
            return r;
        }
        let class = match self.ident() {
            Ok(class) => class,
            Err(e) => {
                let r = Err(e);
                proof {
                    assert forall|f: nat| f >= need(t.len() as int, c0, 24) implies #[trigger] g_prototype_decl(t, c0, p0, f) == (Out { cur: self.cur(), prog: self.prog(), res: rv(r) }) by {
                        assert(f > 0);
                    }
                }
                return r;
            },
        };
        if let Err(e) = self.consume(TokenKind::ParenClose) {
            let r = Err(e);
            proof {
                assert forall|f: nat| f >= need(t.len() as int, c0, 24) implies #[trigger] g_prototype_decl(t, c0, p0, f) == (Out { cur: self.cur(), prog: self.prog(), res: rv(r) }) by {
                    assert(f > 0);
                }
            }
            return r;
        }
        let ghost c5 = self.cur();
        let ghost p5 = self.prog();
        let bres = self.block();
        let ghost c6 = self.cur();
        let ghost p6 = self.prog();
        let ghost br = rv_stmts(bres);
        let r = match bres {
            Err(e) => Err(e),
            Ok(body) => Ok(Prototype { name, class, body }),
        };
        proof {
            assert forall|f: nat| f >= need(t.len() as int, c0, 24) implies #[trigger] g_prototype_decl(t, c0, p0, f) == (Out { cur: self.cur(), prog: self.prog(), res: rv(r) }) by {
                assert(f > 0);
                assert((f - 1) as nat >= need(t.len() as int, c5, 23));
                assert(g_block(t, c5, p5, (f - 1) as nat) == (Out { cur: c6, prog: p6, res: br }));
            }
        }
        r
    }
}

} // verus!
