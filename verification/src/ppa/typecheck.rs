//! The typechecker: it checks the symbols of a program against the typing rules and
//! collects the errors it finds.
use crate::lexer::{eq_ignore_ascii_case, eq_ignore_case};
use crate::ppa::errors::{
    concat, SpecTypecheckError, SpecTypecheckErrorKind, TypecheckError, TypecheckErrorKind, errors_view,
    tc_err,
};
use crate::ppa::rules::{
    Checked, IsType, lemma_branches_never_fail, lemma_members_never_stuck, lemma_stmts_never_fail, array_size_errors, class_named, is_primitive, is_stuck, scope_name,
    spec_is_type, tc_args, tc_assign, tc_branches, tc_const_array, tc_const_decl, tc_expr,
    tc_inits, tc_return, tc_stmt, tc_stmts, tc_var, tc_var_decl, tc_var_decls, var_type_errors,
    param_type_errors, parent_scope, tc_func, tc_symbol, tc_inst, tc_members, tc_stmts_q, tc_symbols,
};
use crate::lexer::printable;
use crate::parser::parser::if_view;
use crate::ppa::symbols::{
    SpecSymbol, SpecZType, Symbol, SymbolCollection, opt_ref_ident_view, spec_from_ident,
    spec_lookup, zPAR_TYPE,
};
use crate::types::{
    Class, Function, Instance, Prototype, SpecInstance,
    IfStatement, ReturnStatement, Statement, branches_view, lemma_branches_view_len,
    lemma_stmts_view_len, opt_expr_view, stmt_view, stmts_view,
    ArraySizeDeclaration, Assignment, AssignmentOperator, ConstArrayDeclaration, ConstDeclaration,
    VarDeclaration, Expression, Identifier, SpecIdentifier, expr_span, expr_view, exprs_view, lemma_exprs_view_len, span_view,
    var_decls_view,
};
use vstd::prelude::*;

verus! {

/// Checks the symbols of a program; the errors found so far are kept in `errors`.
pub struct TypeChecker<'a, 'b> {
    pub parsed_syms: &'b SymbolCollection<'a>,
    pub errors: Vec<TypecheckError>,
    pub warnings: Vec<String>,
}

pub open spec fn scope_view(scope: Option<&Identifier>) -> Option<SpecIdentifier> {
    opt_ref_ident_view(scope)
}

/// The outcome of a check that ended with `r`: `Err(true)` when it reached a member access.
pub open spec fn result_view<T: View>(r: Result<T, bool>) -> Result<T::V, bool> {
    match r {
        Ok(v) => Ok(v@),
        Err(b) => Err(b),
    }
}

/// A unit outcome, whatever unit value it carries.
pub open spec fn done(r: Result<(), bool>) -> Result<(), bool> {
    match r {
        Ok(_) => Ok(()),
        Err(b) => Err(b),
    }
}

/// What a check that ended with `r` reported as its outcome.
pub open spec fn outcome<T: View>(r: Result<T, ()>) -> Result<T::V, bool> {
    match r {
        Ok(v) => Ok(v@),
        Err(_) => Err(false),
    }
}

impl<'a, 'b> TypeChecker<'a, 'b> {
    pub open spec fn syms(&self) -> Seq<SpecSymbol> {
        self.parsed_syms@
    }

    pub open spec fn errs(&self) -> Seq<SpecTypecheckError> {
        errors_view(self.errors@)
    }

    /// A typechecker of the given symbols that has found nothing yet.
    pub fn new(input: &'b SymbolCollection<'a>) -> (r: TypeChecker<'a, 'b>)
        ensures
            r.parsed_syms == input,
            r.errors@.len() == 0,
    {
        TypeChecker { parsed_syms: input, errors: Vec::new(), warnings: Vec::new() }
    }

    fn report(&mut self, kind: TypecheckErrorKind, span: (usize, usize))
        ensures
            final(self).parsed_syms == old(self).parsed_syms,
            final(self).errs() == old(self).errs().push(tc_err(kind@, span_view(span))),
    {
        let ghost before = self.errors@;
        let e = TypecheckError { kind, span };
        self.errors.push(e);
        proof {
            assert(errors_view(self.errors@) =~= errors_view(before).push(e@));
        }
    }

    /// Whether an identifier names a primitive type or a class, something else, or nothing.
    pub fn is_type(&self, typ: &Identifier) -> (r: IsType)
        ensures
            r == spec_is_type(self.syms(), typ@),
    {
        let ident = typ.as_bytes();
        if eq_ignore_ascii_case(ident, &[105u8, 110, 116]) || eq_ignore_ascii_case(
            ident,
            &[118u8, 111, 105, 100],
        ) || eq_ignore_ascii_case(ident, &[115u8, 116, 114, 105, 110, 103])
            || eq_ignore_ascii_case(ident, &[102u8, 108, 111, 97, 116]) {
            return IsType::IsType;
        }
        let syms = &self.parsed_syms.syms;
        let mut i: usize = 0;
        while i < syms.len()
            invariant
                i <= syms@.len(),
                syms == &self.parsed_syms.syms,
                ident@ == typ@.name,
                forall|j: int|
                    0 <= j < i ==> !(#[trigger] self.syms()[j] matches SpecSymbol::Class(c)
                        && eq_ignore_case(typ@.name, c.name.name)),
            decreases syms@.len() - i,
        {
            if let Symbol::Class(class) = &syms[i] {
                if eq_ignore_ascii_case(ident, class.name.as_bytes()) {
                    assert(self.syms()[i as int] matches SpecSymbol::Class(c) && eq_ignore_case(
                        typ@.name,
                        c.name.name,
                    ));
                    return IsType::IsType;
                }
            }
            i += 1;
        }
        assert(!class_named(self.syms(), typ@.name));
        if self.parsed_syms.lookup_symbol(typ, None).is_some() {
            IsType::NotType
        } else {
            IsType::UnknownIdentifier
        }
    }

    /// The type of a variable used in an expression.
    fn typecheck_var(&mut self, name: &Identifier, span: (usize, usize), scope: Option<&Identifier>) -> (r:
        Result<zPAR_TYPE, bool>)
        ensures
            final(self).parsed_syms == old(self).parsed_syms,
            final(self).errs() == old(self).errs() + tc_var(
                old(self).syms(),
                name@,
                span_view(span),
                scope_view(scope),
            ).errs,
            result_view(r) == tc_var(old(self).syms(), name@, span_view(span), scope_view(scope)).res,
    {
        let index = match self.parsed_syms.lookup_index(name, scope) {
            Some(i) => i,
            None => {
                self.report(
                    TypecheckErrorKind::UnknownIdentifierInExpression(name.duplicate()),
                    span,
                );
                return Err(false);
            },
        };
        let sym = &self.parsed_syms.syms[index];
        if let Symbol::Class(_) = sym {
            self.report(TypecheckErrorKind::IdentifierIsClassInExpression(name.duplicate(), sym.to_ref(index)), span);
            return Err(false);
        }
        let t = sym.typ();
        proof {
            assert(self.errs() =~= self.errs() + Seq::<SpecTypecheckError>::empty());
        }
        Ok(t)
    }

    /// The type of an expression.
    fn check_expression(&mut self, exp: &Expression, scope: Option<&Identifier>) -> (r:
        Result<zPAR_TYPE, bool>)
        ensures
            final(self).parsed_syms == old(self).parsed_syms,
            final(self).errs() == old(self).errs() + tc_expr(
                old(self).syms(),
                exp@,
                scope_view(scope),
            ).errs,
            result_view(r) == tc_expr(old(self).syms(), exp@, scope_view(scope)).res,
        decreases exp, 0int,
    {
        let ghost syms = self.syms();
        let ghost e0 = self.errs();
        match exp {
            Expression::Int(_) => {
                proof {
                    assert(self.errs() =~= e0 + Seq::<SpecTypecheckError>::empty());
                }
                Ok(zPAR_TYPE::Int)
            },
            Expression::Float(_) => {
                proof {
                    assert(self.errs() =~= e0 + Seq::<SpecTypecheckError>::empty());
                }
                Ok(zPAR_TYPE::Float)
            },
            Expression::String(_) => {
                proof {
                    assert(self.errs() =~= e0 + Seq::<SpecTypecheckError>::empty());
                }
                Ok(zPAR_TYPE::String)
            },
            Expression::Call(call) => {
                let found = match self.parsed_syms.lookup_index(&call.func, None) {
                    Some(i) => Some((i, &self.parsed_syms.syms[i])),
                    None => None,
                };
                let target = match found {
                    None => {
                        self.report(
                            TypecheckErrorKind::UnknownFunctionCall(call.func.duplicate()),
                            call.span,
                        );
                        return Err(false);
                    },
                    Some((_, Symbol::Func(func))) => *func,
                    Some((i, other)) => {
                        self.report(
                            TypecheckErrorKind::FunctionCallWrongType(call.func.duplicate(), other.to_ref(i)),
                            call.span,
                        );
                        return Err(false);
                    },
                };
                let ghost args = exprs_view(call.params@);
                let ghost params = var_decls_view(target.params@);
                proof {
                    lemma_exprs_view_len(call.params@);
                }
                let ghost e_amt = if target.params@.len() != call.params@.len() {
                    seq![
                        tc_err(
                            SpecTypecheckErrorKind::FunctionCallWrongAmountOfParameters(
                                target.params@.len() as int,
                                call.params@.len() as int,
                            ),
                            span_view(call.span),
                        ),
                    ]
                } else {
                    Seq::<SpecTypecheckError>::empty()
                };
                if target.params.len() != call.params.len() {
                    self.report(
                        TypecheckErrorKind::FunctionCallWrongAmountOfParameters(
                            target.params.len(),
                            call.params.len(),
                        ),
                        call.span,
                    );
                }
                let ghost e1 = self.errs();
                proof {
                    assert(e1 =~= e0 + e_amt);
                    assert(tc_expr(syms, exp@, scope_view(scope)).errs == e_amt + tc_args(syms, args, params, scope_view(scope), 0).errs);
                    assert(tc_expr(syms, exp@, scope_view(scope)).res == (match tc_args(syms, args, params, scope_view(scope), 0).res {
                        Err(b) => Err(b),
                        Ok(_) => Ok(spec_from_ident(target@.typ)),
                    }));
                }
                let mut k: usize = 0;
                while k < call.params.len() && k < target.params.len()
                    invariant
                        self.parsed_syms == old(self).parsed_syms,
                        syms == self.syms(),
                        *exp == Expression::Call(*call),
                        e0 == old(self).errs(),
                        syms == old(self).syms(),
                        e1 == e0 + e_amt,
                        tc_expr(syms, exp@, scope_view(scope)).res == (match tc_args(syms, args, params, scope_view(scope), 0).res {
                            Err(b) => Err(b),
                            Ok(_) => Ok(spec_from_ident(target@.typ)),
                        }),
                        tc_expr(syms, exp@, scope_view(scope)).errs == e_amt + tc_args(syms, args, params, scope_view(scope), 0).errs,
                        args == exprs_view(call.params@),
                        params == var_decls_view(target.params@),
                        args.len() == call.params@.len(),
                        forall|i: int| 0 <= i < call.params@.len() ==> #[trigger] args[i] == expr_view(call.params@[i]),
                        k <= call.params@.len(),
                        e1 + tc_args(syms, args, params, scope_view(scope), 0).errs == self.errs()
                            + tc_args(syms, args, params, scope_view(scope), k as int).errs,
                        tc_args(syms, args, params, scope_view(scope), 0).res == tc_args(
                            syms,
                            args,
                            params,
                            scope_view(scope),
                            k as int,
                        ).res,
                    decreases call.params@.len() - k,
                {
                    let ghost before = self.errs();
                    let param = &call.params[k];
                    let expected = zPAR_TYPE::from_ident(&target.params[k].typ);
                    proof {
                        assert(args[k as int] == param@);
                        assert(decreases_to!(*exp => **call));
                        assert(decreases_to!(**call => call.params));
                        assert(decreases_to!(call.params => call.params@));
                        assert(decreases_to!(call.params@ => call.params@[k as int]));
                    }
                    let actual = match self.check_expression(param, scope) {
                        Ok(t) => t,
                        Err(b) => {
                            proof {
                                assert(e1 + tc_args(syms, args, params, scope_view(scope), 0).errs =~= self.errs());
                                assert(self.errs() =~= e0 + tc_expr(syms, exp@, scope_view(scope)).errs);
                            }
                            return Err(b);
                        },
                    };
                    if !expected.same(&actual) {
                        self.report(
                            TypecheckErrorKind::FunctionCallParameterWrongType(expected, actual),
                            param.get_span(),
                        );
                    }
                    proof {
                        let c = tc_expr(syms, args[k as int], scope_view(scope));
                        let rest = tc_args(syms, args, params, scope_view(scope), k as int + 1);
                        assert(before + tc_args(syms, args, params, scope_view(scope), k as int).errs
                            =~= self.errs() + rest.errs);
                    }
                    k += 1;
                }
                proof {
                    assert(e1 + tc_args(syms, args, params, scope_view(scope), 0).errs =~= self.errs());
                    assert(self.errs() =~= e0 + tc_expr(syms, exp@, scope_view(scope)).errs);
                }
                Ok(zPAR_TYPE::from_ident(&target.typ))
            },
            Expression::Binary(bin) => {
                let left = match self.check_expression(&bin.left, scope) {
                    Ok(t) => t,
                    Err(b) => return Err(b),
                };
                let right = match self.check_expression(&bin.right, scope) {
                    Ok(t) => t,
                    Err(b) => {
                        proof {
                            assert(self.errs() =~= e0 + tc_expr(syms, exp@, scope_view(scope)).errs);
                        }
                        return Err(b);
                    },
                };
                if left.is_int() && right.is_int() {
                    proof {
                        assert(self.errs() =~= e0 + tc_expr(syms, exp@, scope_view(scope)).errs);
                    }
                    Ok(zPAR_TYPE::Int)
                } else {
                    let ghost mid = self.errs();
                    if !left.is_int() {
                        self.report(TypecheckErrorKind::BinaryExpressionNotInt, bin.left.get_span());
                    }
                    if !right.is_int() {
                        self.report(TypecheckErrorKind::BinaryExpressionNotInt, bin.right.get_span());
                    }
                    proof {
                        assert(self.errs() =~= e0 + tc_expr(syms, exp@, scope_view(scope)).errs);
                    }
                    Err(false)
                }
            },
            Expression::Unary(un) => {
                let inner = match self.check_expression(&un.right, scope) {
                    Ok(t) => t,
                    Err(b) => return Err(b),
                };
                if inner.is_int() {
                    Ok(inner)
                } else {
                    self.report(TypecheckErrorKind::UnaryExpressionNotInt, un.right.get_span());
                    Err(false)
                }
            },
            Expression::Identifier(var) => {
                if var.instance.is_some() {
                    proof {
                        assert(self.errs() =~= e0 + Seq::<SpecTypecheckError>::empty());
                    }
                    return Err(true);
                }
                self.typecheck_var(&var.name, var.span, scope)
            },
        }
    }

    /// The type of an expression; checking it must not reach a member access.
    pub fn typecheck_expression(&mut self, exp: &Expression, scope: Option<&Identifier>) -> (r:
        Result<zPAR_TYPE, ()>)
        requires
            !is_stuck(tc_expr(old(self).syms(), exp@, scope_view(scope))),
        ensures
            final(self).parsed_syms == old(self).parsed_syms,
            final(self).errs() == old(self).errs() + tc_expr(
                old(self).syms(),
                exp@,
                scope_view(scope),
            ).errs,
            outcome(r) == tc_expr(old(self).syms(), exp@, scope_view(scope)).res,
    {
        match self.check_expression(exp, scope) {
            Ok(t) => Ok(t),
            Err(_) => Err(()),
        }
    }

    /// An assignment: both sides have the same type, and only `int` takes compound operators.
    fn typecheck_assignment(&mut self, ass: &Assignment, scope: Option<&Identifier>) -> (r: Result<
        zPAR_TYPE,
        bool,
    >)
        ensures
            final(self).parsed_syms == old(self).parsed_syms,
            final(self).errs() == old(self).errs() + tc_assign(old(self).syms(), ass@, scope_view(scope)).errs,
            result_view(r) == tc_assign(old(self).syms(), ass@, scope_view(scope)).res,
    {
        let ghost syms = self.syms();
        let ghost e0 = self.errs();
        if ass.var.instance.is_some() {
            proof {
                assert(self.errs() =~= e0 + Seq::<SpecTypecheckError>::empty());
            }
            return Err(true);
        }
        let left = match self.typecheck_var(&ass.var.name, ass.var.span, scope) {
            Ok(t) => t,
            Err(b) => return Err(b),
        };
        let right = match self.check_expression(&ass.exp, scope) {
            Ok(t) => t,
            Err(b) => return Err(b),
        };
        if !left.same(&right) {
            let exp_span = ass.exp.get_span();
            self.report(
                TypecheckErrorKind::AssignmentWrongTypes(left, ass.var.span, right, exp_span),
                ass.span,
            );
            return Err(false);
        }
        let compound = match ass.op {
            AssignmentOperator::Eq => false,
            _ => true,
        };
        if compound {
            match left {
                zPAR_TYPE::String => {
                    self.report(TypecheckErrorKind::CanOnlyAssignToString, ass.span);
                    return Err(false);
                },
                zPAR_TYPE::Float => {
                    self.report(TypecheckErrorKind::CanOnlyAssignToFloat, ass.span);
                    return Err(false);
                },
                zPAR_TYPE::Instance(_) => {
                    self.report(TypecheckErrorKind::CanOnlyAssignToInstance, ass.span);
                    return Err(false);
                },
                _ => {},
            }
        }
        Ok(left)
    }

    fn report_var_type(&mut self, typ: &Identifier)
        ensures
            final(self).parsed_syms == old(self).parsed_syms,
            final(self).errs() == old(self).errs() + var_type_errors(old(self).syms(), typ@),
    {
        match self.is_type(typ) {
            IsType::UnknownIdentifier => {
                self.report(TypecheckErrorKind::UnknownVariableType(typ.duplicate()), typ.span)
            },
            IsType::NotType => {
                let e = TypecheckError::not_a_type(typ.duplicate());
                self.report(e.kind, e.span);
            },
            IsType::IsType => {
                proof {
                    assert(self.errs() =~= self.errs() + Seq::<SpecTypecheckError>::empty());
                }
            },
        }
    }

    /// Reports what is wrong with an array size given by the constant `constant`.
    fn check_array_size(&mut self, constant: &Identifier, scope: Option<&Identifier>) -> (ok: bool)
        ensures
            final(self).parsed_syms == old(self).parsed_syms,
            final(self).errs() == old(self).errs() + array_size_errors(
                old(self).syms(),
                constant@,
                scope_view(scope),
            ),
            ok == (array_size_errors(old(self).syms(), constant@, scope_view(scope)).len() == 0),
    {
        match self.parsed_syms.lookup_symbol(constant, scope) {
            Some(Symbol::Const(const_decl, _)) => {
                let const_type = zPAR_TYPE::from_ident(&const_decl.typ);
                if !const_type.is_int() {
                    self.report(
                        TypecheckErrorKind::ArraySizeIsNotInteger(const_type, const_decl.span),
                        constant.span,
                    );
                    false
                } else {
                    proof {
                        assert(self.errs() =~= self.errs() + Seq::<SpecTypecheckError>::empty());
                    }
                    true
                }
            },
            Some(_) => {
                self.report(TypecheckErrorKind::NonConstantArraySize, constant.span);
                false
            },
            None => {
                self.report(
                    TypecheckErrorKind::UnknownIdentifierInArraySize(constant.duplicate()),
                    constant.span,
                );
                false
            },
        }
    }

    /// A variable declaration: its type must be a type, and an array size given by a name
    /// must be an integer constant.
    pub fn typecheck_var_decl(&mut self, decl: &VarDeclaration, scope: Option<&Identifier>) -> (r:
        Result<zPAR_TYPE, ()>)
        ensures
            final(self).parsed_syms == old(self).parsed_syms,
            final(self).errs() == old(self).errs() + tc_var_decl(old(self).syms(), decl@, scope_view(scope)).errs,
            outcome(r) == tc_var_decl(old(self).syms(), decl@, scope_view(scope)).res,
    {
        self.report_var_type(&decl.typ);
        match &decl.array_size {
            Some(ArraySizeDeclaration::Identifier(constant)) => {
                if !self.check_array_size(constant, scope) {
                    return Err(());
                }
                proof {
                    assert(self.errs() =~= old(self).errs() + tc_var_decl(old(self).syms(), decl@, scope_view(scope)).errs);
                }
                Ok(zPAR_TYPE::from_ident(&decl.typ))
            },
            _ => Ok(zPAR_TYPE::from_ident(&decl.typ)),
        }
    }

    /// A constant: its type must be a type, and its value must have that type.
    fn typecheck_const_decl(&mut self, decl: &ConstDeclaration, scope: Option<&Identifier>) -> (r:
        Result<zPAR_TYPE, bool>)
        ensures
            final(self).parsed_syms == old(self).parsed_syms,
            final(self).errs() == old(self).errs() + tc_const_decl(old(self).syms(), decl@, scope_view(scope)).errs,
            result_view(r) == tc_const_decl(old(self).syms(), decl@, scope_view(scope)).res,
    {
        match self.is_type(&decl.typ) {
            IsType::NotType => {
                let e = TypecheckError::not_a_type(decl.typ.duplicate());
                self.report(e.kind, e.span);
                return Err(false);
            },
            IsType::UnknownIdentifier => {
                self.report(TypecheckErrorKind::UnknownVariableType(decl.typ.duplicate()), decl.typ.span);
                return Err(false);
            },
            IsType::IsType => {},
        }
        let expression_type = match self.check_expression(&decl.initializer, scope) {
            Ok(t) => t,
            Err(b) => return Err(b),
        };
        let decl_type = zPAR_TYPE::from_ident(&decl.typ);
        if !expression_type.same(&decl_type) {
            let init_span = decl.initializer.get_span();
            self.report(
                TypecheckErrorKind::AssignmentWrongTypes(
                    decl_type.duplicate(),
                    decl.typ.span,
                    expression_type,
                    init_span,
                ),
                decl.span,
            );
        } else {
            proof {
                assert(self.errs() =~= self.errs() + Seq::<SpecTypecheckError>::empty());
            }
        }
        Ok(decl_type)
    }

    /// A constant array: its type must be a type, a named size an integer constant, and each
    /// element must have the declared type.
    fn typecheck_const_array_decl(&mut self, decl: &ConstArrayDeclaration, scope: Option<&Identifier>) -> (r:
        Result<zPAR_TYPE, bool>)
        ensures
            final(self).parsed_syms == old(self).parsed_syms,
            final(self).errs() == old(self).errs() + tc_const_array(old(self).syms(), decl@, scope_view(scope)).errs,
            result_view(r) == tc_const_array(old(self).syms(), decl@, scope_view(scope)).res,
    {
        let ghost syms = self.syms();
        let ghost dv = decl@;
        let ghost sv = scope_view(scope);
        match self.is_type(&decl.typ) {
            IsType::NotType => {
                let e = TypecheckError::not_a_type(decl.typ.duplicate());
                self.report(e.kind, e.span);
                return Err(false);
            },
            IsType::UnknownIdentifier => {
                self.report(TypecheckErrorKind::UnknownVariableType(decl.typ.duplicate()), decl.typ.span);
                return Err(false);
            },
            IsType::IsType => {},
        }
        match &decl.array_size {
            ArraySizeDeclaration::Identifier(constant) => {
                let _ = self.check_array_size(constant, scope);
            },
            ArraySizeDeclaration::Size(_) => {},
        }
        let ghost e1 = self.errs();
        let decl_type = zPAR_TYPE::from_ident(&decl.typ);
        let inits = &decl.initializer.expressions;
        proof {
            lemma_exprs_view_len(inits@);
        }
        let mut k: usize = 0;
        while k < inits.len()
            invariant
                self.parsed_syms == old(self).parsed_syms,
                syms == self.syms(),
                sv == scope_view(scope),
                dv == decl@,
                inits == &decl.initializer.expressions,
                dv.initializer == exprs_view(inits@),
                dv.initializer.len() == inits@.len(),
                forall|i: int| 0 <= i < inits@.len() ==> #[trigger] dv.initializer[i] == expr_view(inits@[i]),
                decl_type@ == spec_from_ident(dv.typ),
                k <= inits@.len(),
                e1 == old(self).errs() + match dv.array_size {
                    crate::types::SpecArraySize::Identifier(c) => array_size_errors(syms, c, sv),
                    crate::types::SpecArraySize::Size(_) => Seq::<SpecTypecheckError>::empty(),
                },
                spec_is_type(syms, dv.typ) == IsType::IsType,
                e1 + tc_inits(syms, dv, sv, 0).errs == self.errs() + tc_inits(syms, dv, sv, k as int).errs,
                tc_inits(syms, dv, sv, 0).res == tc_inits(syms, dv, sv, k as int).res,
            decreases inits@.len() - k,
        {
            let ghost before = self.errs();
            let init_expression = &inits[k];
            proof {
                assert(dv.initializer[k as int] == init_expression@);
            }
            match self.check_expression(init_expression, scope) {
                Ok(init_type) => {
                    if !init_type.same(&decl_type) {
                        let init_span = init_expression.get_span();
                        self.report(
                            TypecheckErrorKind::WrongTypeInArrayInitialization(
                                decl_type.duplicate(),
                                decl.typ.span,
                                init_type,
                                init_span,
                            ),
                            decl.span,
                        );
                    }
                },
                Err(b) => {
                    if b {
                        proof {
                            assert(self.errs() =~= old(self).errs() + tc_const_array(syms, dv, sv).errs);
                        }
                        return Err(true);
                    }
                },
            }
            proof {
                assert(before + tc_inits(syms, dv, sv, k as int).errs =~= self.errs() + tc_inits(syms, dv, sv, k as int + 1).errs);
            }
            k += 1;
        }
        proof {
            assert(self.errs() =~= old(self).errs() + tc_const_array(syms, dv, sv).errs);
        }
        Ok(decl_type)
    }

    /// A return statement in the function named by `scope`.
    fn typecheck_return(&mut self, ret: &ReturnStatement, scope: Option<&Identifier>) -> (r: Result<(), bool>)
        ensures
            final(self).parsed_syms == old(self).parsed_syms,
            final(self).errs() == old(self).errs() + tc_return(
                old(self).syms(),
                opt_expr_view(ret.exp),
                span_view(ret.span),
                scope_view(scope),
            ).errs,
            done(r) == done(tc_return(
                old(self).syms(),
                opt_expr_view(ret.exp),
                span_view(ret.span),
                scope_view(scope),
            ).res),
    {
        let func_name = match scope {
            Some(f) => f,
            None => {
                let msg = "Return Statement outside of function scope".to_owned();
                self.report(TypecheckErrorKind::InternalFailure(msg), ret.span);
                return Err(false);
            },
        };
        let func = match self.parsed_syms.lookup_symbol(func_name, None) {
            None => {
                let name = printable(func_name.as_bytes());
                let msg = concat("Unable to find containing function ", name.as_str());
                self.report(TypecheckErrorKind::InternalFailure(msg), func_name.span);
                return Err(false);
            },
            Some(Symbol::Func(func)) => *func,
            Some(_) => {
                let msg = "Scope of return statement is not a function".to_owned();
                self.report(TypecheckErrorKind::InternalFailure(msg), ret.span);
                return Ok(());
            },
        };
        let return_type = zPAR_TYPE::from_ident(&func.typ);
        let is_void = match return_type {
            zPAR_TYPE::Void => true,
            _ => false,
        };
        match &ret.exp {
            Some(exp) => {
                if !is_void {
                    let return_exp_type = match self.check_expression(exp, scope) {
                        Ok(t) => t,
                        Err(b) => return Err(b),
                    };
                    if !return_exp_type.same(&return_type) {
                        let exp_span = exp.get_span();
                        self.report(
                            TypecheckErrorKind::ReturnExpressionDoesNotMatchReturnType(
                                func.typ.duplicate(),
                                return_exp_type,
                            ),
                            exp_span,
                        );
                    } else {
                        proof {
                            assert(self.errs() =~= self.errs() + Seq::<SpecTypecheckError>::empty());
                        }
                    }
                } else {
                    self.report(
                        TypecheckErrorKind::ReturnExpressionInVoidFunction(func.typ.duplicate()),
                        ret.span,
                    );
                }
            },
            None => {
                if is_void {
                    proof {
                        assert(self.errs() =~= self.errs() + Seq::<SpecTypecheckError>::empty());
                    }
                    return Ok(());
                }
                self.report(TypecheckErrorKind::ReturnWithoutExpression(func.typ.duplicate()), ret.span);
            },
        }
        Ok(())
    }

    /// A statement.
    fn typecheck_statement(&mut self, statement: &Statement, scope: Option<&Identifier>) -> (r:
        Result<(), bool>)
        ensures
            final(self).parsed_syms == old(self).parsed_syms,
            final(self).errs() == old(self).errs() + tc_stmt(old(self).syms(), statement@, scope_view(scope)).errs,
            done(r) == done(tc_stmt(old(self).syms(), statement@, scope_view(scope)).res),
        decreases statement, 0int,
    {
        let ghost syms = self.syms();
        let ghost sv = scope_view(scope);
        match statement {
            Statement::Exp(exp) => {
                match self.check_expression(exp, scope) {
                    Ok(_) => Ok(()),
                    Err(b) => Err(b),
                }
            },
            Statement::Ass(ass) => {
                match self.typecheck_assignment(ass, scope) {
                    Ok(_) => Ok(()),
                    Err(b) => Err(b),
                }
            },
            Statement::If(if_clause) => {
                proof {
                    assert(decreases_to!(*statement => **if_clause));
                }
                self.typecheck_if_clause(if_clause, scope)
            },
            Statement::ReturnStatement(ret) => self.typecheck_return(ret, scope),
            Statement::VarDeclarations(decls) => self.typecheck_var_decls(decls, scope),
            Statement::ConstDeclaration(decl) => {
                match self.typecheck_const_decl(decl, scope) {
                    Ok(_) => Ok(()),
                    Err(b) => Err(b),
                }
            },
            Statement::ConstArrayDeclaration(decl) => {
                match self.typecheck_const_array_decl(decl, scope) {
                    Ok(_) => Ok(()),
                    Err(b) => Err(b),
                }
            },
        }
    }

    /// Statements whose outcomes do not matter beyond the errors they report.
    fn typecheck_block(&mut self, body: &Vec<Statement>, scope: Option<&Identifier>) -> (r: Result<(), bool>)
        ensures
            final(self).parsed_syms == old(self).parsed_syms,
            final(self).errs() == old(self).errs() + tc_stmts(old(self).syms(), stmts_view(body@), scope_view(scope), 0).errs,
            done(r) == done(tc_stmts(old(self).syms(), stmts_view(body@), scope_view(scope), 0).res),
        decreases body, 0int,
    {
        let ghost syms = self.syms();
        let ghost sv = scope_view(scope);
        let ghost ss = stmts_view(body@);
        let ghost e0 = self.errs();
        proof {
            lemma_stmts_view_len(body@);
        }
        let mut k: usize = 0;
        while k < body.len()
            invariant
                self.parsed_syms == old(self).parsed_syms,
                syms == self.syms(),
                sv == scope_view(scope),
                ss == stmts_view(body@),
                ss.len() == body@.len(),
                forall|i: int| 0 <= i < body@.len() ==> #[trigger] ss[i] == stmt_view(body@[i]),
                k <= body@.len(),
                syms == old(self).syms(),
                e0 == old(self).errs(),
                e0 + tc_stmts(syms, ss, sv, 0).errs == self.errs() + tc_stmts(syms, ss, sv, k as int).errs,
                tc_stmts(syms, ss, sv, 0).res == tc_stmts(syms, ss, sv, k as int).res,
            decreases body@.len() - k,
        {
            let ghost before = self.errs();
            proof {
                assert(ss[k as int] == body@[k as int]@);
                assert(decreases_to!(*body => body@));
                assert(decreases_to!(body@ => body@[k as int]));
            }
            if let Err(true) = self.typecheck_statement(&body[k], scope) {
                proof {
                    assert(e0 + tc_stmts(syms, ss, sv, 0).errs =~= self.errs());
                }
                return Err(true);
            }
            proof {
                assert(before + tc_stmts(syms, ss, sv, k as int).errs =~= self.errs() + tc_stmts(syms, ss, sv, k as int + 1).errs);
            }
            k += 1;
        }
        proof {
            assert(e0 + tc_stmts(syms, ss, sv, 0).errs =~= self.errs());
        }
        Ok(())
    }

    /// An if clause: each condition must be an `int`.
    fn typecheck_if_clause(&mut self, if_clause: &IfStatement, scope: Option<&Identifier>) -> (r: Result<(), bool>)
        ensures
            final(self).parsed_syms == old(self).parsed_syms,
            final(self).errs() == old(self).errs() + tc_stmt(old(self).syms(), if_view(*if_clause), scope_view(scope)).errs,
            done(r) == done(tc_stmt(old(self).syms(), if_view(*if_clause), scope_view(scope)).res),
        decreases if_clause, 0int,
    {
        let ghost syms = self.syms();
        let ghost sv = scope_view(scope);
        let ghost brs = branches_view(if_clause.branches@);
        let ghost e0 = self.errs();
        proof {
            lemma_branches_view_len(if_clause.branches@);
        }
        let branches = &if_clause.branches;
        let mut i: usize = 0;
        while i < branches.len()
            invariant
                self.parsed_syms == old(self).parsed_syms,
                syms == self.syms(),
                sv == scope_view(scope),
                branches == &if_clause.branches,
                brs == branches_view(branches@),
                brs.len() == branches@.len(),
                forall|j: int|
                    0 <= j < branches@.len() ==> #[trigger] brs[j] == (
                        expr_view(branches@[j].cond),
                        stmts_view(branches@[j].body@),
                        span_view(branches@[j].span),
                    ),
                i <= branches@.len(),
                syms == old(self).syms(),
                e0 == old(self).errs(),
                e0 + tc_branches(syms, brs, sv, 0).errs == self.errs() + tc_branches(syms, brs, sv, i as int).errs,
                tc_branches(syms, brs, sv, 0).res == tc_branches(syms, brs, sv, i as int).res,
            decreases branches@.len() - i,
        {
            let ghost before = self.errs();
            let branch = &branches[i];
            proof {
                assert(brs[i as int] == (branch.cond@, stmts_view(branch.body@), span_view(branch.span)));
                assert(decreases_to!(*if_clause => if_clause.branches));
                assert(decreases_to!(if_clause.branches => if_clause.branches@));
                assert(decreases_to!(if_clause.branches@ => if_clause.branches@[i as int]));
                assert(decreases_to!(if_clause.branches@[i as int] => if_clause.branches@[i as int].body));
            }
            match self.check_expression(&branch.cond, scope) {
                Err(b) => {
                    if b {
                        proof {
                            assert(e0 + tc_branches(syms, brs, sv, 0).errs =~= self.errs());
                        }
                        return Err(true);
                    }
                },
                Ok(cond_type) => {
                    if !cond_type.is_int() {
                        let cond_span = branch.cond.get_span();
                        self.report(TypecheckErrorKind::ConditionNotInt(cond_type), cond_span);
                    } else {
                        proof {
                            assert(self.errs() =~= self.errs() + Seq::<SpecTypecheckError>::empty());
                        }
                    }
                    if self.typecheck_block(&branch.body, scope).is_err() {
                        proof {
                            lemma_stmts_never_fail(syms, stmts_view(branch.body@), sv, 0);
                            assert(e0 + tc_branches(syms, brs, sv, 0).errs =~= self.errs());
                        }
                        return Err(true);
                    }
                },
            }
            proof {
                assert(before + tc_branches(syms, brs, sv, i as int).errs =~= self.errs() + tc_branches(syms, brs, sv, i as int + 1).errs);
            }
            i += 1;
        }
        match &if_clause.else_branch {
            Some(else_branch) => {
                proof {
                    assert(decreases_to!(*if_clause => if_clause.else_branch));
                }
                let rb = self.typecheck_block(else_branch, scope);
                if rb.is_err() {
                    proof {
                        lemma_stmts_never_fail(syms, stmts_view(else_branch@), sv, 0);
                        lemma_branches_never_fail(syms, brs, sv, 0);
                        assert(self.errs() =~= e0 + tc_stmt(syms, if_view(*if_clause), sv).errs);
                    }
                    return Err(true);
                }
                proof {
                    assert(tc_stmts(syms, stmts_view(else_branch@), sv, 0).res is Ok);
                }
            },
            None => {
                proof {
                    assert(self.errs() =~= self.errs() + Seq::<SpecTypecheckError>::empty());
                }
            },
        }
        proof {
            assert(self.errs() =~= e0 + tc_stmt(syms, if_view(*if_clause), sv).errs);
            assert(tc_branches(syms, brs, sv, 0).res is Ok);
            assert(tc_stmt(syms, if_view(*if_clause), sv).res is Ok);
        }
        Ok(())
    }

    /// Variable declarations; the first that fails ends the checking.
    fn typecheck_var_decls(&mut self, decls: &Vec<VarDeclaration>, scope: Option<&Identifier>) -> (r:
        Result<(), bool>)
        ensures
            final(self).parsed_syms == old(self).parsed_syms,
            final(self).errs() == old(self).errs() + tc_var_decls(old(self).syms(), var_decls_view(decls@), scope_view(scope), 0).errs,
            done(r) == done(tc_var_decls(old(self).syms(), var_decls_view(decls@), scope_view(scope), 0).res),
    {
        let ghost syms = self.syms();
        let ghost sv = scope_view(scope);
        let ghost ds = var_decls_view(decls@);
        let ghost e0 = self.errs();
        let mut k: usize = 0;
        while k < decls.len()
            invariant
                self.parsed_syms == old(self).parsed_syms,
                syms == self.syms(),
                syms == old(self).syms(),
                e0 == old(self).errs(),
                sv == scope_view(scope),
                ds == var_decls_view(decls@),
                k <= decls@.len(),
                e0 + tc_var_decls(syms, ds, sv, 0).errs == self.errs() + tc_var_decls(syms, ds, sv, k as int).errs,
                tc_var_decls(syms, ds, sv, 0).res == tc_var_decls(syms, ds, sv, k as int).res,
            decreases decls@.len() - k,
        {
            let ghost before = self.errs();
            let r = self.typecheck_var_decl(&decls[k], scope);
            proof {
                assert(ds[k as int] == decls@[k as int]@);
            }
            if r.is_err() {
                proof {
                    assert(e0 + tc_var_decls(syms, ds, sv, 0).errs =~= self.errs());
                }
                return Err(false);
            }
            proof {
                assert(before + tc_var_decls(syms, ds, sv, k as int).errs =~= self.errs() + tc_var_decls(syms, ds, sv, k as int + 1).errs);
            }
            k += 1;
        }
        proof {
            assert(e0 + tc_var_decls(syms, ds, sv, 0).errs =~= self.errs());
        }
        Ok(())
    }

    /// A function: its return and parameter types must be types; its statements are
    /// checked in its scope.
    fn typecheck_func(&mut self, decl: &Function) -> (r: Result<(), bool>)
        ensures
            final(self).parsed_syms == old(self).parsed_syms,
            final(self).errs() == old(self).errs() + tc_func(old(self).syms(), decl@).errs,
            done(r) == done(tc_func(old(self).syms(), decl@).res),
    {
        let ghost syms = self.syms();
        let ghost f = decl@;
        let ghost e0 = self.errs();
        match self.is_type(&decl.typ) {
            IsType::UnknownIdentifier => {
                self.report(TypecheckErrorKind::UnknownReturnType(decl.typ.duplicate()), decl.typ.span)
            },
            IsType::NotType => {
                let e = TypecheckError::not_a_type(decl.typ.duplicate());
                self.report(e.kind, e.span);
            },
            IsType::IsType => {
                proof {
                    assert(self.errs() =~= self.errs() + Seq::<SpecTypecheckError>::empty());
                }
            },
        }
        let ghost e1 = self.errs();
        let mut k: usize = 0;
        while k < decl.params.len()
            invariant
                self.parsed_syms == old(self).parsed_syms,
                syms == self.syms(),
                f == decl@,
                k <= decl.params@.len(),
                e1 + param_type_errors(syms, f, 0) == self.errs() + param_type_errors(syms, f, k as int),
            decreases decl.params@.len() - k,
        {
            let ghost before = self.errs();
            let param = &decl.params[k];
            match self.is_type(&param.typ) {
                IsType::UnknownIdentifier => {
                    self.report(
                        TypecheckErrorKind::UnknownParameterType(param.typ.duplicate()),
                        param.typ.span,
                    )
                },
                IsType::NotType => {
                    let e = TypecheckError::not_a_type(decl.typ.duplicate());
                    self.report(e.kind, e.span);
                },
                IsType::IsType => {},
            }
            proof {
                assert(f.params[k as int] == param@);
                assert(before + param_type_errors(syms, f, k as int) =~= self.errs() + param_type_errors(syms, f, k as int + 1));
            }
            k += 1;
        }
        proof {
            assert(e1 + param_type_errors(syms, f, 0) =~= self.errs());
        }
        let r = self.typecheck_block(&decl.body, Some(&decl.name));
        proof {
            assert(self.errs() =~= e0 + tc_func(syms, f).errs);
        }
        r
    }

    /// The members of a class, in its scope; a failing member does not stop the others.
    pub fn typecheck_class(&mut self, class: &Class) -> (r: Result<(), ()>)
        ensures
            final(self).parsed_syms == old(self).parsed_syms,
            final(self).errs() == old(self).errs() + tc_members(old(self).syms(), class@, 0).errs,
            r is Ok,
    {
        let ghost syms = self.syms();
        let ghost c = class@;
        let ghost e0 = self.errs();
        let mut k: usize = 0;
        while k < class.members.len()
            invariant
                self.parsed_syms == old(self).parsed_syms,
                syms == self.syms(),
                c == class@,
                k <= class.members@.len(),
                e0 + tc_members(syms, c, 0).errs == self.errs() + tc_members(syms, c, k as int).errs,
            decreases class.members@.len() - k,
        {
            let ghost before = self.errs();
            let _ = self.typecheck_var_decl(&class.members[k], Some(&class.name));
            proof {
                assert(c.members[k as int] == class.members@[k as int]@);
                assert(before + tc_members(syms, c, k as int).errs =~= self.errs() + tc_members(syms, c, k as int + 1).errs);
            }
            k += 1;
        }
        proof {
            assert(e0 + tc_members(syms, c, 0).errs =~= self.errs());
        }
        Ok(())
    }

    /// The body of an instance or prototype `name` of parent `class`.
    fn typecheck_derived(&mut self, name: &Identifier, class: &Identifier, body: &Vec<Statement>) -> (r:
        Result<zPAR_TYPE, bool>)
        ensures
            final(self).parsed_syms == old(self).parsed_syms,
            final(self).errs() == old(self).errs() + tc_inst(
                old(self).syms(),
                SpecInstance { name: name@, class: class@, body: stmts_view(body@) },
            ).errs,
            result_view(r) == tc_inst(
                old(self).syms(),
                SpecInstance { name: name@, class: class@, body: stmts_view(body@) },
            ).res,
    {
        let ghost syms = self.syms();
        let ghost iv = SpecInstance { name: name@, class: class@, body: stmts_view(body@) };
        let ghost e0 = self.errs();
        let span = (name.span.0, class.span.1);
        let scope: &Identifier = match self.parsed_syms.lookup_symbol(class, None) {
            None => {
                self.report(TypecheckErrorKind::InstanceHasUnknownParent(class.duplicate()), span);
                return Err(false);
            },
            Some(Symbol::Class(c)) => &c.name,
            Some(Symbol::Proto(p)) => &p.class,
            Some(other) => {
                self.report(TypecheckErrorKind::InstanceParentNotClassOrProto(class.duplicate(), other.sort()), span);
                return Err(false);
            },
        };
        proof {
            assert(parent_scope(syms, iv) == Ok::<SpecIdentifier, SpecTypecheckError>(scope@));
            lemma_stmts_view_len(body@);
        }
        let ghost ss = stmts_view(body@);
        let ghost sv = Some(scope@);
        let mut k: usize = 0;
        while k < body.len()
            invariant
                self.parsed_syms == old(self).parsed_syms,
                syms == self.syms(),
                syms == old(self).syms(),
                e0 == old(self).errs(),
                iv == (SpecInstance { name: name@, class: class@, body: stmts_view(body@) }),
                parent_scope(syms, iv) == Ok::<SpecIdentifier, SpecTypecheckError>(scope@),
                sv == Some(scope@),
                ss == stmts_view(body@),
                ss.len() == body@.len(),
                forall|i: int| 0 <= i < body@.len() ==> #[trigger] ss[i] == stmt_view(body@[i]),
                k <= body@.len(),
                e0 + tc_stmts_q(syms, ss, sv, 0).errs == self.errs() + tc_stmts_q(syms, ss, sv, k as int).errs,
                tc_stmts_q(syms, ss, sv, 0).res == tc_stmts_q(syms, ss, sv, k as int).res,
            decreases body@.len() - k,
        {
            let ghost before = self.errs();
            proof {
                assert(ss[k as int] == body@[k as int]@);
            }
            let r = self.typecheck_statement(&body[k], Some(scope));
            if let Err(b) = r {
                proof {
                    assert(e0 + tc_stmts_q(syms, ss, sv, 0).errs =~= self.errs());
                }
                return Err(b);
            }
            proof {
                assert(before + tc_stmts_q(syms, ss, sv, k as int).errs =~= self.errs() + tc_stmts_q(syms, ss, sv, k as int + 1).errs);
            }
            k += 1;
        }
        proof {
            assert(e0 + tc_stmts_q(syms, ss, sv, 0).errs =~= self.errs());
        }
        Ok(zPAR_TYPE::from_ident(class))
    }

    /// An instance: its parent must be a class or prototype, and its statements are checked
    /// in the scope of that class.
    fn typecheck_instance(&mut self, inst: &Instance) -> (r: Result<zPAR_TYPE, bool>)
        ensures
            final(self).parsed_syms == old(self).parsed_syms,
            final(self).errs() == old(self).errs() + tc_inst(old(self).syms(), inst@).errs,
            result_view(r) == tc_inst(old(self).syms(), inst@).res,
    {
        self.typecheck_derived(&inst.name, &inst.class, &inst.body)
    }

    /// A prototype, checked as an instance is.
    fn typecheck_prototype(&mut self, proto: &Prototype) -> (r: Result<zPAR_TYPE, bool>)
        ensures
            final(self).parsed_syms == old(self).parsed_syms,
            final(self).errs() == old(self).errs() + tc_inst(old(self).syms(), proto@).errs,
            result_view(r) == tc_inst(old(self).syms(), proto@).res,
    {
        self.typecheck_derived(&proto.name, &proto.class, &proto.body)
    }

    /// Checks one top level symbol.
    #[verifier::spinoff_prover]
    #[verifier::rlimit(50)]
    fn typecheck_symbol(&mut self, symbol: &Symbol) -> (r: Result<(), bool>)
        ensures
            final(self).parsed_syms == old(self).parsed_syms,
            final(self).errs() == old(self).errs() + tc_symbol(old(self).syms(), symbol@).errs,
            done(r) == done(tc_symbol(old(self).syms(), symbol@).res),
    {
        match symbol {
            Symbol::Func(func) => match self.typecheck_func(func) {
                Err(true) => Err(true),
                _ => Ok(()),
            },
            Symbol::Class(class) => {
                let _ = self.typecheck_class(class);
                proof {
                    lemma_members_never_stuck(old(self).syms(), class@, 0);
                }
                Ok(())
            },
            Symbol::Inst(inst) => match self.typecheck_instance(inst) {
                Ok(_) => Ok(()),
                Err(b) => Err(b),
            },
            Symbol::Proto(proto) => match self.typecheck_prototype(proto) {
                Ok(_) => Ok(()),
                Err(b) => Err(b),
            },
            Symbol::Var(decl, None) => match self.typecheck_var_decl(decl, None) {
                Ok(_) => Ok(()),
                Err(_) => Err(false),
            },
            Symbol::Const(decl, None) => match self.typecheck_const_decl(decl, None) {
                Ok(_) => Ok(()),
                Err(b) => Err(b),
            },
            Symbol::ConstArray(decl, None) => match self.typecheck_const_array_decl(decl, None) {
                Ok(_) => Ok(()),
                Err(b) => Err(b),
            },
            _ => {
                proof {
                    assert(self.errs() =~= self.errs() + Seq::<SpecTypecheckError>::empty());
                }
                Ok(())
            },
        }
    }

    /// Checks the top level symbols in order.
    fn typecheck_symbols(&mut self) -> (r: Result<(), bool>)
        ensures
            final(self).parsed_syms == old(self).parsed_syms,
            final(self).errs() == old(self).errs() + tc_symbols(old(self).syms(), 0).errs,
            done(r) == done(tc_symbols(old(self).syms(), 0).res),
    {
        let ghost syms = self.syms();
        let ghost e0 = self.errs();
        let mut k: usize = 0;
        while k < self.parsed_syms.syms.len()
            invariant
                self.parsed_syms == old(self).parsed_syms,
                syms == self.syms(),
                syms == old(self).syms(),
                e0 == old(self).errs(),
                k <= syms.len(),
                syms.len() == self.parsed_syms.syms@.len(),
                e0 + tc_symbols(syms, 0).errs == self.errs() + tc_symbols(syms, k as int).errs,
                tc_symbols(syms, 0).res == tc_symbols(syms, k as int).res,
            decreases syms.len() - k,
        {
            let ghost before = self.errs();
            let parsed_syms = self.parsed_syms;
            let symbol = &parsed_syms.syms[k];
            proof {
                assert(syms[k as int] == symbol@);
            }
            let r = self.typecheck_symbol(symbol);
            if let Err(b) = r {
                proof {
                    assert(e0 + tc_symbols(syms, 0).errs =~= self.errs());
                }
                return Err(b);
            }
            proof {
                assert(before + tc_symbols(syms, k as int).errs =~= self.errs() + tc_symbols(syms, k as int + 1).errs);
            }
            k += 1;
        }
        proof {
            assert(e0 + tc_symbols(syms, 0).errs =~= self.errs());
        }
        Ok(())
    }

    /// Checks every top level symbol; fails when a check fails or any error was found.
    pub fn typecheck(&mut self) -> (r: Result<(), ()>)
        requires
            !is_stuck(tc_symbols(old(self).syms(), 0)),
        ensures
            final(self).parsed_syms == old(self).parsed_syms,
            final(self).errs() == old(self).errs() + tc_symbols(old(self).syms(), 0).errs,
            r is Ok <==> (tc_symbols(old(self).syms(), 0).res is Ok && final(self).errors@.len() == 0),
    {
        let r = self.typecheck_symbols();
        if r.is_err() || self.errors.len() != 0 {
            Err(())
        } else {
            Ok(())
        }
    }

    /// Checks every top level symbol as `typecheck` does, unless checking reaches a member
    /// access (`instance.member`), which it does not handle: then `None`, with the errors
    /// found before it.
    pub fn try_typecheck(&mut self) -> (r: Option<Result<(), ()>>)
        ensures
            final(self).parsed_syms == old(self).parsed_syms,
            final(self).errs() == old(self).errs() + tc_symbols(old(self).syms(), 0).errs,
            r is None <==> is_stuck(tc_symbols(old(self).syms(), 0)),
            r matches Some(x) ==> (x is Ok <==> (tc_symbols(old(self).syms(), 0).res is Ok
                && final(self).errors@.len() == 0)),
    {
        match self.typecheck_symbols() {
            Err(true) => None,
            Err(false) => Some(Err(())),
            Ok(()) => if self.errors.len() != 0 {
                Some(Err(()))
            } else {
                Some(Ok(()))
            },
        }
    }
}

} // verus!
