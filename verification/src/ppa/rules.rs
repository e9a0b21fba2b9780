//! The typing rules: what the typechecker reports and concludes for each construct.
//!
//! Each rule gives the errors it reports, in order, and its outcome: a type (or nothing),
//! `Err(false)` when the construct cannot be checked further, or `Err(true)` when checking
//! reaches a member access (`instance.member`), which the typechecker does not handle.
use crate::lexer::{eq_ignore_case, utf8_lossy};
use crate::ppa::errors::{SpecTypecheckError, SpecTypecheckErrorKind, tc_err};
use crate::ppa::symbols::{SpecSymbol, SpecZType, sort_of, spec_from_ident, spec_lookup, symbol_ref, sym_typ};
use crate::types::{
    AssignmentOperator, SpecArraySize, SpecAssignment, SpecClass, SpecConstArrayDeclaration,
    SpecConstDeclaration, SpecExpression, SpecFunction, SpecIdentifier, SpecInstance,
    SpecStatement, SpecVarDeclaration, expr_span,
};
use vstd::prelude::*;

verus! {

/// The errors a check reports, and its outcome.
pub struct Checked<T> {
    pub errs: Seq<SpecTypecheckError>,
    pub res: Result<T, bool>,
}

pub open spec fn ok_c<T>(errs: Seq<SpecTypecheckError>, v: T) -> Checked<T> {
    Checked { errs, res: Ok(v) }
}

pub open spec fn fail_c<T>(errs: Seq<SpecTypecheckError>) -> Checked<T> {
    Checked { errs, res: Err(false) }
}

pub open spec fn stuck_c<T>() -> Checked<T> {
    Checked { errs: seq![], res: Err(true) }
}

pub open spec fn is_stuck<T>(c: Checked<T>) -> bool {
    c.res == Err::<T, bool>(true)
}

/// A check whose outcome is dropped; only reaching a member access still counts.
pub open spec fn ignored<T>(c: Checked<T>) -> Checked<()> {
    Checked {
        errs: c.errs,
        res: if is_stuck(c) {
            Err(true)
        } else {
            Ok(())
        },
    }
}

pub open spec fn unit_c<T>(c: Checked<T>) -> Checked<()> {
    Checked {
        errs: c.errs,
        res: match c.res {
            Ok(_) => Ok(()),
            Err(b) => Err(b),
        },
    }
}

/// `a` and then `b`, however `a` turned out, unless it reached a member access.
pub open spec fn then_all(a: Checked<()>, b: Checked<()>) -> Checked<()> {
    if is_stuck(a) {
        a
    } else {
        Checked { errs: a.errs + b.errs, res: b.res }
    }
}

/// `a` and then `b`, only if `a` succeeded.
pub open spec fn then_q<T>(a: Checked<()>, b: Checked<T>) -> Checked<T> {
    match a.res {
        Err(x) => Checked { errs: a.errs, res: Err(x) },
        Ok(_) => Checked { errs: a.errs + b.errs, res: b.res },
    }
}

pub open spec fn scope_name(scope: Option<SpecIdentifier>) -> Option<Seq<u8>> {
    match scope {
        Some(s) => Some(s.name),
        None => None,
    }
}

/// Whether a name is one of the primitive types `int`, `void`, `string`, `float`.
pub open spec fn is_primitive(name: Seq<u8>) -> bool {
    eq_ignore_case(name, seq![105u8, 110, 116]) || eq_ignore_case(name, seq![118u8, 111, 105, 100])
        || eq_ignore_case(name, seq![115u8, 116, 114, 105, 110, 103]) || eq_ignore_case(
        name,
        seq![102u8, 108, 111, 97, 116],
    )
}

/// Whether a class of that name (in any case) is declared.
pub open spec fn class_named(syms: Seq<SpecSymbol>, name: Seq<u8>) -> bool {
    exists|i: int|
        0 <= i < syms.len() && (#[trigger] syms[i] matches SpecSymbol::Class(c) && eq_ignore_case(
            name,
            c.name.name,
        ))
}

/// Whether an identifier names a type, names something else, or names nothing.
#[derive(Debug, Clone, Copy, PartialEq, Eq)]
pub enum IsType {
    UnknownIdentifier,
    NotType,
    IsType,
}

pub open spec fn spec_is_type(syms: Seq<SpecSymbol>, typ: SpecIdentifier) -> IsType {
    if is_primitive(typ.name) || class_named(syms, typ.name) {
        IsType::IsType
    } else if spec_lookup(syms, typ.name, None) is Some {
        IsType::NotType
    } else {
        IsType::UnknownIdentifier
    }
}

/// A variable used in an expression: its type, unless it is unknown or a class.
pub open spec fn tc_var(
    syms: Seq<SpecSymbol>,
    name: SpecIdentifier,
    span: (int, int),
    scope: Option<SpecIdentifier>,
) -> Checked<SpecZType> {
    match spec_lookup(syms, name.name, scope_name(scope)) {
        None => fail_c(
            seq![tc_err(SpecTypecheckErrorKind::UnknownIdentifierInExpression(name), span)],
        ),
        Some(i) => if syms[i] is Class {
            fail_c(
                seq![
                    tc_err(
                        SpecTypecheckErrorKind::IdentifierIsClassInExpression(name, symbol_ref(syms, i)),
                        span,
                    ),
                ],
            )
        } else {
            ok_c(seq![], sym_typ(syms[i]))
        },
    }
}

pub open spec fn int_or_error(t: SpecZType, span: (int, int)) -> Seq<SpecTypecheckError> {
    if t != SpecZType::Int {
        seq![tc_err(SpecTypecheckErrorKind::BinaryExpressionNotInt, span)]
    } else {
        seq![]
    }
}

/// The type of an expression.
pub open spec fn tc_expr(syms: Seq<SpecSymbol>, e: SpecExpression, scope: Option<SpecIdentifier>) -> Checked<
    SpecZType,
>
    decreases e, 0int,
{
    match e {
        SpecExpression::Int(_, _) => ok_c(seq![], SpecZType::Int),
        SpecExpression::Float(_, _) => ok_c(seq![], SpecZType::Float),
        SpecExpression::String(_, _) => ok_c(seq![], SpecZType::String),
        SpecExpression::Call(func, args, span) => match spec_lookup(syms, func.name, None) {
            None => fail_c(seq![tc_err(SpecTypecheckErrorKind::UnknownFunctionCall(func), span)]),
            Some(i) => match syms[i] {
                SpecSymbol::Func(f) => {
                    let e1 = if f.params.len() != args.len() {
                        seq![
                            tc_err(
                                SpecTypecheckErrorKind::FunctionCallWrongAmountOfParameters(
                                    f.params.len() as int,
                                    args.len() as int,
                                ),
                                span,
                            ),
                        ]
                    } else {
                        seq![]
                    };
                    let a = tc_args(syms, args, f.params, scope, 0);
                    Checked {
                        errs: e1 + a.errs,
                        res: match a.res {
                            Err(b) => Err(b),
                            Ok(_) => Ok(spec_from_ident(f.typ)),
                        },
                    }
                },
                _ => fail_c(
                    seq![tc_err(SpecTypecheckErrorKind::FunctionCallWrongType(func, symbol_ref(syms, i)), span)],
                ),
            },
        },
        SpecExpression::Binary(_, l, r, _) => {
            let lc = tc_expr(syms, *l, scope);
            match lc.res {
                Err(b) => Checked { errs: lc.errs, res: Err(b) },
                Ok(lt) => {
                    let rc = tc_expr(syms, *r, scope);
                    match rc.res {
                        Err(b) => Checked { errs: lc.errs + rc.errs, res: Err(b) },
                        Ok(rt) => if lt == SpecZType::Int && rt == SpecZType::Int {
                            ok_c(lc.errs + rc.errs, SpecZType::Int)
                        } else {
                            fail_c(
                                lc.errs + rc.errs + int_or_error(lt, expr_span(*l)) + int_or_error(
                                    rt,
                                    expr_span(*r),
                                ),
                            )
                        },
                    }
                },
            }
        },
        SpecExpression::Unary(_, x, _) => {
            let c = tc_expr(syms, *x, scope);
            match c.res {
                Err(b) => Checked { errs: c.errs, res: Err(b) },
                Ok(t) => if t == SpecZType::Int {
                    ok_c(c.errs, t)
                } else {
                    fail_c(
                        c.errs + seq![
                            tc_err(SpecTypecheckErrorKind::UnaryExpressionNotInt, expr_span(*x)),
                        ],
                    )
                },
            }
        },
        SpecExpression::Var(name, instance, _, span) => if instance is Some {
            stuck_c()
        } else {
            tc_var(syms, name, span, scope)
        },
    }
}

/// The arguments of a call from the `k`th on, against the parameters, while both last.
pub open spec fn tc_args(
    syms: Seq<SpecSymbol>,
    args: Seq<SpecExpression>,
    params: Seq<SpecVarDeclaration>,
    scope: Option<SpecIdentifier>,
    k: int,
) -> Checked<()>
    decreases args, args.len() - k,
    when 0 <= k
{
    if k >= args.len() || k >= params.len() {
        ok_c(seq![], ())
    } else {
        let c = tc_expr(syms, args[k], scope);
        match c.res {
            Err(b) => Checked { errs: c.errs, res: Err(b) },
            Ok(actual) => {
                let expected = spec_from_ident(params[k].typ);
                let e2 = if expected != actual {
                    seq![
                        tc_err(
                            SpecTypecheckErrorKind::FunctionCallParameterWrongType(expected, actual),
                            expr_span(args[k]),
                        ),
                    ]
                } else {
                    seq![]
                };
                let rest = tc_args(syms, args, params, scope, k + 1);
                Checked { errs: c.errs + e2 + rest.errs, res: rest.res }
            },
        }
    }
}

/// An assignment: both sides have the same type, and only `int` takes the compound operators.
pub open spec fn tc_assign(syms: Seq<SpecSymbol>, a: SpecAssignment, scope: Option<SpecIdentifier>) -> Checked<
    SpecZType,
> {
    if a.var.instance is Some {
        stuck_c()
    } else {
        let l = tc_var(syms, a.var.name, a.var.span, scope);
        match l.res {
            Err(b) => Checked { errs: l.errs, res: Err(b) },
            Ok(lt) => {
                let r = tc_expr(syms, a.exp, scope);
                match r.res {
                    Err(b) => Checked { errs: l.errs + r.errs, res: Err(b) },
                    Ok(rt) => {
                        let errs = l.errs + r.errs;
                        if lt != rt {
                            fail_c(
                                errs + seq![
                                    tc_err(
                                        SpecTypecheckErrorKind::AssignmentWrongTypes(
                                            lt,
                                            a.var.span,
                                            rt,
                                            expr_span(a.exp),
                                        ),
                                        a.span,
                                    ),
                                ],
                            )
                        } else if lt == SpecZType::String && a.op != AssignmentOperator::Eq {
                            fail_c(errs + seq![tc_err(SpecTypecheckErrorKind::CanOnlyAssignToString, a.span)])
                        } else if lt == SpecZType::Float && a.op != AssignmentOperator::Eq {
                            fail_c(errs + seq![tc_err(SpecTypecheckErrorKind::CanOnlyAssignToFloat, a.span)])
                        } else if lt is Instance && a.op != AssignmentOperator::Eq {
                            fail_c(
                                errs + seq![tc_err(SpecTypecheckErrorKind::CanOnlyAssignToInstance, a.span)],
                            )
                        } else {
                            ok_c(errs, lt)
                        }
                    },
                }
            },
        }
    }
}

/// The error for a variable type that names no type, if it does not.
pub open spec fn var_type_errors(syms: Seq<SpecSymbol>, typ: SpecIdentifier) -> Seq<SpecTypecheckError> {
    match spec_is_type(syms, typ) {
        IsType::UnknownIdentifier => seq![tc_err(SpecTypecheckErrorKind::UnknownVariableType(typ), typ.span)],
        IsType::NotType => seq![tc_err(SpecTypecheckErrorKind::IdentifierIsNotType(typ), typ.span)],
        IsType::IsType => seq![],
    }
}

/// The errors of an array size given by the constant `c`, if any.
pub open spec fn array_size_errors(
    syms: Seq<SpecSymbol>,
    c: SpecIdentifier,
    scope: Option<SpecIdentifier>,
) -> Seq<SpecTypecheckError> {
    match spec_lookup(syms, c.name, scope_name(scope)) {
        Some(i) => match syms[i] {
            SpecSymbol::Const(cd, _) => if spec_from_ident(cd.typ) != SpecZType::Int {
                seq![
                    tc_err(
                        SpecTypecheckErrorKind::ArraySizeIsNotInteger(spec_from_ident(cd.typ), cd.span),
                        c.span,
                    ),
                ]
            } else {
                seq![]
            },
            _ => seq![tc_err(SpecTypecheckErrorKind::NonConstantArraySize, c.span)],
        },
        None => seq![tc_err(SpecTypecheckErrorKind::UnknownIdentifierInArraySize(c), c.span)],
    }
}

/// A variable declaration: its type must be a type, and an array size given by a name must
/// be an integer constant.
pub open spec fn tc_var_decl(syms: Seq<SpecSymbol>, d: SpecVarDeclaration, scope: Option<SpecIdentifier>) -> Checked<
    SpecZType,
> {
    let e0 = var_type_errors(syms, d.typ);
    match d.array_size {
        Some(SpecArraySize::Identifier(c)) => {
            let e1 = array_size_errors(syms, c, scope);
            if e1.len() == 0 {
                ok_c(e0, spec_from_ident(d.typ))
            } else {
                fail_c(e0 + e1)
            }
        },
        _ => ok_c(e0, spec_from_ident(d.typ)),
    }
}

/// The variable declarations from the `k`th on; the first that fails ends the checking.
pub open spec fn tc_var_decls(
    syms: Seq<SpecSymbol>,
    ds: Seq<SpecVarDeclaration>,
    scope: Option<SpecIdentifier>,
    k: int,
) -> Checked<()>
    decreases ds.len() - k,
    when 0 <= k
{
    if k >= ds.len() {
        ok_c(seq![], ())
    } else {
        then_q(unit_c(tc_var_decl(syms, ds[k], scope)), tc_var_decls(syms, ds, scope, k + 1))
    }
}

/// A constant: its type must be a type, and its value must have that type.
pub open spec fn tc_const_decl(syms: Seq<SpecSymbol>, d: SpecConstDeclaration, scope: Option<SpecIdentifier>) -> Checked<
    SpecZType,
> {
    match spec_is_type(syms, d.typ) {
        IsType::NotType => fail_c(seq![tc_err(SpecTypecheckErrorKind::IdentifierIsNotType(d.typ), d.typ.span)]),
        IsType::UnknownIdentifier => fail_c(
            seq![tc_err(SpecTypecheckErrorKind::UnknownVariableType(d.typ), d.typ.span)],
        ),
        IsType::IsType => {
            let c = tc_expr(syms, d.initializer, scope);
            match c.res {
                Err(b) => Checked { errs: c.errs, res: Err(b) },
                Ok(t) => {
                    let dt = spec_from_ident(d.typ);
                    let e = if t != dt {
                        seq![
                            tc_err(
                                SpecTypecheckErrorKind::AssignmentWrongTypes(
                                    dt,
                                    d.typ.span,
                                    t,
                                    expr_span(d.initializer),
                                ),
                                d.span,
                            ),
                        ]
                    } else {
                        seq![]
                    };
                    ok_c(c.errs + e, dt)
                },
            }
        },
    }
}

/// The elements of a constant array from the `k`th on; an element that fails is skipped.
pub open spec fn tc_inits(
    syms: Seq<SpecSymbol>,
    d: SpecConstArrayDeclaration,
    scope: Option<SpecIdentifier>,
    k: int,
) -> Checked<()>
    decreases d.initializer.len() - k,
    when 0 <= k
{
    if k >= d.initializer.len() {
        ok_c(seq![], ())
    } else {
        let x = d.initializer[k];
        let c = tc_expr(syms, x, scope);
        let dt = spec_from_ident(d.typ);
        let here = match c.res {
            Err(b) => Checked { errs: c.errs, res: if b { Err(true) } else { Ok(()) } },
            Ok(t) => ok_c(
                c.errs + if t != dt {
                    seq![
                        tc_err(
                            SpecTypecheckErrorKind::WrongTypeInArrayInitialization(
                                dt,
                                d.typ.span,
                                t,
                                expr_span(x),
                            ),
                            d.span,
                        ),
                    ]
                } else {
                    seq![]
                },
                (),
            ),
        };
        then_all(here, tc_inits(syms, d, scope, k + 1))
    }
}

/// A constant array: its type must be a type, a named size an integer constant, and each
/// element must have the declared type.
pub open spec fn tc_const_array(
    syms: Seq<SpecSymbol>,
    d: SpecConstArrayDeclaration,
    scope: Option<SpecIdentifier>,
) -> Checked<SpecZType> {
    match spec_is_type(syms, d.typ) {
        IsType::NotType => fail_c(seq![tc_err(SpecTypecheckErrorKind::IdentifierIsNotType(d.typ), d.typ.span)]),
        IsType::UnknownIdentifier => fail_c(
            seq![tc_err(SpecTypecheckErrorKind::UnknownVariableType(d.typ), d.typ.span)],
        ),
        IsType::IsType => {
            let e1 = match d.array_size {
                SpecArraySize::Identifier(c) => array_size_errors(syms, c, scope),
                SpecArraySize::Size(_) => seq![],
            };
            let inits = tc_inits(syms, d, scope, 0);
            Checked {
                errs: e1 + inits.errs,
                res: if is_stuck(inits) {
                    Err(true)
                } else {
                    Ok(spec_from_ident(d.typ))
                },
            }
        },
    }
}

pub open spec fn outside_function_message() -> Seq<char> {
    "Return Statement outside of function scope"@
}

pub open spec fn not_a_function_message() -> Seq<char> {
    "Scope of return statement is not a function"@
}

pub open spec fn missing_function_message(name: Seq<u8>) -> Seq<char> {
    "Unable to find containing function "@ + utf8_lossy(name)
}

/// A return statement in the function named by the scope: it returns a value of the
/// function's type, or nothing in a `void` function.
pub open spec fn tc_return(
    syms: Seq<SpecSymbol>,
    exp: Option<SpecExpression>,
    span: (int, int),
    scope: Option<SpecIdentifier>,
) -> Checked<()> {
    match scope {
        None => fail_c(seq![tc_err(SpecTypecheckErrorKind::InternalFailure(outside_function_message()), span)]),
        Some(fname) => match spec_lookup(syms, fname.name, None) {
            None => fail_c(
                seq![
                    tc_err(
                        SpecTypecheckErrorKind::InternalFailure(missing_function_message(fname.name)),
                        fname.span,
                    ),
                ],
            ),
            Some(i) => match syms[i] {
                SpecSymbol::Func(f) => {
                    let rt = spec_from_ident(f.typ);
                    match exp {
                        Some(x) => if rt != SpecZType::Void {
                            let c = tc_expr(syms, x, scope);
                            match c.res {
                                Err(b) => Checked { errs: c.errs, res: Err(b) },
                                Ok(t) => ok_c(
                                    c.errs + if t != rt {
                                        seq![
                                            tc_err(
                                                SpecTypecheckErrorKind::ReturnExpressionDoesNotMatchReturnType(
                                                    f.typ,
                                                    t,
                                                ),
                                                expr_span(x),
                                            ),
                                        ]
                                    } else {
                                        seq![]
                                    },
                                    (),
                                ),
                            }
                        } else {
                            ok_c(
                                seq![tc_err(SpecTypecheckErrorKind::ReturnExpressionInVoidFunction(f.typ), span)],
                                (),
                            )
                        },
                        None => if rt == SpecZType::Void {
                            ok_c(seq![], ())
                        } else {
                            ok_c(seq![tc_err(SpecTypecheckErrorKind::ReturnWithoutExpression(f.typ), span)], ())
                        },
                    }
                },
                _ => ok_c(seq![tc_err(SpecTypecheckErrorKind::InternalFailure(not_a_function_message()), span)], ()),
            },
        },
    }
}

/// A statement.
pub open spec fn tc_stmt(syms: Seq<SpecSymbol>, s: SpecStatement, scope: Option<SpecIdentifier>) -> Checked<()>
    decreases s, 0int,
{
    match s {
        SpecStatement::Exp(e) => unit_c(tc_expr(syms, e, scope)),
        SpecStatement::Ass(a) => unit_c(tc_assign(syms, a, scope)),
        SpecStatement::If(brs, els, _) => then_all(
            tc_branches(syms, brs, scope, 0),
            match els {
                Some(b) => tc_stmts(syms, b, scope, 0),
                None => ok_c(seq![], ()),
            },
        ),
        SpecStatement::ReturnStatement(exp, span) => tc_return(syms, exp, span, scope),
        SpecStatement::VarDeclarations(ds) => tc_var_decls(syms, ds, scope, 0),
        SpecStatement::ConstDeclaration(d) => unit_c(tc_const_decl(syms, d, scope)),
        SpecStatement::ConstArrayDeclaration(d) => unit_c(tc_const_array(syms, d, scope)),
    }
}

/// The branches of an if clause from the `k`th on: each condition must be an `int`; a
/// branch whose condition fails is skipped.
pub open spec fn tc_branches(
    syms: Seq<SpecSymbol>,
    brs: Seq<(SpecExpression, Seq<SpecStatement>, (int, int))>,
    scope: Option<SpecIdentifier>,
    k: int,
) -> Checked<()>
    decreases brs, brs.len() - k,
    when 0 <= k
{
    if k >= brs.len() {
        ok_c(seq![], ())
    } else {
        let cond = brs[k].0;
        let c = tc_expr(syms, cond, scope);
        let here = match c.res {
            Err(b) => Checked { errs: c.errs, res: if b { Err(true) } else { Ok(()) } },
            Ok(t) => then_all(
                ok_c(
                    c.errs + if t != SpecZType::Int {
                        seq![tc_err(SpecTypecheckErrorKind::ConditionNotInt(t), expr_span(cond))]
                    } else {
                        seq![]
                    },
                    (),
                ),
                tc_stmts(syms, brs[k].1, scope, 0),
            ),
        };
        then_all(here, tc_branches(syms, brs, scope, k + 1))
    }
}

/// Statements from the `k`th on, each checked however the ones before it turned out.
pub open spec fn tc_stmts(
    syms: Seq<SpecSymbol>,
    ss: Seq<SpecStatement>,
    scope: Option<SpecIdentifier>,
    k: int,
) -> Checked<()>
    decreases ss, ss.len() - k,
    when 0 <= k
{
    if k >= ss.len() {
        ok_c(seq![], ())
    } else {
        then_all(ignored(tc_stmt(syms, ss[k], scope)), tc_stmts(syms, ss, scope, k + 1))
    }
}

/// The errors of the parameter types of a function from the `k`th on. A parameter whose type
/// names something that is no type is reported with the function's return type.
pub open spec fn param_type_errors(syms: Seq<SpecSymbol>, f: SpecFunction, k: int) -> Seq<SpecTypecheckError>
    decreases f.params.len() - k,
    when 0 <= k
{
    if k >= f.params.len() {
        seq![]
    } else {
        let p = f.params[k];
        let here = match spec_is_type(syms, p.typ) {
            IsType::UnknownIdentifier => seq![
                tc_err(SpecTypecheckErrorKind::UnknownParameterType(p.typ), p.typ.span),
            ],
            IsType::NotType => seq![tc_err(SpecTypecheckErrorKind::IdentifierIsNotType(f.typ), f.typ.span)],
            IsType::IsType => seq![],
        };
        here + param_type_errors(syms, f, k + 1)
    }
}

pub open spec fn return_type_errors(syms: Seq<SpecSymbol>, f: SpecFunction) -> Seq<SpecTypecheckError> {
    match spec_is_type(syms, f.typ) {
        IsType::UnknownIdentifier => seq![tc_err(SpecTypecheckErrorKind::UnknownReturnType(f.typ), f.typ.span)],
        IsType::NotType => seq![tc_err(SpecTypecheckErrorKind::IdentifierIsNotType(f.typ), f.typ.span)],
        IsType::IsType => seq![],
    }
}

/// A function: its return and parameter types must be types; its statements are checked in
/// the function's scope.
pub open spec fn tc_func(syms: Seq<SpecSymbol>, f: SpecFunction) -> Checked<()> {
    then_all(
        ok_c(return_type_errors(syms, f) + param_type_errors(syms, f, 0), ()),
        tc_stmts(syms, f.body, Some(f.name), 0),
    )
}

/// The members of a class from the `k`th on, in the class's scope.
pub open spec fn tc_members(syms: Seq<SpecSymbol>, c: SpecClass, k: int) -> Checked<()>
    decreases c.members.len() - k,
    when 0 <= k
{
    if k >= c.members.len() {
        ok_c(seq![], ())
    } else {
        then_all(ignored(tc_var_decl(syms, c.members[k], Some(c.name))), tc_members(syms, c, k + 1))
    }
}

/// The scope the body of an instance or prototype is checked in: the name of its class, or
/// the class of its parent prototype; else the error about its parent.
pub open spec fn parent_scope(syms: Seq<SpecSymbol>, i: SpecInstance) -> Result<SpecIdentifier, SpecTypecheckError> {
    let span = (i.name.span.0, i.class.span.1);
    match spec_lookup(syms, i.class.name, None) {
        None => Err(tc_err(SpecTypecheckErrorKind::InstanceHasUnknownParent(i.class), span)),
        Some(k) => match syms[k] {
            SpecSymbol::Class(c) => Ok(c.name),
            SpecSymbol::Proto(p) => Ok(p.class),
            _ => Err(tc_err(SpecTypecheckErrorKind::InstanceParentNotClassOrProto(i.class, sort_of(syms[k])), span)),
        },
    }
}

/// Statements from the `k`th on; the first that fails ends the checking.
pub open spec fn tc_stmts_q(
    syms: Seq<SpecSymbol>,
    ss: Seq<SpecStatement>,
    scope: Option<SpecIdentifier>,
    k: int,
) -> Checked<()>
    decreases ss.len() - k,
    when 0 <= k
{
    if k >= ss.len() {
        ok_c(seq![], ())
    } else {
        then_q(tc_stmt(syms, ss[k], scope), tc_stmts_q(syms, ss, scope, k + 1))
    }
}

/// An instance or prototype: its parent must be a class or prototype, and its statements
/// are checked in the scope of that class.
pub open spec fn tc_inst(syms: Seq<SpecSymbol>, i: SpecInstance) -> Checked<SpecZType> {
    match parent_scope(syms, i) {
        Err(e) => fail_c(seq![e]),
        Ok(scope) => {
            let b = tc_stmts_q(syms, i.body, Some(scope), 0);
            Checked {
                errs: b.errs,
                res: match b.res {
                    Err(x) => Err(x),
                    Ok(_) => Ok(spec_from_ident(i.class)),
                },
            }
        },
    }
}

/// One top level symbol. Functions and classes are checked whatever they conclude.
/// Symbols declared inside a scope are checked with what declares them.
pub open spec fn tc_symbol(syms: Seq<SpecSymbol>, s: SpecSymbol) -> Checked<()> {
    match s {
        SpecSymbol::Func(f) => ignored(tc_func(syms, f)),
        SpecSymbol::Class(c) => ignored(tc_members(syms, c, 0)),
        SpecSymbol::Inst(i) => unit_c(tc_inst(syms, i)),
        SpecSymbol::Proto(p) => unit_c(tc_inst(syms, p)),
        SpecSymbol::Var(d, None) => unit_c(tc_var_decl(syms, d, None)),
        SpecSymbol::Const(d, None) => unit_c(tc_const_decl(syms, d, None)),
        SpecSymbol::ConstArray(d, None) => unit_c(tc_const_array(syms, d, None)),
        _ => ok_c(seq![], ()),
    }
}

/// The top level symbols from the `k`th on. Functions and classes are checked whatever
/// they conclude; a failing instance, prototype, variable or constant ends the checking.
/// Symbols declared inside a scope are checked with what declares them.
pub open spec fn tc_symbols(syms: Seq<SpecSymbol>, k: int) -> Checked<()>
    decreases syms.len() - k,
    when 0 <= k
{
    if k >= syms.len() {
        ok_c(seq![], ())
    } else {
        then_q(tc_symbol(syms, syms[k]), tc_symbols(syms, k + 1))
    }
}

/// An assignment has a type only where its variable and its expression both have that
/// type, and a compound assignment (`+=` and the like) only where that type is not a string,
/// a float or an instance. Where both sides have a type and the two differ, the assignment fails, and the
/// last error it reports is `AssignmentWrongTypes` with the variable's type and span and the
/// expression's type and span, at the span of the assignment.
pub proof fn lemma_assignment_needs_equal_types(
    syms: Seq<SpecSymbol>,
    a: SpecAssignment,
    scope: Option<SpecIdentifier>,
)
    ensures
        ({
            let c = tc_assign(syms, a, scope);
            let l = tc_var(syms, a.var.name, a.var.span, scope);
            let r = tc_expr(syms, a.exp, scope);
            &&& c.res matches Ok(t) ==> a.var.instance is None && l.res == Ok::<SpecZType, bool>(t)
                && r.res == Ok::<SpecZType, bool>(t)
            &&& c.res matches Ok(t) ==> (a.op != AssignmentOperator::Eq ==> t != SpecZType::String
                && t != SpecZType::Float && !(t is Instance))
            &&& (a.var.instance is None && l.res is Ok && r.res is Ok && l.res->Ok_0 != r.res->Ok_0)
                ==> c == fail_c::<SpecZType>(
                l.errs + r.errs + seq![
                    tc_err(
                        SpecTypecheckErrorKind::AssignmentWrongTypes(
                            l.res->Ok_0,
                            a.var.span,
                            r.res->Ok_0,
                            expr_span(a.exp),
                        ),
                        a.span,
                    ),
                ],
            )
        }),
{
}

/// A binary expression has a type only where both operands are `int`s, and it is then an
/// `int`. Where both operands have a type and one is not an `int`, the expression fails, and
/// each such operand is reported as `BinaryExpressionNotInt` at its own span.
pub proof fn lemma_binary_operands_are_ints(
    syms: Seq<SpecSymbol>,
    op: crate::types::BinaryOperator,
    l: SpecExpression,
    r: SpecExpression,
    span: (int, int),
    scope: Option<SpecIdentifier>,
)
    ensures
        ({
            let c = tc_expr(syms, SpecExpression::Binary(op, Box::new(l), Box::new(r), span), scope);
            let lc = tc_expr(syms, l, scope);
            let rc = tc_expr(syms, r, scope);
            &&& c.res matches Ok(t) ==> t == SpecZType::Int && lc.res == Ok::<SpecZType, bool>(SpecZType::Int)
                && rc.res == Ok::<SpecZType, bool>(SpecZType::Int)
            &&& (lc.res is Ok && rc.res is Ok && (lc.res->Ok_0 != SpecZType::Int || rc.res->Ok_0
                != SpecZType::Int)) ==> {
                &&& c.res == Err::<SpecZType, bool>(false)
                &&& lc.res->Ok_0 != SpecZType::Int ==> c.errs.contains(
                    tc_err(SpecTypecheckErrorKind::BinaryExpressionNotInt, expr_span(l)),
                )
                &&& rc.res->Ok_0 != SpecZType::Int ==> c.errs.contains(
                    tc_err(SpecTypecheckErrorKind::BinaryExpressionNotInt, expr_span(r)),
                )
            }
        }),
{
    let lc = tc_expr(syms, l, scope);
    let rc = tc_expr(syms, r, scope);
    if lc.res is Ok && rc.res is Ok {
        let a = lc.errs + rc.errs;
        let el = int_or_error(lc.res->Ok_0, expr_span(l));
        let er = int_or_error(rc.res->Ok_0, expr_span(r));
        if lc.res->Ok_0 != SpecZType::Int {
            assert((a + el + er)[a.len() as int] == el[0]);
        }
        if rc.res->Ok_0 != SpecZType::Int {
            assert((a + el + er)[(a.len() + el.len()) as int] == er[0]);
        }
    }
}

/// A unary expression has a type only where its operand is an `int`, and it is then an
/// `int`. Where the operand has another type, the expression fails, and its last error is
/// `UnaryExpressionNotInt` at the operand's span.
pub proof fn lemma_unary_operand_is_int(
    syms: Seq<SpecSymbol>,
    op: crate::types::UnaryOperator,
    x: SpecExpression,
    span: (int, int),
    scope: Option<SpecIdentifier>,
)
    ensures
        ({
            let c = tc_expr(syms, SpecExpression::Unary(op, Box::new(x), span), scope);
            let xc = tc_expr(syms, x, scope);
            &&& c.res matches Ok(t) ==> t == SpecZType::Int && xc.res == Ok::<SpecZType, bool>(SpecZType::Int)
            &&& (xc.res is Ok && xc.res->Ok_0 != SpecZType::Int) ==> c == fail_c::<SpecZType>(
                xc.errs + seq![tc_err(SpecTypecheckErrorKind::UnaryExpressionNotInt, expr_span(x))],
            )
        }),
{
}

/// Statements whose outcomes are dropped never fail as a whole.
pub proof fn lemma_stmts_never_fail(
    syms: Seq<SpecSymbol>,
    ss: Seq<SpecStatement>,
    scope: Option<SpecIdentifier>,
    k: int,
)
    requires
        0 <= k,
    ensures
        tc_stmts(syms, ss, scope, k).res is Ok || is_stuck(tc_stmts(syms, ss, scope, k)),
    decreases ss.len() - k,
{
    if k < ss.len() {
        lemma_stmts_never_fail(syms, ss, scope, k + 1);
    }
}

/// The members of a class never reach a member access.
pub proof fn lemma_members_never_stuck(syms: Seq<SpecSymbol>, c: SpecClass, k: int)
    requires
        0 <= k,
    ensures
        tc_members(syms, c, k).res is Ok,
    decreases c.members.len() - k,
{
    if k < c.members.len() {
        lemma_members_never_stuck(syms, c, k + 1);
    }
}

/// The branches of an if clause never fail as a whole.
pub proof fn lemma_branches_never_fail(
    syms: Seq<SpecSymbol>,
    brs: Seq<(SpecExpression, Seq<SpecStatement>, (int, int))>,
    scope: Option<SpecIdentifier>,
    k: int,
)
    requires
        0 <= k,
    ensures
        tc_branches(syms, brs, scope, k).res is Ok || is_stuck(tc_branches(syms, brs, scope, k)),
    decreases brs.len() - k,
{
    if k < brs.len() {
        lemma_branches_never_fail(syms, brs, scope, k + 1);
    }
}

} // verus!
