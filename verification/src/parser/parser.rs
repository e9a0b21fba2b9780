//! The token parser and the grammar it implements.
//!
//! Each `g_*` spec function is the grammar rule of the parser method of the same name: it
//! takes the tokens, the current position and the saved progress, and gives the position
//! and progress afterwards and the parsed value or the error. The rules that recurse take
//! a depth budget `fuel`; every call spends one unit. The executable methods state their
//! result for every budget of at least `need(..)`, which always suffices, so the budget
//! never decides a result.
use crate::lexer::{tokens_view, SpecToken, SpecTokenKind, Token, TokenKind, keyword_text};
use crate::parser::errors::{
    ParsePossibility, ParsingError, ParsingErrorKind, SpecParsingError, SpecParsingErrorKind,
    spec_error,
};
use crate::types::{
    opt_ident_view,
    expr_span, exprs_view, stmts_view, branches_view, span_view, var_decls_view, decls_view,
    expr_view, array_size_view, lemma_exprs_view_push, lemma_stmts_view_push, lemma_branches_view_push,
    PrintableByteVec, ArraySizeDeclaration, Assignment, AssignmentOperator, BinaryExpression, BinaryOperator,
    Call, Class, ConstArrayDeclaration, ConstArrayInitializer, ConstDeclaration, Declaration,
    Expression, FloatNode, Function, Identifier, IfBranch, IfStatement, Instance, IntNode,
    Prototype, ReturnStatement, SpecArraySize, SpecAssignment, SpecClass, SpecConstArrayDeclaration,
    SpecConstDeclaration, SpecDeclaration, SpecExpression, SpecFunction, SpecIdentifier,
    SpecInstance, SpecStatement, SpecVarAccess, SpecVarDeclaration, Statement, StringLiteral,
    UnaryExpression, UnaryOperator, VarAccess, VarDeclaration, EvaluationError, apply_binary,
    spec_evaluate,
};
use vstd::prelude::*;

verus! {

// ------------------------------------------------------------------
// Outcomes
// ------------------------------------------------------------------

/// The state after a grammar rule, and what it parsed.
pub struct Out<T> {
    pub cur: int,
    pub prog: int,
    pub res: Result<T, SpecParsingError>,
}

pub open spec fn ok_out<T>(cur: int, prog: int, v: T) -> Out<T> {
    Out { cur, prog, res: Ok(v) }
}

pub open spec fn err_out<T>(cur: int, prog: int, e: SpecParsingError) -> Out<T> {
    Out { cur, prog, res: Err(e) }
}

/// The outcome when the depth budget is spent; with a budget of `need(..)` it never occurs.
pub open spec fn no_fuel<T>(cur: int, prog: int) -> Out<T> {
    err_out(cur, prog, spec_error(SpecParsingErrorKind::InternalParserFailure, 0, false))
}

pub open spec fn unrecoverable(e: SpecParsingError) -> SpecParsingError {
    SpecParsingError { recoverable: false, ..e }
}

/// The depth budget that suffices for a rule of the given rank at position `cur`.
pub open spec fn need(len: int, cur: int, rank: int) -> int {
    (len - cur) * 32 + rank
}

/// Token lists the parser accepts: they end with `EOF`.
pub open spec fn well_formed(t: Seq<SpecToken>) -> bool {
    t.len() > 0 && t.last().kind is EOF
}

pub open spec fn kind_at(t: Seq<SpecToken>, c: int) -> SpecTokenKind {
    t[c].kind
}

// ------------------------------------------------------------------
// Primitive rules
// ------------------------------------------------------------------

pub open spec fn g_consume(t: Seq<SpecToken>, c: int, p: int, k: SpecTokenKind) -> Out<()> {
    if t[c].kind == k {
        ok_out(c + 1, c + 1, ())
    } else {
        err_out(c, p, spec_error(SpecParsingErrorKind::ExpectedToken(k), c, true))
    }
}

/// The name an identifier token stands for; the keywords `var`, `return`, `class`,
/// `prototype`, `instance` and `func` may be used as names too.
pub open spec fn ident_name(k: SpecTokenKind) -> Option<Seq<u8>> {
    match k {
        SpecTokenKind::Identifier(n) => Some(n),
        SpecTokenKind::Var => Some(keyword_text(SpecTokenKind::Var)),
        SpecTokenKind::Return => Some(keyword_text(SpecTokenKind::Return)),
        SpecTokenKind::Class => Some(keyword_text(SpecTokenKind::Class)),
        SpecTokenKind::Prototype => Some(keyword_text(SpecTokenKind::Prototype)),
        SpecTokenKind::Instance => Some(keyword_text(SpecTokenKind::Instance)),
        SpecTokenKind::Func => Some(keyword_text(SpecTokenKind::Func)),
        _ => None,
    }
}

pub open spec fn g_ident(t: Seq<SpecToken>, c: int, p: int) -> Out<SpecIdentifier> {
    match ident_name(t[c].kind) {
        Some(n) => ok_out(c + 1, p, SpecIdentifier { name: n, span: t[c].span }),
        None => err_out(
            c,
            p,
            spec_error(
                SpecParsingErrorKind::ExpectedToken(SpecTokenKind::Identifier(seq![])),
                c,
                true,
            ),
        ),
    }
}

pub open spec fn g_array_size(t: Seq<SpecToken>, c: int, p: int) -> Out<SpecArraySize> {
    if t[c].kind is SquareOpen {
        let inner: Out<SpecArraySize> = match t[c + 1].kind {
            SpecTokenKind::Integer(n) => ok_out(c + 2, p, SpecArraySize::Size(n)),
            _ => {
                let ir = g_ident(t, c + 1, p);
                match ir.res {
                    Ok(id) => ok_out(ir.cur, ir.prog, SpecArraySize::Identifier(id)),
                    Err(e) => err_out(ir.cur, ir.prog, e),
                }
            },
        };
        match inner.res {
            Err(e) => err_out(inner.cur, inner.prog, e),
            Ok(a) => {
                let cr = g_consume(t, inner.cur, inner.prog, SpecTokenKind::SquareClose);
                match cr.res {
                    Err(e) => err_out(cr.cur, cr.prog, e),
                    Ok(_) => ok_out(cr.cur, cr.prog, a),
                }
            },
        }
    } else {
        err_out(
            c,
            p,
            spec_error(SpecParsingErrorKind::ExpectedToken(SpecTokenKind::SquareOpen), c, true),
        )
    }
}

/// `var TYPE NAME` with an optional `[SIZE]`; the span ends with the token after it.
pub open spec fn g_single_var_decl(t: Seq<SpecToken>, c: int, p: int) -> Out<SpecVarDeclaration> {
    let start = t[c].span.0;
    let cr = g_consume(t, c, p, SpecTokenKind::Var);
    match cr.res {
        Err(e) => err_out(cr.cur, cr.prog, e),
        Ok(_) => {
            let tr = g_ident(t, cr.cur, cr.prog);
            match tr.res {
                Err(e) => err_out(tr.cur, tr.prog, e),
                Ok(typ) => {
                    let nr = g_ident(t, tr.cur, tr.prog);
                    match nr.res {
                        Err(e) => err_out(nr.cur, nr.prog, e),
                        Ok(name) => {
                            let ar = g_array_size(t, nr.cur, nr.prog);
                            let (size, c2) = match ar.res {
                                Ok(a) => (Some(a), ar.cur),
                                Err(_) => (None, nr.cur),
                            };
                            ok_out(
                                c2,
                                ar.prog,
                                SpecVarDeclaration {
                                    typ,
                                    name,
                                    array_size: size,
                                    span: (start, t[c2].span.1),
                                },
                            )
                        },
                    }
                },
            }
        },
    }
}

// ------------------------------------------------------------------
// Expressions
// ------------------------------------------------------------------

/// Whether a token is an operator of binary precedence level `level`, from 1 (binds
/// tightest) to 5: `~ & | << >>`, then `* / %`, then `+ -`, then comparisons, then `&& ||`.
pub open spec fn is_binary_op(level: int, k: SpecTokenKind) -> bool {
    if level <= 1 {
        k is BitNot || k is BitAnd || k is BitOr || k is ShiftLeft || k is ShiftRight
    } else if level == 2 {
        k is Multiply || k is Divide || k is Modulo
    } else if level == 3 {
        k is Plus || k is Minus
    } else if level == 4 {
        k is Greater || k is GreaterEquals || k is Lower || k is LowerEquals || k is Equals
            || k is NotEquals
    } else {
        k is And || k is Or
    }
}

/// The operator a token stands for in a binary expression; `~` stands for none.
pub open spec fn binary_op_of(k: SpecTokenKind) -> Option<BinaryOperator> {
    match k {
        SpecTokenKind::Plus => Some(BinaryOperator::Plus),
        SpecTokenKind::Minus => Some(BinaryOperator::Minus),
        SpecTokenKind::Multiply => Some(BinaryOperator::Multiply),
        SpecTokenKind::Divide => Some(BinaryOperator::Divide),
        SpecTokenKind::Modulo => Some(BinaryOperator::Modulo),
        SpecTokenKind::ShiftLeft => Some(BinaryOperator::ShiftLeft),
        SpecTokenKind::ShiftRight => Some(BinaryOperator::ShiftRight),
        SpecTokenKind::BitAnd => Some(BinaryOperator::BitAnd),
        SpecTokenKind::BitOr => Some(BinaryOperator::BitOr),
        SpecTokenKind::Lower => Some(BinaryOperator::Lower),
        SpecTokenKind::LowerEquals => Some(BinaryOperator::LowerEquals),
        SpecTokenKind::Greater => Some(BinaryOperator::Greater),
        SpecTokenKind::GreaterEquals => Some(BinaryOperator::GreaterEquals),
        SpecTokenKind::Equals => Some(BinaryOperator::Equals),
        SpecTokenKind::NotEquals => Some(BinaryOperator::NotEquals),
        SpecTokenKind::And => Some(BinaryOperator::And),
        SpecTokenKind::Or => Some(BinaryOperator::Or),
        _ => None,
    }
}

/// `v` as a 64-bit integer, or `Overflow` where it does not fit.
pub open spec fn in_64_bits(v: int) -> Result<i64, EvaluationError> {
    if i64::MIN <= v <= i64::MAX {
        Ok(v as i64)
    } else {
        Err(EvaluationError::Overflow)
    }
}

/// The quotient of `a` by `b`, rounded toward zero.
pub open spec fn quotient_toward_zero(a: int, b: int) -> int {
    let q = (if a < 0 { -a } else { a }) / (if b < 0 { -b } else { b });
    if (a < 0) == (b < 0) {
        q
    } else {
        -q
    }
}

/// What the operator written as token `k` computes from two 64-bit integers, for the tokens
/// that are binary operators: the arithmetic result where it fits in 64 bits; a quotient
/// rounded toward zero and the remainder that goes with it; a shift by 0 to 63 places; the
/// bits of both; and 1 or 0 for the comparisons and the logical operators.
pub open spec fn operator_token_value(k: SpecTokenKind, a: i64, b: i64) -> Option<
    Result<i64, EvaluationError>,
> {
    let q = quotient_toward_zero(a as int, b as int);
    match k {
        SpecTokenKind::Plus => Some(in_64_bits(a + b)),
        SpecTokenKind::Minus => Some(in_64_bits(a - b)),
        SpecTokenKind::Multiply => Some(in_64_bits(a * b)),
        SpecTokenKind::Divide => Some(
            if b == 0 {
                Err(EvaluationError::DivisionByZero)
            } else {
                in_64_bits(q)
            },
        ),
        SpecTokenKind::Modulo => Some(
            if b == 0 {
                Err(EvaluationError::DivisionByZero)
            } else if in_64_bits(q) is Err {
                Err(EvaluationError::Overflow)
            } else {
                Ok((a - b * q) as i64)
            },
        ),
        SpecTokenKind::ShiftLeft => Some(
            if 0 <= b < 64 {
                Ok(a << (b as u32))
            } else {
                Err(EvaluationError::Overflow)
            },
        ),
        SpecTokenKind::ShiftRight => Some(
            if 0 <= b < 64 {
                Ok(a >> (b as u32))
            } else {
                Err(EvaluationError::Overflow)
            },
        ),
        SpecTokenKind::BitAnd => Some(Ok(a & b)),
        SpecTokenKind::BitOr => Some(Ok(a | b)),
        SpecTokenKind::Lower => Some(Ok(if a < b { 1i64 } else { 0i64 })),
        SpecTokenKind::LowerEquals => Some(Ok(if a <= b { 1i64 } else { 0i64 })),
        SpecTokenKind::Greater => Some(Ok(if a > b { 1i64 } else { 0i64 })),
        SpecTokenKind::GreaterEquals => Some(Ok(if a >= b { 1i64 } else { 0i64 })),
        SpecTokenKind::Equals => Some(Ok(if a == b { 1i64 } else { 0i64 })),
        SpecTokenKind::NotEquals => Some(Ok(if a != b { 1i64 } else { 0i64 })),
        SpecTokenKind::And => Some(Ok(if a != 0 && b != 0 { 1i64 } else { 0i64 })),
        SpecTokenKind::Or => Some(Ok(if a != 0 || b != 0 { 1i64 } else { 0i64 })),
        _ => None,
    }
}

proof fn lemma_quotient_toward_zero(a: i64, b: i64)
    requires
        b != 0,
    ensures
        a.checked_div(b) matches Some(v) ==> in_64_bits(quotient_toward_zero(a as int, b as int))
            == Ok::<i64, EvaluationError>(v),
        a.checked_div(b) is None ==> in_64_bits(quotient_toward_zero(a as int, b as int)) is Err,
        a.checked_rem(b) matches Some(v) ==> in_64_bits(quotient_toward_zero(a as int, b as int)) is Ok
            && v == (a - b * quotient_toward_zero(a as int, b as int)) as i64,
        a.checked_rem(b) is None ==> in_64_bits(quotient_toward_zero(a as int, b as int)) is Err,
{
    let x = a as int;
    let d = b as int;
    let ax = if x < 0 { -x } else { x };
    let ad = if d < 0 { -d } else { d };
    let q = quotient_toward_zero(x, d);
    let t = ax / ad;
    let m = ax % ad;
    assert(x * -1 == -x);
    assert(d * -1 == -d);
    vstd::arithmetic::div_mod::lemma_fundamental_div_mod(ax, ad);
    vstd::arithmetic::div_mod::lemma_mod_pos_bound(ax, ad);
    assert(0 <= t <= ax && (t == ax ==> ax == 0 || ad == 1) && (ad == 1 ==> t == ax) && x - d * q == (if x < 0 { -m } else { m }))
        by (nonlinear_arith)
        requires
            ax >= 0,
            ad >= 1,
            ax == ad * t + m,
            0 <= m < ad,
            ax == (if x < 0 { -x } else { x }),
            ad == (if d < 0 { -d } else { d }),
            q == (if (x < 0) == (d < 0) { t } else { -t }),
    ;
}

/// Each token that is a binary operator gives the operator that computes what the token
/// means, and no other token gives one: so `x op y` with integer operands evaluates to what
/// `op` means of them.
pub proof fn lemma_operator_tokens_mean_their_operation(
    k: SpecTokenKind,
    a: i64,
    b: i64,
    sa: (int, int),
    sb: (int, int),
    s: (int, int),
)
    ensures
        binary_op_of(k) is Some <==> operator_token_value(k, a, b) is Some,
        binary_op_of(k) matches Some(op) ==> apply_binary(op, a, b) == operator_token_value(k, a, b)->0,
        binary_op_of(k) matches Some(op) ==> spec_evaluate(
            SpecExpression::Binary(
                op,
                Box::new(SpecExpression::Int(a, sa)),
                Box::new(SpecExpression::Int(b, sb)),
                s,
            ),
        ) == operator_token_value(k, a, b)->0,
{
    if b != 0 {
        lemma_quotient_toward_zero(a, b);
    }
    assert(spec_evaluate(SpecExpression::Int(a, sa)) == Ok::<i64, EvaluationError>(a));
    assert(spec_evaluate(SpecExpression::Int(b, sb)) == Ok::<i64, EvaluationError>(b));
}

pub open spec fn is_unary_op(k: SpecTokenKind) -> bool {
    k is Not || k is BitNot || k is Plus || k is Minus
}

pub open spec fn unary_op_of(k: SpecTokenKind) -> UnaryOperator {
    match k {
        SpecTokenKind::Plus => UnaryOperator::Plus,
        SpecTokenKind::Minus => UnaryOperator::Minus,
        SpecTokenKind::Not => UnaryOperator::Not,
        _ => UnaryOperator::Flip,
    }
}

pub open spec fn var_expr(va: SpecVarAccess) -> SpecExpression {
    SpecExpression::Var(
        va.name,
        va.instance,
        match va.index {
            Some(e) => Some(Box::new(e)),
            None => None,
        },
        va.span,
    )
}

/// An expression: a string literal, or a binary expression of the loosest level.
pub open spec fn g_expression(t: Seq<SpecToken>, c: int, p: int, fuel: nat) -> Out<SpecExpression>
    decreases fuel,
{
    if fuel == 0 {
        no_fuel(c, p)
    } else {
        match t[c].kind {
            SpecTokenKind::StringLit(s) => ok_out(c + 1, p, SpecExpression::String(s, t[c].span)),
            _ => g_binary(5, t, c, p, (fuel - 1) as nat),
        }
    }
}

/// A left associative chain of operands joined by the operators of `level`.
pub open spec fn g_binary(level: int, t: Seq<SpecToken>, c: int, p: int, fuel: nat) -> Out<
    SpecExpression,
>
    decreases fuel, 1int,
{
    if fuel == 0 {
        no_fuel(c, p)
    } else {
        let first = if level <= 1 {
            g_unary(t, c, p, (fuel - 1) as nat)
        } else {
            g_binary(level - 1, t, c, p, (fuel - 1) as nat)
        };
        match first.res {
            Err(e) => err_out(first.cur, first.prog, e),
            Ok(e) => g_binary_loop(level, t, first.cur, first.prog, e, (fuel - 1) as nat),
        }
    }
}

pub open spec fn g_binary_loop(
    level: int,
    t: Seq<SpecToken>,
    c: int,
    p: int,
    left: SpecExpression,
    fuel: nat,
) -> Out<SpecExpression>
    decreases fuel, 1int,
{
    if fuel == 0 {
        no_fuel(c, p)
    } else if c < t.len() && is_binary_op(level, t[c].kind) {
        let right = if level <= 1 {
            g_unary(t, c + 1, c + 1, (fuel - 1) as nat)
        } else {
            g_binary(level - 1, t, c + 1, c + 1, (fuel - 1) as nat)
        };
        match right.res {
            Err(e) => err_out(right.cur, right.prog, unrecoverable(e)),
            Ok(r) => match binary_op_of(t[c].kind) {
                None => err_out(
                    right.cur,
                    right.prog,
                    spec_error(SpecParsingErrorKind::InternalParserFailure, 0, false),
                ),
                Some(op) => g_binary_loop(
                    level,
                    t,
                    right.cur,
                    right.prog,
                    SpecExpression::Binary(
                        op,
                        Box::new(left),
                        Box::new(r),
                        (expr_span(left).0, expr_span(r).1),
                    ),
                    (fuel - 1) as nat,
                ),
            },
        }
    } else {
        ok_out(c, p, left)
    }
}

/// Prefix operators `! ~ + -` applied to a value.
pub open spec fn g_unary(t: Seq<SpecToken>, c: int, p: int, fuel: nat) -> Out<SpecExpression>
    decreases fuel, 1int,
{
    if fuel == 0 {
        no_fuel(c, p)
    } else if c < t.len() && is_unary_op(t[c].kind) {
        let r = g_unary(t, c + 1, p, (fuel - 1) as nat);
        match r.res {
            Err(e) => err_out(r.cur, r.prog, e),
            Ok(e) => ok_out(
                r.cur,
                r.prog,
                SpecExpression::Unary(
                    unary_op_of(t[c].kind),
                    Box::new(e),
                    (t[c].span.0, expr_span(e).1),
                ),
            ),
        }
    } else {
        g_value(t, c, p, (fuel - 1) as nat)
    }
}

/// A call, else a variable access, else a number or a parenthesized expression. An
/// unrecoverable error of an alternative ends the rule.
pub open spec fn g_value(t: Seq<SpecToken>, c: int, p: int, fuel: nat) -> Out<SpecExpression>
    decreases fuel, 1int,
{
    if fuel == 0 {
        no_fuel(c, p)
    } else {
        let cr = g_call(t, c, p, (fuel - 1) as nat);
        match cr.res {
            Ok(e) => ok_out(cr.cur, cr.prog, e),
            Err(e) => if !e.recoverable {
                err_out(cr.cur, cr.prog, e)
            } else {
                let vr = g_var_access(t, c, cr.prog, (fuel - 1) as nat);
                match vr.res {
                    Ok(va) => ok_out(vr.cur, vr.prog, var_expr(va)),
                    Err(e2) => if !e2.recoverable {
                        err_out(vr.cur, vr.prog, e2)
                    } else {
                        match t[c].kind {
                            SpecTokenKind::Integer(i) => ok_out(
                                c + 1,
                                vr.prog,
                                SpecExpression::Int(i, t[c].span),
                            ),
                            SpecTokenKind::Decimal(d) => ok_out(
                                c + 1,
                                vr.prog,
                                SpecExpression::Float(d, t[c].span),
                            ),
                            SpecTokenKind::ParenOpen => g_parentheses(
                                t,
                                c,
                                vr.prog,
                                (fuel - 1) as nat,
                            ),
                            _ => err_out(
                                c,
                                vr.prog,
                                spec_error(
                                    SpecParsingErrorKind::ExpectedOneOf(
                                        seq![
                                            ParsePossibility::Call,
                                            ParsePossibility::VariableAccess,
                                            ParsePossibility::Integer,
                                            ParsePossibility::Decimal,
                                        ],
                                    ),
                                    c,
                                    true,
                                ),
                            ),
                        }
                    },
                }
            },
        }
    }
}

/// `NAME ( ARGS )`.
pub open spec fn g_call(t: Seq<SpecToken>, c: int, p: int, fuel: nat) -> Out<SpecExpression>
    decreases fuel, 1int,
{
    if fuel == 0 {
        no_fuel(c, p)
    } else {
        let ir = g_ident(t, c, p);
        match ir.res {
            Err(e) => err_out(ir.cur, ir.prog, e),
            Ok(id) => {
                let cr = g_consume(t, ir.cur, ir.prog, SpecTokenKind::ParenOpen);
                match cr.res {
                    Err(e) => err_out(cr.cur, cr.prog, e),
                    Ok(_) => {
                        let lr = g_expression_list(t, cr.cur, cr.prog, (fuel - 1) as nat);
                        match lr.res {
                            Err(e) => err_out(lr.cur, lr.prog, e),
                            Ok(params) => {
                                let cr2 = g_consume(t, lr.cur, lr.prog, SpecTokenKind::ParenClose);
                                match cr2.res {
                                    Err(e) => err_out(cr2.cur, cr2.prog, e),
                                    Ok(_) => ok_out(
                                        cr2.cur,
                                        cr2.prog,
                                        SpecExpression::Call(
                                            id,
                                            params,
                                            (id.span.0, t[cr2.cur - 1].span.1),
                                        ),
                                    ),
                                }
                            },
                        }
                    },
                }
            },
        }
    }
}

/// Comma separated expressions up to a `)`.
pub open spec fn g_expression_list(t: Seq<SpecToken>, c: int, p: int, fuel: nat) -> Out<
    Seq<SpecExpression>,
>
    decreases fuel, 1int,
{
    if fuel == 0 {
        no_fuel(c, p)
    } else {
        g_expression_list_loop(t, c, p, seq![], (fuel - 1) as nat)
    }
}

pub open spec fn g_expression_list_loop(
    t: Seq<SpecToken>,
    c: int,
    p: int,
    acc: Seq<SpecExpression>,
    fuel: nat,
) -> Out<Seq<SpecExpression>>
    decreases fuel, 1int,
{
    if fuel == 0 {
        no_fuel(c, p)
    } else if t[c].kind is ParenClose {
        ok_out(c, p, acc)
    } else {
        let er = g_expression(t, c, p, (fuel - 1) as nat);
        match er.res {
            Err(e) => err_out(er.cur, er.prog, e),
            Ok(e) => if er.cur < t.len() && t[er.cur].kind is Comma {
                g_expression_list_loop(t, er.cur + 1, er.prog, acc.push(e), (fuel - 1) as nat)
            } else {
                ok_out(er.cur, er.prog, acc.push(e))
            },
        }
    }
}

/// `( EXPRESSION )`.
pub open spec fn g_parentheses(t: Seq<SpecToken>, c: int, p: int, fuel: nat) -> Out<
    SpecExpression,
>
    decreases fuel, 1int,
{
    if fuel == 0 {
        no_fuel(c, p)
    } else {
        let cr = g_consume(t, c, p, SpecTokenKind::ParenOpen);
        match cr.res {
            Err(e) => err_out(cr.cur, cr.prog, e),
            Ok(_) => {
                let er = g_expression(t, cr.cur, cr.prog, (fuel - 1) as nat);
                match er.res {
                    Err(_) => err_out(
                        er.cur,
                        er.prog,
                        spec_error(
                            SpecParsingErrorKind::Expected(ParsePossibility::Expression),
                            er.cur + 1,
                            false,
                        ),
                    ),
                    Ok(e) => {
                        let cr2 = g_consume(t, er.cur, er.prog, SpecTokenKind::ParenClose);
                        match cr2.res {
                            Err(e2) => err_out(cr2.cur, cr2.prog, e2),
                            Ok(_) => ok_out(cr2.cur, cr2.prog, e),
                        }
                    },
                }
            },
        }
    }
}

/// `NAME`, `INSTANCE.NAME`, each optionally followed by `[INDEX]`.
pub open spec fn g_var_access(t: Seq<SpecToken>, c: int, p: int, fuel: nat) -> Out<SpecVarAccess>
    decreases fuel, 1int,
{
    if fuel == 0 {
        no_fuel(c, p)
    } else {
        let ir = g_ident(t, c, p);
        match ir.res {
            Err(e) => err_out(ir.cur, ir.prog, e),
            Ok(id) => {
                let period = ir.cur < t.len() && t[ir.cur].kind is Period;
                let ir2 = g_ident(t, ir.cur + 1, ir.prog);
                if period && ir2.res is Err {
                    match ir2.res {
                        Err(e) => err_out(ir2.cur, ir2.prog, unrecoverable(e)),
                        Ok(_) => no_fuel(c, p),
                    }
                } else {
                    let (name, instance, c1, p1) = if period {
                        match ir2.res {
                            Ok(id2) => (id2, Some(id), ir2.cur, ir2.prog),
                            Err(_) => (id, None, ir.cur, ir.prog),
                        }
                    } else {
                        (id, None, ir.cur, ir.prog)
                    };
                    if c1 < t.len() && t[c1].kind is SquareOpen {
                        let er = g_expression(t, c1 + 1, p1, (fuel - 1) as nat);
                        match er.res {
                            Err(_) => err_out(
                                er.cur,
                                er.prog,
                                spec_error(
                                    SpecParsingErrorKind::Expected(ParsePossibility::Expression),
                                    er.cur,
                                    false,
                                ),
                            ),
                            Ok(ix) => {
                                let cr = g_consume(t, er.cur, er.prog, SpecTokenKind::SquareClose);
                                match cr.res {
                                    Err(e) => err_out(cr.cur, cr.prog, e),
                                    Ok(_) => ok_out(
                                        cr.cur,
                                        cr.prog,
                                        SpecVarAccess {
                                            name,
                                            instance,
                                            index: Some(ix),
                                            span: (id.span.0, t[cr.cur - 1].span.1),
                                        },
                                    ),
                                }
                            },
                        }
                    } else {
                        ok_out(
                            c1,
                            p1,
                            SpecVarAccess {
                                name,
                                instance,
                                index: None,
                                span: (id.span.0, name.span.1),
                            },
                        )
                    }
                }
            },
        }
    }
}


// ------------------------------------------------------------------
// Statements
// ------------------------------------------------------------------

/// A statement followed by `;`.
pub open spec fn g_statement(t: Seq<SpecToken>, c: int, p: int, fuel: nat) -> Out<SpecStatement>
    decreases fuel, 1int,
{
    if fuel == 0 {
        no_fuel(c, p)
    } else {
        let inner = g_statement_body(t, c, p, (fuel - 1) as nat);
        match inner.res {
            Err(e) => err_out(inner.cur, inner.prog, e),
            Ok(s) => {
                let sr = g_consume(t, inner.cur, inner.prog, SpecTokenKind::Semicolon);
                match sr.res {
                    Err(_) => err_out(
                        sr.cur,
                        sr.prog,
                        spec_error(SpecParsingErrorKind::StatementWithoutSemicolon, sr.cur, false),
                    ),
                    Ok(_) => ok_out(sr.cur, sr.prog, s),
                }
            },
        }
    }
}

/// An if clause, variable or constant declaration, return, assignment or expression.
pub open spec fn g_statement_body(t: Seq<SpecToken>, c: int, p: int, fuel: nat) -> Out<
    SpecStatement,
>
    decreases fuel, 1int,
{
    if fuel == 0 {
        no_fuel(c, p)
    } else if t[c].kind is If {
        g_if_statement(t, c, p, (fuel - 1) as nat)
    } else if t[c].kind is Var {
        let r = g_var_decl(t, c, p, (fuel - 1) as nat);
        match r.res {
            Err(e) => err_out(r.cur, r.prog, e),
            Ok(v) => ok_out(r.cur, r.prog, SpecStatement::VarDeclarations(v)),
        }
    } else if t[c].kind is Const {
        g_const_decl_stmt(t, c, p, (fuel - 1) as nat)
    } else if t[c].kind is Return {
        g_return_statement(t, c, p, (fuel - 1) as nat)
    } else {
        g_assign_or_exp(t, c, p, (fuel - 1) as nat)
    }
}

/// An assignment, else an expression; an unrecoverable error of the first ends the rule.
pub open spec fn g_assign_or_exp(t: Seq<SpecToken>, c: int, p: int, fuel: nat) -> Out<SpecStatement>
    decreases fuel, 1int,
{
    if fuel == 0 {
        no_fuel(c, p)
    } else {
        let ar = g_assignment(t, c, p, (fuel - 1) as nat);
        match ar.res {
            Ok(a) => ok_out(ar.cur, ar.prog, SpecStatement::Ass(a)),
            Err(e) => if !e.recoverable {
                err_out(ar.cur, ar.prog, e)
            } else {
                let er = g_expression(t, c, ar.prog, (fuel - 1) as nat);
                match er.res {
                    Ok(x) => ok_out(er.cur, er.prog, SpecStatement::Exp(x)),
                    Err(e2) => if !e2.recoverable {
                        err_out(er.cur, er.prog, e2)
                    } else {
                        err_out(
                            c,
                            er.prog,
                            spec_error(
                                SpecParsingErrorKind::ExpectedOneOf(
                                    seq![
                                        ParsePossibility::IfClause,
                                        ParsePossibility::Assignment,
                                        ParsePossibility::Expression,
                                        ParsePossibility::Declaration,
                                    ],
                                ),
                                c,
                                false,
                            ),
                        )
                    },
                }
            },
        }
    }
}

/// `{ STATEMENT* }`.
pub open spec fn g_block(t: Seq<SpecToken>, c: int, p: int, fuel: nat) -> Out<Seq<SpecStatement>>
    decreases fuel, 1int,
{
    if fuel == 0 {
        no_fuel(c, p)
    } else {
        let cr = g_consume(t, c, p, SpecTokenKind::BracketOpen);
        match cr.res {
            Err(e) => err_out(cr.cur, cr.prog, e),
            Ok(_) => g_block_loop(t, cr.cur, cr.cur, seq![], (fuel - 1) as nat),
        }
    }
}

pub open spec fn g_block_loop(
    t: Seq<SpecToken>,
    c: int,
    p: int,
    acc: Seq<SpecStatement>,
    fuel: nat,
) -> Out<Seq<SpecStatement>>
    decreases fuel, 1int,
{
    if fuel == 0 {
        no_fuel(c, p)
    } else if c < t.len() && t[c].kind is BracketClose {
        ok_out(c + 1, p, acc)
    } else {
        let sr = g_statement(t, c, p, (fuel - 1) as nat);
        match sr.res {
            Err(e) => err_out(sr.cur, sr.prog, e),
            Ok(s) => g_block_loop(t, sr.cur, sr.cur, acc.push(s), (fuel - 1) as nat),
        }
    }
}

pub type SpecBranch = (SpecExpression, Seq<SpecStatement>, (int, int));

/// `if COND BLOCK`, then `else if COND BLOCK` any number of times, then optionally
/// `else BLOCK`. A later branch's span ends at the start of its closing bracket.
pub open spec fn g_if_statement(t: Seq<SpecToken>, c: int, p: int, fuel: nat) -> Out<
    SpecStatement,
>
    decreases fuel, 1int,
{
    if fuel == 0 {
        no_fuel(c, p)
    } else {
        let cr = g_consume(t, c, p, SpecTokenKind::If);
        match cr.res {
            Err(e) => err_out(cr.cur, cr.prog, e),
            Ok(_) => {
                let begin = t[cr.cur - 1].span.0;
                let er = g_expression(t, cr.cur, cr.prog, (fuel - 1) as nat);
                match er.res {
                    Err(e) => err_out(er.cur, er.prog, e),
                    Ok(cond) => {
                        let br = g_block(t, er.cur, er.prog, (fuel - 1) as nat);
                        match br.res {
                            Err(e) => err_out(br.cur, br.prog, e),
                            Ok(body) => g_else_loop(
                                t,
                                br.cur,
                                br.prog,
                                seq![(cond, body, (begin, t[br.cur - 1].span.1))],
                                begin,
                                (fuel - 1) as nat,
                            ),
                        }
                    },
                }
            },
        }
    }
}

pub open spec fn finish_if(
    t: Seq<SpecToken>,
    c: int,
    p: int,
    branches: Seq<SpecBranch>,
    else_branch: Option<Seq<SpecStatement>>,
    begin: int,
) -> Out<SpecStatement> {
    ok_out(c, p, SpecStatement::If(branches, else_branch, (begin, t[c - 1].span.1)))
}

pub open spec fn g_else_loop(
    t: Seq<SpecToken>,
    c: int,
    p: int,
    branches: Seq<SpecBranch>,
    begin: int,
    fuel: nat,
) -> Out<SpecStatement>
    decreases fuel, 1int,
{
    if fuel == 0 {
        no_fuel(c, p)
    } else if c < t.len() && t[c].kind is Else {
        let else_begin = t[c].span.0;
        if c + 1 < t.len() && t[c + 1].kind is If {
            let er = g_expression(t, c + 2, p, (fuel - 1) as nat);
            match er.res {
                Err(e) => err_out(er.cur, er.prog, e),
                Ok(cond) => {
                    let br = g_block(t, er.cur, er.prog, (fuel - 1) as nat);
                    match br.res {
                        Err(e) => err_out(br.cur, br.prog, e),
                        Ok(body) => g_else_loop(
                            t,
                            br.cur,
                            br.prog,
                            branches.push((cond, body, (else_begin, t[br.cur - 1].span.0))),
                            begin,
                            (fuel - 1) as nat,
                        ),
                    }
                },
            }
        } else {
            let br = g_block(t, c + 1, p, (fuel - 1) as nat);
            match br.res {
                Err(e) => err_out(br.cur, br.prog, e),
                Ok(body) => finish_if(t, br.cur, br.prog, branches, Some(body), begin),
            }
        }
    } else {
        finish_if(t, c, p, branches, None, begin)
    }
}

pub open spec fn assign_ops() -> Seq<SpecTokenKind> {
    seq![
        SpecTokenKind::Assign,
        SpecTokenKind::PlusAssign,
        SpecTokenKind::MinusAssign,
        SpecTokenKind::DivideAssign,
        SpecTokenKind::MultiplyAssign,
    ]
}

pub open spec fn is_assign_op(k: SpecTokenKind) -> bool {
    k is Assign || k is PlusAssign || k is MinusAssign || k is DivideAssign || k is MultiplyAssign
}

pub open spec fn assign_op_of(k: SpecTokenKind) -> AssignmentOperator {
    match k {
        SpecTokenKind::PlusAssign => AssignmentOperator::PlusEq,
        SpecTokenKind::MinusAssign => AssignmentOperator::MinusEq,
        SpecTokenKind::DivideAssign => AssignmentOperator::DivideEq,
        SpecTokenKind::MultiplyAssign => AssignmentOperator::MultiplyEq,
        _ => AssignmentOperator::Eq,
    }
}

/// `VARIABLE OP EXPRESSION` with OP one of `= += -= /= *=`.
pub open spec fn g_assignment(t: Seq<SpecToken>, c: int, p: int, fuel: nat) -> Out<SpecAssignment>
    decreases fuel, 1int,
{
    if fuel == 0 {
        no_fuel(c, p)
    } else {
        let vr = g_var_access(t, c, p, (fuel - 1) as nat);
        match vr.res {
            Err(e) => err_out(vr.cur, vr.prog, e),
            Ok(va) => if vr.cur < t.len() && is_assign_op(t[vr.cur].kind) {
                let er = g_expression(t, vr.cur + 1, vr.prog, (fuel - 1) as nat);
                match er.res {
                    Err(e) => err_out(er.cur, er.prog, e),
                    Ok(x) => ok_out(
                        er.cur,
                        er.prog,
                        SpecAssignment {
                            var: va,
                            op: assign_op_of(t[vr.cur].kind),
                            exp: x,
                            span: (va.span.0, expr_span(x).1),
                        },
                    ),
                }
            } else {
                err_out(
                    vr.cur,
                    vr.prog,
                    spec_error(
                        SpecParsingErrorKind::ExpectedOneOfToken(assign_ops()),
                        vr.cur,
                        true,
                    ),
                )
            },
        }
    }
}

/// `return` with an optional expression; the span ends with the `;` after it.
pub open spec fn g_return_statement(t: Seq<SpecToken>, c: int, p: int, fuel: nat) -> Out<
    SpecStatement,
>
    decreases fuel, 1int,
{
    if fuel == 0 {
        no_fuel(c, p)
    } else {
        let start = t[c].span.0;
        let cr = g_consume(t, c, p, SpecTokenKind::Return);
        match cr.res {
            Err(e) => err_out(cr.cur, cr.prog, e),
            Ok(_) => if !(t[cr.cur].kind is Semicolon) {
                let er = g_expression(t, cr.cur, cr.prog, (fuel - 1) as nat);
                match er.res {
                    Err(e) => err_out(er.cur, er.prog, e),
                    Ok(x) => ok_out(
                        er.cur,
                        er.prog,
                        SpecStatement::ReturnStatement(Some(x), (start, t[er.cur].span.1)),
                    ),
                }
            } else {
                ok_out(
                    cr.cur,
                    cr.prog,
                    SpecStatement::ReturnStatement(None, (start, t[cr.cur].span.1)),
                )
            },
        }
    }
}

/// Variable declarations starting with `var`, while they are joined by commas.
pub open spec fn g_decl_statement(t: Seq<SpecToken>, c: int, p: int, fuel: nat) -> Out<
    Seq<SpecVarDeclaration>,
>
    decreases fuel, 1int,
{
    if fuel == 0 {
        no_fuel(c, p)
    } else {
        g_decl_statement_loop(t, c, p, seq![], (fuel - 1) as nat)
    }
}

pub open spec fn g_decl_statement_loop(
    t: Seq<SpecToken>,
    c: int,
    p: int,
    acc: Seq<SpecVarDeclaration>,
    fuel: nat,
) -> Out<Seq<SpecVarDeclaration>>
    decreases fuel, 1int,
{
    if fuel == 0 {
        no_fuel(c, p)
    } else if t[c].kind is Var {
        let vr = g_var_decl(t, c, p, (fuel - 1) as nat);
        match vr.res {
            Err(e) => err_out(vr.cur, vr.prog, e),
            Ok(ds) => if vr.cur < t.len() && t[vr.cur].kind is Comma {
                g_decl_statement_loop(t, vr.cur + 1, vr.prog, acc + ds, (fuel - 1) as nat)
            } else {
                ok_out(vr.cur, vr.prog, acc + ds)
            },
        }
    } else {
        ok_out(c, p, acc)
    }
}

// ------------------------------------------------------------------
// Declarations
// ------------------------------------------------------------------

/// `var TYPE NAME`, then after each comma either another `var` declaration or a further
/// `NAME` (with optional `[SIZE]`) of the first declaration's type.
pub open spec fn g_var_decl(t: Seq<SpecToken>, c: int, p: int, fuel: nat) -> Out<
    Seq<SpecVarDeclaration>,
>
    decreases fuel, 1int,
{
    if fuel == 0 {
        no_fuel(c, p)
    } else {
        let sr = g_single_var_decl(t, c, p);
        match sr.res {
            Err(e) => err_out(sr.cur, sr.prog, e),
            Ok(d) => g_var_decl_loop(t, sr.cur, sr.cur, seq![d], d.typ, (fuel - 1) as nat),
        }
    }
}

pub open spec fn g_var_decl_loop(
    t: Seq<SpecToken>,
    c: int,
    p: int,
    acc: Seq<SpecVarDeclaration>,
    typ: SpecIdentifier,
    fuel: nat,
) -> Out<Seq<SpecVarDeclaration>>
    decreases fuel, 1int,
{
    if fuel == 0 {
        no_fuel(c, p)
    } else if c < t.len() && t[c].kind is Comma {
        if t[c + 1].kind is Var {
            let sr = g_single_var_decl(t, c + 1, p);
            match sr.res {
                Err(e) => err_out(sr.cur, sr.prog, e),
                Ok(d) => g_var_decl_loop(t, sr.cur, sr.cur, acc.push(d), typ, (fuel - 1) as nat),
            }
        } else {
            let start = t[c + 1].span.0;
            let ir = g_ident(t, c + 1, p);
            match ir.res {
                Err(e) => err_out(ir.cur, ir.prog, e),
                Ok(name) => {
                    let ar = g_array_size(t, ir.cur, ir.prog);
                    let (size, c2) = match ar.res {
                        Ok(a) => (Some(a), ar.cur),
                        Err(_) => (None, ir.cur),
                    };
                    let d = SpecVarDeclaration {
                        typ,
                        name,
                        array_size: size,
                        span: (start, t[c2].span.1),
                    };
                    g_var_decl_loop(t, c2, c2, acc.push(d), typ, (fuel - 1) as nat)
                },
            }
        }
    } else {
        ok_out(c, p, acc)
    }
}

/// `const TYPE NAME = EXPRESSION` or `const TYPE NAME [SIZE] = { EXPRESSIONS }`.
pub open spec fn g_const_decl_stmt(t: Seq<SpecToken>, c: int, p: int, fuel: nat) -> Out<
    SpecStatement,
>
    decreases fuel, 1int,
{
    if fuel == 0 {
        no_fuel(c, p)
    } else {
        let begin = t[c].span.0;
        let cr = g_consume(t, c, p, SpecTokenKind::Const);
        match cr.res {
            Err(e) => err_out(cr.cur, cr.prog, e),
            Ok(_) => {
                let tr = g_ident(t, cr.cur, cr.prog);
                match tr.res {
                    Err(e) => err_out(tr.cur, tr.prog, e),
                    Ok(typ) => {
                        let nr = g_ident(t, tr.cur, tr.prog);
                        match nr.res {
                            Err(e) => err_out(nr.cur, nr.prog, e),
                            Ok(name) => g_const_rest(t, nr.cur, nr.prog, begin, typ, name, (fuel - 1) as nat),
                        }
                    },
                }
            },
        }
    }
}

pub open spec fn g_const_rest(
    t: Seq<SpecToken>,
    c: int,
    p: int,
    begin: int,
    typ: SpecIdentifier,
    name: SpecIdentifier,
    fuel: nat,
) -> Out<SpecStatement>
    decreases fuel, 1int,
{
    if fuel == 0 {
        no_fuel(c, p)
    } else if c < t.len() && t[c].kind is Assign {
        let er = g_expression(t, c + 1, p, (fuel - 1) as nat);
        match er.res {
            Err(e) => err_out(er.cur, er.prog, e),
            Ok(x) => ok_out(
                er.cur,
                er.prog,
                SpecStatement::ConstDeclaration(
                    SpecConstDeclaration {
                        typ,
                        name,
                        initializer: x,
                        span: (begin, t[er.cur].span.1),
                    },
                ),
            ),
        }
    } else if t[c].kind is SquareOpen {
        g_const_array(t, c, p, begin, typ, name, (fuel - 1) as nat)
    } else {
        err_out(
            c,
            p,
            spec_error(
                SpecParsingErrorKind::ExpectedOneOfToken(
                    seq![SpecTokenKind::SquareOpen, SpecTokenKind::Assign],
                ),
                c,
                true,
            ),
        )
    }
}

/// `[SIZE] = { EXPRESSIONS }` after the name of a constant.
pub open spec fn g_const_array(
    t: Seq<SpecToken>,
    c: int,
    p: int,
    begin: int,
    typ: SpecIdentifier,
    name: SpecIdentifier,
    fuel: nat,
) -> Out<SpecStatement> {
    if fuel == 0 {
        no_fuel(c, p)
    } else {
        let ar = g_array_size(t, c, p);
        match ar.res {
            Err(e) => err_out(ar.cur, ar.prog, e),
            Ok(size) => {
                let a1 = g_consume(t, ar.cur, ar.prog, SpecTokenKind::Assign);
                match a1.res {
                    Err(e) => err_out(a1.cur, a1.prog, e),
                    Ok(_) => {
                        let a2 = g_consume(t, a1.cur, a1.prog, SpecTokenKind::BracketOpen);
                        match a2.res {
                            Err(e) => err_out(a2.cur, a2.prog, e),
                            Ok(_) => {
                                let istart = t[a2.cur].span.0;
                                let lr = g_expression_list(t, a2.cur, a2.prog, (fuel - 1) as nat);
                                match lr.res {
                                    Err(e) => err_out(lr.cur, lr.prog, e),
                                    Ok(exps) => {
                                        let iend = t[lr.cur].span.1;
                                        let b = g_consume(t, lr.cur, lr.prog, SpecTokenKind::BracketClose);
                                        match b.res {
                                            Err(e) => err_out(b.cur, b.prog, e),
                                            Ok(_) => ok_out(
                                                b.cur,
                                                b.prog,
                                                SpecStatement::ConstArrayDeclaration(
                                                    SpecConstArrayDeclaration {
                                                        typ,
                                                        name,
                                                        array_size: size,
                                                        initializer: exps,
                                                        initializer_span: (istart, iend),
                                                        span: (begin, t[b.cur].span.1),
                                                    },
                                                ),
                                            ),
                                        }
                                    },
                                }
                            },
                        }
                    },
                }
            },
        }
    }
}

/// A constant declaration as a global declaration.
pub open spec fn g_const_decl_decl(t: Seq<SpecToken>, c: int, p: int, fuel: nat) -> Out<
    SpecDeclaration,
>
    decreases fuel, 1int,
{
    if fuel == 0 {
        no_fuel(c, p)
    } else {
        let r = g_const_decl_stmt(t, c, p, (fuel - 1) as nat);
        match r.res {
            Err(e) => err_out(r.cur, r.prog, e),
            Ok(SpecStatement::ConstDeclaration(d)) => ok_out(r.cur, r.prog, SpecDeclaration::Const(d)),
            Ok(SpecStatement::ConstArrayDeclaration(d)) => ok_out(
                r.cur,
                r.prog,
                SpecDeclaration::ConstArray(d),
            ),
            Ok(_) => err_out(
                r.cur,
                r.prog,
                spec_error(SpecParsingErrorKind::InternalParserFailure, 0, false),
            ),
        }
    }
}

/// `class NAME { (VAR_DECLARATIONS ;)* }`.
pub open spec fn g_class_decl(t: Seq<SpecToken>, c: int, p: int, fuel: nat) -> Out<SpecClass>
    decreases fuel, 1int,
{
    if fuel == 0 {
        no_fuel(c, p)
    } else {
        let cr = g_consume(t, c, p, SpecTokenKind::Class);
        match cr.res {
            Err(e) => err_out(cr.cur, cr.prog, e),
            Ok(_) => {
                let nr = g_ident(t, cr.cur, cr.prog);
                match nr.res {
                    Err(e) => err_out(nr.cur, nr.prog, e),
                    Ok(name) => {
                        let br = g_consume(t, nr.cur, nr.prog, SpecTokenKind::BracketOpen);
                        match br.res {
                            Err(e) => err_out(br.cur, br.prog, e),
                            Ok(_) => {
                                let lr = g_class_loop(t, br.cur, br.prog, seq![], (fuel - 1) as nat);
                                match lr.res {
                                    Err(e) => err_out(lr.cur, lr.prog, e),
                                    Ok(members) => {
                                        let er = g_consume(
                                            t,
                                            lr.cur,
                                            lr.prog,
                                            SpecTokenKind::BracketClose,
                                        );
                                        match er.res {
                                            Err(e) => err_out(er.cur, er.prog, e),
                                            Ok(_) => ok_out(
                                                er.cur,
                                                er.prog,
                                                SpecClass { name, members },
                                            ),
                                        }
                                    },
                                }
                            },
                        }
                    },
                }
            },
        }
    }
}

pub open spec fn g_class_loop(
    t: Seq<SpecToken>,
    c: int,
    p: int,
    acc: Seq<SpecVarDeclaration>,
    fuel: nat,
) -> Out<Seq<SpecVarDeclaration>>
    decreases fuel, 1int,
{
    if fuel == 0 {
        no_fuel(c, p)
    } else if t[c].kind is BracketClose {
        ok_out(c, p, acc)
    } else {
        let vr = g_var_decl(t, c, p, (fuel - 1) as nat);
        match vr.res {
            Err(e) => err_out(vr.cur, vr.prog, e),
            Ok(ds) => {
                let sr = g_consume(t, vr.cur, vr.prog, SpecTokenKind::Semicolon);
                match sr.res {
                    Err(e) => err_out(sr.cur, sr.prog, e),
                    Ok(_) => g_class_loop(t, sr.cur, sr.prog, acc + ds, (fuel - 1) as nat),
                }
            },
        }
    }
}

/// An identifier, or the given error at the current token if there is none.
pub open spec fn g_ident_or(t: Seq<SpecToken>, c: int, p: int, kind: SpecParsingErrorKind) -> Out<
    SpecIdentifier,
> {
    let r = g_ident(t, c, p);
    match r.res {
        Ok(id) => r,
        Err(_) => err_out(r.cur, r.prog, spec_error(kind, r.cur, false)),
    }
}

/// `func TYPE NAME ( PARAMETERS ) BLOCK`.
pub open spec fn g_func_decl(t: Seq<SpecToken>, c: int, p: int, fuel: nat) -> Out<SpecFunction>
    decreases fuel, 1int,
{
    if fuel == 0 {
        no_fuel(c, p)
    } else {
        let cr = g_consume(t, c, p, SpecTokenKind::Func);
        match cr.res {
            Err(e) => err_out(cr.cur, cr.prog, e),
            Ok(_) => {
                let tr = g_ident_or(t, cr.cur, cr.prog, SpecParsingErrorKind::MissingFunctionType);
                match tr.res {
                    Err(e) => err_out(tr.cur, tr.prog, e),
                    Ok(typ) => {
                        let nr = g_ident_or(
                            t,
                            tr.cur,
                            tr.prog,
                            SpecParsingErrorKind::MissingFunctionName,
                        );
                        match nr.res {
                            Err(e) => err_out(nr.cur, nr.prog, e),
                            Ok(name) => {
                                let pr = g_consume(t, nr.cur, nr.prog, SpecTokenKind::ParenOpen);
                                match pr.res {
                                    Err(e) => err_out(pr.cur, pr.prog, e),
                                    Ok(_) => {
                                        let lr = g_params_loop(
                                            t,
                                            pr.cur,
                                            pr.prog,
                                            seq![],
                                            (fuel - 1) as nat,
                                        );
                                        match lr.res {
                                            Err(e) => err_out(lr.cur, lr.prog, e),
                                            Ok(params) => {
                                                let qr = g_consume(
                                                    t,
                                                    lr.cur,
                                                    lr.prog,
                                                    SpecTokenKind::ParenClose,
                                                );
                                                match qr.res {
                                                    Err(e) => err_out(qr.cur, qr.prog, e),
                                                    Ok(_) => {
                                                        let br = g_block(
                                                            t,
                                                            qr.cur,
                                                            qr.cur,
                                                            (fuel - 1) as nat,
                                                        );
                                                        match br.res {
                                                            Err(e) => err_out(br.cur, br.prog, e),
                                                            Ok(body) => ok_out(
                                                                br.cur,
                                                                br.prog,
                                                                SpecFunction { typ, name, params, body },
                                                            ),
                                                        }
                                                    },
                                                }
                                            },
                                        }
                                    },
                                }
                            },
                        }
                    },
                }
            },
        }
    }
}

pub open spec fn g_params_loop(
    t: Seq<SpecToken>,
    c: int,
    p: int,
    acc: Seq<SpecVarDeclaration>,
    fuel: nat,
) -> Out<Seq<SpecVarDeclaration>>
    decreases fuel, 1int,
{
    if fuel == 0 {
        no_fuel(c, p)
    } else if t[c].kind is Var {
        let sr = g_single_var_decl(t, c, p);
        match sr.res {
            Err(e) => err_out(sr.cur, sr.prog, e),
            Ok(d) => if sr.cur < t.len() && t[sr.cur].kind is Comma {
                g_params_loop(t, sr.cur + 1, sr.prog, acc.push(d), (fuel - 1) as nat)
            } else {
                ok_out(sr.cur, sr.prog, acc.push(d))
            },
        }
    } else {
        ok_out(c, p, acc)
    }
}

/// `instance NAME ( CLASS )` with an optional block.
pub open spec fn g_instance_decl(t: Seq<SpecToken>, c: int, p: int, fuel: nat) -> Out<
    SpecInstance,
>
    decreases fuel, 1int,
{
    if fuel == 0 {
        no_fuel(c, p)
    } else {
        let cr = g_consume(t, c, p, SpecTokenKind::Instance);
        match cr.res {
            Err(e) => err_out(cr.cur, cr.prog, e),
            Ok(_) => {
                let nr = g_ident_or(t, cr.cur, cr.prog, SpecParsingErrorKind::MissingInstanceName);
                match nr.res {
                    Err(e) => err_out(nr.cur, nr.prog, e),
                    Ok(name) => {
                        let pr = g_consume(t, nr.cur, nr.prog, SpecTokenKind::ParenOpen);
                        match pr.res {
                            Err(e) => err_out(pr.cur, pr.prog, e),
                            Ok(_) => {
                                let kr = g_ident_or(
                                    t,
                                    pr.cur,
                                    pr.prog,
                                    SpecParsingErrorKind::MissingInstanceType,
                                );
                                match kr.res {
                                    Err(e) => err_out(kr.cur, kr.prog, e),
                                    Ok(class) => {
                                        let qr = g_consume(t, kr.cur, kr.prog, SpecTokenKind::ParenClose);
                                        match qr.res {
                                            Err(e) => err_out(qr.cur, qr.prog, e),
                                            Ok(_) => if t[qr.cur].kind is BracketOpen {
                                                let br = g_block(t, qr.cur, qr.prog, (fuel - 1) as nat);
                                                match br.res {
                                                    Err(e) => err_out(br.cur, br.prog, e),
                                                    Ok(body) => ok_out(
                                                        br.cur,
                                                        br.prog,
                                                        SpecInstance { name, class, body },
                                                    ),
                                                }
                                            } else {
                                                ok_out(
                                                    qr.cur,
                                                    qr.prog,
                                                    SpecInstance { name, class, body: seq![] },
                                                )
                                            },
                                        }
                                    },
                                }
                            },
                        }
                    },
                }
            },
        }
    }
}

/// `prototype NAME ( CLASS ) BLOCK`.
pub open spec fn g_prototype_decl(t: Seq<SpecToken>, c: int, p: int, fuel: nat) -> Out<
    SpecInstance,
>
    decreases fuel, 1int,
{
    if fuel == 0 {
        no_fuel(c, p)
    } else {
        let cr = g_consume(t, c, p, SpecTokenKind::Prototype);
        match cr.res {
            Err(e) => err_out(cr.cur, cr.prog, e),
            Ok(_) => {
                let nr = g_ident(t, cr.cur, cr.prog);
                match nr.res {
                    Err(e) => err_out(nr.cur, nr.prog, e),
                    Ok(name) => {
                        let pr = g_consume(t, nr.cur, nr.prog, SpecTokenKind::ParenOpen);
                        match pr.res {
                            Err(e) => err_out(pr.cur, pr.prog, e),
                            Ok(_) => {
                                let kr = g_ident(t, pr.cur, pr.prog);
                                match kr.res {
                                    Err(e) => err_out(kr.cur, kr.prog, e),
                                    Ok(class) => {
                                        let qr = g_consume(t, kr.cur, kr.prog, SpecTokenKind::ParenClose);
                                        match qr.res {
                                            Err(e) => err_out(qr.cur, qr.prog, e),
                                            Ok(_) => {
                                                let br = g_block(t, qr.cur, qr.prog, (fuel - 1) as nat);
                                                match br.res {
                                                    Err(e) => err_out(br.cur, br.prog, e),
                                                    Ok(body) => ok_out(
                                                        br.cur,
                                                        br.prog,
                                                        SpecInstance { name, class, body },
                                                    ),
                                                }
                                            },
                                        }
                                    },
                                }
                            },
                        }
                    },
                }
            },
        }
    }
}

/// A declaration at the top level of a file, chosen by its first keyword.
#[verifier::opaque]
pub open spec fn g_global_declaration(t: Seq<SpecToken>, c: int, p: int, fuel: nat) -> Out<
    SpecDeclaration,
>
    decreases fuel, 1int,
{
    if fuel == 0 {
        no_fuel(c, p)
    } else if t[c].kind is Func {
        let r = g_func_decl(t, c, p, (fuel - 1) as nat);
        match r.res {
            Err(e) => err_out(r.cur, r.prog, e),
            Ok(d) => ok_out(r.cur, r.prog, SpecDeclaration::Func(d)),
        }
    } else if t[c].kind is Var {
        let r = g_var_decl(t, c, p, (fuel - 1) as nat);
        match r.res {
            Err(e) => err_out(r.cur, r.prog, e),
            Ok(d) => ok_out(r.cur, r.prog, SpecDeclaration::Var(d)),
        }
    } else if t[c].kind is Const {
        g_const_decl_decl(t, c, p, (fuel - 1) as nat)
    } else if t[c].kind is Instance {
        let r = g_instance_decl(t, c, p, (fuel - 1) as nat);
        match r.res {
            Err(e) => err_out(r.cur, r.prog, e),
            Ok(d) => ok_out(r.cur, r.prog, SpecDeclaration::Inst(seq![d])),
        }
    } else if t[c].kind is Prototype {
        let r = g_prototype_decl(t, c, p, (fuel - 1) as nat);
        match r.res {
            Err(e) => err_out(r.cur, r.prog, e),
            Ok(d) => ok_out(r.cur, r.prog, SpecDeclaration::Proto(d)),
        }
    } else if t[c].kind is Class {
        let r = g_class_decl(t, c, p, (fuel - 1) as nat);
        match r.res {
            Err(e) => err_out(r.cur, r.prog, e),
            Ok(d) => ok_out(r.cur, r.prog, SpecDeclaration::Class(d)),
        }
    } else {
        err_out(
            c,
            p,
            spec_error(
                SpecParsingErrorKind::ExpectedOneOfToken(
                    seq![
                        SpecTokenKind::Func,
                        SpecTokenKind::Var,
                        SpecTokenKind::Const,
                        SpecTokenKind::Prototype,
                        SpecTokenKind::Class,
                    ],
                ),
                c,
                false,
            ),
        )
    }
}

/// Declarations, each followed by `;`, up to the end of the file.
pub open spec fn g_start(t: Seq<SpecToken>, c: int, p: int, fuel: nat) -> Out<Seq<SpecDeclaration>>
    decreases fuel, 1int,
{
    if fuel == 0 {
        no_fuel(c, p)
    } else {
        g_start_loop(t, c, p, seq![], (fuel - 1) as nat)
    }
}

pub open spec fn g_start_loop(
    t: Seq<SpecToken>,
    c: int,
    p: int,
    acc: Seq<SpecDeclaration>,
    fuel: nat,
) -> Out<Seq<SpecDeclaration>>
    decreases fuel, 1int,
{
    if fuel == 0 {
        no_fuel(c, p)
    } else if t[c].kind is EOF {
        ok_out(c, p, acc)
    } else {
        let gr = g_global_declaration(t, c, p, (fuel - 1) as nat);
        match gr.res {
            Err(e) => err_out(gr.cur, gr.prog, e),
            Ok(d) => {
                let sr = g_consume(t, gr.cur, gr.prog, SpecTokenKind::Semicolon);
                match sr.res {
                    Err(e) => err_out(sr.cur, sr.prog, e),
                    Ok(_) => g_start_loop(t, sr.cur, sr.prog, acc.push(d), (fuel - 1) as nat),
                }
            },
        }
    }
}


// ------------------------------------------------------------------
// The parser
// ------------------------------------------------------------------

/// The tokens without comments.
pub open spec fn without_comments(s: Seq<SpecToken>) -> Seq<SpecToken>
    decreases s.len(),
{
    if s.len() == 0 {
        seq![]
    } else if s.last().kind is Comment {
        without_comments(s.drop_last())
    } else {
        without_comments(s.drop_last()).push(s.last())
    }
}

pub open spec fn rv<T: View>(r: Result<T, ParsingError>) -> Result<T::V, SpecParsingError> {
    match r {
        Ok(v) => Ok(v@),
        Err(e) => Err(e@),
    }
}

pub open spec fn rv_unit(r: Result<(), ParsingError>) -> Result<(), SpecParsingError> {
    match r {
        Ok(_) => Ok(()),
        Err(e) => Err(e@),
    }
}

pub open spec fn rv_exprs(r: Result<Vec<Expression>, ParsingError>) -> Result<
    Seq<SpecExpression>,
    SpecParsingError,
> {
    match r {
        Ok(v) => Ok(exprs_view(v@)),
        Err(e) => Err(e@),
    }
}

pub open spec fn rv_stmts(r: Result<Vec<Statement>, ParsingError>) -> Result<
    Seq<SpecStatement>,
    SpecParsingError,
> {
    match r {
        Ok(v) => Ok(stmts_view(v@)),
        Err(e) => Err(e@),
    }
}

pub open spec fn rv_var_decls(r: Result<Vec<VarDeclaration>, ParsingError>) -> Result<
    Seq<SpecVarDeclaration>,
    SpecParsingError,
> {
    match r {
        Ok(v) => Ok(var_decls_view(v@)),
        Err(e) => Err(e@),
    }
}

pub open spec fn rv_decls(r: Result<Vec<Declaration>, ParsingError>) -> Result<
    Seq<SpecDeclaration>,
    SpecParsingError,
> {
    match r {
        Ok(v) => Ok(decls_view(v@)),
        Err(e) => Err(e@),
    }
}

pub open spec fn if_view(i: IfStatement) -> SpecStatement {
    SpecStatement::If(
        branches_view(i.branches@),
        match i.else_branch {
            Some(b) => Some(stmts_view(b@)),
            None => None,
        },
        span_view(i.span),
    )
}

pub open spec fn rv_if(r: Result<IfStatement, ParsingError>) -> Result<SpecStatement, SpecParsingError> {
    match r {
        Ok(v) => Ok(if_view(v)),
        Err(e) => Err(e@),
    }
}

fn copy_bytes(v: &Vec<u8>) -> (r: Vec<u8>)
    ensures
        r@ == v@,
{
    vstd::slice::slice_to_vec(v.as_slice())
}

pub fn bytes_equal(a: &Vec<u8>, b: &Vec<u8>) -> (r: bool)
    ensures
        r == (a@ == b@),
{
    if a.len() != b.len() {
        return false;
    }
    let mut i: usize = 0;
    while i < a.len()
        invariant
            a.len() == b.len(),
            i <= a.len(),
            forall|k: int| 0 <= k < i ==> a@[k] == b@[k],
        decreases a.len() - i,
    {
        if a[i] != b[i] {
            return false;
        }
        i += 1;
    }
    assert(a@ =~= b@);
    true
}

fn is_binary_op_kind(level: u8, k: &TokenKind) -> (r: bool)
    ensures
        r == is_binary_op(level as int, k@),
{
    if level <= 1 {
        match k {
            TokenKind::BitNot | TokenKind::BitAnd | TokenKind::BitOr | TokenKind::ShiftLeft
            | TokenKind::ShiftRight => true,
            _ => false,
        }
    } else if level == 2 {
        match k {
            TokenKind::Multiply | TokenKind::Divide | TokenKind::Modulo => true,
            _ => false,
        }
    } else if level == 3 {
        match k {
            TokenKind::Plus | TokenKind::Minus => true,
            _ => false,
        }
    } else if level == 4 {
        match k {
            TokenKind::Greater | TokenKind::GreaterEquals | TokenKind::Lower
            | TokenKind::LowerEquals | TokenKind::Equals | TokenKind::NotEquals => true,
            _ => false,
        }
    } else {
        match k {
            TokenKind::And | TokenKind::Or => true,
            _ => false,
        }
    }
}

/// The binary operator a token stands for.
pub fn binary_operator(k: &TokenKind) -> (r: Option<BinaryOperator>)
    ensures
        r == binary_op_of(k@),
{
    match k {
        TokenKind::Plus => Some(BinaryOperator::Plus),
        TokenKind::Minus => Some(BinaryOperator::Minus),
        TokenKind::Multiply => Some(BinaryOperator::Multiply),
        TokenKind::Divide => Some(BinaryOperator::Divide),
        TokenKind::Modulo => Some(BinaryOperator::Modulo),
        TokenKind::ShiftLeft => Some(BinaryOperator::ShiftLeft),
        TokenKind::ShiftRight => Some(BinaryOperator::ShiftRight),
        TokenKind::BitAnd => Some(BinaryOperator::BitAnd),
        TokenKind::BitOr => Some(BinaryOperator::BitOr),
        TokenKind::Lower => Some(BinaryOperator::Lower),
        TokenKind::LowerEquals => Some(BinaryOperator::LowerEquals),
        TokenKind::Greater => Some(BinaryOperator::Greater),
        TokenKind::GreaterEquals => Some(BinaryOperator::GreaterEquals),
        TokenKind::Equals => Some(BinaryOperator::Equals),
        TokenKind::NotEquals => Some(BinaryOperator::NotEquals),
        TokenKind::And => Some(BinaryOperator::And),
        TokenKind::Or => Some(BinaryOperator::Or),
        _ => None,
    }
}

/// The unary operator of a token that is one of `+ - ! ~`.
pub fn unary_operator(k: &TokenKind) -> (r: Option<UnaryOperator>)
    ensures
        r == (if is_unary_op(k@) {
            Some(unary_op_of(k@))
        } else {
            None
        }),
{
    match k {
        TokenKind::Plus => Some(UnaryOperator::Plus),
        TokenKind::Minus => Some(UnaryOperator::Minus),
        TokenKind::Not => Some(UnaryOperator::Not),
        TokenKind::BitNot => Some(UnaryOperator::Flip),
        _ => None,
    }
}

/// The assignment operator of a token that is one of `= += -= /= *=`.
pub fn assignment_operator(k: &TokenKind) -> (r: Option<AssignmentOperator>)
    ensures
        r == (if is_assign_op(k@) {
            Some(assign_op_of(k@))
        } else {
            None
        }),
{
    match k {
        TokenKind::Assign => Some(AssignmentOperator::Eq),
        TokenKind::PlusAssign => Some(AssignmentOperator::PlusEq),
        TokenKind::MinusAssign => Some(AssignmentOperator::MinusEq),
        TokenKind::DivideAssign => Some(AssignmentOperator::DivideEq),
        TokenKind::MultiplyAssign => Some(AssignmentOperator::MultiplyEq),
        _ => None,
    }
}

/// Equality of token kinds, payloads included.
pub fn kind_eq(a: &TokenKind, b: &TokenKind) -> (r: bool)
    ensures
        r == (a@ == b@),
{
    match (a, b) {
        (TokenKind::Comment(x), TokenKind::Comment(y)) => *x == *y,
        (TokenKind::Identifier(x), TokenKind::Identifier(y)) => bytes_equal(x, y),
        (TokenKind::Integer(x), TokenKind::Integer(y)) => *x == *y,
        (TokenKind::Decimal(x), TokenKind::Decimal(y)) => bytes_equal(x, y),
        (TokenKind::StringLit(x), TokenKind::StringLit(y)) => bytes_equal(x, y),
        (TokenKind::BracketOpen, TokenKind::BracketOpen) => true,
        (TokenKind::BracketClose, TokenKind::BracketClose) => true,
        (TokenKind::SquareOpen, TokenKind::SquareOpen) => true,
        (TokenKind::SquareClose, TokenKind::SquareClose) => true,
        (TokenKind::ParenOpen, TokenKind::ParenOpen) => true,
        (TokenKind::ParenClose, TokenKind::ParenClose) => true,
        (TokenKind::Comma, TokenKind::Comma) => true,
        (TokenKind::Period, TokenKind::Period) => true,
        (TokenKind::Semicolon, TokenKind::Semicolon) => true,
        (TokenKind::Plus, TokenKind::Plus) => true,
        (TokenKind::PlusAssign, TokenKind::PlusAssign) => true,
        (TokenKind::Minus, TokenKind::Minus) => true,
        (TokenKind::MinusAssign, TokenKind::MinusAssign) => true,
        (TokenKind::Multiply, TokenKind::Multiply) => true,
        (TokenKind::MultiplyAssign, TokenKind::MultiplyAssign) => true,
        (TokenKind::Divide, TokenKind::Divide) => true,
        (TokenKind::DivideAssign, TokenKind::DivideAssign) => true,
        (TokenKind::Assign, TokenKind::Assign) => true,
        (TokenKind::Equals, TokenKind::Equals) => true,
        (TokenKind::NotEquals, TokenKind::NotEquals) => true,
        (TokenKind::Greater, TokenKind::Greater) => true,
        (TokenKind::GreaterEquals, TokenKind::GreaterEquals) => true,
        (TokenKind::Lower, TokenKind::Lower) => true,
        (TokenKind::LowerEquals, TokenKind::LowerEquals) => true,
        (TokenKind::Modulo, TokenKind::Modulo) => true,
        (TokenKind::Or, TokenKind::Or) => true,
        (TokenKind::BitOr, TokenKind::BitOr) => true,
        (TokenKind::And, TokenKind::And) => true,
        (TokenKind::BitAnd, TokenKind::BitAnd) => true,
        (TokenKind::ShiftLeft, TokenKind::ShiftLeft) => true,
        (TokenKind::ShiftRight, TokenKind::ShiftRight) => true,
        (TokenKind::Not, TokenKind::Not) => true,
        (TokenKind::BitNot, TokenKind::BitNot) => true,
        (TokenKind::Func, TokenKind::Func) => true,
        (TokenKind::Class, TokenKind::Class) => true,
        (TokenKind::Prototype, TokenKind::Prototype) => true,
        (TokenKind::Instance, TokenKind::Instance) => true,
        (TokenKind::Var, TokenKind::Var) => true,
        (TokenKind::Const, TokenKind::Const) => true,
        (TokenKind::Return, TokenKind::Return) => true,
        (TokenKind::Else, TokenKind::Else) => true,
        (TokenKind::If, TokenKind::If) => true,
        (TokenKind::EOF, TokenKind::EOF) => true,
        _ => false,
    }
}

pub struct Parser {
    tokens: Vec<Token>,
    current: usize,
    progress: usize,
}

impl Parser {
    /// The tokens being parsed.
    pub closed spec fn toks(&self) -> Seq<SpecToken> {
        tokens_view(self.tokens@)
    }

    /// The index of the current token.
    pub closed spec fn cur(&self) -> int {
        self.current as int
    }

    /// The index saved as the furthest point known to parse.
    pub closed spec fn prog(&self) -> int {
        self.progress as int
    }

    /// The tokens end with `EOF`, and both indexes lie within them.
    pub closed spec fn wf(&self) -> bool {
        &&& well_formed(self.toks())
        &&& self.toks().len() == self.tokens@.len()
        &&& self.current < self.tokens.len()
        &&& self.progress < self.tokens.len()
    }

    proof fn lemma_toks_len(&self)
        ensures
            self.toks().len() == self.tokens@.len(),
            forall|i: int| 0 <= i < self.tokens@.len() ==> #[trigger] self.toks()[i] == self.tokens@[i]@,
    {
    }

    /// A parser in a valid state stands on one of its tokens, which end with `EOF`.
    pub proof fn lemma_wf(&self)
        requires
            self.wf(),
        ensures
            well_formed(self.toks()),
            0 <= self.cur() < self.toks().len(),
            0 <= self.prog() < self.toks().len(),
    {
    }

    /// A parser at the first of the given tokens; comments are left out.
    pub fn new(tokens: &[Token]) -> (r: Parser)
        requires
            tokens@.len() > 0,
            tokens@.last().kind is EOF,
        ensures
            r.wf(),
            r.toks() == without_comments(tokens_view(tokens@)),
            r.cur() == 0,
            r.prog() == 0,
    {
        let mut v: Vec<Token> = Vec::new();
        let mut i: usize = 0;
        while i < tokens.len()
            invariant
                i <= tokens.len(),
                tokens_view(v@) == without_comments(tokens_view(tokens@).subrange(0, i as int)),
            decreases tokens.len() - i,
        {
            let ghost before = v@;
            let ghost pre = tokens_view(tokens@).subrange(0, i as int);
            let ghost next = tokens_view(tokens@).subrange(0, i as int + 1);
            assert(next.drop_last() =~= pre);
            assert(next.last() == tokens@[i as int]@);
            match &tokens[i].kind {
                TokenKind::Comment(_) => {},
                _ => {
                    v.push(tokens[i].clone());
                    assert(tokens_view(v@) =~= tokens_view(before).push(tokens@[i as int]@));
                },
            }
            i += 1;
        }
        assert(tokens_view(tokens@).subrange(0, tokens@.len() as int) =~= tokens_view(tokens@));
        Parser { tokens: v, current: 0, progress: 0 }
    }

    pub fn save_progress(&mut self)
        requires
            old(self).wf(),
        ensures
            final(self).wf(),
            final(self).toks() == old(self).toks(),
            final(self).cur() == old(self).cur(),
            final(self).prog() == old(self).cur(),
    {
        self.progress = self.current;
    }

    pub fn progress(&self) -> (r: usize)
        ensures
            r == self.prog(),
    {
        self.progress
    }

    /// Steps over the current token, which is not the end of the file.
    pub fn advance(&mut self)
        requires
            old(self).wf(),
            !(old(self).toks()[old(self).cur()].kind is EOF),
        ensures
            final(self).wf(),
            final(self).toks() == old(self).toks(),
            final(self).cur() == old(self).cur() + 1,
            final(self).prog() == old(self).prog(),
    {
        proof {
            self.lemma_toks_len();
        }
        self.current += 1;
    }

    /// Whether the current token is of kind `t`.
    pub fn check(&self, t: TokenKind) -> (b: bool)
        requires
            self.wf(),
        ensures
            b == (self.toks()[self.cur()].kind == t@),
    {
        kind_eq(&self.tokens[self.current].kind, &t)
    }

    pub fn current_id(&self) -> (r: usize)
        ensures
            r == self.cur(),
    {
        self.current
    }

    /// A copy of the current token.
    pub fn current(&mut self) -> (r: Result<Token, ParsingError>)
        requires
            old(self).wf(),
        ensures
            *final(self) == *old(self),
            r matches Ok(tok) && tok@ == old(self).toks()[old(self).cur()],
    {
        Ok(self.tokens[self.current].clone())
    }

    pub fn current_ref(&self) -> (r: Result<&Token, ParsingError>)
        requires
            self.wf(),
        ensures
            r matches Ok(tok) && tok@ == self.toks()[self.cur()],
    {
        Ok(&self.tokens[self.current])
    }

    pub fn freeze(&self) -> (r: usize)
        ensures
            r == self.cur(),
    {
        self.current
    }

    /// Goes back to a position obtained with `freeze`.
    pub fn restore(&mut self, frozen: usize)
        requires
            old(self).wf(),
            frozen < old(self).toks().len(),
        ensures
            final(self).wf(),
            final(self).toks() == old(self).toks(),
            final(self).cur() == frozen,
            final(self).prog() == old(self).prog(),
    {
        self.current = frozen;
    }

    /// Steps over a token of kind `token`, saving the progress, or fails recoverably.
    pub fn consume(&mut self, token: TokenKind) -> (r: Result<(), ParsingError>)
        requires
            old(self).wf(),
            !(token is EOF),
        ensures
            final(self).wf(),
            final(self).toks() == old(self).toks(),
            g_consume(old(self).toks(), old(self).cur(), old(self).prog(), token@) == (Out {
                cur: final(self).cur(),
                prog: final(self).prog(),
                res: rv_unit(r),
            }),
    {
        if self.check(token.clone()) {
            self.advance();
            self.save_progress();
            Ok(())
        } else {
            Err(ParsingError::from_token(ParsingErrorKind::ExpectedToken(token), self.current, true))
        }
    }

    pub fn has_more(&self) -> (r: bool)
        ensures
            r == (self.cur() < self.toks().len()),
    {
        proof {
            self.lemma_toks_len();
        }
        self.current < self.tokens.len()
    }

    /// A copy of the token before the current one.
    pub fn previous(&mut self) -> (r: Result<Token, ParsingError>)
        requires
            old(self).wf(),
        ensures
            *final(self) == *old(self),
            old(self).cur() == 0 ==> (r matches Err(e) && e@ == spec_error(
                SpecParsingErrorKind::ReachedEOF,
                old(self).toks().len() - 1,
                false,
            )),
            old(self).cur() > 0 ==> (r matches Ok(tok) && tok@ == old(self).toks()[old(self).cur()
                - 1]),
    {
        if self.current == 0 {
            return Err(
                ParsingError::from_token(ParsingErrorKind::ReachedEOF, self.tokens.len() - 1, false),
            );
        }
        Ok(self.tokens[self.current - 1].clone())
    }

    /// The kind of the current token.
    pub fn kind(&self) -> (k: &TokenKind)
        requires
            self.wf(),
        ensures
            k@ == self.toks()[self.cur()].kind,
    {
        proof {
            self.lemma_toks_len();
        }
        &self.tokens[self.current].kind
    }

    /// Steps over the current token if it is of kind `k`, keeping the saved progress.
    pub fn match_tok(&mut self, k: TokenKind) -> (b: bool)
        requires
            old(self).wf(),
            !(k is EOF),
        ensures
            final(self).wf(),
            final(self).toks() == old(self).toks(),
            final(self).prog() == old(self).prog(),
            b == (old(self).toks()[old(self).cur()].kind == k@),
            final(self).cur() == (if b {
                old(self).cur() + 1
            } else {
                old(self).cur()
            }),
    {
        if self.check(k) {
            self.advance();
            true
        } else {
            false
        }
    }

    /// The span of the token before the current one.
    pub fn previous_span(&self) -> (s: (usize, usize))
        requires
            self.wf(),
            self.cur() > 0,
        ensures
            s.0 == self.toks()[self.cur() - 1].span.0,
            s.1 == self.toks()[self.cur() - 1].span.1,
    {
        proof {
            self.lemma_toks_len();
        }
        self.tokens[self.current - 1].span
    }

    /// Where the current token starts.
    pub fn span_start(&self) -> (r: usize)
        requires
            self.wf(),
        ensures
            r == self.toks()[self.cur()].span.0,
    {
        self.tokens[self.current].span.0
    }

    /// Where the current token ends.
    pub fn span_end(&self) -> (r: usize)
        requires
            self.wf(),
        ensures
            r == self.toks()[self.cur()].span.1,
    {
        self.tokens[self.current].span.1
    }
}


impl Parser {
    /// A name: an identifier token, or one of the keywords that may serve as a name.
    pub fn ident(&mut self) -> (r: Result<Identifier, ParsingError>)
        requires
            old(self).wf(),
        ensures
            final(self).wf(),
            final(self).toks() == old(self).toks(),
            g_ident(old(self).toks(), old(self).cur(), old(self).prog()) == (Out {
                cur: final(self).cur(),
                prog: final(self).prog(),
                res: rv(r),
            }),
    {
        proof {
            self.lemma_toks_len();
        }
        let span = self.tokens[self.current].span;
        let name: Option<Vec<u8>> = match &self.tokens[self.current].kind {
            TokenKind::Identifier(n) => Some(copy_bytes(n)),
            TokenKind::Var => Some(vec![118u8, 97, 114]),
            TokenKind::Return => Some(vec![114u8, 101, 116, 117, 114, 110]),
            TokenKind::Class => Some(vec![99u8, 108, 97, 115, 115]),
            TokenKind::Prototype => Some(vec![112u8, 114, 111, 116, 111, 116, 121, 112, 101]),
            TokenKind::Instance => Some(vec![105u8, 110, 115, 116, 97, 110, 99, 101]),
            TokenKind::Func => Some(vec![102u8, 117, 110, 99]),
            _ => None,
        };
        proof {
            let k = self.toks()[self.cur()].kind;
            match &name {
                Some(n) => {
                    assert(ident_name(k) == Some(n@));
                },
                None => {
                    assert(ident_name(k) is None);
                },
            }
        }
        match name {
            Some(n) => {
                let id = Identifier { name: PrintableByteVec(n), span };
                self.advance();
                Ok(id)
            },
            None => {
                let empty: Vec<u8> = Vec::new();
                assert(empty@ =~= seq![]);
                Err(
                    ParsingError::from_token(
                        ParsingErrorKind::ExpectedToken(TokenKind::Identifier(empty)),
                        self.current,
                        true,
                    ),
                )
            },
        }
    }

    /// `[SIZE]` where SIZE is an integer or a name.
    pub fn array_size_decl(&mut self) -> (r: Result<ArraySizeDeclaration, ParsingError>)
        requires
            old(self).wf(),
        ensures
            final(self).wf(),
            final(self).toks() == old(self).toks(),
            old(self).cur() <= final(self).cur(),
            g_array_size(old(self).toks(), old(self).cur(), old(self).prog()) == (Out {
                cur: final(self).cur(),
                prog: final(self).prog(),
                res: match r {
                    Ok(a) => Ok(array_size_view(a)),
                    Err(e) => Err(e@),
                },
            }),
    {
        proof {
            self.lemma_toks_len();
        }
        if let TokenKind::SquareOpen = self.tokens[self.current].kind {
            self.advance();
            let size = if let TokenKind::Integer(size) = self.tokens[self.current].kind {
                self.advance();
                ArraySizeDeclaration::Size(size)
            } else {
                match self.ident() {
                    Ok(ident) => ArraySizeDeclaration::Identifier(ident),
                    Err(e) => return Err(e),
                }
            };
            match self.consume(TokenKind::SquareClose) {
                Ok(_) => Ok(size),
                Err(e) => Err(e),
            }
        } else {
            Err(
                ParsingError::from_token(
                    ParsingErrorKind::ExpectedToken(TokenKind::SquareOpen),
                    self.current,
                    true,
                ),
            )
        }
    }

    /// `var TYPE NAME` with an optional array size.
    pub fn single_var_decl(&mut self) -> (r: Result<VarDeclaration, ParsingError>)
        requires
            old(self).wf(),
        ensures
            final(self).wf(),
            final(self).toks() == old(self).toks(),
            old(self).cur() <= final(self).cur(),
            r is Ok ==> old(self).cur() < final(self).cur(),
            g_single_var_decl(old(self).toks(), old(self).cur(), old(self).prog()) == (Out {
                cur: final(self).cur(),
                prog: final(self).prog(),
                res: rv(r),
            }),
    {
        let start = self.span_start();
        match self.consume(TokenKind::Var) {
            Ok(_) => {},
            Err(e) => return Err(e),
        }
        let typ = match self.ident() {
            Ok(t) => t,
            Err(e) => return Err(e),
        };
        let name = match self.ident() {
            Ok(n) => n,
            Err(e) => return Err(e),
        };
        let ice = self.freeze();
        let size_decl = match self.array_size_decl() {
            Ok(decl) => Some(decl),
            Err(_) => {
                self.restore(ice);
                None
            },
        };
        let end = self.span_end();
        Ok(VarDeclaration::new(typ, name, size_decl, (start, end)))
    }
}


impl Parser {
    /// An expression: a string literal, or operators and operands.
    pub fn expression(&mut self) -> (r: Result<Expression, ParsingError>)
        requires
            old(self).wf(),
        ensures
            final(self).wf(),
            final(self).toks() == old(self).toks(),
            old(self).cur() <= final(self).cur(),
            r is Ok ==> old(self).cur() < final(self).cur(),
            forall|f: nat|
                f >= need(old(self).toks().len() as int, old(self).cur(), 12) ==> #[trigger] g_expression(
                    old(self).toks(),
                    old(self).cur(),
                    old(self).prog(),
                    f,
                ) == (Out { cur: final(self).cur(), prog: final(self).prog(), res: rv(r) }),
        decreases old(self).toks().len() - old(self).cur(), 12int,
    {
        let ghost t = self.toks();
        let ghost c0 = self.cur();
        let ghost p0 = self.prog();
        proof {
            self.lemma_toks_len();
        }
        if let TokenKind::StringLit(s) = &self.tokens[self.current].kind {
            let data = copy_bytes(s);
            let span = self.tokens[self.current].span;
            self.advance();
            return Ok(Expression::String(StringLiteral { data: PrintableByteVec(data), span }));
        }
        let r = self.binary(5);
        proof {
            assert forall|f: nat| f >= need(t.len() as int, c0, 12) implies #[trigger] g_expression(
                t,
                c0,
                p0,
                f,
            ) == (Out { cur: self.cur(), prog: self.prog(), res: rv(r) }) by {
                assert(g_expression(t, c0, p0, f) == g_binary(5, t, c0, p0, (f - 1) as nat));
            }
        }
        r
    }

    /// Operands joined by the operators of one precedence level, left associative.
    fn binary(&mut self, level: u8) -> (r: Result<Expression, ParsingError>)
        requires
            old(self).wf(),
            1 <= level <= 5,
        ensures
            final(self).wf(),
            final(self).toks() == old(self).toks(),
            old(self).cur() <= final(self).cur(),
            r is Ok ==> old(self).cur() < final(self).cur(),
            forall|f: nat|
                f >= need(old(self).toks().len() as int, old(self).cur(), 6 + level) ==> #[trigger] g_binary(
                    level as int,
                    old(self).toks(),
                    old(self).cur(),
                    old(self).prog(),
                    f,
                ) == (Out { cur: final(self).cur(), prog: final(self).prog(), res: rv(r) }),
        decreases old(self).toks().len() - old(self).cur(), 6 + level as int,
    {
        let ghost t = self.toks();
        let ghost c0 = self.cur();
        let ghost p0 = self.prog();
        let first = if level <= 1 {
            self.unary()
        } else {
            let lower: u8 = level - 1;
            let res = self.binary(lower);
            proof {
                assert(lower as int == level as int - 1);
                assert forall|f: nat| f >= need(t.len() as int, c0, 6 + level) implies #[trigger] g_binary(
                    level as int - 1,
                    t,
                    c0,
                    p0,
                    (f - 1) as nat,
                ) == (Out { cur: self.cur(), prog: self.prog(), res: rv(res) }) by {
                    assert(g_binary(lower as int, t, c0, p0, (f - 1) as nat) == (Out {
                        cur: self.cur(),
                        prog: self.prog(),
                        res: rv(res),
                    }));
                }
            }
            res
        };
        let ghost fr = rv(first);
        let mut expr = match first {
            Ok(e) => e,
            Err(e) => {
                let r = Err(e);
                proof {
                    assert forall|f: nat| f >= need(t.len() as int, c0, 6 + level) implies #[trigger] g_binary(
                        level as int,
                        t,
                        c0,
                        p0,
                        f,
                    ) == (Out { cur: self.cur(), prog: self.prog(), res: rv(r) }) by {
                        assert(f > 0);
                        if level <= 1 {
                            assert(g_unary(t, c0, p0, (f - 1) as nat) == (Out { cur: self.cur(), prog: self.prog(), res: rv(first) }));
                        } else {
                            assert(g_binary(level - 1, t, c0, p0, (f - 1) as nat) == (Out { cur: self.cur(), prog: self.prog(), res: rv(first) }));
                        }
                    }
                }
                return r;
            },
        };
        let ghost c1 = self.cur();
        let ghost mut i: int = 0;
        proof {
            assert forall|f: nat| f >= need(t.len() as int, c0, 6 + level) implies #[trigger] g_binary(
                level as int,
                t,
                c0,
                p0,
                f,
            ) == g_binary_loop(level as int, t, self.cur(), self.prog(), expr@, (f - 1 - i) as nat) by {
                assert(f > 0);
                assert(fr == Ok::<SpecExpression, SpecParsingError>(expr@));
                if level <= 1 {
                    assert(g_unary(t, c0, p0, (f - 1) as nat) == (Out { cur: self.cur(), prog: self.prog(), res: fr }));
                } else {
                    assert(g_binary(level - 1, t, c0, p0, (f - 1) as nat) == (Out { cur: self.cur(), prog: self.prog(), res: fr }));
                }
            }
        }
        loop
            invariant
                t == old(self).toks(),
                c0 == old(self).cur(),
                p0 == old(self).prog(),
                self.wf(),
                self.toks() == t,
                1 <= level <= 5,
                c0 < c1 <= self.cur(),
                0 <= i,
                self.cur() >= c1 + i,
                forall|f: nat|
                    f >= need(t.len() as int, c0, 6 + level) ==> #[trigger] g_binary(
                        level as int,
                        t,
                        c0,
                        p0,
                        f,
                    ) == g_binary_loop(
                        level as int,
                        t,
                        self.cur(),
                        self.prog(),
                        expr@,
                        (f - 1 - i) as nat,
                    ),
            decreases t.len() - self.cur(),
        {
            let ghost cc = self.cur();
            let ghost pp = self.prog();
            let ghost left = expr@;
            if !is_binary_op_kind(level, &self.tokens[self.current].kind) {
                let r = Ok(expr);
                proof {
                    assert forall|f: nat| f >= need(t.len() as int, c0, 6 + level) implies #[trigger] g_binary(
                        level as int,
                        t,
                        c0,
                        p0,
                        f,
                    ) == (Out { cur: self.cur(), prog: self.prog(), res: rv(r) }) by {
                        assert((f - 1 - i) as nat > 0);
                    }
                }
                return r;
            }
            let ghost opk = self.toks()[self.cur()].kind;
            let op = binary_operator(&self.tokens[self.current].kind);
            self.advance();
            self.save_progress();
            let right = if level <= 1 {
                self.unary()
            } else {
                let lower: u8 = level - 1;
                self.binary(lower)
            };
            let ghost rr = rv(right);
            proof {
                assert forall|f: nat| f >= need(t.len() as int, c0, 6 + level) implies #[trigger] g_binary(
                    level as int,
                    t,
                    c0,
                    p0,
                    f,
                ) == (match rr {
                    Err(e) => err_out(self.cur(), self.prog(), unrecoverable(e)),
                    Ok(rx) => match binary_op_of(opk) {
                        None => err_out(
                            self.cur(),
                            self.prog(),
                            spec_error(SpecParsingErrorKind::InternalParserFailure, 0, false),
                        ),
                        Some(o) => g_binary_loop(
                            level as int,
                            t,
                            self.cur(),
                            self.prog(),
                            SpecExpression::Binary(
                                o,
                                Box::new(left),
                                Box::new(rx),
                                (expr_span(left).0, expr_span(rx).1),
                            ),
                            (f - 1 - (i + 1)) as nat,
                        ),
                    },
                }) by {
                    assert((f - 1 - i) as nat > 0);
                    if level <= 1 {
                        assert(g_unary(t, cc + 1, cc + 1, (f - 2 - i) as nat) == (Out {
                            cur: self.cur(),
                            prog: self.prog(),
                            res: rr,
                        }));
                    } else {
                        assert(g_binary(level - 1, t, cc + 1, cc + 1, (f - 2 - i) as nat) == (Out {
                            cur: self.cur(),
                            prog: self.prog(),
                            res: rr,
                        }));
                    }
                }
            }
            let right = match right {
                Ok(x) => x,
                Err(e) => {
                    let mut e = e;
                    e.recoverable = false;
                    return Err(e);
                },
            };
            let span = (expr.get_span().0, right.get_span().1);
            match op {
                None => {
                    return Err(ParsingError::internal_error());
                },
                Some(op) => {
                    expr = Expression::Binary(Box::new(BinaryExpression::new(op, expr, right, span)));
                },
            }
            proof {
                i = i + 1;
            }
        }
    }

    fn bit(&mut self) -> (r: Result<Expression, ParsingError>)
        requires
            old(self).wf(),
        ensures
            final(self).wf(),
            final(self).toks() == old(self).toks(),
            forall|f: nat|
                f >= need(old(self).toks().len() as int, old(self).cur(), 7) ==> #[trigger] g_binary(
                    1,
                    old(self).toks(),
                    old(self).cur(),
                    old(self).prog(),
                    f,
                ) == (Out { cur: final(self).cur(), prog: final(self).prog(), res: rv(r) }),
    {
        self.binary(1)
    }

    fn mul(&mut self) -> (r: Result<Expression, ParsingError>)
        requires
            old(self).wf(),
        ensures
            final(self).wf(),
            final(self).toks() == old(self).toks(),
            forall|f: nat|
                f >= need(old(self).toks().len() as int, old(self).cur(), 8) ==> #[trigger] g_binary(
                    2,
                    old(self).toks(),
                    old(self).cur(),
                    old(self).prog(),
                    f,
                ) == (Out { cur: final(self).cur(), prog: final(self).prog(), res: rv(r) }),
    {
        self.binary(2)
    }

    fn add(&mut self) -> (r: Result<Expression, ParsingError>)
        requires
            old(self).wf(),
        ensures
            final(self).wf(),
            final(self).toks() == old(self).toks(),
            forall|f: nat|
                f >= need(old(self).toks().len() as int, old(self).cur(), 9) ==> #[trigger] g_binary(
                    3,
                    old(self).toks(),
                    old(self).cur(),
                    old(self).prog(),
                    f,
                ) == (Out { cur: final(self).cur(), prog: final(self).prog(), res: rv(r) }),
    {
        self.binary(3)
    }

    fn comparison(&mut self) -> (r: Result<Expression, ParsingError>)
        requires
            old(self).wf(),
        ensures
            final(self).wf(),
            final(self).toks() == old(self).toks(),
            forall|f: nat|
                f >= need(old(self).toks().len() as int, old(self).cur(), 10) ==> #[trigger] g_binary(
                    4,
                    old(self).toks(),
                    old(self).cur(),
                    old(self).prog(),
                    f,
                ) == (Out { cur: final(self).cur(), prog: final(self).prog(), res: rv(r) }),
    {
        self.binary(4)
    }

    fn boolean(&mut self) -> (r: Result<Expression, ParsingError>)
        requires
            old(self).wf(),
        ensures
            final(self).wf(),
            final(self).toks() == old(self).toks(),
            forall|f: nat|
                f >= need(old(self).toks().len() as int, old(self).cur(), 11) ==> #[trigger] g_binary(
                    5,
                    old(self).toks(),
                    old(self).cur(),
                    old(self).prog(),
                    f,
                ) == (Out { cur: final(self).cur(), prog: final(self).prog(), res: rv(r) }),
    {
        self.binary(5)
    }

    /// Prefix operators applied to a value.
    pub fn unary(&mut self) -> (r: Result<Expression, ParsingError>)
        requires
            old(self).wf(),
        ensures
            final(self).wf(),
            final(self).toks() == old(self).toks(),
            old(self).cur() <= final(self).cur(),
            r is Ok ==> old(self).cur() < final(self).cur(),
            forall|f: nat|
                f >= need(old(self).toks().len() as int, old(self).cur(), 6) ==> #[trigger] g_unary(
                    old(self).toks(),
                    old(self).cur(),
                    old(self).prog(),
                    f,
                ) == (Out { cur: final(self).cur(), prog: final(self).prog(), res: rv(r) }),
        decreases old(self).toks().len() - old(self).cur(), 6int,
    {
        let ghost t = self.toks();
        let ghost c0 = self.cur();
        let ghost p0 = self.prog();
        proof {
            self.lemma_toks_len();
        }
        if let Some(op) = unary_operator(&self.tokens[self.current].kind) {
            let start = self.tokens[self.current].span.0;
            self.advance();
            let res = self.unary();
            let ghost rr = rv(res);
            proof {
                assert forall|f: nat| f >= need(t.len() as int, c0, 6) implies #[trigger] g_unary(
                    t,
                    c0,
                    p0,
                    f,
                ) == (match rr {
                    Err(e) => err_out(self.cur(), self.prog(), e),
                    Ok(e) => ok_out(
                        self.cur(),
                        self.prog(),
                        SpecExpression::Unary(
                            unary_op_of(t[c0].kind),
                            Box::new(e),
                            (t[c0].span.0, expr_span(e).1),
                        ),
                    ),
                }) by {
                    assert(f > 0);
                    assert(g_unary(t, c0 + 1, p0, (f - 1) as nat) == (Out {
                        cur: self.cur(),
                        prog: self.prog(),
                        res: rr,
                    }));
                }
            }
            let right = match res {
                Ok(x) => x,
                Err(e) => return Err(e),
            };
            let end = right.get_span().1;
            Ok(Expression::Unary(Box::new(UnaryExpression { op, right, span: (start, end) })))
        } else {
            let r = self.value();
            proof {
                assert forall|f: nat| f >= need(t.len() as int, c0, 6) implies #[trigger] g_unary(
                    t,
                    c0,
                    p0,
                    f,
                ) == (Out { cur: self.cur(), prog: self.prog(), res: rv(r) }) by {
                    assert(f > 0);
                    assert(g_value(t, c0, p0, (f - 1) as nat) == (Out {
                        cur: self.cur(),
                        prog: self.prog(),
                        res: rv(r),
                    }));
                }
            }
            r
        }
    }

    /// A call, a variable access, a number or a parenthesized expression.
    #[verifier::rlimit(40)]
    pub fn value(&mut self) -> (r: Result<Expression, ParsingError>)
        requires
            old(self).wf(),
        ensures
            final(self).wf(),
            final(self).toks() == old(self).toks(),
            old(self).cur() <= final(self).cur(),
            r is Ok ==> old(self).cur() < final(self).cur(),
            forall|f: nat|
                f >= need(old(self).toks().len() as int, old(self).cur(), 5) ==> #[trigger] g_value(
                    old(self).toks(),
                    old(self).cur(),
                    old(self).prog(),
                    f,
                ) == (Out { cur: final(self).cur(), prog: final(self).prog(), res: rv(r) }),
        decreases old(self).toks().len() - old(self).cur(), 5int,
    {
        let ghost t = self.toks();
        let ghost c0 = self.cur();
        let ghost p0 = self.prog();
        let ice = self.freeze();
        let cres = self.call();
        let ghost c1 = self.cur();
        let ghost p1 = self.prog();
        let ghost crr = rv(cres);
        match cres {
            Ok(exp) => {
                let r = Ok(exp);
                proof {
                    assert forall|f: nat| f >= need(t.len() as int, c0, 5) implies #[trigger] g_value(t, c0, p0, f) == (Out { cur: self.cur(), prog: self.prog(), res: rv(r) }) by {
                        assert(f > 0);
                        assert(g_call(t, c0, p0, (f - 1) as nat) == (Out { cur: c1, prog: p1, res: crr }));
                    }
                }
                return r;
            },
            Err(e) => {
                if !e.recoverable {
                    let r = Err(e);
                    proof {
                        assert forall|f: nat| f >= need(t.len() as int, c0, 5) implies #[trigger] g_value(t, c0, p0, f) == (Out { cur: self.cur(), prog: self.prog(), res: rv(r) }) by {
                            assert(f > 0);
                        assert(g_call(t, c0, p0, (f - 1) as nat) == (Out { cur: c1, prog: p1, res: crr }));
                        }
                    }
                    return r;
                }
                self.restore(ice);
            },
        }
        let vres = self.var_access();
        let ghost c2 = self.cur();
        let ghost p2 = self.prog();
        let ghost vrr = rv(vres);
        match vres {
            Ok(va) => {
                let r = Ok(Expression::Identifier(Box::new(va)));
                proof {
                    assert forall|f: nat| f >= need(t.len() as int, c0, 5) implies #[trigger] g_value(t, c0, p0, f) == (Out { cur: self.cur(), prog: self.prog(), res: rv(r) }) by {
                        assert(f > 0);
                        assert(g_call(t, c0, p0, (f - 1) as nat) == (Out { cur: c1, prog: p1, res: crr }));
                        assert(g_var_access(t, c0, p1, (f - 1) as nat) == (Out { cur: c2, prog: p2, res: vrr }));
                    }
                }
                return r;
            },
            Err(e) => {
                if !e.recoverable {
                    let r = Err(e);
                    proof {
                        assert forall|f: nat| f >= need(t.len() as int, c0, 5) implies #[trigger] g_value(t, c0, p0, f) == (Out { cur: self.cur(), prog: self.prog(), res: rv(r) }) by {
                            assert(f > 0);
                        assert(g_call(t, c0, p0, (f - 1) as nat) == (Out { cur: c1, prog: p1, res: crr }));
                        assert(g_var_access(t, c0, p1, (f - 1) as nat) == (Out { cur: c2, prog: p2, res: vrr }));
                        }
                    }
                    return r;
                }
                self.restore(ice);
            },
        }
        proof {
            self.lemma_toks_len();
        }
        let span = self.tokens[self.current].span;
        if let TokenKind::Integer(i) = self.tokens[self.current].kind {
            self.advance();
            let r = Ok(Expression::Int(IntNode { value: i, span }));
            proof {
                assert forall|f: nat| f >= need(t.len() as int, c0, 5) implies #[trigger] g_value(t, c0, p0, f) == (Out { cur: self.cur(), prog: self.prog(), res: rv(r) }) by {
                    assert(f > 0);
                        assert(g_call(t, c0, p0, (f - 1) as nat) == (Out { cur: c1, prog: p1, res: crr }));
                        assert(g_var_access(t, c0, p1, (f - 1) as nat) == (Out { cur: c2, prog: p2, res: vrr }));
                }
            }
            return r;
        }
        if let TokenKind::Decimal(d) = &self.tokens[self.current].kind {
            let data = copy_bytes(d);
            self.advance();
            let r = Ok(Expression::Float(FloatNode { value: data, span }));
            proof {
                assert forall|f: nat| f >= need(t.len() as int, c0, 5) implies #[trigger] g_value(t, c0, p0, f) == (Out { cur: self.cur(), prog: self.prog(), res: rv(r) }) by {
                    assert(f > 0);
                        assert(g_call(t, c0, p0, (f - 1) as nat) == (Out { cur: c1, prog: p1, res: crr }));
                        assert(g_var_access(t, c0, p1, (f - 1) as nat) == (Out { cur: c2, prog: p2, res: vrr }));
                }
            }
            return r;
        }
        if let TokenKind::ParenOpen = self.tokens[self.current].kind {
            let r = self.parentheses();
            proof {
                assert forall|f: nat| f >= need(t.len() as int, c0, 5) implies #[trigger] g_value(t, c0, p0, f) == (Out { cur: self.cur(), prog: self.prog(), res: rv(r) }) by {
                    assert(f > 0);
                        assert(g_call(t, c0, p0, (f - 1) as nat) == (Out { cur: c1, prog: p1, res: crr }));
                        assert(g_var_access(t, c0, p1, (f - 1) as nat) == (Out { cur: c2, prog: p2, res: vrr }));
                    assert(g_parentheses(t, c0, p2, (f - 1) as nat) == (Out { cur: self.cur(), prog: self.prog(), res: rv(r) }));
                }
            }
            return r;
        }
        let expected = vec![
            ParsePossibility::Call,
            ParsePossibility::VariableAccess,
            ParsePossibility::Integer,
            ParsePossibility::Decimal,
        ];
        let r = Err(
            ParsingError::from_token(
                ParsingErrorKind::ExpectedOneOf(expected),
                self.current,
                true,
            ),
        );
        proof {
            assert forall|f: nat| f >= need(t.len() as int, c0, 5) implies #[trigger] g_value(t, c0, p0, f) == (Out { cur: self.cur(), prog: self.prog(), res: rv(r) }) by {
                assert(f > 0);
                        assert(g_call(t, c0, p0, (f - 1) as nat) == (Out { cur: c1, prog: p1, res: crr }));
                        assert(g_var_access(t, c0, p1, (f - 1) as nat) == (Out { cur: c2, prog: p2, res: vrr }));
            }
        }
        r
    }

    /// `NAME ( ARGUMENTS )`.
    pub fn call(&mut self) -> (r: Result<Expression, ParsingError>)
        requires
            old(self).wf(),
        ensures
            final(self).wf(),
            final(self).toks() == old(self).toks(),
            old(self).cur() <= final(self).cur(),
            r is Ok ==> old(self).cur() < final(self).cur(),
            forall|f: nat|
                f >= need(old(self).toks().len() as int, old(self).cur(), 4) ==> #[trigger] g_call(
                    old(self).toks(),
                    old(self).cur(),
                    old(self).prog(),
                    f,
                ) == (Out { cur: final(self).cur(), prog: final(self).prog(), res: rv(r) }),
        decreases old(self).toks().len() - old(self).cur(), 4int,
    {
        let ghost t = self.toks();
        let ghost c0 = self.cur();
        let ghost p0 = self.prog();
        let ires = self.ident();
        let ghost c1 = self.cur();
        let ghost p1 = self.prog();
        let ident = match ires {
            Ok(i) => i,
            Err(e) => {
                let r = Err(e);
                proof {
                    assert forall|f: nat| f >= need(t.len() as int, c0, 4) implies #[trigger] g_call(t, c0, p0, f) == (Out { cur: self.cur(), prog: self.prog(), res: rv(r) }) by {}
                }
                return r;
            },
        };
        let pres = self.consume(TokenKind::ParenOpen);
        let ghost c2 = self.cur();
        let ghost p2 = self.prog();
        if let Err(e) = pres {
            let r = Err(e);
            proof {
                assert forall|f: nat| f >= need(t.len() as int, c0, 4) implies #[trigger] g_call(t, c0, p0, f) == (Out { cur: self.cur(), prog: self.prog(), res: rv(r) }) by {}
            }
            return r;
        }
        let lres = self.expression_list();
        let ghost c3 = self.cur();
        let ghost p3 = self.prog();
        let ghost lrr = rv_exprs(lres);
        let params = match lres {
            Ok(p) => p,
            Err(e) => {
                let r = Err(e);
                proof {
                    assert forall|f: nat| f >= need(t.len() as int, c0, 4) implies #[trigger] g_call(t, c0, p0, f) == (Out { cur: self.cur(), prog: self.prog(), res: rv(r) }) by {
                        assert(f > 0);
                        assert((f - 1) as nat >= need(t.len() as int, c2, 14));
                        assert(g_expression_list(t, c2, p2, (f - 1) as nat) == (Out { cur: c3, prog: p3, res: lrr }));
                    }
                }
                return r;
            },
        };
        let qres = self.consume(TokenKind::ParenClose);
        if let Err(e) = qres {
            let r = Err(e);
            proof {
                assert forall|f: nat| f >= need(t.len() as int, c0, 4) implies #[trigger] g_call(t, c0, p0, f) == (Out { cur: self.cur(), prog: self.prog(), res: rv(r) }) by {
                    assert(f > 0);
                    assert((f - 1) as nat >= need(t.len() as int, c2, 14));
                    assert(g_expression_list(t, c2, p2, (f - 1) as nat) == (Out { cur: c3, prog: p3, res: lrr }));
                }
            }
            return r;
        }
        proof {
            self.lemma_toks_len();
        }
        let end = self.tokens[self.current - 1].span.1;
        let span = (ident.span.0, end);
        let r = Ok(Expression::Call(Box::new(Call { func: ident, params, span })));
        proof {
            assert forall|f: nat| f >= need(t.len() as int, c0, 4) implies #[trigger] g_call(t, c0, p0, f) == (Out { cur: self.cur(), prog: self.prog(), res: rv(r) }) by {
                assert(f > 0);
                assert((f - 1) as nat >= need(t.len() as int, c2, 14));
                assert(g_expression_list(t, c2, p2, (f - 1) as nat) == (Out { cur: c3, prog: p3, res: lrr }));
            }
        }
        r
    }

    /// Expressions separated by commas, up to a `)`.
    pub fn expression_list(&mut self) -> (r: Result<Vec<Expression>, ParsingError>)
        requires
            old(self).wf(),
        ensures
            final(self).wf(),
            final(self).toks() == old(self).toks(),
            old(self).cur() <= final(self).cur(),
            
            forall|f: nat|
                f >= need(old(self).toks().len() as int, old(self).cur(), 14) ==> #[trigger] g_expression_list(
                    old(self).toks(),
                    old(self).cur(),
                    old(self).prog(),
                    f,
                ) == (Out { cur: final(self).cur(), prog: final(self).prog(), res: rv_exprs(r) }),
        decreases old(self).toks().len() - old(self).cur(), 14int,
    {
        let ghost t = self.toks();
        let ghost c0 = self.cur();
        let ghost p0 = self.prog();
        let mut expressions: Vec<Expression> = Vec::new();
        let ghost mut i: int = 0;
        assert(exprs_view(expressions@) =~= seq![]);
        loop
            invariant
                t == old(self).toks(),
                c0 == old(self).cur(),
                p0 == old(self).prog(),
                self.wf(),
                self.toks() == t,
                0 <= i,
                self.cur() >= c0 + 2 * i,
                forall|f: nat|
                    f >= need(t.len() as int, c0, 14) ==> #[trigger] g_expression_list(
                        t,
                        c0,
                        p0,
                        f,
                    ) == g_expression_list_loop(
                        t,
                        self.cur(),
                        self.prog(),
                        exprs_view(expressions@),
                        (f - 1 - i) as nat,
                    ),
            decreases t.len() - self.cur(),
        {
            let ghost cc = self.cur();
            let ghost pp = self.prog();
            let ghost acc = exprs_view(expressions@);
            if self.check(TokenKind::ParenClose) {
                let r = Ok(expressions);
                proof {
                    assert forall|f: nat| f >= need(t.len() as int, c0, 14) implies #[trigger] g_expression_list(t, c0, p0, f) == (Out { cur: self.cur(), prog: self.prog(), res: rv_exprs(r) }) by {
                        assert((f - 1 - i) as nat > 0);
                    }
                }
                return r;
            }
            let eres = self.expression();
            let ghost err = rv(eres);
            proof {
                self.lemma_toks_len();
                assert forall|f: nat| f >= need(t.len() as int, c0, 14) implies #[trigger] g_expression_list(t, c0, p0, f) == (match err {
                    Err(e) => err_out(self.cur(), self.prog(), e),
                    Ok(e) => if self.cur() < t.len() && t[self.cur()].kind is Comma {
                        g_expression_list_loop(t, self.cur() + 1, self.prog(), acc.push(e), (f - 1 - (i + 1)) as nat)
                    } else {
                        ok_out(self.cur(), self.prog(), acc.push(e))
                    },
                }) by {
                    assert((f - 1 - i) as nat > 0);
                    assert((f - 2 - i) as nat >= need(t.len() as int, cc, 12));
                    assert(g_expression(t, cc, pp, (f - 2 - i) as nat) == (Out { cur: self.cur(), prog: self.prog(), res: err }));
                }
            }
            let e = match eres {
                Ok(e) => e,
                Err(e) => return Err(e),
            };
            let ghost before = expressions@;
            expressions.push(e);
            proof {
                lemma_exprs_view_push(before, e);
            }
            if let TokenKind::Comma = self.tokens[self.current].kind {
                self.advance();
            } else {
                return Ok(expressions);
            }
            proof {
                i = i + 1;
            }
        }
    }

    /// `( EXPRESSION )`.
    fn parentheses(&mut self) -> (r: Result<Expression, ParsingError>)
        requires
            old(self).wf(),
        ensures
            final(self).wf(),
            final(self).toks() == old(self).toks(),
            old(self).cur() <= final(self).cur(),
            r is Ok ==> old(self).cur() < final(self).cur(),
            forall|f: nat|
                f >= need(old(self).toks().len() as int, old(self).cur(), 2) ==> #[trigger] g_parentheses(
                    old(self).toks(),
                    old(self).cur(),
                    old(self).prog(),
                    f,
                ) == (Out { cur: final(self).cur(), prog: final(self).prog(), res: rv(r) }),
        decreases old(self).toks().len() - old(self).cur(), 2int,
    {
        let ghost t = self.toks();
        let ghost c0 = self.cur();
        let ghost p0 = self.prog();
        let pres = self.consume(TokenKind::ParenOpen);
        let ghost c1 = self.cur();
        let ghost p1 = self.prog();
        if let Err(e) = pres {
            let r = Err(e);
            proof {
                assert forall|f: nat| f >= need(t.len() as int, c0, 2) implies #[trigger] g_parentheses(t, c0, p0, f) == (Out { cur: self.cur(), prog: self.prog(), res: rv(r) }) by {}
            }
            return r;
        }
        let expr = self.expression();
        let ghost c2 = self.cur();
        let ghost p2 = self.prog();
        let ghost err = rv(expr);
        proof {
            self.lemma_toks_len();
        }
        let r = match expr {
            Err(_) => Err(
                ParsingError::from_token(
                    ParsingErrorKind::Expected(ParsePossibility::Expression),
                    self.current + 1,
                    false,
                ),
            ),
            Ok(e) => match self.consume(TokenKind::ParenClose) {
                Ok(_) => Ok(e),
                Err(e2) => Err(e2),
            },
        };
        proof {
            assert forall|f: nat| f >= need(t.len() as int, c0, 2) implies #[trigger] g_parentheses(t, c0, p0, f) == (Out { cur: self.cur(), prog: self.prog(), res: rv(r) }) by {
                assert(f > 0);
                assert((f - 1) as nat >= need(t.len() as int, c1, 12));
                assert(g_expression(t, c1, p1, (f - 1) as nat) == (Out { cur: c2, prog: p2, res: err }));
            }
        }
        r
    }

    /// `NAME` or `INSTANCE.NAME`, optionally followed by `[INDEX]`.
    pub fn var_access(&mut self) -> (r: Result<VarAccess, ParsingError>)
        requires
            old(self).wf(),
        ensures
            final(self).wf(),
            final(self).toks() == old(self).toks(),
            old(self).cur() <= final(self).cur(),
            r is Ok ==> old(self).cur() < final(self).cur(),
            forall|f: nat|
                f >= need(old(self).toks().len() as int, old(self).cur(), 3) ==> #[trigger] g_var_access(
                    old(self).toks(),
                    old(self).cur(),
                    old(self).prog(),
                    f,
                ) == (Out { cur: final(self).cur(), prog: final(self).prog(), res: rv(r) }),
        decreases old(self).toks().len() - old(self).cur(), 3int,
    {
        let ghost t = self.toks();
        let ghost c0 = self.cur();
        let ghost p0 = self.prog();
        let ires = self.ident();
        let ident = match ires {
            Ok(i) => i,
            Err(e) => {
                let r = Err(e);
                proof {
                    assert forall|f: nat| f >= need(t.len() as int, c0, 3) implies #[trigger] g_var_access(t, c0, p0, f) == (Out { cur: self.cur(), prog: self.prog(), res: rv(r) }) by {}
                }
                return r;
            },
        };
        let span_start = ident.span.0;
        proof {
            self.lemma_toks_len();
        }
        let period = if let TokenKind::Period = self.tokens[self.current].kind {
            true
        } else {
            false
        };
        let (name, instance) = if period {
            self.advance();
            match self.ident() {
                Ok(ident2) => (ident2, Some(ident)),
                Err(e) => {
                    let mut e = e;
                    e.recoverable = false;
                    let r = Err(e);
                    proof {
                        assert forall|f: nat| f >= need(t.len() as int, c0, 3) implies #[trigger] g_var_access(t, c0, p0, f) == (Out { cur: self.cur(), prog: self.prog(), res: rv(r) }) by {}
                    }
                    return r;
                },
            }
        } else {
            (ident, None)
        };
        let ghost c1 = self.cur();
        let ghost p1 = self.prog();
        let mut span_end = name.span.1;
        proof {
            self.lemma_toks_len();
        }
        let square = if let TokenKind::SquareOpen = self.tokens[self.current].kind {
            true
        } else {
            false
        };
        if !square {
            let r = Ok(VarAccess { name, instance, index: None, span: (span_start, span_end) });
            proof {
                assert forall|f: nat| f >= need(t.len() as int, c0, 3) implies #[trigger] g_var_access(t, c0, p0, f) == (Out { cur: self.cur(), prog: self.prog(), res: rv(r) }) by {}
            }
            return r;
        }
        self.advance();
        let exp = self.expression();
        let ghost c2 = self.cur();
        let ghost p2 = self.prog();
        let ghost err = rv(exp);
        proof {
            assert forall|f: nat| f >= need(t.len() as int, c0, 3) implies #[trigger] g_var_access(t, c0, p0, f) == (match err {
                Err(_) => err_out(
                    c2,
                    p2,
                    spec_error(SpecParsingErrorKind::Expected(ParsePossibility::Expression), c2, false),
                ),
                Ok(ix) => {
                    let cr = g_consume(t, c2, p2, SpecTokenKind::SquareClose);
                    match cr.res {
                        Err(e) => err_out(cr.cur, cr.prog, e),
                        Ok(_) => ok_out(
                            cr.cur,
                            cr.prog,
                            SpecVarAccess {
                                name: name@,
                                instance: opt_ident_view(instance),
                                index: Some(ix),
                                span: (span_start as int, t[cr.cur - 1].span.1),
                            },
                        ),
                    }
                },
            }) by {
                assert(f > 0);
                assert((f - 1) as nat >= need(t.len() as int, c1 + 1, 12));
                assert(g_expression(t, c1 + 1, p1, (f - 1) as nat) == (Out { cur: c2, prog: p2, res: err }));
            }
        }
        let e = match exp {
            Err(_) => {
                return Err(
                    ParsingError::from_token(
                        ParsingErrorKind::Expected(ParsePossibility::Expression),
                        self.current,
                        false,
                    ),
                );
            },
            Ok(e) => e,
        };
        match self.consume(TokenKind::SquareClose) {
            Ok(_) => {},
            Err(e2) => return Err(e2),
        }
        proof {
            self.lemma_toks_len();
        }
        span_end = self.tokens[self.current - 1].span.1;
        Ok(VarAccess { name, instance, index: Some(e), span: (span_start, span_end) })
    }
}


impl Parser {
    /// Declarations, each followed by `;`, up to the end of the file.
    pub fn start(&mut self) -> (r: Result<Vec<Declaration>, ParsingError>)
        requires
            old(self).wf(),
        ensures
            final(self).wf(),
            final(self).toks() == old(self).toks(),
            old(self).cur() <= final(self).cur(),
            forall|f: nat|
                f >= need(old(self).toks().len() as int, old(self).cur(), 27) ==> #[trigger] g_start(
                    old(self).toks(),
                    old(self).cur(),
                    old(self).prog(),
                    f,
                ) == (Out { cur: final(self).cur(), prog: final(self).prog(), res: rv_decls(r) }),
    {
        let ghost t = self.toks();
        let ghost c0 = self.cur();
        let ghost p0 = self.prog();
        proof {
            self.lemma_wf();
        }
        let mut decls: Vec<Declaration> = Vec::new();
        let ghost mut i: int = 0;
        proof {
            assert(decls_view(decls@) =~= seq![]);
        }
        loop
            invariant
                t == old(self).toks(),
                c0 == old(self).cur(),
                p0 == old(self).prog(),
                self.wf(),
                self.toks() == t,
                c0 < t.len(),
                0 <= i,
                self.cur() >= c0 + i,
                forall|f: nat|
                    f >= need(t.len() as int, c0, 27) ==> #[trigger] g_start(t, c0, p0, f)
                        == g_start_loop(t, self.cur(), self.prog(), decls_view(decls@), (f - 1 - i) as nat),
            decreases t.len() - self.cur(),
        {
            let ghost cc = self.cur();
            let ghost pp = self.prog();
            let ghost acc = decls_view(decls@);
            proof {
                self.lemma_wf();
            }
            if self.check(TokenKind::EOF) {
                let r = Ok(decls);
                proof {
                    assert forall|f: nat| f >= need(t.len() as int, c0, 27) implies #[trigger] g_start(t, c0, p0, f) == (Out { cur: self.cur(), prog: self.prog(), res: rv_decls(r) }) by {
                        assert((f - 1 - i) as nat > 0);
                    }
                }
                return r;
            }
            let gres = self.global_declaration();
            let ghost c1 = self.cur();
            let ghost p1 = self.prog();
            let ghost gr = rv(gres);
            let d = match gres {
                Ok(d) => d,
                Err(e) => {
                    let r = Err(e);
                    proof {
                        assert forall|f: nat| f >= need(t.len() as int, c0, 27) implies #[trigger] g_start(t, c0, p0, f) == (Out { cur: self.cur(), prog: self.prog(), res: rv_decls(r) }) by {
                            assert((f - 1 - i) as nat > 0);
                            assert((f - 2 - i) as nat >= need(t.len() as int, cc, 25));
                            assert(g_global_declaration(t, cc, pp, (f - 2 - i) as nat) == (Out { cur: c1, prog: p1, res: gr }));
                        }
                    }
                    return r;
                },
            };
            let ghost before = decls@;
            decls.push(d);
            proof {
                assert(decls_view(decls@) =~= acc.push(d@));
            }
            if let Err(e) = self.consume(TokenKind::Semicolon) {
                let r = Err(e);
                proof {
                    assert forall|f: nat| f >= need(t.len() as int, c0, 27) implies #[trigger] g_start(t, c0, p0, f) == (Out { cur: self.cur(), prog: self.prog(), res: rv_decls(r) }) by {
                        assert((f - 1 - i) as nat > 0);
                        assert((f - 2 - i) as nat >= need(t.len() as int, cc, 25));
                        assert(g_global_declaration(t, cc, pp, (f - 2 - i) as nat) == (Out { cur: c1, prog: p1, res: gr }));
                    }
                }
                return r;
            }
            proof {
                assert forall|f: nat| f >= need(t.len() as int, c0, 27) implies #[trigger] g_start(t, c0, p0, f) == g_start_loop(t, self.cur(), self.prog(), decls_view(decls@), (f - 1 - (i + 1)) as nat) by {
                    assert((f - 1 - i) as nat > 0);
                    assert((f - 2 - i) as nat >= need(t.len() as int, cc, 25));
                    assert(g_global_declaration(t, cc, pp, (f - 2 - i) as nat) == (Out { cur: c1, prog: p1, res: gr }));
                }
                self.lemma_wf();
                i = i + 1;
            }
        }
    }
}

} // verus!
