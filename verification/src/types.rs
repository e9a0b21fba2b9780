//! The syntax tree of Daedalus programs, and constant evaluation of expressions.
use vstd::prelude::*;

verus! {

pub open spec fn span_view(s: (usize, usize)) -> (int, int) {
    (s.0 as int, s.1 as int)
}

/// A byte string, as found in identifiers and string literals.
#[derive(Debug, PartialEq)]
pub struct PrintableByteVec(pub Vec<u8>);

/// A name together with the span it was written at.
#[derive(Debug, PartialEq)]
pub struct Identifier {
    pub name: PrintableByteVec,
    pub span: (usize, usize),
}

pub struct SpecIdentifier {
    pub name: Seq<u8>,
    pub span: (int, int),
}

impl View for Identifier {
    type V = SpecIdentifier;

    open spec fn view(&self) -> SpecIdentifier {
        SpecIdentifier { name: self.name.0@, span: span_view(self.span) }
    }
}

pub open spec fn opt_ident_view(o: Option<Identifier>) -> Option<SpecIdentifier> {
    match o {
        Some(i) => Some(i@),
        None => None,
    }
}

impl Identifier {
    pub fn new(name: &[u8], span: (usize, usize)) -> (r: Identifier)
        ensures
            r@ == (SpecIdentifier { name: name@, span: span_view(span) }),
    {
        Identifier { name: PrintableByteVec(vstd::slice::slice_to_vec(name)), span }
    }

    pub fn as_bytes(&self) -> (b: &[u8])
        ensures
            b@ == self@.name,
    {
        self.name.0.as_slice()
    }

    pub fn duplicate(&self) -> (r: Identifier)
        ensures
            r@ == self@,
    {
        Identifier::new(self.name.0.as_slice(), self.span)
    }
}

#[derive(Debug, PartialEq)]
pub struct IntNode {
    pub value: i64,
    pub span: (usize, usize),
}

/// A decimal literal, kept as the text it was written with.
#[derive(Debug, PartialEq)]
pub struct FloatNode {
    pub value: Vec<u8>,
    pub span: (usize, usize),
}

#[derive(Debug, PartialEq)]
pub struct StringLiteral {
    pub data: PrintableByteVec,
    pub span: (usize, usize),
}

impl StringLiteral {
    pub fn new(data: &[u8], span: (usize, usize)) -> (r: StringLiteral)
        ensures
            r.data.0@ == data@,
            r.span == span,
    {
        StringLiteral { data: PrintableByteVec(vstd::slice::slice_to_vec(data)), span }
    }
}

#[derive(Debug, Clone, Copy, PartialEq, Eq)]
pub enum BinaryOperator {
    Plus,
    Minus,
    Multiply,
    Divide,
    Modulo,
    ShiftLeft,
    ShiftRight,
    BitAnd,
    BitOr,
    Lower,
    LowerEquals,
    Greater,
    GreaterEquals,
    Equals,
    NotEquals,
    And,
    Or,
}

#[derive(Debug, Clone, Copy, PartialEq, Eq)]
pub enum UnaryOperator {
    /// `+`
    Plus,
    /// `-`
    Minus,
    /// `!`
    Not,
    /// `~`
    Flip,
}

#[derive(Debug, Clone, Copy, PartialEq, Eq)]
pub enum AssignmentOperator {
    PlusEq,
    MinusEq,
    MultiplyEq,
    DivideEq,
    Eq,
}

#[derive(Debug, PartialEq)]
pub struct Call {
    pub func: Identifier,
    pub params: Vec<Expression>,
    pub span: (usize, usize),
}

#[derive(Debug, PartialEq)]
pub struct BinaryExpression {
    pub op: BinaryOperator,
    pub left: Expression,
    pub right: Expression,
    pub span: (usize, usize),
}

impl BinaryExpression {
    pub fn new(op: BinaryOperator, left: Expression, right: Expression, span: (usize, usize)) -> (r:
        BinaryExpression)
        ensures
            r == (BinaryExpression { op, left, right, span }),
    {
        BinaryExpression { op, left, right, span }
    }
}

#[derive(Debug, PartialEq)]
pub struct UnaryExpression {
    pub op: UnaryOperator,
    pub right: Expression,
    pub span: (usize, usize),
}

pub open spec fn unary_op_of_byte(b: u8) -> UnaryOperator {
    if b == 43 {
        UnaryOperator::Plus
    } else if b == 45 {
        UnaryOperator::Minus
    } else if b == 33 {
        UnaryOperator::Not
    } else {
        UnaryOperator::Flip
    }
}

impl UnaryExpression {
    /// Builds a unary expression from its operator character: one of `+ - ! ~`.
    pub fn new(op: u8, right: Expression, span: (usize, usize)) -> (r: UnaryExpression)
        requires
            op == 43 || op == 45 || op == 33 || op == 126,
        ensures
            r == (UnaryExpression { op: unary_op_of_byte(op), right, span }),
    {
        let op = if op == 43 {
            UnaryOperator::Plus
        } else if op == 45 {
            UnaryOperator::Minus
        } else if op == 33 {
            UnaryOperator::Not
        } else {
            UnaryOperator::Flip
        };
        UnaryExpression { op, right, span }
    }
}

/// An access to a variable, possibly a member of an instance, possibly indexed.
#[derive(Debug, PartialEq)]
pub struct VarAccess {
    pub name: Identifier,
    pub instance: Option<Identifier>,
    pub index: Option<Expression>,
    pub span: (usize, usize),
}

impl VarAccess {
    /// `first.second[index]` when `second` is given (then `first` is the instance),
    /// `first[index]` otherwise.
    pub fn new(
        first: Identifier,
        second: Option<Identifier>,
        index: Option<Expression>,
        span: (usize, usize),
    ) -> (r: VarAccess)
        ensures
            r == (match second {
                Some(s) => VarAccess { name: s, instance: Some(first), index, span },
                None => VarAccess { name: first, instance: None, index, span },
            }),
    {
        match second {
            Some(s) => VarAccess { name: s, instance: Some(first), index, span },
            None => VarAccess { name: first, instance: None, index, span },
        }
    }
}

#[derive(Debug, PartialEq)]
pub enum Expression {
    Int(IntNode),
    Float(FloatNode),
    String(StringLiteral),
    Call(Box<Call>),
    Binary(Box<BinaryExpression>),
    Unary(Box<UnaryExpression>),
    Identifier(Box<VarAccess>),
}

/// The mathematical value of an expression.
pub enum SpecExpression {
    Int(i64, (int, int)),
    Float(Seq<u8>, (int, int)),
    String(Seq<u8>, (int, int)),
    Call(SpecIdentifier, Seq<SpecExpression>, (int, int)),
    Binary(BinaryOperator, Box<SpecExpression>, Box<SpecExpression>, (int, int)),
    Unary(UnaryOperator, Box<SpecExpression>, (int, int)),
    Var(SpecIdentifier, Option<SpecIdentifier>, Option<Box<SpecExpression>>, (int, int)),
}

pub open spec fn expr_view(e: Expression) -> SpecExpression
    decreases e,
{
    match e {
        Expression::Int(n) => SpecExpression::Int(n.value, span_view(n.span)),
        Expression::Float(f) => SpecExpression::Float(f.value@, span_view(f.span)),
        Expression::String(s) => SpecExpression::String(s.data.0@, span_view(s.span)),
        Expression::Call(c) => SpecExpression::Call(
            c.func@,
            exprs_view(c.params@),
            span_view(c.span),
        ),
        Expression::Binary(b) => SpecExpression::Binary(
            b.op,
            Box::new(expr_view(b.left)),
            Box::new(expr_view(b.right)),
            span_view(b.span),
        ),
        Expression::Unary(u) => SpecExpression::Unary(
            u.op,
            Box::new(expr_view(u.right)),
            span_view(u.span),
        ),
        Expression::Identifier(v) => SpecExpression::Var(
            v.name@,
            opt_ident_view(v.instance),
            match v.index {
                Some(ix) => Some(Box::new(expr_view(ix))),
                None => None,
            },
            span_view(v.span),
        ),
    }
}

pub open spec fn exprs_view(s: Seq<Expression>) -> Seq<SpecExpression>
    decreases s,
{
    if s.len() == 0 {
        seq![]
    } else {
        exprs_view(s.drop_last()).push(expr_view(s.last()))
    }
}

pub open spec fn opt_expr_view(o: Option<Expression>) -> Option<SpecExpression> {
    match o {
        Some(e) => Some(expr_view(e)),
        None => None,
    }
}

impl View for Expression {
    type V = SpecExpression;

    open spec fn view(&self) -> SpecExpression {
        expr_view(*self)
    }
}

pub proof fn lemma_exprs_view_push(s: Seq<Expression>, e: Expression)
    ensures
        exprs_view(s.push(e)) == exprs_view(s).push(expr_view(e)),
{
    assert(s.push(e).drop_last() =~= s);
}

pub proof fn lemma_exprs_view_len(s: Seq<Expression>)
    ensures
        exprs_view(s).len() == s.len(),
        forall|i: int| 0 <= i < s.len() ==> #[trigger] exprs_view(s)[i] == expr_view(s[i]),
    decreases s.len(),
{
    if s.len() > 0 {
        lemma_exprs_view_len(s.drop_last());
        assert forall|i: int| 0 <= i < s.len() implies #[trigger] exprs_view(s)[i] == expr_view(
            s[i],
        ) by {
            if i < s.len() - 1 {
                assert(s.drop_last()[i] == s[i]);
            }
        }
    }
}

pub open spec fn expr_span(e: SpecExpression) -> (int, int) {
    match e {
        SpecExpression::Int(_, s) => s,
        SpecExpression::Float(_, s) => s,
        SpecExpression::String(_, s) => s,
        SpecExpression::Call(_, _, s) => s,
        SpecExpression::Binary(_, _, _, s) => s,
        SpecExpression::Unary(_, _, s) => s,
        SpecExpression::Var(_, _, _, s) => s,
    }
}

impl Expression {
    /// The span the expression was written at.
    pub fn get_span(&self) -> (s: (usize, usize))
        ensures
            span_view(s) == expr_span(self@),
    {
        match self {
            Expression::Int(n) => n.span,
            Expression::Float(f) => f.span,
            Expression::String(s) => s.span,
            Expression::Call(c) => c.span,
            Expression::Binary(b) => b.span,
            Expression::Unary(u) => u.span,
            Expression::Identifier(v) => v.span,
        }
    }
}

// ------------------------------------------------------------------
// Constant evaluation
// ------------------------------------------------------------------

/// Why an expression has no integer value.
#[derive(Debug, Clone, Copy, PartialEq, Eq)]
pub enum EvaluationError {
    /// Calls, variables, strings and decimals have no constant integer value.
    NotConstant,
    /// The result does not fit in an `i64`, or a shift is not by 0 to 63.
    Overflow,
    /// Division or remainder by zero.
    DivisionByZero,
}

pub open spec fn bool_int(b: bool) -> i64 {
    if b {
        1
    } else {
        0
    }
}

pub open spec fn checked_or(o: Option<i64>) -> Result<i64, EvaluationError> {
    match o {
        Some(v) => Ok(v),
        None => Err(EvaluationError::Overflow),
    }
}

/// The value of `a op b` on 64-bit integers. Division and remainder round toward zero as
/// in Rust; comparisons and logical operators give 1 or 0.
pub open spec fn apply_binary(op: BinaryOperator, a: i64, b: i64) -> Result<i64, EvaluationError> {
    match op {
        BinaryOperator::Plus => checked_or(a.checked_add(b)),
        BinaryOperator::Minus => checked_or(a.checked_sub(b)),
        BinaryOperator::Multiply => checked_or(a.checked_mul(b)),
        BinaryOperator::Divide => if b == 0 {
            Err(EvaluationError::DivisionByZero)
        } else {
            checked_or(a.checked_div(b))
        },
        BinaryOperator::Modulo => if b == 0 {
            Err(EvaluationError::DivisionByZero)
        } else {
            checked_or(a.checked_rem(b))
        },
        BinaryOperator::ShiftLeft => if 0 <= b < 64 {
            Ok(a << (b as u32))
        } else {
            Err(EvaluationError::Overflow)
        },
        BinaryOperator::ShiftRight => if 0 <= b < 64 {
            Ok(a >> (b as u32))
        } else {
            Err(EvaluationError::Overflow)
        },
        BinaryOperator::BitAnd => Ok(a & b),
        BinaryOperator::BitOr => Ok(a | b),
        BinaryOperator::Lower => Ok(bool_int(a < b)),
        BinaryOperator::LowerEquals => Ok(bool_int(a <= b)),
        BinaryOperator::Greater => Ok(bool_int(a > b)),
        BinaryOperator::GreaterEquals => Ok(bool_int(a >= b)),
        BinaryOperator::Equals => Ok(bool_int(a == b)),
        BinaryOperator::NotEquals => Ok(bool_int(a != b)),
        BinaryOperator::And => Ok(bool_int(a != 0 && b != 0)),
        BinaryOperator::Or => Ok(bool_int(a != 0 || b != 0)),
    }
}

/// The value of `op a`: `!` gives 1 for 0 and 0 otherwise, `~` flips all bits.
pub open spec fn apply_unary(op: UnaryOperator, a: i64) -> Result<i64, EvaluationError> {
    match op {
        UnaryOperator::Plus => Ok(a),
        UnaryOperator::Minus => checked_or(0i64.checked_sub(a)),
        UnaryOperator::Not => Ok(bool_int(a == 0)),
        UnaryOperator::Flip => Ok(!a),
    }
}

/// The integer value of a constant expression; the left operand is evaluated first.
pub open spec fn spec_evaluate(e: SpecExpression) -> Result<i64, EvaluationError>
    decreases e,
{
    match e {
        SpecExpression::Int(v, _) => Ok(v),
        SpecExpression::Unary(op, r, _) => match spec_evaluate(*r) {
            Ok(v) => apply_unary(op, v),
            Err(err) => Err(err),
        },
        SpecExpression::Binary(op, l, r, _) => match spec_evaluate(*l) {
            Err(err) => Err(err),
            Ok(a) => match spec_evaluate(*r) {
                Err(err) => Err(err),
                Ok(b) => apply_binary(op, a, b),
            },
        },
        _ => Err(EvaluationError::NotConstant),
    }
}

fn exec_apply_binary(op: BinaryOperator, a: i64, b: i64) -> (r: Result<i64, EvaluationError>)
    ensures
        r == apply_binary(op, a, b),
{
    match op {
        BinaryOperator::Plus => match a.checked_add(b) {
            Some(v) => Ok(v),
            None => Err(EvaluationError::Overflow),
        },
        BinaryOperator::Minus => match a.checked_sub(b) {
            Some(v) => Ok(v),
            None => Err(EvaluationError::Overflow),
        },
        BinaryOperator::Multiply => match a.checked_mul(b) {
            Some(v) => Ok(v),
            None => Err(EvaluationError::Overflow),
        },
        BinaryOperator::Divide => if b == 0 {
            Err(EvaluationError::DivisionByZero)
        } else {
            match a.checked_div(b) {
                Some(v) => Ok(v),
                None => Err(EvaluationError::Overflow),
            }
        },
        BinaryOperator::Modulo => if b == 0 {
            Err(EvaluationError::DivisionByZero)
        } else {
            match a.checked_rem(b) {
                Some(v) => Ok(v),
                None => Err(EvaluationError::Overflow),
            }
        },
        BinaryOperator::ShiftLeft => if 0 <= b && b < 64 {
            Ok(a << (b as u32))
        } else {
            Err(EvaluationError::Overflow)
        },
        BinaryOperator::ShiftRight => if 0 <= b && b < 64 {
            Ok(a >> (b as u32))
        } else {
            Err(EvaluationError::Overflow)
        },
        BinaryOperator::BitAnd => Ok(a & b),
        BinaryOperator::BitOr => Ok(a | b),
        BinaryOperator::Lower => Ok(if a < b { 1 } else { 0 }),
        BinaryOperator::LowerEquals => Ok(if a <= b { 1 } else { 0 }),
        BinaryOperator::Greater => Ok(if a > b { 1 } else { 0 }),
        BinaryOperator::GreaterEquals => Ok(if a >= b { 1 } else { 0 }),
        BinaryOperator::Equals => Ok(if a == b { 1 } else { 0 }),
        BinaryOperator::NotEquals => Ok(if a != b { 1 } else { 0 }),
        BinaryOperator::And => Ok(if a != 0 && b != 0 { 1 } else { 0 }),
        BinaryOperator::Or => Ok(if a != 0 || b != 0 { 1 } else { 0 }),
    }
}

fn exec_apply_unary(op: UnaryOperator, a: i64) -> (r: Result<i64, EvaluationError>)
    ensures
        r == apply_unary(op, a),
{
    match op {
        UnaryOperator::Plus => Ok(a),
        UnaryOperator::Minus => match 0i64.checked_sub(a) {
            Some(v) => Ok(v),
            None => Err(EvaluationError::Overflow),
        },
        UnaryOperator::Not => Ok(if a == 0 { 1 } else { 0 }),
        UnaryOperator::Flip => Ok(!a),
    }
}

impl Expression {
    /// Evaluates a constant integer expression.
    pub fn evaluate_int(&self) -> (r: Result<i64, EvaluationError>)
        ensures
            r == spec_evaluate(self@),
        decreases self,
    {
        match self {
            Expression::Int(n) => Ok(n.value),
            Expression::Unary(u) => match u.right.evaluate_int() {
                Ok(v) => exec_apply_unary(u.op, v),
                Err(e) => Err(e),
            },
            Expression::Binary(b) => match b.left.evaluate_int() {
                Err(e) => Err(e),
                Ok(l) => match b.right.evaluate_int() {
                    Err(e) => Err(e),
                    Ok(r) => exec_apply_binary(b.op, l, r),
                },
            },
            _ => Err(EvaluationError::NotConstant),
        }
    }
}


// ------------------------------------------------------------------
// Statements and declarations
// ------------------------------------------------------------------

#[derive(Debug, PartialEq)]
pub enum ArraySizeDeclaration {
    Size(i64),
    Identifier(Identifier),
}

pub enum SpecArraySize {
    Size(i64),
    Identifier(SpecIdentifier),
}

pub open spec fn array_size_view(a: ArraySizeDeclaration) -> SpecArraySize {
    match a {
        ArraySizeDeclaration::Size(n) => SpecArraySize::Size(n),
        ArraySizeDeclaration::Identifier(i) => SpecArraySize::Identifier(i@),
    }
}

pub open spec fn opt_array_size_view(a: Option<ArraySizeDeclaration>) -> Option<SpecArraySize> {
    match a {
        Some(a) => Some(array_size_view(a)),
        None => None,
    }
}

#[derive(Debug, PartialEq)]
pub struct VarDeclaration {
    pub typ: Identifier,
    pub name: Identifier,
    pub array_size: Option<ArraySizeDeclaration>,
    pub span: (usize, usize),
}

pub struct SpecVarDeclaration {
    pub typ: SpecIdentifier,
    pub name: SpecIdentifier,
    pub array_size: Option<SpecArraySize>,
    pub span: (int, int),
}

impl View for VarDeclaration {
    type V = SpecVarDeclaration;

    open spec fn view(&self) -> SpecVarDeclaration {
        SpecVarDeclaration {
            typ: self.typ@,
            name: self.name@,
            array_size: opt_array_size_view(self.array_size),
            span: span_view(self.span),
        }
    }
}

pub open spec fn var_decls_view(s: Seq<VarDeclaration>) -> Seq<SpecVarDeclaration> {
    s.map_values(|d: VarDeclaration| d@)
}

pub proof fn lemma_var_decls_view_push(s: Seq<VarDeclaration>, d: VarDeclaration)
    ensures
        var_decls_view(s.push(d)) == var_decls_view(s).push(d@),
{
    assert(var_decls_view(s.push(d)) =~= var_decls_view(s).push(d@));
}

impl VarDeclaration {
    pub fn new(
        typ: Identifier,
        name: Identifier,
        array_size: Option<ArraySizeDeclaration>,
        span: (usize, usize),
    ) -> (r: VarDeclaration)
        ensures
            r == (VarDeclaration { typ, name, array_size, span }),
    {
        VarDeclaration { typ, name, array_size, span }
    }
}

#[derive(Debug, PartialEq)]
pub struct ConstDeclaration {
    pub typ: Identifier,
    pub name: Identifier,
    pub initializer: Expression,
    pub span: (usize, usize),
}

impl ConstDeclaration {
    pub fn new(typ: Identifier, name: Identifier, initializer: Expression, span: (usize, usize)) -> (r:
        ConstDeclaration)
        ensures
            r == (ConstDeclaration { typ, name, initializer, span }),
    {
        ConstDeclaration { typ, name, initializer, span }
    }
}

pub struct SpecConstDeclaration {
    pub typ: SpecIdentifier,
    pub name: SpecIdentifier,
    pub initializer: SpecExpression,
    pub span: (int, int),
}

impl View for ConstDeclaration {
    type V = SpecConstDeclaration;

    open spec fn view(&self) -> SpecConstDeclaration {
        SpecConstDeclaration {
            typ: self.typ@,
            name: self.name@,
            initializer: expr_view(self.initializer),
            span: span_view(self.span),
        }
    }
}

#[derive(Debug, PartialEq)]
pub struct ConstArrayInitializer {
    pub expressions: Vec<Expression>,
    pub span: (usize, usize),
}

impl ConstArrayInitializer {
    pub fn new(expressions: Vec<Expression>, span: (usize, usize)) -> (r: ConstArrayInitializer)
        ensures
            r == (ConstArrayInitializer { expressions, span }),
    {
        ConstArrayInitializer { expressions, span }
    }
}

#[derive(Debug, PartialEq)]
pub struct ConstArrayDeclaration {
    pub typ: Identifier,
    pub name: Identifier,
    pub array_size: ArraySizeDeclaration,
    pub initializer: ConstArrayInitializer,
    pub span: (usize, usize),
}

impl ConstArrayDeclaration {
    pub fn new(
        typ: Identifier,
        name: Identifier,
        array_size: ArraySizeDeclaration,
        initializer: ConstArrayInitializer,
        span: (usize, usize),
    ) -> (r: ConstArrayDeclaration)
        ensures
            r == (ConstArrayDeclaration { typ, name, array_size, initializer, span }),
    {
        ConstArrayDeclaration { typ, name, array_size, initializer, span }
    }
}

pub struct SpecConstArrayDeclaration {
    pub typ: SpecIdentifier,
    pub name: SpecIdentifier,
    pub array_size: SpecArraySize,
    pub initializer: Seq<SpecExpression>,
    pub initializer_span: (int, int),
    pub span: (int, int),
}

impl View for ConstArrayDeclaration {
    type V = SpecConstArrayDeclaration;

    open spec fn view(&self) -> SpecConstArrayDeclaration {
        SpecConstArrayDeclaration {
            typ: self.typ@,
            name: self.name@,
            array_size: array_size_view(self.array_size),
            initializer: exprs_view(self.initializer.expressions@),
            initializer_span: span_view(self.initializer.span),
            span: span_view(self.span),
        }
    }
}

pub struct SpecVarAccess {
    pub name: SpecIdentifier,
    pub instance: Option<SpecIdentifier>,
    pub index: Option<SpecExpression>,
    pub span: (int, int),
}

impl View for VarAccess {
    type V = SpecVarAccess;

    open spec fn view(&self) -> SpecVarAccess {
        SpecVarAccess {
            name: self.name@,
            instance: opt_ident_view(self.instance),
            index: opt_expr_view(self.index),
            span: span_view(self.span),
        }
    }
}

#[derive(Debug, PartialEq)]
pub struct Assignment {
    pub var: VarAccess,
    pub op: AssignmentOperator,
    pub exp: Expression,
    pub span: (usize, usize),
}

pub struct SpecAssignment {
    pub var: SpecVarAccess,
    pub op: AssignmentOperator,
    pub exp: SpecExpression,
    pub span: (int, int),
}

impl View for Assignment {
    type V = SpecAssignment;

    open spec fn view(&self) -> SpecAssignment {
        SpecAssignment { var: self.var@, op: self.op, exp: expr_view(self.exp), span: span_view(self.span) }
    }
}

#[derive(Debug, PartialEq)]
pub struct IfBranch {
    pub cond: Expression,
    pub body: Vec<Statement>,
    pub span: (usize, usize),
}

#[derive(Debug, PartialEq)]
pub struct IfStatement {
    pub branches: Vec<IfBranch>,
    pub else_branch: Option<Vec<Statement>>,
    pub span: (usize, usize),
}

#[derive(Debug, PartialEq)]
pub struct ReturnStatement {
    pub exp: Option<Expression>,
    pub span: (usize, usize),
}

#[derive(Debug, PartialEq)]
pub enum Statement {
    Exp(Expression),
    Ass(Assignment),
    If(Box<IfStatement>),
    VarDeclarations(Vec<VarDeclaration>),
    ConstDeclaration(ConstDeclaration),
    ConstArrayDeclaration(ConstArrayDeclaration),
    ReturnStatement(ReturnStatement),
}

pub enum SpecStatement {
    Exp(SpecExpression),
    Ass(SpecAssignment),
    /// Branches (condition, body, span), the else branch and the span.
    If(Seq<(SpecExpression, Seq<SpecStatement>, (int, int))>, Option<Seq<SpecStatement>>, (int, int)),
    VarDeclarations(Seq<SpecVarDeclaration>),
    ConstDeclaration(SpecConstDeclaration),
    ConstArrayDeclaration(SpecConstArrayDeclaration),
    ReturnStatement(Option<SpecExpression>, (int, int)),
}

pub open spec fn stmt_view(s: Statement) -> SpecStatement
    decreases s,
{
    match s {
        Statement::Exp(e) => SpecStatement::Exp(expr_view(e)),
        Statement::Ass(a) => SpecStatement::Ass(a@),
        Statement::If(i) => SpecStatement::If(
            branches_view(i.branches@),
            match i.else_branch {
                Some(b) => Some(stmts_view(b@)),
                None => None,
            },
            span_view(i.span),
        ),
        Statement::VarDeclarations(v) => SpecStatement::VarDeclarations(var_decls_view(v@)),
        Statement::ConstDeclaration(c) => SpecStatement::ConstDeclaration(c@),
        Statement::ConstArrayDeclaration(c) => SpecStatement::ConstArrayDeclaration(c@),
        Statement::ReturnStatement(r) => SpecStatement::ReturnStatement(
            opt_expr_view(r.exp),
            span_view(r.span),
        ),
    }
}

pub open spec fn stmts_view(s: Seq<Statement>) -> Seq<SpecStatement>
    decreases s,
{
    if s.len() == 0 {
        seq![]
    } else {
        stmts_view(s.drop_last()).push(stmt_view(s.last()))
    }
}

pub open spec fn branches_view(s: Seq<IfBranch>) -> Seq<(SpecExpression, Seq<SpecStatement>, (int, int))>
    decreases s,
{
    if s.len() == 0 {
        seq![]
    } else {
        branches_view(s.drop_last()).push(
            (expr_view(s.last().cond), stmts_view(s.last().body@), span_view(s.last().span)),
        )
    }
}

impl View for Statement {
    type V = SpecStatement;

    open spec fn view(&self) -> SpecStatement {
        stmt_view(*self)
    }
}

pub proof fn lemma_stmts_view_push(s: Seq<Statement>, e: Statement)
    ensures
        stmts_view(s.push(e)) == stmts_view(s).push(stmt_view(e)),
{
    assert(s.push(e).drop_last() =~= s);
}

pub proof fn lemma_stmts_view_len(s: Seq<Statement>)
    ensures
        stmts_view(s).len() == s.len(),
        forall|i: int| 0 <= i < s.len() ==> #[trigger] stmts_view(s)[i] == stmt_view(s[i]),
    decreases s.len(),
{
    if s.len() > 0 {
        lemma_stmts_view_len(s.drop_last());
        assert forall|i: int| 0 <= i < s.len() implies #[trigger] stmts_view(s)[i] == stmt_view(
            s[i],
        ) by {
            if i < s.len() - 1 {
                assert(s.drop_last()[i] == s[i]);
            }
        }
    }
}

pub proof fn lemma_branches_view_len(s: Seq<IfBranch>)
    ensures
        branches_view(s).len() == s.len(),
        forall|i: int|
            0 <= i < s.len() ==> #[trigger] branches_view(s)[i] == (
                expr_view(s[i].cond),
                stmts_view(s[i].body@),
                span_view(s[i].span),
            ),
    decreases s.len(),
{
    if s.len() > 0 {
        lemma_branches_view_len(s.drop_last());
        assert forall|i: int| 0 <= i < s.len() implies #[trigger] branches_view(s)[i] == (
            expr_view(s[i].cond),
            stmts_view(s[i].body@),
            span_view(s[i].span),
        ) by {
            if i < s.len() - 1 {
                assert(s.drop_last()[i] == s[i]);
            }
        }
    }
}

pub proof fn lemma_branches_view_push(s: Seq<IfBranch>, e: IfBranch)
    ensures
        branches_view(s.push(e)) == branches_view(s).push(
            (expr_view(e.cond), stmts_view(e.body@), span_view(e.span)),
        ),
{
    assert(s.push(e).drop_last() =~= s);
}

#[derive(Debug, PartialEq)]
pub struct Function {
    pub typ: Identifier,
    pub name: Identifier,
    pub params: Vec<VarDeclaration>,
    pub body: Vec<Statement>,
}

pub struct SpecFunction {
    pub typ: SpecIdentifier,
    pub name: SpecIdentifier,
    pub params: Seq<SpecVarDeclaration>,
    pub body: Seq<SpecStatement>,
}

impl View for Function {
    type V = SpecFunction;

    open spec fn view(&self) -> SpecFunction {
        SpecFunction {
            typ: self.typ@,
            name: self.name@,
            params: var_decls_view(self.params@),
            body: stmts_view(self.body@),
        }
    }
}

#[derive(Debug, PartialEq)]
pub struct Instance {
    pub name: Identifier,
    pub class: Identifier,
    pub body: Vec<Statement>,
}

/// Instances and prototypes: a name, the class or prototype they derive from, a body.
pub struct SpecInstance {
    pub name: SpecIdentifier,
    pub class: SpecIdentifier,
    pub body: Seq<SpecStatement>,
}

impl View for Instance {
    type V = SpecInstance;

    open spec fn view(&self) -> SpecInstance {
        SpecInstance { name: self.name@, class: self.class@, body: stmts_view(self.body@) }
    }
}

#[derive(Debug, PartialEq)]
pub struct Prototype {
    pub name: Identifier,
    pub class: Identifier,
    pub body: Vec<Statement>,
}

impl View for Prototype {
    type V = SpecInstance;

    open spec fn view(&self) -> SpecInstance {
        SpecInstance { name: self.name@, class: self.class@, body: stmts_view(self.body@) }
    }
}

#[derive(Debug, PartialEq)]
pub struct Class {
    pub name: Identifier,
    pub members: Vec<VarDeclaration>,
}

pub struct SpecClass {
    pub name: SpecIdentifier,
    pub members: Seq<SpecVarDeclaration>,
}

impl View for Class {
    type V = SpecClass;

    open spec fn view(&self) -> SpecClass {
        SpecClass { name: self.name@, members: var_decls_view(self.members@) }
    }
}

#[derive(Debug, PartialEq)]
pub enum Declaration {
    Var(Vec<VarDeclaration>),
    Func(Function),
    Class(Class),
    Inst(Vec<Instance>),
    Proto(Prototype),
    Const(ConstDeclaration),
    ConstArray(ConstArrayDeclaration),
}

pub enum SpecDeclaration {
    Var(Seq<SpecVarDeclaration>),
    Func(SpecFunction),
    Class(SpecClass),
    Inst(Seq<SpecInstance>),
    Proto(SpecInstance),
    Const(SpecConstDeclaration),
    ConstArray(SpecConstArrayDeclaration),
}

impl View for Declaration {
    type V = SpecDeclaration;

    open spec fn view(&self) -> SpecDeclaration {
        match self {
            Declaration::Var(v) => SpecDeclaration::Var(var_decls_view(v@)),
            Declaration::Func(f) => SpecDeclaration::Func(f@),
            Declaration::Class(c) => SpecDeclaration::Class(c@),
            Declaration::Inst(v) => SpecDeclaration::Inst(v@.map_values(|i: Instance| i@)),
            Declaration::Proto(p) => SpecDeclaration::Proto(p@),
            Declaration::Const(c) => SpecDeclaration::Const(c@),
            Declaration::ConstArray(c) => SpecDeclaration::ConstArray(c@),
        }
    }
}

pub open spec fn decls_view(s: Seq<Declaration>) -> Seq<SpecDeclaration> {
    s.map_values(|d: Declaration| d@)
}

/// A parsed file: its declarations in order.
#[derive(Debug, PartialEq)]
pub struct AST {
    pub declarations: Vec<Declaration>,
}

} // verus!
