//! What the typechecker finds wrong.
use crate::diagnostics::{Diagnostic, Label, SpecDiagnostic, SpecLabel};
use crate::lexer::{printable, utf8_lossy};
use crate::ppa::symbols::{SpecSymbolRef, SpecZType, SymbolRef, SymbolSort, zPAR_TYPE};
use crate::types::{Identifier, SpecIdentifier, span_view};
use vstd::prelude::*;

verus! {

/// A kind of type error, with what the message about it needs.
#[derive(Debug, PartialEq)]
pub enum TypecheckErrorKind {
    InternalFailure(String),
    /// An identifier, given by its name, is not declared.
    UnknownIdentifier(Vec<u8>),
    /// The return type is unknown.
    UnknownReturnType(Identifier),
    /// A parameter type is unknown.
    UnknownParameterType(Identifier),
    /// A call of something that is not declared.
    UnknownFunctionCall(Identifier),
    /// A variable type is unknown.
    UnknownVariableType(Identifier),
    /// A call of a symbol that is no function: the name called, and that symbol.
    FunctionCallWrongType(Identifier, SymbolRef),
    /// An expression uses an identifier that is not declared.
    UnknownIdentifierInExpression(Identifier),
    /// An expression uses the name of a class: the name used, and the class.
    IdentifierIsClassInExpression(Identifier, SymbolRef),
    /// The parameter has the first type, the argument the second.
    FunctionCallParameterWrongType(zPAR_TYPE, zPAR_TYPE),
    /// Expected parameters, given arguments.
    FunctionCallWrongAmountOfParameters(usize, usize),
    BinaryExpressionNotInt,
    UnaryExpressionNotInt,
    /// Left type and span, right type and span.
    AssignmentWrongTypes(zPAR_TYPE, (usize, usize), zPAR_TYPE, (usize, usize)),
    /// Declared type and span, element type and span.
    WrongTypeInArrayInitialization(zPAR_TYPE, (usize, usize), zPAR_TYPE, (usize, usize)),
    /// Strings only take `=`.
    CanOnlyAssignToString,
    /// Floats only take `=`.
    CanOnlyAssignToFloat,
    /// Instances only take `=`.
    CanOnlyAssignToInstance,
    /// The condition of an if clause has this type, not int.
    ConditionNotInt(zPAR_TYPE),
    /// The function's return type, and the type of the returned expression.
    ReturnExpressionDoesNotMatchReturnType(Identifier, zPAR_TYPE),
    /// The function's return type.
    ReturnWithoutExpression(Identifier),
    /// The function's return type, which is void.
    ReturnExpressionInVoidFunction(Identifier),
    UnknownIdentifierInArraySize(Identifier),
    /// An array size names something that is no constant.
    NonConstantArraySize,
    /// The array size constant has this type; it is declared at the span.
    ArraySizeIsNotInteger(zPAR_TYPE, (usize, usize)),
    InstanceHasUnknownParent(Identifier),
    /// The parent of an instance or prototype is no class or prototype, but declares what
    /// is given.
    InstanceParentNotClassOrProto(Identifier, SymbolSort),
    /// An identifier in the place of a type is no type.
    IdentifierIsNotType(Identifier),
    /// A member of something that is no instance is accessed: its name, and that symbol.
    IdentifierIsNotInstance(Identifier, SymbolRef),
    /// A member of a variable of a primitive type is accessed: the variable, the member and
    /// the type.
    TypeIsPrimitive(SymbolRef, Identifier, zPAR_TYPE),
    /// A class has no member of that name: the class, the member, and the instance or
    /// variable it was accessed through.
    UnknownMember(SymbolRef, Identifier, SymbolRef),
}

pub enum SpecTypecheckErrorKind {
    InternalFailure(Seq<char>),
    UnknownIdentifier(Seq<u8>),
    UnknownReturnType(SpecIdentifier),
    UnknownParameterType(SpecIdentifier),
    UnknownFunctionCall(SpecIdentifier),
    UnknownVariableType(SpecIdentifier),
    FunctionCallWrongType(SpecIdentifier, SpecSymbolRef),
    UnknownIdentifierInExpression(SpecIdentifier),
    IdentifierIsClassInExpression(SpecIdentifier, SpecSymbolRef),
    FunctionCallParameterWrongType(SpecZType, SpecZType),
    FunctionCallWrongAmountOfParameters(int, int),
    BinaryExpressionNotInt,
    UnaryExpressionNotInt,
    AssignmentWrongTypes(SpecZType, (int, int), SpecZType, (int, int)),
    WrongTypeInArrayInitialization(SpecZType, (int, int), SpecZType, (int, int)),
    CanOnlyAssignToString,
    CanOnlyAssignToFloat,
    CanOnlyAssignToInstance,
    ConditionNotInt(SpecZType),
    ReturnExpressionDoesNotMatchReturnType(SpecIdentifier, SpecZType),
    ReturnWithoutExpression(SpecIdentifier),
    ReturnExpressionInVoidFunction(SpecIdentifier),
    UnknownIdentifierInArraySize(SpecIdentifier),
    NonConstantArraySize,
    ArraySizeIsNotInteger(SpecZType, (int, int)),
    InstanceHasUnknownParent(SpecIdentifier),
    InstanceParentNotClassOrProto(SpecIdentifier, SymbolSort),
    IdentifierIsNotType(SpecIdentifier),
    IdentifierIsNotInstance(SpecIdentifier, SpecSymbolRef),
    TypeIsPrimitive(SpecSymbolRef, SpecIdentifier, SpecZType),
    UnknownMember(SpecSymbolRef, SpecIdentifier, SpecSymbolRef),
}

impl View for TypecheckErrorKind {
    type V = SpecTypecheckErrorKind;

    open spec fn view(&self) -> SpecTypecheckErrorKind {
        match self {
            TypecheckErrorKind::InternalFailure(m) => SpecTypecheckErrorKind::InternalFailure(m@),
            TypecheckErrorKind::UnknownIdentifier(v) => SpecTypecheckErrorKind::UnknownIdentifier(v@),
            TypecheckErrorKind::UnknownReturnType(i) => SpecTypecheckErrorKind::UnknownReturnType(i@),
            TypecheckErrorKind::UnknownParameterType(i) => SpecTypecheckErrorKind::UnknownParameterType(i@),
            TypecheckErrorKind::UnknownFunctionCall(i) => SpecTypecheckErrorKind::UnknownFunctionCall(i@),
            TypecheckErrorKind::UnknownVariableType(i) => SpecTypecheckErrorKind::UnknownVariableType(i@),
            TypecheckErrorKind::FunctionCallWrongType(i, t) => SpecTypecheckErrorKind::FunctionCallWrongType(i@, t@),
            TypecheckErrorKind::UnknownIdentifierInExpression(i) => SpecTypecheckErrorKind::UnknownIdentifierInExpression(i@),
            TypecheckErrorKind::IdentifierIsClassInExpression(i, c) => SpecTypecheckErrorKind::IdentifierIsClassInExpression(i@, c@),
            TypecheckErrorKind::FunctionCallParameterWrongType(a, b) => SpecTypecheckErrorKind::FunctionCallParameterWrongType(a@, b@),
            TypecheckErrorKind::FunctionCallWrongAmountOfParameters(a, b) => SpecTypecheckErrorKind::FunctionCallWrongAmountOfParameters(*a as int, *b as int),
            TypecheckErrorKind::BinaryExpressionNotInt => SpecTypecheckErrorKind::BinaryExpressionNotInt,
            TypecheckErrorKind::UnaryExpressionNotInt => SpecTypecheckErrorKind::UnaryExpressionNotInt,
            TypecheckErrorKind::AssignmentWrongTypes(a, sa, b, sb) => SpecTypecheckErrorKind::AssignmentWrongTypes(a@, span_view(*sa), b@, span_view(*sb)),
            TypecheckErrorKind::WrongTypeInArrayInitialization(a, sa, b, sb) => SpecTypecheckErrorKind::WrongTypeInArrayInitialization(a@, span_view(*sa), b@, span_view(*sb)),
            TypecheckErrorKind::CanOnlyAssignToString => SpecTypecheckErrorKind::CanOnlyAssignToString,
            TypecheckErrorKind::CanOnlyAssignToFloat => SpecTypecheckErrorKind::CanOnlyAssignToFloat,
            TypecheckErrorKind::CanOnlyAssignToInstance => SpecTypecheckErrorKind::CanOnlyAssignToInstance,
            TypecheckErrorKind::ConditionNotInt(t) => SpecTypecheckErrorKind::ConditionNotInt(t@),
            TypecheckErrorKind::ReturnExpressionDoesNotMatchReturnType(i, t) => SpecTypecheckErrorKind::ReturnExpressionDoesNotMatchReturnType(i@, t@),
            TypecheckErrorKind::ReturnWithoutExpression(i) => SpecTypecheckErrorKind::ReturnWithoutExpression(i@),
            TypecheckErrorKind::ReturnExpressionInVoidFunction(i) => SpecTypecheckErrorKind::ReturnExpressionInVoidFunction(i@),
            TypecheckErrorKind::UnknownIdentifierInArraySize(i) => SpecTypecheckErrorKind::UnknownIdentifierInArraySize(i@),
            TypecheckErrorKind::NonConstantArraySize => SpecTypecheckErrorKind::NonConstantArraySize,
            TypecheckErrorKind::ArraySizeIsNotInteger(t, s) => SpecTypecheckErrorKind::ArraySizeIsNotInteger(t@, span_view(*s)),
            TypecheckErrorKind::InstanceHasUnknownParent(i) => SpecTypecheckErrorKind::InstanceHasUnknownParent(i@),
            TypecheckErrorKind::InstanceParentNotClassOrProto(i, k) => SpecTypecheckErrorKind::InstanceParentNotClassOrProto(i@, *k),
            TypecheckErrorKind::IdentifierIsNotType(i) => SpecTypecheckErrorKind::IdentifierIsNotType(i@),
            TypecheckErrorKind::IdentifierIsNotInstance(i, r) => SpecTypecheckErrorKind::IdentifierIsNotInstance(i@, r@),
            TypecheckErrorKind::TypeIsPrimitive(r, m, t) => SpecTypecheckErrorKind::TypeIsPrimitive(r@, m@, t@),
            TypecheckErrorKind::UnknownMember(c, m, i) => SpecTypecheckErrorKind::UnknownMember(c@, m@, i@),
        }
    }
}

/// A type error and where it is.
#[derive(Debug, PartialEq)]
pub struct TypecheckError {
    pub kind: TypecheckErrorKind,
    pub span: (usize, usize),
}

pub struct SpecTypecheckError {
    pub kind: SpecTypecheckErrorKind,
    pub span: (int, int),
}

impl View for TypecheckError {
    type V = SpecTypecheckError;

    open spec fn view(&self) -> SpecTypecheckError {
        SpecTypecheckError { kind: self.kind@, span: span_view(self.span) }
    }
}

pub open spec fn errors_view(s: Seq<TypecheckError>) -> Seq<SpecTypecheckError> {
    s.map_values(|e: TypecheckError| e@)
}

pub open spec fn tc_err(kind: SpecTypecheckErrorKind, span: (int, int)) -> SpecTypecheckError {
    SpecTypecheckError { kind, span }
}

/// The code each kind of error is reported with.
pub open spec fn spec_code(k: SpecTypecheckErrorKind) -> Seq<char> {
    match k {
        SpecTypecheckErrorKind::InternalFailure(_) => "TC000"@,
        SpecTypecheckErrorKind::UnknownIdentifier(_) => "TC001"@,
        SpecTypecheckErrorKind::UnknownReturnType(_) => "TC002"@,
        SpecTypecheckErrorKind::UnknownParameterType(_) => "TC003"@,
        SpecTypecheckErrorKind::UnknownFunctionCall(_) => "TC004"@,
        SpecTypecheckErrorKind::UnknownVariableType(_) => "TC005"@,
        SpecTypecheckErrorKind::FunctionCallWrongType(_, _) => "TC006"@,
        SpecTypecheckErrorKind::UnknownIdentifierInExpression(_) => "TC007"@,
        SpecTypecheckErrorKind::IdentifierIsClassInExpression(_, _) => "TC008"@,
        SpecTypecheckErrorKind::FunctionCallParameterWrongType(_, _) => "TC009"@,
        SpecTypecheckErrorKind::FunctionCallWrongAmountOfParameters(_, _) => "TC010"@,
        SpecTypecheckErrorKind::BinaryExpressionNotInt => "TC011"@,
        SpecTypecheckErrorKind::UnaryExpressionNotInt => "TC012"@,
        SpecTypecheckErrorKind::AssignmentWrongTypes(_, _, _, _) => "TC013"@,
        SpecTypecheckErrorKind::WrongTypeInArrayInitialization(_, _, _, _) => "TC014"@,
        SpecTypecheckErrorKind::CanOnlyAssignToString => "TC015"@,
        SpecTypecheckErrorKind::CanOnlyAssignToFloat => "TC016"@,
        SpecTypecheckErrorKind::CanOnlyAssignToInstance => "TC017"@,
        SpecTypecheckErrorKind::ConditionNotInt(_) => "TC018"@,
        SpecTypecheckErrorKind::ReturnExpressionDoesNotMatchReturnType(_, _) => "TC019"@,
        SpecTypecheckErrorKind::ReturnWithoutExpression(_) => "TC020"@,
        SpecTypecheckErrorKind::ReturnExpressionInVoidFunction(_) => "TC021"@,
        SpecTypecheckErrorKind::UnknownIdentifierInArraySize(_) => "TC022"@,
        SpecTypecheckErrorKind::NonConstantArraySize => "TC023"@,
        SpecTypecheckErrorKind::ArraySizeIsNotInteger(_, _) => "TC024"@,
        SpecTypecheckErrorKind::InstanceHasUnknownParent(_) => "TC025"@,
        SpecTypecheckErrorKind::InstanceParentNotClassOrProto(_, _) => "TC026"@,
        SpecTypecheckErrorKind::IdentifierIsNotType(_) => "TC027"@,
        SpecTypecheckErrorKind::IdentifierIsNotInstance(_, _) => "TC028"@,
        SpecTypecheckErrorKind::TypeIsPrimitive(_, _, _) => "TC029"@,
        SpecTypecheckErrorKind::UnknownMember(_, _, _) => "TC030"@,
    }
}

impl TypecheckError {
    /// The error for an identifier in the place of a type that is no type.
    pub fn not_a_type(identifier: Identifier) -> (e: TypecheckError)
        ensures
            e@ == tc_err(SpecTypecheckErrorKind::IdentifierIsNotType(identifier@), identifier@.span),
    {
        TypecheckError { span: identifier.span, kind: TypecheckErrorKind::IdentifierIsNotType(identifier) }
    }

    /// The code this error is reported with.
    pub fn to_code(&self) -> (code: &'static str)
        ensures
            code@ == spec_code(self.kind@),
    {
        match self.kind {
            TypecheckErrorKind::InternalFailure(_) => "TC000",
            TypecheckErrorKind::UnknownIdentifier(_) => "TC001",
            TypecheckErrorKind::UnknownReturnType(_) => "TC002",
            TypecheckErrorKind::UnknownParameterType(_) => "TC003",
            TypecheckErrorKind::UnknownFunctionCall(_) => "TC004",
            TypecheckErrorKind::UnknownVariableType(_) => "TC005",
            TypecheckErrorKind::FunctionCallWrongType(_, _) => "TC006",
            TypecheckErrorKind::UnknownIdentifierInExpression(_) => "TC007",
            TypecheckErrorKind::IdentifierIsClassInExpression(_, _) => "TC008",
            TypecheckErrorKind::FunctionCallParameterWrongType(_, _) => "TC009",
            TypecheckErrorKind::FunctionCallWrongAmountOfParameters(_, _) => "TC010",
            TypecheckErrorKind::BinaryExpressionNotInt => "TC011",
            TypecheckErrorKind::UnaryExpressionNotInt => "TC012",
            TypecheckErrorKind::AssignmentWrongTypes(_, _, _, _) => "TC013",
            TypecheckErrorKind::WrongTypeInArrayInitialization(_, _, _, _) => "TC014",
            TypecheckErrorKind::CanOnlyAssignToString => "TC015",
            TypecheckErrorKind::CanOnlyAssignToFloat => "TC016",
            TypecheckErrorKind::CanOnlyAssignToInstance => "TC017",
            TypecheckErrorKind::ConditionNotInt(_) => "TC018",
            TypecheckErrorKind::ReturnExpressionDoesNotMatchReturnType(_, _) => "TC019",
            TypecheckErrorKind::ReturnWithoutExpression(_) => "TC020",
            TypecheckErrorKind::ReturnExpressionInVoidFunction(_) => "TC021",
            TypecheckErrorKind::UnknownIdentifierInArraySize(_) => "TC022",
            TypecheckErrorKind::NonConstantArraySize => "TC023",
            TypecheckErrorKind::ArraySizeIsNotInteger(_, _) => "TC024",
            TypecheckErrorKind::InstanceHasUnknownParent(_) => "TC025",
            TypecheckErrorKind::InstanceParentNotClassOrProto(_, _) => "TC026",
            TypecheckErrorKind::IdentifierIsNotType(_) => "TC027",
            TypecheckErrorKind::IdentifierIsNotInstance(_, _) => "TC028",
            TypecheckErrorKind::TypeIsPrimitive(_, _, _) => "TC029",
            TypecheckErrorKind::UnknownMember(_, _, _) => "TC030",
        }
    }

    /// The diagnostic this error is shown with, when it is in the file with id `file_id`
    /// and symbol `i` was declared in file `symbol_files[i]` (0 past the end of the list).
    pub fn to_diagnostic(&self, file_id: usize, symbol_files: &Vec<usize>) -> (d: Diagnostic)
        requires
            has_diagnostic(self.kind@),
        ensures
            d@ == spec_diagnostic(self@, file_id as int, symbol_files@),
    {
        let code = self.to_code().to_owned();
        match &self.kind {
            TypecheckErrorKind::InternalFailure(msg) => {
                let labels: Vec<Label> = Vec::new();
                assert(labels@.map_values(|x: Label| x@) =~= Seq::<SpecLabel>::empty());
                Diagnostic { message: concat("Internal Failure: ", msg.as_str()), code, labels }
            },
            TypecheckErrorKind::UnknownIdentifier(v) => {
                let name = printable(v.as_slice());
                Diagnostic {
                    message: concat("Unknown Identifier: ", name.as_str()),
                    code,
                    labels: labels1(
                        label(file_id, self.span, "This identifier is not defined anywhere.".to_owned(), true),
                    ),
                }
            },
            TypecheckErrorKind::UnknownReturnType(ident) => {
                let name = printable(ident.as_bytes());
                Diagnostic {
                    message: concat("Unknown return type: ", name.as_str()),
                    code,
                    labels: labels1(
                        label(file_id, self.span, "This return type is not defined anywhere.".to_owned(), true),
                    ),
                }
            },
            TypecheckErrorKind::UnknownParameterType(ident) => {
                let name = printable(ident.as_bytes());
                Diagnostic {
                    message: concat("Unknown parameter type: '", name.as_str()),
                    code,
                    labels: labels1(
                        label(file_id, self.span, "This parameter's type is not defined anywhere.".to_owned(), true),
                    ),
                }
            },
            TypecheckErrorKind::UnknownFunctionCall(ident) => {
                let name = printable(ident.as_bytes());
                Diagnostic {
                    message: join3("Trying to call an unknown identifier: '", name.as_str(), "'"),
                    code,
                    labels: labels1(
                        label(
                            file_id,
                            self.span,
                            join3("You're trying to call '", name.as_str(), "', but that identifier is not defined anywhere"),
                            true,
                        ),
                    ),
                }
            },
            TypecheckErrorKind::UnknownVariableType(ident) => {
                let name = printable(ident.as_bytes());
                Diagnostic {
                    message: join3("Unknown variable type: '", name.as_str(), "'"),
                    code,
                    labels: labels1(
                        label(file_id, self.span, join3("This variable has an unknown type '", name.as_str(), "'"), true),
                    ),
                }
            },
            TypecheckErrorKind::FunctionCallWrongType(call, target) => {
                let name = printable(target.name.as_bytes());
                Diagnostic {
                    message: "Trying to call something that is not a function.".to_owned(),
                    code,
                    labels: labels2(
                        label(file_id, call.span, join3("Here is the function call to '", name.as_str(), "'."), true),
                        label(
                            file_of(symbol_files, target.index),
                            target.name.span,
                            join3("But '", name.as_str(), "' is defined here and not a function."),
                            false,
                        ),
                    ),
                }
            },
            TypecheckErrorKind::UnknownIdentifierInExpression(ident) => {
                let name = printable(ident.as_bytes());
                Diagnostic {
                    message: join3("Unknown identifier in expression: '", name.as_str(), "'"),
                    code,
                    labels: labels1(label(file_id, self.span, "Unknown identifier here.".to_owned(), true)),
                }
            },
            TypecheckErrorKind::IdentifierIsClassInExpression(ident, class) => {
                let name = printable(ident.as_bytes());
                let class_name = printable(class.name.as_bytes());
                Diagnostic {
                    message: "Classes cannot be used in expressions.".to_owned(),
                    code,
                    labels: labels2(
                        label(file_id, self.span, join3("Identifier '", name.as_str(), "' is used here."), true),
                        label(
                            file_of(symbol_files, class.index),
                            class.name.span,
                            join3("But '", class_name.as_str(), "' is defined here as a class"),
                            false,
                        ),
                    ),
                }
            },
            TypecheckErrorKind::IdentifierIsNotInstance(ident, symbol) => {
                let name = printable(ident.as_bytes());
                Diagnostic {
                    message: "Attempting to access a member but target is not an instance.".to_owned(),
                    code,
                    labels: labels2(
                        label(
                            file_id,
                            self.span,
                            join3("You're attempting to access a member of '", name.as_str(), "', but it is not an instance."),
                            true,
                        ),
                        label(
                            file_of(symbol_files, symbol.index),
                            symbol.name.span,
                            join3("'", name.as_str(), "' is defined here"),
                            false,
                        ),
                    ),
                }
            },
            TypecheckErrorKind::UnknownMember(class, member, instance) => {
                let member_name = printable(member.as_bytes());
                let class_name = printable(class.name.as_bytes());
                let inst_or_var = match instance.sort {
                    SymbolSort::Var => "variable",
                    SymbolSort::Inst => "instance",
                    _ => "<error>",
                };
                let used = join3("The ", inst_or_var, " used to access class '");
                let class_msg = join3("The class '", class_name.as_str(), "' is defined here, but does not have member '");
                Diagnostic {
                    message: "The accessed class member does not exist.".to_owned(),
                    code,
                    labels: labels3(
                        label(
                            file_id,
                            self.span,
                            join3("The member '", member_name.as_str(), "' is accessed here, but it does not exist."),
                            true,
                        ),
                        label(
                            file_of(symbol_files, instance.index),
                            instance.name.span,
                            join3(used.as_str(), class_name.as_str(), "' is defined here."),
                            false,
                        ),
                        label(
                            file_of(symbol_files, class.index),
                            class.name.span,
                            join3(class_msg.as_str(), member_name.as_str(), "'."),
                            false,
                        ),
                    ),
                }
            },
            _ => {
                assert(false);
                Diagnostic { message: String::new(), code, labels: Vec::new() }
            },
        }
    }
}

/// The kinds of errors that have a diagnostic.
pub open spec fn has_diagnostic(k: SpecTypecheckErrorKind) -> bool {
    match k {
        SpecTypecheckErrorKind::InternalFailure(_)
        | SpecTypecheckErrorKind::UnknownIdentifier(_)
        | SpecTypecheckErrorKind::IdentifierIsNotInstance(_, _)
        | SpecTypecheckErrorKind::UnknownMember(_, _, _)
        | SpecTypecheckErrorKind::UnknownReturnType(_)
        | SpecTypecheckErrorKind::UnknownParameterType(_)
        | SpecTypecheckErrorKind::UnknownFunctionCall(_)
        | SpecTypecheckErrorKind::UnknownVariableType(_)
        | SpecTypecheckErrorKind::FunctionCallWrongType(_, _)
        | SpecTypecheckErrorKind::UnknownIdentifierInExpression(_)
        | SpecTypecheckErrorKind::IdentifierIsClassInExpression(_, _) => true,
        _ => false,
    }
}

/// The file symbol `i` was declared in, by the list of the symbols' files; 0 past its end.
pub open spec fn file_at(files: Seq<usize>, i: int) -> int {
    if 0 <= i < files.len() {
        files[i] as int
    } else {
        0
    }
}

pub open spec fn spec_label(file_id: int, span: (int, int), message: Seq<char>, primary: bool) -> SpecLabel {
    SpecLabel { file_id, span, message, primary }
}

/// How a variable or an instance is named in a message.
pub open spec fn sort_text(k: SymbolSort) -> Seq<char> {
    match k {
        SymbolSort::Var => "variable"@,
        SymbolSort::Inst => "instance"@,
        _ => "<error>"@,
    }
}

/// The diagnostic of an error in file `file_id`, where symbol `i` was declared in file
/// `file_at(files, i)`: its message, its code, a primary label on where the error is, and
/// secondary labels where the symbols it names are declared.
pub open spec fn spec_diagnostic(e: SpecTypecheckError, file_id: int, files: Seq<usize>) -> SpecDiagnostic {
    let here = |m: Seq<char>| seq![spec_label(file_id, e.span, m, true)];
    let code = spec_code(e.kind);
    match e.kind {
        SpecTypecheckErrorKind::InternalFailure(msg) => SpecDiagnostic {
            message: "Internal Failure: "@ + msg,
            code,
            labels: seq![],
        },
        SpecTypecheckErrorKind::UnknownIdentifier(v) => SpecDiagnostic {
            message: "Unknown Identifier: "@ + utf8_lossy(v),
            code,
            labels: here("This identifier is not defined anywhere."@),
        },
        SpecTypecheckErrorKind::UnknownReturnType(i) => SpecDiagnostic {
            message: "Unknown return type: "@ + utf8_lossy(i.name),
            code,
            labels: here("This return type is not defined anywhere."@),
        },
        SpecTypecheckErrorKind::UnknownParameterType(i) => SpecDiagnostic {
            message: "Unknown parameter type: '"@ + utf8_lossy(i.name),
            code,
            labels: here("This parameter's type is not defined anywhere."@),
        },
        SpecTypecheckErrorKind::UnknownFunctionCall(i) => SpecDiagnostic {
            message: "Trying to call an unknown identifier: '"@ + utf8_lossy(i.name) + "'"@,
            code,
            labels: here(
                "You're trying to call '"@ + utf8_lossy(i.name)
                    + "', but that identifier is not defined anywhere"@,
            ),
        },
        SpecTypecheckErrorKind::UnknownVariableType(i) => SpecDiagnostic {
            message: "Unknown variable type: '"@ + utf8_lossy(i.name) + "'"@,
            code,
            labels: here("This variable has an unknown type '"@ + utf8_lossy(i.name) + "'"@),
        },
        SpecTypecheckErrorKind::FunctionCallWrongType(call, target) => {
            let n = utf8_lossy(target.name.name);
            SpecDiagnostic {
                message: "Trying to call something that is not a function."@,
                code,
                labels: seq![
                    spec_label(file_id, call.span, "Here is the function call to '"@ + n + "'."@, true),
                    spec_label(
                        file_at(files, target.index),
                        target.name.span,
                        "But '"@ + n + "' is defined here and not a function."@,
                        false,
                    ),
                ],
            }
        },
        SpecTypecheckErrorKind::UnknownIdentifierInExpression(i) => SpecDiagnostic {
            message: "Unknown identifier in expression: '"@ + utf8_lossy(i.name) + "'"@,
            code,
            labels: here("Unknown identifier here."@),
        },
        SpecTypecheckErrorKind::IdentifierIsClassInExpression(i, class) => SpecDiagnostic {
            message: "Classes cannot be used in expressions."@,
            code,
            labels: seq![
                spec_label(file_id, e.span, "Identifier '"@ + utf8_lossy(i.name) + "' is used here."@, true),
                spec_label(
                    file_at(files, class.index),
                    class.name.span,
                    "But '"@ + utf8_lossy(class.name.name) + "' is defined here as a class"@,
                    false,
                ),
            ],
        },
        SpecTypecheckErrorKind::IdentifierIsNotInstance(i, symbol) => SpecDiagnostic {
            message: "Attempting to access a member but target is not an instance."@,
            code,
            labels: seq![
                spec_label(
                    file_id,
                    e.span,
                    "You're attempting to access a member of '"@ + utf8_lossy(i.name) + "', but it is not an instance."@,
                    true,
                ),
                spec_label(
                    file_at(files, symbol.index),
                    symbol.name.span,
                    "'"@ + utf8_lossy(i.name) + "' is defined here"@,
                    false,
                ),
            ],
        },
        SpecTypecheckErrorKind::UnknownMember(class, member, instance) => {
            let m = utf8_lossy(member.name);
            let c = utf8_lossy(class.name.name);
            SpecDiagnostic {
                message: "The accessed class member does not exist."@,
                code,
                labels: seq![
                    spec_label(file_id, e.span, "The member '"@ + m + "' is accessed here, but it does not exist."@, true),
                    spec_label(
                        file_at(files, instance.index),
                        instance.name.span,
                        "The "@ + sort_text(instance.sort) + " used to access class '"@ + c + "' is defined here."@,
                        false,
                    ),
                    spec_label(
                        file_at(files, class.index),
                        class.name.span,
                        "The class '"@ + c + "' is defined here, but does not have member '"@ + m + "'."@,
                        false,
                    ),
                ],
            }
        },
        _ => SpecDiagnostic { message: seq![], code, labels: seq![] },
    }
}

fn file_of(files: &Vec<usize>, i: usize) -> (f: usize)
    ensures
        f == file_at(files@, i as int),
{
    if i < files.len() {
        files[i]
    } else {
        0
    }
}

fn label(file_id: usize, span: (usize, usize), message: String, primary: bool) -> (l: Label)
    ensures
        l@ == spec_label(file_id as int, span_view(span), message@, primary),
{
    Label { file_id, span, message, primary }
}

fn labels1(a: Label) -> (v: Vec<Label>)
    ensures
        v@.map_values(|x: Label| x@) == seq![a@],
{
    let ghost sa = a@;
    let v = vec![a];
    assert(v@.map_values(|x: Label| x@) =~= seq![sa]);
    v
}

fn labels2(a: Label, b: Label) -> (v: Vec<Label>)
    ensures
        v@.map_values(|x: Label| x@) == seq![a@, b@],
{
    let ghost sa = a@;
    let ghost sb = b@;
    let v = vec![a, b];
    assert(v@.map_values(|x: Label| x@) =~= seq![sa, sb]);
    v
}

fn labels3(a: Label, b: Label, c: Label) -> (v: Vec<Label>)
    ensures
        v@.map_values(|x: Label| x@) == seq![a@, b@, c@],
{
    let ghost sa = a@;
    let ghost sb = b@;
    let ghost sc = c@;
    let v = vec![a, b, c];
    assert(v@.map_values(|x: Label| x@) =~= seq![sa, sb, sc]);
    v
}

fn join3(a: &str, b: &str, c: &str) -> (r: String)
    ensures
        r@ == a@ + b@ + c@,
{
    let ab = concat(a, b);
    concat(ab.as_str(), c)
}

/// Whether an error has a diagnostic.
pub fn error_has_diagnostic(e: &TypecheckError) -> (b: bool)
    ensures
        b == has_diagnostic(e.kind@),
{
    match &e.kind {
        TypecheckErrorKind::InternalFailure(_)
        | TypecheckErrorKind::UnknownIdentifier(_)
        | TypecheckErrorKind::IdentifierIsNotInstance(_, _)
        | TypecheckErrorKind::UnknownMember(_, _, _)
        | TypecheckErrorKind::UnknownReturnType(_)
        | TypecheckErrorKind::UnknownParameterType(_)
        | TypecheckErrorKind::UnknownFunctionCall(_)
        | TypecheckErrorKind::UnknownVariableType(_)
        | TypecheckErrorKind::FunctionCallWrongType(_, _)
        | TypecheckErrorKind::UnknownIdentifierInExpression(_)
        | TypecheckErrorKind::IdentifierIsClassInExpression(_, _) => true,
        _ => false,
    }
}

/// Two strings one after the other, by `format!`.
#[verifier::external_body]
pub(crate) fn concat(a: &str, b: &str) -> (r: String)
    ensures
        r@ == a@ + b@,
{
    format!("{}{}", a, b)
}

} // verus!
