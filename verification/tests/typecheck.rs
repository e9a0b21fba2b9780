use parsiphae::lexer::lex;
use parsiphae::parser::parser::Parser;
use parsiphae::ppa::errors::{error_has_diagnostic, TypecheckError, TypecheckErrorKind as TEK};
use parsiphae::ppa::symbol_collector::collect_symbols;
use parsiphae::ppa::symbols::{zPAR_TYPE, Symbol, SymbolCollection, SymbolRef, SymbolSort};
use parsiphae::ppa::typecheck::TypeChecker;
use parsiphae::types::{
    Expression, FloatNode, Identifier, IntNode, StringLiteral, VarAccess, VarDeclaration, AST,
};

fn setup_typecheck_errors(input: &[u8]) -> Vec<TypecheckError> {
    let tokens = lex(input).expect("Unable to tokenize");
    let mut parser = Parser::new(&tokens);
    let declarations = parser.start().expect("Unable to parse code");
    let ast = AST { declarations };
    let symbols = SymbolCollection::new(collect_symbols(&ast));
    let mut typechecker = TypeChecker::new(&symbols);
    typechecker
        .typecheck()
        .expect_err("Typechecking succeeded unexpectly");

    typechecker.errors
}

fn typecheck_ok(input: &[u8]) -> bool {
    let tokens = lex(input).expect("Unable to tokenize");
    let mut parser = Parser::new(&tokens);
    let declarations = parser.start().expect("Unable to parse code");
    let ast = AST { declarations };
    let symbols = SymbolCollection::new(collect_symbols(&ast));
    let mut typechecker = TypeChecker::new(&symbols);
    typechecker.typecheck().is_ok() && typechecker.errors.is_empty()
}

#[test]
fn exp_single_simple() {
    let exps = [
        (Expression::Int(IntNode { value: 0, span: (0, 0) }), zPAR_TYPE::Int),
        (
            Expression::Float(FloatNode { value: b"0.0".to_vec(), span: (0, 0) }),
            zPAR_TYPE::Float,
        ),
        (Expression::String(StringLiteral::new(b"foo", (0, 0))), zPAR_TYPE::String),
    ];

    let sc = SymbolCollection::new(vec![]);
    let mut tc = TypeChecker::new(&sc);
    for (exp, typ) in exps.iter() {
        let actual = tc.typecheck_expression(&exp, None).unwrap();
        assert_eq!(&actual, typ);
    }
}

#[test]
fn exp_var() {
    let decl = VarDeclaration::new(
        Identifier::new(b"bar", (0, 0)),
        Identifier::new(b"foo", (0, 0)),
        None,
        (0, 0),
    );
    let sc = SymbolCollection::new(vec![Symbol::Var(&decl, None)]);
    let mut tc = TypeChecker::new(&sc);

    let exp = Expression::Identifier(Box::new(VarAccess::new(
        Identifier::new(b"foo", (0, 0)),
        None,
        None,
        (0, 0),
    )));
    let expected = zPAR_TYPE::Instance(Identifier::new(b"bar", (0, 0)));
    let actual = tc.typecheck_expression(&exp, None).unwrap();

    assert_eq!(expected, actual);
}

#[test]
fn unknown_identifier() {
    let expected = vec![TypecheckError {
        kind: TEK::UnknownIdentifierInExpression(Identifier::new(b"baz", (17, 20))),
        span: (17, 20),
    }];
    let actual = setup_typecheck_errors(b"func int foo() { baz; };");

    assert_eq!(expected, actual);
}

#[test]
fn unknown_return_type() {
    let expected = vec![TypecheckError {
        kind: TEK::UnknownReturnType(Identifier::new(b"baz", (5, 8))),
        span: (5, 8),
    }];
    let actual = setup_typecheck_errors(b"func baz foo() {};");

    assert_eq!(expected, actual);
}

#[test]
fn mixing_float_and_int() {
    let expected = vec![TypecheckError { kind: TEK::BinaryExpressionNotInt, span: (21, 24) }];
    let actual = setup_typecheck_errors(b"func int foo() { 3 + 3.5; };");

    assert_eq!(expected, actual);
}

#[test]
fn missing_return_expression() {
    let expected = vec![TypecheckError {
        kind: TEK::ReturnWithoutExpression(Identifier::new(b"int", (5, 8))),
        span: (17, 24),
    }];
    let actual = setup_typecheck_errors(b"func int foo() { return; };");

    assert_eq!(expected, actual);
}

#[test]
fn return_expression_in_void_function() {
    let expected = vec![TypecheckError {
        kind: TEK::ReturnExpressionInVoidFunction(Identifier::new(b"void", (5, 9))),
        span: (18, 27),
    }];
    let actual = setup_typecheck_errors(b"func void foo() { return 3; };");

    assert_eq!(expected, actual);
}

#[test]
fn wrong_return_expression_type() {
    let expected = vec![TypecheckError {
        kind: TEK::ReturnExpressionDoesNotMatchReturnType(
            Identifier::new(b"int", (5, 8)),
            zPAR_TYPE::String,
        ),
        span: (24, 31),
    }];
    let actual = setup_typecheck_errors(b"func int foo() { return \"hello\"; };");

    assert_eq!(expected, actual);
}

#[test]
fn mixing_int_and_string() {
    let expected = vec![TypecheckError { kind: TEK::BinaryExpressionNotInt, span: (35, 36) }];
    let actual = setup_typecheck_errors(b"func int foo() { var string s; 3 + s; };");
    assert_eq!(expected, actual);
}

#[test]
fn mixing_string_and_int() {
    let expected = vec![TypecheckError { kind: TEK::BinaryExpressionNotInt, span: (31, 32) }];
    let actual = setup_typecheck_errors(b"func int foo() { var string s; s + 3; };");
    assert_eq!(expected, actual);
}

#[test]
fn wrong_const_decl() {
    let expected = vec![TypecheckError {
        kind: TEK::AssignmentWrongTypes(zPAR_TYPE::Int, (6, 9), zPAR_TYPE::String, (16, 19)),
        span: (0, 20),
    }];
    let actual = setup_typecheck_errors(b"const int foo = \"3\";");
    assert_eq!(expected, actual);
}

#[test]
fn const_decl_unknown_type() {
    let expected = vec![TypecheckError {
        kind: TEK::UnknownVariableType(Identifier::new(b"baz", (6, 9))),
        span: (6, 9),
    }];
    let actual = setup_typecheck_errors(b"const baz foo = \"3\";");
    assert_eq!(expected, actual);
}

#[test]
fn wrong_const_array_decl() {
    let expected = vec![TypecheckError {
        kind: TEK::WrongTypeInArrayInitialization(
            zPAR_TYPE::Int,
            (6, 9),
            zPAR_TYPE::String,
            (23, 26),
        ),
        span: (0, 32),
    }];
    let actual = setup_typecheck_errors(b"const int foo[3] = {1, \"2\", 3 };");
    assert_eq!(expected, actual);
}

#[test]
fn well_typed_program_passes() {
    assert!(typecheck_ok(
        b"var int x; func int foo(var int a) { var string s; s = \"hi\"; x += 2; return x + 1; };"
    ));
}

#[test]
fn typecheck_of_calls_checks_arity() {
    let expected = vec![TypecheckError {
        kind: TEK::FunctionCallWrongAmountOfParameters(1, 2),
        span: (52, 59),
    }];
    let actual =
        setup_typecheck_errors(b"func int f(var int a) { return 1; };func void g() { f(1, 2); };");
    assert_eq!(expected, actual);
}

#[test]
fn error_codes_are_stable() {
    let e = TypecheckError { kind: TEK::BinaryExpressionNotInt, span: (0, 1) };
    assert_eq!(e.to_code(), "TC011");
    let e = TypecheckError::not_a_type(Identifier::new(b"foo", (2, 5)));
    assert_eq!(e.span, (2, 5));
    assert_eq!(e.kind, TEK::IdentifierIsNotType(Identifier::new(b"foo", (2, 5))));
}

#[test]
fn lookup_prefers_the_scope_and_ignores_case() {
    let global = VarDeclaration::new(
        Identifier::new(b"int", (0, 0)),
        Identifier::new(b"x", (1, 1)),
        None,
        (0, 0),
    );
    let local = VarDeclaration::new(
        Identifier::new(b"string", (0, 0)),
        Identifier::new(b"X", (2, 2)),
        None,
        (0, 0),
    );
    let func_name = Identifier::new(b"foo", (3, 3));
    let sc = SymbolCollection::new(vec![
        Symbol::Var(&global, None),
        Symbol::Var(&local, Some(&func_name)),
    ]);
    let found = sc.lookup_symbol(&Identifier::new(b"x", (9, 9)), Some(&Identifier::new(b"FOO", (0, 0))));
    assert_eq!(found.unwrap().typ(), zPAR_TYPE::String);
    let found = sc.lookup_symbol(&Identifier::new(b"X", (9, 9)), None);
    assert_eq!(found.unwrap().typ(), zPAR_TYPE::Int);
    assert!(sc.lookup_symbol(&Identifier::new(b"y", (9, 9)), None).is_none());
}

#[test]
fn collected_symbols_follow_the_program_order() {
    let tokens = lex(b"var int a; func void f(var int p) { var int q; }; const int c = 1;").unwrap();
    let mut parser = Parser::new(&tokens);
    let declarations = parser.start().unwrap();
    let ast = AST { declarations };
    let syms = collect_symbols(&ast);
    let names: Vec<Vec<u8>> = syms.iter().map(|s| s.name().to_vec()).collect();
    assert_eq!(names, vec![b"a".to_vec(), b"f".to_vec(), b"q".to_vec(), b"c".to_vec()]);
    assert_eq!(syms[2].scope(), Some(&b"f"[..]));
    assert_eq!(syms[0].scope(), None);
}

#[test]
fn diagnostics_name_the_identifier() {
    let e = TypecheckError {
        kind: TEK::UnknownFunctionCall(Identifier::new(b"foo", (4, 7))),
        span: (4, 7),
    };
    assert!(error_has_diagnostic(&e));
    let d = e.to_diagnostic(3, &vec![]);
    assert_eq!(d.message, "Trying to call an unknown identifier: 'foo'");
    assert_eq!(d.code, "TC004");
    assert_eq!(d.labels.len(), 1);
    assert_eq!(
        d.labels[0].message,
        "You're trying to call 'foo', but that identifier is not defined anywhere"
    );
    assert_eq!(d.labels[0].span, (4, 7));
    assert_eq!(d.labels[0].file_id, 3);
    assert!(d.labels[0].primary);

    let e = TypecheckError { kind: TEK::InternalFailure("boom".to_string()), span: (0, 0) };
    let d = e.to_diagnostic(0, &vec![]);
    assert_eq!(d.message, "Internal Failure: boom");
    assert!(d.labels.is_empty());

    let e = TypecheckError { kind: TEK::BinaryExpressionNotInt, span: (0, 1) };
    assert!(!error_has_diagnostic(&e));
}

fn try_typecheck_of(input: &[u8]) -> (Option<Result<(), ()>>, Vec<TypecheckError>) {
    let tokens = lex(input).expect("Unable to tokenize");
    let mut parser = Parser::new(&tokens);
    let declarations = parser.start().expect("Unable to parse code");
    let ast = AST { declarations };
    let symbols = SymbolCollection::new(collect_symbols(&ast));
    let mut typechecker = TypeChecker::new(&symbols);
    let r = typechecker.try_typecheck();
    (r, typechecker.errors)
}

#[test]
fn member_access_is_not_checked() {
    let (r, errors) = try_typecheck_of(b"func void f() { baz; hero.attribute = 3; };");
    assert_eq!(r, None);
    assert_eq!(errors.len(), 1);
    let (r, _) = try_typecheck_of(b"func int f() { return self.level; };");
    assert_eq!(r, None);
}

#[test]
fn try_typecheck_reports_like_typecheck() {
    let (r, errors) = try_typecheck_of(b"func baz foo() {};");
    assert_eq!(r, Some(Err(())));
    assert_eq!(errors.len(), 1);
    let (r, errors) = try_typecheck_of(b"var int x; func void foo() { x = 1; };");
    assert_eq!(r, Some(Ok(())));
    assert!(errors.is_empty());
}

#[test]
fn calling_a_variable_names_both_places() {
    let errors = setup_typecheck_errors(b"var int x; func void g() { x(); };");
    assert_eq!(errors.len(), 1);
    assert_eq!(
        errors[0].kind,
        TEK::FunctionCallWrongType(
            Identifier::new(b"x", (27, 28)),
            SymbolRef { name: Identifier::new(b"x", (8, 9)), index: 0, sort: SymbolSort::Var }
        )
    );
    let d = errors[0].to_diagnostic(0, &vec![5, 0]);
    assert_eq!(d.code, "TC006");
    assert_eq!(d.message, "Trying to call something that is not a function.");
    assert_eq!(d.labels.len(), 2);
    assert!(d.labels[0].primary);
    assert_eq!(d.labels[0].span, (27, 28));
    assert_eq!(d.labels[0].message, "Here is the function call to 'x'.");
    assert!(!d.labels[1].primary);
    assert_eq!(d.labels[0].file_id, 0);
    assert_eq!(d.labels[1].span, (8, 9));
    assert_eq!(d.labels[1].file_id, 5);
    assert_eq!(d.labels[1].message, "But 'x' is defined here and not a function.");
}

#[test]
fn a_class_in_an_expression_names_the_class() {
    let errors = setup_typecheck_errors(b"class C { var int a; }; func void g() { C; };");
    assert_eq!(errors.len(), 1);
    assert_eq!(
        errors[0].kind,
        TEK::IdentifierIsClassInExpression(
            Identifier::new(b"C", (40, 41)),
            SymbolRef { name: Identifier::new(b"C", (6, 7)), index: 0, sort: SymbolSort::Class }
        )
    );
    let d = errors[0].to_diagnostic(2, &vec![]);
    assert_eq!(d.labels.len(), 2);
    assert_eq!(d.labels[0].span, errors[0].span);
    assert_eq!(d.labels[0].message, "Identifier 'C' is used here.");
    assert_eq!(d.labels[1].span, (6, 7));
    assert_eq!(d.labels[0].file_id, 2);
    assert_eq!(d.labels[1].file_id, 0);
    assert_eq!(d.labels[1].message, "But 'C' is defined here as a class");
}

#[test]
fn a_parameter_type_that_is_no_type_is_reported_with_the_return_type() {
    let errors = setup_typecheck_errors(b"var int v; func int f(var v p) { return 1; };");
    assert_eq!(
        errors,
        vec![TypecheckError {
            kind: TEK::IdentifierIsNotType(Identifier::new(b"int", (16, 19))),
            span: (16, 19),
        }]
    );
}

#[test]
fn unknown_identifiers_member_errors_have_diagnostics() {
    let e = TypecheckError { kind: TEK::UnknownIdentifier(b"baz".to_vec()), span: (17, 20) };
    assert_eq!(e.to_code(), "TC001");
    let d = e.to_diagnostic(0, &vec![]);
    assert_eq!(d.message, "Unknown Identifier: baz");
    assert_eq!(d.code, "TC001");
    assert_eq!(d.labels.len(), 1);
    assert_eq!(d.labels[0].message, "This identifier is not defined anywhere.");
    assert_eq!(d.labels[0].span, (17, 20));
    assert!(d.labels[0].primary);

    let hero = || SymbolRef { name: Identifier::new(b"hero", (4, 8)), index: 1, sort: SymbolSort::Var };
    let e = TypecheckError {
        kind: TEK::IdentifierIsNotInstance(Identifier::new(b"hero", (30, 34)), hero()),
        span: (30, 40),
    };
    assert_eq!(e.to_code(), "TC028");
    let d = e.to_diagnostic(1, &vec![7, 8]);
    assert_eq!(d.labels.len(), 2);
    assert_eq!(
        d.labels[0].message,
        "You're attempting to access a member of 'hero', but it is not an instance."
    );
    assert_eq!((d.labels[1].file_id, d.labels[1].span), (8, (4, 8)));
    assert_eq!(d.labels[1].message, "'hero' is defined here");

    let class = SymbolRef { name: Identifier::new(b"C_NPC", (6, 11)), index: 0, sort: SymbolSort::Class };
    let e = TypecheckError {
        kind: TEK::UnknownMember(class, Identifier::new(b"lvl", (35, 38)), hero()),
        span: (30, 38),
    };
    assert_eq!(e.to_code(), "TC030");
    let d = e.to_diagnostic(1, &vec![7, 8]);
    assert_eq!(d.message, "The accessed class member does not exist.");
    assert_eq!(d.labels.len(), 3);
    assert_eq!(d.labels[0].message, "The member 'lvl' is accessed here, but it does not exist.");
    assert_eq!(d.labels[1].message, "The variable used to access class 'C_NPC' is defined here.");
    assert_eq!(d.labels[1].file_id, 8);
    assert_eq!(
        d.labels[2].message,
        "The class 'C_NPC' is defined here, but does not have member 'lvl'."
    );
    assert_eq!((d.labels[2].file_id, d.labels[2].span), (7, (6, 11)));
    let e = TypecheckError {
        kind: TEK::TypeIsPrimitive(hero(), Identifier::new(b"lvl", (35, 38)), zPAR_TYPE::Int),
        span: (30, 38),
    };
    assert_eq!(e.to_code(), "TC029");
    assert!(!error_has_diagnostic(&e));
}
