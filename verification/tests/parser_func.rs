use parsiphae::lexer::lex;
use parsiphae::parser::parser::Parser;
use parsiphae::types::{
    Assignment, AssignmentOperator, Expression, Function, Identifier, Instance, IntNode,
    Prototype, Statement, VarAccess, VarDeclaration,
};


#[test]
fn func_empty_void() {
    let lexed = lex(b"func void foo() {}").unwrap();
    let expected = Function {
        typ: Identifier::new(b"void", (5, 9)),
        name: Identifier::new(b"foo", (10, 13)),
        params: Vec::new(),
        body: Vec::new(),
    };

    let mut parser = Parser::new(&lexed);
    let actual = parser.func_decl().unwrap();

    assert_eq!(expected, actual);
}

#[test]
fn func_params_empty_body() {
    let lexed = lex(b"func void foo(var int bar) {}").unwrap();
    let expected = Function {
        typ: Identifier::new(b"void", (5, 9)),
        name: Identifier::new(b"foo", (10, 13)),
        params: vec![VarDeclaration::new(
            Identifier::new(b"int", (18, 21)),
            Identifier::new(b"bar", (22, 25)),
            None,
            (14, 26),
        )],
        body: Vec::new(),
    };

    let mut parser = Parser::new(&lexed);
    let actual = parser.func_decl().unwrap();

    assert_eq!(expected, actual);
}

#[test]
fn multi_params_empty_body() {
    let lexed = lex(b"func void foo(var int bar, var int baz) {}").unwrap();
    let expected = Function {
        typ: Identifier::new(b"void", (5, 9)),
        name: Identifier::new(b"foo", (10, 13)),
        params: vec![
            VarDeclaration::new(
                Identifier::new(b"int", (18, 21)),
                Identifier::new(b"bar", (22, 25)),
                None,
                (14, 26),
            ),
            VarDeclaration::new(
                Identifier::new(b"int", (31, 34)),
                Identifier::new(b"baz", (35, 38)),
                None,
                (27, 39)
            ),
        ],
        body: Vec::new(),
    };

    let mut parser = Parser::new(&lexed);
    let actual = parser.func_decl().unwrap();

    assert_eq!(expected, actual);
}

#[test]
fn func_body() {
    let lexed = lex(b"func void foo() {3;}").unwrap();
    let expected = Function {
        typ: Identifier::new(b"void", (5, 9)),
        name: Identifier::new(b"foo", (10, 13)),
        params: Vec::new(),
        body: vec![Statement::Exp(Expression::Int(IntNode { value: 3, span: (17, 18)}))],
    };

    let mut parser = Parser::new(&lexed);
    let actual = parser.func_decl().unwrap();

    assert_eq!(expected, actual);
}

#[test]
fn simple_proto() {
    let lexed = lex(b"prototype foo (bar) {}");
    let expected = Prototype {
        name: Identifier::new(b"foo", (10, 13)),
        class: Identifier::new(b"bar", (15, 18)),
        body: Vec::new(),
    };

    let mut parser = Parser::new(&lexed.unwrap());
    let actual = parser.prototype_decl().unwrap();

    assert_eq!(expected, actual);
}

#[test]
fn init_proto() {
    let lexed = lex(b"prototype foo (bar) {name=3;}");
    let expected = Prototype {
        name: Identifier::new(b"foo", (10, 13)),
        class: Identifier::new(b"bar", (15, 18)),
        body: vec![Statement::Ass(Assignment {
            var: VarAccess::new(Identifier::new(b"name", (21, 25)), None, None, (21, 25)),
            op: AssignmentOperator::Eq,
            exp: Expression::Int(IntNode { value: 3, span: (26, 27) }),
            span: (21, 27),
        })],
    };

    let mut parser = Parser::new(&lexed.unwrap());
    let actual = parser.prototype_decl().unwrap();

    assert_eq!(expected, actual);
}

#[test]
fn simple_inst() {
    let lexed = lex(b"instance foo (bar) {}");
    let expected = Instance {
        name: Identifier::new(b"foo", (9, 12)),
        class: Identifier::new(b"bar", (14, 17)),
        body: Vec::new(),
    };

    let mut parser = Parser::new(&lexed.unwrap());
    let actual = parser.instance_decl().unwrap();

    assert_eq!(expected, actual);
}

#[test]
fn init_inst() {
    let lexed = lex(b"instance foo (bar) {name=3;}");
    let expected = Instance {
        name: Identifier::new(b"foo", (9, 12)),
        class: Identifier::new(b"bar", (14, 17)),
        body: vec![Statement::Ass(Assignment {
            var: VarAccess::new(Identifier::new(b"name", (20, 24)), None, None, (20, 24)),
            op: AssignmentOperator::Eq,
            exp: Expression::Int(IntNode { value: 3, span: (25, 26)}),
            span: (20, 26),
        })],
    };

    let mut parser = Parser::new(&lexed.unwrap());
    let actual = parser.instance_decl().unwrap();

    assert_eq!(expected, actual);
}

#[test]
fn no_init_inst() {
    let lexed = lex(b"instance foo (bar)");
    let expected = Instance {
        name: Identifier::new(b"foo", (9, 12)),
        class: Identifier::new(b"bar", (14, 17)),
        body: Vec::new(),
    };

    let mut parser = Parser::new(&lexed.unwrap());
    let actual = parser.instance_decl().unwrap();

    assert_eq!(expected, actual);
}
