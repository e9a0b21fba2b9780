use parsiphae::lexer::lex;
use parsiphae::parser::parser::Parser;
use parsiphae::types::{
    ArraySizeDeclaration, Class, ConstArrayDeclaration, ConstArrayInitializer, ConstDeclaration,
    Expression, FloatNode, Identifier, IntNode, Statement, StringLiteral, UnaryExpression,
    VarDeclaration,
};


#[test]
fn decl_int_foo_decl() {
    let lexed = lex(b"var int foo;");
    let expected = vec![VarDeclaration::new(
        Identifier::new(b"int", (4, 7)),
        Identifier::new(b"foo", (8, 11)),
        None,
        (0, 12),
    )];

    let mut parser = Parser::new(&lexed.unwrap());
    let actual = parser.var_decl().unwrap();

    assert_eq!(expected, actual);
}

#[test]
fn single_int_foo_decl() {
    let lexed = lex(b"var int foo");
    let expected = VarDeclaration::new(
        Identifier::new(b"int", (4, 7)),
        Identifier::new(b"foo", (8, 11)),
        None,
        (0, 11),
    );

    let mut parser = Parser::new(&lexed.unwrap());
    let actual = parser.single_var_decl().unwrap();

    assert_eq!(expected, actual);
}
#[test]
fn decl_int_array_size() {
    let lexed = lex(b"[13]");
    let expected = ArraySizeDeclaration::Size(13);

    let mut parser = Parser::new(&lexed.unwrap());
    let actual = parser.array_size_decl().unwrap();

    assert_eq!(expected, actual);
}

#[test]
fn decl_identifier_array_size() {
    let lexed = lex(b"[MAX]");
    let expected = ArraySizeDeclaration::Identifier(Identifier::new(b"MAX", (1, 4)));

    let mut parser = Parser::new(&lexed.unwrap());
    let actual = parser.array_size_decl().unwrap();

    assert_eq!(expected, actual);
}

#[test]
fn decl_decl_int_foo() {
    let init = Expression::Int(IntNode {
        value: 5,
        span: (16, 17),
    });
    let decl = ConstDeclaration::new(
        Identifier::new(b"int", (6, 9)),
        Identifier::new(b"foo", (10, 13)),
        init,
        (0, 17),
    );
    let lexed = lex(b"const int foo = 5").unwrap();
    let mut parser = Parser::new(&lexed);
    let actual = parser.const_decl_stmt().unwrap();

    assert_eq!(Statement::ConstDeclaration(decl), actual);
}

#[test]
fn decl_decl_uppercase_const_int_foo() {
    let init = Expression::Int(IntNode {
        value: 14,
        span: (15, 17),
    });
    let decl = ConstDeclaration::new(
        Identifier::new(b"int", (6, 9)),
        Identifier::new(b"foo", (10, 13)),
        init,
        (0, 17),
    );
    let lexed = lex(b"CONST int foo= 14").unwrap();
    let mut parser = Parser::new(&lexed);
    let actual = parser.const_decl_stmt().unwrap();

    assert_eq!(Statement::ConstDeclaration(decl), actual);
}

#[test]
fn decl_decl_zcvob_foo_unary() {
    let init = Expression::Unary(Box::new(UnaryExpression::new(
        b'!',
        Expression::Int(IntNode {
            value: 5,
            span: (19, 20),
        }),
        (18, 20),
    )));
    let decl = ConstDeclaration::new(
        Identifier::new(b"zCVob", (6, 11)),
        Identifier::new(b"foo", (12, 15)),
        init,
        (0, 20),
    );
    let lexed = lex(b"CONST zCVob foo = !5").unwrap();
    let mut parser = Parser::new(&lexed);
    let actual = parser.const_decl_stmt().unwrap();
    assert_eq!(Statement::ConstDeclaration(decl), actual);
}

#[test]
fn decl_decl_int_index() {
    let init = vec![
        Expression::Int(IntNode {
            value: 5,
            span: (23, 24),
        }),
        Expression::Int(IntNode {
            value: 6,
            span: (25, 26),
        }),
        Expression::Unary(Box::new(UnaryExpression::new(
            b'+',
            Expression::Int(IntNode {
                value: 12,
                span: (28, 30),
            }),
            (27, 30),
        ))),
    ];
    let array_size = ArraySizeDeclaration::Size(3);
    let decl = ConstArrayDeclaration::new(
        Identifier::new(b"int", (6, 9)),
        Identifier::new(b"foo", (10, 13)),
        array_size,
        ConstArrayInitializer::new(init, (23, 31)),
        (0, 31),
    );

    let lexed = lex(b"const int foo [ 3 ] = {5,6,+12}").unwrap();
    let mut parser = Parser::new(&lexed);
    let actual = parser.const_decl_stmt().unwrap();
    assert_eq!(Statement::ConstArrayDeclaration(decl), actual);
}

#[test]
fn decl_decl_identifier_index() {
    let init = vec![
        Expression::Int(IntNode {
            value: 5,
            span: (30, 31),
        }),
        Expression::Int(IntNode {
            value: 6,
            span: (33, 34),
        }),
        Expression::Unary(Box::new(UnaryExpression::new(
            b'+',
            Expression::Int(IntNode {
                value: 12,
                span: (37, 39),
            }),
            (36, 39),
        ))),
    ];
    let array_size = ArraySizeDeclaration::Identifier(Identifier::new(b"MAX_SIZE", (16, 24)));
    let decl = ConstArrayDeclaration::new(
        Identifier::new(b"int", (6, 9)),
        Identifier::new(b"foo", (10, 13)),
        array_size,
        ConstArrayInitializer::new(init, (30, 40)),
        (0, 40),
    );

    let lexed = lex(b"const int foo [ MAX_SIZE ] = {5, 6, +12}").unwrap();
    let mut parser = Parser::new(&lexed);
    let actual = parser.const_decl_stmt().unwrap();
    assert_eq!(Statement::ConstArrayDeclaration(decl), actual);
}

#[test]
fn decl_decl_string_initializer() {
    let init = vec![
        Expression::String(StringLiteral::new(b"hello", (29, 36))),
        Expression::Float(FloatNode {
            value: b"6.0".to_vec(),
            span: (38, 41),
        }),
        Expression::Unary(Box::new(UnaryExpression::new(
            b'+',
            Expression::Int(IntNode {
                value: 12,
                span: (44, 46),
            }),
            (43, 46),
        ))),
    ];
    let array_size = ArraySizeDeclaration::Identifier(Identifier::new(b"MAX_SIZE", (15, 23)));
    let decl = ConstArrayDeclaration::new(
        Identifier::new(b"int", (6, 9)),
        Identifier::new(b"foo", (10, 13)),
        array_size,
        ConstArrayInitializer::new(init, (29, 47)),
        (0, 47),
    );

    let lexed = lex(b"const int foo[ MAX_SIZE ] = {\"hello\", 6.0, +12}").unwrap();
    let mut parser = Parser::new(&lexed);
    let actual = parser.const_decl_stmt().unwrap();
    assert_eq!(Statement::ConstArrayDeclaration(decl), actual);
}

#[test]
fn simple_class() {
    let lexed = lex(b"class foo {var int bar;}").unwrap();
    let expected = Class {
        name: Identifier::new(b"foo", (6, 9)),
        members: vec![VarDeclaration::new(
            Identifier::new(b"int", (15, 18)),
            Identifier::new(b"bar", (19, 22)),
            None,
            (11, 23),
        )],
    };

    let mut parser = Parser::new(&lexed);
    let actual = parser.class_decl().unwrap();
    assert_eq!(expected, actual);
}
#[test]
fn empty_class() {
    let lexed = lex(b"class foo {}").unwrap();
    let expected = Class {
        name: Identifier::new(b"foo", (6, 9)),
        members: Vec::new(),
    };

    let mut parser = Parser::new(&lexed);
    let actual = parser.class_decl().unwrap();
    assert_eq!(expected, actual);
}

// #[test]
// fn error_in_class() {
//     let lexed = lex(b"class foo { foo foo foo }");
//     let expected = ParsingError::from_span(PEK::ExpectedToken(TokenKind::Var), (12,15), true);
//     let mut parser = Parser::new(&lexed.unwrap());
//     let actual = parser.class_decl().unwrap_err();

//     assert_eq!(expected, actual);
// }

// #[test]
// fn incomplete_var_decl_in_class() {
//     let lexed = lex(b"class foo { var foo }");
//     let expected = ParsingError::from_span(PEK::ExpectedToken(TokenKind::Identifier(vec![])), (20,21), true);
//     let mut parser = Parser::new(&lexed.unwrap());
//     let actual = parser.class_decl().unwrap_err();

//     assert_eq!(expected, actual);
// }

// #[test]
// fn incomplete_func_decl() {
//     let lexed = lex(b"func void () {}");
//     let expected = ParsingError::from_span(PEK::ExpectedToken(TokenKind::Identifier(vec![])), (10,11), true);
//     let mut parser = Parser::new(&lexed.unwrap());
//     let actual = parser.func_decl().unwrap_err();

//     assert_eq!(expected, actual);
// }
