use parsiphae::lexer::{lex, TokenKind};
use parsiphae::parser::errors::{parse_error_diagnostic, ParsePossibility, ParsingError, ParsingErrorKind};
use parsiphae::parser::parser::Parser;
use parsiphae::types::{
    ArraySizeDeclaration, Assignment, AssignmentOperator, BinaryExpression, BinaryOperator, Call,
    Expression, Identifier, IfBranch, IfStatement, IntNode, ReturnStatement, Statement, VarAccess,
    VarDeclaration,
};


#[test]
fn statement_simple_empty() {
    let lexed = lex(b"if (3) {}").unwrap();
    println!("Lexed as: {:#?}", lexed);
    let expected = IfBranch {
        cond: Expression::Int(IntNode {
            value: 3,
            span: (4, 5),
        }),
        body: Vec::new(),
        span: (0, 9),
    };

    let mut parser = Parser::new(&lexed);
    let actual = &parser.if_statement().unwrap().branches[0];

    assert_eq!(&expected, actual);
}

#[test]
fn statement_single_statement() {
    let lexed = lex(b"if (3) {5;}").unwrap();
    println!("Lexed as: {:#?}", lexed);
    let expected = IfBranch {
        cond: Expression::Int(IntNode {
            value: 3,
            span: (4, 5),
        }),
        body: vec![Statement::Exp(Expression::Int(IntNode {
            value: 5,
            span: (8, 9),
        }))],
        span: (0, 11),
    };

    let mut parser = Parser::new(&lexed);
    let actual = &parser.if_statement().unwrap().branches[0];

    assert_eq!(&expected, actual);
}

#[test]
fn statement_complex_cond() {
    let lexed = lex(b"if (foo()||bar()) {5;}").unwrap();
    let cond = Expression::Binary(Box::new(BinaryExpression::new(
        BinaryOperator::Or,
        Expression::Call(Box::new(Call {
            func: Identifier::new(b"foo", (4, 7)),
            params: Vec::new(),
            span: (4, 9),
        })),
        Expression::Call(Box::new(Call {
            func: Identifier::new(b"bar", (11, 14)),
            params: Vec::new(),
            span: (11, 16),
        })),
        (4, 16),
    )));

    let expected = IfBranch {
        cond,
        body: vec![Statement::Exp(Expression::Int(IntNode {
            value: 5,
            span: (19, 20),
        }))],
        span: (0, 22),
    };

    let mut parser = Parser::new(&lexed);
    let actual = &parser.if_statement().unwrap().branches[0];

    assert_eq!(&expected, actual);
}

#[test]
fn statement_many_statements() {
    let lexed = lex(b"if (3) {5;3;6;}").unwrap();
    println!("Lexed as: {:#?}", lexed);
    let expected = IfBranch {
        cond: Expression::Int(IntNode {
            value: 3,
            span: (4, 5),
        }),
        body: vec![
            Statement::Exp(Expression::Int(IntNode {
                value: 5,
                span: (8, 9),
            })),
            Statement::Exp(Expression::Int(IntNode {
                value: 3,
                span: (10, 11),
            })),
            Statement::Exp(Expression::Int(IntNode {
                value: 6,
                span: (12, 13),
            })),
        ],
        span: (0, 15),
    };

    let mut parser = Parser::new(&lexed);
    let actual = &parser.if_statement().unwrap().branches[0];

    assert_eq!(&expected, actual);
}

#[test]
fn statement_else_branch_empty() {
    let lexed = lex(b"if 0 {} else{}").unwrap();
    let expected: Vec<Statement> = Vec::new();

    let mut parser = Parser::new(&lexed);
    let actual = &parser.if_statement().unwrap().else_branch.unwrap();

    assert_eq!(&expected, actual);
}

#[test]
fn statement_else_branch_single_statement() {
    let lexed = lex(b"if 0 {} else {5;}").unwrap();
    let expected: Vec<Statement> = vec![Statement::Exp(Expression::Int(IntNode {
        value: 5,
        span: (14, 15),
    }))];

    let mut parser = Parser::new(&lexed);
    let actual = &parser.if_statement().unwrap().else_branch.unwrap();

    assert_eq!(&expected, actual);
}

#[test]
fn statement_if_else_empty() {
    let lexed = lex(b"if 3 {} else {}").unwrap();
    println!("Lexed as: {:#?}", lexed);
    let expected = IfStatement {
        branches: vec![IfBranch {
            cond: Expression::Int(IntNode {
                value: 3,
                span: (3, 4),
            }),
            body: Vec::new(),
            span: (0, 7),
        }],
        else_branch: Some(Vec::new()),
        span: (0, 15),
    };

    let mut parser = Parser::new(&lexed);
    let actual = &parser.if_statement().unwrap();

    assert_eq!(&expected, actual);
}

#[test]
fn statement_double_if() {
    let lexed = lex(b"if(3){} else if (2) {}").unwrap();
    println!("Lexed as: {:#?}", lexed);
    let expected = IfStatement {
        branches: vec![
            IfBranch {
                cond: Expression::Int(IntNode {
                    value: 3,
                    span: (3, 4),
                }),
                body: Vec::new(),
                span: (0, 7),
            },
            IfBranch {
                cond: Expression::Int(IntNode {
                    value: 2,
                    span: (17, 18),
                }),
                body: Vec::new(),
                span: (8, 21),
            },
        ],
        else_branch: None,
        span: (0, 22),
    };

    let mut parser = Parser::new(&lexed);
    let actual = &parser.if_statement().unwrap();

    assert_eq!(&expected, actual);
}

#[test]
fn statement_double_if_else() {
    let lexed = lex(b"if(3){} else if (2) {} else {}").unwrap();
    let expected = IfStatement {
        branches: vec![
            IfBranch {
                cond: Expression::Int(IntNode {
                    value: 3,
                    span: (3, 4),
                }),
                body: Vec::new(),
                span: (0, 7),
            },
            IfBranch {
                cond: Expression::Int(IntNode {
                    value: 2,
                    span: (17, 18),
                }),
                body: Vec::new(),
                span: (8, 21),
            },
        ],
        else_branch: Some(Vec::new()),
        span: (0, 30),
    };

    let mut parser = Parser::new(&lexed);
    let actual = &parser.if_statement().unwrap();

    assert_eq!(&expected, actual);
}

#[test]
fn statement_simple_eq_int() {
    let lexed = lex(b"foo=3").unwrap();
    let expected = Assignment {
        var: VarAccess::new(Identifier::new(b"foo", (0, 3)), None, None, (0, 3)),
        op: AssignmentOperator::Eq,
        exp: Expression::Int(IntNode {
            value: 3,
            span: (4, 5),
        }),
        span: (0, 5),
    };
    let mut parser = Parser::new(&lexed);
    let actual = parser.assignment().unwrap();

    assert_eq!(expected, actual);
}

#[test]
fn statement_instance_eq_int() {
    let lexed = lex(b"foo.bar=3").unwrap();
    let expected = Assignment {
        var: VarAccess::new(
            Identifier::new(b"foo", (0, 3)),
            Some(Identifier::new(b"bar", (4, 7))),
            None,
            (0, 7),
        ),
        op: AssignmentOperator::Eq,
        exp: Expression::Int(IntNode {
            value: 3,
            span: (8, 9),
        }),
        span: (0, 9),
    };
    let mut parser = Parser::new(&lexed);
    let actual = parser.assignment().unwrap();

    assert_eq!(expected, actual);
}

#[test]
fn statement_instance_diveq_int() {
    let lexed = lex(b"foo.bar/=3").unwrap();
    let expected = Assignment {
        var: VarAccess::new(
            Identifier::new(b"foo", (0, 3)),
            Some(Identifier::new(b"bar", (4, 7))),
            None,
            (0, 7),
        ),
        op: AssignmentOperator::DivideEq,
        exp: Expression::Int(IntNode {
            value: 3,
            span: (9, 10),
        }),
        span: (0, 10),
    };
    let mut parser = Parser::new(&lexed);
    let actual = parser.assignment().unwrap();

    assert_eq!(expected, actual);
}

#[test]
fn statement_array_assign() {
    let lexed = lex(b"foo[0]/=3").unwrap();
    let expected = Assignment {
        var: VarAccess::new(
            Identifier::new(b"foo", (0, 3)),
            None,
            Some(Expression::Int(IntNode {
                value: 0,
                span: (4, 5),
            })),
            (0, 6),
        ),
        op: AssignmentOperator::DivideEq,
        exp: Expression::Int(IntNode {
            value: 3,
            span: (8, 9),
        }),
        span: (0, 9),
    };
    let mut parser = Parser::new(&lexed);
    let actual = parser.assignment().unwrap();

    assert_eq!(expected, actual);
}

#[test]
fn array_assign_stmt() {
    let lexed = lex(b"foo[0]/=3;").unwrap();
    let expected = Statement::Ass(Assignment {
        var: VarAccess::new(
            Identifier::new(b"foo", (0, 3)),
            None,
            Some(Expression::Int(IntNode {
                value: 0,
                span: (4, 5),
            })),
            (0, 6),
        ),
        op: AssignmentOperator::DivideEq,
        exp: Expression::Int(IntNode {
            value: 3,
            span: (8, 9),
        }),
        span: (0, 9),
    });
    let mut parser = Parser::new(&lexed);
    let actual = parser.statement().unwrap();

    assert_eq!(expected, actual);
}

#[test]
fn double_if_else_stmt() {
    let lexed = lex(b"if(3){} else if (2) {} else {};").unwrap();
    println!("Lexed as: {:#?}", lexed);
    let expected = Statement::If(Box::new(IfStatement {
        branches: vec![
            IfBranch {
                cond: Expression::Int(IntNode {
                    value: 3,
                    span: (3, 4),
                }),
                body: Vec::new(),
                span: (0, 7),
            },
            IfBranch {
                cond: Expression::Int(IntNode {
                    value: 2,
                    span: (17, 18),
                }),
                body: Vec::new(),
                span: (8, 21),
            },
        ],
        else_branch: Some(Vec::new()),
        span: (0, 30),
    }));

    let mut parser = Parser::new(&lexed);
    let actual = &parser.statement().unwrap();

    assert_eq!(&expected, actual);
}

#[test]
fn statement_multi_var_decl() {
    let lexed = lex(b"var int foo, var zCVob bar;");
    let expected = Statement::VarDeclarations(vec![
        VarDeclaration::new(
            Identifier::new(b"int", (4, 7)),
            Identifier::new(b"foo", (8, 11)),
            None,
            (0, 12),
        ),
        VarDeclaration::new(
            Identifier::new(b"zCVob", (17, 22)),
            Identifier::new(b"bar", (23, 26)),
            None,
            (13, 27),
        ),
    ]);

    let mut parser = Parser::new(&lexed.unwrap());
    let actual = parser.statement().unwrap();

    assert_eq!(expected, actual);
}

#[test]
fn statement_multi_var_decl_one_array() {
    let lexed = lex(b"var int foo[3], var zCVob bar;");
    let expected = Statement::VarDeclarations(vec![
        VarDeclaration::new(
            Identifier::new(b"int", (4, 7)),
            Identifier::new(b"foo", (8, 11)),
            Some(ArraySizeDeclaration::Size(3)),
            (0, 15),
        ),
        VarDeclaration::new(
            Identifier::new(b"zCVob", (20, 25)),
            Identifier::new(b"bar", (26, 29)),
            None,
            (16, 30),
        ),
    ]);

    let mut parser = Parser::new(&lexed.unwrap());
    let actual = parser.statement().unwrap();

    assert_eq!(expected, actual);
}

#[test]
fn statement_multi_var_decl_var_camel_case() {
    /* the parser might parse this as "var int foo[3], vAr;, which mustn't happen */

    let lexed = lex(b"var int foo[3], vAr zCVob bar;");
    let expected = vec![
        VarDeclaration::new(
            Identifier::new(b"int", (4, 7)),
            Identifier::new(b"foo", (8, 11)),
            Some(ArraySizeDeclaration::Size(3)),
            (0, 15),
        ),
        VarDeclaration::new(
            Identifier::new(b"zCVob", (20, 25)),
            Identifier::new(b"bar", (26, 29)),
            None,
            (16, 30),
        ),
    ];

    let mut parser = Parser::new(&lexed.unwrap());
    let actual = parser.var_decl().unwrap();

    assert_eq!(expected, actual);
}

#[test]
fn statement_multi_var_decl_both_array() {
    let lexed = lex(b"var int foo[3], var zCVob bar [MAX];");
    let expected = Statement::VarDeclarations(vec![
        VarDeclaration::new(
            Identifier::new(b"int", (4, 7)),
            Identifier::new(b"foo", (8, 11)),
            Some(ArraySizeDeclaration::Size(3)),
            (0, 15),
        ),
        VarDeclaration::new(
            Identifier::new(b"zCVob", (20, 25)),
            Identifier::new(b"bar", (26, 29)),
            Some(ArraySizeDeclaration::Identifier(Identifier::new(
                b"MAX",
                (31, 34),
            ))),
            (16, 36),
        ),
    ]);

    let mut parser = Parser::new(&lexed.unwrap());
    let actual = parser.statement().unwrap();

    assert_eq!(expected, actual);
}

#[test]
fn statement_void_return() {
    let lexed = lex(b"return;");
    let expected = Statement::ReturnStatement(ReturnStatement {
        exp: None,
        span: (0, 7),
    });

    let mut parser = Parser::new(&lexed.unwrap());
    let actual = parser.statement().unwrap();

    assert_eq!(expected, actual);
}

#[test]
fn statement_int_return() {
    let lexed = lex(b"return 3;");
    let expected = Statement::ReturnStatement(ReturnStatement {
        exp: Some(Expression::Int(IntNode {
            value: 3,
            span: (7, 8),
        })),
        span: (0, 9),
    });

    let mut parser = Parser::new(&lexed.unwrap());
    let actual = parser.statement().unwrap();

    assert_eq!(expected, actual);
}

#[test]
fn statement_return_identifier() {
    let lexed = lex(b"returnVar;");
    let expected = Statement::Exp(Expression::Identifier(Box::new(VarAccess::new(
        Identifier::new(b"returnVar", (0, 9)),
        None,
        None,
        (0, 9),
    ))));

    let mut parser = Parser::new(&lexed.unwrap());
    let actual = parser.statement().unwrap();

    assert_eq!(expected, actual);
}

#[test]
fn parse_error_reasons() {
    assert_eq!(
        ParsingErrorKind::ExpectedOneOf(vec![ParsePossibility::Statement, ParsePossibility::Expression])
            .reason(),
        "Statement, Expression"
    );
    assert_eq!(ParsingErrorKind::Expected(ParsePossibility::IfClause).reason(), "If-Clause");
    assert_eq!(ParsingErrorKind::ExpectedToken(TokenKind::Semicolon).reason(), "Semicolon");
    assert_eq!(
        ParsingErrorKind::ExpectedOneOfToken(vec![TokenKind::Comma, TokenKind::Identifier(vec![97])])
            .reason(),
        "Comma, Identifier([97])"
    );
    assert_eq!(
        ParsingErrorKind::UnexpectedToken(TokenKind::Comma, TokenKind::Semicolon).reason(),
        "Unexpected Token Comma, expected Semicolon"
    );
    assert_eq!(ParsingErrorKind::ReachedEOF.reason(), "Reached EOF");
    assert_eq!(ParsingErrorKind::StatementWithoutSemicolon.reason(), "missing reason");
    assert_eq!(ParsingErrorKind::ExpectedOneOf(vec![]).reason(), "");
}

#[test]
fn parse_errors_have_diagnostics() {
    let tokens = lex(b"func foo").unwrap();
    let e = ParsingError::from_token(ParsingErrorKind::MissingFunctionType, 1, false);
    let d = parse_error_diagnostic(&tokens, 4, &e).unwrap();
    assert_eq!(d.message, "A function is missing a return type");
    assert_eq!(d.code, "");
    assert_eq!(d.labels.len(), 1);
    assert_eq!(d.labels[0].span, (4, 5));
    assert_eq!(d.labels[0].file_id, 4);
    assert_eq!(d.labels[0].message, "The type is missing here");
    let e = ParsingError::from_token(ParsingErrorKind::StatementWithoutSemicolon, 2, false);
    let d = parse_error_diagnostic(&tokens, 0, &e).unwrap();
    assert_eq!(d.labels[0].span, (8, 8));
    let e = ParsingError::from_token(ParsingErrorKind::ReachedEOF, 0, false);
    assert_eq!(parse_error_diagnostic(&tokens, 0, &e).unwrap().labels[0].span, (0, 0));
    let e = ParsingError::internal_error();
    assert!(parse_error_diagnostic(&tokens, 0, &e).is_none());
}
