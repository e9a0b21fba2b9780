use parsiphae::lexer::TokenKind::{Assign, Identifier, Integer, Plus, EOF};
use parsiphae::lexer::{lex, Token, TokenKind};

#[test]
fn no_ws() {
    let input = b"1+2=3";
    let lexed = lex(input).unwrap();

    let expected = vec![
        Token {
            kind: Integer(1),
            span: (0, 1),
        },
        Token {
            kind: Plus,
            span: (1, 2),
        },
        Token {
            kind: Integer(2),
            span: (2, 3),
        },
        Token {
            kind: Assign,
            span: (3, 4),
        },
        Token {
            kind: Integer(3),
            span: (4, 5),
        },
        Token {
            kind: EOF,
            span: (5, 5),
        },
    ];

    assert_eq!(expected, lexed);
}

#[test]
fn with_ws() {
    let input = b"1 + 2 = 3";
    let lexed = lex(input).unwrap();

    let expected = vec![
        Token {
            kind: Integer(1),
            span: (0, 1),
        },
        Token {
            kind: Plus,
            span: (2, 3),
        },
        Token {
            kind: Integer(2),
            span: (4, 5),
        },
        Token {
            kind: Assign,
            span: (6, 7),
        },
        Token {
            kind: Integer(3),
            span: (8, 9),
        },
        Token {
            kind: EOF,
            span: (9, 9),
        },
    ];

    assert_eq!(expected, lexed);
}

#[test]
fn with_newline() {
    let input = b"foo + 2\r\n= 3";
    let lexed = lex(input).unwrap();

    let expected = vec![
        Token {
            kind: Identifier(b"foo".to_vec()),
            span: (0, 3),
        },
        Token {
            kind: Plus,
            span: (4, 5),
        },
        Token {
            kind: Integer(2),
            span: (6, 7),
        },
        Token {
            kind: Assign,
            span: (9, 10),
        },
        Token {
            kind: Integer(3),
            span: (11, 12),
        },
        Token {
            kind: EOF,
            span: (12, 12),
        },
    ];

    assert_eq!(expected, lexed);
}

#[test]
fn tokens_are_shown_to_the_user() {
    let show = |kind: TokenKind| Token { kind, span: (0, 0) }.stringified();
    assert_eq!(show(TokenKind::Identifier(b"foo_Bar".to_vec())), "FOO_BAR");
    assert_eq!(show(TokenKind::Comment("a\nb".to_string())), "// a\\nb");
    assert_eq!(show(TokenKind::StringLit(b"hi".to_vec())), "\"hi\"");
    assert_eq!(show(TokenKind::Semicolon), "SEMICOLON");
    assert_eq!(show(TokenKind::Integer(5)), "INTEGER(5)");
}

#[test]
fn longest_operator_wins() {
    let kinds: Vec<TokenKind> = lex(b">>= <<= a/=b").unwrap().into_iter().map(|t| t.kind).collect();
    assert_eq!(
        kinds,
        vec![
            TokenKind::ShiftRight,
            Assign,
            TokenKind::ShiftLeft,
            Assign,
            Identifier(b"a".to_vec()),
            TokenKind::DivideAssign,
            Identifier(b"b".to_vec()),
            EOF
        ]
    );
}

#[test]
fn token_names_follow_their_contents() {
    let show = |kind: TokenKind| Token { kind, span: (0, 0) }.stringified();
    assert_eq!(show(TokenKind::Integer(-9223372036854775808)), "INTEGER(-9223372036854775808)");
    assert_eq!(show(TokenKind::Decimal(b"1.5".to_vec())), "DECIMAL(1.5)");
    assert_eq!(show(TokenKind::Identifier(vec![])), "");
    assert_eq!(parsiphae::lexer::kind_name(&TokenKind::Comment("a\"b".to_string())), "Comment(\"a\\\"b\")");
    assert_eq!(parsiphae::lexer::kind_name(&TokenKind::StringLit(vec![0, 255])), "StringLit([0, 255])");
    assert_eq!(parsiphae::lexer::integer_string(1200), "1200");
}
