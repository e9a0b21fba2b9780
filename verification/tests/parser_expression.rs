use parsiphae::lexer::lex;
use parsiphae::parser::parser::Parser;
use parsiphae::types::{Call, Expression, Identifier, IntNode, StringLiteral, VarAccess};

fn evaluates_to(input: &[u8], expected: i64) {
    let lexed = lex(input).unwrap();
    let mut parser = Parser::new(&lexed);
    let expr = parser.expression().unwrap();
    let actual = expr.evaluate_int().unwrap();
    assert_eq!(expected, actual);
}

#[test]
fn addition() {
    evaluates_to(b"2+3", 5);
}

#[test]
fn multiply() {
    evaluates_to(b"2*3", 6);
}

#[test]
fn greater() {
    evaluates_to(b"2>3", 0);
}

#[test]
fn greater2() {
    evaluates_to(b"2<3", 1);
}

#[test]
fn bitand() {
    evaluates_to(b"3 & 1", 1);
}

#[test]
fn bitand2() {
    evaluates_to(b"5 & 3", 1);
}

#[test]
fn bitor() {
    evaluates_to(b"2 | 4", 6);
}

#[test]
fn paren() {
    evaluates_to(b"(2)", 2);
}

#[test]
fn left_associative() {
    evaluates_to(b"5-2-1", 2);
}

#[test]
fn complex0() {
    evaluates_to(b"4+8/2*9", 40);
}

#[test]
fn complex1() {
    evaluates_to(b"7+4/4*2", 9);
}

#[test]
fn complex2() {
    evaluates_to(b"3+11*4+12/3", 51);
}

#[test]
fn complex3() {
    evaluates_to(b"12-12+8*9-8", 64);
}

#[test]
fn complex4() {
    evaluates_to(b"13+15-12*5/4-13", 0);
}

#[test]
fn complex5() {
    evaluates_to(b"6/3-3+12+10*3", 41);
}

#[test]
fn complex6() {
    evaluates_to(b"3*5&1", 3);
}

#[test]
fn complex7() {
    evaluates_to(b"3<<1+7", 13);
}

#[test]
fn complex8() {
    evaluates_to(b"1||0&&1||0", 1);
}

#[test]
fn complex9() {
    evaluates_to(b"1&&1||1&&0", 0);
}

#[test]
fn complex10() {
    evaluates_to(b"7*-3", -21);
}

#[test]
fn complex11() {
    evaluates_to(b"7*-3+5", -16);
}

#[test]
fn complex12() {
    evaluates_to(b"7*-(3+5)", -56);
}

#[test]
fn repeated_unary() {
    evaluates_to(b"!!!!!!!!15", 1);
}

#[test]
fn expression_no_param() {
    let lexed = lex(b"foo()");
    let expected = Call {
        func: Identifier::new(b"foo", (0, 3)),
        params: Vec::new(),
        span: (0, 5),
    };

    let mut parser = Parser::new(&lexed.unwrap());
    let actual = parser.expression().unwrap();

    match actual {
        Expression::Call(call) => assert_eq!(expected, *call),
        _ => {
            println!("Actually got {:?}", actual);
            assert!(false);
        }
    }
}

#[test]
fn expression_single_int_param() {
    let lexed = lex(b"foo(3)");
    let expected = Call {
        func: Identifier::new(b"foo", (0, 3)),
        params: vec![Expression::Int(IntNode { value: 3, span: (4, 5)})],
        span: (0, 6),
    };

    let mut parser = Parser::new(&lexed.unwrap());
    let actual = parser.expression().unwrap();

    match actual {
        Expression::Call(call) => assert_eq!(expected, *call),
        _ => {
            println!("Actually got {:?}", actual);
            assert!(false);
        }
    }
}

#[test]
fn expression_multi_mixed_params() {
    let lexed = lex(b"foo(3, \"hello\")");
    let expected = Call {
        func: Identifier::new(b"foo", (0, 3)),
        params: vec![
            Expression::Int(IntNode { value: 3, span: (4, 5)}),
            Expression::String(StringLiteral::new(b"hello", (7, 14))),
        ],
        span: (0, 15),
    };

    let mut parser = Parser::new(&lexed.unwrap());
    let actual = parser.expression().unwrap();

    match actual {
        Expression::Call(call) => assert_eq!(expected, *call),
        _ => {
            println!("Actually got {:?}", actual);
            assert!(false);
        }
    }
}

#[test]
fn expression_simple() {
    let lexed = lex(b"foo");
    let expected = VarAccess::new(Identifier::new(b"foo", (0, 3)), None, None, (0, 3));

    let mut parser = Parser::new(&lexed.unwrap());
    let actual = parser.expression().unwrap();

    match actual {
        Expression::Identifier(va) => assert_eq!(expected, *va),
        _ => {
            println!("Actually got {:?}", actual);
            assert!(false);
        }
    }
}

#[test]
fn expression_instance() {
    let lexed = lex(b"foo.bar");
    let expected = VarAccess::new(
        Identifier::new(b"foo", (0, 3)),
        Some(Identifier::new(b"bar", (4, 7))),
        None,
        (0, 7),
    );

    let mut parser = Parser::new(&lexed.unwrap());
    let actual = parser.expression().unwrap();

    match actual {
        Expression::Identifier(va) => assert_eq!(expected, *va),
        _ => {
            println!("Actually got {:?}", actual);
            assert!(false);
        }
    }
}

#[test]
fn expression_simple_array_int() {
    let lexed = lex(b"foo[3]");
    let expected = VarAccess::new(
        Identifier::new(b"foo", (0, 3)),
        None,
        Some(Expression::Int(IntNode { value: 3, span: (4, 5)})),
        (0, 6),
    );

    let mut parser = Parser::new(&lexed.unwrap());
    let actual = parser.expression().unwrap();

    match actual {
        Expression::Identifier(va) => assert_eq!(expected, *va),
        _ => {
            println!("Actually got {:?}", actual);
            assert!(false);
        }
    }
}

#[test]
fn expression_instance_array_int() {
    let lexed = lex(b"foo.bar[3]");
    let expected = VarAccess::new(
        Identifier::new(b"foo", (0, 3)),
        Some(Identifier::new(b"bar", (4, 7))),
        Some(Expression::Int(IntNode { value: 3, span: (8, 9)})),
        (0, 10),
    );

    let mut parser = Parser::new(&lexed.unwrap());
    let actual = parser.expression().unwrap();

    match actual {
        Expression::Identifier(va) => assert_eq!(expected, *va),
        _ => {
            println!("Actually got {:?}", actual);
            assert!(false);
        }
    }
}
