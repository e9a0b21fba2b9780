use parsiphae::parsers::base::{string_parser, StringLiteral};
use parsiphae::parsers::identifier::{identifier_parser, Identifier};
use parsiphae::parsers::unary::Unary;
use parsiphae::parsers::util::{flatten_vec, multispace0, whitespace, ErrorKind, Input, PErr, PResult};
use parsiphae::types::{Expression, IntNode, UnaryExpression};
use std::fmt::Debug;

fn test_parser_done<'a, O: PartialEq + Debug>(
    parser: fn(Input<'a>) -> PResult<'a, O>,
    input: &'a [u8],
    expected: O,
    rest: &'a [u8],
) {
    let (actual_rest, actual) = parser(Input(input)).unwrap();
    assert_eq!(expected, actual);
    assert_eq!(Input(rest), actual_rest);
}

fn test_parser_error<'a, O: PartialEq + Debug>(
    parser: fn(Input<'a>) -> PResult<'a, O>,
    input: &'a [u8],
    expected: PResult<'a, O>,
) {
    assert_eq!(expected, parser(Input(input)));
}

fn incomplete_result<'a, O>() -> PResult<'a, O> {
    Err(PErr::Incomplete)
}

fn failure_result<'a, O>(input: &'a [u8], kind: ErrorKind) -> PResult<'a, O> {
    Err(PErr::Error(Input(input), kind))
}

fn test_expression_value(parser: fn(Input) -> PResult<Expression>, input: &[u8], expected: i64) {
    let actual = parser(Input(input)).unwrap().1.evaluate_int().unwrap();
    assert_eq!(expected, actual);
}

fn int_node(value: i64, span: (usize, usize)) -> Expression {
    Expression::Int(IntNode { value, span })
}

#[test]
fn test_string_parser() {
    test_parser_done(
        string_parser,
        b"\"hello world\"",
        StringLiteral::new(b"hello world"),
        b"",
    );

    test_parser_done(string_parser, b"\"\"", StringLiteral::new(b""), b"");

    test_parser_done(
        string_parser,
        b"\"hello\"world",
        StringLiteral::new(b"hello"),
        b"world",
    );

    test_parser_error(string_parser, b"\"hello", incomplete_result());
    test_parser_error(string_parser, b"", incomplete_result());
}

#[test]
fn string_parser_needs_a_quote() {
    test_parser_error(string_parser, b"hello", failure_result(b"hello", ErrorKind::Tag));
}

#[test]
fn test_identifier_parser() {
    test_parser_done(identifier_parser, b"foo", Identifier::new(b"foo"), b"");
    test_parser_done(
        identifier_parser,
        b"MEM_InitAll",
        Identifier::new(b"MEM_InitAll"),
        b"",
    );

    test_parser_done(identifier_parser, b"123foo", Identifier::new(b"123foo"), b"");

    test_parser_error(
        identifier_parser,
        b"123",
        failure_result(b"123", ErrorKind::Verify),
    );
}

#[test]
fn identifier_parser_refuses_keywords_and_stops_at_other_bytes() {
    test_parser_error(identifier_parser, b"VaR", failure_result(b"VaR", ErrorKind::Verify));
    test_parser_error(identifier_parser, b"if", failure_result(b"if", ErrorKind::Verify));
    test_parser_done(identifier_parser, b"iffy;", Identifier::new(b"iffy"), b";");
    test_parser_done(identifier_parser, b"a^b@c\xC4 d", Identifier::new(b"a^b@c\xC4"), b" d");
    test_parser_error(identifier_parser, b"^a", failure_result(b"^a", ErrorKind::OneOf));
    test_parser_error(identifier_parser, b"", incomplete_result());
}

#[test]
fn single() {
    let input = Input(b"!5");
    let expected = 0;

    let actual = Unary(input).unwrap().1.evaluate_int().unwrap();

    assert_eq!(expected, actual);
}

#[test]
fn test_unary_parser() {
    let exp = Expression::Unary(Box::new(UnaryExpression::new(b'-', int_node(1, (1, 2)), (0, 2))));
    test_parser_done(Unary, b"-1", exp, b"");

    let exp = Expression::Unary(Box::new(UnaryExpression::new(b'!', int_node(7, (1, 2)), (0, 2))));
    test_parser_done(Unary, b"!7", exp, b"");

    let exp = Expression::Unary(Box::new(UnaryExpression::new(b'~', int_node(123, (2, 5)), (0, 5))));
    test_parser_done(Unary, b"~ 123", exp, b"");

    let exp_inner =
        Expression::Unary(Box::new(UnaryExpression::new(b'~', int_node(123, (4, 7)), (2, 7))));
    let exp = Expression::Unary(Box::new(UnaryExpression::new(b'!', exp_inner, (0, 7))));
    test_parser_done(Unary, b"! ~ 123", exp, b"");

    test_expression_value(Unary, b"!1", 0);
    test_expression_value(Unary, b"!!!!!!!!15", 1);
    test_expression_value(Unary, b"~2147483647", -2147483648);
    test_expression_value(Unary, b"--34541", 34541);
    test_expression_value(Unary, b"-34541", -34541);
    test_expression_value(Unary, b"-0", 0);
    test_expression_value(Unary, b"+154", 154);
}

#[test]
fn unary_leaves_the_rest_of_the_input() {
    let (rest, _) = Unary(Input(b"-1 + 2")).unwrap();
    assert_eq!(Input(b"+ 2"), rest);
    assert_eq!(Err(PErr::Error(Input(b"$"), ErrorKind::Lex)), Unary(Input(b"$")));
    assert_eq!(Err(PErr::Error(Input(b";"), ErrorKind::Parse)), Unary(Input(b";")));
}

#[test]
fn simple_whitespace() {
    let input = Input(b" \n \t\r");
    let expected = Input(b" \n \t\r");

    let actual = whitespace(input).unwrap().1;

    assert_eq!(expected, actual);
}

#[test]
fn no_whitespace() {
    let input = Input(b"");
    let expected: Vec<Input> = Vec::new();

    let actual = multispace0(input).unwrap().1;

    assert_eq!(expected, actual);
}

#[test]
fn simple_line_comment() {
    let input = Input(b"//foo\r\n");
    let expected = Input(b"//foo\r\n");

    let actual = whitespace(input).unwrap().1;

    assert_eq!(expected, actual);
}

#[test]
fn trailing_line_comment() {
    let input = Input(b"//foo");
    let expected = Input(b"//foo");

    let actual = whitespace(input).unwrap().1;

    assert_eq!(expected, actual);
}

#[test]
fn trailing_empty_line_comment() {
    let input = Input(b"//");
    let expected = Input(b"//");

    let actual = whitespace(input).unwrap().1;

    assert_eq!(expected, actual);
}

#[test]
fn empty_line_comment() {
    let input = Input(b"//\n");
    let expected = Input(b"//\n");

    let actual = whitespace(input).unwrap().1;

    assert_eq!(expected, actual);
}

#[test]
fn empty_multi_line_comment() {
    let input = Input(b"/**/");
    let expected = Input(b"/**/");

    let actual = whitespace(input).unwrap().1;

    assert_eq!(expected, actual);
}

#[test]
fn simple_multi_line_comment() {
    let input = Input(b"/*foo*/");
    let expected = Input(b"/*foo*/");

    let actual = whitespace(input).unwrap().1;

    assert_eq!(expected, actual);
}

#[test]
fn whitespace_stops_at_the_first_piece() {
    let (rest, piece) = whitespace(Input(b"/*a*/ /*b*/x")).unwrap();
    assert_eq!(Input(b"/*a*/"), piece);
    assert_eq!(Input(b" /*b*/x"), rest);
    assert_eq!(Err(PErr::Incomplete), whitespace(Input(b"/*open")));
    assert_eq!(Err(PErr::Incomplete), whitespace(Input(b"/")));
    assert_eq!(Err(PErr::Error(Input(b"x"), ErrorKind::Alt)), whitespace(Input(b"x")));
}

#[test]
fn multispace_collects_every_piece() {
    let (rest, pieces) = multispace0(Input(b" //c\n/**/\tx y")).unwrap();
    assert_eq!(vec![Input(b" "), Input(b"//c\n"), Input(b"/**/"), Input(b"\t")], pieces);
    assert_eq!(Input(b"x y"), rest);
}

#[test]
fn flatten_keeps_the_order() {
    let nested = vec![vec![1, 2], vec![], vec![3], vec![4, 5, 6]];
    assert_eq!(vec![1, 2, 3, 4, 5, 6], flatten_vec(nested));
    let empty: Vec<Vec<u8>> = Vec::new();
    assert_eq!(Vec::<u8>::new(), flatten_vec(empty));
}
