use lory::ast::{BinOp, Expression, Literal, UnaryOp};
use lory::lexer::{self, tokenize};
use lory::parser::{parse, Error, Parser};

fn num(text: &str) -> Expression {
    Expression::Literal(Literal::Number(text.to_string()))
}

fn bin(left: Expression, op: BinOp, right: Expression) -> Expression {
    Expression::BinaryOp { left: Box::new(left), op, right: Box::new(right) }
}

fn un(op: UnaryOp, expr: Expression) -> Expression {
    Expression::UnaryOp { op, expr: Box::new(expr) }
}

#[test]
fn expression() {
    let tokens = tokenize("(5 - (3 - 1)) + -1");
    let mut parser = Parser::new(tokens);
    let ast = parser.parse_expression();
    assert_eq!(
        ast,
        Ok(bin(
            bin(num("5"), BinOp::Sub, bin(num("3"), BinOp::Sub, num("1"))),
            BinOp::Add,
            un(UnaryOp::Neg, num("1")),
        ))
    );
}

#[test]
fn multiplication_binds_tighter() {
    assert_eq!(
        parse("2 + 3 * 4"),
        Ok(bin(num("2"), BinOp::Add, bin(num("3"), BinOp::Mul, num("4"))))
    );
}

#[test]
fn parentheses_group() {
    assert_eq!(
        parse("(1 + 2) * 3"),
        Ok(bin(bin(num("1"), BinOp::Add, num("2")), BinOp::Mul, num("3")))
    );
}

#[test]
fn unary_chains_to_the_right() {
    assert_eq!(
        parse("!!true"),
        Ok(un(UnaryOp::Not, un(UnaryOp::Not, Expression::Literal(Literal::True))))
    );
    assert_eq!(parse("--1"), Ok(un(UnaryOp::Neg, un(UnaryOp::Neg, num("1")))));
}

#[test]
fn binary_levels_associate_left() {
    assert_eq!(
        parse("1 - 2 - 3"),
        Ok(bin(bin(num("1"), BinOp::Sub, num("2")), BinOp::Sub, num("3")))
    );
    assert_eq!(
        parse("8 / 4 * 2"),
        Ok(bin(bin(num("8"), BinOp::Div, num("4")), BinOp::Mul, num("2")))
    );
}

#[test]
fn comparison_and_equality_levels() {
    assert_eq!(
        parse("1 < 2 == nil != false"),
        Ok(bin(
            bin(
                bin(num("1"), BinOp::Less, num("2")),
                BinOp::Equal,
                Expression::Literal(Literal::Nil)
            ),
            BinOp::NotEqual,
            Expression::Literal(Literal::False),
        ))
    );
    assert_eq!(
        parse("1 >= 2 > 3 <= 4"),
        Ok(bin(
            bin(bin(num("1"), BinOp::GreaterEqual, num("2")), BinOp::Greater, num("3")),
            BinOp::LessEqual,
            num("4"),
        ))
    );
    assert_eq!(
        parse("-1 + 2 < 3"),
        Ok(bin(bin(un(UnaryOp::Neg, num("1")), BinOp::Add, num("2")), BinOp::Less, num("3")))
    );
}

#[test]
fn string_literal_operand() {
    assert_eq!(
        parse("\"a\" == \"b\""),
        Ok(bin(
            Expression::Literal(Literal::String { string: "a".to_string() }),
            BinOp::Equal,
            Expression::Literal(Literal::String { string: "b".to_string() }),
        ))
    );
}

#[test]
fn syntax_errors() {
    assert_eq!(parse(""), Err(Error::Syntax));
    assert_eq!(parse(")"), Err(Error::Syntax));
    assert_eq!(parse("1 +"), Err(Error::Syntax));
    assert_eq!(parse("(1"), Err(Error::Syntax));
    assert_eq!(parse("(1 2)"), Err(Error::Syntax));
    assert_eq!(parse("foo"), Err(Error::Syntax));
}

#[test]
fn lexer_errors_surface() {
    assert_eq!(parse("1 + @"), Err(Error::LexerError(lexer::Error::UnexpectedCharacter)));
    assert_eq!(parse("1 @"), Err(Error::LexerError(lexer::Error::UnexpectedCharacter)));
    assert_eq!(
        parse("\"abc"),
        Err(Error::LexerError(lexer::Error::UnterminatedString { pos: 0 }))
    );
    assert_eq!(
        parse("(1 \"x"),
        Err(Error::LexerError(lexer::Error::UnterminatedString { pos: 3 }))
    );
}

#[test]
fn trailing_tokens_are_left() {
    let mut parser = Parser::new(tokenize("1 2"));
    assert_eq!(parser.parse_expression(), Ok(num("1")));
    assert_eq!(parser.parse_expression(), Ok(num("2")));
    assert_eq!(parser.parse_expression(), Err(Error::Syntax));
}

#[test]
fn parse_error_messages() {
    assert_eq!(Error::Syntax.message(), "syntax error");
    assert_eq!(
        Error::LexerError(lexer::Error::UnexpectedCharacter).message(),
        "unexpected character"
    );
}
