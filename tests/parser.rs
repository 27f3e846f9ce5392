use mini_haskell::ast::{BinaryExpr, BinaryOp, CondExpr, Expr, ExprKind, Literal};
use mini_haskell::parser::{Parser, SyntaxError};
use mini_haskell::span::Span;

fn natural(n: usize, start: usize, end: usize) -> Expr {
    Expr::new(ExprKind::Literal(Literal::NatureNum(n)), Span { start, end })
}

fn boolean(b: bool, start: usize, end: usize) -> Expr {
    Expr::new(ExprKind::Literal(Literal::Bool(b)), Span { start, end })
}

fn bin(lhs: Expr, op: BinaryOp, rhs: Expr) -> Expr {
    let span = Span { start: lhs.span.start, end: rhs.span.end };
    Expr::new(ExprKind::BinaryExpr(BinaryExpr { lhs: Box::new(lhs), op, rhs: Box::new(rhs) }), span)
}

fn cond(c: Expr, t: Expr, e: Expr) -> Expr {
    let span = Span { start: c.span.start, end: e.span.end };
    Expr::new(
        ExprKind::CondExpr(CondExpr {
            condition: Box::new(c),
            then_branch: Box::new(t),
            else_branch: Box::new(e),
        }),
        span,
    )
}

#[test]
fn parse_natural_literals() {
    assert_eq!(Parser::parse("0"), (Some(natural(0, 0, 1)), vec![]));
    assert_eq!(Parser::parse("123"), (Some(natural(123, 0, 3)), vec![]));
}

#[test]
fn parse_booleans() {
    assert_eq!(Parser::parse("T"), (Some(boolean(true, 0, 1)), vec![]));
    assert_eq!(Parser::parse(" F"), (Some(boolean(false, 1, 2)), vec![]));
}

#[test]
fn addition_of_two() {
    assert_eq!(
        Parser::parse("1+2"),
        (Some(bin(natural(1, 0, 1), BinaryOp::Plus, natural(2, 2, 3))), vec![])
    );
}

#[test]
fn addition_is_left_associative() {
    let expected = bin(bin(natural(1, 0, 1), BinaryOp::Plus, natural(2, 2, 3)), BinaryOp::Plus, natural(3, 4, 5));
    assert_eq!(Parser::parse("1+2+3"), (Some(expected), vec![]));
    assert_eq!(Parser::new("1+2+3").addition().unwrap().span, Span { start: 0, end: 5 });
}

#[test]
fn comparison_binds_tighter_than_logical() {
    let expected = bin(
        boolean(true, 0, 1),
        BinaryOp::Ampersand,
        bin(boolean(false, 2, 3), BinaryOp::Less, natural(1, 4, 5)),
    );
    assert_eq!(Parser::parse("T&F<1"), (Some(expected), vec![]));
}

#[test]
fn addition_binds_tighter_than_comparison() {
    let expected = bin(
        bin(natural(1, 0, 1), BinaryOp::Plus, natural(2, 2, 3)),
        BinaryOp::Equal,
        bin(natural(3, 4, 5), BinaryOp::Plus, natural(4, 6, 7)),
    );
    assert_eq!(Parser::new("1+2=3+4").comparison().unwrap(), expected);
}

#[test]
fn comparison_is_left_associative() {
    let expected = bin(bin(natural(1, 0, 1), BinaryOp::Less, natural(2, 2, 3)), BinaryOp::Equal, natural(3, 4, 5));
    assert_eq!(Parser::new("1<2=3").comparison().unwrap(), expected);
}

#[test]
fn logical_is_left_associative() {
    let expected = bin(
        bin(boolean(true, 0, 1), BinaryOp::Ampersand, boolean(false, 2, 3)),
        BinaryOp::Ampersand,
        boolean(true, 4, 5),
    );
    assert_eq!(Parser::new("T&F&T").logical().unwrap(), expected);
}

#[test]
fn conditional_expression() {
    let expected = cond(boolean(true, 0, 1), natural(1, 2, 3), natural(0, 4, 5));
    assert_eq!(Parser::parse("T?1:0"), (Some(expected), vec![]));
}

#[test]
fn conditional_without_else_branch() {
    assert_eq!(Parser::parse("T?1"), (None, vec![SyntaxError::UnexpectedEOF]));
}

#[test]
fn conditional_with_wrong_separator() {
    assert_eq!(
        Parser::parse("T?1 2"),
        (
            None,
            vec![SyntaxError::UnexpectedToken {
                span: Span { start: 4, end: 5 },
                expected: ":",
                found: "natural number",
            }]
        )
    );
}

#[test]
fn conditional_branches_are_logical() {
    let expected = cond(
        bin(natural(1, 0, 1), BinaryOp::Less, natural(2, 2, 3)),
        bin(boolean(true, 4, 5), BinaryOp::Ampersand, boolean(false, 6, 7)),
        bin(natural(1, 8, 9), BinaryOp::Plus, natural(1, 10, 11)),
    );
    assert_eq!(Parser::new("1<2?T&F:1+1").conditional().unwrap(), expected);
    assert_eq!(Parser::new("1<2?T&F:1+1").expression().unwrap().span, Span { start: 0, end: 11 });
}

#[test]
fn invalid_byte_between_operands_is_skipped() {
    assert_eq!(
        Parser::parse("1+@2"),
        (Some(bin(natural(1, 0, 1), BinaryOp::Plus, natural(2, 3, 4))), vec![])
    );
    assert_eq!(Parser::parse("1@+2"), Parser::parse("1 +2"));
}

#[test]
fn primary_requires_a_literal() {
    assert_eq!(
        Parser::parse("+"),
        (None, vec![SyntaxError::Expected { span: Span { start: 0, end: 1 }, expected: "expression" }])
    );
    assert_eq!(
        Parser::parse("x"),
        (None, vec![SyntaxError::Expected { span: Span { start: 0, end: 1 }, expected: "expression" }])
    );
}

#[test]
fn empty_input_is_unexpected_eof() {
    assert_eq!(Parser::parse(""), (None, vec![SyntaxError::UnexpectedEOF]));
    assert_eq!(Parser::parse("@ "), (None, vec![SyntaxError::UnexpectedEOF]));
    assert_eq!(Parser::parse("1+"), (None, vec![SyntaxError::UnexpectedEOF]));
}

#[test]
fn tokens_after_the_expression_are_left_unread() {
    assert_eq!(Parser::parse("1 2"), (Some(natural(1, 0, 1)), vec![]));
}

#[test]
fn addition_stops_before_other_operators() {
    let mut p = Parser::new("1+2&3");
    assert_eq!(p.addition().unwrap(), bin(natural(1, 0, 1), BinaryOp::Plus, natural(2, 2, 3)));
}
