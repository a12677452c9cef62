use calculator::error::Error;
use calculator::parser::{parse, Expr};
use calculator::token::Value;

fn num(text: &str) -> Expr {
    Expr::Num(Value::Lit(text.to_string()))
}

fn neg(e: Expr) -> Expr {
    Expr::Minus(Box::new(e))
}

fn pos(e: Expr) -> Expr {
    Expr::Plus(Box::new(e))
}

fn add(lhs: Expr, rhs: Expr) -> Expr {
    Expr::Add { lhs: Box::new(lhs), rhs: Box::new(rhs) }
}

fn sub(lhs: Expr, rhs: Expr) -> Expr {
    Expr::Sub { lhs: Box::new(lhs), rhs: Box::new(rhs) }
}

fn mul(lhs: Expr, rhs: Expr) -> Expr {
    Expr::Mul { lhs: Box::new(lhs), rhs: Box::new(rhs) }
}

fn div(lhs: Expr, rhs: Expr) -> Expr {
    Expr::Div { lhs: Box::new(lhs), rhs: Box::new(rhs) }
}

#[test]
fn single_number() {
    assert_eq!(parse("42"), Ok(num("42")));
}

#[test]
fn multiplication_binds_tighter_than_addition() {
    assert_eq!(parse("2 + 3 * 4"), Ok(add(num("2"), mul(num("3"), num("4")))));
}

#[test]
fn parentheses_override_precedence() {
    assert_eq!(parse("(2 + 3) * 4"), Ok(mul(add(num("2"), num("3")), num("4"))));
}

#[test]
fn subtraction_groups_to_the_left() {
    assert_eq!(parse("10 - 2 - 3"), Ok(sub(sub(num("10"), num("2")), num("3"))));
}

#[test]
fn division_groups_to_the_left() {
    assert_eq!(parse("8 / 4 / 2"), Ok(div(div(num("8"), num("4")), num("2"))));
}

#[test]
fn chained_unary_minus() {
    assert_eq!(parse("--5"), Ok(neg(neg(num("5")))));
}

#[test]
fn mixed_unary_chain() {
    assert_eq!(parse("-+-5"), Ok(neg(pos(neg(num("5"))))));
}

#[test]
fn unary_minus_on_left_operand() {
    assert_eq!(parse("-1 / 0"), Ok(div(neg(num("1")), num("0"))));
}

#[test]
fn division_by_zero_still_parses() {
    assert_eq!(parse("1 / 0"), Ok(div(num("1"), num("0"))));
    assert_eq!(parse("0/0"), Ok(div(num("0"), num("0"))));
}

#[test]
fn inf_literal_parses() {
    assert_eq!(parse("inf"), Ok(Expr::Num(Value::Inf)));
}

#[test]
fn higher_precedence_climbs_on_the_right() {
    // After `1 +` the tighter-binding `*` climbs on the right, and the climb
    // combines its right side with everything further right before the `+`
    // takes it: 1 + ((2 * 3) - 4).
    assert_eq!(
        parse("1 + 2 * 3 - 4"),
        Ok(add(num("1"), sub(mul(num("2"), num("3")), num("4"))))
    );
}

#[test]
fn nested_parentheses() {
    assert_eq!(
        parse("((1 + 2))"),
        Ok(add(num("1"), num("2")))
    );
}

#[test]
fn missing_closing_paren_fails() {
    assert_eq!(parse("(1 + 2"), Err(Error::InvalidBinOp()));
}

#[test]
fn stray_closing_paren_fails() {
    assert_eq!(parse("1 + 2)"), Err(Error::InvalidBinOp()));
}

#[test]
fn unexpected_character_fails() {
    assert_eq!(parse("1 + @"), Err(Error::UnexpectedChar('@')));
}

#[test]
fn blank_line_fails() {
    assert_eq!(parse("   "), Err(Error::InvalidUnaryOp()));
    assert_eq!(parse(""), Err(Error::InvalidUnaryOp()));
}

#[test]
fn empty_parentheses_fail() {
    assert_eq!(parse("()"), Err(Error::InvalidUnaryOp()));
}

#[test]
fn missing_right_operand_fails() {
    assert_eq!(parse("1 +"), Err(Error::InvalidUnaryOp()));
}

#[test]
fn adjacent_operands_fail() {
    assert_eq!(parse("2 (3)"), Err(Error::InvalidBinOp()));
}

#[test]
fn invalid_number_aborts_the_line() {
    assert_eq!(parse("1 + 2.3.4"), Err(Error::InvalidNumber("2.3.4".to_string())));
}

#[test]
fn star_cannot_stand_as_unary() {
    assert_eq!(parse("*3"), Err(Error::InvalidUnaryOp()));
}

#[test]
fn adjacent_numbers_fail() {
    assert_eq!(parse("1 2"), Err(Error::InvalidBinOp()));
}

#[test]
fn unary_inside_parentheses() {
    assert_eq!(parse("(-3) * 2"), Ok(mul(neg(num("3")), num("2"))));
}
