//! The expression tree and the precedence-climbing recursive-descent parser.
//!
//! The grammar: an expression is a unary-prefixed operand, optionally
//! continued by binary operators, and is accepted only by consuming its
//! expected terminator — the end-of-input sentinel at top level, a closing
//! parenthesis inside parentheses. `*` and `/` bind tighter than `+` and `-`,
//! and operators of equal precedence group to the left.
//!
//! The spec functions [`spec_parse_unary`], [`spec_parse_expr`] and
//! [`spec_parse_binary`] define the parser mathematically, step for step, over
//! token views; they take a fuel bound to justify their mutual recursion, and
//! a fixed fuel of twice the remaining token count plus a small constant is
//! always enough — the executable parser is proved to return exactly their
//! result at that fuel.

use vstd::prelude::*;

use crate::error::{Error, ErrorV};
use crate::token::{
    is_space_char, lemma_tokenize_all_space, lemma_tokenize_sentinel, spec_tokenize, token_views,
    tokenize, Token, TokenV, Value, ValueV,
};

verus! {

/// An expression tree, each node exclusively owning its children. Built once
/// per input line by [`parse`], then consumed by the caller's evaluator.
#[derive(Debug, PartialEq)]
pub enum Expr {
    Num(Value),
    Plus(Box<Expr>),
    Minus(Box<Expr>),
    Add { lhs: Box<Expr>, rhs: Box<Expr> },
    Sub { lhs: Box<Expr>, rhs: Box<Expr> },
    Mul { lhs: Box<Expr>, rhs: Box<Expr> },
    Div { lhs: Box<Expr>, rhs: Box<Expr> },
}

/// The mathematical shadow of [`Expr`].
pub ghost enum ExprV {
    Num(ValueV),
    Plus(Box<ExprV>),
    Minus(Box<ExprV>),
    Add { lhs: Box<ExprV>, rhs: Box<ExprV> },
    Sub { lhs: Box<ExprV>, rhs: Box<ExprV> },
    Mul { lhs: Box<ExprV>, rhs: Box<ExprV> },
    Div { lhs: Box<ExprV>, rhs: Box<ExprV> },
}

/// The view of an expression tree, node by node.
pub open spec fn expr_view(e: Expr) -> ExprV
    decreases e,
{
    match e {
        Expr::Num(v) => ExprV::Num(v@),
        Expr::Plus(inner) => ExprV::Plus(Box::new(expr_view(*inner))),
        Expr::Minus(inner) => ExprV::Minus(Box::new(expr_view(*inner))),
        Expr::Add { lhs, rhs } => ExprV::Add {
            lhs: Box::new(expr_view(*lhs)),
            rhs: Box::new(expr_view(*rhs)),
        },
        Expr::Sub { lhs, rhs } => ExprV::Sub {
            lhs: Box::new(expr_view(*lhs)),
            rhs: Box::new(expr_view(*rhs)),
        },
        Expr::Mul { lhs, rhs } => ExprV::Mul {
            lhs: Box::new(expr_view(*lhs)),
            rhs: Box::new(expr_view(*rhs)),
        },
        Expr::Div { lhs, rhs } => ExprV::Div {
            lhs: Box::new(expr_view(*lhs)),
            rhs: Box::new(expr_view(*rhs)),
        },
    }
}

impl View for Expr {
    type V = ExprV;

    open spec fn view(&self) -> ExprV {
        expr_view(*self)
    }
}

/// A token that may open a unary-prefixed operand.
pub open spec fn is_unary_v(t: TokenV) -> bool {
    t == TokenV::Plus || t == TokenV::Minus
}

/// A token that may continue an expression as a binary operator.
pub open spec fn is_binary_v(t: TokenV) -> bool {
    t == TokenV::Plus || t == TokenV::Minus || t == TokenV::Star || t == TokenV::Slash
}

/// The precedence rank of a binary operator: `*` and `/` bind tighter.
pub open spec fn prec_v(t: TokenV) -> int
    recommends
        is_binary_v(t),
{
    if t == TokenV::Plus || t == TokenV::Minus {
        1
    } else {
        2
    }
}

impl Token {
    /// Whether this token may stand as a unary prefix.
    pub fn is_unary_op(&self) -> (b: bool)
        ensures
            b == is_unary_v(self@),
    {
        matches!(self, Token::Plus | Token::Minus)
    }

    /// Whether this token may stand as a binary operator.
    pub fn is_binary_op(&self) -> (b: bool)
        ensures
            b == is_binary_v(self@),
    {
        matches!(self, Token::Plus | Token::Minus | Token::Star | Token::Slash)
    }

    /// The precedence rank of this binary operator. Asking for the precedence
    /// of anything else is a programming error, which the precondition rules
    /// out; user input can never reach it.
    pub fn precedence(&self) -> (p: usize)
        requires
            is_binary_v(self@),
        ensures
            p == prec_v(self@),
    {
        match self {
            Token::Plus | Token::Minus => 1,
            _ => 2,
        }
    }
}

impl Value {
    /// A copy of this number payload with the same view.
    pub fn dup(&self) -> (r: Value)
        ensures
            r@ == self@,
    {
        match self {
            Value::Lit(text) => Value::Lit(text.clone()),
            Value::Inf => Value::Inf,
        }
    }
}

/// The unary node the given prefix operator builds.
pub open spec fn spec_apply_unary(op: TokenV, operand: ExprV) -> ExprV
    recommends
        is_unary_v(op),
{
    if op == TokenV::Plus {
        ExprV::Plus(Box::new(operand))
    } else {
        ExprV::Minus(Box::new(operand))
    }
}

/// The binary node the given operator builds.
pub open spec fn spec_apply_binary(op: TokenV, lhs: ExprV, rhs: ExprV) -> ExprV
    recommends
        is_binary_v(op),
{
    if op == TokenV::Plus {
        ExprV::Add { lhs: Box::new(lhs), rhs: Box::new(rhs) }
    } else if op == TokenV::Minus {
        ExprV::Sub { lhs: Box::new(lhs), rhs: Box::new(rhs) }
    } else if op == TokenV::Star {
        ExprV::Mul { lhs: Box::new(lhs), rhs: Box::new(rhs) }
    } else {
        ExprV::Div { lhs: Box::new(lhs), rhs: Box::new(rhs) }
    }
}

/// A well-formed token sequence, as the tokenizer produces it: non-empty and
/// closed by the end-of-input sentinel, so that a parser position strictly
/// before the sentinel always has a token to peek.
pub open spec fn tokens_wf(ts: Seq<TokenV>) -> bool {
    ts.len() >= 1 && ts.last() == TokenV::Eof
}

/// Fuel that is always enough for [`spec_parse_unary`] from position `pos` of
/// `n` tokens.
pub open spec fn fuel_unary(n: int, pos: int) -> nat {
    (2 * (n - pos) + 2) as nat
}

/// Fuel that is always enough for [`spec_parse_expr`].
pub open spec fn fuel_expr(n: int, pos: int) -> nat {
    (2 * (n - pos) + 3) as nat
}

/// Fuel that is always enough for [`spec_parse_binary`].
pub open spec fn fuel_binary(n: int, pos: int) -> nat {
    (2 * (n - pos) + 4) as nat
}

/// One unary-prefixed operand starting at `pos`: a chain of unary prefixes,
/// a parenthesized subexpression, or a number; anything else is rejected.
/// Returns the operand and the position after it, or runs out of fuel.
pub open spec fn spec_parse_unary(ts: Seq<TokenV>, pos: int, fuel: nat) -> Option<
    Result<(ExprV, int), ErrorV>,
>
    decreases fuel,
{
    if fuel == 0 {
        None
    } else {
        let f = (fuel - 1) as nat;
        let t = ts[pos];
        if is_unary_v(t) {
            match spec_parse_unary(ts, pos + 1, f) {
                None => None,
                Some(Err(e)) => Some(Err(e)),
                Some(Ok((operand, p))) => Some(Ok((spec_apply_unary(t, operand), p))),
            }
        } else if t == TokenV::LeftParen {
            spec_parse_expr(ts, pos + 1, TokenV::RightParen, f)
        } else {
            match t {
                TokenV::Num(v) => Some(Ok((ExprV::Num(v), pos + 1))),
                _ => Some(Err(ErrorV::InvalidUnaryOp)),
            }
        }
    }
}

/// One whole subexpression starting at `pos` whose required terminator is
/// `end`: a unary operand, then either the terminator (consumed — the sole
/// acceptance path), a binary continuation, or a rejection.
pub open spec fn spec_parse_expr(ts: Seq<TokenV>, pos: int, end: TokenV, fuel: nat) -> Option<
    Result<(ExprV, int), ErrorV>,
>
    decreases fuel,
{
    if fuel == 0 {
        None
    } else {
        let f = (fuel - 1) as nat;
        match spec_parse_unary(ts, pos, f) {
            None => None,
            Some(Err(e)) => Some(Err(e)),
            Some(Ok((left, p))) => {
                if ts[p] == end {
                    Some(Ok((left, p + 1)))
                } else if !is_binary_v(ts[p]) {
                    Some(Err(ErrorV::InvalidBinOp))
                } else {
                    spec_parse_binary(ts, left, p, end, f)
                }
            },
        }
    }
}

/// The binary continuation: the operator at `pos` is consumed together with
/// its right-hand operand; then either the terminator closes the
/// subexpression, a tighter-binding operator climbs on the right first, or an
/// equal-or-looser one combines immediately and continues with the
/// combination as the new left operand — which groups equal precedence to
/// the left.
pub open spec fn spec_parse_binary(
    ts: Seq<TokenV>,
    left: ExprV,
    pos: int,
    end: TokenV,
    fuel: nat,
) -> Option<Result<(ExprV, int), ErrorV>>
    decreases fuel,
{
    if fuel == 0 {
        None
    } else {
        let f = (fuel - 1) as nat;
        let op = ts[pos];
        match spec_parse_unary(ts, pos + 1, f) {
            None => None,
            Some(Err(e)) => Some(Err(e)),
            Some(Ok((right, p))) => {
                let t = ts[p];
                if t == end {
                    Some(Ok((spec_apply_binary(op, left, right), p + 1)))
                } else if !is_binary_v(t) {
                    Some(Err(ErrorV::InvalidBinOp))
                } else if prec_v(op) < prec_v(t) {
                    match spec_parse_binary(ts, right, p, end, f) {
                        None => None,
                        Some(Err(e)) => Some(Err(e)),
                        Some(Ok((rhs, q))) => Some(Ok((spec_apply_binary(op, left, rhs), q))),
                    }
                } else {
                    spec_parse_binary(ts, spec_apply_binary(op, left, right), p, end, f)
                }
            },
        }
    }
}

/// More fuel never changes a defined outcome of [`spec_parse_unary`].
proof fn lemma_parse_unary_mono(ts: Seq<TokenV>, pos: int, f1: nat, f2: nat)
    requires
        f1 <= f2,
        spec_parse_unary(ts, pos, f1) is Some,
    ensures
        spec_parse_unary(ts, pos, f2) == spec_parse_unary(ts, pos, f1),
    decreases f1,
{
    let g1 = (f1 - 1) as nat;
    let g2 = (f2 - 1) as nat;
    let t = ts[pos];
    if f1 > 0 {
        if is_unary_v(t) {
            if spec_parse_unary(ts, pos + 1, g1) is Some {
                lemma_parse_unary_mono(ts, pos + 1, g1, g2);
            }
        } else if t == TokenV::LeftParen {
            if spec_parse_expr(ts, pos + 1, TokenV::RightParen, g1) is Some {
                lemma_parse_expr_mono(ts, pos + 1, TokenV::RightParen, g1, g2);
            }
        }
    }
}

/// More fuel never changes a defined outcome of [`spec_parse_expr`].
proof fn lemma_parse_expr_mono(ts: Seq<TokenV>, pos: int, end: TokenV, f1: nat, f2: nat)
    requires
        f1 <= f2,
        spec_parse_expr(ts, pos, end, f1) is Some,
    ensures
        spec_parse_expr(ts, pos, end, f2) == spec_parse_expr(ts, pos, end, f1),
    decreases f1,
{
    let g1 = (f1 - 1) as nat;
    let g2 = (f2 - 1) as nat;
    if f1 > 0 {
        if spec_parse_unary(ts, pos, g1) is Some {
            lemma_parse_unary_mono(ts, pos, g1, g2);
            match spec_parse_unary(ts, pos, g1) {
                Some(Ok((left, p))) => {
                    if ts[p] != end && is_binary_v(ts[p]) {
                        if spec_parse_binary(ts, left, p, end, g1) is Some {
                            lemma_parse_binary_mono(ts, left, p, end, g1, g2);
                        }
                    }
                },
                _ => {},
            }
        }
    }
}

/// More fuel never changes a defined outcome of [`spec_parse_binary`].
proof fn lemma_parse_binary_mono(
    ts: Seq<TokenV>,
    left: ExprV,
    pos: int,
    end: TokenV,
    f1: nat,
    f2: nat,
)
    requires
        f1 <= f2,
        spec_parse_binary(ts, left, pos, end, f1) is Some,
    ensures
        spec_parse_binary(ts, left, pos, end, f2) == spec_parse_binary(ts, left, pos, end, f1),
    decreases f1,
{
    let g1 = (f1 - 1) as nat;
    let g2 = (f2 - 1) as nat;
    let op = ts[pos];
    if f1 > 0 {
        if spec_parse_unary(ts, pos + 1, g1) is Some {
            lemma_parse_unary_mono(ts, pos + 1, g1, g2);
            match spec_parse_unary(ts, pos + 1, g1) {
                Some(Ok((right, p))) => {
                    let t = ts[p];
                    if t != end && is_binary_v(t) {
                        if prec_v(op) < prec_v(t) {
                            if spec_parse_binary(ts, right, p, end, g1) is Some {
                                lemma_parse_binary_mono(ts, right, p, end, g1, g2);
                            }
                        } else {
                            let combined = spec_apply_binary(op, left, right);
                            if spec_parse_binary(ts, combined, p, end, g1) is Some {
                                lemma_parse_binary_mono(ts, combined, p, end, g1, g2);
                            }
                        }
                    }
                },
                _ => {},
            }
        }
    }
}

/// The view of one parsing step's outcome: the tree's view and the next
/// position, or the error's view.
pub open spec fn step_result_view(r: Result<(Expr, usize), Error>) -> Result<
    (ExprV, int),
    ErrorV,
> {
    match r {
        Ok((e, p)) => Ok((e@, p as int)),
        Err(er) => Err(er@),
    }
}

/// Builds the unary node for a prefix operator.
fn apply_unary(op: &Token, operand: Expr) -> (r: Expr)
    requires
        is_unary_v(op@),
    ensures
        r@ == spec_apply_unary(op@, operand@),
{
    if matches!(op, Token::Plus) {
        Expr::Plus(Box::new(operand))
    } else {
        Expr::Minus(Box::new(operand))
    }
}

/// Builds the binary node for an operator.
fn apply_binary(op: &Token, lhs: Expr, rhs: Expr) -> (r: Expr)
    requires
        is_binary_v(op@),
    ensures
        r@ == spec_apply_binary(op@, lhs@, rhs@),
{
    match op {
        Token::Plus => Expr::Add { lhs: Box::new(lhs), rhs: Box::new(rhs) },
        Token::Minus => Expr::Sub { lhs: Box::new(lhs), rhs: Box::new(rhs) },
        Token::Star => Expr::Mul { lhs: Box::new(lhs), rhs: Box::new(rhs) },
        _ => Expr::Div { lhs: Box::new(lhs), rhs: Box::new(rhs) },
    }
}

/// Whether the peeked token is the expected terminator.
fn token_eq_end(t: &Token, end_token: &Token) -> (b: bool)
    requires
        end_token@ == TokenV::Eof || end_token@ == TokenV::RightParen,
    ensures
        b == (t@ == end_token@),
{
    match (t, end_token) {
        (Token::Eof, Token::Eof) => true,
        (Token::RightParen, Token::RightParen) => true,
        _ => false,
    }
}

/// Parses one unary-prefixed operand, returning the tree and the position
/// after it: exactly the result of [`spec_parse_unary`].
fn parse_unary(tokens: &Vec<Token>, pos: usize) -> (r: Result<(Expr, usize), Error>)
    requires
        tokens_wf(token_views(tokens@)),
        pos < tokens@.len(),
    ensures
        spec_parse_unary(
            token_views(tokens@),
            pos as int,
            fuel_unary(tokens@.len() as int, pos as int),
        ) == Some(step_result_view(r)),
        r matches Ok(ep) ==> pos < ep.1 < tokens@.len(),
    decreases tokens@.len() - pos, 0int,
{
    let ghost tv = token_views(tokens@);
    let ghost n = tokens@.len() as int;
    let ghost ff = (fuel_unary(n, pos as int) - 1) as nat;
    let _len = tokens.len();
    let t = &tokens[pos];
    if t.is_unary_op() {
        proof {
            assert(tv[pos as int] != TokenV::Eof);
            assert(pos as int != n - 1);
        }
        match parse_unary(tokens, pos + 1) {
            Ok((operand, p)) => {
                proof {
                    lemma_parse_unary_mono(tv, pos + 1, fuel_unary(n, pos + 1), ff);
                }
                let e = apply_unary(t, operand);
                Ok((e, p))
            },
            Err(er) => {
                proof {
                    lemma_parse_unary_mono(tv, pos + 1, fuel_unary(n, pos + 1), ff);
                }
                Err(er)
            },
        }
    } else if matches!(t, Token::LeftParen) {
        proof {
            assert(tv[pos as int] != TokenV::Eof);
            assert(pos as int != n - 1);
        }
        let end = Token::RightParen;
        let res = parse_expr(tokens, pos + 1, &end);
        proof {
            lemma_parse_expr_mono(tv, pos + 1, TokenV::RightParen, fuel_expr(n, pos + 1), ff);
        }
        match res {
            Ok((e, p)) => {
                proof {
                    assert(tv[p - 1] == TokenV::RightParen);
                    assert(p - 1 != n - 1);
                }
                Ok((e, p))
            },
            Err(er) => Err(er),
        }
    } else {
        match t {
            Token::Num(v) => {
                proof {
                    assert(tv[pos as int] matches TokenV::Num(_));
                    assert(pos as int != n - 1);
                }
                let value = v.dup();
                Ok((Expr::Num(value), pos + 1))
            },
            _ => Err(Error::InvalidUnaryOp()),
        }
    }
}

/// Parses one whole subexpression whose required terminator is `end_token`,
/// consuming the terminator: exactly the result of [`spec_parse_expr`].
fn parse_expr(tokens: &Vec<Token>, pos: usize, end_token: &Token) -> (r: Result<
    (Expr, usize),
    Error,
>)
    requires
        tokens_wf(token_views(tokens@)),
        pos < tokens@.len(),
        end_token@ == TokenV::Eof || end_token@ == TokenV::RightParen,
    ensures
        spec_parse_expr(
            token_views(tokens@),
            pos as int,
            end_token@,
            fuel_expr(tokens@.len() as int, pos as int),
        ) == Some(step_result_view(r)),
        r matches Ok(ep) ==> pos < ep.1 <= tokens@.len() && token_views(tokens@)[ep.1 - 1]
            == end_token@,
    decreases tokens@.len() - pos, 1int,
{
    let ghost tv = token_views(tokens@);
    let ghost n = tokens@.len() as int;
    let ghost ff = (fuel_expr(n, pos as int) - 1) as nat;
    let _len = tokens.len();
    match parse_unary(tokens, pos) {
        Err(e) => {
            proof {
                lemma_parse_unary_mono(tv, pos as int, fuel_unary(n, pos as int), ff);
            }
            Err(e)
        },
        Ok((left, p)) => {
            proof {
                lemma_parse_unary_mono(tv, pos as int, fuel_unary(n, pos as int), ff);
            }
            let op = &tokens[p];
            if token_eq_end(op, end_token) {
                Ok((left, p + 1))
            } else if !op.is_binary_op() {
                Err(Error::InvalidBinOp())
            } else {
                let ghost left_v = left@;
                let res = parse_binary(tokens, left, p, end_token);
                proof {
                    lemma_parse_binary_mono(
                        tv,
                        left_v,
                        p as int,
                        end_token@,
                        fuel_binary(n, p as int),
                        ff,
                    );
                }
                res
            }
        },
    }
}

/// Parses the binary continuation of `left` from the operator at `pos`:
/// exactly the result of [`spec_parse_binary`].
fn parse_binary(tokens: &Vec<Token>, left: Expr, pos: usize, end_token: &Token) -> (r: Result<
    (Expr, usize),
    Error,
>)
    requires
        tokens_wf(token_views(tokens@)),
        pos < tokens@.len(),
        is_binary_v(token_views(tokens@)[pos as int]),
        end_token@ == TokenV::Eof || end_token@ == TokenV::RightParen,
    ensures
        spec_parse_binary(
            token_views(tokens@),
            left@,
            pos as int,
            end_token@,
            fuel_binary(tokens@.len() as int, pos as int),
        ) == Some(step_result_view(r)),
        r matches Ok(ep) ==> pos < ep.1 <= tokens@.len() && token_views(tokens@)[ep.1 - 1]
            == end_token@,
    decreases tokens@.len() - pos, 2int,
{
    let ghost tv = token_views(tokens@);
    let ghost n = tokens@.len() as int;
    let ghost ff = (fuel_binary(n, pos as int) - 1) as nat;
    let _len = tokens.len();
    proof {
        assert(tv[pos as int] != TokenV::Eof);
        assert(pos as int != n - 1);
    }
    let op = &tokens[pos];
    match parse_unary(tokens, pos + 1) {
        Err(e) => {
            proof {
                lemma_parse_unary_mono(tv, pos + 1, fuel_unary(n, pos + 1), ff);
            }
            Err(e)
        },
        Ok((right, p)) => {
            proof {
                lemma_parse_unary_mono(tv, pos + 1, fuel_unary(n, pos + 1), ff);
            }
            let t = &tokens[p];
            if token_eq_end(t, end_token) {
                let e = apply_binary(op, left, right);
                Ok((e, p + 1))
            } else if !t.is_binary_op() {
                Err(Error::InvalidBinOp())
            } else if op.precedence() < t.precedence() {
                match parse_binary(tokens, right, p, end_token) {
                    Err(e) => {
                        proof {
                            lemma_parse_binary_mono(
                                tv,
                                right@,
                                p as int,
                                end_token@,
                                fuel_binary(n, p as int),
                                ff,
                            );
                        }
                        Err(e)
                    },
                    Ok((rhs, q)) => {
                        proof {
                            lemma_parse_binary_mono(
                                tv,
                                right@,
                                p as int,
                                end_token@,
                                fuel_binary(n, p as int),
                                ff,
                            );
                        }
                        let e = apply_binary(op, left, rhs);
                        Ok((e, q))
                    },
                }
            } else {
                let combined = apply_binary(op, left, right);
                let ghost combined_v = combined@;
                let res = parse_binary(tokens, combined, p, end_token);
                proof {
                    lemma_parse_binary_mono(
                        tv,
                        combined_v,
                        p as int,
                        end_token@,
                        fuel_binary(n, p as int),
                        ff,
                    );
                }
                res
            }
        },
    }
}

/// The outcome of parsing a whole well-formed token sequence with the
/// end-of-input sentinel as terminator.
pub open spec fn spec_parse(ts: Seq<TokenV>) -> Option<Result<ExprV, ErrorV>> {
    match spec_parse_expr(ts, 0, TokenV::Eof, fuel_expr(ts.len() as int, 0)) {
        None => None,
        Some(Ok((e, p))) => Some(Ok(e)),
        Some(Err(e)) => Some(Err(e)),
    }
}

/// Runs the precedence-climbing parser over a tokenized line.
fn prat(tokens: &Vec<Token>) -> (r: Result<Expr, Error>)
    requires
        tokens_wf(token_views(tokens@)),
    ensures
        r matches Ok(e) ==> spec_parse(token_views(tokens@)) == Some(
            Ok::<ExprV, ErrorV>(e@),
        ),
        r matches Err(e) ==> spec_parse(token_views(tokens@)) == Some(
            Err::<ExprV, ErrorV>(e@),
        ),
{
    let end = Token::Eof;
    match parse_expr(tokens, 0, &end) {
        Ok((e, _)) => Ok(e),
        Err(e) => Err(e),
    }
}

/// A blank line — empty or holding nothing but whitespace — is rejected with
/// the invalid-unary-operator error: the grammar requires at least one
/// primary, and the primary position holds only the end-of-input sentinel.
pub proof fn lemma_blank_line_rejected(s: Seq<char>)
    requires
        forall|k: int| 0 <= k < s.len() ==> is_space_char(#[trigger] s[k]),
    ensures
        spec_tokenize(s) matches Ok(ts) && spec_parse(ts) == Some(
            Err::<ExprV, ErrorV>(ErrorV::InvalidUnaryOp),
        ),
{
    lemma_tokenize_all_space(s, 0);
    let ts = seq![TokenV::Eof];
    assert(spec_parse_unary(ts, 0, 4) == Some(
        Err::<(ExprV, int), ErrorV>(ErrorV::InvalidUnaryOp),
    ));
    assert(spec_parse_expr(ts, 0, TokenV::Eof, fuel_expr(1, 0)) == Some(
        Err::<(ExprV, int), ErrorV>(ErrorV::InvalidUnaryOp),
    ));
}

/// Parses one line of input into its expression tree, or reports its first
/// lexical or syntactic error.
///
/// The contract says, for every input: tokenizing and parsing as the spec
/// functions [`spec_tokenize`] and [`spec_parse`] define them never runs out
/// of fuel, and this function returns exactly their outcome — the tree's view
/// on success, the first error's view otherwise.
pub fn parse(input: &str) -> (r: Result<Expr, Error>)
    ensures
        match spec_tokenize(input@) {
            Err(le) => r matches Err(e) && e@ == le,
            Ok(ts) => match spec_parse(ts) {
                Some(Ok(ev)) => r matches Ok(e) && e@ == ev,
                Some(Err(pe)) => r matches Err(e) && e@ == pe,
                None => false,
            },
        },
{
    let toks = match tokenize(input) {
        Err(e) => {
            return Err(e);
        },
        Ok(t) => t,
    };
    proof {
        lemma_tokenize_sentinel(input@, 0);
    }
    prat(&toks)
}

} // verus!
