//! The parser: a recursive-descent parser with operator precedence.
//!
//! Precedence, loosest first: `let`/`if`/lambda, `==`, `<`, `+`/`-`, `*`,
//! application, atoms. The binary operators associate to the left.
use vstd::prelude::*;

use crate::ast::{BinOp, Expr, SpecExpr, Type};
use crate::lexer::{
    decimal_text, digit_text, int_text, lex, lex_spec, tokens_model, LexError, SpecToken, Token,
};

verus! {

/// The error of the parser.
#[derive(Debug, Clone, PartialEq, Eq)]
pub struct ParseError {
    pub message: String,
}

/// The result of parsing an expression at a position: the expression and
/// the position after it, or a message.
pub type ExprAt = Result<(SpecExpr, int), Seq<char>>;

/// The result of parsing a type at a position.
pub type TypeAt = Result<(Type, int), Seq<char>>;

/// The token at `p`, if any.
pub open spec fn tok(ts: Seq<SpecToken>, p: int) -> Option<SpecToken> {
    if 0 <= p < ts.len() {
        Some(ts[p])
    } else {
        None
    }
}

/// What the standard library's `Debug` formatting makes of a string: the
/// string in double quotes, with some characters escaped.
pub uninterp spec fn debug_string_text(s: Seq<char>) -> Seq<char>;

/// How a token is written in a message: its variant's name, followed for a
/// token with a payload by the payload in parentheses, as `Debug` shows it.
#[verifier::opaque]
pub open spec fn token_name(t: SpecToken) -> Seq<char> {
    match t {
        SpecToken::Int(n) => "Int("@ + int_text(n as int) + ")"@,
        SpecToken::Bool(b) => if b {
            "Bool(true)"@
        } else {
            "Bool(false)"@
        },
        SpecToken::Ident(x) => "Ident("@ + debug_string_text(x) + ")"@,
        SpecToken::Let => "Let"@,
        SpecToken::In => "In"@,
        SpecToken::If => "If"@,
        SpecToken::Then => "Then"@,
        SpecToken::Else => "Else"@,
        SpecToken::Lambda => "Lambda"@,
        SpecToken::Colon => "Colon"@,
        SpecToken::Arrow => "Arrow"@,
        SpecToken::LParen => "LParen"@,
        SpecToken::RParen => "RParen"@,
        SpecToken::Plus => "Plus"@,
        SpecToken::Minus => "Minus"@,
        SpecToken::Star => "Star"@,
        SpecToken::EqEq => "EqEq"@,
        SpecToken::Lt => "Lt"@,
        SpecToken::Assign => "Assign"@,
    }
}

pub open spec fn expected_token_message(t: SpecToken) -> Seq<char> {
    "expected token "@ + token_name(t)
}

pub open spec fn expected_ident_message() -> Seq<char> {
    "expected identifier"@
}

pub open spec fn expected_expr_message() -> Seq<char> {
    "expected expression"@
}

pub open spec fn expected_type_message() -> Seq<char> {
    "expected type"@
}

pub open spec fn trailing_message() -> Seq<char> {
    "unexpected tokens after expression"@
}

/// The identifier at `p`.
pub open spec fn ident_at(ts: Seq<SpecToken>, p: int) -> Result<Seq<char>, Seq<char>> {
    match tok(ts, p) {
        Some(SpecToken::Ident(name)) => Ok(name),
        _ => Err(expected_ident_message()),
    }
}

/// The type written at `p`. After a base type, an arrow and a type make a
/// function type; where no type follows the arrow, the arrow is left for
/// the caller.
pub open spec fn type_at(ts: Seq<SpecToken>, p: int) -> TypeAt
    decreases ts.len() - p,
{
    if !(0 <= p <= ts.len()) {
        Err(Seq::empty())
    } else {
        let base: TypeAt = match tok(ts, p) {
            Some(SpecToken::Ident(name)) => if name == "Int"@ {
                Ok((Type::Int, p + 1))
            } else if name == "Bool"@ {
                Ok((Type::Bool, p + 1))
            } else {
                Err(expected_type_message())
            },
            Some(SpecToken::LParen) => match type_at(ts, p + 1) {
                Err(m) => Err(m),
                Ok((inner, q)) => if !(p < q <= ts.len()) {
                    Err(Seq::empty())
                } else if tok(ts, q) == Some(SpecToken::RParen) {
                    Ok((inner, q + 1))
                } else {
                    Err(expected_token_message(SpecToken::RParen))
                },
            },
            _ => Err(expected_type_message()),
        };
        match base {
            Err(m) => Err(m),
            Ok((t, q)) => if !(p < q <= ts.len()) {
                Err(Seq::empty())
            } else if tok(ts, q) == Some(SpecToken::Arrow) {
                match type_at(ts, q + 1) {
                    Ok((ret, r)) => Ok((Type::Func(Box::new(t), Box::new(ret)), r)),
                    Err(_) => Ok((t, q)),
                }
            } else {
                Ok((t, q))
            },
        }
    }
}

/// The expression at `p`: `let`, `if`, a lambda, or an equality chain.
pub open spec fn expression_at(ts: Seq<SpecToken>, p: int) -> ExprAt
    decreases ts.len() - p, 9int,
{
    if !(0 <= p <= ts.len()) {
        Err(Seq::empty())
    } else {
        match tok(ts, p) {
            Some(SpecToken::Let) => match ident_at(ts, p + 1) {
                Err(m) => Err(m),
                Ok(name) => if tok(ts, p + 2) != Some(SpecToken::Assign) {
                    Err(expected_token_message(SpecToken::Assign))
                } else {
                    match expression_at(ts, p + 3) {
                        Err(m) => Err(m),
                        Ok((value, q)) => if !(p < q <= ts.len()) {
                            Err(Seq::empty())
                        } else if tok(ts, q) != Some(SpecToken::In) {
                            Err(expected_token_message(SpecToken::In))
                        } else {
                            match expression_at(ts, q + 1) {
                                Err(m) => Err(m),
                                Ok((body, r)) => Ok(
                                    (SpecExpr::Let(name, Box::new(value), Box::new(body)), r),
                                ),
                            }
                        },
                    }
                },
            },
            Some(SpecToken::If) => match expression_at(ts, p + 1) {
                Err(m) => Err(m),
                Ok((cond, q)) => if !(p < q <= ts.len()) {
                    Err(Seq::empty())
                } else if tok(ts, q) != Some(SpecToken::Then) {
                    Err(expected_token_message(SpecToken::Then))
                } else {
                    match expression_at(ts, q + 1) {
                        Err(m) => Err(m),
                        Ok((then_branch, r)) => if !(p < r <= ts.len()) {
                            Err(Seq::empty())
                        } else if tok(ts, r) != Some(SpecToken::Else) {
                            Err(expected_token_message(SpecToken::Else))
                        } else {
                            match expression_at(ts, r + 1) {
                                Err(m) => Err(m),
                                Ok((else_branch, k)) => Ok(
                                    (
                                        SpecExpr::If(
                                            Box::new(cond),
                                            Box::new(then_branch),
                                            Box::new(else_branch),
                                        ),
                                        k,
                                    ),
                                ),
                            }
                        },
                    }
                },
            },
            Some(SpecToken::Lambda) => match ident_at(ts, p + 1) {
                Err(m) => Err(m),
                Ok(param) => if tok(ts, p + 2) != Some(SpecToken::Colon) {
                    Err(expected_token_message(SpecToken::Colon))
                } else {
                    match type_at(ts, p + 3) {
                        Err(m) => Err(m),
                        Ok((param_type, q)) => if !(p < q <= ts.len()) {
                            Err(Seq::empty())
                        } else if tok(ts, q) != Some(SpecToken::Arrow) {
                            Err(expected_token_message(SpecToken::Arrow))
                        } else {
                            match expression_at(ts, q + 1) {
                                Err(m) => Err(m),
                                Ok((body, r)) => Ok(
                                    (SpecExpr::Lambda(param, param_type, Box::new(body)), r),
                                ),
                            }
                        },
                    }
                },
            },
            _ => equality_at(ts, p),
        }
    }
}

/// A chain of comparisons joined by `==`.
pub open spec fn equality_at(ts: Seq<SpecToken>, p: int) -> ExprAt
    decreases ts.len() - p, 8int,
{
    if !(0 <= p <= ts.len()) {
        Err(Seq::empty())
    } else {
        match comparison_at(ts, p) {
            Err(m) => Err(m),
            Ok((e, q)) => if !(p < q <= ts.len()) {
                Err(Seq::empty())
            } else {
                equality_rest(ts, q, e)
            },
        }
    }
}

/// The rest of an equality chain whose left part `lhs` ends before `p`.
pub open spec fn equality_rest(ts: Seq<SpecToken>, p: int, lhs: SpecExpr) -> ExprAt
    decreases ts.len() - p, 8int,
{
    if !(0 <= p <= ts.len()) {
        Err(Seq::empty())
    } else if tok(ts, p) == Some(SpecToken::EqEq) {
        match comparison_at(ts, p + 1) {
            Err(m) => Err(m),
            Ok((rhs, q)) => if !(p < q <= ts.len()) {
                Err(Seq::empty())
            } else {
                equality_rest(ts, q, SpecExpr::BinOp(BinOp::Eq, Box::new(lhs), Box::new(rhs)))
            },
        }
    } else {
        Ok((lhs, p))
    }
}

/// A chain of terms joined by `<`.
pub open spec fn comparison_at(ts: Seq<SpecToken>, p: int) -> ExprAt
    decreases ts.len() - p, 7int,
{
    if !(0 <= p <= ts.len()) {
        Err(Seq::empty())
    } else {
        match term_at(ts, p) {
            Err(m) => Err(m),
            Ok((e, q)) => if !(p < q <= ts.len()) {
                Err(Seq::empty())
            } else {
                comparison_rest(ts, q, e)
            },
        }
    }
}

pub open spec fn comparison_rest(ts: Seq<SpecToken>, p: int, lhs: SpecExpr) -> ExprAt
    decreases ts.len() - p, 7int,
{
    if !(0 <= p <= ts.len()) {
        Err(Seq::empty())
    } else if tok(ts, p) == Some(SpecToken::Lt) {
        match term_at(ts, p + 1) {
            Err(m) => Err(m),
            Ok((rhs, q)) => if !(p < q <= ts.len()) {
                Err(Seq::empty())
            } else {
                comparison_rest(ts, q, SpecExpr::BinOp(BinOp::Lt, Box::new(lhs), Box::new(rhs)))
            },
        }
    } else {
        Ok((lhs, p))
    }
}

/// A chain of factors joined by `+` and `-`.
pub open spec fn term_at(ts: Seq<SpecToken>, p: int) -> ExprAt
    decreases ts.len() - p, 6int,
{
    if !(0 <= p <= ts.len()) {
        Err(Seq::empty())
    } else {
        match factor_at(ts, p) {
            Err(m) => Err(m),
            Ok((e, q)) => if !(p < q <= ts.len()) {
                Err(Seq::empty())
            } else {
                term_rest(ts, q, e)
            },
        }
    }
}

pub open spec fn term_rest(ts: Seq<SpecToken>, p: int, lhs: SpecExpr) -> ExprAt
    decreases ts.len() - p, 6int,
{
    if !(0 <= p <= ts.len()) {
        Err(Seq::empty())
    } else if tok(ts, p) == Some(SpecToken::Plus) || tok(ts, p) == Some(SpecToken::Minus) {
        let op = if tok(ts, p) == Some(SpecToken::Plus) {
            BinOp::Add
        } else {
            BinOp::Sub
        };
        match factor_at(ts, p + 1) {
            Err(m) => Err(m),
            Ok((rhs, q)) => if !(p < q <= ts.len()) {
                Err(Seq::empty())
            } else {
                term_rest(ts, q, SpecExpr::BinOp(op, Box::new(lhs), Box::new(rhs)))
            },
        }
    } else {
        Ok((lhs, p))
    }
}

/// A chain of applications joined by `*`.
pub open spec fn factor_at(ts: Seq<SpecToken>, p: int) -> ExprAt
    decreases ts.len() - p, 5int,
{
    if !(0 <= p <= ts.len()) {
        Err(Seq::empty())
    } else {
        match application_at(ts, p) {
            Err(m) => Err(m),
            Ok((e, q)) => if !(p < q <= ts.len()) {
                Err(Seq::empty())
            } else {
                factor_rest(ts, q, e)
            },
        }
    }
}

pub open spec fn factor_rest(ts: Seq<SpecToken>, p: int, lhs: SpecExpr) -> ExprAt
    decreases ts.len() - p, 5int,
{
    if !(0 <= p <= ts.len()) {
        Err(Seq::empty())
    } else if tok(ts, p) == Some(SpecToken::Star) {
        match application_at(ts, p + 1) {
            Err(m) => Err(m),
            Ok((rhs, q)) => if !(p < q <= ts.len()) {
                Err(Seq::empty())
            } else {
                factor_rest(ts, q, SpecExpr::BinOp(BinOp::Mul, Box::new(lhs), Box::new(rhs)))
            },
        }
    } else {
        Ok((lhs, p))
    }
}

/// An atom applied to the atoms that follow it, as many as parse.
pub open spec fn application_at(ts: Seq<SpecToken>, p: int) -> ExprAt
    decreases ts.len() - p, 4int,
{
    if !(0 <= p <= ts.len()) {
        Err(Seq::empty())
    } else {
        match atom_at(ts, p) {
            Err(m) => Err(m),
            Ok((e, q)) => if !(p < q <= ts.len()) {
                Err(Seq::empty())
            } else {
                application_rest(ts, q, e)
            },
        }
    }
}

/// Further arguments: an atom that fails to parse ends the application.
pub open spec fn application_rest(ts: Seq<SpecToken>, p: int, lhs: SpecExpr) -> ExprAt
    decreases ts.len() - p, 4int,
{
    if !(0 <= p <= ts.len()) {
        Err(Seq::empty())
    } else {
        match atom_at(ts, p) {
            Err(_) => Ok((lhs, p)),
            Ok((arg, q)) => if !(p < q <= ts.len()) {
                Err(Seq::empty())
            } else {
                application_rest(ts, q, SpecExpr::App(Box::new(lhs), Box::new(arg)))
            },
        }
    }
}

/// A literal, a variable, or a parenthesized expression.
pub open spec fn atom_at(ts: Seq<SpecToken>, p: int) -> ExprAt
    decreases ts.len() - p, 3int,
{
    if !(0 <= p <= ts.len()) {
        Err(Seq::empty())
    } else {
        match tok(ts, p) {
            Some(SpecToken::Int(n)) => Ok((SpecExpr::Int(n), p + 1)),
            Some(SpecToken::Bool(b)) => Ok((SpecExpr::Bool(b), p + 1)),
            Some(SpecToken::Ident(name)) => Ok((SpecExpr::Var(name), p + 1)),
            Some(SpecToken::LParen) => match expression_at(ts, p + 1) {
                Err(m) => Err(m),
                Ok((e, q)) => if !(p < q <= ts.len()) {
                    Err(Seq::empty())
                } else if tok(ts, q) == Some(SpecToken::RParen) {
                    Ok((e, q + 1))
                } else {
                    Err(expected_token_message(SpecToken::RParen))
                },
            },
            _ => Err(expected_expr_message()),
        }
    }
}

/// The expression of a whole token sequence.
pub open spec fn parse_tokens_spec(ts: Seq<SpecToken>) -> Result<SpecExpr, Seq<char>> {
    match expression_at(ts, 0) {
        Err(m) => Err(m),
        Ok((e, q)) => if q < ts.len() {
            Err(trailing_message())
        } else {
            Ok(e)
        },
    }
}

/// The expression of a source text, or the message of the first error.
pub open spec fn parse_spec(s: Seq<char>) -> Result<SpecExpr, Seq<char>> {
    match lex_spec(s) {
        Err(m) => Err(m),
        Ok(ts) => parse_tokens_spec(ts),
    }
}

/// Whether two tokens are equal.
fn same_token(a: &Token, b: &Token) -> (r: bool)
    ensures
        r == (a@ == b@),
{
    match (a, b) {
        (Token::Int(x), Token::Int(y)) => *x == *y,
        (Token::Bool(x), Token::Bool(y)) => *x == *y,
        (Token::Ident(x), Token::Ident(y)) => *x == *y,
        (Token::Let, Token::Let) => true,
        (Token::In, Token::In) => true,
        (Token::If, Token::If) => true,
        (Token::Then, Token::Then) => true,
        (Token::Else, Token::Else) => true,
        (Token::Lambda, Token::Lambda) => true,
        (Token::Colon, Token::Colon) => true,
        (Token::Arrow, Token::Arrow) => true,
        (Token::LParen, Token::LParen) => true,
        (Token::RParen, Token::RParen) => true,
        (Token::Plus, Token::Plus) => true,
        (Token::Minus, Token::Minus) => true,
        (Token::Star, Token::Star) => true,
        (Token::EqEq, Token::EqEq) => true,
        (Token::Lt, Token::Lt) => true,
        (Token::Assign, Token::Assign) => true,
        _ => false,
    }
}

/// The string as `{:?}` shows it: `Debug` for `str` in the standard
/// library. The contract names the text and says nothing of its form.
#[verifier::external_body]
fn debug_string(s: &String) -> (r: String)
    ensures
        r@ == debug_string_text(s@),
{
    format!("{:?}", s)
}

/// The digit of a number below ten.
fn digit_string(d: u64) -> (r: String)
    requires
        d < 10,
    ensures
        r@ == digit_text(d as nat),
{
    let text = if d == 0 {
        "0"
    } else if d == 1 {
        "1"
    } else if d == 2 {
        "2"
    } else if d == 3 {
        "3"
    } else if d == 4 {
        "4"
    } else if d == 5 {
        "5"
    } else if d == 6 {
        "6"
    } else if d == 7 {
        "7"
    } else if d == 8 {
        "8"
    } else {
        "9"
    };
    String::from_str(text)
}

/// The decimal digits of a number.
fn decimal_string(n: u64) -> (r: String)
    ensures
        r@ == decimal_text(n as nat),
    decreases n,
{
    if n < 10 {
        digit_string(n)
    } else {
        let high = decimal_string(n / 10);
        let low = digit_string(n % 10);
        high.concat(low.as_str())
    }
}

/// An integer in decimal.
fn int_string(n: i64) -> (r: String)
    ensures
        r@ == int_text(n as int),
{
    if n < 0 {
        let magnitude: u64 = (-(n + 1)) as u64 + 1;
        String::from_str("-").concat(decimal_string(magnitude).as_str())
    } else {
        decimal_string(n as u64)
    }
}

/// How a token is written in a message: as `{:?}` writes it.
pub fn token_text(t: &Token) -> (r: String)
    ensures
        r@ == token_name(t@),
{
    reveal(token_name);
    match t {
        Token::Int(n) => String::from_str("Int(").concat(int_string(*n).as_str()).concat(")"),
        Token::Bool(b) => if *b {
            String::from_str("Bool(true)")
        } else {
            String::from_str("Bool(false)")
        },
        Token::Ident(x) => String::from_str("Ident(").concat(debug_string(x).as_str()).concat(")"),
        Token::Let => String::from_str("Let"),
        Token::In => String::from_str("In"),
        Token::If => String::from_str("If"),
        Token::Then => String::from_str("Then"),
        Token::Else => String::from_str("Else"),
        Token::Lambda => String::from_str("Lambda"),
        Token::Colon => String::from_str("Colon"),
        Token::Arrow => String::from_str("Arrow"),
        Token::LParen => String::from_str("LParen"),
        Token::RParen => String::from_str("RParen"),
        Token::Plus => String::from_str("Plus"),
        Token::Minus => String::from_str("Minus"),
        Token::Star => String::from_str("Star"),
        Token::EqEq => String::from_str("EqEq"),
        Token::Lt => String::from_str("Lt"),
        Token::Assign => String::from_str("Assign"),
    }
}

/// Whether a name reads as the given text.
fn name_is(name: &String, text: &str) -> (r: bool)
    ensures
        r == (name@ == text@),
{
    *name == String::from_str(text)
}

/// The outcome of an expression parser: the result and the position after
/// it, or the message.
pub open spec fn expr_outcome(r: Result<Expr, ParseError>, expected: ExprAt, end: int) -> bool {
    match r {
        Ok(e) => expected == Ok::<(SpecExpr, int), Seq<char>>((e@, end)),
        Err(err) => expected == Err::<(SpecExpr, int), Seq<char>>(err.message@),
    }
}

/// The outcome of the type parser.
pub open spec fn type_outcome(r: Result<Type, ParseError>, expected: TypeAt, end: int) -> bool {
    match r {
        Ok(t) => expected == Ok::<(Type, int), Seq<char>>((t, end)),
        Err(err) => expected == Err::<(Type, int), Seq<char>>(err.message@),
    }
}

/// A parser over a token sequence, at a position.
struct Parser<'a> {
    tokens: &'a [Token],
    pos: usize,
}

impl<'a> Parser<'a> {
    /// The models of the tokens.
    spec fn model(&self) -> Seq<SpecToken> {
        tokens_model(self.tokens@)
    }

    fn parse_expression(&mut self) -> (r: Result<Expr, ParseError>)
        requires
            old(self).pos <= old(self).tokens@.len(),
        ensures
            final(self).tokens == old(self).tokens,
            final(self).pos <= final(self).tokens@.len(),
            expr_outcome(r, expression_at(old(self).model(), old(self).pos as int), final(self).pos as int),
            r is Ok ==> old(self).pos < final(self).pos,
        decreases old(self).tokens@.len() - old(self).pos, 9int,
    {
        let ghost ts = self.model();
        let ghost p = self.pos as int;
        assert(ts.len() == self.tokens@.len());
        if self.consume(&Token::Let) {
            let name = match self.expect_ident() {
                Ok(name) => name,
                Err(e) => return Err(e),
            };
            match self.expect(&Token::Assign) {
                Ok(()) => {},
                Err(e) => return Err(e),
            }
            let value = match self.parse_expression() {
                Ok(v) => v,
                Err(e) => return Err(e),
            };
            match self.expect(&Token::In) {
                Ok(()) => {},
                Err(e) => return Err(e),
            }
            let body = match self.parse_expression() {
                Ok(b) => b,
                Err(e) => return Err(e),
            };
            return Ok(Expr::Let(name, Box::new(value), Box::new(body)));
        }
        if self.consume(&Token::If) {
            let cond = match self.parse_expression() {
                Ok(c) => c,
                Err(e) => return Err(e),
            };
            match self.expect(&Token::Then) {
                Ok(()) => {},
                Err(e) => return Err(e),
            }
            let then_branch = match self.parse_expression() {
                Ok(t) => t,
                Err(e) => return Err(e),
            };
            match self.expect(&Token::Else) {
                Ok(()) => {},
                Err(e) => return Err(e),
            }
            let else_branch = match self.parse_expression() {
                Ok(f) => f,
                Err(e) => return Err(e),
            };
            return Ok(Expr::If(Box::new(cond), Box::new(then_branch), Box::new(else_branch)));
        }
        if self.consume(&Token::Lambda) {
            let param = match self.expect_ident() {
                Ok(name) => name,
                Err(e) => return Err(e),
            };
            match self.expect(&Token::Colon) {
                Ok(()) => {},
                Err(e) => return Err(e),
            }
            let param_type = match self.parse_type() {
                Ok(t) => t,
                Err(e) => return Err(e),
            };
            match self.expect(&Token::Arrow) {
                Ok(()) => {},
                Err(e) => return Err(e),
            }
            let body = match self.parse_expression() {
                Ok(b) => b,
                Err(e) => return Err(e),
            };
            return Ok(Expr::Lambda { param, param_type, body: Box::new(body) });
        }
        self.parse_equality()
    }

    fn parse_equality(&mut self) -> (r: Result<Expr, ParseError>)
        requires
            old(self).pos <= old(self).tokens@.len(),
        ensures
            final(self).tokens == old(self).tokens,
            final(self).pos <= final(self).tokens@.len(),
            expr_outcome(r, equality_at(old(self).model(), old(self).pos as int), final(self).pos as int),
            r is Ok ==> old(self).pos < final(self).pos,
        decreases old(self).tokens@.len() - old(self).pos, 8int,
    {
        let ghost ts = self.model();
        let ghost p = self.pos as int;
        assert(ts.len() == self.tokens@.len());
        let mut expr = match self.parse_comparison() {
            Ok(e) => e,
            Err(e) => return Err(e),
        };
        loop
            invariant
                self.tokens == old(self).tokens,
                ts == self.model(),
                p == old(self).pos,
                ts.len() == self.tokens@.len(),
                p < self.pos <= self.tokens@.len(),
                equality_at(ts, p) == equality_rest(ts, self.pos as int, expr@),
            decreases self.tokens@.len() - self.pos,
        {
            if !self.consume(&Token::EqEq) {
                return Ok(expr);
            }
            let rhs = match self.parse_comparison() {
                Ok(e) => e,
                Err(e) => return Err(e),
            };
            expr = Expr::BinOp(BinOp::Eq, Box::new(expr), Box::new(rhs));
        }
    }

    fn parse_comparison(&mut self) -> (r: Result<Expr, ParseError>)
        requires
            old(self).pos <= old(self).tokens@.len(),
        ensures
            final(self).tokens == old(self).tokens,
            final(self).pos <= final(self).tokens@.len(),
            expr_outcome(r, comparison_at(old(self).model(), old(self).pos as int), final(self).pos as int),
            r is Ok ==> old(self).pos < final(self).pos,
        decreases old(self).tokens@.len() - old(self).pos, 7int,
    {
        let ghost ts = self.model();
        let ghost p = self.pos as int;
        assert(ts.len() == self.tokens@.len());
        let mut expr = match self.parse_term() {
            Ok(e) => e,
            Err(e) => return Err(e),
        };
        loop
            invariant
                self.tokens == old(self).tokens,
                ts == self.model(),
                p == old(self).pos,
                ts.len() == self.tokens@.len(),
                p < self.pos <= self.tokens@.len(),
                comparison_at(ts, p) == comparison_rest(ts, self.pos as int, expr@),
            decreases self.tokens@.len() - self.pos,
        {
            if !self.consume(&Token::Lt) {
                return Ok(expr);
            }
            let rhs = match self.parse_term() {
                Ok(e) => e,
                Err(e) => return Err(e),
            };
            expr = Expr::BinOp(BinOp::Lt, Box::new(expr), Box::new(rhs));
        }
    }

    fn parse_term(&mut self) -> (r: Result<Expr, ParseError>)
        requires
            old(self).pos <= old(self).tokens@.len(),
        ensures
            final(self).tokens == old(self).tokens,
            final(self).pos <= final(self).tokens@.len(),
            expr_outcome(r, term_at(old(self).model(), old(self).pos as int), final(self).pos as int),
            r is Ok ==> old(self).pos < final(self).pos,
        decreases old(self).tokens@.len() - old(self).pos, 6int,
    {
        let ghost ts = self.model();
        let ghost p = self.pos as int;
        assert(ts.len() == self.tokens@.len());
        let mut expr = match self.parse_factor() {
            Ok(e) => e,
            Err(e) => return Err(e),
        };
        loop
            invariant
                self.tokens == old(self).tokens,
                ts == self.model(),
                p == old(self).pos,
                ts.len() == self.tokens@.len(),
                p < self.pos <= self.tokens@.len(),
                term_at(ts, p) == term_rest(ts, self.pos as int, expr@),
            decreases self.tokens@.len() - self.pos,
        {
            let op = if self.consume(&Token::Plus) {
                BinOp::Add
            } else if self.consume(&Token::Minus) {
                BinOp::Sub
            } else {
                return Ok(expr);
            };
            let rhs = match self.parse_factor() {
                Ok(e) => e,
                Err(e) => return Err(e),
            };
            expr = Expr::BinOp(op, Box::new(expr), Box::new(rhs));
        }
    }

    fn parse_factor(&mut self) -> (r: Result<Expr, ParseError>)
        requires
            old(self).pos <= old(self).tokens@.len(),
        ensures
            final(self).tokens == old(self).tokens,
            final(self).pos <= final(self).tokens@.len(),
            expr_outcome(r, factor_at(old(self).model(), old(self).pos as int), final(self).pos as int),
            r is Ok ==> old(self).pos < final(self).pos,
        decreases old(self).tokens@.len() - old(self).pos, 5int,
    {
        let ghost ts = self.model();
        let ghost p = self.pos as int;
        assert(ts.len() == self.tokens@.len());
        let mut expr = match self.parse_application() {
            Ok(e) => e,
            Err(e) => return Err(e),
        };
        loop
            invariant
                self.tokens == old(self).tokens,
                ts == self.model(),
                p == old(self).pos,
                ts.len() == self.tokens@.len(),
                p < self.pos <= self.tokens@.len(),
                factor_at(ts, p) == factor_rest(ts, self.pos as int, expr@),
            decreases self.tokens@.len() - self.pos,
        {
            if !self.consume(&Token::Star) {
                return Ok(expr);
            }
            let rhs = match self.parse_application() {
                Ok(e) => e,
                Err(e) => return Err(e),
            };
            expr = Expr::BinOp(BinOp::Mul, Box::new(expr), Box::new(rhs));
        }
    }

    fn parse_application(&mut self) -> (r: Result<Expr, ParseError>)
        requires
            old(self).pos <= old(self).tokens@.len(),
        ensures
            final(self).tokens == old(self).tokens,
            final(self).pos <= final(self).tokens@.len(),
            expr_outcome(r, application_at(old(self).model(), old(self).pos as int), final(self).pos as int),
            r is Ok ==> old(self).pos < final(self).pos,
        decreases old(self).tokens@.len() - old(self).pos, 4int,
    {
        let ghost ts = self.model();
        let ghost p = self.pos as int;
        assert(ts.len() == self.tokens@.len());
        let mut expr = match self.parse_atom() {
            Ok(e) => e,
            Err(e) => return Err(e),
        };
        loop
            invariant
                self.tokens == old(self).tokens,
                ts == self.model(),
                p == old(self).pos,
                ts.len() == self.tokens@.len(),
                p < self.pos <= self.tokens@.len(),
                application_at(ts, p) == application_rest(ts, self.pos as int, expr@),
            decreases self.tokens@.len() - self.pos,
        {
            let backup = self.pos;
            match self.parse_atom() {
                Ok(arg) => {
                    expr = Expr::App(Box::new(expr), Box::new(arg));
                },
                Err(_) => {
                    self.pos = backup;
                    return Ok(expr);
                },
            }
        }
    }

    fn parse_atom(&mut self) -> (r: Result<Expr, ParseError>)
        requires
            old(self).pos <= old(self).tokens@.len(),
        ensures
            final(self).tokens == old(self).tokens,
            final(self).pos <= final(self).tokens@.len(),
            expr_outcome(r, atom_at(old(self).model(), old(self).pos as int), final(self).pos as int),
            r is Ok ==> old(self).pos < final(self).pos,
        decreases old(self).tokens@.len() - old(self).pos, 3int,
    {
        let ghost ts = self.model();
        let ghost p = self.pos as int;
        assert(ts.len() == self.tokens@.len());
        match self.peek() {
            Some(Token::Int(value)) => {
                let value = *value;
                self.pos = self.pos + 1;
                Ok(Expr::Int(value))
            },
            Some(Token::Bool(value)) => {
                let value = *value;
                self.pos = self.pos + 1;
                Ok(Expr::Bool(value))
            },
            Some(Token::Ident(_)) => {
                match self.expect_ident() {
                    Ok(name) => Ok(Expr::Var(name)),
                    Err(e) => Err(e),
                }
            },
            Some(Token::LParen) => {
                self.pos = self.pos + 1;
                let expr = match self.parse_expression() {
                    Ok(e) => e,
                    Err(e) => return Err(e),
                };
                let rparen = Token::RParen;
                assert(rparen@ == SpecToken::RParen);
                let closed = self.expect(&rparen);
                match closed {
                    Ok(()) => {},
                    Err(e) => return Err(e),
                }
                Ok(expr)
            },
            _ => Err(ParseError { message: String::from_str("expected expression") }),
        }
    }

    fn parse_type(&mut self) -> (r: Result<Type, ParseError>)
        requires
            old(self).pos <= old(self).tokens@.len(),
        ensures
            final(self).tokens == old(self).tokens,
            final(self).pos <= final(self).tokens@.len(),
            type_outcome(r, type_at(old(self).model(), old(self).pos as int), final(self).pos as int),
            r is Ok ==> old(self).pos < final(self).pos,
        decreases old(self).tokens@.len() - old(self).pos,
    {
        let ghost ts = self.model();
        let ghost p = self.pos as int;
        assert(ts.len() == self.tokens@.len());
        let ty = match self.peek() {
            Some(Token::Ident(name)) => {
                if name_is(name, "Int") {
                    self.pos = self.pos + 1;
                    Type::Int
                } else if name_is(name, "Bool") {
                    self.pos = self.pos + 1;
                    Type::Bool
                } else {
                    return Err(ParseError { message: String::from_str("expected type") });
                }
            },
            Some(Token::LParen) => {
                self.pos = self.pos + 1;
                let inner = match self.parse_type() {
                    Ok(t) => t,
                    Err(e) => return Err(e),
                };
                match self.expect(&Token::RParen) {
                    Ok(()) => {},
                    Err(e) => return Err(e),
                }
                inner
            },
            _ => {
                return Err(ParseError { message: String::from_str("expected type") });
            },
        };
        let before_arrow = self.pos;
        if self.consume(&Token::Arrow) {
            match self.parse_type() {
                Ok(ret) => {
                    return Ok(Type::Func(Box::new(ty), Box::new(ret)));
                },
                Err(_) => {
                    self.pos = before_arrow;
                },
            }
        }
        Ok(ty)
    }

    /// Consumes `token` or fails with its name.
    fn expect(&mut self, token: &Token) -> (r: Result<(), ParseError>)
        requires
            old(self).pos <= old(self).tokens@.len(),
        ensures
            final(self).tokens == old(self).tokens,
            r is Ok <==> tok(old(self).model(), old(self).pos as int) == Some(token@),
            r is Ok ==> final(self).pos == old(self).pos + 1,
            r is Err ==> r->Err_0.message@ == expected_token_message(token@) && final(self).pos
                == old(self).pos,
            final(self).pos <= final(self).tokens@.len(),
    {
        match self.peek() {
            Some(next) => {
                if same_token(next, token) {
                    self.pos = self.pos + 1;
                    return Ok(());
                }
            },
            None => {},
        }
        let message = String::from_str("expected token ").concat(token_text(token).as_str());
        Err(ParseError { message })
    }

    fn expect_ident(&mut self) -> (r: Result<String, ParseError>)
        requires
            old(self).pos <= old(self).tokens@.len(),
        ensures
            final(self).tokens == old(self).tokens,
            final(self).pos <= final(self).tokens@.len(),
            match ident_at(old(self).model(), old(self).pos as int) {
                Ok(name) => r is Ok && r->Ok_0@ == name && final(self).pos == old(self).pos + 1,
                Err(m) => r is Err && r->Err_0.message@ == m && final(self).pos == old(self).pos,
            },
    {
        match self.peek() {
            Some(Token::Ident(name)) => {
                let name = name.clone();
                self.pos = self.pos + 1;
                Ok(name)
            },
            _ => Err(ParseError { message: String::from_str("expected identifier") }),
        }
    }

    fn consume(&mut self, token: &Token) -> (r: bool)
        requires
            old(self).pos <= old(self).tokens@.len(),
        ensures
            final(self).tokens == old(self).tokens,
            r == (tok(old(self).model(), old(self).pos as int) == Some(token@)),
            final(self).pos == (if r {
                old(self).pos + 1
            } else {
                old(self).pos as int
            }),
    {
        match self.peek() {
            Some(next) => {
                if same_token(next, token) {
                    self.pos = self.pos + 1;
                    true
                } else {
                    false
                }
            },
            None => false,
        }
    }

    fn peek(&self) -> (r: Option<&Token>)
        ensures
            match r {
                Some(t) => self.pos < self.tokens@.len() && *t == self.tokens@[self.pos as int],
                None => self.pos >= self.tokens@.len(),
            },
            self.tokens@.len() <= usize::MAX,
            r is Some ==> tok(self.model(), self.pos as int) == Some(r->Some_0@),
            r is None ==> tok(self.model(), self.pos as int) is None,
    {
        if self.pos < self.tokens.len() {
            Some(&self.tokens[self.pos])
        } else {
            None
        }
    }
}

impl From<LexError> for ParseError {
    fn from(err: LexError) -> (r: ParseError) {
        ParseError { message: err.message }
    }
}

impl vstd::std_specs::convert::FromSpecImpl<LexError> for ParseError {
    open spec fn obeys_from_spec() -> bool {
        true
    }

    open spec fn from_spec(err: LexError) -> ParseError {
        ParseError { message: err.message }
    }
}

/// Parses a source text into an expression. Fails where the lexer fails,
/// where the tokens do not start with an expression, and where tokens are
/// left after it.
pub fn parse_expr(input: &str) -> (res: Result<Expr, ParseError>)
    ensures
        match res {
            Ok(e) => parse_spec(input@) == Ok::<SpecExpr, Seq<char>>(e@),
            Err(err) => parse_spec(input@) == Err::<SpecExpr, Seq<char>>(err.message@),
        },
{
    let tokens = match lex(input) {
        Ok(tokens) => tokens,
        Err(err) => return Err(ParseError::from(err)),
    };
    let mut parser = Parser { tokens: tokens.as_slice(), pos: 0 };
    let expr = match parser.parse_expression() {
        Ok(e) => e,
        Err(e) => return Err(e),
    };
    if parser.peek().is_some() {
        return Err(ParseError { message: String::from_str("unexpected tokens after expression") });
    }
    Ok(expr)
}

/// Operator precedence: `*` binds tighter than `+`, for any three
/// operands (literals or variables).
pub proof fn law_mul_binds_tighter_than_add(x: SpecToken, y: SpecToken, z: SpecToken)
    requires
        is_operand(x),
        is_operand(y),
        is_operand(z),
    ensures
        parse_tokens_spec(
            seq![x, SpecToken::Plus, y, SpecToken::Star, z],
        ) == Ok::<SpecExpr, Seq<char>>(
            SpecExpr::BinOp(
                BinOp::Add,
                Box::new(operand_expr(x)),
                Box::new(
                    SpecExpr::BinOp(BinOp::Mul, Box::new(operand_expr(y)), Box::new(operand_expr(z))),
                ),
            ),
        ),
{
    let ts = seq![x, SpecToken::Plus, y, SpecToken::Star, z];
    let ea = operand_expr(x);
    let eb = operand_expr(y);
    let ec = operand_expr(z);
    let mul = SpecExpr::BinOp(BinOp::Mul, Box::new(eb), Box::new(ec));
    let add = SpecExpr::BinOp(BinOp::Add, Box::new(ea), Box::new(mul));
    assert(atom_at(ts, 4) == Ok::<(SpecExpr, int), Seq<char>>((ec, 5)));
    assert(atom_at(ts, 5) is Err);
    assert(application_rest(ts, 5, ec) == Ok::<(SpecExpr, int), Seq<char>>((ec, 5)));
    assert(application_at(ts, 4) == Ok::<(SpecExpr, int), Seq<char>>((ec, 5)));
    assert(factor_rest(ts, 5, mul) == Ok::<(SpecExpr, int), Seq<char>>((mul, 5)));
    assert(atom_at(ts, 2) == Ok::<(SpecExpr, int), Seq<char>>((eb, 3)));
    assert(atom_at(ts, 3) is Err);
    assert(application_rest(ts, 3, eb) == Ok::<(SpecExpr, int), Seq<char>>((eb, 3)));
    assert(application_at(ts, 2) == Ok::<(SpecExpr, int), Seq<char>>((eb, 3)));
    assert(factor_rest(ts, 3, eb) == Ok::<(SpecExpr, int), Seq<char>>((mul, 5)));
    assert(factor_at(ts, 2) == Ok::<(SpecExpr, int), Seq<char>>((mul, 5)));
    assert(term_rest(ts, 5, add) == Ok::<(SpecExpr, int), Seq<char>>((add, 5)));
    assert(atom_at(ts, 0) == Ok::<(SpecExpr, int), Seq<char>>((ea, 1)));
    assert(atom_at(ts, 1) is Err);
    assert(application_rest(ts, 1, ea) == Ok::<(SpecExpr, int), Seq<char>>((ea, 1)));
    assert(application_at(ts, 0) == Ok::<(SpecExpr, int), Seq<char>>((ea, 1)));
    assert(factor_rest(ts, 1, ea) == Ok::<(SpecExpr, int), Seq<char>>((ea, 1)));
    assert(factor_at(ts, 0) == Ok::<(SpecExpr, int), Seq<char>>((ea, 1)));
    assert(term_rest(ts, 1, ea) == Ok::<(SpecExpr, int), Seq<char>>((add, 5)));
    assert(term_at(ts, 0) == Ok::<(SpecExpr, int), Seq<char>>((add, 5)));
    assert(comparison_rest(ts, 5, add) == Ok::<(SpecExpr, int), Seq<char>>((add, 5)));
    assert(comparison_at(ts, 0) == Ok::<(SpecExpr, int), Seq<char>>((add, 5)));
    assert(equality_rest(ts, 5, add) == Ok::<(SpecExpr, int), Seq<char>>((add, 5)));
    assert(equality_at(ts, 0) == Ok::<(SpecExpr, int), Seq<char>>((add, 5)));
    assert(expression_at(ts, 0) == Ok::<(SpecExpr, int), Seq<char>>((add, 5)));
}

/// `x < y op z` with `op` one of `+`, `-`: the operator below `<` is read
/// first.
proof fn lemma_lt_over_additive(x: SpecToken, y: SpecToken, z: SpecToken, op: SpecToken, bop: BinOp)
    requires
        is_operand(x),
        is_operand(y),
        is_operand(z),
        (op == SpecToken::Plus && bop == BinOp::Add) || (op == SpecToken::Minus && bop == BinOp::Sub),
    ensures
        parse_tokens_spec(seq![x, SpecToken::Lt, y, op, z]) == Ok::<SpecExpr, Seq<char>>(
            SpecExpr::BinOp(
                BinOp::Lt,
                Box::new(operand_expr(x)),
                Box::new(SpecExpr::BinOp(bop, Box::new(operand_expr(y)), Box::new(operand_expr(z)))),
            ),
        ),
{
    let ts = seq![x, SpecToken::Lt, y, op, z];
    let ea = operand_expr(x);
    let eb = operand_expr(y);
    let ec = operand_expr(z);
    let sum = SpecExpr::BinOp(bop, Box::new(eb), Box::new(ec));
    let lt = SpecExpr::BinOp(BinOp::Lt, Box::new(ea), Box::new(sum));
    assert(atom_at(ts, 4) == Ok::<(SpecExpr, int), Seq<char>>((ec, 5)));
    assert(atom_at(ts, 5) is Err);
    assert(application_rest(ts, 5, ec) == Ok::<(SpecExpr, int), Seq<char>>((ec, 5)));
    assert(application_at(ts, 4) == Ok::<(SpecExpr, int), Seq<char>>((ec, 5)));
    assert(factor_rest(ts, 5, ec) == Ok::<(SpecExpr, int), Seq<char>>((ec, 5)));
    assert(factor_at(ts, 4) == Ok::<(SpecExpr, int), Seq<char>>((ec, 5)));
    assert(atom_at(ts, 2) == Ok::<(SpecExpr, int), Seq<char>>((eb, 3)));
    assert(atom_at(ts, 3) is Err);
    assert(application_rest(ts, 3, eb) == Ok::<(SpecExpr, int), Seq<char>>((eb, 3)));
    assert(application_at(ts, 2) == Ok::<(SpecExpr, int), Seq<char>>((eb, 3)));
    assert(factor_rest(ts, 3, eb) == Ok::<(SpecExpr, int), Seq<char>>((eb, 3)));
    assert(factor_at(ts, 2) == Ok::<(SpecExpr, int), Seq<char>>((eb, 3)));
    assert(term_rest(ts, 5, sum) == Ok::<(SpecExpr, int), Seq<char>>((sum, 5)));
    assert(term_rest(ts, 3, eb) == Ok::<(SpecExpr, int), Seq<char>>((sum, 5)));
    assert(term_at(ts, 2) == Ok::<(SpecExpr, int), Seq<char>>((sum, 5)));
    assert(comparison_rest(ts, 5, lt) == Ok::<(SpecExpr, int), Seq<char>>((lt, 5)));
    assert(comparison_rest(ts, 1, ea) == Ok::<(SpecExpr, int), Seq<char>>((lt, 5)));
    assert(atom_at(ts, 0) == Ok::<(SpecExpr, int), Seq<char>>((ea, 1)));
    assert(atom_at(ts, 1) is Err);
    assert(application_rest(ts, 1, ea) == Ok::<(SpecExpr, int), Seq<char>>((ea, 1)));
    assert(application_at(ts, 0) == Ok::<(SpecExpr, int), Seq<char>>((ea, 1)));
    assert(factor_rest(ts, 1, ea) == Ok::<(SpecExpr, int), Seq<char>>((ea, 1)));
    assert(factor_at(ts, 0) == Ok::<(SpecExpr, int), Seq<char>>((ea, 1)));
    assert(term_rest(ts, 1, ea) == Ok::<(SpecExpr, int), Seq<char>>((ea, 1)));
    assert(term_at(ts, 0) == Ok::<(SpecExpr, int), Seq<char>>((ea, 1)));
    assert(comparison_at(ts, 0) == Ok::<(SpecExpr, int), Seq<char>>((lt, 5)));
    assert(equality_rest(ts, 5, lt) == Ok::<(SpecExpr, int), Seq<char>>((lt, 5)));
    assert(equality_at(ts, 0) == Ok::<(SpecExpr, int), Seq<char>>((lt, 5)));
    assert(expression_at(ts, 0) == Ok::<(SpecExpr, int), Seq<char>>((lt, 5)));
}

/// `x op y < z` with `op` one of `+`, `-`: the sum is the left operand of `<`.
proof fn lemma_additive_under_lt(x: SpecToken, y: SpecToken, z: SpecToken, op: SpecToken, bop: BinOp)
    requires
        is_operand(x),
        is_operand(y),
        is_operand(z),
        (op == SpecToken::Plus && bop == BinOp::Add) || (op == SpecToken::Minus && bop == BinOp::Sub),
    ensures
        parse_tokens_spec(seq![x, op, y, SpecToken::Lt, z]) == Ok::<SpecExpr, Seq<char>>(
            SpecExpr::BinOp(
                BinOp::Lt,
                Box::new(SpecExpr::BinOp(bop, Box::new(operand_expr(x)), Box::new(operand_expr(y)))),
                Box::new(operand_expr(z)),
            ),
        ),
{
    let ts = seq![x, op, y, SpecToken::Lt, z];
    let ea = operand_expr(x);
    let eb = operand_expr(y);
    let ec = operand_expr(z);
    let sum = SpecExpr::BinOp(bop, Box::new(ea), Box::new(eb));
    let lt = SpecExpr::BinOp(BinOp::Lt, Box::new(sum), Box::new(ec));
    assert(atom_at(ts, 4) == Ok::<(SpecExpr, int), Seq<char>>((ec, 5)));
    assert(atom_at(ts, 5) is Err);
    assert(application_rest(ts, 5, ec) == Ok::<(SpecExpr, int), Seq<char>>((ec, 5)));
    assert(application_at(ts, 4) == Ok::<(SpecExpr, int), Seq<char>>((ec, 5)));
    assert(factor_rest(ts, 5, ec) == Ok::<(SpecExpr, int), Seq<char>>((ec, 5)));
    assert(factor_at(ts, 4) == Ok::<(SpecExpr, int), Seq<char>>((ec, 5)));
    assert(term_rest(ts, 5, ec) == Ok::<(SpecExpr, int), Seq<char>>((ec, 5)));
    assert(term_at(ts, 4) == Ok::<(SpecExpr, int), Seq<char>>((ec, 5)));
    assert(comparison_rest(ts, 5, lt) == Ok::<(SpecExpr, int), Seq<char>>((lt, 5)));
    assert(comparison_rest(ts, 3, sum) == Ok::<(SpecExpr, int), Seq<char>>((lt, 5)));
    assert(atom_at(ts, 2) == Ok::<(SpecExpr, int), Seq<char>>((eb, 3)));
    assert(atom_at(ts, 3) is Err);
    assert(application_rest(ts, 3, eb) == Ok::<(SpecExpr, int), Seq<char>>((eb, 3)));
    assert(application_at(ts, 2) == Ok::<(SpecExpr, int), Seq<char>>((eb, 3)));
    assert(factor_rest(ts, 3, eb) == Ok::<(SpecExpr, int), Seq<char>>((eb, 3)));
    assert(factor_at(ts, 2) == Ok::<(SpecExpr, int), Seq<char>>((eb, 3)));
    assert(term_rest(ts, 3, sum) == Ok::<(SpecExpr, int), Seq<char>>((sum, 3)));
    assert(atom_at(ts, 0) == Ok::<(SpecExpr, int), Seq<char>>((ea, 1)));
    assert(atom_at(ts, 1) is Err);
    assert(application_rest(ts, 1, ea) == Ok::<(SpecExpr, int), Seq<char>>((ea, 1)));
    assert(application_at(ts, 0) == Ok::<(SpecExpr, int), Seq<char>>((ea, 1)));
    assert(factor_rest(ts, 1, ea) == Ok::<(SpecExpr, int), Seq<char>>((ea, 1)));
    assert(factor_at(ts, 0) == Ok::<(SpecExpr, int), Seq<char>>((ea, 1)));
    assert(term_rest(ts, 1, ea) == Ok::<(SpecExpr, int), Seq<char>>((sum, 3)));
    assert(term_at(ts, 0) == Ok::<(SpecExpr, int), Seq<char>>((sum, 3)));
    assert(comparison_at(ts, 0) == Ok::<(SpecExpr, int), Seq<char>>((lt, 5)));
    assert(equality_rest(ts, 5, lt) == Ok::<(SpecExpr, int), Seq<char>>((lt, 5)));
    assert(equality_at(ts, 0) == Ok::<(SpecExpr, int), Seq<char>>((lt, 5)));
    assert(expression_at(ts, 0) == Ok::<(SpecExpr, int), Seq<char>>((lt, 5)));
}

/// Operator precedence: `+` and `-` bind tighter than `<`, on either side of
/// it, for any three operands (literals or variables).
pub proof fn law_additive_binds_tighter_than_lt(x: SpecToken, y: SpecToken, z: SpecToken)
    requires
        is_operand(x),
        is_operand(y),
        is_operand(z),
    ensures
        parse_tokens_spec(seq![x, SpecToken::Lt, y, SpecToken::Plus, z]) == Ok::<
            SpecExpr,
            Seq<char>,
        >(
            SpecExpr::BinOp(
                BinOp::Lt,
                Box::new(operand_expr(x)),
                Box::new(
                    SpecExpr::BinOp(BinOp::Add, Box::new(operand_expr(y)), Box::new(operand_expr(z))),
                ),
            ),
        ),
        parse_tokens_spec(seq![x, SpecToken::Lt, y, SpecToken::Minus, z]) == Ok::<
            SpecExpr,
            Seq<char>,
        >(
            SpecExpr::BinOp(
                BinOp::Lt,
                Box::new(operand_expr(x)),
                Box::new(
                    SpecExpr::BinOp(BinOp::Sub, Box::new(operand_expr(y)), Box::new(operand_expr(z))),
                ),
            ),
        ),
        parse_tokens_spec(seq![x, SpecToken::Plus, y, SpecToken::Lt, z]) == Ok::<
            SpecExpr,
            Seq<char>,
        >(
            SpecExpr::BinOp(
                BinOp::Lt,
                Box::new(
                    SpecExpr::BinOp(BinOp::Add, Box::new(operand_expr(x)), Box::new(operand_expr(y))),
                ),
                Box::new(operand_expr(z)),
            ),
        ),
        parse_tokens_spec(seq![x, SpecToken::Minus, y, SpecToken::Lt, z]) == Ok::<
            SpecExpr,
            Seq<char>,
        >(
            SpecExpr::BinOp(
                BinOp::Lt,
                Box::new(
                    SpecExpr::BinOp(BinOp::Sub, Box::new(operand_expr(x)), Box::new(operand_expr(y))),
                ),
                Box::new(operand_expr(z)),
            ),
        ),
{
    lemma_lt_over_additive(x, y, z, SpecToken::Plus, BinOp::Add);
    lemma_lt_over_additive(x, y, z, SpecToken::Minus, BinOp::Sub);
    lemma_additive_under_lt(x, y, z, SpecToken::Plus, BinOp::Add);
    lemma_additive_under_lt(x, y, z, SpecToken::Minus, BinOp::Sub);
}

/// A parse that ends at `q` with `e`.
spec fn parsed(e: SpecExpr, q: int) -> ExprAt {
    Ok((e, q))
}

/// An operand followed by a binary operator, `)` or the end is a whole
/// application.
proof fn lemma_operand_application(ts: Seq<SpecToken>, p: int)
    requires
        0 <= p < ts.len(),
        is_operand(ts[p]),
        p + 1 == ts.len() || ts[p + 1] == SpecToken::Plus || ts[p + 1] == SpecToken::Minus
            || ts[p + 1] == SpecToken::Star || ts[p + 1] == SpecToken::Lt || ts[p + 1]
            == SpecToken::EqEq || ts[p + 1] == SpecToken::RParen,
    ensures
        application_at(ts, p) == Ok::<(SpecExpr, int), Seq<char>>((operand_expr(ts[p]), p + 1)),
{
    let e = operand_expr(ts[p]);
    assert(atom_at(ts, p) == Ok::<(SpecExpr, int), Seq<char>>((e, p + 1)));
    assert(atom_at(ts, p + 1) is Err);
    assert(application_rest(ts, p + 1, e) == Ok::<(SpecExpr, int), Seq<char>>((e, p + 1)));
}

#[verifier::spinoff_prover]
proof fn lemma_lt_binds_tighter_than_eq_case1(x: SpecToken, y: SpecToken, z: SpecToken)
    requires
        is_operand(x),
        is_operand(y),
        is_operand(z),
    ensures
        parse_tokens_spec(seq![x, SpecToken::EqEq, y, SpecToken::Lt, z]) == Ok::<
            SpecExpr,
            Seq<char>,
        >(
            SpecExpr::BinOp(
                BinOp::Eq,
                Box::new(operand_expr(x)),
                Box::new(
                    SpecExpr::BinOp(BinOp::Lt, Box::new(operand_expr(y)), Box::new(operand_expr(z))),
                ),
            ),
        ),
{
    let ea = operand_expr(x);
    let eb = operand_expr(y);
    let ec = operand_expr(z);
    let ts = seq![x, SpecToken::EqEq, y, SpecToken::Lt, z];
    let lt = SpecExpr::BinOp(BinOp::Lt, Box::new(eb), Box::new(ec));
    let eq = SpecExpr::BinOp(BinOp::Eq, Box::new(ea), Box::new(lt));
    lemma_operand_application(ts, 4);
    lemma_operand_application(ts, 2);
    lemma_operand_application(ts, 0);
    assert(factor_rest(ts, 5, ec) == parsed(ec, 5));
    assert(factor_at(ts, 4) == parsed(ec, 5));
    assert(term_rest(ts, 5, ec) == parsed(ec, 5));
    assert(term_at(ts, 4) == parsed(ec, 5));
    assert(factor_rest(ts, 3, eb) == parsed(eb, 3));
    assert(factor_at(ts, 2) == parsed(eb, 3));
    assert(term_rest(ts, 3, eb) == parsed(eb, 3));
    assert(term_at(ts, 2) == parsed(eb, 3));
    assert(comparison_rest(ts, 5, lt) == parsed(lt, 5));
    assert(comparison_rest(ts, 3, eb) == parsed(lt, 5));
    assert(comparison_at(ts, 2) == parsed(lt, 5));
    assert(equality_rest(ts, 5, eq) == parsed(eq, 5));
    assert(equality_rest(ts, 1, ea) == parsed(eq, 5));
    assert(factor_rest(ts, 1, ea) == parsed(ea, 1));
    assert(factor_at(ts, 0) == parsed(ea, 1));
    assert(term_rest(ts, 1, ea) == parsed(ea, 1));
    assert(term_at(ts, 0) == parsed(ea, 1));
    assert(comparison_rest(ts, 1, ea) == parsed(ea, 1));
    assert(comparison_at(ts, 0) == parsed(ea, 1));
    assert(equality_at(ts, 0) == parsed(eq, 5));
    assert(expression_at(ts, 0) == parsed(eq, 5));
}

#[verifier::spinoff_prover]
proof fn lemma_lt_binds_tighter_than_eq_case2(x: SpecToken, y: SpecToken, z: SpecToken)
    requires
        is_operand(x),
        is_operand(y),
        is_operand(z),
    ensures
        parse_tokens_spec(seq![x, SpecToken::Lt, y, SpecToken::EqEq, z]) == Ok::<
            SpecExpr,
            Seq<char>,
        >(
            SpecExpr::BinOp(
                BinOp::Eq,
                Box::new(
                    SpecExpr::BinOp(BinOp::Lt, Box::new(operand_expr(x)), Box::new(operand_expr(y))),
                ),
                Box::new(operand_expr(z)),
            ),
        ),
{
    let ea = operand_expr(x);
    let eb = operand_expr(y);
    let ec = operand_expr(z);
    let us = seq![x, SpecToken::Lt, y, SpecToken::EqEq, z];
    let lt2 = SpecExpr::BinOp(BinOp::Lt, Box::new(ea), Box::new(eb));
    let eq2 = SpecExpr::BinOp(BinOp::Eq, Box::new(lt2), Box::new(ec));
    lemma_operand_application(us, 4);
    lemma_operand_application(us, 2);
    lemma_operand_application(us, 0);
    assert(factor_rest(us, 5, ec) == parsed(ec, 5));
    assert(factor_at(us, 4) == parsed(ec, 5));
    assert(term_rest(us, 5, ec) == parsed(ec, 5));
    assert(term_at(us, 4) == parsed(ec, 5));
    assert(comparison_rest(us, 5, ec) == parsed(ec, 5));
    assert(comparison_at(us, 4) == parsed(ec, 5));
    assert(factor_rest(us, 3, eb) == parsed(eb, 3));
    assert(factor_at(us, 2) == parsed(eb, 3));
    assert(term_rest(us, 3, eb) == parsed(eb, 3));
    assert(term_at(us, 2) == parsed(eb, 3));
    assert(comparison_rest(us, 3, lt2) == parsed(lt2, 3));
    assert(comparison_rest(us, 1, ea) == parsed(lt2, 3));
    assert(factor_rest(us, 1, ea) == parsed(ea, 1));
    assert(factor_at(us, 0) == parsed(ea, 1));
    assert(term_rest(us, 1, ea) == parsed(ea, 1));
    assert(term_at(us, 0) == parsed(ea, 1));
    assert(comparison_at(us, 0) == parsed(lt2, 3));
    assert(equality_rest(us, 5, eq2) == parsed(eq2, 5));
    assert(equality_rest(us, 3, lt2) == parsed(eq2, 5));
    assert(equality_at(us, 0) == parsed(eq2, 5));
    assert(expression_at(us, 0) == parsed(eq2, 5));
}

/// `x == y < z` and `x < y == z`: `<` binds tighter than `==`.
pub proof fn law_lt_binds_tighter_than_eq(x: SpecToken, y: SpecToken, z: SpecToken)
    requires
        is_operand(x),
        is_operand(y),
        is_operand(z),
    ensures
        parse_tokens_spec(seq![x, SpecToken::EqEq, y, SpecToken::Lt, z]) == Ok::<
            SpecExpr,
            Seq<char>,
        >(
            SpecExpr::BinOp(
                BinOp::Eq,
                Box::new(operand_expr(x)),
                Box::new(
                    SpecExpr::BinOp(BinOp::Lt, Box::new(operand_expr(y)), Box::new(operand_expr(z))),
                ),
            ),
        ),
        parse_tokens_spec(seq![x, SpecToken::Lt, y, SpecToken::EqEq, z]) == Ok::<
            SpecExpr,
            Seq<char>,
        >(
            SpecExpr::BinOp(
                BinOp::Eq,
                Box::new(
                    SpecExpr::BinOp(BinOp::Lt, Box::new(operand_expr(x)), Box::new(operand_expr(y))),
                ),
                Box::new(operand_expr(z)),
            ),
        ),
{
    lemma_lt_binds_tighter_than_eq_case1(x, y, z);
    lemma_lt_binds_tighter_than_eq_case2(x, y, z);
}

#[verifier::spinoff_prover]
proof fn lemma_mul_associates_left_case1(x: SpecToken, y: SpecToken, z: SpecToken)
    requires
        is_operand(x),
        is_operand(y),
        is_operand(z),
    ensures
        parse_tokens_spec(seq![x, SpecToken::Star, y, SpecToken::Star, z]) == Ok::<
            SpecExpr,
            Seq<char>,
        >(
            SpecExpr::BinOp(
                BinOp::Mul,
                Box::new(
                    SpecExpr::BinOp(BinOp::Mul, Box::new(operand_expr(x)), Box::new(operand_expr(y))),
                ),
                Box::new(operand_expr(z)),
            ),
        ),
{
    let ea = operand_expr(x);
    let eb = operand_expr(y);
    let ec = operand_expr(z);
        let m1 = SpecExpr::BinOp(BinOp::Mul, Box::new(ea), Box::new(eb));
    let ts = seq![x, SpecToken::Star, y, SpecToken::Star, z];
    let m2 = SpecExpr::BinOp(BinOp::Mul, Box::new(m1), Box::new(ec));
    lemma_operand_application(ts, 4);
    lemma_operand_application(ts, 2);
    lemma_operand_application(ts, 0);
    assert(factor_rest(ts, 5, m2) == parsed(m2, 5));
    assert(factor_rest(ts, 3, m1) == parsed(m2, 5));
    assert(factor_rest(ts, 1, ea) == parsed(m2, 5));
    assert(factor_at(ts, 0) == parsed(m2, 5));
    assert(term_rest(ts, 5, m2) == parsed(m2, 5));
    assert(term_at(ts, 0) == parsed(m2, 5));
    assert(comparison_rest(ts, 5, m2) == parsed(m2, 5));
    assert(comparison_at(ts, 0) == parsed(m2, 5));
    assert(equality_rest(ts, 5, m2) == parsed(m2, 5));
    assert(equality_at(ts, 0) == parsed(m2, 5));
    assert(expression_at(ts, 0) == parsed(m2, 5));
}

#[verifier::spinoff_prover]
proof fn lemma_mul_associates_left_case2(x: SpecToken, y: SpecToken, z: SpecToken)
    requires
        is_operand(x),
        is_operand(y),
        is_operand(z),
    ensures
        parse_tokens_spec(seq![x, SpecToken::Star, y, SpecToken::Plus, z]) == Ok::<
            SpecExpr,
            Seq<char>,
        >(
            SpecExpr::BinOp(
                BinOp::Add,
                Box::new(
                    SpecExpr::BinOp(BinOp::Mul, Box::new(operand_expr(x)), Box::new(operand_expr(y))),
                ),
                Box::new(operand_expr(z)),
            ),
        ),
{
    let ea = operand_expr(x);
    let eb = operand_expr(y);
    let ec = operand_expr(z);
        let m1 = SpecExpr::BinOp(BinOp::Mul, Box::new(ea), Box::new(eb));
    let us = seq![x, SpecToken::Star, y, SpecToken::Plus, z];
    let s = SpecExpr::BinOp(BinOp::Add, Box::new(m1), Box::new(ec));
    lemma_operand_application(us, 4);
    lemma_operand_application(us, 2);
    lemma_operand_application(us, 0);
    assert(factor_rest(us, 5, ec) == parsed(ec, 5));
    assert(factor_at(us, 4) == parsed(ec, 5));
    assert(factor_rest(us, 3, m1) == parsed(m1, 3));
    assert(factor_rest(us, 1, ea) == parsed(m1, 3));
    assert(factor_at(us, 0) == parsed(m1, 3));
    assert(term_rest(us, 5, s) == parsed(s, 5));
    assert(term_rest(us, 3, m1) == parsed(s, 5));
    assert(term_at(us, 0) == parsed(s, 5));
    assert(comparison_rest(us, 5, s) == parsed(s, 5));
    assert(comparison_at(us, 0) == parsed(s, 5));
    assert(equality_rest(us, 5, s) == parsed(s, 5));
    assert(equality_at(us, 0) == parsed(s, 5));
    assert(expression_at(us, 0) == parsed(s, 5));
}

/// `x * y * z` groups as `(x * y) * z`, and `x * y + z` as `(x * y) + z`.
pub proof fn law_mul_associates_left(x: SpecToken, y: SpecToken, z: SpecToken)
    requires
        is_operand(x),
        is_operand(y),
        is_operand(z),
    ensures
        parse_tokens_spec(seq![x, SpecToken::Star, y, SpecToken::Star, z]) == Ok::<
            SpecExpr,
            Seq<char>,
        >(
            SpecExpr::BinOp(
                BinOp::Mul,
                Box::new(
                    SpecExpr::BinOp(BinOp::Mul, Box::new(operand_expr(x)), Box::new(operand_expr(y))),
                ),
                Box::new(operand_expr(z)),
            ),
        ),
        parse_tokens_spec(seq![x, SpecToken::Star, y, SpecToken::Plus, z]) == Ok::<
            SpecExpr,
            Seq<char>,
        >(
            SpecExpr::BinOp(
                BinOp::Add,
                Box::new(
                    SpecExpr::BinOp(BinOp::Mul, Box::new(operand_expr(x)), Box::new(operand_expr(y))),
                ),
                Box::new(operand_expr(z)),
            ),
        ),
{
    lemma_mul_associates_left_case1(x, y, z);
    lemma_mul_associates_left_case2(x, y, z);
}

#[verifier::spinoff_prover]
proof fn lemma_application_binds_tightest_case1(f: SpecToken, x: SpecToken, y: SpecToken)
    requires
        is_operand(f),
        is_operand(x),
        is_operand(y),
    ensures
        parse_tokens_spec(seq![f, x, y]) == Ok::<SpecExpr, Seq<char>>(
            SpecExpr::App(
                Box::new(SpecExpr::App(Box::new(operand_expr(f)), Box::new(operand_expr(x)))),
                Box::new(operand_expr(y)),
            ),
        ),
{
    let ef = operand_expr(f);
    let ex = operand_expr(x);
    let ey = operand_expr(y);
        let a1 = SpecExpr::App(Box::new(ef), Box::new(ex));
    let ts = seq![f, x, y];
    let a2 = SpecExpr::App(Box::new(a1), Box::new(ey));
    lemma_chains_end(ts, 3, a2);
    assert(atom_at(ts, 2) == parsed(ey, 3));
    assert(application_rest(ts, 2, a1) == parsed(a2, 3));
    assert(atom_at(ts, 1) == parsed(ex, 2));
    assert(application_rest(ts, 1, ef) == parsed(a2, 3));
    assert(atom_at(ts, 0) == parsed(ef, 1));
    assert(application_at(ts, 0) == parsed(a2, 3));
    assert(factor_at(ts, 0) == parsed(a2, 3));
    assert(term_at(ts, 0) == parsed(a2, 3));
    assert(comparison_at(ts, 0) == parsed(a2, 3));
    assert(equality_at(ts, 0) == parsed(a2, 3));
    assert(expression_at(ts, 0) == parsed(a2, 3));
}

#[verifier::spinoff_prover]
proof fn lemma_application_binds_tightest_case2(f: SpecToken, x: SpecToken, y: SpecToken)
    requires
        is_operand(f),
        is_operand(x),
        is_operand(y),
    ensures
        parse_tokens_spec(seq![f, x, SpecToken::Star, y]) == Ok::<SpecExpr, Seq<char>>(
            SpecExpr::BinOp(
                BinOp::Mul,
                Box::new(SpecExpr::App(Box::new(operand_expr(f)), Box::new(operand_expr(x)))),
                Box::new(operand_expr(y)),
            ),
        ),
{
    let ef = operand_expr(f);
    let ex = operand_expr(x);
    let ey = operand_expr(y);
        let a1 = SpecExpr::App(Box::new(ef), Box::new(ex));
    let us = seq![f, x, SpecToken::Star, y];
    let m = SpecExpr::BinOp(BinOp::Mul, Box::new(a1), Box::new(ey));
    lemma_chains_end(us, 4, m);
    lemma_operand_application(us, 3);
    assert(atom_at(us, 2) is Err);
    assert(application_rest(us, 2, a1) == parsed(a1, 2));
    assert(atom_at(us, 1) == parsed(ex, 2));
    assert(application_rest(us, 1, ef) == parsed(a1, 2));
    assert(atom_at(us, 0) == parsed(ef, 1));
    assert(application_at(us, 0) == parsed(a1, 2));
    assert(factor_rest(us, 2, a1) == parsed(m, 4));
    assert(factor_at(us, 0) == parsed(m, 4));
    assert(term_at(us, 0) == parsed(m, 4));
    assert(comparison_at(us, 0) == parsed(m, 4));
    assert(equality_at(us, 0) == parsed(m, 4));
    assert(expression_at(us, 0) == parsed(m, 4));
}

/// Application binds tightest and to the left: `f x y` is `(f x) y`, and
/// `f x * y` is `(f x) * y`.
pub proof fn law_application_binds_tightest(f: SpecToken, x: SpecToken, y: SpecToken)
    requires
        is_operand(f),
        is_operand(x),
        is_operand(y),
    ensures
        parse_tokens_spec(seq![f, x, y]) == Ok::<SpecExpr, Seq<char>>(
            SpecExpr::App(
                Box::new(SpecExpr::App(Box::new(operand_expr(f)), Box::new(operand_expr(x)))),
                Box::new(operand_expr(y)),
            ),
        ),
        parse_tokens_spec(seq![f, x, SpecToken::Star, y]) == Ok::<SpecExpr, Seq<char>>(
            SpecExpr::BinOp(
                BinOp::Mul,
                Box::new(SpecExpr::App(Box::new(operand_expr(f)), Box::new(operand_expr(x)))),
                Box::new(operand_expr(y)),
            ),
        ),
{
    lemma_application_binds_tightest_case1(f, x, y);
    lemma_application_binds_tightest_case2(f, x, y);
}

/// The expression of a token that is an operand on its own.
pub open spec fn operand_expr(t: SpecToken) -> SpecExpr {
    match t {
        SpecToken::Int(n) => SpecExpr::Int(n),
        SpecToken::Bool(b) => SpecExpr::Bool(b),
        SpecToken::Ident(x) => SpecExpr::Var(x),
        _ => SpecExpr::Int(0),
    }
}

pub open spec fn is_operand(t: SpecToken) -> bool {
    t is Int || t is Bool || t is Ident
}

/// No expression continues at `q`: there is no token, or one that neither
/// starts an atom nor is a binary operator.
pub open spec fn ends_expression(ts: Seq<SpecToken>, q: int) -> bool {
    match tok(ts, q) {
        None => true,
        Some(t) => !(is_operand(t) || t is LParen || t is Star || t is Plus || t is Minus
            || t is Lt || t is EqEq),
    }
}

/// Once the application at `q` has ended, the operator chains above it end
/// at `q` too.
pub(crate) proof fn lemma_chains_end(ts: Seq<SpecToken>, q: int, e: SpecExpr)
    requires
        0 < q <= ts.len(),
        ends_expression(ts, q),
    ensures
        factor_rest(ts, q, e) == Ok::<(SpecExpr, int), Seq<char>>((e, q)),
        term_rest(ts, q, e) == Ok::<(SpecExpr, int), Seq<char>>((e, q)),
        comparison_rest(ts, q, e) == Ok::<(SpecExpr, int), Seq<char>>((e, q)),
        equality_rest(ts, q, e) == Ok::<(SpecExpr, int), Seq<char>>((e, q)),
        application_rest(ts, q, e) == Ok::<(SpecExpr, int), Seq<char>>((e, q)),
{
    assert(atom_at(ts, q) is Err);
}

/// A lone operand followed by the end of the expression.
pub(crate) proof fn lemma_operand_expression(ts: Seq<SpecToken>, p: int)
    requires
        0 <= p < ts.len(),
        is_operand(ts[p]),
        ends_expression(ts, p + 1),
    ensures
        expression_at(ts, p) == Ok::<(SpecExpr, int), Seq<char>>((operand_expr(ts[p]), p + 1)),
{
    let e = operand_expr(ts[p]);
    assert(atom_at(ts, p) == Ok::<(SpecExpr, int), Seq<char>>((e, p + 1)));
    lemma_chains_end(ts, p + 1, e);
    assert(application_at(ts, p) == Ok::<(SpecExpr, int), Seq<char>>((e, p + 1)));
    assert(factor_at(ts, p) == Ok::<(SpecExpr, int), Seq<char>>((e, p + 1)));
    assert(term_at(ts, p) == Ok::<(SpecExpr, int), Seq<char>>((e, p + 1)));
    assert(comparison_at(ts, p) == Ok::<(SpecExpr, int), Seq<char>>((e, p + 1)));
    assert(equality_at(ts, p) == Ok::<(SpecExpr, int), Seq<char>>((e, p + 1)));
}

/// Two operands joined by `+`, followed by the end of the expression.
pub(crate) proof fn lemma_sum_expression(ts: Seq<SpecToken>, p: int)
    requires
        0 <= p,
        p + 2 < ts.len(),
        is_operand(ts[p]),
        ts[p + 1] == SpecToken::Plus,
        is_operand(ts[p + 2]),
        ends_expression(ts, p + 3),
    ensures
        expression_at(ts, p) == Ok::<(SpecExpr, int), Seq<char>>(
            (
                SpecExpr::BinOp(
                    BinOp::Add,
                    Box::new(operand_expr(ts[p])),
                    Box::new(operand_expr(ts[p + 2])),
                ),
                p + 3,
            ),
        ),
{
    let l = operand_expr(ts[p]);
    let r = operand_expr(ts[p + 2]);
    let sum = SpecExpr::BinOp(BinOp::Add, Box::new(l), Box::new(r));
    assert(atom_at(ts, p + 1) is Err);
    lemma_chains_end(ts, p + 3, r);
    lemma_chains_end(ts, p + 3, sum);
    assert(atom_at(ts, p + 2) == Ok::<(SpecExpr, int), Seq<char>>((r, p + 3)));
    assert(application_at(ts, p + 2) == Ok::<(SpecExpr, int), Seq<char>>((r, p + 3)));
    assert(factor_at(ts, p + 2) == Ok::<(SpecExpr, int), Seq<char>>((r, p + 3)));
    assert(atom_at(ts, p) == Ok::<(SpecExpr, int), Seq<char>>((l, p + 1)));
    assert(application_rest(ts, p + 1, l) == Ok::<(SpecExpr, int), Seq<char>>((l, p + 1)));
    assert(application_at(ts, p) == Ok::<(SpecExpr, int), Seq<char>>((l, p + 1)));
    assert(factor_rest(ts, p + 1, l) == Ok::<(SpecExpr, int), Seq<char>>((l, p + 1)));
    assert(factor_at(ts, p) == Ok::<(SpecExpr, int), Seq<char>>((l, p + 1)));
    assert(term_rest(ts, p + 1, l) == Ok::<(SpecExpr, int), Seq<char>>((sum, p + 3)));
    assert(term_at(ts, p) == Ok::<(SpecExpr, int), Seq<char>>((sum, p + 3)));
    assert(comparison_at(ts, p) == Ok::<(SpecExpr, int), Seq<char>>((sum, p + 3)));
    assert(equality_at(ts, p) == Ok::<(SpecExpr, int), Seq<char>>((sum, p + 3)));
}

/// An operand applied to an operand, followed by the end of the expression.
pub(crate) proof fn lemma_application_expression(ts: Seq<SpecToken>, p: int)
    requires
        0 <= p,
        p + 1 < ts.len(),
        is_operand(ts[p]),
        is_operand(ts[p + 1]),
        ends_expression(ts, p + 2),
    ensures
        expression_at(ts, p) == Ok::<(SpecExpr, int), Seq<char>>(
            (
                SpecExpr::App(Box::new(operand_expr(ts[p])), Box::new(operand_expr(ts[p + 1]))),
                p + 2,
            ),
        ),
{
    let f = operand_expr(ts[p]);
    let a = operand_expr(ts[p + 1]);
    let app = SpecExpr::App(Box::new(f), Box::new(a));
    lemma_chains_end(ts, p + 2, app);
    assert(atom_at(ts, p + 1) == Ok::<(SpecExpr, int), Seq<char>>((a, p + 2)));
    assert(application_rest(ts, p + 1, f) == Ok::<(SpecExpr, int), Seq<char>>((app, p + 2)));
    assert(atom_at(ts, p) == Ok::<(SpecExpr, int), Seq<char>>((f, p + 1)));
    assert(application_at(ts, p) == Ok::<(SpecExpr, int), Seq<char>>((app, p + 2)));
    assert(factor_at(ts, p) == Ok::<(SpecExpr, int), Seq<char>>((app, p + 2)));
    assert(term_at(ts, p) == Ok::<(SpecExpr, int), Seq<char>>((app, p + 2)));
    assert(comparison_at(ts, p) == Ok::<(SpecExpr, int), Seq<char>>((app, p + 2)));
    assert(equality_at(ts, p) == Ok::<(SpecExpr, int), Seq<char>>((app, p + 2)));
}

/// The tokens `xs[0] ops[0] xs[1] ops[1] ... xs[n]` of a chain of operands
/// joined by operators.
#[verifier::opaque]
pub open spec fn chain_tokens(xs: Seq<SpecToken>, ops: Seq<SpecToken>) -> Seq<SpecToken> {
    Seq::new(
        2 * ops.len() + 1,
        |i: int|
            if i % 2 == 0 {
                xs[i / 2]
            } else {
                ops[i / 2]
            },
    )
}

/// `+` or `-`.
pub open spec fn additive_op(t: SpecToken) -> BinOp {
    if t == SpecToken::Plus {
        BinOp::Add
    } else {
        BinOp::Sub
    }
}

/// The first `k + 1` operands of an additive chain, grouped to the left.
pub open spec fn sum_chain_expr(xs: Seq<SpecToken>, ops: Seq<SpecToken>, k: nat) -> SpecExpr
    decreases k,
{
    if k == 0 {
        operand_expr(xs[0])
    } else {
        SpecExpr::BinOp(
            additive_op(ops[k - 1]),
            Box::new(sum_chain_expr(xs, ops, (k - 1) as nat)),
            Box::new(operand_expr(xs[k as int])),
        )
    }
}

/// An operand followed by neither an atom nor `*` is a whole factor.
proof fn lemma_operand_factor(ts: Seq<SpecToken>, p: int)
    requires
        0 <= p < ts.len(),
        is_operand(ts[p]),
        p + 1 == ts.len() || ts[p + 1] == SpecToken::Plus || ts[p + 1] == SpecToken::Minus,
    ensures
        factor_at(ts, p) == Ok::<(SpecExpr, int), Seq<char>>((operand_expr(ts[p]), p + 1)),
{
    let e = operand_expr(ts[p]);
    assert(atom_at(ts, p) == Ok::<(SpecExpr, int), Seq<char>>((e, p + 1)));
    assert(atom_at(ts, p + 1) is Err);
    assert(application_rest(ts, p + 1, e) == Ok::<(SpecExpr, int), Seq<char>>((e, p + 1)));
    assert(application_at(ts, p) == Ok::<(SpecExpr, int), Seq<char>>((e, p + 1)));
    assert(factor_rest(ts, p + 1, e) == Ok::<(SpecExpr, int), Seq<char>>((e, p + 1)));
}

proof fn lemma_chain_index(xs: Seq<SpecToken>, ops: Seq<SpecToken>, j: int)
    requires
        xs.len() == ops.len() + 1,
        0 <= j <= ops.len(),
    ensures
        chain_tokens(xs, ops).len() == 2 * ops.len() + 1,
        chain_tokens(xs, ops)[2 * j] == xs[j],
        j < ops.len() ==> chain_tokens(xs, ops)[2 * j + 1] == ops[j],
{
    reveal(chain_tokens);
    assert((2 * j) % 2 == 0 && (2 * j) / 2 == j) by (nonlinear_arith);
    assert((2 * j + 1) % 2 == 1 && (2 * j + 1) / 2 == j) by (nonlinear_arith);
}

/// One step of an additive chain.
proof fn lemma_term_rest_step(ts: Seq<SpecToken>, q: int, acc: SpecExpr, x: SpecExpr)
    requires
        0 <= q,
        q + 2 <= ts.len(),
        ts[q] == SpecToken::Plus || ts[q] == SpecToken::Minus,
        factor_at(ts, q + 1) == Ok::<(SpecExpr, int), Seq<char>>((x, q + 2)),
    ensures
        term_rest(ts, q, acc) == term_rest(
            ts,
            q + 2,
            SpecExpr::BinOp(additive_op(ts[q]), Box::new(acc), Box::new(x)),
        ),
{
}

/// The end of an additive chain.
proof fn lemma_term_rest_end(ts: Seq<SpecToken>, acc: SpecExpr)
    requires
        ts.len() > 0,
    ensures
        term_rest(ts, ts.len() as int, acc) == Ok::<(SpecExpr, int), Seq<char>>(
            (acc, ts.len() as int),
        ),
{
}

#[verifier::spinoff_prover]
#[verifier::rlimit(40)]
proof fn lemma_sum_chain_rest(xs: Seq<SpecToken>, ops: Seq<SpecToken>, k: nat)
    requires
        xs.len() == ops.len() + 1,
        forall|i: int| 0 <= i < xs.len() ==> is_operand(#[trigger] xs[i]),
        forall|i: int|
            0 <= i < ops.len() ==> #[trigger] ops[i] == SpecToken::Plus || ops[i]
                == SpecToken::Minus,
        k <= ops.len(),
    ensures
        term_rest(chain_tokens(xs, ops), 2 * (k as int) + 1, sum_chain_expr(xs, ops, k)) == Ok::<
            (SpecExpr, int),
            Seq<char>,
        >((sum_chain_expr(xs, ops, ops.len()), 2 * (ops.len() as int) + 1)),
    decreases ops.len() - k,
{
    let ts = chain_tokens(xs, ops);
    let n = ops.len() as int;
    let i = k as int;
    lemma_chain_index(xs, ops, i);
    if i == n {
        lemma_term_rest_end(ts, sum_chain_expr(xs, ops, k));
    }
    if i < n {
        lemma_chain_index(xs, ops, i + 1);
        assert(ts[2 * i + 1] == ops[i]);
        assert(ts[2 * (i + 1)] == xs[i + 1]);
        assert(2 * (i + 1) == 2 * i + 2);
        assert(ops[i] == SpecToken::Plus || ops[i] == SpecToken::Minus);
        if i + 1 < n {
            assert(ts[2 * (i + 1) + 1] == ops[i + 1]);
            assert(ops[i + 1] == SpecToken::Plus || ops[i + 1] == SpecToken::Minus);
        }
        assert(is_operand(xs[i + 1]));
        lemma_operand_factor(ts, 2 * i + 2);
        let acc = sum_chain_expr(xs, ops, k);
        let x = operand_expr(xs[i + 1]);
        let next = SpecExpr::BinOp(additive_op(ops[i]), Box::new(acc), Box::new(x));
        lemma_term_rest_step(ts, 2 * i + 1, acc, x);
        lemma_sum_chain_rest(xs, ops, (k + 1) as nat);
        assert(sum_chain_expr(xs, ops, (k + 1) as nat) == SpecExpr::BinOp(
            additive_op(ops[i]),
            Box::new(sum_chain_expr(xs, ops, k)),
            Box::new(operand_expr(xs[i + 1])),
        ));
    }
}

/// Left associativity of `+` and `-`: a chain of any number of operands
/// joined by `+` and `-` groups to the left.
pub proof fn law_additive_chain_associates_left(xs: Seq<SpecToken>, ops: Seq<SpecToken>)
    requires
        xs.len() == ops.len() + 1,
        forall|i: int| 0 <= i < xs.len() ==> is_operand(#[trigger] xs[i]),
        forall|i: int|
            0 <= i < ops.len() ==> #[trigger] ops[i] == SpecToken::Plus || ops[i]
                == SpecToken::Minus,
    ensures
        parse_tokens_spec(chain_tokens(xs, ops)) == Ok::<SpecExpr, Seq<char>>(
            sum_chain_expr(xs, ops, ops.len()),
        ),
{
    let ts = chain_tokens(xs, ops);
    let n = ops.len();
    let e = sum_chain_expr(xs, ops, n);
    let end: int = 2 * (n as int) + 1;
    lemma_chain_index(xs, ops, 0);
    assert(ts[0] == xs[0]);
    assert(is_operand(xs[0]));
    if n > 0 {
        assert(ts[1] == ops[0]);
        assert(ops[0] == SpecToken::Plus || ops[0] == SpecToken::Minus);
    }
    lemma_operand_factor(ts, 0);
    lemma_sum_chain_rest(xs, ops, 0);
    assert(term_at(ts, 0) == Ok::<(SpecExpr, int), Seq<char>>((e, end)));
    assert(comparison_rest(ts, end, e) == Ok::<(SpecExpr, int), Seq<char>>((e, end)));
    assert(comparison_at(ts, 0) == Ok::<(SpecExpr, int), Seq<char>>((e, end)));
    assert(equality_rest(ts, end, e) == Ok::<(SpecExpr, int), Seq<char>>((e, end)));
    assert(equality_at(ts, 0) == Ok::<(SpecExpr, int), Seq<char>>((e, end)));
    assert(expression_at(ts, 0) == Ok::<(SpecExpr, int), Seq<char>>((e, end)));
}

} // verus!
