//! The grammar, from loosest to tightest binding:
//!
//! ```text
//! command := expr | expr cmp expr
//! pred    := expr cmp expr
//! expr    := "if" pred "then" expr "else" expr | sum
//! sum     := product (("+" | "-") product)*
//! product := unary (("*" | "/" | "%") unary)*
//! unary   := "-" unary | primary
//! primary := number | name | name "(" [expr ("," expr)*] ")" | "(" expr ")"
//! cmp     := "=" | "<" | "<=" | ">" | ">="
//! ```
//!
//! A conditional is not an operand: written next to an operator it needs
//! parentheses. Binary operators associate to the left. A parenthesised
//! expression keeps the offsets of its inside; every other node spans from its
//! first token to its last.

use crate::ast::{args_view, lemma_args_view_push, BinOp, Cmp, Command, CommandV, Expr, ExprV, Offsets, Pred, PredV, Span};
use crate::lexer::{lex, remaining, tokenize, tokens_wf, ParseError, Token, TokenKind};
use crate::rational::{decimal_value, parse_decimal};
use vstd::prelude::*;
use vstd::string::StringSliceAdditionalSpecFns;

verus! {

/// A parsed piece with its offsets, and how many tokens it took.
pub type Parsed<T> = Result<((T, Offsets), nat), ParseError>;

pub open spec fn kind_at(t: Seq<Token>, pos: int) -> Option<TokenKind> {
    if 0 <= pos < t.len() {
        Some(t[pos].kind)
    } else {
        None
    }
}

pub open spec fn offsets_at(t: Seq<Token>, pos: int) -> Offsets {
    (t[pos].start, t[pos].end)
}

/// Where the text ends: the end of its last token.
pub open spec fn end_of_input(t: Seq<Token>) -> usize {
    if t.len() == 0 {
        0
    } else {
        t[t.len() - 1].end
    }
}

/// The error for finding token `pos` (or the end of the text) where it cannot stand.
pub open spec fn unexpected(t: Seq<Token>, pos: int) -> ParseError {
    if 0 <= pos < t.len() {
        ParseError::UnrecognizedToken { start: t[pos].start, end: t[pos].end }
    } else {
        ParseError::UnrecognizedEof { location: end_of_input(t) }
    }
}

pub open spec fn additive(k: Option<TokenKind>) -> Option<BinOp> {
    match k {
        Some(TokenKind::Plus) => Some(BinOp::Add),
        Some(TokenKind::Minus) => Some(BinOp::Sub),
        _ => None,
    }
}

pub open spec fn multiplicative(k: Option<TokenKind>) -> Option<BinOp> {
    match k {
        Some(TokenKind::Star) => Some(BinOp::Mul),
        Some(TokenKind::Slash) => Some(BinOp::Div),
        Some(TokenKind::Percent) => Some(BinOp::Mod),
        _ => None,
    }
}

pub open spec fn comparison(k: Option<TokenKind>) -> Option<Cmp> {
    match k {
        Some(TokenKind::Eq) => Some(Cmp::Eq),
        Some(TokenKind::Lt) => Some(Cmp::Lt),
        Some(TokenKind::Le) => Some(Cmp::Le),
        Some(TokenKind::Gt) => Some(Cmp::Gt),
        Some(TokenKind::Ge) => Some(Cmp::Ge),
        _ => None,
    }
}

/// The characters of a token's text.
pub open spec fn token_text(b: Seq<u8>, tok: Token) -> Seq<char> {
    ascii_chars(b.subrange(tok.start as int, tok.end as int))
}

/// Each byte read as the character of that code.
pub open spec fn ascii_chars(s: Seq<u8>) -> Seq<char> {
    s.map_values(|c: u8| c as char)
}

pub open spec fn binary(l: (ExprV, Offsets), op: BinOp, op_at: Offsets, r: (ExprV, Offsets)) -> (
    ExprV,
    Offsets,
) {
    (ExprV::BinOp(Box::new(l), op, op_at, Box::new(r)), (l.1.0, r.1.1))
}

/// `expr` at token `pos`.
pub open spec fn p_expr(b: Seq<u8>, t: Seq<Token>, pos: int) -> Parsed<ExprV>
    decreases remaining(t.len() as int, pos), 6nat,
{
    if kind_at(t, pos) == Some(TokenKind::If) {
        match p_pred(b, t, pos + 1) {
            Err(e) => Err(e),
            Ok((c, n1)) => {
                let q = pos + 1 + n1;
                if kind_at(t, q) == Some(TokenKind::Then) {
                    match p_expr(b, t, q + 1) {
                        Err(e) => Err(e),
                        Ok((x, n2)) => {
                            let r = q + 1 + n2;
                            if kind_at(t, r) == Some(TokenKind::Else) {
                                match p_expr(b, t, r + 1) {
                                    Err(e) => Err(e),
                                    Ok((y, n3)) => Ok(
                                        (
                                            (
                                                ExprV::If(Box::new(c), Box::new(x), Box::new(y)),
                                                (t[pos].start, y.1.1),
                                            ),
                                            n1 + n2 + n3 + 3,
                                        ),
                                    ),
                                }
                            } else {
                                Err(unexpected(t, r))
                            }
                        },
                    }
                } else {
                    Err(unexpected(t, q))
                }
            },
        }
    } else {
        p_sum(b, t, pos)
    }
}

/// `pred` at token `pos`.
pub open spec fn p_pred(b: Seq<u8>, t: Seq<Token>, pos: int) -> Parsed<PredV>
    decreases remaining(t.len() as int, pos), 7nat,
{
    match p_expr(b, t, pos) {
        Err(e) => Err(e),
        Ok((l, n1)) => {
            let q = pos + n1;
            match comparison(kind_at(t, q)) {
                None => Err(unexpected(t, q)),
                Some(op) => match p_expr(b, t, q + 1) {
                    Err(e) => Err(e),
                    Ok((r, n2)) => Ok(
                        ((PredV::Cmp(l, op, offsets_at(t, q), r), (l.1.0, r.1.1)), n1 + n2 + 1),
                    ),
                },
            }
        },
    }
}

/// `sum` at token `pos`.
pub open spec fn p_sum(b: Seq<u8>, t: Seq<Token>, pos: int) -> Parsed<ExprV>
    decreases remaining(t.len() as int, pos), 5nat,
{
    match p_product(b, t, pos) {
        Err(e) => Err(e),
        Ok((x, n)) => match p_sum_rest(b, t, pos + n, x) {
            Err(e) => Err(e),
            Ok((y, m)) => Ok((y, n + m)),
        },
    }
}

/// The operators and operands that follow `acc` in a sum, from token `pos`.
pub open spec fn p_sum_rest(b: Seq<u8>, t: Seq<Token>, pos: int, acc: (ExprV, Offsets)) -> Parsed<
    ExprV,
>
    decreases remaining(t.len() as int, pos), 4nat,
{
    match additive(kind_at(t, pos)) {
        None => Ok((acc, 0)),
        Some(op) => match p_product(b, t, pos + 1) {
            Err(e) => Err(e),
            Ok((r, n)) => match p_sum_rest(
                b,
                t,
                pos + 1 + n,
                binary(acc, op, offsets_at(t, pos), r),
            ) {
                Err(e) => Err(e),
                Ok((y, m)) => Ok((y, n + m + 1)),
            },
        },
    }
}

/// `product` at token `pos`.
pub open spec fn p_product(b: Seq<u8>, t: Seq<Token>, pos: int) -> Parsed<ExprV>
    decreases remaining(t.len() as int, pos), 3nat,
{
    match p_unary(b, t, pos) {
        Err(e) => Err(e),
        Ok((x, n)) => match p_product_rest(b, t, pos + n, x) {
            Err(e) => Err(e),
            Ok((y, m)) => Ok((y, n + m)),
        },
    }
}

/// The operators and operands that follow `acc` in a product, from token `pos`.
pub open spec fn p_product_rest(
    b: Seq<u8>,
    t: Seq<Token>,
    pos: int,
    acc: (ExprV, Offsets),
) -> Parsed<ExprV>
    decreases remaining(t.len() as int, pos), 2nat,
{
    match multiplicative(kind_at(t, pos)) {
        None => Ok((acc, 0)),
        Some(op) => match p_unary(b, t, pos + 1) {
            Err(e) => Err(e),
            Ok((r, n)) => match p_product_rest(
                b,
                t,
                pos + 1 + n,
                binary(acc, op, offsets_at(t, pos), r),
            ) {
                Err(e) => Err(e),
                Ok((y, m)) => Ok((y, n + m + 1)),
            },
        },
    }
}

/// `unary` at token `pos`.
pub open spec fn p_unary(b: Seq<u8>, t: Seq<Token>, pos: int) -> Parsed<ExprV>
    decreases remaining(t.len() as int, pos), 1nat,
{
    if kind_at(t, pos) == Some(TokenKind::Minus) {
        match p_unary(b, t, pos + 1) {
            Err(e) => Err(e),
            Ok((x, n)) => Ok(((ExprV::Neg(Box::new(x)), (t[pos].start, x.1.1)), n + 1)),
        }
    } else {
        p_primary(b, t, pos)
    }
}

/// `primary` at token `pos`.
pub open spec fn p_primary(b: Seq<u8>, t: Seq<Token>, pos: int) -> Parsed<ExprV>
    decreases remaining(t.len() as int, pos), 0nat,
{
    match kind_at(t, pos) {
        Some(TokenKind::Num) => Ok(
            (
                (
                    ExprV::Num(
                        decimal_value(b.subrange(t[pos].start as int, t[pos].end as int)),
                        offsets_at(t, pos),
                    ),
                    offsets_at(t, pos),
                ),
                1,
            ),
        ),
        Some(TokenKind::Ident) => {
            let name = token_text(b, t[pos]);
            if kind_at(t, pos + 1) != Some(TokenKind::LParen) {
                Ok(((ExprV::Ident(name, offsets_at(t, pos)), offsets_at(t, pos)), 1))
            } else if kind_at(t, pos + 2) == Some(TokenKind::RParen) {
                Ok(
                    (
                        (
                            ExprV::Func(
                                name,
                                offsets_at(t, pos),
                                seq![],
                                (t[pos + 1].start, t[pos + 2].end),
                            ),
                            (t[pos].start, t[pos + 2].end),
                        ),
                        3,
                    ),
                )
            } else {
                match p_args(b, t, pos + 2, seq![]) {
                    Err(e) => Err(e),
                    Ok((args, n)) => Ok(
                        (
                            (
                                ExprV::Func(
                                    name,
                                    offsets_at(t, pos),
                                    args,
                                    (t[pos + 1].start, t[pos + 1 + n].end),
                                ),
                                (t[pos].start, t[pos + 1 + n].end),
                            ),
                            n + 2,
                        ),
                    ),
                }
            }
        },
        Some(TokenKind::LParen) => match p_expr(b, t, pos + 1) {
            Err(e) => Err(e),
            Ok((x, n)) => if kind_at(t, pos + 1 + n) == Some(TokenKind::RParen) {
                Ok((x, n + 2))
            } else {
                Err(unexpected(t, pos + 1 + n))
            },
        },
        _ => Err(unexpected(t, pos)),
    }
}

/// The arguments of a call from token `pos` through its closing parenthesis,
/// after the arguments `acc` already read.
pub open spec fn p_args(b: Seq<u8>, t: Seq<Token>, pos: int, acc: Seq<(ExprV, Offsets)>) -> Result<
    (Seq<(ExprV, Offsets)>, nat),
    ParseError,
>
    decreases remaining(t.len() as int, pos), 7nat,
{
    match p_expr(b, t, pos) {
        Err(e) => Err(e),
        Ok((x, n)) => {
            let q = pos + n;
            if kind_at(t, q) == Some(TokenKind::Comma) {
                match p_args(b, t, q + 1, acc.push(x)) {
                    Err(e) => Err(e),
                    Ok((all, m)) => Ok((all, n + m + 1)),
                }
            } else if kind_at(t, q) == Some(TokenKind::RParen) {
                Ok((acc.push(x), n + 1))
            } else {
                Err(unexpected(t, q))
            }
        },
    }
}

/// The whole token sequence is one expression.
pub open spec fn expr_of_tokens(b: Seq<u8>, t: Seq<Token>) -> Result<ExprV, ParseError> {
    match p_expr(b, t, 0) {
        Err(e) => Err(e),
        Ok((x, n)) => if n < t.len() {
            Err(ParseError::ExtraToken { start: t[n as int].start, end: t[n as int].end })
        } else {
            Ok(x.0)
        },
    }
}

/// The whole token sequence is an expression, or two expressions compared.
pub open spec fn command_of_tokens(b: Seq<u8>, t: Seq<Token>) -> Result<CommandV, ParseError> {
    match p_expr(b, t, 0) {
        Err(e) => Err(e),
        Ok((x, n)) => match comparison(kind_at(t, n as int)) {
            None => if n < t.len() {
                Err(ParseError::ExtraToken { start: t[n as int].start, end: t[n as int].end })
            } else {
                Ok(CommandV::Expr(x.0))
            },
            Some(op) => match p_expr(b, t, n + 1int) {
                Err(e) => Err(e),
                Ok((y, m)) => {
                    let k = (n + 1 + m) as int;
                    if k < t.len() {
                        Err(ParseError::ExtraToken { start: t[k].start, end: t[k].end })
                    } else {
                        Ok(CommandV::Pred(PredV::Cmp(x, op, offsets_at(t, n as int), y)))
                    }
                },
            },
        },
    }
}

/// What the text `b` parses to as an expression.
pub open spec fn parsed_expr(b: Seq<u8>) -> Result<ExprV, ParseError> {
    match lex(b) {
        Err(e) => Err(e),
        Ok(t) => expr_of_tokens(b, t),
    }
}

/// What the text `b` parses to as a command.
pub open spec fn parsed_command(b: Seq<u8>) -> Result<CommandV, ParseError> {
    match lex(b) {
        Err(e) => Err(e),
        Ok(t) => command_of_tokens(b, t),
    }
}

/// The executable result `r` is the parse `s` that starts at `pos` and stays
/// within `len` tokens.
pub open spec fn agrees<T: View>(
    r: Result<(Span<T>, usize), ParseError>,
    s: Parsed<T::V>,
    pos: int,
    len: int,
) -> bool {
    match r {
        Ok((x, n)) => s == Ok::<((T::V, Offsets), nat), ParseError>(((x.0@, x.1), n as nat)) && pos + n
            <= len,
        Err(e) => s == Err::<((T::V, Offsets), nat), ParseError>(e),
    }
}

/// Relies on `String::from_utf8`: ASCII bytes are valid UTF-8, one character each.
#[verifier::external_body]
fn ascii_text(b: &[u8], start: usize, end: usize) -> (r: String)
    requires
        start <= end <= b@.len(),
        forall|i: int| start <= i < end ==> #[trigger] b@[i] < 128,
    ensures
        r@ == ascii_chars(b@.subrange(start as int, end as int)),
{
    String::from_utf8(b[start..end].to_vec()).unwrap()
}

fn is_kind(t: &Vec<Token>, pos: usize, k: TokenKind) -> (r: bool)
    ensures
        r == (kind_at(t@, pos as int) == Some(k)),
        r ==> pos < t@.len(),
{
    pos < t.len() && t[pos].kind == k
}

fn unexpected_at(t: &Vec<Token>, pos: usize) -> (r: ParseError)
    ensures
        r == unexpected(t@, pos as int),
{
    if pos < t.len() {
        ParseError::UnrecognizedToken { start: t[pos].start, end: t[pos].end }
    } else if t.len() == 0 {
        ParseError::UnrecognizedEof { location: 0 }
    } else {
        ParseError::UnrecognizedEof { location: t[t.len() - 1].end }
    }
}

fn additive_at(t: &Vec<Token>, pos: usize) -> (r: Option<BinOp>)
    ensures
        r == additive(kind_at(t@, pos as int)),
        r is Some ==> pos < t@.len(),
{
    if pos >= t.len() {
        None
    } else {
        match t[pos].kind {
            TokenKind::Plus => Some(BinOp::Add),
            TokenKind::Minus => Some(BinOp::Sub),
            _ => None,
        }
    }
}

fn multiplicative_at(t: &Vec<Token>, pos: usize) -> (r: Option<BinOp>)
    ensures
        r == multiplicative(kind_at(t@, pos as int)),
        r is Some ==> pos < t@.len(),
{
    if pos >= t.len() {
        None
    } else {
        match t[pos].kind {
            TokenKind::Star => Some(BinOp::Mul),
            TokenKind::Slash => Some(BinOp::Div),
            TokenKind::Percent => Some(BinOp::Mod),
            _ => None,
        }
    }
}

fn comparison_at(t: &Vec<Token>, pos: usize) -> (r: Option<Cmp>)
    ensures
        r == comparison(kind_at(t@, pos as int)),
        r is Some ==> pos < t@.len(),
{
    if pos >= t.len() {
        None
    } else {
        match t[pos].kind {
            TokenKind::Eq => Some(Cmp::Eq),
            TokenKind::Lt => Some(Cmp::Lt),
            TokenKind::Le => Some(Cmp::Le),
            TokenKind::Gt => Some(Cmp::Gt),
            TokenKind::Ge => Some(Cmp::Ge),
            _ => None,
        }
    }
}

fn expr(b: &[u8], t: &Vec<Token>, pos: usize) -> (r: Result<(Span<Expr>, usize), ParseError>)
    requires
        tokens_wf(b@, t@),
        pos <= t@.len() <= usize::MAX,
    ensures
        agrees(r, p_expr(b@, t@, pos as int), pos as int, t@.len() as int),
    decreases remaining(t@.len() as int, pos as int), 6nat,
{
    if is_kind(t, pos, TokenKind::If) {
        let (c, n1) = match pred(b, t, pos + 1) {
            Ok(v) => v,
            Err(e) => return Err(e),
        };
        let q = pos + 1 + n1;
        if !is_kind(t, q, TokenKind::Then) {
            return Err(unexpected_at(t, q));
        }
        let (x, n2) = match expr(b, t, q + 1) {
            Ok(v) => v,
            Err(e) => return Err(e),
        };
        let r = q + 1 + n2;
        if !is_kind(t, r, TokenKind::Else) {
            return Err(unexpected_at(t, r));
        }
        let (y, n3) = match expr(b, t, r + 1) {
            Ok(v) => v,
            Err(e) => return Err(e),
        };
        let at = (t[pos].start, y.1.1);
        Ok((Span(Expr::If(Box::new(c), Box::new(x), Box::new(y)), at), n1 + n2 + n3 + 3))
    } else {
        sum(b, t, pos)
    }
}

fn pred(b: &[u8], t: &Vec<Token>, pos: usize) -> (r: Result<(Span<Pred>, usize), ParseError>)
    requires
        tokens_wf(b@, t@),
        pos <= t@.len() <= usize::MAX,
    ensures
        agrees(r, p_pred(b@, t@, pos as int), pos as int, t@.len() as int),
    decreases remaining(t@.len() as int, pos as int), 7nat,
{
    let (l, n1) = match expr(b, t, pos) {
        Ok(v) => v,
        Err(e) => return Err(e),
    };
    let q = pos + n1;
    let op = match comparison_at(t, q) {
        Some(op) => op,
        None => return Err(unexpected_at(t, q)),
    };
    let (r, n2) = match expr(b, t, q + 1) {
        Ok(v) => v,
        Err(e) => return Err(e),
    };
    let at = (l.1.0, r.1.1);
    let op_at = (t[q].start, t[q].end);
    Ok((Span(Pred::Cmp(l, Span(op, op_at), r), at), n1 + n2 + 1))
}

fn sum(b: &[u8], t: &Vec<Token>, pos: usize) -> (r: Result<(Span<Expr>, usize), ParseError>)
    requires
        tokens_wf(b@, t@),
        pos <= t@.len() <= usize::MAX,
    ensures
        agrees(r, p_sum(b@, t@, pos as int), pos as int, t@.len() as int),
    decreases remaining(t@.len() as int, pos as int), 5nat,
{
    let (x, n) = match product(b, t, pos) {
        Ok(v) => v,
        Err(e) => return Err(e),
    };
    let (y, m) = match sum_rest(b, t, pos + n, x) {
        Ok(v) => v,
        Err(e) => return Err(e),
    };
    Ok((y, n + m))
}

fn sum_rest(b: &[u8], t: &Vec<Token>, pos: usize, acc: Span<Expr>) -> (r: Result<
    (Span<Expr>, usize),
    ParseError,
>)
    requires
        tokens_wf(b@, t@),
        pos <= t@.len() <= usize::MAX,
    ensures
        agrees(r, p_sum_rest(b@, t@, pos as int, (acc.0@, acc.1)), pos as int, t@.len() as int),
    decreases remaining(t@.len() as int, pos as int), 4nat,
{
    let op = match additive_at(t, pos) {
        Some(op) => op,
        None => return Ok((acc, 0)),
    };
    let (r, n) = match product(b, t, pos + 1) {
        Ok(v) => v,
        Err(e) => return Err(e),
    };
    let at = (acc.1.0, r.1.1);
    let op_at = (t[pos].start, t[pos].end);
    let combined = Span(Expr::BinOp(Box::new(acc), Span(op, op_at), Box::new(r)), at);
    let (y, m) = match sum_rest(b, t, pos + 1 + n, combined) {
        Ok(v) => v,
        Err(e) => return Err(e),
    };
    Ok((y, n + m + 1))
}

fn product(b: &[u8], t: &Vec<Token>, pos: usize) -> (r: Result<(Span<Expr>, usize), ParseError>)
    requires
        tokens_wf(b@, t@),
        pos <= t@.len() <= usize::MAX,
    ensures
        agrees(r, p_product(b@, t@, pos as int), pos as int, t@.len() as int),
    decreases remaining(t@.len() as int, pos as int), 3nat,
{
    let (x, n) = match unary(b, t, pos) {
        Ok(v) => v,
        Err(e) => return Err(e),
    };
    let (y, m) = match product_rest(b, t, pos + n, x) {
        Ok(v) => v,
        Err(e) => return Err(e),
    };
    Ok((y, n + m))
}

fn product_rest(b: &[u8], t: &Vec<Token>, pos: usize, acc: Span<Expr>) -> (r: Result<
    (Span<Expr>, usize),
    ParseError,
>)
    requires
        tokens_wf(b@, t@),
        pos <= t@.len() <= usize::MAX,
    ensures
        agrees(r, p_product_rest(b@, t@, pos as int, (acc.0@, acc.1)), pos as int, t@.len() as int),
    decreases remaining(t@.len() as int, pos as int), 2nat,
{
    let op = match multiplicative_at(t, pos) {
        Some(op) => op,
        None => return Ok((acc, 0)),
    };
    let (r, n) = match unary(b, t, pos + 1) {
        Ok(v) => v,
        Err(e) => return Err(e),
    };
    let at = (acc.1.0, r.1.1);
    let op_at = (t[pos].start, t[pos].end);
    let combined = Span(Expr::BinOp(Box::new(acc), Span(op, op_at), Box::new(r)), at);
    let (y, m) = match product_rest(b, t, pos + 1 + n, combined) {
        Ok(v) => v,
        Err(e) => return Err(e),
    };
    Ok((y, n + m + 1))
}

fn unary(b: &[u8], t: &Vec<Token>, pos: usize) -> (r: Result<(Span<Expr>, usize), ParseError>)
    requires
        tokens_wf(b@, t@),
        pos <= t@.len() <= usize::MAX,
    ensures
        agrees(r, p_unary(b@, t@, pos as int), pos as int, t@.len() as int),
    decreases remaining(t@.len() as int, pos as int), 1nat,
{
    if is_kind(t, pos, TokenKind::Minus) {
        let (x, n) = match unary(b, t, pos + 1) {
            Ok(v) => v,
            Err(e) => return Err(e),
        };
        let at = (t[pos].start, x.1.1);
        Ok((Span(Expr::Neg(Box::new(x)), at), n + 1))
    } else {
        primary(b, t, pos)
    }
}

fn primary(b: &[u8], t: &Vec<Token>, pos: usize) -> (r: Result<(Span<Expr>, usize), ParseError>)
    requires
        tokens_wf(b@, t@),
        pos <= t@.len() <= usize::MAX,
    ensures
        agrees(r, p_primary(b@, t@, pos as int), pos as int, t@.len() as int),
    decreases remaining(t@.len() as int, pos as int), 0nat,
{
    if pos >= t.len() {
        return Err(unexpected_at(t, pos));
    }
    let tok = t[pos];
    assert(crate::lexer::token_wf(b@, t@[pos as int]));
    let at = (tok.start, tok.end);
    match tok.kind {
        TokenKind::Num => {
            let value = parse_decimal(b, tok.start, tok.end).unwrap();
            Ok((Span(Expr::Num(Span(value, at)), at), 1))
        },
        TokenKind::Ident => {
            let name = ascii_text(b, tok.start, tok.end);
            if !is_kind(t, pos + 1, TokenKind::LParen) {
                Ok((Span(Expr::Ident(Span(name, at)), at), 1))
            } else if is_kind(t, pos + 2, TokenKind::RParen) {
                let whole = (tok.start, t[pos + 2].end);
                let none: Vec<Span<Expr>> = Vec::new();
                assert(args_view(none@) =~= Seq::<(ExprV, Offsets)>::empty());
                let list_at = (t[pos + 1].start, t[pos + 2].end);
                Ok((Span(Expr::Func(Span(name, at), Span(none, list_at)), whole), 3))
            } else {
                let none: Vec<Span<Expr>> = Vec::new();
                assert(args_view(none@) =~= Seq::<(ExprV, Offsets)>::empty());
                let (args, n) = match args(b, t, pos + 2, none) {
                    Ok(v) => v,
                    Err(e) => return Err(e),
                };
                let whole = (tok.start, t[pos + 1 + n].end);
                let list_at = (t[pos + 1].start, t[pos + 1 + n].end);
                Ok((Span(Expr::Func(Span(name, at), Span(args, list_at)), whole), n + 2))
            }
        },
        TokenKind::LParen => {
            let (x, n) = match expr(b, t, pos + 1) {
                Ok(v) => v,
                Err(e) => return Err(e),
            };
            if is_kind(t, pos + 1 + n, TokenKind::RParen) {
                Ok((x, n + 2))
            } else {
                Err(unexpected_at(t, pos + 1 + n))
            }
        },
        _ => Err(unexpected_at(t, pos)),
    }
}

fn args(b: &[u8], t: &Vec<Token>, pos: usize, acc: Vec<Span<Expr>>) -> (r: Result<
    (Vec<Span<Expr>>, usize),
    ParseError,
>)
    requires
        tokens_wf(b@, t@),
        pos <= t@.len() <= usize::MAX,
    ensures
        match r {
            Ok((v, n)) => p_args(b@, t@, pos as int, args_view(acc@)) == Ok::<
                (Seq<(ExprV, Offsets)>, nat),
                ParseError,
            >((args_view(v@), n as nat)) && pos + n <= t@.len(),
            Err(e) => p_args(b@, t@, pos as int, args_view(acc@)) == Err::<
                (Seq<(ExprV, Offsets)>, nat),
                ParseError,
            >(e),
        },
    decreases remaining(t@.len() as int, pos as int), 7nat,
{
    let (x, n) = match expr(b, t, pos) {
        Ok(v) => v,
        Err(e) => return Err(e),
    };
    let q = pos + n;
    let mut acc = acc;
    proof {
        lemma_args_view_push(acc@, x);
    }
    if is_kind(t, q, TokenKind::Comma) {
        acc.push(x);
        let (all, m) = match args(b, t, q + 1, acc) {
            Ok(v) => v,
            Err(e) => return Err(e),
        };
        Ok((all, n + m + 1))
    } else if is_kind(t, q, TokenKind::RParen) {
        acc.push(x);
        Ok((acc, n + 1))
    } else {
        Err(unexpected_at(t, q))
    }
}

/// Parses `input` as a single expression.
pub fn parse_expr(input: &str) -> (r: Result<Expr, ParseError>)
    ensures
        match r {
            Ok(e) => parsed_expr(input.spec_bytes()) == Ok::<ExprV, ParseError>(e@),
            Err(x) => parsed_expr(input.spec_bytes()) == Err::<ExprV, ParseError>(x),
        },
{
    let b = input.as_bytes();
    let t = match tokenize(b) {
        Ok(t) => t,
        Err(e) => return Err(e),
    };
    let len = t.len();
    let (x, n) = match expr(b, &t, 0) {
        Ok(v) => v,
        Err(e) => return Err(e),
    };
    if n < len {
        Err(ParseError::ExtraToken { start: t[n].start, end: t[n].end })
    } else {
        Ok(x.0)
    }
}

/// Parses `input` as an expression, or as two expressions compared.
pub fn parse_command(input: &str) -> (r: Result<Command, ParseError>)
    ensures
        match r {
            Ok(c) => parsed_command(input.spec_bytes()) == Ok::<CommandV, ParseError>(c@),
            Err(x) => parsed_command(input.spec_bytes()) == Err::<CommandV, ParseError>(x),
        },
{
    let b = input.as_bytes();
    let t = match tokenize(b) {
        Ok(t) => t,
        Err(e) => return Err(e),
    };
    let len = t.len();
    let (x, n) = match expr(b, &t, 0) {
        Ok(v) => v,
        Err(e) => return Err(e),
    };
    match comparison_at(&t, n) {
        None => if n < len {
            Err(ParseError::ExtraToken { start: t[n].start, end: t[n].end })
        } else {
            Ok(Command::Expr(x.0))
        },
        Some(op) => {
            let (y, m) = match expr(b, &t, n + 1) {
                Ok(v) => v,
                Err(e) => return Err(e),
            };
            let k = n + 1 + m;
            if k < len {
                Err(ParseError::ExtraToken { start: t[k].start, end: t[k].end })
            } else {
                let op_at = (t[n].start, t[n].end);
                Ok(Command::Pred(Pred::Cmp(x, Span(op, op_at), y)))
            }
        },
    }
}

} // verus!
