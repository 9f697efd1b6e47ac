use vstd::prelude::*;

use crate::ast::Expr;
use crate::token::{Token, TokenKind};

verus! {

/// Why a token stream could not be parsed.
#[derive(Debug, PartialEq, Eq, Structural, Clone, Copy)]
pub enum ParseError {
    /// A term position holds `actual` instead of an integer literal.
    ExpectedIntegerLiteral { actual: TokenKind },
}

/// The kind of the token at `i`; past the end the stream reads as end of input.
pub open spec fn kind_at(ts: Seq<Token>, i: int) -> TokenKind {
    if 0 <= i < ts.len() {
        ts[i].kind
    } else {
        TokenKind::EndOfInput
    }
}

/// A term at `i`: an integer literal, or the error naming what stands there.
pub open spec fn literal_spec(ts: Seq<Token>, i: int) -> Result<Expr, ParseError> {
    match kind_at(ts, i) {
        TokenKind::Integer(value) => Ok(Expr::IntegerLiteral { value }),
        actual => Err(ParseError::ExpectedIntegerLiteral { actual }),
    }
}

/// Folds the operator-term pairs that start at `i` onto `acc`, to the left:
/// returns the tree and the position of the first token not consumed.
pub open spec fn fold_chain(ts: Seq<Token>, i: nat, acc: Expr) -> Result<(Expr, nat), ParseError>
    decreases ts.len() - i,
{
    if i < ts.len() && (ts[i as int].kind is Plus || ts[i as int].kind is Minus) {
        match literal_spec(ts, i + 1int) {
            Err(e) => Err(e),
            Ok(rhs) => fold_chain(
                ts,
                i + 2,
                if ts[i as int].kind is Plus {
                    Expr::Add { lhs: Box::new(acc), rhs: Box::new(rhs) }
                } else {
                    Expr::Sub { lhs: Box::new(acc), rhs: Box::new(rhs) }
                },
            ),
        }
    } else {
        Ok((acc, i))
    }
}

/// `expr := term (('+' | '-') term)*`, left-associative: the tree and the
/// number of tokens consumed.
pub open spec fn parse_spec(ts: Seq<Token>) -> Result<(Expr, nat), ParseError> {
    match literal_spec(ts, 0) {
        Err(e) => Err(e),
        Ok(first) => fold_chain(ts, 1, first),
    }
}

/// The value of the operator-term pairs from `i` on, applied to `acc` one
/// after the other, from left to right.
pub open spec fn chain_value(ts: Seq<Token>, i: nat, acc: int) -> int
    decreases ts.len() - i,
{
    if i + 1 < ts.len() && (ts[i as int].kind is Plus || ts[i as int].kind is Minus)
        && ts[i + 1int].kind is Integer {
        let v = ts[i + 1int].kind->Integer_0 as int;
        chain_value(ts, i + 2, if ts[i as int].kind is Plus { acc + v } else { acc - v })
    } else {
        acc
    }
}

proof fn lemma_fold_chain_value(ts: Seq<Token>, i: nat, acc: Expr)
    requires
        fold_chain(ts, i, acc) is Ok,
    ensures
        fold_chain(ts, i, acc)->Ok_0.0.eval() == chain_value(ts, i, acc.eval()),
    decreases ts.len() - i,
{
    if i < ts.len() && (ts[i as int].kind is Plus || ts[i as int].kind is Minus) {
        let rhs = literal_spec(ts, i + 1int)->Ok_0;
        let next = if ts[i as int].kind is Plus {
            Expr::Add { lhs: Box::new(acc), rhs: Box::new(rhs) }
        } else {
            Expr::Sub { lhs: Box::new(acc), rhs: Box::new(rhs) }
        };
        lemma_fold_chain_value(ts, i + 2, next);
        let v = ts[i + 1int].kind->Integer_0 as int;
        assert(rhs.eval() == v);
        assert(next.eval() == if ts[i as int].kind is Plus { acc.eval() + v } else { acc.eval() - v });
    }
}

/// The tree that the parser builds evaluates as the source reads: its first
/// literal, then each operator applied to the next literal, from left to right.
pub proof fn lemma_parse_evaluates_left_to_right(ts: Seq<Token>)
    requires
        parse_spec(ts) is Ok,
    ensures
        ts.len() >= 1,
        ts[0].kind is Integer,
        parse_spec(ts)->Ok_0.0.eval() == chain_value(ts, 1, ts[0].kind->Integer_0 as int),
{
    lemma_fold_chain_value(ts, 1, literal_spec(ts, 0)->Ok_0);
}

/// Parses a whole expression and returns its tree.
pub fn parse(tokens: Vec<Token>) -> (r: Result<Expr, ParseError>)
    ensures
        match r {
            Ok(e) => parse_spec(tokens@) is Ok && e == parse_spec(tokens@)->Ok_0.0,
            Err(e) => parse_spec(tokens@) == Err::<(Expr, nat), ParseError>(e),
        },
{
    match add_sub(tokens) {
        Ok((node, _tokens)) => Ok(node),
        Err(e) => Err(e),
    }
}

fn literal_at(tokens: &Vec<Token>, i: usize) -> (r: Result<Expr, ParseError>)
    ensures
        r == literal_spec(tokens@, i as int),
{
    let kind = if i < tokens.len() {
        tokens[i].kind
    } else {
        TokenKind::EndOfInput
    };
    match kind {
        TokenKind::Integer(value) => Ok(Expr::IntegerLiteral { value }),
        actual => Err(ParseError::ExpectedIntegerLiteral { actual }),
    }
}

/// Parses `term (('+' | '-') term)*` from the front of the stream, folding to
/// the left, and returns the tree with the tokens not consumed.
pub fn add_sub(tokens: Vec<Token>) -> (r: Result<(Expr, Vec<Token>), ParseError>)
    ensures
        match r {
            Ok((e, rest)) => {
                &&& parse_spec(tokens@) is Ok
                &&& e == parse_spec(tokens@)->Ok_0.0
                &&& rest@ == tokens@.subrange(
                    parse_spec(tokens@)->Ok_0.1 as int,
                    tokens@.len() as int,
                )
            },
            Err(e) => parse_spec(tokens@) == Err::<(Expr, nat), ParseError>(e),
        },
{
    let mut lhs = match literal_at(&tokens, 0) {
        Ok(e) => e,
        Err(e) => {
            return Err(e);
        },
    };
    let ghost first = lhs;
    let mut pos: usize = 1;
    loop
        invariant_except_break
            parse_spec(tokens@) == fold_chain(tokens@, pos as nat, lhs),
        invariant
            1 <= pos <= tokens@.len(),
            literal_spec(tokens@, 0) == Ok::<Expr, ParseError>(first),
        ensures
            parse_spec(tokens@) == Ok::<(Expr, nat), ParseError>((lhs, pos as nat)),
        decreases tokens@.len() - pos,
    {
        if pos >= tokens.len() {
            break;
        }
        let operator = tokens[pos].kind;
        match operator {
            TokenKind::Plus => {
                let rhs = match literal_at(&tokens, pos + 1) {
                    Ok(e) => e,
                    Err(e) => {
                        return Err(e);
                    },
                };
                lhs = Expr::Add { lhs: Box::new(lhs), rhs: Box::new(rhs) };
                pos = pos + 2;
            },
            TokenKind::Minus => {
                let rhs = match literal_at(&tokens, pos + 1) {
                    Ok(e) => e,
                    Err(e) => {
                        return Err(e);
                    },
                };
                lhs = Expr::Sub { lhs: Box::new(lhs), rhs: Box::new(rhs) };
                pos = pos + 2;
            },
            _ => {
                break;
            },
        }
    }
    let mut tokens = tokens;
    let rest = tokens.split_off(pos);
    Ok((lhs, rest))
}

/// Parses one integer literal from the front of the stream, and returns it
/// with the tokens after it.
pub fn int_literal(tokens: Vec<Token>) -> (r: Result<(Expr, Vec<Token>), ParseError>)
    ensures
        match r {
            Ok((e, rest)) => {
                &&& literal_spec(tokens@, 0) == Ok::<Expr, ParseError>(e)
                &&& rest@ == tokens@.subrange(1, tokens@.len() as int)
            },
            Err(e) => literal_spec(tokens@, 0) == Err::<Expr, ParseError>(e),
        },
{
    match literal_at(&tokens, 0) {
        Ok(e) => {
            let mut tokens = tokens;
            let rest = tokens.split_off(1);
            Ok((e, rest))
        },
        Err(e) => Err(e),
    }
}

} // verus!
