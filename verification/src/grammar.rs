//! The grammar of expressions: how a token sequence is ordered into postfix
//! form by the binding powers of its operators.

use crate::error::Failure;
use crate::token::Lexeme;
use vstd::prelude::*;

verus! {

/// How tightly a binary operator holds the operand on its left and the one on
/// its right; a higher number binds tighter. The right power is the left plus
/// one, which makes the operator left-associative.
pub open spec fn infix_binding_power(op: Lexeme) -> Option<(int, int)> {
    match op {
        Lexeme::Mult | Lexeme::Modulo => Some((13, 14)),
        Lexeme::Plus | Lexeme::Minus => Some((11, 12)),
        Lexeme::ShiftRight | Lexeme::ShiftLeft => Some((9, 10)),
        Lexeme::And => Some((7, 8)),
        Lexeme::Xor => Some((5, 6)),
        Lexeme::Nor => Some((3, 4)),
        Lexeme::Or => Some((1, 2)),
        _ => None,
    }
}

/// How tightly a prefix operator holds its operand: tighter than any binary
/// operator. Tokens that are no prefix operator have no such power.
pub open spec fn prefix_binding_power(op: Lexeme) -> Option<int> {
    if op.is_prefix() {
        Some(255)
    } else {
        None
    }
}

/// The token at index `at`; behind the last token there is only `Eof`.
pub open spec fn token_at(tokens: Seq<Lexeme>, at: int) -> Lexeme {
    if 0 <= at < tokens.len() {
        tokens[at]
    } else {
        Lexeme::Eof
    }
}

/// The failure that a token causes where the grammar has no place for it.
pub open spec fn rejection(token: Lexeme) -> Failure {
    match token {
        Lexeme::Error(start, length, text) => Failure::LexicalError(start, length, text),
        Lexeme::KeywordNotFound => Failure::UnknownIdentifier,
        _ => Failure::SyntaxError,
    }
}

/// An expression that was recognised: its postfix form, and how many tokens
/// it spans.
pub struct Parsed {
    pub postfix: Seq<Lexeme>,
    pub len: nat,
}

/// How many tokens are left at index `at`.
pub open spec fn remaining(tokens: Seq<Lexeme>, at: int) -> int {
    if at <= tokens.len() {
        tokens.len() - at
    } else {
        0
    }
}

/// The expression that starts at index `at` and takes in no binary operator
/// whose left binding power is below `min_bp`: an operand, extended by the
/// operators that follow it.
pub open spec fn parse_expression(tokens: Seq<Lexeme>, at: int, min_bp: int) -> Result<
    Parsed,
    Failure,
>
    decreases remaining(tokens, at), 2int,
{
    match parse_operand(tokens, at) {
        Err(failure) => Err(failure),
        Ok(operand) => parse_infix(tokens, at, operand, min_bp),
    }
}

/// The operand at index `at`: a literal; an expression in parentheses; or a
/// prefix operator and its operand, with the operator put behind it.
pub open spec fn parse_operand(tokens: Seq<Lexeme>, at: int) -> Result<Parsed, Failure>
    decreases remaining(tokens, at), 1int,
{
    let first = token_at(tokens, at);
    if first.is_operand() {
        Ok(Parsed { postfix: seq![first], len: 1 })
    } else if first is LeftParen {
        match parse_expression(tokens, at + 1, 0) {
            Err(failure) => Err(failure),
            Ok(inner) => if token_at(tokens, at + 1 + inner.len) is RightParen {
                Ok(Parsed { postfix: inner.postfix, len: inner.len + 2 })
            } else {
                Err(Failure::SyntaxError)
            },
        }
    } else {
        match prefix_binding_power(first) {
            None => Err(rejection(first)),
            Some(r_bp) => match parse_expression(tokens, at + 1, r_bp) {
                Err(failure) => Err(failure),
                Ok(operand) => Ok(
                    Parsed { postfix: operand.postfix.push(first), len: operand.len + 1 },
                ),
            },
        }
    }
}

/// The expression `lhs`, which starts at index `at`, extended by the binary
/// operators behind it. The end of the tokens, a parenthesis, or an operator
/// whose left binding power is below `min_bp` ends it and is left in place.
/// Any other operator takes the expression to its right as second operand and
/// goes behind both; a token that is no binary operator is a failure.
pub open spec fn parse_infix(tokens: Seq<Lexeme>, at: int, lhs: Parsed, min_bp: int) -> Result<
    Parsed,
    Failure,
>
    decreases remaining(tokens, at + lhs.len), 0int,
{
    let op = token_at(tokens, at + lhs.len);
    if op is Eof || op is LeftParen || op is RightParen {
        Ok(lhs)
    } else {
        match infix_binding_power(op) {
            None => Err(rejection(op)),
            Some((l_bp, r_bp)) => if l_bp < min_bp {
                Ok(lhs)
            } else {
                match parse_expression(tokens, at + lhs.len + 1, r_bp) {
                    Err(failure) => Err(failure),
                    Ok(rhs) => parse_infix(
                        tokens,
                        at,
                        Parsed {
                            postfix: lhs.postfix + rhs.postfix + seq![op],
                            len: lhs.len + 1 + rhs.len,
                        },
                        min_bp,
                    ),
                }
            },
        }
    }
}

/// The postfix form of a whole token sequence: one expression, with nothing
/// behind it but the end.
pub open spec fn parse_tokens(tokens: Seq<Lexeme>) -> Result<Seq<Lexeme>, Failure> {
    match parse_expression(tokens, 0, 0) {
        Err(failure) => Err(failure),
        Ok(whole) => if token_at(tokens, whole.len as int) is Eof {
            Ok(whole.postfix)
        } else {
            Err(Failure::SyntaxError)
        },
    }
}

} // verus!
