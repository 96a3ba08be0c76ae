//! The meaning of a postfix sequence: its reduction on a stack of values.
//!
//! Sums, differences, products and negations keep the low 64 bits of the
//! exact result. A shift count is taken modulo 64. A remainder has the sign
//! of its dividend; by zero it is an error.

use crate::error::Failure;
use crate::grammar::parse_tokens;
use crate::lexical::tokenize;
use crate::token::Lexeme;
use crate::wrapping::wrap64;
use vstd::prelude::*;

verus! {

/// The remainder of the division of `l` by `r` that rounds towards zero.
pub open spec fn remainder(l: i64, r: i64) -> i64
    recommends
        r != 0,
{
    let divisor = if r < 0 {
        -(r as int)
    } else {
        r as int
    };
    if l >= 0 {
        (l as int % divisor) as i64
    } else {
        (-((-(l as int)) % divisor)) as i64
    }
}

/// What an operator makes of its operands. A unary operator works on `r`
/// alone. A token that is no operator has no result.
pub open spec fn apply(op: Lexeme, l: i64, r: i64) -> Result<i64, Failure> {
    match op {
        Lexeme::Plus => Ok(wrap64(l + r)),
        Lexeme::Minus => Ok(wrap64(l - r)),
        Lexeme::And => Ok(l & r),
        Lexeme::Or => Ok(l | r),
        Lexeme::Nor => Ok(!(l | r)),
        Lexeme::Xor => Ok(l ^ r),
        Lexeme::ShiftLeft => Ok(l << (r & 63)),
        Lexeme::ShiftRight => Ok(l >> (r & 63)),
        Lexeme::Mult => Ok(wrap64(l * r)),
        Lexeme::Modulo => if r == 0 {
            Err(Failure::DivisionByZero)
        } else {
            Ok(remainder(l, r))
        },
        Lexeme::Bang => Ok(!r),
        Lexeme::TwosComplement => Ok(wrap64(!r + 1)),
        _ => Err(Failure::EvaluationDefect),
    }
}

/// The stack after one token: a literal is pushed; a unary operator replaces
/// the top value; a binary operator replaces the two top values, of which the
/// upper is its right operand. A missing operand, or a token that is neither,
/// is a defect.
pub open spec fn step(stack: Seq<i64>, token: Lexeme) -> Result<Seq<i64>, Failure> {
    if token is Number {
        Ok(stack.push(token->Number_0))
    } else if token.is_unary() {
        if stack.len() < 1 {
            Err(Failure::EvaluationDefect)
        } else {
            match apply(token, 0, stack.last()) {
                Err(failure) => Err(failure),
                Ok(value) => Ok(stack.drop_last().push(value)),
            }
        }
    } else if token.is_binary() {
        if stack.len() < 2 {
            Err(Failure::EvaluationDefect)
        } else {
            match apply(token, stack[stack.len() - 2], stack.last()) {
                Err(failure) => Err(failure),
                Ok(value) => Ok(stack.drop_last().drop_last().push(value)),
            }
        }
    } else {
        Err(Failure::EvaluationDefect)
    }
}

/// The stack after the tokens have been applied to it in order; the first
/// failure ends the reduction.
pub open spec fn reduce(stack: Seq<i64>, tokens: Seq<Lexeme>) -> Result<Seq<i64>, Failure>
    decreases tokens.len(),
{
    if tokens.len() == 0 {
        Ok(stack)
    } else {
        match step(stack, tokens.first()) {
            Err(failure) => Err(failure),
            Ok(next) => reduce(next, tokens.drop_first()),
        }
    }
}

/// The value of a postfix sequence: what its reduction from the empty stack
/// leaves, which must be exactly one value.
pub open spec fn evaluate_postfix(postfix: Seq<Lexeme>) -> Result<i64, Failure> {
    match reduce(Seq::empty(), postfix) {
        Err(failure) => Err(failure),
        Ok(stack) => if stack.len() == 1 {
            Ok(stack[0])
        } else {
            Err(Failure::EvaluationDefect)
        },
    }
}

/// The value of a source text: that of the postfix form of its tokens.
pub open spec fn evaluation(src: Seq<char>) -> Result<i64, Failure> {
    match parse_tokens(tokenize(src)) {
        Err(failure) => Err(failure),
        Ok(postfix) => evaluate_postfix(postfix),
    }
}

/// Reducing a single token is one step.
pub proof fn lemma_reduce_one(stack: Seq<i64>, token: Lexeme)
    ensures
        reduce(stack, seq![token]) == step(stack, token),
{
    let tokens = seq![token];
    assert(tokens.drop_first() =~= Seq::<Lexeme>::empty());
    match step(stack, token) {
        Err(_) => {},
        Ok(next) => {
            assert(reduce(next, tokens.drop_first()) == Ok::<Seq<i64>, Failure>(next));
        },
    }
}

/// Reducing two sequences one after the other is reducing the first and then
/// the second on what the first left.
pub proof fn lemma_reduce_concat(stack: Seq<i64>, first: Seq<Lexeme>, second: Seq<Lexeme>)
    ensures
        reduce(stack, first + second) == match reduce(stack, first) {
            Err(failure) => Err(failure),
            Ok(between) => reduce(between, second),
        },
    decreases first.len(),
{
    if first.len() == 0 {
        assert(first + second =~= second);
    } else {
        assert((first + second).first() == first.first());
        assert((first + second).drop_first() =~= first.drop_first() + second);
        match step(stack, first.first()) {
            Err(_) => {},
            Ok(next) => {
                lemma_reduce_concat(next, first.drop_first(), second);
            },
        }
    }
}

} // verus!
