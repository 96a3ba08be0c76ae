//! The evaluator: a stack machine that reduces a postfix sequence to a value.

use crate::error::CalcError;
use crate::error::Failure;
use crate::parser::Parser;
use crate::semantics;
use crate::token::Token;
use vstd::prelude::*;

verus! {

/// A stack machine.
pub struct VM {
    stack: Vec<i64>,
}

impl View for VM {
    type V = Seq<i64>;

    /// The values on the stack, the top last.
    closed spec fn view(&self) -> Seq<i64> {
        self.stack@
    }
}

/// The remainder of `l` by `r`, with the sign of `l`.
fn remainder(l: i64, r: i64) -> (value: i64)
    requires
        r != 0,
    ensures
        value == semantics::remainder(l, r),
{
    match l.checked_rem(r) {
        Some(value) => value,
        // Only the least integer by -1 has no checked remainder; it is 0.
        None => 0,
    }
}

impl VM {
    /// Creates a machine with an empty stack.
    pub fn new() -> (vm: Self)
        ensures
            vm@ == Seq::<i64>::empty(),
    {
        VM { stack: Vec::new() }
    }

    /// How many values the stack holds.
    pub fn depth(&self) -> (n: usize)
        ensures
            n == self@.len(),
    {
        self.stack.len()
    }

    /// Evaluates a source text. The stack is emptied first; afterwards it
    /// holds the value alone, or nothing if there is none.
    pub fn run(&mut self, input: &str) -> (result: Result<i64, CalcError>)
        ensures
            match result {
                Ok(value) => {
                    &&& semantics::evaluation(input@) == Ok::<i64, Failure>(value)
                    &&& final(self)@ == seq![value]
                },
                Err(error) => {
                    &&& semantics::evaluation(input@) == Err::<i64, Failure>(error@)
                    &&& final(self)@ == Seq::<i64>::empty()
                },
            },
    {
        let mut parser = Parser::new(input);
        match parser.parse() {
            Err(error) => {
                self.stack.clear();
                Err(error)
            },
            Ok(postfix) => self.evaluate(&postfix),
        }
    }

    /// Reduces a postfix sequence. The stack is emptied first; afterwards it
    /// holds the value alone, or nothing if there is none.
    pub fn evaluate(&mut self, postfix: &Vec<Token>) -> (result: Result<i64, CalcError>)
        ensures
            match result {
                Ok(value) => {
                    &&& semantics::evaluate_postfix(postfix.deep_view()) == Ok::<i64, Failure>(
                        value,
                    )
                    &&& final(self)@ == seq![value]
                },
                Err(error) => {
                    &&& semantics::evaluate_postfix(postfix.deep_view()) == Err::<i64, Failure>(
                        error@,
                    )
                    &&& final(self)@ == Seq::<i64>::empty()
                },
            },
    {
        let ghost tokens = postfix.deep_view();
        self.stack.clear();
        assert(tokens.skip(0) =~= tokens);
        let mut i: usize = 0;
        while i < postfix.len()
            invariant
                i <= postfix.len(),
                tokens == postfix.deep_view(),
                semantics::reduce(Seq::empty(), tokens) == semantics::reduce(
                    self@,
                    tokens.skip(i as int),
                ),
            decreases postfix.len() - i,
        {
            assert(tokens.skip(i as int).drop_first() =~= tokens.skip(i + 1));
            match self.step(&postfix[i]) {
                Err(error) => {
                    self.stack.clear();
                    return Err(error);
                },
                Ok(()) => {},
            }
            i = i + 1;
        }
        if self.stack.len() == 1 {
            Ok(self.stack[0])
        } else {
            self.stack.clear();
            Err(CalcError::EvaluationDefect)
        }
    }

    /// Applies one token of a postfix sequence to the stack, which is left as
    /// it was if the token cannot be applied.
    fn step(&mut self, token: &Token) -> (result: Result<(), CalcError>)
        ensures
            match result {
                Ok(()) => semantics::step(old(self)@, token@) == Ok::<Seq<i64>, Failure>(
                    final(self)@,
                ),
                Err(error) => {
                    &&& semantics::step(old(self)@, token@) == Err::<Seq<i64>, Failure>(error@)
                    &&& final(self)@ == old(self)@
                },
            },
    {
        let depth = self.stack.len();
        match token {
            Token::BinaryNumber(value) | Token::DecimalNumber(value) | Token::HexNumber(value) => {
                self.stack.push(*value);
                Ok(())
            },
            Token::Bang | Token::TwosComplement => {
                if depth < 1 {
                    return Err(CalcError::EvaluationDefect);
                }
                let value = self.apply_operator(token, 0, self.stack[depth - 1])?;
                self.stack.pop();
                self.stack.push(value);
                Ok(())
            },
            Token::Plus
            | Token::Minus
            | Token::And
            | Token::Or
            | Token::Nor
            | Token::Xor
            | Token::ShiftLeft
            | Token::ShiftRight
            | Token::Mult
            | Token::Modulo => {
                if depth < 2 {
                    return Err(CalcError::EvaluationDefect);
                }
                let value = self.apply_operator(
                    token,
                    self.stack[depth - 2],
                    self.stack[depth - 1],
                )?;
                self.stack.pop();
                self.stack.pop();
                self.stack.push(value);
                Ok(())
            },
            _ => Err(CalcError::EvaluationDefect),
        }
    }

    /// What an operator makes of its operands; a unary operator works on
    /// `rhs` alone.
    pub fn apply_operator(&self, operator: &Token, lhs: i64, rhs: i64) -> (result: Result<
        i64,
        CalcError,
    >)
        ensures
            match result {
                Ok(value) => semantics::apply(operator@, lhs, rhs) == Ok::<i64, Failure>(value),
                Err(error) => semantics::apply(operator@, lhs, rhs) == Err::<i64, Failure>(
                    error@,
                ),
            },
    {
        match operator {
            Token::Plus => Ok(lhs.wrapping_add(rhs)),
            Token::Minus => Ok(lhs.wrapping_sub(rhs)),
            Token::And => Ok(lhs & rhs),
            Token::Or => Ok(lhs | rhs),
            Token::Nor => Ok(!(lhs | rhs)),
            Token::Xor => Ok(lhs ^ rhs),
            Token::ShiftLeft => Ok(lhs << shift_count(rhs)),
            Token::ShiftRight => Ok(lhs >> shift_count(rhs)),
            Token::Bang => Ok(!rhs),
            Token::TwosComplement => {
                let inverted: i64 = !rhs;
                assert(i64::MIN <= inverted <= i64::MAX) by (bit_vector);
                Ok(inverted.wrapping_add(1))
            },
            Token::Mult => Ok(lhs.wrapping_mul(rhs)),
            Token::Modulo => if rhs == 0 {
                Err(CalcError::DivisionByZero)
            } else {
                Ok(remainder(lhs, rhs))
            },
            _ => Err(CalcError::EvaluationDefect),
        }
    }
}

/// A shift count taken modulo 64.
fn shift_count(count: i64) -> (reduced: i64)
    ensures
        reduced == count & 63,
        0 <= reduced < 64,
{
    let reduced = count & 63;
    assert(0 <= reduced < 64) by (bit_vector)
        requires
            reduced == count & 63,
    ;
    reduced
}

} // verus!
