//! A calculator for integer expressions with bitwise operators.
//!
//! Source text goes through three stages: the [`scanner`] turns characters
//! into tokens, the [`parser`] orders the tokens into postfix form by the
//! binding powers of the operators, and the [`vm`] reduces the postfix
//! sequence on a stack of values. [`evaluate`] runs all three.
//!
//! Each stage is verified against a mathematical model of what it computes:
//! [`lexical`] says which token starts where in a text, [`grammar`] which
//! postfix form a token sequence has, and [`semantics`] which value a postfix
//! sequence has. [`syntax`] reads expressions as trees and shows that parser
//! and stack machine compute what the tree of an expression denotes;
//! [`laws`] states what follows for source texts.
//!
//! # Numbers
//!
//! Values are 64-bit integers in two's complement. A literal keeps the low
//! 64 bits of the number it denotes, so `0xffffffffffffffff` is -1. Sums,
//! differences, products and negations keep the low 64 bits of the exact
//! result. A shift count is taken modulo 64, and a right shift keeps the
//! sign. A remainder has the sign of its dividend; a remainder by zero is an
//! error.
//!
//! # Writing expressions
//!
//! A lone `0` is a number only as the last character of the text; before any
//! other character it must start `0b` or `0x`. A `<` or `>` is a shift
//! together with the character behind it, whatever that is. A word or a
//! number must end at a delimiter: `1and2` is an error, `1 and 2` is not.
//!
//! The parser accepts `-` in front of an operand and puts it behind the
//! operand, as it does with `!` and `~`. The stack machine, however, knows
//! `-` as the binary operator only, so that such an expression has no value;
//! the negative of `x` is written `~x`.

pub mod error;
pub mod grammar;
pub mod laws;
pub mod lexical;
pub mod parser;
pub mod scanner;
pub mod semantics;
pub mod syntax;
pub mod token;
pub mod utils;
pub mod vm;
pub mod wrapping;

use crate::error::CalcError;
use crate::error::Failure;
use crate::vm::VM;
use vstd::prelude::*;

verus! {

/// Evaluates an expression given as source text: scans it, orders its
/// tokens into postfix form and reduces that on a fresh stack machine.
pub fn evaluate(source: &str) -> (result: Result<i64, CalcError>)
    ensures
        match result {
            Ok(value) => semantics::evaluation(source@) == Ok::<i64, Failure>(value),
            Err(error) => semantics::evaluation(source@) == Err::<i64, Failure>(error@),
        },
{
    let mut machine = VM::new();
    machine.run(source)
}

} // verus!
