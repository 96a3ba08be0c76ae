//! Tokens and their mathematical model.

use crate::utils::Base;
use vstd::prelude::*;

verus! {

/// A token as the scanner produces it.
#[derive(Debug, PartialEq)]
pub enum Token {
    LeftParen,
    RightParen,
    Minus,
    Plus,
    /// Bitwise NOT, written `!`.
    Bang,
    /// Arithmetic negation, written `~`.
    TwosComplement,
    Mult,
    Modulo,
    ShiftLeft,
    ShiftRight,
    /// A literal written with the prefix `0b`, with its decoded value.
    BinaryNumber(i64),
    /// A literal written in decimal digits, with its decoded value.
    DecimalNumber(i64),
    /// A literal written with the prefix `0x`, with its decoded value.
    HexNumber(i64),
    And,
    Or,
    Xor,
    Nor,
    /// Text that is no token: the byte offset at which it starts in the
    /// source text, its length in bytes, and the text itself.
    Error(usize, usize, String),
    /// A run of letters that is no keyword.
    KeywordNotFound,
    /// The end of the source text.
    Eof,
}

/// The mathematical model of a [`Token`]. The three kinds of literal are one
/// variant that carries the decoded value and the radix it was written in.
pub enum Lexeme {
    LeftParen,
    RightParen,
    Plus,
    Minus,
    And,
    Or,
    Nor,
    Xor,
    ShiftLeft,
    ShiftRight,
    Mult,
    Modulo,
    Bang,
    TwosComplement,
    /// A literal: its value and the radix it was written in.
    Number(i64, Base),
    /// Text that is no token: the byte offset at which it starts, its length
    /// in bytes, and the text.
    Error(int, int, Seq<char>),
    KeywordNotFound,
    Eof,
}

impl Lexeme {
    /// A literal.
    pub open spec fn is_operand(self) -> bool {
        self is Number
    }

    /// An operator that stands between two operands.
    pub open spec fn is_binary(self) -> bool {
        self is Plus || self is Minus || self is And || self is Or || self is Nor || self is Xor
            || self is ShiftLeft || self is ShiftRight || self is Mult || self is Modulo
    }

    /// An operator that the evaluator applies to a single value.
    pub open spec fn is_unary(self) -> bool {
        self is Bang || self is TwosComplement
    }

    /// An operator that the parser accepts in front of an operand.
    pub open spec fn is_prefix(self) -> bool {
        self is Minus || self is Bang || self is TwosComplement
    }

    /// An operator or a parenthesis.
    pub open spec fn is_operator(self) -> bool {
        self.is_binary() || self.is_unary() || self is LeftParen || self is RightParen
    }

    /// A token after which the scanner is asked for no further token.
    pub open spec fn is_terminal(self) -> bool {
        self is Eof || self is Error || self is KeywordNotFound
    }

    /// The decoded value of a literal.
    pub open spec fn value(self) -> Option<i64> {
        match self {
            Lexeme::Number(v, _) => Some(v),
            _ => None,
        }
    }
}

impl View for Token {
    type V = Lexeme;

    open spec fn view(&self) -> Lexeme {
        match self {
            Token::LeftParen => Lexeme::LeftParen,
            Token::RightParen => Lexeme::RightParen,
            Token::Minus => Lexeme::Minus,
            Token::Plus => Lexeme::Plus,
            Token::Bang => Lexeme::Bang,
            Token::TwosComplement => Lexeme::TwosComplement,
            Token::Mult => Lexeme::Mult,
            Token::Modulo => Lexeme::Modulo,
            Token::ShiftLeft => Lexeme::ShiftLeft,
            Token::ShiftRight => Lexeme::ShiftRight,
            Token::BinaryNumber(v) => Lexeme::Number(*v, Base::Bin),
            Token::DecimalNumber(v) => Lexeme::Number(*v, Base::Dec),
            Token::HexNumber(v) => Lexeme::Number(*v, Base::Hex),
            Token::And => Lexeme::And,
            Token::Or => Lexeme::Or,
            Token::Xor => Lexeme::Xor,
            Token::Nor => Lexeme::Nor,
            Token::Error(start, length, text) => Lexeme::Error(
                *start as int,
                *length as int,
                text@,
            ),
            Token::KeywordNotFound => Lexeme::KeywordNotFound,
            Token::Eof => Lexeme::Eof,
        }
    }
}

impl DeepView for Token {
    type V = Lexeme;

    open spec fn deep_view(&self) -> Lexeme {
        self@
    }
}

impl Clone for Token {
    fn clone(&self) -> (copy: Self)
        ensures
            copy == *self,
    {
        match self {
            Token::LeftParen => Token::LeftParen,
            Token::RightParen => Token::RightParen,
            Token::Minus => Token::Minus,
            Token::Plus => Token::Plus,
            Token::Bang => Token::Bang,
            Token::TwosComplement => Token::TwosComplement,
            Token::Mult => Token::Mult,
            Token::Modulo => Token::Modulo,
            Token::ShiftLeft => Token::ShiftLeft,
            Token::ShiftRight => Token::ShiftRight,
            Token::BinaryNumber(value) => Token::BinaryNumber(*value),
            Token::DecimalNumber(value) => Token::DecimalNumber(*value),
            Token::HexNumber(value) => Token::HexNumber(*value),
            Token::And => Token::And,
            Token::Or => Token::Or,
            Token::Xor => Token::Xor,
            Token::Nor => Token::Nor,
            Token::Error(start, length, text) => Token::Error(*start, *length, text.clone()),
            Token::KeywordNotFound => Token::KeywordNotFound,
            Token::Eof => Token::Eof,
        }
    }
}

impl Token {
    /// Whether the token is an operator or a parenthesis.
    pub fn is_operator(&self) -> (b: bool)
        ensures
            b == self@.is_operator(),
    {
        match self {
            Token::Plus
            | Token::Minus
            | Token::And
            | Token::Or
            | Token::Nor
            | Token::Xor
            | Token::ShiftLeft
            | Token::ShiftRight
            | Token::Bang
            | Token::TwosComplement
            | Token::LeftParen
            | Token::RightParen
            | Token::Modulo
            | Token::Mult => true,
            _ => false,
        }
    }

    /// Whether the token is a literal.
    pub fn is_operand(&self) -> (b: bool)
        ensures
            b == self@.is_operand(),
    {
        match self {
            Token::DecimalNumber(_) | Token::BinaryNumber(_) | Token::HexNumber(_) => true,
            _ => false,
        }
    }

    /// The decoded value of a literal; nothing for any other token.
    pub fn get_value(&self) -> (v: Option<i64>)
        ensures
            v == self@.value(),
    {
        match self {
            Token::DecimalNumber(v) | Token::BinaryNumber(v) | Token::HexNumber(v) => Some(*v),
            _ => None,
        }
    }
}

} // verus!
