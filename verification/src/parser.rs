//! The parser: it reads tokens from a scanner and orders them into postfix
//! form.

use crate::error::CalcError;
use crate::error::Failure;
use crate::grammar;
use crate::grammar::Parsed;
use crate::lexical;
use crate::scanner::Scanner;
use crate::token::Lexeme;
use crate::token::Token;
use vstd::prelude::*;

verus! {

/// A parser for one source text.
pub struct Parser {
    buffer: String,
}

impl View for Parser {
    type V = Seq<char>;

    /// The source text.
    closed spec fn view(&self) -> Seq<char> {
        self.buffer@
    }
}

/// The error that a token causes where the grammar has no place for it.
pub fn reject(token: Token) -> (error: CalcError)
    ensures
        error@ == grammar::rejection(token@),
{
    match token {
        Token::Error(start, length, text) => CalcError::LexicalError(start, length, text),
        Token::KeywordNotFound => CalcError::UnknownIdentifier,
        _ => CalcError::SyntaxError,
    }
}

impl Parser {
    /// Creates a parser for `input`.
    pub fn new(input: &str) -> (parser: Self)
        ensures
            parser@ == input@,
    {
        Parser { buffer: input.to_owned() }
    }

    /// The postfix form of the source text, or why it has none.
    pub fn parse(&mut self) -> (result: Result<Vec<Token>, CalcError>)
        ensures
            final(self)@ == old(self)@,
            match result {
                Ok(postfix) => grammar::parse_tokens(lexical::tokenize(old(self)@)) == Ok::<
                    Seq<Lexeme>,
                    Failure,
                >(postfix.deep_view()),
                Err(error) => grammar::parse_tokens(lexical::tokenize(old(self)@)) == Err::<
                    Seq<Lexeme>,
                    Failure,
                >(error@),
            },
    {
        let mut scanner = Scanner::new(self.buffer.as_str());
        let ghost src = self.buffer@;
        let ghost tokens = lexical::tokenize(src);
        assert(tokens.skip(0) =~= tokens);
        match self.parser_worker(&mut scanner, 0, Ghost(tokens), Ghost(0)) {
            Err(error) => Err(error),
            Ok(postfix) => {
                proof {
                    let whole = grammar::parse_expression(tokens, 0, 0)->Ok_0;
                    lexical::lemma_stands_before(src, scanner.position(), tokens, whole.len as int);
                }
                match scanner.next() {
                    Token::Eof => Ok(postfix),
                    _ => Err(CalcError::SyntaxError),
                }
            },
        }
    }

    /// Reads the expression at which the scanner stands, taking in no binary
    /// operator whose left binding power is below `min_bp`.
    fn parser_worker(
        &self,
        scanner: &mut Scanner,
        min_bp: u8,
        Ghost(tokens): Ghost<Seq<Lexeme>>,
        Ghost(at): Ghost<int>,
    ) -> (result: Result<Vec<Token>, CalcError>)
        requires
            lexical::stands_before(old(scanner).source(), old(scanner).position(), tokens, at),
        ensures
            final(scanner).source() == old(scanner).source(),
            match result {
                Ok(postfix) => {
                    &&& grammar::parse_expression(tokens, at, min_bp as int) matches Ok(parsed)
                    &&& postfix.deep_view() == parsed.postfix
                    &&& old(scanner).position() < final(scanner).position()
                    &&& lexical::stands_before(
                        final(scanner).source(),
                        final(scanner).position(),
                        tokens,
                        at + parsed.len,
                    )
                },
                Err(error) => grammar::parse_expression(tokens, at, min_bp as int) == Err::<
                    Parsed,
                    Failure,
                >(error@),
            },
        decreases old(scanner).source().len() - old(scanner).position(),
    {
        let ghost src = scanner.source();
        proof {
            lexical::lemma_stands_before(src, scanner.position(), tokens, at);
        }
        let first = scanner.next();
        let mut lhs: Vec<Token>;
        if first.is_operand() {
            lhs = Vec::new();
            lhs.push(first);
            assert(lhs.deep_view() =~= seq![first@]);
        } else if matches!(first, Token::LeftParen) {
            match self.parser_worker(scanner, 0, Ghost(tokens), Ghost(at + 1)) {
                Err(error) => {
                    return Err(error);
                },
                Ok(inner) => {
                    proof {
                        let parsed = grammar::parse_expression(tokens, at + 1, 0)->Ok_0;
                        lexical::lemma_stands_before(
                            src,
                            scanner.position(),
                            tokens,
                            at + 1 + parsed.len,
                        );
                    }
                    match scanner.next() {
                        Token::RightParen => {
                            lhs = inner;
                        },
                        _ => {
                            return Err(CalcError::SyntaxError);
                        },
                    }
                },
            }
        } else {
            match self.prefix_binding_power(&first) {
                None => {
                    return Err(reject(first));
                },
                Some(r_bp) => {
                    match self.parser_worker(scanner, r_bp, Ghost(tokens), Ghost(at + 1)) {
                        Err(error) => {
                            return Err(error);
                        },
                        Ok(operand) => {
                            lhs = operand;
                            lhs.push(first);
                            assert(lhs.deep_view() =~= operand.deep_view().push(first@));
                        },
                    }
                },
            }
        }
        let ghost mut taken: nat = grammar::parse_operand(tokens, at)->Ok_0.len;
        loop
            invariant
                scanner.source() == src,
                old(scanner).source() == src,
                old(scanner).position() < scanner.position(),
                lexical::stands_before(src, scanner.position(), tokens, at + taken),
                grammar::parse_expression(tokens, at, min_bp as int) == grammar::parse_infix(
                    tokens,
                    at,
                    Parsed { postfix: lhs.deep_view(), len: taken },
                    min_bp as int,
                ),
            decreases src.len() - scanner.position(),
        {
            proof {
                lexical::lemma_stands_before(src, scanner.position(), tokens, at + taken);
            }
            let op = scanner.peek();
            if matches!(op, Token::Eof | Token::LeftParen | Token::RightParen) {
                return Ok(lhs);
            }
            match self.infix_binding_power(&op) {
                None => {
                    return Err(reject(op));
                },
                Some((l_bp, r_bp)) => {
                    if l_bp < min_bp {
                        return Ok(lhs);
                    }
                    scanner.next();
                    match self.parser_worker(scanner, r_bp, Ghost(tokens), Ghost(at + taken + 1)) {
                        Err(error) => {
                            return Err(error);
                        },
                        Ok(rhs) => {
                            let ghost before = lhs.deep_view();
                            let ghost right = rhs.deep_view();
                            let mut rhs = rhs;
                            lhs.append(&mut rhs);
                            lhs.push(op);
                            proof {
                                assert(lhs.deep_view() =~= before + right + seq![op@]);
                                let parsed = grammar::parse_expression(
                                    tokens,
                                    at + taken + 1,
                                    r_bp as int,
                                )->Ok_0;
                                taken = taken + 1 + parsed.len;
                            }
                        },
                    }
                },
            }
        }
    }

    /// The left and right binding power of a binary operator.
    pub fn infix_binding_power(&self, op: &Token) -> (powers: Option<(u8, u8)>)
        ensures
            match powers {
                Some((l_bp, r_bp)) => grammar::infix_binding_power(op@) == Some(
                    (l_bp as int, r_bp as int),
                ),
                None => grammar::infix_binding_power(op@) is None,
            },
    {
        let powers = match op {
            Token::Mult | Token::Modulo => (13, 14),
            Token::Plus | Token::Minus => (11, 12),
            Token::ShiftRight | Token::ShiftLeft => (9, 10),
            Token::And => (7, 8),
            Token::Xor => (5, 6),
            Token::Nor => (3, 4),
            Token::Or => (1, 2),
            _ => {
                return None;
            },
        };
        Some(powers)
    }

    /// The binding power of a prefix operator.
    pub fn prefix_binding_power(&self, op: &Token) -> (power: Option<u8>)
        ensures
            match power {
                Some(r_bp) => grammar::prefix_binding_power(op@) == Some(r_bp as int),
                None => grammar::prefix_binding_power(op@) is None,
            },
    {
        match op {
            Token::Minus | Token::Bang | Token::TwosComplement => Some(255),
            _ => None,
        }
    }
}

} // verus!
