//! The scanner: it hands out the tokens of a source text one at a time.

use crate::lexical;
use crate::lexical::CharClass;
use crate::token::Token;
use crate::utils::Base;
use vstd::prelude::*;

verus! {

/// Whether the character has the Unicode property White_Space.
pub fn is_whitespace(c: char) -> (b: bool)
    ensures
        b == lexical::is_whitespace(c),
{
    ('\u{9}' <= c && c <= '\u{d}') || c == ' ' || c == '\u{85}' || c == '\u{a0}' || c == '\u{1680}'
        || ('\u{2000}' <= c && c <= '\u{200a}') || c == '\u{2028}' || c == '\u{2029}' || c
        == '\u{202f}' || c == '\u{205f}' || c == '\u{3000}'
}

/// Whether the character ends a run of digits or letters: it is whitespace,
/// or one of `( ) > < + - & | ~ ! ^ * %`.
pub fn is_delimiter(c: char) -> (b: bool)
    ensures
        b == lexical::is_delimiter(c),
{
    c == '(' || c == ')' || c == '>' || c == '<' || c == '+' || c == '-' || c == '&' || c == '|'
        || c == '~' || c == '!' || c == '^' || c == '*' || c == '%' || is_whitespace(c)
}

impl CharClass {
    /// Whether the character belongs to the class.
    pub fn accepts(&self, c: char) -> (b: bool)
        ensures
            b == self.contains(c),
    {
        match self {
            CharClass::Whitespace => is_whitespace(c),
            CharClass::Letter => ('a' <= c && c <= 'z') || ('A' <= c && c <= 'Z'),
            CharClass::Digit(Base::Bin) => c == '0' || c == '1',
            CharClass::Digit(Base::Dec) => '0' <= c && c <= '9',
            CharClass::Digit(Base::Hex) => ('0' <= c && c <= '9') || ('a' <= c && c <= 'f') || ('A'
                <= c && c <= 'F'),
        }
    }
}

/// The number that a digit stands for.
fn digit_value(c: char) -> (d: u64)
    ensures
        d == lexical::digit_value(c),
        d < 16,
{
    let code: u32 = c as u32;
    if '0' <= c && c <= '9' {
        (code - 0x30) as u64
    } else if 'a' <= c && c <= 'f' {
        (code - 0x61 + 10) as u64
    } else if 'A' <= c && c <= 'F' {
        (code - 0x41 + 10) as u64
    } else {
        0
    }
}

/// An ASCII capital letter as its small letter; any other character as it is.
fn to_lowercase(c: char) -> (l: char)
    ensures
        l == lexical::to_lowercase(c),
{
    if 'A' <= c && c <= 'Z' {
        ((c as u8) + 32) as char
    } else {
        c
    }
}

/// A cursor into a source text.
pub struct Scanner<'a> {
    /// The source text, from which the text of an error token is cut.
    lookup: &'a str,
    /// The characters of the source text.
    buffer: Vec<char>,
    /// How many characters have been consumed.
    cursor: usize,
}

impl<'a> Scanner<'a> {
    #[verifier::type_invariant]
    spec fn well_formed(self) -> bool {
        &&& self.buffer@ == self.lookup@
        &&& self.cursor <= self.buffer.len()
    }

    /// The characters of the source text.
    pub closed spec fn source(&self) -> Seq<char> {
        self.buffer@
    }

    /// How many characters of the source text have been consumed.
    pub closed spec fn position(&self) -> int {
        self.cursor as int
    }

    /// Creates a scanner at the start of `input`.
    ///
    /// The text is decoded once, so that the scanner can step through its
    /// characters.
    pub fn new(input: &'a str) -> (scanner: Self)
        ensures
            scanner.source() == input@,
            scanner.position() == 0,
    {
        let mut buffer: Vec<char> = Vec::new();
        for c in it: input.chars()
            invariant
                buffer@ == it.seq().take(it.index()),
        {
            buffer.push(c);
        }
        assert(buffer@ == input@);
        Scanner { lookup: input, buffer, cursor: 0 }
    }

    /// Consumes the next token and returns it. At the end of the text every
    /// call returns `Eof`.
    pub fn next(&mut self) -> (token: Token)
        ensures
            final(self).source() == old(self).source(),
            token@ == lexical::scan(old(self).source(), old(self).position()).token,
            final(self).position() == lexical::scan(old(self).source(), old(self).position()).end,
            old(self).position() <= final(self).position() <= final(self).source().len(),
    {
        proof {
            use_type_invariant(&*self);
            lexical::lemma_scan_advances(self.source(), self.position());
        }
        self.eat_while(CharClass::Whitespace);
        proof {
            use_type_invariant(&*self);
        }
        let start = self.cursor;
        let ghost src = self.buffer@;
        match self.peek_char() {
            None => Token::Eof,
            Some(c) => {
                self.cursor = start + 1;
                if c == '(' {
                    Token::LeftParen
                } else if c == ')' {
                    Token::RightParen
                } else if c == '+' {
                    Token::Plus
                } else if c == '-' {
                    Token::Minus
                } else if c == '!' {
                    Token::Bang
                } else if c == '~' {
                    Token::TwosComplement
                } else if c == '*' {
                    Token::Mult
                } else if c == '&' || c == '|' || c == '^' || c == '%' {
                    assert(src.subrange(start as int, start + 1) =~= seq![c]);
                    self.get_keyword(start, start + 1)
                } else if c == '<' || c == '>' {
                    if self.cursor < self.buffer.len() {
                        self.cursor = self.cursor + 1;
                    }
                    if c == '<' {
                        Token::ShiftLeft
                    } else {
                        Token::ShiftRight
                    }
                } else if c == '0' {
                    match self.peek_char() {
                        None => Token::DecimalNumber(0),
                        Some('b') => {
                            self.cursor = start + 2;
                            self.literal(start, Base::Bin)
                        },
                        Some('x') => {
                            self.cursor = start + 2;
                            self.literal(start, Base::Hex)
                        },
                        Some(_) => {
                            self.cursor = start + 2;
                            self.error(start)
                        },
                    }
                } else if '1' <= c && c <= '9' {
                    self.cursor = start;
                    self.literal(start, Base::Dec)
                } else if CharClass::Letter.accepts(c) {
                    self.cursor = start;
                    self.eat_while(CharClass::Letter);
                    if self.at_boundary() {
                        self.get_keyword(start, self.cursor)
                    } else {
                        self.error(start)
                    }
                } else {
                    self.error(start)
                }
            },
        }
    }

    /// Returns the next token without consuming it: the scanner reads it
    /// and steps back to where it was.
    pub fn peek(&mut self) -> (token: Token)
        ensures
            final(self).source() == old(self).source(),
            final(self).position() == old(self).position(),
            token@ == lexical::scan(old(self).source(), old(self).position()).token,
            0 <= final(self).position() <= final(self).source().len(),
    {
        proof {
            use_type_invariant(&*self);
        }
        let here = self.cursor;
        let token = self.next();
        proof {
            use_type_invariant(&*self);
        }
        self.cursor = here;
        token
    }

    /// Consumes the longest run of characters of `class` at the cursor.
    fn eat_while(&mut self, class: CharClass)
        ensures
            final(self).source() == old(self).source(),
            final(self).position() == lexical::run_end(
                old(self).source(),
                old(self).position(),
                class,
            ),
            old(self).position() <= final(self).position() <= final(self).source().len(),
    {
        proof {
            use_type_invariant(&*self);
        }
        while self.cursor < self.buffer.len() && class.accepts(self.buffer[self.cursor])
            invariant
                self.buffer@ == old(self).buffer@,
                self.lookup == old(self).lookup,
                self.buffer@ == self.lookup@,
                old(self).cursor <= self.cursor <= self.buffer.len(),
                lexical::run_end(self.buffer@, old(self).cursor as int, class) == lexical::run_end(
                    self.buffer@,
                    self.cursor as int,
                    class,
                ),
            decreases self.buffer.len() - self.cursor,
        {
            self.cursor = self.cursor + 1;
        }
    }

    /// The character at the cursor, if the text is not over.
    fn peek_char(&self) -> (c: Option<char>)
        ensures
            self.position() < self.source().len() ==> c == Some(self.source()[self.position()]),
            self.position() >= self.source().len() ==> c is None,
    {
        if self.cursor < self.buffer.len() {
            Some(self.buffer[self.cursor])
        } else {
            None
        }
    }

    /// Whether the text is over at the cursor or a delimiter stands there.
    fn at_boundary(&self) -> (b: bool)
        ensures
            b == lexical::at_boundary(self.source(), self.position()),
    {
        match self.peek_char() {
            None => true,
            Some(c) => is_delimiter(c),
        }
    }

    /// The operator that the text from `start` up to `end` names.
    pub fn get_keyword(&self, start: usize, end: usize) -> (token: Token)
        requires
            start <= end <= self.source().len(),
        ensures
            token@ == lexical::keyword(self.source().subrange(start as int, end as int)),
    {
        proof {
            use_type_invariant(self);
        }
        let ghost text = self.buffer@.subrange(start as int, end as int);
        let ghost word = text.map_values(|c: char| lexical::to_lowercase(c));
        let len = end - start;
        if len == 1 {
            let c = self.buffer[start];
            assert(text[0] == c);
            if c == '&' {
                Token::And
            } else if c == '|' {
                Token::Or
            } else if c == '^' {
                Token::Xor
            } else if c == '%' {
                Token::Modulo
            } else {
                Token::KeywordNotFound
            }
        } else if len == 2 {
            let a = to_lowercase(self.buffer[start]);
            let b = to_lowercase(self.buffer[start + 1]);
            assert(word[0] == a && word[1] == b);
            if a == 'o' && b == 'r' {
                Token::Or
            } else {
                Token::KeywordNotFound
            }
        } else if len == 3 {
            let a = to_lowercase(self.buffer[start]);
            let b = to_lowercase(self.buffer[start + 1]);
            let c = to_lowercase(self.buffer[start + 2]);
            assert(word[0] == a && word[1] == b && word[2] == c);
            if a == 'a' && b == 'n' && c == 'd' {
                Token::And
            } else if a == 'n' && b == 'o' && c == 'r' {
                Token::Nor
            } else if a == 'x' && b == 'o' && c == 'r' {
                Token::Xor
            } else if a == 'm' && b == 'o' && c == 'd' {
                Token::Modulo
            } else {
                Token::KeywordNotFound
            }
        } else {
            Token::KeywordNotFound
        }
    }

    /// Reads the digits at the cursor as a literal that started at `start`.
    fn literal(&mut self, start: usize, base: Base) -> (token: Token)
        requires
            start <= old(self).position() <= old(self).source().len(),
        ensures
            final(self).source() == old(self).source(),
            token@ == lexical::scan_literal(
                old(self).source(),
                start as int,
                old(self).position(),
                base,
            ).token,
            final(self).position() == lexical::scan_literal(
                old(self).source(),
                start as int,
                old(self).position(),
                base,
            ).end,
    {
        let digits = self.cursor;
        self.eat_while(CharClass::Digit(base));
        if self.cursor > digits && self.at_boundary() {
            let value = self.decode(digits, self.cursor, base);
            match base {
                Base::Bin => Token::BinaryNumber(value),
                Base::Dec => Token::DecimalNumber(value),
                Base::Hex => Token::HexNumber(value),
            }
        } else {
            self.error(start)
        }
    }

    /// The value of the digits from `from` up to `to`.
    fn decode(&self, from: usize, to: usize, base: Base) -> (value: i64)
        requires
            from <= to <= self.source().len(),
        ensures
            value == lexical::literal_value(self.source().subrange(from as int, to as int), base),
    {
        proof {
            use_type_invariant(self);
        }
        let radix = base.get_base_numeric() as u64;
        let ghost src = self.buffer@;
        let mut low: u64 = 0;
        let mut i = from;
        assert(src.subrange(from as int, from as int) =~= Seq::<char>::empty());
        while i < to
            invariant
                from <= i <= to <= self.buffer.len(),
                src == self.buffer@,
                radix == base.radix(),
                low == lexical::magnitude(src.subrange(from as int, i as int), radix as int)
                    % 0x1_0000_0000_0000_0000,
            decreases to - i,
        {
            let digit = digit_value(self.buffer[i]);
            proof {
                let before = src.subrange(from as int, i as int);
                let after = src.subrange(from as int, i + 1);
                assert(after.drop_last() =~= before);
                assert(after.last() == src[i as int]);
                lemma_shift_in_digit(
                    lexical::magnitude(before, radix as int),
                    radix as int,
                    digit as int,
                );
            }
            low = low.wrapping_mul(radix).wrapping_add(digit);
            i = i + 1;
        }
        let value = #[verifier::truncate] (low as i64);
        assert(value == if low >= 0x8000_0000_0000_0000u64 {
            low - 0x1_0000_0000_0000_0000
        } else {
            low as int
        }) by (bit_vector)
            requires
                value == #[verifier::truncate] (low as i64),
        ;
        value
    }

    /// The text from `start` up to the cursor as an error token.
    fn error(&self, start: usize) -> (token: Token)
        requires
            start <= self.position(),
        ensures
            token@ == lexical::error_span(self.source(), start as int, self.position()).token,
    {
        proof {
            use_type_invariant(self);
        }
        let before = self.lookup.substring_char(0, start);
        let text = self.lookup.substring_char(start, self.cursor);
        assert(self.lookup@.subrange(0, start as int) =~= self.lookup@.take(start as int));
        Token::Error(before.as_bytes().len(), text.as_bytes().len(), text.to_owned())
    }
}

/// Appending a digit to a number commutes with keeping the low 64 bits.
proof fn lemma_shift_in_digit(magnitude: int, radix: int, digit: int)
    requires
        0 <= digit < 16,
        2 <= radix <= 16,
    ensures
        ({
            let low = magnitude % 0x1_0000_0000_0000_0000;
            let shifted = (low * radix) % 0x1_0000_0000_0000_0000;
            let sum = if shifted + digit > u64::MAX {
                shifted + digit - 0x1_0000_0000_0000_0000
            } else {
                shifted + digit
            };
            sum == (magnitude * radix + digit) % 0x1_0000_0000_0000_0000
        }),
{
    vstd::arithmetic::div_mod::lemma_mul_mod_noop_left(magnitude, radix, 0x1_0000_0000_0000_0000);
}

} // verus!
