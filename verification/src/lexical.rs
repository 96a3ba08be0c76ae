//! The lexical grammar: which token starts at a position of the source text.
//!
//! Positions in the text count characters. The place and the length that an
//! error token reports count the bytes of the text in UTF-8, so that they can
//! be used to cut the text out of the string.

use crate::token::Lexeme;
use crate::utils::Base;
use crate::wrapping::wrap64;
use vstd::prelude::*;

verus! {

/// A character with the Unicode property White_Space.
pub open spec fn is_whitespace(c: char) -> bool {
    ||| '\u{9}' <= c <= '\u{d}'
    ||| c == ' '
    ||| c == '\u{85}'
    ||| c == '\u{a0}'
    ||| c == '\u{1680}'
    ||| '\u{2000}' <= c <= '\u{200a}'
    ||| c == '\u{2028}'
    ||| c == '\u{2029}'
    ||| c == '\u{202f}'
    ||| c == '\u{205f}'
    ||| c == '\u{3000}'
}

/// A character that is a token by itself or starts a shift.
pub open spec fn is_punctuation(c: char) -> bool {
    ||| c == '('
    ||| c == ')'
    ||| c == '>'
    ||| c == '<'
    ||| c == '+'
    ||| c == '-'
    ||| c == '&'
    ||| c == '|'
    ||| c == '~'
    ||| c == '!'
    ||| c == '^'
    ||| c == '*'
    ||| c == '%'
}

/// A character that ends a run of digits or letters without belonging to it.
pub open spec fn is_delimiter(c: char) -> bool {
    is_punctuation(c) || is_whitespace(c)
}

/// An ASCII letter.
pub open spec fn is_letter(c: char) -> bool {
    'a' <= c <= 'z' || 'A' <= c <= 'Z'
}

/// A digit of the given radix.
pub open spec fn is_digit(c: char, base: Base) -> bool {
    match base {
        Base::Bin => '0' <= c <= '1',
        Base::Dec => '0' <= c <= '9',
        Base::Hex => '0' <= c <= '9' || 'a' <= c <= 'f' || 'A' <= c <= 'F',
    }
}

/// The kinds of character of which the scanner reads whole runs.
#[derive(Debug, Clone, Copy, PartialEq, Eq, Structural)]
pub enum CharClass {
    Whitespace,
    Letter,
    Digit(Base),
}

impl CharClass {
    pub open spec fn contains(self, c: char) -> bool {
        match self {
            CharClass::Whitespace => is_whitespace(c),
            CharClass::Letter => is_letter(c),
            CharClass::Digit(base) => is_digit(c, base),
        }
    }
}

/// Where the longest run of characters of `class` that starts at `from` ends:
/// the first position at or after `from` that holds no character of the
/// class, or the length of the text.
pub open spec fn run_end(src: Seq<char>, from: int, class: CharClass) -> int
    decreases src.len() - from,
{
    if 0 <= from < src.len() && class.contains(src[from]) {
        run_end(src, from + 1, class)
    } else {
        from
    }
}

/// The number that a hexadecimal digit stands for; 0 for any other character.
pub open spec fn digit_value(c: char) -> int {
    if '0' <= c <= '9' {
        c as int - '0' as int
    } else if 'a' <= c <= 'f' {
        c as int - 'a' as int + 10
    } else if 'A' <= c <= 'F' {
        c as int - 'A' as int + 10
    } else {
        0
    }
}

/// The number that a run of digits denotes in the given radix, most
/// significant digit first.
pub open spec fn magnitude(digits: Seq<char>, radix: int) -> int
    decreases digits.len(),
{
    if digits.len() == 0 {
        0
    } else {
        magnitude(digits.drop_last(), radix) * radix + digit_value(digits.last())
    }
}

/// A run of digits denotes no negative number.
pub proof fn lemma_magnitude_is_not_negative(digits: Seq<char>, radix: int)
    requires
        radix >= 0,
    ensures
        magnitude(digits, radix) >= 0,
    decreases digits.len(),
{
    if digits.len() > 0 {
        lemma_magnitude_is_not_negative(digits.drop_last(), radix);
        assert(magnitude(digits.drop_last(), radix) * radix >= 0) by (nonlinear_arith)
            requires
                magnitude(digits.drop_last(), radix) >= 0,
                radix >= 0,
        ;
    }
}

/// The value of a literal: the magnitude of its digits, of which the low 64
/// bits are kept and read as a signed integer. `0xffffffffffffffff` is -1.
pub open spec fn literal_value(digits: Seq<char>, base: Base) -> i64 {
    wrap64(magnitude(digits, base.radix()))
}

/// An ASCII capital letter turned into its small letter; any other character
/// unchanged.
pub open spec fn to_lowercase(c: char) -> char {
    if 'A' <= c <= 'Z' {
        (c as int + 32) as char
    } else {
        c
    }
}

/// The operator that a word or a symbol names, whatever the case of its
/// letters; `KeywordNotFound` if it names none.
pub open spec fn keyword(text: Seq<char>) -> Lexeme {
    let word = text.map_values(|c: char| to_lowercase(c));
    if word =~= seq!['a', 'n', 'd'] || text =~= seq!['&'] {
        Lexeme::And
    } else if word =~= seq!['o', 'r'] || text =~= seq!['|'] {
        Lexeme::Or
    } else if word =~= seq!['n', 'o', 'r'] {
        Lexeme::Nor
    } else if word =~= seq!['x', 'o', 'r'] || text =~= seq!['^'] {
        Lexeme::Xor
    } else if word =~= seq!['m', 'o', 'd'] || text =~= seq!['%'] {
        Lexeme::Modulo
    } else {
        Lexeme::KeywordNotFound
    }
}

/// A token together with the position behind it.
pub struct Scanned {
    pub token: Lexeme,
    pub end: int,
}

/// The position `at` ends a run: the text is over, or a delimiter follows.
pub open spec fn at_boundary(src: Seq<char>, at: int) -> bool {
    at >= src.len() || is_delimiter(src[at])
}

/// The number of bytes that a text takes in UTF-8.
pub open spec fn byte_length(text: Seq<char>) -> int {
    vstd::utf8::encode_utf8(text).len() as int
}

/// The text from `start` up to `end` as an error token: the number of bytes
/// before it, its length in bytes, and the text.
pub open spec fn error_span(src: Seq<char>, start: int, end: int) -> Scanned {
    Scanned {
        token: Lexeme::Error(
            byte_length(src.take(start)),
            byte_length(src.subrange(start, end)),
            src.subrange(start, end),
        ),
        end,
    }
}

/// The literal that starts at `start` and has its digits from `digits` on.
/// The run of digits must not be empty and must end at a boundary; otherwise
/// the text read so far is an error, and the offending character is left for
/// the next token.
pub open spec fn scan_literal(src: Seq<char>, start: int, digits: int, base: Base) -> Scanned {
    let end = run_end(src, digits, CharClass::Digit(base));
    if end > digits && at_boundary(src, end) {
        Scanned { token: Lexeme::Number(literal_value(src.subrange(digits, end), base), base), end }
    } else {
        error_span(src, start, end)
    }
}

/// The word that starts at `start`: a run of letters that must end at a
/// boundary, looked up as a keyword.
pub open spec fn scan_word(src: Seq<char>, start: int) -> Scanned {
    let end = run_end(src, start, CharClass::Letter);
    if at_boundary(src, end) {
        Scanned { token: keyword(src.subrange(start, end)), end }
    } else {
        error_span(src, start, end)
    }
}

/// What follows a leading `0`: nothing, for the number zero; `b` or `x` and
/// the digits of a binary or hexadecimal literal; any other character is an
/// error and is consumed with the `0`.
pub open spec fn scan_zero(src: Seq<char>, start: int) -> Scanned {
    if start + 1 >= src.len() {
        Scanned { token: Lexeme::Number(0, Base::Dec), end: start + 1 }
    } else if src[start + 1] == 'b' {
        scan_literal(src, start, start + 2, Base::Bin)
    } else if src[start + 1] == 'x' {
        scan_literal(src, start, start + 2, Base::Hex)
    } else {
        error_span(src, start, start + 2)
    }
}

/// The token that the character at `start` begins; `start` holds a character
/// that is not whitespace.
pub open spec fn scan_token(src: Seq<char>, start: int) -> Scanned {
    let c = src[start];
    let one = start + 1;
    if c == '(' {
        Scanned { token: Lexeme::LeftParen, end: one }
    } else if c == ')' {
        Scanned { token: Lexeme::RightParen, end: one }
    } else if c == '+' {
        Scanned { token: Lexeme::Plus, end: one }
    } else if c == '-' {
        Scanned { token: Lexeme::Minus, end: one }
    } else if c == '!' {
        Scanned { token: Lexeme::Bang, end: one }
    } else if c == '~' {
        Scanned { token: Lexeme::TwosComplement, end: one }
    } else if c == '*' {
        Scanned { token: Lexeme::Mult, end: one }
    } else if c == '&' || c == '|' || c == '^' || c == '%' {
        Scanned { token: keyword(seq![c]), end: one }
    } else if c == '<' || c == '>' {
        // The character behind the first belongs to the shift whatever it is.
        Scanned {
            token: if c == '<' {
                Lexeme::ShiftLeft
            } else {
                Lexeme::ShiftRight
            },
            end: if one < src.len() {
                one + 1
            } else {
                one
            },
        }
    } else if c == '0' {
        scan_zero(src, start)
    } else if '1' <= c <= '9' {
        scan_literal(src, start, start, Base::Dec)
    } else if is_letter(c) {
        scan_word(src, start)
    } else {
        error_span(src, start, one)
    }
}

/// The next token at or after `pos`, behind any whitespace, and the position
/// behind it. At the end of the text the token is `Eof`.
pub open spec fn scan(src: Seq<char>, pos: int) -> Scanned {
    let start = run_end(src, pos, CharClass::Whitespace);
    if start >= src.len() {
        Scanned { token: Lexeme::Eof, end: start }
    } else {
        scan_token(src, start)
    }
}

/// A run ends within the text, at or behind its start; every character of it
/// belongs to the class, and the character behind it, if any, does not.
pub proof fn lemma_run_end(src: Seq<char>, from: int, class: CharClass)
    requires
        0 <= from <= src.len(),
    ensures
        from <= run_end(src, from, class) <= src.len(),
        forall|i: int| from <= i < run_end(src, from, class) ==> class.contains(#[trigger] src[i]),
        run_end(src, from, class) < src.len() ==> !class.contains(src[run_end(src, from, class)]),
    decreases src.len() - from,
{
    if from < src.len() && class.contains(src[from]) {
        lemma_run_end(src, from + 1, class);
    }
}

/// Scanning moves forward and stays within the text; every token but `Eof`
/// takes at least one character, and `Eof` comes only at the end.
pub proof fn lemma_scan_advances(src: Seq<char>, pos: int)
    requires
        0 <= pos <= src.len(),
    ensures
        pos <= scan(src, pos).end <= src.len(),
        scan(src, pos).token is Eof <==> run_end(src, pos, CharClass::Whitespace) == src.len(),
        scan(src, pos).token is Eof ==> scan(src, pos).end == src.len(),
        !(scan(src, pos).token is Eof) ==> pos < scan(src, pos).end,
{
    let start = run_end(src, pos, CharClass::Whitespace);
    lemma_run_end(src, pos, CharClass::Whitespace);
    if start < src.len() {
        lemma_run_end(src, start, CharClass::Letter);
        lemma_run_end(src, start, CharClass::Digit(Base::Dec));
        if start + 2 <= src.len() {
            lemma_run_end(src, start + 2, CharClass::Digit(Base::Bin));
            lemma_run_end(src, start + 2, CharClass::Digit(Base::Hex));
        }
    }
}

/// The tokens of the text from `pos` on, up to and including the first that
/// is terminal: `Eof`, an error or an unknown word.
pub open spec fn tokens_from(src: Seq<char>, pos: int) -> Seq<Lexeme>
    decreases src.len() - pos,
    when 0 <= pos <= src.len()
    via tokens_from_decreases
{
    let next = scan(src, pos);
    if next.token.is_terminal() {
        seq![next.token]
    } else {
        seq![next.token] + tokens_from(src, next.end)
    }
}

#[via_fn]
proof fn tokens_from_decreases(src: Seq<char>, pos: int) {
    lemma_scan_advances(src, pos);
}

/// The tokens of a source text.
pub open spec fn tokenize(src: Seq<char>) -> Seq<Lexeme> {
    tokens_from(src, 0)
}

/// The tokens of a text end with a terminal token, and hold no other.
pub proof fn lemma_tokens_end_at_terminal(src: Seq<char>, pos: int)
    requires
        0 <= pos <= src.len(),
    ensures
        tokens_from(src, pos).len() >= 1,
        forall|i: int|
            0 <= i < tokens_from(src, pos).len() ==> (#[trigger] tokens_from(
                src,
                pos,
            )[i].is_terminal() <==> i == tokens_from(src, pos).len() - 1),
    decreases src.len() - pos,
{
    let next = scan(src, pos);
    if !next.token.is_terminal() {
        lemma_scan_advances(src, pos);
        lemma_tokens_end_at_terminal(src, next.end);
        let rest = tokens_from(src, next.end);
        let all = tokens_from(src, pos);
        assert forall|i: int| 0 <= i < all.len() implies (#[trigger] all[i].is_terminal() <==> i
            == all.len() - 1) by {
            if i > 0 {
                assert(all[i] == rest[i - 1]);
            }
        }
    }
}

/// A scanner at position `pos` of `src` stands before the token of index `at`
/// of `tokens`: what it has yet to hand out is the rest of `tokens`.
pub open spec fn stands_before(src: Seq<char>, pos: int, tokens: Seq<Lexeme>, at: int) -> bool {
    &&& 0 <= pos <= src.len()
    &&& 0 <= at <= tokens.len()
    &&& tokens_from(src, pos) == tokens.skip(at)
}

/// A scanner that stands before a token hands out that token next, and
/// stands before the one behind it afterwards, unless the token is terminal.
pub proof fn lemma_stands_before(src: Seq<char>, pos: int, tokens: Seq<Lexeme>, at: int)
    requires
        stands_before(src, pos, tokens, at),
    ensures
        at < tokens.len(),
        tokens[at] == scan(src, pos).token,
        pos <= scan(src, pos).end <= src.len(),
        !tokens[at].is_terminal() ==> pos < scan(src, pos).end && stands_before(
            src,
            scan(src, pos).end,
            tokens,
            at + 1,
        ),
{
    lemma_scan_advances(src, pos);
    let next = scan(src, pos);
    let rest = tokens.skip(at);
    assert(rest[0] == next.token);
    if !next.token.is_terminal() {
        assert(tokens.skip(at + 1) =~= rest.skip(1));
        assert(rest.skip(1) =~= tokens_from(src, next.end));
    }
}

} // verus!
