use bitcalc::scanner::Scanner;
use bitcalc::token::Token;

#[test]
fn test_without_spaces() {
    let mut sc = Scanner::new("1+2+3+4");
    assert_eq!(Token::DecimalNumber(1), sc.next());
    assert_eq!(Token::Plus, sc.next());
    assert_eq!(Token::DecimalNumber(2), sc.next());
    assert_eq!(Token::Plus, sc.next());
    assert_eq!(Token::DecimalNumber(3), sc.next());
    assert_eq!(Token::Plus, sc.next());
    assert_eq!(Token::DecimalNumber(4), sc.next());
}

#[test]
fn test_peek_char_behaviour() {
    let mut sc = Scanner::new("(12 + 12)");
    assert_eq!(sc.next(), Token::LeftParen);
    assert_eq!(sc.next(), Token::DecimalNumber(12));
    assert_eq!(sc.next(), Token::Plus);
    assert_eq!(sc.next(), Token::DecimalNumber(12));
    assert_eq!(sc.next(), Token::RightParen);
}

#[test]
fn test_whitespaces_only() {
    let mut sc = Scanner::new("  ");
    assert_eq!(sc.next(), Token::Eof);
}

#[test]
fn test_single_character_token() {
    let mut sc = Scanner::new("(");
    assert_eq!(sc.next(), Token::LeftParen);
}

#[test]
fn test_shift_right() {
    let mut sc = Scanner::new(">>");
    assert_eq!(sc.next(), Token::ShiftRight);
}

#[test]
fn test_few_parens() {
    let mut sc = Scanner::new("()()");
    assert_eq!(sc.next(), Token::LeftParen);
    assert_eq!(sc.next(), Token::RightParen);
    assert_eq!(sc.next(), Token::LeftParen);
    assert_eq!(sc.next(), Token::RightParen);
}

#[test]
fn test_dec_number() {
    let mut sc = Scanner::new("1234");
    assert_eq!(sc.next(), Token::DecimalNumber(i64::from_str_radix(&"1234", 10).unwrap()));
}

#[test]
fn test_hex_number() {
    let mut sc = Scanner::new("0x1234");
    assert_eq!(sc.next(), Token::HexNumber(i64::from_str_radix("1234", 16).unwrap()));
}

#[test]
fn test_bin_number() {
    let mut sc = Scanner::new("0b1010");
    assert_eq!(sc.next(), Token::BinaryNumber(i64::from_str_radix("1010", 2).unwrap()));
}

#[test]
fn test_xor_keyword() {
    let mut sc = Scanner::new("XOR");
    assert_eq!(sc.next(), Token::Xor);
}

#[test]
fn test_shifts() {
    let mut sc = Scanner::new(">><<");
    assert_eq!(sc.next(), Token::ShiftRight);
    assert_eq!(sc.next(), Token::ShiftLeft);
}

#[test]
fn test_complete() {
    let input = "()0x1234 << 10";
    let mut sc = Scanner::new(input);
    assert_eq!(sc.next(), Token::LeftParen);
    assert_eq!(sc.next(), Token::RightParen);
    assert_eq!(sc.next(), Token::HexNumber(i64::from_str_radix("1234", 16).unwrap()));
    assert_eq!(sc.next(), Token::ShiftLeft);
    assert_eq!(sc.next(), Token::DecimalNumber(10));
}

#[test]
fn scanner_test_extended() {
    let input = "(0b1010 + 0xFF) and (2 OR 0b10) << 12";
    let mut sc = Scanner::new(input);
    assert_eq!(sc.next(), Token::LeftParen);
    assert_eq!(sc.next(), Token::BinaryNumber(i64::from_str_radix("1010", 2).unwrap()));
    assert_eq!(sc.next(), Token::Plus);
    assert_eq!(sc.next(), Token::HexNumber(i64::from_str_radix(&"ff", 16).unwrap()));
    assert_eq!(sc.next(), Token::RightParen);
    assert_eq!(sc.next(), Token::And);
    assert_eq!(sc.next(), Token::LeftParen);
    assert_eq!(sc.next(), Token::DecimalNumber(2));
    assert_eq!(sc.next(), Token::Or);
    assert_eq!(sc.next(), Token::BinaryNumber(i64::from_str_radix("10", 2).unwrap()));
    assert_eq!(sc.next(), Token::RightParen);
    assert_eq!(sc.next(), Token::ShiftLeft);
    assert_eq!(sc.next(), Token::DecimalNumber(12));
}

#[test]
fn test_mult_token() {
    let mut sc = Scanner::new("5*3");
    assert_eq!(sc.next(), Token::DecimalNumber(5));
    assert_eq!(sc.next(), Token::Mult);
    assert_eq!(sc.next(), Token::DecimalNumber(3));
}

#[test]
fn test_zero_decimal() {
    let mut sc = Scanner::new("0");
    assert_eq!(sc.next(), Token::DecimalNumber(0));
}
