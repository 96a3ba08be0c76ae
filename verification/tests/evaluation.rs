use bitcalc::error::CalcError;
use bitcalc::evaluate;
use bitcalc::token::Token;
use bitcalc::vm::VM;

fn n(value: i64) -> Token {
    Token::DecimalNumber(value)
}

#[test]
fn precedence() {
    assert_eq!(evaluate("1 + 2 * 3"), Ok(7));
}

#[test]
fn left_associativity() {
    assert_eq!(evaluate("1 and 2 and 3 and 4 + 5"), Ok(((1 & 2) & 3) & (4 + 5)));
    assert_eq!(evaluate("7 and 15 and 31 and 4 + 1"), Ok(5));
    assert_eq!(evaluate("100 - 10 - 1"), Ok(89));
    assert_eq!(evaluate("1 << 2 << 3"), Ok(32));
    assert_eq!(evaluate("100 % 7 % 2"), Ok(0));
}

#[test]
fn parentheses_override_precedence() {
    assert_eq!(evaluate("(1 + 1) << 5"), Ok(64));
    assert_eq!(evaluate("1 + 1 << 5"), Ok(64));
    assert_eq!(evaluate("1 + (1 << 5)"), Ok(33));
    assert_eq!(evaluate("2 * (3 + 4)"), Ok(14));
}

#[test]
fn unary_operators_bind_tightest() {
    assert_eq!(evaluate("!5"), Ok(!5_i64));
    assert_eq!(evaluate("!5"), Ok(-6));
    assert_eq!(evaluate("~1"), Ok(-1));
    assert_eq!(evaluate("!5 + 1"), Ok(-5));
    assert_eq!(evaluate("~1 * 2"), Ok(-2));
    assert_eq!(evaluate("~(1 * 2)"), Ok(-2));
    assert_eq!(evaluate("!(5 + 1)"), Ok(-7));
    assert_eq!(evaluate("~~9"), Ok(9));
    assert_eq!(evaluate("3 - ~2"), Ok(5));
}

#[test]
fn literal_bases() {
    assert_eq!(evaluate("0xff & 0xf1"), Ok(0xf1));
    assert_eq!(evaluate("0b01 << 2"), Ok(4));
    assert_eq!(evaluate("0b1010 + 0xA + 10"), Ok(30));
}

#[test]
fn malformed_input_has_no_value() {
    assert_eq!(evaluate("(1 + 1"), Err(CalcError::SyntaxError));
    assert_eq!(evaluate("1 +"), Err(CalcError::SyntaxError));
    assert_eq!(evaluate(""), Err(CalcError::SyntaxError));
    assert_eq!(evaluate("1 + $"), Err(CalcError::LexicalError(4, 1, "$".to_string())));
    assert_eq!(evaluate("1 + one"), Err(CalcError::UnknownIdentifier));
}

#[test]
fn operands_keep_their_order() {
    assert_eq!(evaluate("5 - 3"), Ok(2));
    assert_eq!(evaluate("3 - 5"), Ok(-2));
    assert_eq!(evaluate("1 << 4"), Ok(16));
    assert_eq!(evaluate("4 << 1"), Ok(8));
    assert_eq!(evaluate("256 >> 4"), Ok(16));
    assert_eq!(evaluate("17 % 5"), Ok(2));
    assert_eq!(evaluate("5 % 17"), Ok(5));
}

#[test]
fn every_operator() {
    let vm = VM::new();
    assert_eq!(vm.apply_operator(&Token::Plus, 12, 10), Ok(22));
    assert_eq!(vm.apply_operator(&Token::Minus, 12, 10), Ok(2));
    assert_eq!(vm.apply_operator(&Token::And, 12, 10), Ok(8));
    assert_eq!(vm.apply_operator(&Token::Or, 12, 10), Ok(14));
    assert_eq!(vm.apply_operator(&Token::Nor, 12, 10), Ok(-15));
    assert_eq!(vm.apply_operator(&Token::Xor, 12, 10), Ok(6));
    assert_eq!(vm.apply_operator(&Token::ShiftLeft, 12, 10), Ok(12288));
    assert_eq!(vm.apply_operator(&Token::ShiftRight, 12288, 10), Ok(12));
    assert_eq!(vm.apply_operator(&Token::Mult, 12, 10), Ok(120));
    assert_eq!(vm.apply_operator(&Token::Modulo, 12, 10), Ok(2));
    assert_eq!(vm.apply_operator(&Token::Bang, 0, 10), Ok(-11));
    assert_eq!(vm.apply_operator(&Token::TwosComplement, 0, 10), Ok(-10));
    assert_eq!(vm.apply_operator(&Token::Bang, 99, 10), Ok(-11));
}

#[test]
fn tokens_that_are_no_operator_have_no_result() {
    let vm = VM::new();
    for token in [
        Token::LeftParen,
        Token::RightParen,
        Token::Eof,
        Token::KeywordNotFound,
        Token::Error(0, 1, "?".to_string()),
        n(1),
    ] {
        assert_eq!(vm.apply_operator(&token, 1, 2), Err(CalcError::EvaluationDefect));
    }
}

#[test]
fn sums_and_products_wrap() {
    assert_eq!(evaluate("9223372036854775807 + 1"), Ok(i64::MIN));
    assert_eq!(evaluate("0x8000000000000000 - 1"), Ok(i64::MAX));
    assert_eq!(evaluate("0x4000000000000000 * 4"), Ok(0));
    assert_eq!(evaluate("0x4000000000000001 * 4"), Ok(4));
    assert_eq!(evaluate("3037000500 * 3037000500"), Ok(3037000500_i64.wrapping_mul(3037000500)));
    assert_eq!(evaluate("~0x8000000000000000"), Ok(i64::MIN));
    assert_eq!(evaluate("(1 - 1) - 0x8000000000000000"), Ok(i64::MIN));
}

#[test]
fn shift_counts_are_taken_modulo_64() {
    assert_eq!(evaluate("1 << 63"), Ok(i64::MIN));
    assert_eq!(evaluate("1 << 64"), Ok(1));
    assert_eq!(evaluate("1 << 65"), Ok(2));
    assert_eq!(evaluate("256 >> 68"), Ok(16));
    assert_eq!(evaluate("1 << ~1"), Ok(i64::MIN));
    assert_eq!(evaluate("3 << 62"), Ok(-4611686018427387904));
}

#[test]
fn right_shift_keeps_the_sign() {
    assert_eq!(evaluate("~16 >> 2"), Ok(-4));
    assert_eq!(evaluate("~1 >> 40"), Ok(-1));
    assert_eq!(evaluate("0x8000000000000000 >> 63"), Ok(-1));
}

#[test]
fn remainder_has_the_sign_of_the_dividend() {
    assert_eq!(evaluate("7 % 3"), Ok(1));
    assert_eq!(evaluate("~7 % 3"), Ok(-1));
    assert_eq!(evaluate("7 % ~3"), Ok(1));
    assert_eq!(evaluate("~7 % ~3"), Ok(-1));
    assert_eq!(evaluate("~6 mod 3"), Ok(0));
    assert_eq!(evaluate("0x8000000000000000 % ~1"), Ok(0));
    assert_eq!(evaluate("0x8000000000000000 % 10"), Ok(-8));
    assert_eq!(evaluate("5 % 0x8000000000000000"), Ok(5));
}

#[test]
fn remainder_by_zero() {
    assert_eq!(evaluate("1 % 0"), Err(CalcError::DivisionByZero));
    assert_eq!(evaluate("1 mod (2 - 2)"), Err(CalcError::DivisionByZero));
    assert_eq!(evaluate("0b0 % 0x0"), Err(CalcError::DivisionByZero));
    assert_eq!(
        VM::new().apply_operator(&Token::Modulo, 9, 0),
        Err(CalcError::DivisionByZero)
    );
}

#[test]
fn bitwise_operators() {
    assert_eq!(evaluate("12 or 3"), Ok(15));
    assert_eq!(evaluate("12 | 3"), Ok(15));
    assert_eq!(evaluate("12 nor 3"), Ok(-16));
    assert_eq!(evaluate("12 xor 10"), Ok(6));
    assert_eq!(evaluate("12 ^ 10"), Ok(6));
    assert_eq!(evaluate("12 and 10"), Ok(8));
    assert_eq!(evaluate("12 & 10"), Ok(8));
    assert_eq!(evaluate("1 or 2 nor 3 xor 4 and 5 << 6 + 7 * 8"), Ok(-3));
}

#[test]
fn a_minus_in_front_of_an_operand_leaves_the_operator_without_operand() {
    assert_eq!(evaluate("-1"), Err(CalcError::EvaluationDefect));
    assert_eq!(evaluate("2 * -1"), Err(CalcError::EvaluationDefect));
    assert_eq!(evaluate("4 - -2"), Err(CalcError::EvaluationDefect));
    assert_eq!(evaluate("-(4 - 2)"), Err(CalcError::EvaluationDefect));
}

#[test]
fn the_stack_holds_the_value_alone() {
    let mut vm = VM::new();
    assert_eq!(vm.depth(), 0);
    assert_eq!(vm.run("(1 + 2) * (3 + 4) * (5 + 6)"), Ok(231));
    assert_eq!(vm.depth(), 1);
    assert_eq!(vm.run("1 +"), Err(CalcError::SyntaxError));
    assert_eq!(vm.depth(), 0);
    assert_eq!(vm.run("2 and 3"), Ok(2));
    assert_eq!(vm.depth(), 1);
    assert_eq!(vm.run("1 % 0"), Err(CalcError::DivisionByZero));
    assert_eq!(vm.depth(), 0);
    assert_eq!(vm.run("1 << 1"), Ok(2));
    assert_eq!(vm.run("1 << 1"), Ok(2));
    assert_eq!(vm.depth(), 1);
}

#[test]
fn postfix_sequences() {
    let mut vm = VM::new();
    assert_eq!(vm.evaluate(&vec![n(5), n(3), Token::Minus]), Ok(2));
    assert_eq!(vm.depth(), 1);
    assert_eq!(vm.evaluate(&vec![n(3), n(5), Token::Minus]), Ok(-2));
    assert_eq!(
        vm.evaluate(&vec![n(1), n(2), n(3), Token::Mult, Token::Plus]),
        Ok(7)
    );
    assert_eq!(vm.evaluate(&vec![n(9), Token::Bang, Token::TwosComplement]), Ok(10));
    assert_eq!(vm.evaluate(&vec![Token::HexNumber(1), Token::BinaryNumber(2), Token::Or]), Ok(3));
    assert_eq!(vm.evaluate(&vec![n(42)]), Ok(42));
}

#[test]
fn defective_postfix_sequences() {
    let mut vm = VM::new();
    for postfix in [
        vec![],
        vec![Token::Plus],
        vec![n(1), Token::Plus],
        vec![Token::Bang],
        vec![n(1), n(2)],
        vec![n(1), n(2), Token::Plus, Token::Plus],
        vec![n(1), Token::LeftParen],
        vec![n(1), Token::RightParen],
        vec![n(1), Token::Eof],
        vec![n(1), Token::KeywordNotFound],
        vec![n(1), Token::Error(0, 1, "?".to_string())],
        vec![n(0), Token::Modulo],
    ] {
        assert_eq!(vm.evaluate(&postfix), Err(CalcError::EvaluationDefect), "{:?}", postfix);
        assert_eq!(vm.depth(), 0);
    }
    assert_eq!(
        vm.evaluate(&vec![n(1), n(0), Token::Modulo, Token::Plus]),
        Err(CalcError::DivisionByZero)
    );
}

#[test]
fn accepted_expressions_evaluate() {
    for input in [
        "1",
        "((1))",
        "1 + 2",
        "!1 + ~2 * (3 - 4) % 5 << 6 >> 7 and 8 or 9 nor 10 xor 11",
        "(1 + (2 * (3 - (4 & (5 | (6 ^ (7 << (8 >> 9))))))))",
        "~!~!1",
        "0xffffffffffffffff * 0xffffffffffffffff",
    ] {
        let mut vm = VM::new();
        assert!(vm.run(input).is_ok(), "{:?}", input);
        assert_eq!(vm.depth(), 1);
    }
}
