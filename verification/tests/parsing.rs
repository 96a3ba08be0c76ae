use bitcalc::error::CalcError;
use bitcalc::parser::{reject, Parser};
use bitcalc::token::Token;

fn parse(input: &str) -> Result<Vec<Token>, CalcError> {
    Parser::new(input).parse()
}

fn n(value: i64) -> Token {
    Token::DecimalNumber(value)
}

#[test]
fn multiplication_binds_tighter_than_addition() {
    assert_eq!(parse("1 + 2 * 3"), Ok(vec![n(1), n(2), n(3), Token::Mult, Token::Plus]));
    assert_eq!(parse("1 * 2 + 3"), Ok(vec![n(1), n(2), Token::Mult, n(3), Token::Plus]));
}

#[test]
fn operators_group_from_the_left() {
    assert_eq!(
        parse("1 and 2 and 3 and 4 + 5"),
        Ok(vec![
            n(1),
            n(2),
            Token::And,
            n(3),
            Token::And,
            n(4),
            n(5),
            Token::Plus,
            Token::And
        ])
    );
    assert_eq!(parse("5 - 3 - 1"), Ok(vec![n(5), n(3), Token::Minus, n(1), Token::Minus]));
}

#[test]
fn the_whole_ladder_of_binding_powers() {
    assert_eq!(
        parse("1 or 2 nor 3 xor 4 and 5 << 6 + 7 * 8"),
        Ok(vec![
            n(1),
            n(2),
            n(3),
            n(4),
            n(5),
            n(6),
            n(7),
            n(8),
            Token::Mult,
            Token::Plus,
            Token::ShiftLeft,
            Token::And,
            Token::Xor,
            Token::Nor,
            Token::Or
        ])
    );
    assert_eq!(
        parse("1 % 2 - 3 >> 4 & 5 ^ 6 nor 7 | 8"),
        Ok(vec![
            n(1),
            n(2),
            Token::Modulo,
            n(3),
            Token::Minus,
            n(4),
            Token::ShiftRight,
            n(5),
            Token::And,
            n(6),
            Token::Xor,
            n(7),
            Token::Nor,
            n(8),
            Token::Or
        ])
    );
}

#[test]
fn binding_power_table() {
    let parser = Parser::new("");
    assert_eq!(parser.infix_binding_power(&Token::Mult), Some((13, 14)));
    assert_eq!(parser.infix_binding_power(&Token::Modulo), Some((13, 14)));
    assert_eq!(parser.infix_binding_power(&Token::Plus), Some((11, 12)));
    assert_eq!(parser.infix_binding_power(&Token::Minus), Some((11, 12)));
    assert_eq!(parser.infix_binding_power(&Token::ShiftRight), Some((9, 10)));
    assert_eq!(parser.infix_binding_power(&Token::ShiftLeft), Some((9, 10)));
    assert_eq!(parser.infix_binding_power(&Token::And), Some((7, 8)));
    assert_eq!(parser.infix_binding_power(&Token::Xor), Some((5, 6)));
    assert_eq!(parser.infix_binding_power(&Token::Nor), Some((3, 4)));
    assert_eq!(parser.infix_binding_power(&Token::Or), Some((1, 2)));
    assert_eq!(parser.infix_binding_power(&Token::Bang), None);
    assert_eq!(parser.infix_binding_power(&Token::LeftParen), None);
    assert_eq!(parser.infix_binding_power(&n(1)), None);
    assert_eq!(parser.prefix_binding_power(&Token::Minus), Some(255));
    assert_eq!(parser.prefix_binding_power(&Token::Bang), Some(255));
    assert_eq!(parser.prefix_binding_power(&Token::TwosComplement), Some(255));
    assert_eq!(parser.prefix_binding_power(&Token::Plus), None);
}

#[test]
fn parentheses_override_binding_powers() {
    assert_eq!(
        parse("(1 + 1) << 5"),
        Ok(vec![n(1), n(1), Token::Plus, n(5), Token::ShiftLeft])
    );
    assert_eq!(
        parse("2 * (3 + 4)"),
        Ok(vec![n(2), n(3), n(4), Token::Plus, Token::Mult])
    );
    assert_eq!(parse("((7))"), Ok(vec![n(7)]));
}

#[test]
fn a_prefix_operator_takes_one_operand() {
    assert_eq!(parse("!5 + 1"), Ok(vec![n(5), Token::Bang, n(1), Token::Plus]));
    assert_eq!(parse("~1 * 2"), Ok(vec![n(1), Token::TwosComplement, n(2), Token::Mult]));
    assert_eq!(
        parse("!(1 + 2)"),
        Ok(vec![n(1), n(2), Token::Plus, Token::Bang])
    );
    assert_eq!(parse("~!~3"), Ok(vec![
        n(3),
        Token::TwosComplement,
        Token::Bang,
        Token::TwosComplement
    ]));
    assert_eq!(parse("4 - -2"), Ok(vec![n(4), n(2), Token::Minus, Token::Minus]));
}

#[test]
fn literals_keep_their_radix() {
    assert_eq!(
        parse("0b11 ^ 0x1F ^ 9"),
        Ok(vec![
            Token::BinaryNumber(3),
            Token::HexNumber(31),
            Token::Xor,
            Token::DecimalNumber(9),
            Token::Xor
        ])
    );
}

#[test]
fn parsing_twice_gives_the_same() {
    let mut parser = Parser::new("1 + 2");
    let first = parser.parse();
    assert_eq!(first, Ok(vec![n(1), n(2), Token::Plus]));
    assert_eq!(parser.parse(), first);
}

#[test]
fn malformed_structure_is_a_syntax_error() {
    for input in [
        "",
        "   ",
        "(1 + 1",
        "1 +",
        "1 + + 2",
        "* 2",
        "1 2",
        "1 ! 2",
        "1 ~",
        "()",
        ")",
        "1 )",
        "(1))",
        "1 (2)",
        "(1 + 2) 3",
        "1 >2",
        "!",
        "(",
    ] {
        assert_eq!(parse(input), Err(CalcError::SyntaxError), "{:?}", input);
    }
}

#[test]
fn an_error_token_is_a_lexical_error() {
    assert_eq!(parse("$"), Err(CalcError::LexicalError(0, 1, "$".to_string())));
    assert_eq!(parse("1 + 0b12"), Err(CalcError::LexicalError(4, 3, "0b1".to_string())));
    assert_eq!(parse("1 ? 2"), Err(CalcError::LexicalError(2, 1, "?".to_string())));
    assert_eq!(parse("(1 + 07)"), Err(CalcError::LexicalError(5, 2, "07".to_string())));
    assert_eq!(parse("!#"), Err(CalcError::LexicalError(1, 1, "#".to_string())));
}

#[test]
fn an_unknown_word_is_an_unknown_identifier() {
    assert_eq!(parse("x"), Err(CalcError::UnknownIdentifier));
    assert_eq!(parse("1 plus 2"), Err(CalcError::UnknownIdentifier));
    assert_eq!(parse("(1 and two)"), Err(CalcError::UnknownIdentifier));
}

#[test]
fn the_first_failure_is_reported() {
    assert_eq!(parse("1 + + $"), Err(CalcError::SyntaxError));
    assert_eq!(parse("foo $"), Err(CalcError::UnknownIdentifier));
    assert_eq!(parse("$ foo"), Err(CalcError::LexicalError(0, 1, "$".to_string())));
}

#[test]
fn rejected_tokens() {
    assert_eq!(
        reject(Token::Error(3, 2, "0q".to_string())),
        CalcError::LexicalError(3, 2, "0q".to_string())
    );
    assert_eq!(reject(Token::KeywordNotFound), CalcError::UnknownIdentifier);
    assert_eq!(reject(Token::Eof), CalcError::SyntaxError);
    assert_eq!(reject(Token::Plus), CalcError::SyntaxError);
    assert_eq!(reject(n(1)), CalcError::SyntaxError);
}

#[test]
fn a_copy_of_an_error_equals_it() {
    for error in [
        CalcError::LexicalError(1, 2, "0z".to_string()),
        CalcError::UnknownIdentifier,
        CalcError::SyntaxError,
        CalcError::EvaluationDefect,
        CalcError::DivisionByZero,
    ] {
        assert_eq!(error.clone(), error);
    }
}
