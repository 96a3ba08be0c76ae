use bitcalc::parser::Parser;
use bitcalc::token::Token;

#[test]
fn test_mpsc() {
    let mut p = Parser::new("-1");
    let result = p.parse();
    assert_eq!(Ok(vec![Token::DecimalNumber(1), Token::Minus]), result);
}

#[test]
fn parser_test_nested() {
    let mut p = Parser::new("1 and 2 + 3 and 4 + 5");
    let actual = p.parse();
    println!("actual: {:?}", &actual);
}
