use bitcalc::error::CalcError;
use bitcalc::vm::VM;

#[test]
fn test_1_plus_1() {
    let mut vm = VM::new();
    assert_eq!(Ok(1 + 1), vm.run("1+1"));
}

#[test]
fn vm_test_nested() {
    let mut vm = VM::new();
    assert_eq!(Ok(1 & (2 + 3) & (4 + 5)), vm.run("1 and 2 + 3 and 4 + 5"));
}

#[test]
fn vm_test_extended() {
    let mut vm = VM::new();
    assert_eq!(Ok(1 + 2 + 3 + 4 + 5), vm.run("1 + 2 + 3 + 4 + 5"));
}

#[test]
fn test_expression() {
    let mut vm = VM::new();
    assert_eq!(Ok(0b01 << 2), vm.run("0b01 << 2"));
}

#[test]
fn test_expression_2() {
    let mut vm = VM::new();
    assert_eq!(Ok(1 + 2 + 3 - 4), vm.run("1+2+3-4"));
}

#[test]
fn test_hex_expr() {
    let mut vm = VM::new();
    assert_eq!(Ok(0xff & 0xf1), vm.run("0xff&0xf1"));
}

#[test]
fn test_unary() {
    let mut vm = VM::new();
    assert_eq!(Ok(!1_i64), vm.run("!1"));
}

#[test]
fn test_twos_complement() {
    let mut vm = VM::new();
    assert_eq!(Ok(!(1_i64) + 1), vm.run("~1"));
}

#[test]
fn test_mult() {
    let mut vm = VM::new();
    assert_eq!(Ok(5 * 3), vm.run("5*3"));
}

#[test]
fn test_precedence() {
    let mut vm = VM::new();
    assert_eq!(Ok((5 & 5) + (15 & 7)), vm.run("(5 & 5)+(15 and 7)"));
}

#[test]
fn test_zeros() {
    let mut vm = VM::new();
    println!("vm runs on 0: {:?}", vm.run("0"));
    assert_eq!(Ok(0), vm.run("0"));
}

#[test]
fn test_negative() {
    let mut vm = VM::new();
    assert_eq!(Ok(1 - 2), vm.run("1-2"));
    // A leading `-` reaches the stack machine as the binary operator, which
    // finds one operand only.
    assert_eq!(Err(CalcError::EvaluationDefect), vm.run("-1*2"));
}
