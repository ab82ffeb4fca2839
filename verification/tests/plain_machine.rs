//! The earlier plaintext-only machine over signed integers.

use zvm::fvm::{OpCode, Value, VM};

#[test]
fn test_addition() {
    let mut vm = VM::new();
    vm.push(Value::Int8(5));
    vm.push(Value::Int8(3));
    vm.execute(vec![OpCode::Add]).unwrap();
    assert_eq!(vm.pop().unwrap(), Value::Int128(8));
}

#[test]
fn test_subtraction() {
    let mut vm = VM::new();
    vm.push(Value::Int8(10));
    vm.push(Value::Int8(4));
    vm.execute(vec![OpCode::Sub]).unwrap();
    assert_eq!(vm.pop().unwrap(), Value::Int128(6));
}

#[test]
fn test_multiplication() {
    let mut vm = VM::new();
    vm.push(Value::Int8(7));
    vm.push(Value::Int8(6));
    vm.execute(vec![OpCode::Mul]).unwrap();
    assert_eq!(vm.pop().unwrap(), Value::Int128(42));
}

#[test]
fn test_and() {
    let mut vm = VM::new();
    vm.push(Value::Int8(0b1010));
    vm.push(Value::Int8(0b1100));
    vm.execute(vec![OpCode::And]).unwrap();
    assert_eq!(vm.pop().unwrap(), Value::Int128(0b1000));
}

#[test]
fn test_or() {
    let mut vm = VM::new();
    vm.push(Value::Int8(0b1010));
    vm.push(Value::Int8(0b1100));
    vm.execute(vec![OpCode::Or]).unwrap();
    assert_eq!(vm.pop().unwrap(), Value::Int128(0b1110));
}

#[test]
fn test_xor() {
    let mut vm = VM::new();
    vm.push(Value::Int8(0b1010));
    vm.push(Value::Int8(0b1100));
    vm.execute(vec![OpCode::Xor]).unwrap();
    assert_eq!(vm.pop().unwrap(), Value::Int128(0b0110));
}

#[test]
fn fvm_test_eq() {
    let mut vm = VM::new();
    vm.push(Value::Int8(5));
    vm.push(Value::Int8(5));
    vm.execute(vec![OpCode::Eq]).unwrap();
    assert_eq!(vm.pop().unwrap(), Value::Int128(1));
}

#[test]
fn fvm_test_neq() {
    let mut vm = VM::new();
    vm.push(Value::Int8(5));
    vm.push(Value::Int8(3));
    vm.execute(vec![OpCode::Neq]).unwrap();
    assert_eq!(vm.pop().unwrap(), Value::Int128(1));
}

#[test]
fn fvm_test_lt() {
    let mut vm = VM::new();
    vm.push(Value::Int8(3));
    vm.push(Value::Int8(5));
    vm.execute(vec![OpCode::Lt]).unwrap();
    assert_eq!(vm.pop().unwrap(), Value::Int128(1));
}

#[test]
fn fvm_test_lte() {
    let mut vm = VM::new();
    vm.push(Value::Int8(5));
    vm.push(Value::Int8(5));
    vm.execute(vec![OpCode::Lte]).unwrap();
    assert_eq!(vm.pop().unwrap(), Value::Int128(1));
}

#[test]
fn fvm_test_gt() {
    let mut vm = VM::new();
    vm.push(Value::Int8(6));
    vm.push(Value::Int8(5));
    vm.execute(vec![OpCode::Gt]).unwrap();
    assert_eq!(vm.pop().unwrap(), Value::Int128(1));
}

#[test]
fn fvm_test_gte() {
    let mut vm = VM::new();
    vm.push(Value::Int8(5));
    vm.push(Value::Int8(5));
    vm.execute(vec![OpCode::Gte]).unwrap();
    assert_eq!(vm.pop().unwrap(), Value::Int128(1));
}

#[test]
fn fvm_test_min() {
    let mut vm = VM::new();
    vm.push(Value::Int8(10));
    vm.push(Value::Int8(20));
    vm.execute(vec![OpCode::Min]).unwrap();
    assert_eq!(vm.pop().unwrap(), Value::Int128(10));
}

#[test]
fn fvm_test_max() {
    let mut vm = VM::new();
    vm.push(Value::Int8(-5));
    vm.push(Value::Int8(15));
    vm.execute(vec![OpCode::Max]).unwrap();
    assert_eq!(vm.pop().unwrap(), Value::Int128(15));
}

#[test]
fn fvm_test_promotion_scenario() {
    let mut vm = VM::new();
    vm.push(Value::Int8(10));
    vm.push(Value::Int16(20));
    vm.execute(vec![OpCode::Add]).unwrap();
    assert_eq!(vm.pop().unwrap(), Value::Int128(30));
}

#[test]
fn fvm_test_underflow() {
    let mut vm = VM::new();
    vm.push(Value::Int8(1));
    assert!(vm.execute(vec![OpCode::Add]).is_err());
}
