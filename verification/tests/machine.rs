//! The ciphertext-aware machine, run over every operator family with
//! encrypted, plaintext and mixed operands.

use zvm::value::{Value, VmError};
use zvm::vm::{deserialize, serialize, OpCode, VM};

#[test]
fn test_add_i8_i16_promotion() {
    let a = 20u8;
    let b = 5u16;

    let enc_a = Value::Euint8(a);
    let enc_b = Value::Euint16(b);

    let mut vm = VM::new();
    let bytecode = [OpCode::Push(enc_a), OpCode::Push(enc_b), OpCode::Add];
    vm.execute(&bytecode).unwrap();

    let encrypted_res = vm.pop().unwrap();
    let clear_res: u16 = encrypted_res.as_eint16().unwrap();
    assert_eq!(clear_res, 25);
}

#[test]
fn test_add() {
    let mut vm = VM::new();
    let bytecode = [
        OpCode::Push(Value::Euint8(1)),
        OpCode::Push(Value::Euint8(2)),
        OpCode::Add,
    ];
    vm.execute(&bytecode).unwrap();
    let clear_res: u8 = vm.pop().unwrap().as_eint8().unwrap();
    assert_eq!(clear_res, 3);
}

#[test]
fn test_subtract() {
    let mut vm = VM::new();
    let bytecode = [
        OpCode::Push(Value::Euint8(20)),
        OpCode::Push(Value::Euint8(5)),
        OpCode::Sub,
    ];
    vm.execute(&bytecode).unwrap();
    let clear_res: u8 = vm.pop().unwrap().as_eint8().unwrap();
    assert_eq!(clear_res, 15);
}

#[test]
fn test_multiply() {
    let mut vm = VM::new();
    let bytecode = [
        OpCode::Push(Value::Euint8(2)),
        OpCode::Push(Value::Euint8(3)),
        OpCode::Mul,
    ];
    vm.execute(&bytecode).unwrap();
    let clear_res: u8 = vm.pop().unwrap().as_eint8().unwrap();
    assert_eq!(clear_res, 6);
}

#[test]
fn test_divide() {
    let mut vm = VM::new();
    let bytecode = [
        OpCode::Push(Value::Euint8(6)),
        OpCode::Push(Value::Euint8(2)),
        OpCode::Div,
    ];
    vm.execute(&bytecode).unwrap();
    let clear_res: u8 = vm.pop().unwrap().as_eint8().unwrap();
    assert_eq!(clear_res, 3);
}

#[test]
fn test_bitwise_and() {
    let mut vm = VM::new();
    let bytecode = [
        OpCode::Push(Value::Euint8(5)),
        OpCode::Push(Value::Euint8(3)),
        OpCode::And,
    ];
    vm.execute(&bytecode).unwrap();
    let clear_res: u8 = vm.pop().unwrap().as_eint8().unwrap();
    assert_eq!(clear_res, 1);
}

#[test]
fn test_bitwise_or() {
    let mut vm = VM::new();
    let bytecode = [
        OpCode::Push(Value::Euint8(5)),
        OpCode::Push(Value::Euint8(3)),
        OpCode::Or,
    ];
    vm.execute(&bytecode).unwrap();
    let clear_res: u8 = vm.pop().unwrap().as_eint8().unwrap();
    assert_eq!(clear_res, 7);
}

#[test]
fn test_bitwise_xor() {
    let mut vm = VM::new();
    let bytecode = [
        OpCode::Push(Value::Euint8(5)),
        OpCode::Push(Value::Euint8(3)),
        OpCode::Xor,
    ];
    vm.execute(&bytecode).unwrap();
    let clear_res: u8 = vm.pop().unwrap().as_eint8().unwrap();
    assert_eq!(clear_res, 6);
}

#[test]
fn test_bitwise_shift_left() {
    let mut vm = VM::new();
    let bytecode = [
        OpCode::Push(Value::Euint8(1)),
        OpCode::Push(Value::Euint8(1)),
        OpCode::ShiftLeft,
    ];
    vm.execute(&bytecode).unwrap();
    let clear_res: u8 = vm.pop().unwrap().as_eint8().unwrap();
    assert_eq!(clear_res, 2);
}

#[test]
fn test_bitwise_shift_right() {
    let mut vm = VM::new();
    let bytecode = [
        OpCode::Push(Value::Euint8(2)),
        OpCode::Push(Value::Euint8(1)),
        OpCode::ShiftRight,
    ];
    vm.execute(&bytecode).unwrap();
    let clear_res: u8 = vm.pop().unwrap().as_eint8().unwrap();
    assert_eq!(clear_res, 1);
}

#[test]
fn test_eq() {
    let mut vm = VM::new();
    let bytecode = [
        OpCode::Push(Value::Euint8(2)),
        OpCode::Push(Value::Euint8(2)),
        OpCode::Eq,
    ];
    vm.execute(&bytecode).unwrap();
    let clear_res = vm.pop().unwrap().as_ebool().unwrap();
    assert!(clear_res);
}

#[test]
fn test_neq() {
    let mut vm = VM::new();
    let bytecode = [
        OpCode::Push(Value::Euint8(2)),
        OpCode::Push(Value::Euint8(3)),
        OpCode::Neq,
    ];
    vm.execute(&bytecode).unwrap();
    let clear_res = vm.pop().unwrap().as_ebool().unwrap();
    assert!(clear_res);
}

#[test]
fn test_lt() {
    let mut vm = VM::new();
    let bytecode = [
        OpCode::Push(Value::Euint8(1)),
        OpCode::Push(Value::Euint8(2)),
        OpCode::Lt,
    ];
    vm.execute(&bytecode).unwrap();
    let clear_res = vm.pop().unwrap().as_ebool().unwrap();
    assert!(clear_res);
}

#[test]
fn test_gt() {
    let mut vm = VM::new();
    let bytecode = [
        OpCode::Push(Value::Euint8(2)),
        OpCode::Push(Value::Euint8(1)),
        OpCode::Gt,
    ];
    vm.execute(&bytecode).unwrap();
    let clear_res = vm.pop().unwrap().as_ebool().unwrap();
    assert!(clear_res);
}

#[test]
fn test_gte() {
    let mut vm = VM::new();
    let bytecode = [
        OpCode::Push(Value::Euint8(2)),
        OpCode::Push(Value::Euint8(2)),
        OpCode::Gte,
    ];
    vm.execute(&bytecode).unwrap();
    let clear_res = vm.pop().unwrap().as_ebool().unwrap();
    assert!(clear_res);
}

#[test]
fn test_lte() {
    let mut vm = VM::new();
    let bytecode = [
        OpCode::Push(Value::Euint8(2)),
        OpCode::Push(Value::Euint8(2)),
        OpCode::Lte,
    ];
    vm.execute(&bytecode).unwrap();
    let clear_res = vm.pop().unwrap().as_ebool().unwrap();
    assert!(clear_res);
}

#[test]
fn test_min() {
    let mut vm = VM::new();
    let bytecode = [
        OpCode::Push(Value::Euint8(4)),
        OpCode::Push(Value::Euint8(5)),
        OpCode::Min,
    ];
    vm.execute(&bytecode).unwrap();
    let clear_res: u8 = vm.pop().unwrap().as_eint8().unwrap();
    assert_eq!(clear_res, 4);
}

#[test]
fn test_max() {
    let mut vm = VM::new();
    let bytecode = [
        OpCode::Push(Value::Euint8(4)),
        OpCode::Push(Value::Euint8(5)),
        OpCode::Max,
    ];
    vm.execute(&bytecode).unwrap();
    let clear_res: u8 = vm.pop().unwrap().as_eint8().unwrap();
    assert_eq!(clear_res, 5);
}

#[test]
fn test_inc() {
    let mut vm = VM::new();
    let bytecode = [OpCode::Push(Value::Euint8(4)), OpCode::Inc];
    vm.execute(&bytecode).unwrap();
    let clear_res: u8 = vm.pop().unwrap().as_eint8().unwrap();
    assert_eq!(clear_res, 5);
}

#[test]
fn test_dec() {
    let mut vm = VM::new();
    let bytecode = [OpCode::Push(Value::Euint8(4)), OpCode::Dec];
    vm.execute(&bytecode).unwrap();
    let clear_res: u8 = vm.pop().unwrap().as_eint8().unwrap();
    assert_eq!(clear_res, 3);
}

#[test]
fn test_load() {
    let mut vm = VM::new();
    let bytecode = [
        OpCode::Push(Value::Euint8(5)),
        OpCode::Store(0),
        OpCode::Load(0),
    ];
    vm.execute(&bytecode).unwrap();
    let clear_res: u8 = vm.pop().unwrap().as_eint8().unwrap();
    assert_eq!(clear_res, 5);
}

#[test]
fn test_store() {
    let mut vm = VM::new();
    let bytecode = [
        OpCode::Push(Value::Euint8(5)),
        OpCode::Store(0),
        OpCode::Push(Value::Euint8(6)),
        OpCode::Store(1),
        OpCode::Load(0),
        OpCode::Load(1),
    ];
    vm.execute(&bytecode).unwrap();
    let clear_res: u8 = vm.pop().unwrap().as_eint8().unwrap();
    assert_eq!(clear_res, 6);
}

#[test]
fn test_swap() {
    let mut vm = VM::new();
    let bytecode = [
        OpCode::Push(Value::Euint8(5)),
        OpCode::Push(Value::Euint8(6)),
        OpCode::Swap,
    ];
    vm.execute(&bytecode).unwrap();
    let clear_res: u8 = vm.pop().unwrap().as_eint8().unwrap();
    assert_eq!(clear_res, 5);
}

#[test]
fn test_neg() {
    let mut vm = VM::new();
    let bytecode = [OpCode::Push(Value::Euint8(5)), OpCode::Neg];
    vm.execute(&bytecode).unwrap();
    let clear_res: u8 = vm.pop().unwrap().as_eint8().unwrap();
    assert_eq!(clear_res, -5i8 as u8);
}

#[test]
fn test_mux() {
    let mut vm = VM::new();
    let bytecode = [
        OpCode::Push(Value::Ebool(true)),
        OpCode::Push(Value::Euint8(6)),
        OpCode::Push(Value::Euint8(1)),
        OpCode::Mux,
    ];
    vm.execute(&bytecode).unwrap();
    let clear_res: u8 = vm.pop().unwrap().as_eint8().unwrap();
    assert_eq!(clear_res, 6);
}

#[test]
fn test_add_ciphertext_to_plaintext() {
    let mut vm = VM::new();
    let bytecode = [
        OpCode::Push(Value::Euint8(5)),
        OpCode::Push(Value::Uint8(6)),
        OpCode::Add,
    ];
    vm.execute(&bytecode).unwrap();
    let clear_res: u8 = vm.pop().unwrap().as_eint8().unwrap();
    assert_eq!(clear_res, 11);
}

#[test]
fn test_subtract_ciphertext_from_plaintext() {
    let mut vm = VM::new();
    let bytecode = [
        OpCode::Push(Value::Euint8(6)),
        OpCode::Push(Value::Uint8(4)),
        OpCode::Sub,
    ];
    vm.execute(&bytecode).unwrap();
    let clear_res: u8 = vm.pop().unwrap().as_eint8().unwrap();
    assert_eq!(clear_res, 2);
}

#[test]
fn test_multiply_ciphertext_with_plaintext() {
    let mut vm = VM::new();
    let bytecode = [
        OpCode::Push(Value::Euint8(6)),
        OpCode::Push(Value::Uint8(4)),
        OpCode::Mul,
    ];
    vm.execute(&bytecode).unwrap();
    let clear_res: u8 = vm.pop().unwrap().as_eint8().unwrap();
    assert_eq!(clear_res, 24);
}

#[test]
fn test_divide_ciphertext_by_plaintext() {
    let mut vm = VM::new();
    let bytecode = [
        OpCode::Push(Value::Euint8(6)),
        OpCode::Push(Value::Uint8(3)),
        OpCode::Div,
    ];
    vm.execute(&bytecode).unwrap();
    let clear_res: u8 = vm.pop().unwrap().as_eint8().unwrap();
    assert_eq!(clear_res, 2);
}

#[test]
fn test_and_ciphertext_with_plaintext() {
    let mut vm = VM::new();
    let bytecode = [
        OpCode::Push(Value::Euint8(5)),
        OpCode::Push(Value::Uint8(3)),
        OpCode::And,
    ];
    vm.execute(&bytecode).unwrap();
    let clear_res: u8 = vm.pop().unwrap().as_eint8().unwrap();
    assert_eq!(clear_res, 1);
}

#[test]
fn test_and_plaintext_with_cipher_text() {
    let mut vm = VM::new();
    let bytecode = [
        OpCode::Push(Value::Uint8(5)),
        OpCode::Push(Value::Euint8(3)),
        OpCode::And,
    ];
    vm.execute(&bytecode).unwrap();
    let clear_res: u8 = vm.pop().unwrap().as_eint8().unwrap();
    assert_eq!(clear_res, 1);
}

#[test]
fn test_or_ciphertext_with_plaintext() {
    let mut vm = VM::new();
    let bytecode = [
        OpCode::Push(Value::Euint8(5)),
        OpCode::Push(Value::Uint8(3)),
        OpCode::Or,
    ];
    vm.execute(&bytecode).unwrap();
    let clear_res: u8 = vm.pop().unwrap().as_eint8().unwrap();
    assert_eq!(clear_res, 7);
}

#[test]
fn test_or_plaintext_with_ciphertext() {
    let mut vm = VM::new();
    let bytecode = [
        OpCode::Push(Value::Uint8(5)),
        OpCode::Push(Value::Euint8(3)),
        OpCode::Or,
    ];
    vm.execute(&bytecode).unwrap();
    let clear_res: u8 = vm.pop().unwrap().as_eint8().unwrap();
    assert_eq!(clear_res, 7);
}

#[test]
fn test_xor_ciphertext_with_plaintext() {
    let mut vm = VM::new();
    let bytecode = [
        OpCode::Push(Value::Euint8(5)),
        OpCode::Push(Value::Uint8(3)),
        OpCode::Xor,
    ];
    vm.execute(&bytecode).unwrap();
    let clear_res: u8 = vm.pop().unwrap().as_eint8().unwrap();
    assert_eq!(clear_res, 6);
}

#[test]
fn test_xor_plaintext_with_ciphertext() {
    let mut vm = VM::new();
    let bytecode = [
        OpCode::Push(Value::Uint8(5)),
        OpCode::Push(Value::Euint8(3)),
        OpCode::Xor,
    ];
    vm.execute(&bytecode).unwrap();
    let clear_res: u8 = vm.pop().unwrap().as_eint8().unwrap();
    assert_eq!(clear_res, 6);
}

#[test]
fn test_add_plaintext_to_ciphertext() {
    let mut vm = VM::new();
    let bytecode = [
        OpCode::Push(Value::Uint8(5)),
        OpCode::Push(Value::Euint8(6)),
        OpCode::Add,
    ];
    vm.execute(&bytecode).unwrap();
    let clear_res: u8 = vm.pop().unwrap().as_eint8().unwrap();
    assert_eq!(clear_res, 11);
}

#[test]
fn test_subtract_plaintext_from_ciphertext() {
    let mut vm = VM::new();
    let bytecode = [
        OpCode::Push(Value::Uint8(6)),
        OpCode::Push(Value::Euint8(4)),
        OpCode::Sub,
    ];
    vm.execute(&bytecode).unwrap();
    let clear_res: u8 = vm.pop().unwrap().as_eint8().unwrap();
    assert_eq!(clear_res, 2);
}

#[test]
fn test_multiply_plaintext_with_ciphertext() {
    let mut vm = VM::new();
    let bytecode = [
        OpCode::Push(Value::Uint8(6)),
        OpCode::Push(Value::Euint8(4)),
        OpCode::Mul,
    ];
    vm.execute(&bytecode).unwrap();
    let clear_res: u8 = vm.pop().unwrap().as_eint8().unwrap();
    assert_eq!(clear_res, 24);
}

#[test]
#[should_panic]
fn test_divide_plaintext_by_ciphertext() {
    let mut vm = VM::new();
    let bytecode = [
        OpCode::Push(Value::Uint8(6)),
        OpCode::Push(Value::Euint8(3)),
        OpCode::Div,
    ];
    vm.execute(&bytecode).unwrap();
    let clear_res: u8 = vm.pop().unwrap().as_eint8().unwrap();
    assert_eq!(clear_res, 2);
}

#[test]
#[should_panic]
fn test_min_ciphertext_with_plaintext() {
    let mut vm = VM::new();
    let bytecode = [
        OpCode::Push(Value::Uint8(4)),
        OpCode::Push(Value::Euint8(5)),
        OpCode::Min,
    ];
    vm.execute(&bytecode).unwrap();
    let clear_res: u8 = vm.pop().unwrap().as_eint8().unwrap();
    assert_eq!(clear_res, 4);
}

#[test]
fn test_program_serialization_deserialization() {
    let original_program = [
        OpCode::Add,
        OpCode::Sub,
        OpCode::Mul,
        OpCode::Div,
        OpCode::And,
        OpCode::Or,
        OpCode::Xor,
        OpCode::ShiftRight,
        OpCode::ShiftLeft,
        OpCode::Eq,
        OpCode::Neq,
        OpCode::Lt,
        OpCode::Gt,
        OpCode::Gte,
        OpCode::Min,
        OpCode::Max,
        OpCode::Mux,
        OpCode::Push(Value::Ebool(true)),
        OpCode::Push(Value::Euint8(8)),
        OpCode::Push(Value::Euint16(16)),
        OpCode::Push(Value::Euint32(32)),
        OpCode::Push(Value::Euint64(64)),
        OpCode::Push(Value::Euint128(128)),
        OpCode::Push(Value::Bool(true)),
        OpCode::Push(Value::Uint8(8)),
        OpCode::Push(Value::Uint16(16)),
        OpCode::Push(Value::Uint32(32)),
        OpCode::Push(Value::Uint64(64)),
        OpCode::Push(Value::Uint128(128)),
        OpCode::Dup,
        OpCode::NoOp,
        OpCode::Inc,
        OpCode::Dec,
        OpCode::Load(77),
        OpCode::Store(88),
        OpCode::Swap,
    ];

    println!("Original program: {:?}", original_program);

    let serialized = serialize(&original_program);
    let deserialized_program = deserialize(&serialized).unwrap();

    assert_eq!(deserialized_program.len(), original_program.len());
    for (i, opcode) in deserialized_program.iter().enumerate() {
        assert_eq!(opcode.to_bytes(), original_program[i].to_bytes());
    }
}

#[test]
fn test_program_serialization_deserialization_types() {
    let original_program = [
        OpCode::Push(Value::Euint8(8)),
        OpCode::Push(Value::Euint16(16)),
        OpCode::Push(Value::Euint32(32)),
        OpCode::Push(Value::Euint64(64)),
        OpCode::Push(Value::Euint128(128)),
    ];

    let serialized = serialize(&original_program);
    let deserialized_program = deserialize(&serialized).unwrap();

    assert_eq!(deserialized_program.len(), original_program.len());
    for (i, opcode) in deserialized_program.iter().enumerate() {
        assert_eq!(opcode.to_bytes(), original_program[i].to_bytes());
    }
}

#[test]
fn test_store_grows_memory_with_placeholder() {
    let mut vm = VM::new();
    let bytecode = [OpCode::Push(Value::Euint8(9)), OpCode::Store(5)];
    vm.execute(&bytecode).unwrap();
    // slots 0 through 4 hold the placeholder, slot 5 the stored value
    for addr in 0..5 {
        let mut probe = VM::new();
        probe.execute(&[OpCode::Push(Value::Euint8(9)), OpCode::Store(5), OpCode::Load(addr)])
            .unwrap();
        assert_eq!(probe.pop().unwrap().as_ebool().unwrap(), false);
    }
    vm.execute(&[OpCode::Load(5)]).unwrap();
    assert_eq!(vm.pop().unwrap().as_eint8().unwrap(), 9);
}

#[test]
fn test_load_out_of_range_is_fatal() {
    let mut vm = VM::new();
    assert_eq!(
        vm.execute(&[OpCode::Load(0)]),
        Err(VmError::MemoryIndexOutOfRange)
    );
    let mut vm2 = VM::new();
    assert_eq!(
        vm2.execute(&[OpCode::Push(Value::Euint8(1)), OpCode::Store(-1)]),
        Err(VmError::MemoryIndexOutOfRange)
    );
}

#[test]
fn test_stack_underflow_is_fatal() {
    let mut vm = VM::new();
    assert_eq!(vm.execute(&[OpCode::Add]), Err(VmError::StackUnderflow));
    let mut vm2 = VM::new();
    assert_eq!(vm2.execute(&[OpCode::Dup]), Err(VmError::StackUnderflow));
    let mut vm3 = VM::new();
    assert_eq!(
        vm3.execute(&[OpCode::Push(Value::Uint8(1)), OpCode::Mux]),
        Err(VmError::StackUnderflow)
    );
}

#[test]
fn test_division_rejections() {
    // a plaintext dividend with a ciphertext divisor is never allowed
    let mut vm = VM::new();
    assert_eq!(
        vm.execute(&[
            OpCode::Push(Value::Uint8(6)),
            OpCode::Push(Value::Euint8(3)),
            OpCode::Div
        ]),
        Err(VmError::UnsupportedOperands)
    );
    // a publicly zero divisor is an error
    let mut vm2 = VM::new();
    assert_eq!(
        vm2.execute(&[
            OpCode::Push(Value::Uint8(6)),
            OpCode::Push(Value::Uint8(0)),
            OpCode::Div
        ]),
        Err(VmError::DivisionByZero)
    );
    // an encrypted divisor holding zero yields the all-ones value
    let mut vm3 = VM::new();
    vm3.execute(&[
        OpCode::Push(Value::Euint8(6)),
        OpCode::Push(Value::Euint8(0)),
        OpCode::Div,
    ])
    .unwrap();
    assert_eq!(vm3.pop().unwrap().as_eint8().unwrap(), 255);
}

#[test]
fn test_mux_selects_false_branch() {
    let mut vm = VM::new();
    let bytecode = [
        OpCode::Push(Value::Ebool(false)),
        OpCode::Push(Value::Euint16(600)),
        OpCode::Push(Value::Euint16(100)),
        OpCode::Mux,
    ];
    vm.execute(&bytecode).unwrap();
    assert_eq!(vm.pop().unwrap().as_eint16().unwrap(), 100);
}

#[test]
fn test_mux_rejects_plaintext_condition() {
    let mut vm = VM::new();
    assert_eq!(
        vm.execute(&[
            OpCode::Push(Value::Bool(true)),
            OpCode::Push(Value::Euint8(1)),
            OpCode::Push(Value::Euint8(2)),
            OpCode::Mux
        ]),
        Err(VmError::UnsupportedOperands)
    );
}

#[test]
fn test_state_persists_across_execute_calls() {
    let mut vm = VM::new();
    vm.execute(&[OpCode::Push(Value::Uint8(7)), OpCode::Store(0)]).unwrap();
    vm.execute(&[OpCode::Load(0)]).unwrap();
    assert_eq!(vm.pop().unwrap(), Value::Uint8(7));
}
