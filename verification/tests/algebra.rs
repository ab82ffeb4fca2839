//! The value algebra: promotion across widths, mixed plaintext and
//! ciphertext operands, and the exact byte codec.

use zvm::value::{Value, VmError};
use zvm::vm::{deserialize, serialize, OpCode};

#[test]
fn test_promotion_takes_wider_width() {
    assert_eq!(
        Value::Uint8(200).add_op(Value::Uint32(100)),
        Ok(Value::Uint32(300))
    );
    assert_eq!(
        Value::Uint64(1).add_op(Value::Uint8(2)),
        Ok(Value::Uint64(3))
    );
    assert_eq!(
        Value::Uint16(9).mul_op(Value::Uint128(9)),
        Ok(Value::Uint128(81))
    );
}

#[test]
fn test_arithmetic_wraps_at_result_width() {
    assert_eq!(
        Value::Uint8(200).add_op(Value::Uint8(100)),
        Ok(Value::Uint8(44))
    );
    assert_eq!(
        Value::Uint8(200).mul_op(Value::Uint8(2)),
        Ok(Value::Uint8(144))
    );
    assert_eq!(
        Value::Uint8(1).sub_op(Value::Uint8(2)),
        Ok(Value::Uint8(255))
    );
}

#[test]
fn test_boolean_casts_to_integer_width() {
    assert_eq!(
        Value::Bool(true).add_op(Value::Uint16(41)),
        Ok(Value::Uint16(42))
    );
    assert_eq!(
        Value::Uint8(7).add_op(Value::Bool(false)),
        Ok(Value::Uint8(7))
    );
}

#[test]
fn test_two_booleans_combine_only_logically() {
    assert_eq!(
        Value::Bool(true).add_op(Value::Bool(true)),
        Err(VmError::UnsupportedOperands)
    );
    assert_eq!(
        Value::Bool(true).and_op(Value::Bool(false)),
        Ok(Value::Bool(false))
    );
    assert_eq!(
        Value::Bool(true).or_op(Value::Bool(false)),
        Ok(Value::Bool(true))
    );
    assert_eq!(
        Value::Bool(true).xor_op(Value::Ebool(true)),
        Ok(Value::Ebool(false))
    );
}

#[test]
fn test_mixed_operands_yield_ciphertexts() {
    assert_eq!(
        Value::Euint8(10).add_op(Value::Uint8(5)),
        Ok(Value::Euint8(15))
    );
    assert_eq!(
        Value::Uint8(10).sub_op(Value::Euint16(4)),
        Ok(Value::Euint16(6))
    );
    assert_eq!(
        Value::Euint8(3).mul_op(Value::Euint32(14)),
        Ok(Value::Euint32(42))
    );
}

#[test]
fn test_comparisons_resolve_plaintextness() {
    assert_eq!(
        Value::Uint8(2).lt_op(Value::Uint16(3)),
        Ok(Value::Bool(true))
    );
    assert_eq!(
        Value::Euint8(2).eq_op(Value::Uint8(2)),
        Ok(Value::Ebool(true))
    );
    assert_eq!(
        Value::Uint8(2).ge_op(Value::Euint8(3)),
        Ok(Value::Ebool(false))
    );
}

#[test]
fn test_min_max_are_ciphertext_only() {
    assert_eq!(
        Value::Euint8(4).min_op(Value::Euint8(5)),
        Ok(Value::Euint8(4))
    );
    assert_eq!(
        Value::Euint8(4).max_op(Value::Euint16(5)),
        Ok(Value::Euint16(5))
    );
    assert_eq!(
        Value::Uint8(4).min_op(Value::Uint8(5)),
        Err(VmError::UnsupportedOperands)
    );
}

#[test]
fn test_shifts_mask_the_amount() {
    assert_eq!(
        Value::Uint8(1).shl_op(Value::Uint8(3)),
        Ok(Value::Uint8(8))
    );
    // shifting by the full width is shifting by zero
    assert_eq!(
        Value::Uint8(1).shl_op(Value::Uint8(8)),
        Ok(Value::Uint8(1))
    );
    assert_eq!(
        Value::Uint8(128).shr_op(Value::Uint8(7)),
        Ok(Value::Uint8(1))
    );
}

#[test]
fn test_negation_is_asymmetric() {
    // plaintext: 1 - value at the width
    assert_eq!(Value::Uint8(0).neg(), Value::Uint8(1));
    assert_eq!(Value::Uint8(1).neg(), Value::Uint8(0));
    assert_eq!(Value::Uint8(5).neg(), Value::Uint8(252));
    // ciphertext: arithmetic negation at the width
    assert_eq!(Value::Euint8(5).neg(), Value::Euint8(251));
    // booleans: logical not
    assert_eq!(Value::Bool(true).neg(), Value::Bool(false));
    assert_eq!(Value::Ebool(false).neg(), Value::Ebool(true));
}

#[test]
fn test_value_byte_layout() {
    assert_eq!(Value::Ebool(true).to_bytes(), vec![0, 1]);
    assert_eq!(Value::Euint8(7).to_bytes(), vec![1, 7]);
    assert_eq!(Value::Uint8(7).to_bytes(), vec![7, 7]);
    assert_eq!(Value::Uint16(0x1234).to_bytes(), vec![8, 0x34, 0x12]);
    assert_eq!(
        Value::Uint32(0x0102_0304).to_bytes(),
        vec![9, 4, 3, 2, 1]
    );
    let b = Value::Euint128(1).to_bytes();
    assert_eq!(b.len(), 17);
    assert_eq!(b[0], 5);
    assert_eq!(b[1], 1);
}

#[test]
fn test_value_from_bytes_round_trip() {
    let samples = [
        Value::Ebool(false),
        Value::Euint16(65535),
        Value::Euint64(u64::MAX),
        Value::Bool(true),
        Value::Uint128(u128::MAX),
    ];
    for v in &samples {
        let bytes = v.to_bytes();
        let (back, used) = Value::from_bytes(&bytes).unwrap();
        assert_eq!(&back, v);
        assert_eq!(used, bytes.len());
    }
}

#[test]
fn test_decoder_does_not_guess() {
    // an unrecognized discriminant
    assert_eq!(Value::from_bytes(&[99, 0]), Err(VmError::DecodeError));
    // a truncated payload
    assert_eq!(Value::from_bytes(&[8, 0x34]), Err(VmError::DecodeError));
    // a boolean payload other than 0 and 1
    assert_eq!(Value::from_bytes(&[6, 2]), Err(VmError::DecodeError));
    // an unrecognized opcode tag
    assert_eq!(OpCode::from_bytes(&[18]), Err(VmError::DecodeError));
    // a truncated address operand
    assert_eq!(OpCode::from_bytes(&[25, 1, 2]), Err(VmError::DecodeError));
    // a whole stream with a trailing partial instruction
    assert_eq!(deserialize(&[0, 1, 22]), Err(VmError::DecodeError));
}

#[test]
fn test_opcode_byte_layout() {
    assert_eq!(OpCode::Add.to_bytes(), vec![0]);
    assert_eq!(OpCode::Neg.to_bytes(), vec![28]);
    assert_eq!(OpCode::Store(88).to_bytes(), vec![26, 88, 0, 0, 0]);
    assert_eq!(OpCode::Load(-1).to_bytes(), vec![25, 255, 255, 255, 255]);
    assert_eq!(
        OpCode::Push(Value::Uint8(7)).to_bytes(),
        vec![22, 7, 7]
    );
    let serialized = serialize(&[OpCode::Push(Value::Uint8(7)), OpCode::Add]);
    assert_eq!(serialized, vec![22, 7, 7, 0]);
}

#[test]
fn test_negative_address_round_trip() {
    let program = [OpCode::Load(-7), OpCode::Store(i32::MIN), OpCode::Load(i32::MAX)];
    let back = deserialize(&serialize(&program)).unwrap();
    assert_eq!(back, vec![
        OpCode::Load(-7),
        OpCode::Store(i32::MIN),
        OpCode::Load(i32::MAX)
    ]);
}

#[test]
fn test_accessors_reject_other_variants() {
    assert_eq!(Value::Uint8(1).as_eint8(), None);
    assert_eq!(Value::Euint8(1).as_eint8(), Some(1));
    assert_eq!(Value::Euint8(1).as_ebool(), None);
    assert_eq!(Value::Ebool(true).as_ebool(), Some(true));
    assert_eq!(Value::Euint16(2).as_eint16(), Some(2));
    assert_eq!(Value::Euint32(3).as_eint32(), Some(3));
    assert_eq!(Value::Euint64(4).as_eint64(), Some(4));
    assert_eq!(Value::Euint128(5).as_eint128(), Some(5));
}

#[test]
fn test_mux_selects_at_every_width() {
    let pairs = [
        (Value::Ebool(true), Value::Ebool(false)),
        (Value::Euint8(1), Value::Euint8(2)),
        (Value::Euint16(1), Value::Euint16(2)),
        (Value::Euint32(1), Value::Euint32(2)),
        (Value::Euint64(1), Value::Euint64(2)),
        (Value::Euint128(1), Value::Euint128(2)),
    ];
    for (b, c) in pairs {
        assert_eq!(Value::Ebool(true).mux_op(b, c), Ok(b));
        assert_eq!(Value::Ebool(false).mux_op(b, c), Ok(c));
    }
    // mismatched widths are rejected
    assert_eq!(
        Value::Ebool(true).mux_op(Value::Euint8(1), Value::Euint16(2)),
        Err(VmError::UnsupportedOperands)
    );
}

#[test]
fn test_promotion_width_matrix() {
    let widths = [
        (Value::Uint8(3), 8u32),
        (Value::Uint16(3), 16),
        (Value::Uint32(3), 32),
        (Value::Uint64(3), 64),
        (Value::Uint128(3), 128),
    ];
    for (a, wa) in widths {
        for (b, wb) in widths {
            let expect = wa.max(wb);
            let got = match a.add_op(b).unwrap() {
                Value::Uint8(v) => (8, v as u128),
                Value::Uint16(v) => (16, v as u128),
                Value::Uint32(v) => (32, v as u128),
                Value::Uint64(v) => (64, v as u128),
                Value::Uint128(v) => (128, v),
                other => panic!("unexpected variant {:?}", other),
            };
            assert_eq!(got, (expect, 6));
        }
    }
}

#[test]
fn test_round_trip_concrete_case() {
    let program = [
        OpCode::Push(Value::Uint8(8)),
        OpCode::Push(Value::Uint16(16)),
        OpCode::Add,
        OpCode::Dup,
        OpCode::Swap,
        OpCode::Store(88),
        OpCode::Load(77),
    ];
    let wire = serialize(&program);
    let back = deserialize(&wire).unwrap();
    assert_eq!(back.len(), program.len());
    for (i, op) in back.iter().enumerate() {
        assert_eq!(op.to_bytes(), program[i].to_bytes());
    }
    assert_eq!(serialize(&back), wire);
}
