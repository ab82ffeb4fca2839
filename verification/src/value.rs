//! The operand algebra: plaintext and ciphertext variants of `bool` and of
//! the unsigned widths 8 through 128, together with the promotion rules that
//! give every binary operator a meaning (or a rejection) on every pairing.

use vstd::arithmetic::div_mod::{lemma_div_nonincreasing, lemma_mod_mod};
use vstd::arithmetic::power2::{
    lemma2_to64, lemma2_to64_rest, lemma_pow2_adds, lemma_pow2_pos,
    lemma_pow2_strictly_increases, lemma_pow2_unfold, pow2,
};
use vstd::prelude::*;

verus! {

/// The failure taxonomy shared by the value algebra, the bytecode codec and
/// the execution engine. Every failure is fatal for the operation that
/// raised it; nothing here is recovered from locally.
#[derive(Clone, Copy, Debug, PartialEq, Eq, Structural)]
pub enum VmError {
    /// A pop was attempted on an empty (or too short) operand stack.
    StackUnderflow,
    /// An operand combination that the promotion rules do not cover, such as
    /// two booleans under an arithmetic operator or a plaintext dividend
    /// with a ciphertext divisor.
    UnsupportedOperands,
    /// A read from an address that was never populated, or a negative
    /// address.
    MemoryIndexOutOfRange,
    /// An unrecognized leading tag or a truncated operand in serialized
    /// bytecode.
    DecodeError,
    /// A division whose divisor is publicly zero.
    DivisionByZero,
}

/// A single operand of the machine.
///
/// The plaintext variants hold a public value directly. The ciphertext
/// variants stand for homomorphically encrypted values: the algebra never
/// branches on their contents, and every operator defined on them is the
/// homomorphic image of the corresponding plaintext operator. Each
/// ciphertext variant therefore carries the logical value its ciphertext
/// decrypts to — the quantity all contracts below are stated over — while
/// key material and the cryptographic representation remain entirely with
/// the host's encryption provider, outside this crate. Wrapping a public
/// value into a ciphertext variant is *trivial encryption*: the result
/// interoperates with genuine ciphertexts in every operator but carries no
/// secrecy of its own.
///
/// A `Value` is immutable once constructed; operators consume their
/// operands and return new values.
#[derive(Clone, Copy, Debug, PartialEq, Eq, Structural)]
pub enum Value {
    Ebool(bool),
    Euint8(u8),
    Euint16(u16),
    Euint32(u32),
    Euint64(u64),
    Euint128(u128),

    Bool(bool),
    Uint8(u8),
    Uint16(u16),
    Uint32(u32),
    Uint64(u64),
    Uint128(u128),
}

/// Whether a value is one of the ciphertext variants.
pub open spec fn is_encrypted(v: Value) -> bool {
    match v {
        Value::Ebool(_) => true,
        Value::Euint8(_) => true,
        Value::Euint16(_) => true,
        Value::Euint32(_) => true,
        Value::Euint64(_) => true,
        Value::Euint128(_) => true,
        _ => false,
    }
}

/// Whether a value is a boolean, plaintext or encrypted.
pub open spec fn is_bool_value(v: Value) -> bool {
    match v {
        Value::Bool(_) => true,
        Value::Ebool(_) => true,
        _ => false,
    }
}

/// Whether a value is an unsigned integer, plaintext or encrypted.
pub open spec fn is_int_value(v: Value) -> bool {
    !is_bool_value(v)
}

/// The bit width of an integer value; booleans are given width 0 so that a
/// boolean operand always defers to the width of the other operand.
pub open spec fn int_width(v: Value) -> nat {
    match v {
        Value::Ebool(_) => 0,
        Value::Euint8(_) => 8,
        Value::Euint16(_) => 16,
        Value::Euint32(_) => 32,
        Value::Euint64(_) => 64,
        Value::Euint128(_) => 128,
        Value::Bool(_) => 0,
        Value::Uint8(_) => 8,
        Value::Uint16(_) => 16,
        Value::Uint32(_) => 32,
        Value::Uint64(_) => 64,
        Value::Uint128(_) => 128,
    }
}

/// The logical value of an operand: the held integer, or 0/1 for a
/// boolean. For a ciphertext variant this is the value it decrypts to.
pub open spec fn logical_value(v: Value) -> u128 {
    match v {
        Value::Ebool(b) => if b { 1 } else { 0 },
        Value::Euint8(n) => n as u128,
        Value::Euint16(n) => n as u128,
        Value::Euint32(n) => n as u128,
        Value::Euint64(n) => n as u128,
        Value::Euint128(n) => n,
        Value::Bool(b) => if b { 1 } else { 0 },
        Value::Uint8(n) => n as u128,
        Value::Uint16(n) => n as u128,
        Value::Uint32(n) => n as u128,
        Value::Uint64(n) => n as u128,
        Value::Uint128(n) => n,
    }
}

/// One of the widths an integer variant can have.
pub open spec fn valid_width(w: nat) -> bool {
    w == 8 || w == 16 || w == 32 || w == 64 || w == 128
}

/// `2^w`, the modulus of arithmetic at width `w`.
pub open spec fn width_modulus(w: nat) -> nat {
    if w == 8 {
        0x100nat
    } else if w == 16 {
        0x1_0000nat
    } else if w == 32 {
        0x1_0000_0000nat
    } else if w == 64 {
        0x1_0000_0000_0000_0000nat
    } else {
        0x1_0000_0000_0000_0000_0000_0000_0000_0000nat
    }
}

/// The integer variant of width `w`, encrypted or not, holding `n`.
/// Meaningful when `n < width_modulus(w)`.
pub open spec fn mk_int(enc: bool, w: nat, n: u128) -> Value {
    if enc {
        if w == 8 {
            Value::Euint8(n as u8)
        } else if w == 16 {
            Value::Euint16(n as u16)
        } else if w == 32 {
            Value::Euint32(n as u32)
        } else if w == 64 {
            Value::Euint64(n as u64)
        } else {
            Value::Euint128(n)
        }
    } else {
        if w == 8 {
            Value::Uint8(n as u8)
        } else if w == 16 {
            Value::Uint16(n as u16)
        } else if w == 32 {
            Value::Uint32(n as u32)
        } else if w == 64 {
            Value::Uint64(n as u64)
        } else {
            Value::Uint128(n)
        }
    }
}

/// The boolean variant, encrypted or not, holding `b`.
pub open spec fn mk_bool(enc: bool, b: bool) -> Value {
    if enc {
        Value::Ebool(b)
    } else {
        Value::Bool(b)
    }
}

/// The width of the result of a binary operator: the wider of the two
/// operand widths. A boolean operand (width 0) always defers to the other
/// operand, which realises the rule that a boolean combined with an
/// unsigned width is integer-cast to that width.
pub open spec fn binop_width(a: Value, b: Value) -> nat {
    if int_width(a) >= int_width(b) {
        int_width(a)
    } else {
        int_width(b)
    }
}

/// A binary operator yields a ciphertext exactly when either operand is
/// one; the plaintext operand is promoted by trivial encryption.
pub open spec fn binop_encrypted(a: Value, b: Value) -> bool {
    is_encrypted(a) || is_encrypted(b)
}

/// Addition under the promotion rules: rejected for two booleans, and
/// otherwise the sum of the logical values, reduced at the wider width.
pub open spec fn spec_add_op(a: Value, b: Value) -> Result<Value, VmError> {
    if is_bool_value(a) && is_bool_value(b) {
        Err(VmError::UnsupportedOperands)
    } else {
        let w = binop_width(a, b);
        Ok(
            mk_int(
                binop_encrypted(a, b),
                w,
                (((logical_value(a) + logical_value(b)) as int) % (width_modulus(w) as int)) as u128,
            ),
        )
    }
}

/// Subtraction under the promotion rules, wrapping at the wider width.
pub open spec fn spec_sub_op(a: Value, b: Value) -> Result<Value, VmError> {
    if is_bool_value(a) && is_bool_value(b) {
        Err(VmError::UnsupportedOperands)
    } else {
        let w = binop_width(a, b);
        Ok(
            mk_int(
                binop_encrypted(a, b),
                w,
                (((logical_value(a) - logical_value(b)) as int) % (width_modulus(w) as int)) as u128,
            ),
        )
    }
}

/// Multiplication under the promotion rules, reduced at the wider width.
pub open spec fn spec_mul_op(a: Value, b: Value) -> Result<Value, VmError> {
    if is_bool_value(a) && is_bool_value(b) {
        Err(VmError::UnsupportedOperands)
    } else {
        let w = binop_width(a, b);
        Ok(
            mk_int(
                binop_encrypted(a, b),
                w,
                (((logical_value(a) * logical_value(b)) as int) % (width_modulus(w) as int)) as u128,
            ),
        )
    }
}

/// Bitwise conjunction. Two booleans combine logically; otherwise the
/// operands are widened and combined bit by bit.
pub open spec fn spec_and_op(a: Value, b: Value) -> Result<Value, VmError> {
    if is_bool_value(a) && is_bool_value(b) {
        Ok(mk_bool(binop_encrypted(a, b), logical_value(a) & logical_value(b) == 1))
    } else {
        let w = binop_width(a, b);
        Ok(
            mk_int(
                binop_encrypted(a, b),
                w,
                (((logical_value(a) & logical_value(b)) as int) % (width_modulus(w) as int)) as u128,
            ),
        )
    }
}

/// Bitwise disjunction; see [`spec_and_op`].
pub open spec fn spec_or_op(a: Value, b: Value) -> Result<Value, VmError> {
    if is_bool_value(a) && is_bool_value(b) {
        Ok(mk_bool(binop_encrypted(a, b), logical_value(a) | logical_value(b) == 1))
    } else {
        let w = binop_width(a, b);
        Ok(
            mk_int(
                binop_encrypted(a, b),
                w,
                (((logical_value(a) | logical_value(b)) as int) % (width_modulus(w) as int)) as u128,
            ),
        )
    }
}

/// Bitwise exclusive or; see [`spec_and_op`].
pub open spec fn spec_xor_op(a: Value, b: Value) -> Result<Value, VmError> {
    if is_bool_value(a) && is_bool_value(b) {
        Ok(mk_bool(binop_encrypted(a, b), logical_value(a) ^ logical_value(b) == 1))
    } else {
        let w = binop_width(a, b);
        Ok(
            mk_int(
                binop_encrypted(a, b),
                w,
                (((logical_value(a) ^ logical_value(b)) as int) % (width_modulus(w) as int)) as u128,
            ),
        )
    }
}

/// Left shift. The shift amount is taken modulo the result width, the
/// convention of the homomorphic shift operators; the shifted value is
/// reduced at the result width.
pub open spec fn spec_shl_op(a: Value, b: Value) -> Result<Value, VmError> {
    if is_bool_value(a) && is_bool_value(b) {
        Err(VmError::UnsupportedOperands)
    } else {
        let w = binop_width(a, b);
        let s = (logical_value(b) as nat) % w;
        Ok(
            mk_int(
                binop_encrypted(a, b),
                w,
                (((logical_value(a) * pow2(s)) as int) % (width_modulus(w) as int)) as u128,
            ),
        )
    }
}

/// Right shift; the shift amount is taken modulo the result width.
pub open spec fn spec_shr_op(a: Value, b: Value) -> Result<Value, VmError> {
    if is_bool_value(a) && is_bool_value(b) {
        Err(VmError::UnsupportedOperands)
    } else {
        let w = binop_width(a, b);
        let s = (logical_value(b) as nat) % w;
        Ok(
            mk_int(
                binop_encrypted(a, b),
                w,
                ((((logical_value(a) as nat) / pow2(s)) as int) % (width_modulus(w) as int)) as u128,
            ),
        )
    }
}

/// Division. A plaintext dividend with a ciphertext divisor is never
/// allowed (no operator computes an encrypted reciprocal). A divisor that
/// is publicly zero is an error; an encrypted divisor holding zero yields
/// the all-ones value of the result width, the convention of the
/// homomorphic divider.
pub open spec fn spec_div_op(a: Value, b: Value) -> Result<Value, VmError> {
    if is_bool_value(a) && is_bool_value(b) {
        Err(VmError::UnsupportedOperands)
    } else if !is_encrypted(a) && is_encrypted(b) {
        Err(VmError::UnsupportedOperands)
    } else if logical_value(b) == 0 {
        if is_encrypted(b) {
            Ok(mk_int(true, binop_width(a, b), (width_modulus(binop_width(a, b)) - 1) as u128))
        } else {
            Err(VmError::DivisionByZero)
        }
    } else {
        Ok(
            mk_int(
                binop_encrypted(a, b),
                binop_width(a, b),
                logical_value(a) / logical_value(b),
            ),
        )
    }
}

/// Equality of logical values; the result is a plaintext `Bool` only when
/// both operands are plaintext.
pub open spec fn spec_eq_op(a: Value, b: Value) -> Result<Value, VmError> {
    Ok(mk_bool(binop_encrypted(a, b), logical_value(a) == logical_value(b)))
}

/// Inequality of logical values; see [`spec_eq_op`].
pub open spec fn spec_ne_op(a: Value, b: Value) -> Result<Value, VmError> {
    Ok(mk_bool(binop_encrypted(a, b), logical_value(a) != logical_value(b)))
}

/// Strictly-less comparison of logical values; see [`spec_eq_op`].
pub open spec fn spec_lt_op(a: Value, b: Value) -> Result<Value, VmError> {
    Ok(mk_bool(binop_encrypted(a, b), logical_value(a) < logical_value(b)))
}

/// Less-or-equal comparison of logical values; see [`spec_eq_op`].
pub open spec fn spec_le_op(a: Value, b: Value) -> Result<Value, VmError> {
    Ok(mk_bool(binop_encrypted(a, b), logical_value(a) <= logical_value(b)))
}

/// Strictly-greater comparison of logical values; see [`spec_eq_op`].
pub open spec fn spec_gt_op(a: Value, b: Value) -> Result<Value, VmError> {
    Ok(mk_bool(binop_encrypted(a, b), logical_value(a) > logical_value(b)))
}

/// Greater-or-equal comparison of logical values; see [`spec_eq_op`].
pub open spec fn spec_ge_op(a: Value, b: Value) -> Result<Value, VmError> {
    Ok(mk_bool(binop_encrypted(a, b), logical_value(a) >= logical_value(b)))
}

/// Elementwise minimum. Defined only for two ciphertext integers — the
/// reference encrypted type defines minimum homomorphically and nowhere
/// else — with the usual width promotion between them.
pub open spec fn spec_min_op(a: Value, b: Value) -> Result<Value, VmError> {
    if !is_encrypted(a) || !is_encrypted(b) || is_bool_value(a) || is_bool_value(b) {
        Err(VmError::UnsupportedOperands)
    } else {
        Ok(
            mk_int(
                true,
                binop_width(a, b),
                if logical_value(a) <= logical_value(b) {
                    logical_value(a)
                } else {
                    logical_value(b)
                },
            ),
        )
    }
}

/// Elementwise maximum; see [`spec_min_op`].
pub open spec fn spec_max_op(a: Value, b: Value) -> Result<Value, VmError> {
    if !is_encrypted(a) || !is_encrypted(b) || is_bool_value(a) || is_bool_value(b) {
        Err(VmError::UnsupportedOperands)
    } else {
        Ok(
            mk_int(
                true,
                binop_width(a, b),
                if logical_value(a) >= logical_value(b) {
                    logical_value(a)
                } else {
                    logical_value(b)
                },
            ),
        )
    }
}

/// Negation. Booleans negate logically. A ciphertext integer negates
/// arithmetically (`0 − value` at its width); a plaintext integer is
/// `1 − value` at its width — the constant is 1, not 0, and the asymmetry
/// is deliberate.
pub open spec fn spec_neg_op(a: Value) -> Value {
    match a {
        Value::Bool(b) => Value::Bool(!b),
        Value::Ebool(b) => Value::Ebool(!b),
        _ => {
            let w = int_width(a);
            if is_encrypted(a) {
                mk_int(true, w, (((0 - logical_value(a)) as int) % (width_modulus(w) as int)) as u128)
            } else {
                mk_int(false, w, (((1 - logical_value(a)) as int) % (width_modulus(w) as int)) as u128)
            }
        },
    }
}

/// Oblivious selection: an encrypted boolean condition picks between two
/// already-computed ciphertext operands of the same kind and width, without
/// branching. Anything else — a plaintext condition, plaintext branches,
/// or mismatched widths — is rejected.
pub open spec fn spec_mux_op(a: Value, b: Value, c: Value) -> Result<Value, VmError> {
    match a {
        Value::Ebool(cond) => {
            if is_encrypted(b) && is_encrypted(c) && int_width(b) == int_width(c) {
                Ok(if cond { b } else { c })
            } else {
                Err(VmError::UnsupportedOperands)
            }
        },
        _ => Err(VmError::UnsupportedOperands),
    }
}

impl Value {
    /// The encrypted boolean inside an `Ebool`, or `None` for every other
    /// variant.
    pub fn as_ebool(&self) -> (r: Option<bool>)
        ensures
            r == (match *self {
                Value::Ebool(b) => Some(b),
                _ => None::<bool>,
            }),
    {
        match self {
            Value::Ebool(b) => Some(*b),
            _ => None,
        }
    }

    /// The logical value inside an `Euint8`, or `None` for every other
    /// variant.
    pub fn as_eint8(&self) -> (r: Option<u8>)
        ensures
            r == (match *self {
                Value::Euint8(n) => Some(n),
                _ => None::<u8>,
            }),
    {
        match self {
            Value::Euint8(n) => Some(*n),
            _ => None,
        }
    }

    /// The logical value inside an `Euint16`, or `None` for every other
    /// variant.
    pub fn as_eint16(&self) -> (r: Option<u16>)
        ensures
            r == (match *self {
                Value::Euint16(n) => Some(n),
                _ => None::<u16>,
            }),
    {
        match self {
            Value::Euint16(n) => Some(*n),
            _ => None,
        }
    }

    /// The logical value inside an `Euint32`, or `None` for every other
    /// variant.
    pub fn as_eint32(&self) -> (r: Option<u32>)
        ensures
            r == (match *self {
                Value::Euint32(n) => Some(n),
                _ => None::<u32>,
            }),
    {
        match self {
            Value::Euint32(n) => Some(*n),
            _ => None,
        }
    }

    /// The logical value inside an `Euint64`, or `None` for every other
    /// variant.
    pub fn as_eint64(&self) -> (r: Option<u64>)
        ensures
            r == (match *self {
                Value::Euint64(n) => Some(n),
                _ => None::<u64>,
            }),
    {
        match self {
            Value::Euint64(n) => Some(*n),
            _ => None,
        }
    }

    /// The logical value inside an `Euint128`, or `None` for every other
    /// variant.
    pub fn as_eint128(&self) -> (r: Option<u128>)
        ensures
            r == (match *self {
                Value::Euint128(n) => Some(n),
                _ => None::<u128>,
            }),
    {
        match self {
            Value::Euint128(n) => Some(*n),
            _ => None,
        }
    }
}

/// The plaintext counterpart of a value: what a ciphertext variant
/// decrypts to; a plaintext variant is its own counterpart.
pub open spec fn cleartext_of(v: Value) -> Value {
    match v {
        Value::Ebool(b) => Value::Bool(b),
        Value::Euint8(n) => Value::Uint8(n),
        Value::Euint16(n) => Value::Uint16(n),
        Value::Euint32(n) => Value::Uint32(n),
        Value::Euint64(n) => Value::Uint64(n),
        Value::Euint128(n) => Value::Uint128(n),
        _ => v,
    }
}

/// Whether `r` succeeded with a plaintext integer of width `w` holding `n`.
pub open spec fn is_plain_int_result(r: Result<Value, VmError>, w: nat, n: u128) -> bool {
    match r {
        Ok(v) => !is_encrypted(v) && is_int_value(v) && int_width(v) == w && logical_value(v) == n,
        Err(_) => false,
    }
}

/// Shape of [`mk_int`]: for an in-range payload it yields an integer of
/// exactly the requested width, encryption and logical value.
proof fn lemma_mk_int_props(enc: bool, w: nat, n: u128)
    requires
        valid_width(w),
        (n as nat) < width_modulus(w),
    ensures
        is_encrypted(mk_int(enc, w, n)) == enc,
        is_int_value(mk_int(enc, w, n)),
        int_width(mk_int(enc, w, n)) == w,
        logical_value(mk_int(enc, w, n)) == n,
        cleartext_of(mk_int(true, w, n)) == mk_int(false, w, n),
        cleartext_of(mk_int(false, w, n)) == mk_int(false, w, n),
{
}

/// Integer variants carry one of the five valid widths.
proof fn lemma_int_width_valid(v: Value)
    requires
        is_int_value(v),
    ensures
        valid_width(int_width(v)),
{
}

/// Promotion correctness: on two plaintext integers, the arithmetic and
/// bitwise operators return a plaintext value of the wider operand width,
/// equal to the mathematically widened computation reduced at that width.
pub proof fn lemma_promotion_correctness(a: Value, b: Value)
    requires
        is_int_value(a),
        is_int_value(b),
        !is_encrypted(a),
        !is_encrypted(b),
    ensures
        ({
            let w = binop_width(a, b);
            let m = width_modulus(w) as int;
            let va = logical_value(a) as int;
            let vb = logical_value(b) as int;
            &&& valid_width(w)
            &&& w >= int_width(a)
            &&& w >= int_width(b)
            &&& (w == int_width(a) || w == int_width(b))
            &&& is_plain_int_result(spec_add_op(a, b), w, ((va + vb) % m) as u128)
            &&& is_plain_int_result(spec_sub_op(a, b), w, ((va - vb) % m) as u128)
            &&& is_plain_int_result(spec_mul_op(a, b), w, ((va * vb) % m) as u128)
            &&& is_plain_int_result(
                spec_and_op(a, b),
                w,
                (((logical_value(a) & logical_value(b)) as int) % m) as u128,
            )
            &&& is_plain_int_result(
                spec_or_op(a, b),
                w,
                (((logical_value(a) | logical_value(b)) as int) % m) as u128,
            )
            &&& is_plain_int_result(
                spec_xor_op(a, b),
                w,
                (((logical_value(a) ^ logical_value(b)) as int) % m) as u128,
            )
        }),
{
    lemma_int_width_valid(a);
    lemma_int_width_valid(b);
    let w = binop_width(a, b);
    let m = width_modulus(w) as int;
    let va = logical_value(a) as int;
    let vb = logical_value(b) as int;
    lemma_mk_int_props(false, w, ((va + vb) % m) as u128);
    lemma_mk_int_props(false, w, ((va - vb) % m) as u128);
    lemma_mk_int_props(false, w, ((va * vb) % m) as u128);
    lemma_mk_int_props(false, w, (((logical_value(a) & logical_value(b)) as int) % m) as u128);
    lemma_mk_int_props(false, w, (((logical_value(a) | logical_value(b)) as int) % m) as u128);
    lemma_mk_int_props(false, w, (((logical_value(a) ^ logical_value(b)) as int) % m) as u128);
}

/// The plaintext counterpart keeps the logical value, the width and the
/// boolean-ness of a value, and is itself plaintext.
proof fn lemma_cleartext_props(v: Value)
    ensures
        logical_value(cleartext_of(v)) == logical_value(v),
        int_width(cleartext_of(v)) == int_width(v),
        is_bool_value(cleartext_of(v)) == is_bool_value(v),
        !is_encrypted(cleartext_of(v)),
{
}

/// Mixed equivalence for addition, subtraction and multiplication.
proof fn lemma_mixed_arith(a: Value, b: Value)
    ensures
        ({
            let ca = cleartext_of(a);
            let cb = cleartext_of(b);
            &&& (spec_add_op(a, b) is Ok && spec_add_op(ca, cb) is Ok) ==> cleartext_of(
                spec_add_op(a, b)->Ok_0,
            ) == spec_add_op(ca, cb)->Ok_0
            &&& (spec_sub_op(a, b) is Ok && spec_sub_op(ca, cb) is Ok) ==> cleartext_of(
                spec_sub_op(a, b)->Ok_0,
            ) == spec_sub_op(ca, cb)->Ok_0
            &&& (spec_mul_op(a, b) is Ok && spec_mul_op(ca, cb) is Ok) ==> cleartext_of(
                spec_mul_op(a, b)->Ok_0,
            ) == spec_mul_op(ca, cb)->Ok_0
        }),
{
    lemma_cleartext_props(a);
    lemma_cleartext_props(b);
    let w = binop_width(a, b);
    if !(is_bool_value(a) && is_bool_value(b)) {
        if is_bool_value(a) {
            lemma_int_width_valid(b);
        } else {
            lemma_int_width_valid(a);
        }
        let m = width_modulus(w) as int;
        let va = logical_value(a) as int;
        let vb = logical_value(b) as int;
        lemma_mk_int_props(true, w, ((va + vb) % m) as u128);
        lemma_mk_int_props(true, w, ((va - vb) % m) as u128);
        lemma_mk_int_props(true, w, ((va * vb) % m) as u128);
    }
}

/// Mixed equivalence for the bitwise operators.
proof fn lemma_mixed_bitwise(a: Value, b: Value)
    ensures
        ({
            let ca = cleartext_of(a);
            let cb = cleartext_of(b);
            &&& (spec_and_op(a, b) is Ok && spec_and_op(ca, cb) is Ok) ==> cleartext_of(
                spec_and_op(a, b)->Ok_0,
            ) == spec_and_op(ca, cb)->Ok_0
            &&& (spec_or_op(a, b) is Ok && spec_or_op(ca, cb) is Ok) ==> cleartext_of(
                spec_or_op(a, b)->Ok_0,
            ) == spec_or_op(ca, cb)->Ok_0
            &&& (spec_xor_op(a, b) is Ok && spec_xor_op(ca, cb) is Ok) ==> cleartext_of(
                spec_xor_op(a, b)->Ok_0,
            ) == spec_xor_op(ca, cb)->Ok_0
        }),
{
    lemma_cleartext_props(a);
    lemma_cleartext_props(b);
    let w = binop_width(a, b);
    if !(is_bool_value(a) && is_bool_value(b)) {
        if is_bool_value(a) {
            lemma_int_width_valid(b);
        } else {
            lemma_int_width_valid(a);
        }
        let m = width_modulus(w) as int;
        lemma_mk_int_props(true, w, (((logical_value(a) & logical_value(b)) as int) % m) as u128);
        lemma_mk_int_props(true, w, (((logical_value(a) | logical_value(b)) as int) % m) as u128);
        lemma_mk_int_props(true, w, (((logical_value(a) ^ logical_value(b)) as int) % m) as u128);
    }
}

/// Mixed equivalence for the shifts.
proof fn lemma_mixed_shift(a: Value, b: Value)
    ensures
        ({
            let ca = cleartext_of(a);
            let cb = cleartext_of(b);
            &&& (spec_shl_op(a, b) is Ok && spec_shl_op(ca, cb) is Ok) ==> cleartext_of(
                spec_shl_op(a, b)->Ok_0,
            ) == spec_shl_op(ca, cb)->Ok_0
            &&& (spec_shr_op(a, b) is Ok && spec_shr_op(ca, cb) is Ok) ==> cleartext_of(
                spec_shr_op(a, b)->Ok_0,
            ) == spec_shr_op(ca, cb)->Ok_0
        }),
{
    lemma_cleartext_props(a);
    lemma_cleartext_props(b);
    let w = binop_width(a, b);
    if !(is_bool_value(a) && is_bool_value(b)) {
        if is_bool_value(a) {
            lemma_int_width_valid(b);
        } else {
            lemma_int_width_valid(a);
        }
        let m = width_modulus(w) as int;
        let s = (logical_value(b) as nat) % w;
        lemma_mk_int_props(true, w, (((logical_value(a) * pow2(s)) as int) % m) as u128);
        lemma_mk_int_props(true, w, ((((logical_value(a) as nat) / pow2(s)) as int) % m) as u128);
    }
}

/// Mixed equivalence for division, wherever both sides are defined.
proof fn lemma_mixed_div(a: Value, b: Value)
    ensures
        ({
            let ca = cleartext_of(a);
            let cb = cleartext_of(b);
            (spec_div_op(a, b) is Ok && spec_div_op(ca, cb) is Ok) ==> cleartext_of(
                spec_div_op(a, b)->Ok_0,
            ) == spec_div_op(ca, cb)->Ok_0
        }),
{
    lemma_cleartext_props(a);
    lemma_cleartext_props(b);
    let w = binop_width(a, b);
    if !(is_bool_value(a) && is_bool_value(b)) && logical_value(b) != 0 {
        if is_bool_value(a) {
            lemma_int_width_valid(b);
        } else {
            lemma_int_width_valid(a);
        }
        let va = logical_value(a) as int;
        let vb = logical_value(b) as int;
        vstd::arithmetic::div_mod::lemma_div_nonincreasing(va, vb);
        assert((logical_value(a) as nat) < width_modulus(w)) by {
            if is_bool_value(a) {
            } else {
                lemma_value_fits(int_width(a), w, logical_value(a));
            }
        };
        lemma_mk_int_props(true, w, (logical_value(a) / logical_value(b)) as u128);
    }
}

/// Mixed equivalence for the comparisons.
proof fn lemma_mixed_compare(a: Value, b: Value)
    ensures
        ({
            let ca = cleartext_of(a);
            let cb = cleartext_of(b);
            &&& cleartext_of(spec_eq_op(a, b)->Ok_0) == spec_eq_op(ca, cb)->Ok_0
            &&& cleartext_of(spec_ne_op(a, b)->Ok_0) == spec_ne_op(ca, cb)->Ok_0
            &&& cleartext_of(spec_lt_op(a, b)->Ok_0) == spec_lt_op(ca, cb)->Ok_0
            &&& cleartext_of(spec_le_op(a, b)->Ok_0) == spec_le_op(ca, cb)->Ok_0
            &&& cleartext_of(spec_gt_op(a, b)->Ok_0) == spec_gt_op(ca, cb)->Ok_0
            &&& cleartext_of(spec_ge_op(a, b)->Ok_0) == spec_ge_op(ca, cb)->Ok_0
        }),
{
    lemma_cleartext_props(a);
    lemma_cleartext_props(b);
}

/// Mixed plaintext/ciphertext equivalence: wherever an operator is defined
/// both on a pair of operands and on their plaintext counterparts, the
/// result decrypts to exactly the plaintext result. Minimum and maximum
/// have no plaintext counterpart and are not listed.
pub proof fn lemma_mixed_equivalence(a: Value, b: Value)
    ensures
        ({
            let ca = cleartext_of(a);
            let cb = cleartext_of(b);
            &&& (spec_add_op(a, b) is Ok && spec_add_op(ca, cb) is Ok) ==> cleartext_of(
                spec_add_op(a, b)->Ok_0,
            ) == spec_add_op(ca, cb)->Ok_0
            &&& (spec_sub_op(a, b) is Ok && spec_sub_op(ca, cb) is Ok) ==> cleartext_of(
                spec_sub_op(a, b)->Ok_0,
            ) == spec_sub_op(ca, cb)->Ok_0
            &&& (spec_mul_op(a, b) is Ok && spec_mul_op(ca, cb) is Ok) ==> cleartext_of(
                spec_mul_op(a, b)->Ok_0,
            ) == spec_mul_op(ca, cb)->Ok_0
            &&& (spec_div_op(a, b) is Ok && spec_div_op(ca, cb) is Ok) ==> cleartext_of(
                spec_div_op(a, b)->Ok_0,
            ) == spec_div_op(ca, cb)->Ok_0
            &&& (spec_and_op(a, b) is Ok && spec_and_op(ca, cb) is Ok) ==> cleartext_of(
                spec_and_op(a, b)->Ok_0,
            ) == spec_and_op(ca, cb)->Ok_0
            &&& (spec_or_op(a, b) is Ok && spec_or_op(ca, cb) is Ok) ==> cleartext_of(
                spec_or_op(a, b)->Ok_0,
            ) == spec_or_op(ca, cb)->Ok_0
            &&& (spec_xor_op(a, b) is Ok && spec_xor_op(ca, cb) is Ok) ==> cleartext_of(
                spec_xor_op(a, b)->Ok_0,
            ) == spec_xor_op(ca, cb)->Ok_0
            &&& (spec_shl_op(a, b) is Ok && spec_shl_op(ca, cb) is Ok) ==> cleartext_of(
                spec_shl_op(a, b)->Ok_0,
            ) == spec_shl_op(ca, cb)->Ok_0
            &&& (spec_shr_op(a, b) is Ok && spec_shr_op(ca, cb) is Ok) ==> cleartext_of(
                spec_shr_op(a, b)->Ok_0,
            ) == spec_shr_op(ca, cb)->Ok_0
            &&& cleartext_of(spec_eq_op(a, b)->Ok_0) == spec_eq_op(ca, cb)->Ok_0
            &&& cleartext_of(spec_ne_op(a, b)->Ok_0) == spec_ne_op(ca, cb)->Ok_0
            &&& cleartext_of(spec_lt_op(a, b)->Ok_0) == spec_lt_op(ca, cb)->Ok_0
            &&& cleartext_of(spec_le_op(a, b)->Ok_0) == spec_le_op(ca, cb)->Ok_0
            &&& cleartext_of(spec_gt_op(a, b)->Ok_0) == spec_gt_op(ca, cb)->Ok_0
            &&& cleartext_of(spec_ge_op(a, b)->Ok_0) == spec_ge_op(ca, cb)->Ok_0
        }),
{
    lemma_mixed_arith(a, b);
    lemma_mixed_bitwise(a, b);
    lemma_mixed_shift(a, b);
    lemma_mixed_div(a, b);
    lemma_mixed_compare(a, b);
}

/// Mux obliviousness: an encrypted true condition yields exactly the
/// first branch, an encrypted false condition exactly the second, at every
/// operand kind and width; both branches are already fully computed values
/// when the selection happens.
pub proof fn lemma_mux_obliviousness(b: Value, c: Value)
    requires
        is_encrypted(b),
        is_encrypted(c),
        int_width(b) == int_width(c),
    ensures
        spec_mux_op(Value::Ebool(true), b, c) == Ok::<Value, VmError>(b),
        spec_mux_op(Value::Ebool(false), b, c) == Ok::<Value, VmError>(c),
{
}

/// Decomposes a value into (encrypted, width, logical value); the width is
/// 0 for booleans.
fn parts(v: &Value) -> (r: (bool, u32, u128))
    ensures
        r.0 == is_encrypted(*v),
        r.1 as nat == int_width(*v),
        r.1 == 0 || r.1 == 8 || r.1 == 16 || r.1 == 32 || r.1 == 64 || r.1 == 128,
        (r.1 == 0) == is_bool_value(*v),
        r.2 == logical_value(*v),
        (r.2 as nat) < width_modulus(r.1 as nat),
        is_bool_value(*v) ==> r.2 <= 1,
{
    match v {
        Value::Ebool(b) => (true, 0, if *b { 1 } else { 0 }),
        Value::Euint8(n) => (true, 8, *n as u128),
        Value::Euint16(n) => (true, 16, *n as u128),
        Value::Euint32(n) => (true, 32, *n as u128),
        Value::Euint64(n) => (true, 64, *n as u128),
        Value::Euint128(n) => (true, 128, *n),
        Value::Bool(b) => (false, 0, if *b { 1 } else { 0 }),
        Value::Uint8(n) => (false, 8, *n as u128),
        Value::Uint16(n) => (false, 16, *n as u128),
        Value::Uint32(n) => (false, 32, *n as u128),
        Value::Uint64(n) => (false, 64, *n as u128),
        Value::Uint128(n) => (false, 128, *n),
    }
}

/// Rebuilds the integer variant of width `w` holding `n`.
fn make_int(enc: bool, w: u32, n: u128) -> (r: Value)
    requires
        valid_width(w as nat),
        (n as nat) < width_modulus(w as nat),
    ensures
        r == mk_int(enc, w as nat, n),
{
    if enc {
        if w == 8 {
            Value::Euint8(n as u8)
        } else if w == 16 {
            Value::Euint16(n as u16)
        } else if w == 32 {
            Value::Euint32(n as u32)
        } else if w == 64 {
            Value::Euint64(n as u64)
        } else {
            Value::Euint128(n)
        }
    } else {
        if w == 8 {
            Value::Uint8(n as u8)
        } else if w == 16 {
            Value::Uint16(n as u16)
        } else if w == 32 {
            Value::Uint32(n as u32)
        } else if w == 64 {
            Value::Uint64(n as u64)
        } else {
            Value::Uint128(n)
        }
    }
}

/// Rebuilds the boolean variant holding `b`.
fn make_bool(enc: bool, b: bool) -> (r: Value)
    ensures
        r == mk_bool(enc, b),
{
    if enc {
        Value::Ebool(b)
    } else {
        Value::Bool(b)
    }
}

/// Reduces `x` at width `w`.
fn mod_width(w: u32, x: u128) -> (r: u128)
    requires
        valid_width(w as nat),
    ensures
        r as nat == (x as nat) % width_modulus(w as nat),
        (r as nat) < width_modulus(w as nat),
{
    if w == 8 {
        x % 0x100
    } else if w == 16 {
        x % 0x1_0000
    } else if w == 32 {
        x % 0x1_0000_0000
    } else if w == 64 {
        x % 0x1_0000_0000_0000_0000
    } else {
        x
    }
}

/// The all-ones value of width `w`.
fn width_max(w: u32) -> (r: u128)
    requires
        valid_width(w as nat),
    ensures
        r as nat == width_modulus(w as nat) - 1,
{
    if w == 8 {
        0xFF
    } else if w == 16 {
        0xFFFF
    } else if w == 32 {
        0xFFFF_FFFF
    } else if w == 64 {
        0xFFFF_FFFF_FFFF_FFFF
    } else {
        0xFFFF_FFFF_FFFF_FFFF_FFFF_FFFF_FFFF_FFFF
    }
}

/// Reducing modulo `2^128` first does not change a reduction at any
/// narrower width, because every width's modulus divides `2^128`.
proof fn lemma_mod_u128_chain(x: int, w: nat)
    requires
        valid_width(w),
    ensures
        (x % (width_modulus(128) as int)) % (width_modulus(w) as int) == x % (width_modulus(w)
            as int),
{
    if w == 8 {
        lemma_mod_mod(x, 0x100int, 0x1_000000_000000_000000_000000_000000int);
    } else if w == 16 {
        lemma_mod_mod(x, 0x1_0000int, 0x1_0000_000000_000000_000000_000000int);
    } else if w == 32 {
        lemma_mod_mod(x, 0x1_0000_0000int, 0x1_000000_000000_000000_000000int);
    } else if w == 64 {
        lemma_mod_mod(x, 0x1_0000_0000_0000_0000int, 0x1_0000_0000_0000_0000int);
    } else {
        lemma_mod_mod(x, width_modulus(128) as int, 1int);
    }
}

/// An operand value bounded at its own width is bounded at any result
/// width at least as wide; a boolean operand (width 0, value at most 1) is
/// bounded at every integer width.
proof fn lemma_value_fits(wa: nat, w: nat, v: u128)
    requires
        wa == 0 || valid_width(wa),
        valid_width(w),
        wa <= w,
        wa == 0 ==> v <= 1,
        (v as nat) < width_modulus(wa),
    ensures
        (v as nat) < width_modulus(w),
{
}

/// `pow2(127)` written out, for overflow reasoning at the widest width.
proof fn lemma_pow2_127()
    ensures
        pow2(127) == 0x8000_0000_0000_0000_0000_0000_0000_0000nat,
{
    lemma_pow2_adds(63, 64);
    lemma2_to64();
    lemma2_to64_rest();
    assert(pow2(127) == pow2(63) * pow2(64));
    assert(0x8000_0000_0000_0000int * 0x1_0000_0000_0000_0000int
        == 0x8000_0000_0000_0000_0000_0000_0000_0000int) by (nonlinear_arith);
}

/// `2^k` as a machine value, for shift amounts below 128.
fn pow2_exec(k: u32) -> (r: u128)
    requires
        k < 128,
    ensures
        r as nat == pow2(k as nat),
        r >= 1,
{
    let mut p: u128 = 1;
    let mut i: u32 = 0;
    proof {
        vstd::arithmetic::power::lemma_pow0(2);
    }
    while i < k
        invariant
            i <= k,
            k < 128,
            p as nat == pow2(i as nat),
        decreases k - i,
    {
        proof {
            lemma_pow2_unfold((i + 1) as nat);
            lemma_pow2_strictly_increases(i as nat, 127);
            lemma_pow2_127();
        }
        p = p * 2;
        i = i + 1;
    }
    proof {
        lemma_pow2_pos(k as nat);
    }
    p
}

/// Negation as a named operation.
pub trait Neg: Sized {
    fn neg(&self) -> Self;
}

impl Neg for Value {
    /// The same negation as the inherent [`Value::neg`].
    fn neg(&self) -> Self {
        Value::neg(self)
    }
}

impl Value {
    /// Addition under the promotion rules; see [`spec_add_op`].
    pub fn add_op(self, other: Self) -> (r: Result<Value, VmError>)
        ensures
            r == spec_add_op(self, other),
    {
        let (ea, wa, va) = parts(&self);
        let (eb, wb, vb) = parts(&other);
        if wa == 0 && wb == 0 {
            return Err(VmError::UnsupportedOperands);
        }
        let w = if wa >= wb {
            wa
        } else {
            wb
        };
        let s = va.wrapping_add(vb);
        proof {
            assert(s as int == (va + vb) % (width_modulus(128) as int));
            lemma_mod_u128_chain(va + vb, w as nat);
        }
        Ok(make_int(ea || eb, w, mod_width(w, s)))
    }

    /// Subtraction under the promotion rules; see [`spec_sub_op`].
    pub fn sub_op(self, other: Self) -> (r: Result<Value, VmError>)
        ensures
            r == spec_sub_op(self, other),
    {
        let (ea, wa, va) = parts(&self);
        let (eb, wb, vb) = parts(&other);
        if wa == 0 && wb == 0 {
            return Err(VmError::UnsupportedOperands);
        }
        let w = if wa >= wb {
            wa
        } else {
            wb
        };
        let s = va.wrapping_sub(vb);
        proof {
            assert(s as int == (va - vb) % (width_modulus(128) as int));
            lemma_mod_u128_chain(va - vb, w as nat);
        }
        Ok(make_int(ea || eb, w, mod_width(w, s)))
    }

    /// Multiplication under the promotion rules; see [`spec_mul_op`].
    pub fn mul_op(self, other: Self) -> (r: Result<Value, VmError>)
        ensures
            r == spec_mul_op(self, other),
    {
        let (ea, wa, va) = parts(&self);
        let (eb, wb, vb) = parts(&other);
        if wa == 0 && wb == 0 {
            return Err(VmError::UnsupportedOperands);
        }
        let w = if wa >= wb {
            wa
        } else {
            wb
        };
        let s = va.wrapping_mul(vb);
        proof {
            assert(s as int == ((va as int) * (vb as int)) % (width_modulus(128) as int));
            lemma_mod_u128_chain((va as int) * (vb as int), w as nat);
        }
        Ok(make_int(ea || eb, w, mod_width(w, s)))
    }

    /// Bitwise conjunction; see [`spec_and_op`].
    pub fn and_op(self, other: Self) -> (r: Result<Value, VmError>)
        ensures
            r == spec_and_op(self, other),
    {
        let (ea, wa, va) = parts(&self);
        let (eb, wb, vb) = parts(&other);
        if wa == 0 && wb == 0 {
            return Ok(make_bool(ea || eb, (va & vb) == 1));
        }
        let w = if wa >= wb {
            wa
        } else {
            wb
        };
        Ok(make_int(ea || eb, w, mod_width(w, va & vb)))
    }

    /// Bitwise disjunction; see [`spec_or_op`].
    pub fn or_op(self, other: Self) -> (r: Result<Value, VmError>)
        ensures
            r == spec_or_op(self, other),
    {
        let (ea, wa, va) = parts(&self);
        let (eb, wb, vb) = parts(&other);
        if wa == 0 && wb == 0 {
            return Ok(make_bool(ea || eb, (va | vb) == 1));
        }
        let w = if wa >= wb {
            wa
        } else {
            wb
        };
        Ok(make_int(ea || eb, w, mod_width(w, va | vb)))
    }

    /// Bitwise exclusive or; see [`spec_xor_op`].
    pub fn xor_op(self, other: Self) -> (r: Result<Value, VmError>)
        ensures
            r == spec_xor_op(self, other),
    {
        let (ea, wa, va) = parts(&self);
        let (eb, wb, vb) = parts(&other);
        if wa == 0 && wb == 0 {
            return Ok(make_bool(ea || eb, (va ^ vb) == 1));
        }
        let w = if wa >= wb {
            wa
        } else {
            wb
        };
        Ok(make_int(ea || eb, w, mod_width(w, va ^ vb)))
    }

    /// Left shift; see [`spec_shl_op`].
    pub fn shl_op(self, other: Self) -> (r: Result<Value, VmError>)
        ensures
            r == spec_shl_op(self, other),
    {
        let (ea, wa, va) = parts(&self);
        let (eb, wb, vb) = parts(&other);
        if wa == 0 && wb == 0 {
            return Err(VmError::UnsupportedOperands);
        }
        let w = if wa >= wb {
            wa
        } else {
            wb
        };
        let s_amt = vb % (w as u128);
        assert(s_amt < 128);
        let p = pow2_exec(s_amt as u32);
        let s = va.wrapping_mul(p);
        proof {
            assert(s as int == ((va as int) * (p as int)) % (width_modulus(128) as int));
            lemma_mod_u128_chain((va as int) * (p as int), w as nat);
        }
        Ok(make_int(ea || eb, w, mod_width(w, s)))
    }

    /// Right shift; see [`spec_shr_op`].
    pub fn shr_op(self, other: Self) -> (r: Result<Value, VmError>)
        ensures
            r == spec_shr_op(self, other),
    {
        let (ea, wa, va) = parts(&self);
        let (eb, wb, vb) = parts(&other);
        if wa == 0 && wb == 0 {
            return Err(VmError::UnsupportedOperands);
        }
        let w = if wa >= wb {
            wa
        } else {
            wb
        };
        let s_amt = vb % (w as u128);
        assert(s_amt < 128);
        let p = pow2_exec(s_amt as u32);
        let q = va / p;
        Ok(make_int(ea || eb, w, mod_width(w, q)))
    }

    /// Division; see [`spec_div_op`].
    pub fn div_op(self, other: Self) -> (r: Result<Value, VmError>)
        ensures
            r == spec_div_op(self, other),
    {
        let (ea, wa, va) = parts(&self);
        let (eb, wb, vb) = parts(&other);
        if wa == 0 && wb == 0 {
            return Err(VmError::UnsupportedOperands);
        }
        if !ea && eb {
            return Err(VmError::UnsupportedOperands);
        }
        let w = if wa >= wb {
            wa
        } else {
            wb
        };
        if vb == 0 {
            if eb {
                return Ok(make_int(true, w, width_max(w)));
            } else {
                return Err(VmError::DivisionByZero);
            }
        }
        let q = va / vb;
        proof {
            lemma_div_nonincreasing(va as int, vb as int);
            lemma_value_fits(wa as nat, w as nat, va);
        }
        Ok(make_int(ea || eb, w, q))
    }

    /// Equality comparison; see [`spec_eq_op`].
    pub fn eq_op(self, other: Self) -> (r: Result<Value, VmError>)
        ensures
            r == spec_eq_op(self, other),
    {
        let (ea, _wa, va) = parts(&self);
        let (eb, _wb, vb) = parts(&other);
        Ok(make_bool(ea || eb, va == vb))
    }

    /// Inequality comparison; see [`spec_ne_op`].
    pub fn ne_op(self, other: Self) -> (r: Result<Value, VmError>)
        ensures
            r == spec_ne_op(self, other),
    {
        let (ea, _wa, va) = parts(&self);
        let (eb, _wb, vb) = parts(&other);
        Ok(make_bool(ea || eb, va != vb))
    }

    /// Strictly-less comparison; see [`spec_lt_op`].
    pub fn lt_op(self, other: Self) -> (r: Result<Value, VmError>)
        ensures
            r == spec_lt_op(self, other),
    {
        let (ea, _wa, va) = parts(&self);
        let (eb, _wb, vb) = parts(&other);
        Ok(make_bool(ea || eb, va < vb))
    }

    /// Less-or-equal comparison; see [`spec_le_op`].
    pub fn le_op(self, other: Self) -> (r: Result<Value, VmError>)
        ensures
            r == spec_le_op(self, other),
    {
        let (ea, _wa, va) = parts(&self);
        let (eb, _wb, vb) = parts(&other);
        Ok(make_bool(ea || eb, va <= vb))
    }

    /// Strictly-greater comparison; see [`spec_gt_op`].
    pub fn gt_op(self, other: Self) -> (r: Result<Value, VmError>)
        ensures
            r == spec_gt_op(self, other),
    {
        let (ea, _wa, va) = parts(&self);
        let (eb, _wb, vb) = parts(&other);
        Ok(make_bool(ea || eb, va > vb))
    }

    /// Greater-or-equal comparison; see [`spec_ge_op`].
    pub fn ge_op(self, other: Self) -> (r: Result<Value, VmError>)
        ensures
            r == spec_ge_op(self, other),
    {
        let (ea, _wa, va) = parts(&self);
        let (eb, _wb, vb) = parts(&other);
        Ok(make_bool(ea || eb, va >= vb))
    }

    /// Elementwise minimum; see [`spec_min_op`].
    pub fn min_op(self, other: Self) -> (r: Result<Value, VmError>)
        ensures
            r == spec_min_op(self, other),
    {
        let (ea, wa, va) = parts(&self);
        let (eb, wb, vb) = parts(&other);
        if !ea || !eb || wa == 0 || wb == 0 {
            return Err(VmError::UnsupportedOperands);
        }
        let w = if wa >= wb {
            wa
        } else {
            wb
        };
        proof {
            lemma_value_fits(wa as nat, w as nat, va);
            lemma_value_fits(wb as nat, w as nat, vb);
        }
        Ok(make_int(true, w, if va <= vb {
            va
        } else {
            vb
        }))
    }

    /// Elementwise maximum; see [`spec_max_op`].
    pub fn max_op(self, other: Self) -> (r: Result<Value, VmError>)
        ensures
            r == spec_max_op(self, other),
    {
        let (ea, wa, va) = parts(&self);
        let (eb, wb, vb) = parts(&other);
        if !ea || !eb || wa == 0 || wb == 0 {
            return Err(VmError::UnsupportedOperands);
        }
        let w = if wa >= wb {
            wa
        } else {
            wb
        };
        proof {
            lemma_value_fits(wa as nat, w as nat, va);
            lemma_value_fits(wb as nat, w as nat, vb);
        }
        Ok(make_int(true, w, if va >= vb {
            va
        } else {
            vb
        }))
    }

    /// Negation; see [`spec_neg_op`].
    pub fn neg(&self) -> (r: Value)
        ensures
            r == spec_neg_op(*self),
    {
        match self {
            Value::Bool(b) => Value::Bool(!*b),
            Value::Ebool(b) => Value::Ebool(!*b),
            _ => {
                let (enc, w, va) = parts(self);
                let base: u128 = if enc {
                    0
                } else {
                    1
                };
                let s = base.wrapping_sub(va);
                proof {
                    lemma_mod_u128_chain(base - va, w as nat);
                }
                make_int(enc, w, mod_width(w, s))
            },
        }
    }

    /// Oblivious selection; see [`spec_mux_op`].
    pub fn mux_op(self, on_true: Self, on_false: Self) -> (r: Result<Value, VmError>)
        ensures
            r == spec_mux_op(self, on_true, on_false),
    {
        let cond = match self {
            Value::Ebool(b) => b,
            _ => {
                return Err(VmError::UnsupportedOperands);
            },
        };
        let (eb, wb, _vb) = parts(&on_true);
        let (ec, wc, _vc) = parts(&on_false);
        if !eb || !ec || wb != wc {
            return Err(VmError::UnsupportedOperands);
        }
        Ok(if cond {
            on_true
        } else {
            on_false
        })
    }
}

} // verus!
