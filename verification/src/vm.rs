//! The instruction set, its tag-length-value binary encoding, and the
//! execution engine: operand stack, scratch memory, instruction pointer,
//! dispatch loop, and the oblivious multiplexer.
//!
//! Data-dependent control flow is deliberately absent: jumping on an
//! encrypted condition would either leak the condition through the
//! instruction trace or require running every possible continuation.
//! Conditional *value* selection is the `Mux` instruction; conditional
//! *control flow* must be unrolled into straight-line code by the caller.

use crate::value::{
    logical_value, spec_add_op, spec_and_op, spec_div_op, spec_eq_op, spec_ge_op, spec_gt_op,
    spec_le_op, spec_lt_op, spec_max_op, spec_min_op, spec_mul_op, spec_mux_op, spec_ne_op,
    spec_neg_op, spec_or_op, spec_shl_op, spec_shr_op, spec_sub_op, spec_xor_op, is_bool_value,
    Value, VmError,
};
use vstd::prelude::*;

verus! {

/// The closed instruction set. Each instruction is stateless except for
/// its effect on the machine's stack and scratch memory.
///
/// There is no jump of any kind: see the module documentation.
#[derive(Clone, Copy, Debug, PartialEq, Eq, Structural)]
pub enum OpCode {
    // arithmetic
    Add,
    Sub,
    Mul,
    Div,
    Neg,
    // bitwise operations
    And,
    Or,
    Xor,
    ShiftRight,
    ShiftLeft,
    // comparison
    Eq,
    Neq,
    Lt,
    Lte,
    Gt,
    Gte,
    Min,
    Max,
    // oblivious multiplex
    Mux,
    /// Push carries the value with it.
    Push(Value),
    /// Duplicate the top item on the stack.
    Dup,
    /// No operation; still advances the instruction pointer.
    NoOp,
    Inc,
    Dec,
    /// Read from a scratch-memory address.
    Load(i32),
    /// Write to a scratch-memory address, growing the memory on demand.
    Store(i32),
    Swap,
}

// ---------------------------------------------------------------------------
// The value codec: one discriminant byte, then a little-endian payload whose
// length is fixed per variant and never stored in the stream.
// ---------------------------------------------------------------------------

/// The discriminant byte of a value's encoding: stable and unique per
/// variant.
pub open spec fn value_tag(v: Value) -> u8 {
    match v {
        Value::Ebool(_) => 0,
        Value::Euint8(_) => 1,
        Value::Euint16(_) => 2,
        Value::Euint32(_) => 3,
        Value::Euint64(_) => 4,
        Value::Euint128(_) => 5,
        Value::Bool(_) => 6,
        Value::Uint8(_) => 7,
        Value::Uint16(_) => 8,
        Value::Uint32(_) => 9,
        Value::Uint64(_) => 10,
        Value::Uint128(_) => 11,
    }
}

/// The payload length, in bytes, that each discriminant implies. The
/// decoder consults this — the payload codec's own length report — rather
/// than any stored length field.
pub open spec fn tag_payload_len(tag: u8) -> nat {
    if tag == 0 || tag == 6 {
        1
    } else if tag == 1 || tag == 7 {
        1
    } else if tag == 2 || tag == 8 {
        2
    } else if tag == 3 || tag == 9 {
        4
    } else if tag == 4 || tag == 10 {
        8
    } else {
        16
    }
}

/// Whether a leading byte is one of the twelve value discriminants.
pub open spec fn valid_value_tag(tag: u8) -> bool {
    tag <= 11
}

/// `256^len`: the number of payloads a `len`-byte field can hold.
pub open spec fn pow256(len: nat) -> nat
    decreases len,
{
    if len == 0 {
        1
    } else {
        256 * pow256((len - 1) as nat)
    }
}

/// The little-endian encoding of `n` in exactly `len` bytes.
pub open spec fn le_bytes(n: nat, len: nat) -> Seq<u8>
    decreases len,
{
    if len == 0 {
        Seq::empty()
    } else {
        seq![(n % 256) as u8] + le_bytes(n / 256, (len - 1) as nat)
    }
}

/// The number read back from a little-endian byte field.
pub open spec fn le_value(bytes: Seq<u8>) -> nat
    decreases bytes.len(),
{
    if bytes.len() == 0 {
        0
    } else {
        (bytes[0] + 256 * le_value(bytes.skip(1))) as nat
    }
}

/// The full encoding of one value: discriminant, then payload.
pub open spec fn value_bytes(v: Value) -> Seq<u8> {
    seq![value_tag(v)] + le_bytes(logical_value(v) as nat, tag_payload_len(value_tag(v)))
}

/// The value a discriminant and a payload number decode to.
pub open spec fn value_of_tag(tag: u8, n: nat) -> Value {
    if tag == 0 {
        Value::Ebool(n == 1)
    } else if tag == 1 {
        Value::Euint8(n as u8)
    } else if tag == 2 {
        Value::Euint16(n as u16)
    } else if tag == 3 {
        Value::Euint32(n as u32)
    } else if tag == 4 {
        Value::Euint64(n as u64)
    } else if tag == 5 {
        Value::Euint128(n as u128)
    } else if tag == 6 {
        Value::Bool(n == 1)
    } else if tag == 7 {
        Value::Uint8(n as u8)
    } else if tag == 8 {
        Value::Uint16(n as u16)
    } else if tag == 9 {
        Value::Uint32(n as u32)
    } else if tag == 10 {
        Value::Uint64(n as u64)
    } else {
        Value::Uint128(n as u128)
    }
}

/// One value parsed off the front of a byte stream, with the number of
/// bytes it consumed. `None` on an unknown discriminant, a truncated
/// payload, or a boolean payload other than 0 and 1.
pub open spec fn spec_parse_value(bytes: Seq<u8>) -> Option<(Value, nat)> {
    if bytes.len() == 0 {
        None
    } else {
        let tag = bytes[0];
        if !valid_value_tag(tag) {
            None
        } else {
            let plen = tag_payload_len(tag);
            if bytes.len() < 1 + plen {
                None
            } else {
                let n = le_value(bytes.subrange(1, 1 + plen as int));
                if (tag == 0 || tag == 6) && n > 1 {
                    None
                } else {
                    Some((value_of_tag(tag, n), 1 + plen))
                }
            }
        }
    }
}

// ---------------------------------------------------------------------------
// Codec groundwork lemmas.
// ---------------------------------------------------------------------------

/// The encoding is exactly as long as asked for.
pub proof fn lemma_le_bytes_len(n: nat, len: nat)
    ensures
        le_bytes(n, len).len() == len,
    decreases len,
{
    if len > 0 {
        lemma_le_bytes_len(n / 256, (len - 1) as nat);
    }
}

/// A `len`-byte field holds a number below `256^len`.
pub proof fn lemma_le_value_bound(bytes: Seq<u8>)
    ensures
        le_value(bytes) < pow256(bytes.len()),
    decreases bytes.len(),
{
    if bytes.len() > 0 {
        lemma_le_value_bound(bytes.skip(1));
    }
}

/// Decoding inverts encoding for any number that fits the field.
pub proof fn lemma_le_round_trip(n: nat, len: nat)
    requires
        n < pow256(len),
    ensures
        le_value(le_bytes(n, len)) == n,
    decreases len,
{
    if len > 0 {
        lemma_le_bytes_len(n / 256, (len - 1) as nat);
        assert(le_bytes(n, len).skip(1) =~= le_bytes(n / 256, (len - 1) as nat));
        lemma_le_round_trip(n / 256, (len - 1) as nat);
    }
}

/// The concrete sizes of the payload fields in use.
proof fn lemma_pow256_values()
    ensures
        pow256(1) == 0x100,
        pow256(2) == 0x1_0000,
        pow256(4) == 0x1_0000_0000,
        pow256(8) == 0x1_0000_0000_0000_0000,
        pow256(16) == 0x1_0000_0000_0000_0000_0000_0000_0000_0000,
{
    assert(pow256(0) == 1);
    assert(pow256(1) == 256);
    assert(pow256(2) == 0x1_0000);
    assert(pow256(3) == 0x100_0000);
    assert(pow256(4) == 0x1_0000_0000);
    assert(pow256(5) == 0x100_0000_0000);
    assert(pow256(6) == 0x1_0000_0000_0000);
    assert(pow256(7) == 0x100_0000_0000_0000);
    assert(pow256(8) == 0x1_0000_0000_0000_0000);
    assert(pow256(9) == 0x100_0000_0000_0000_0000);
    assert(pow256(10) == 0x1_0000_0000_0000_0000_0000);
    assert(pow256(11) == 0x100_0000_0000_0000_0000_0000);
    assert(pow256(12) == 0x1_0000_0000_0000_0000_0000_0000);
    assert(pow256(13) == 0x100_0000_0000_0000_0000_0000_0000);
    assert(pow256(14) == 0x1_0000_0000_0000_0000_0000_0000_0000);
    assert(pow256(15) == 0x100_0000_0000_0000_0000_0000_0000_0000);
    assert(pow256(16) == 0x1_0000_0000_0000_0000_0000_0000_0000_0000);
}

/// Every value's logical payload fits its payload field.
proof fn lemma_value_payload_fits(v: Value)
    ensures
        (logical_value(v) as nat) < pow256(tag_payload_len(value_tag(v))),
{
    lemma_pow256_values();
}

/// Parsing the encoding of a value off the front of any stream yields
/// exactly that value and consumes exactly its encoding.
pub proof fn lemma_parse_value_prefix(v: Value, rest: Seq<u8>)
    ensures
        spec_parse_value(value_bytes(v) + rest) == Some(
            (v, value_bytes(v).len()),
        ),
{
    let tag = value_tag(v);
    let plen = tag_payload_len(tag);
    let payload = le_bytes(logical_value(v) as nat, plen);
    lemma_le_bytes_len(logical_value(v) as nat, plen);
    let all = value_bytes(v) + rest;
    assert(all[0] == tag);
    assert(all.subrange(1, 1 + plen as int) =~= payload);
    lemma_value_payload_fits(v);
    lemma_le_round_trip(logical_value(v) as nat, plen);
    assert(le_value(payload) == logical_value(v) as nat);
    assert(value_of_tag(tag, logical_value(v) as nat) == v);
}

// ---------------------------------------------------------------------------
// The opcode codec: a 1:1 leading tag byte per instruction. `Push` is
// variable-length (tag, then a full value encoding); `Load` and `Store`
// are fixed five bytes (tag, then a 4-byte little-endian address); all
// others are one byte.
// ---------------------------------------------------------------------------

/// The leading tag byte of each instruction. No two instructions share a
/// tag; gaps in the numbering are never assigned.
pub open spec fn opcode_tag(op: OpCode) -> u8 {
    match op {
        OpCode::Add => 0,
        OpCode::Sub => 1,
        OpCode::Mul => 2,
        OpCode::Div => 3,
        OpCode::And => 4,
        OpCode::Or => 5,
        OpCode::Xor => 6,
        OpCode::ShiftRight => 7,
        OpCode::ShiftLeft => 8,
        OpCode::Eq => 9,
        OpCode::Neq => 10,
        OpCode::Lt => 11,
        OpCode::Lte => 12,
        OpCode::Gt => 13,
        OpCode::Gte => 14,
        OpCode::Min => 15,
        OpCode::Max => 16,
        OpCode::Mux => 17,
        OpCode::NoOp => 20,
        OpCode::Dup => 21,
        OpCode::Push(_) => 22,
        OpCode::Inc => 23,
        OpCode::Dec => 24,
        OpCode::Load(_) => 25,
        OpCode::Store(_) => 26,
        OpCode::Swap => 27,
        OpCode::Neg => 28,
    }
}

/// A `Load`/`Store` address as the unsigned number its two's-complement
/// bytes spell.
pub open spec fn addr_to_nat(a: i32) -> nat {
    if a >= 0 {
        a as nat
    } else {
        (a + 0x1_0000_0000) as nat
    }
}

/// The address read back from its unsigned two's-complement number.
pub open spec fn nat_to_addr(n: nat) -> i32 {
    if n < 0x8000_0000 {
        n as i32
    } else {
        (n - 0x1_0000_0000) as i32
    }
}

/// The full encoding of one instruction.
pub open spec fn opcode_bytes(op: OpCode) -> Seq<u8> {
    match op {
        OpCode::Push(v) => seq![22u8] + value_bytes(v),
        OpCode::Load(a) => seq![25u8] + le_bytes(addr_to_nat(a), 4),
        OpCode::Store(a) => seq![26u8] + le_bytes(addr_to_nat(a), 4),
        _ => seq![opcode_tag(op)],
    }
}

/// The single-byte instruction a tag decodes to, if any.
pub open spec fn unit_opcode_of_tag(tag: u8) -> Option<OpCode> {
    if tag == 0 {
        Some(OpCode::Add)
    } else if tag == 1 {
        Some(OpCode::Sub)
    } else if tag == 2 {
        Some(OpCode::Mul)
    } else if tag == 3 {
        Some(OpCode::Div)
    } else if tag == 4 {
        Some(OpCode::And)
    } else if tag == 5 {
        Some(OpCode::Or)
    } else if tag == 6 {
        Some(OpCode::Xor)
    } else if tag == 7 {
        Some(OpCode::ShiftRight)
    } else if tag == 8 {
        Some(OpCode::ShiftLeft)
    } else if tag == 9 {
        Some(OpCode::Eq)
    } else if tag == 10 {
        Some(OpCode::Neq)
    } else if tag == 11 {
        Some(OpCode::Lt)
    } else if tag == 12 {
        Some(OpCode::Lte)
    } else if tag == 13 {
        Some(OpCode::Gt)
    } else if tag == 14 {
        Some(OpCode::Gte)
    } else if tag == 15 {
        Some(OpCode::Min)
    } else if tag == 16 {
        Some(OpCode::Max)
    } else if tag == 17 {
        Some(OpCode::Mux)
    } else if tag == 20 {
        Some(OpCode::NoOp)
    } else if tag == 21 {
        Some(OpCode::Dup)
    } else if tag == 23 {
        Some(OpCode::Inc)
    } else if tag == 24 {
        Some(OpCode::Dec)
    } else if tag == 27 {
        Some(OpCode::Swap)
    } else if tag == 28 {
        Some(OpCode::Neg)
    } else {
        None
    }
}

/// One instruction parsed off the front of a byte stream, with the number
/// of bytes it consumed. An unrecognized tag or a truncated operand
/// yields `None`: a corrupt stream cannot be safely resynchronized, so
/// the decoder never guesses.
pub open spec fn spec_parse_opcode(bytes: Seq<u8>) -> Option<(OpCode, nat)> {
    if bytes.len() == 0 {
        None
    } else {
        let tag = bytes[0];
        if tag == 22 {
            match spec_parse_value(bytes.skip(1)) {
                Some(p) => Some((OpCode::Push(p.0), 1 + p.1)),
                None => None,
            }
        } else if tag == 25 || tag == 26 {
            if bytes.len() < 5 {
                None
            } else {
                let a = nat_to_addr(le_value(bytes.subrange(1, 5)));
                if tag == 25 {
                    Some((OpCode::Load(a), 5))
                } else {
                    Some((OpCode::Store(a), 5))
                }
            }
        } else {
            match unit_opcode_of_tag(tag) {
                Some(op) => Some((op, 1)),
                None => None,
            }
        }
    }
}

/// A whole program flattened to bytes, instruction by instruction.
pub open spec fn program_bytes(ops: Seq<OpCode>) -> Seq<u8>
    decreases ops.len(),
{
    if ops.len() == 0 {
        Seq::empty()
    } else {
        opcode_bytes(ops[0]) + program_bytes(ops.skip(1))
    }
}

/// A whole byte stream parsed back into a program: one instruction after
/// another until the input is exhausted. A trailing partial instruction
/// makes the whole stream invalid.
pub open spec fn spec_parse_program(bytes: Seq<u8>) -> Option<Seq<OpCode>>
    decreases bytes.len(),
{
    if bytes.len() == 0 {
        Some(Seq::empty())
    } else {
        match spec_parse_opcode(bytes) {
            Some(p) => {
                if 1 <= p.1 <= bytes.len() {
                    match spec_parse_program(bytes.skip(p.1 as int)) {
                        Some(tail) => Some(seq![p.0] + tail),
                        None => None,
                    }
                } else {
                    None
                }
            },
            None => None,
        }
    }
}

/// Every instruction encodes to at least its tag byte.
pub proof fn lemma_opcode_bytes_len(op: OpCode)
    ensures
        1 <= opcode_bytes(op).len(),
        opcode_bytes(op)[0] == opcode_tag(op),
{
    match op {
        OpCode::Push(v) => {
            lemma_le_bytes_len(
                logical_value(v) as nat,
                tag_payload_len(value_tag(v)),
            );
        },
        OpCode::Load(a) => {
            lemma_le_bytes_len(addr_to_nat(a), 4);
        },
        OpCode::Store(a) => {
            lemma_le_bytes_len(addr_to_nat(a), 4);
        },
        _ => {},
    }
}

/// Parsing the encoding of an instruction off the front of any stream
/// yields exactly that instruction and consumes exactly its encoding.
pub proof fn lemma_parse_opcode_prefix(op: OpCode, rest: Seq<u8>)
    ensures
        spec_parse_opcode(opcode_bytes(op) + rest) == Some(
            (op, opcode_bytes(op).len()),
        ),
{
    let all = opcode_bytes(op) + rest;
    lemma_opcode_bytes_len(op);
    match op {
        OpCode::Push(v) => {
            assert(all.skip(1) =~= value_bytes(v) + rest);
            lemma_parse_value_prefix(v, rest);
            lemma_le_bytes_len(
                logical_value(v) as nat,
                tag_payload_len(value_tag(v)),
            );
        },
        OpCode::Load(a) => {
            lemma_le_bytes_len(addr_to_nat(a), 4);
            assert(all.subrange(1, 5) =~= le_bytes(addr_to_nat(a), 4));
            lemma_pow256_values();
            lemma_le_round_trip(addr_to_nat(a), 4);
            assert(nat_to_addr(addr_to_nat(a)) == a);
        },
        OpCode::Store(a) => {
            lemma_le_bytes_len(addr_to_nat(a), 4);
            assert(all.subrange(1, 5) =~= le_bytes(addr_to_nat(a), 4));
            lemma_pow256_values();
            lemma_le_round_trip(addr_to_nat(a), 4);
            assert(nat_to_addr(addr_to_nat(a)) == a);
        },
        _ => {},
    }
}

/// Bytecode round-trip: any program, flattened to bytes, parses back to
/// exactly itself.
pub proof fn lemma_bytecode_round_trip(ops: Seq<OpCode>)
    ensures
        spec_parse_program(program_bytes(ops)) == Some(ops),
    decreases ops.len(),
{
    if ops.len() == 0 {
        assert(program_bytes(ops).len() == 0);
        assert(Some(Seq::<OpCode>::empty()) == Some(ops));
    } else {
        let head = ops[0];
        let tail = ops.skip(1);
        let head_bytes = opcode_bytes(head);
        let tail_bytes = program_bytes(tail);
        lemma_parse_opcode_prefix(head, tail_bytes);
        lemma_opcode_bytes_len(head);
        assert((head_bytes + tail_bytes).skip(head_bytes.len() as int) =~= tail_bytes);
        lemma_bytecode_round_trip(tail);
        assert(seq![head] + tail =~= ops);
    }
}

/// Larger fields hold no fewer payloads.
proof fn lemma_pow256_mono(a: nat, b: nat)
    requires
        a <= b,
    ensures
        pow256(a) <= pow256(b),
    decreases b,
{
    if a < b && b > 0 {
        lemma_pow256_mono(a, (b - 1) as nat);
    }
}

/// Emits the little-endian encoding of `n` in exactly `len` bytes.
fn le_bytes_exec(n: u128, len: usize) -> (r: Vec<u8>)
    ensures
        r@ == le_bytes(n as nat, len as nat),
{
    let mut out: Vec<u8> = Vec::new();
    let mut cur = n;
    let mut i: usize = 0;
    while i < len
        invariant
            i <= len,
            out@ + le_bytes(cur as nat, (len - i) as nat) == le_bytes(n as nat, len as nat),
        decreases len - i,
    {
        proof {
            assert(le_bytes(cur as nat, (len - i) as nat) =~= seq![((cur as nat) % 256) as u8]
                + le_bytes((cur as nat) / 256, (len - i - 1) as nat));
            assert((out@ + seq![((cur as nat) % 256) as u8]) + le_bytes(
                (cur as nat) / 256,
                (len - i - 1) as nat,
            ) =~= out@ + (seq![((cur as nat) % 256) as u8] + le_bytes(
                (cur as nat) / 256,
                (len - i - 1) as nat,
            )));
        }
        out.push((cur % 256) as u8);
        cur = cur / 256;
        i = i + 1;
    }
    proof {
        assert(out@ + le_bytes(cur as nat, 0) =~= out@);
    }
    out
}

/// Reads the number a `len`-byte little-endian field holds, starting at
/// `start`.
fn read_le(bytes: &[u8], start: usize, len: usize) -> (r: u128)
    requires
        start + len <= bytes@.len(),
        len <= 16,
    ensures
        r as nat == le_value(bytes@.subrange(start as int, (start + len) as int)),
{
    let blen = bytes.len();
    let mut acc: u128 = 0;
    let mut i: usize = len;
    proof {
        assert(bytes@.subrange((start + len) as int, (start + len) as int) =~= Seq::empty());
    }
    while i > 0
        invariant
            i <= len,
            len <= 16,
            start + len <= bytes@.len(),
            bytes@.len() == blen,
            acc as nat == le_value(bytes@.subrange((start + i) as int, (start + len) as int)),
        decreases i,
    {
        i = i - 1;
        let b = bytes[start + i];
        proof {
            let field = bytes@.subrange((start + i) as int, (start + len) as int);
            assert(field.len() == len - i);
            assert(field[0] == bytes@[(start + i) as int]);
            assert(field.skip(1) =~= bytes@.subrange((start + i + 1) as int, (start + len) as int));
            lemma_le_value_bound(field.skip(1));
            lemma_pow256_mono(field.skip(1).len(), 15);
            lemma_pow256_values();
        }
        acc = (b as u128) + 256 * acc;
    }
    acc
}

/// Builds one value encoding: discriminant, then payload.
fn build_value_bytes(tag: u8, plen: usize, payload: u128) -> (r: Vec<u8>)
    ensures
        r@ == seq![tag] + le_bytes(payload as nat, plen as nat),
{
    let mut out: Vec<u8> = Vec::new();
    out.push(tag);
    let mut p = le_bytes_exec(payload, plen);
    out.append(&mut p);
    proof {
        assert(out@ =~= seq![tag] + le_bytes(payload as nat, plen as nat));
    }
    out
}

impl Value {
    /// Serializes this value: one discriminant byte, then the payload in
    /// little-endian bytes, the fixed count its variant implies.
    pub fn to_bytes(&self) -> (r: Vec<u8>)
        ensures
            r@ == value_bytes(*self),
    {
        match self {
            Value::Ebool(b) => build_value_bytes(0, 1, if *b { 1 } else { 0 }),
            Value::Euint8(n) => build_value_bytes(1, 1, *n as u128),
            Value::Euint16(n) => build_value_bytes(2, 2, *n as u128),
            Value::Euint32(n) => build_value_bytes(3, 4, *n as u128),
            Value::Euint64(n) => build_value_bytes(4, 8, *n as u128),
            Value::Euint128(n) => build_value_bytes(5, 16, *n),
            Value::Bool(b) => build_value_bytes(6, 1, if *b { 1 } else { 0 }),
            Value::Uint8(n) => build_value_bytes(7, 1, *n as u128),
            Value::Uint16(n) => build_value_bytes(8, 2, *n as u128),
            Value::Uint32(n) => build_value_bytes(9, 4, *n as u128),
            Value::Uint64(n) => build_value_bytes(10, 8, *n as u128),
            Value::Uint128(n) => build_value_bytes(11, 16, *n),
        }
    }

    /// Deserializes one value off the front of `bytes`, returning it with
    /// the number of bytes consumed. The payload length comes from the
    /// discriminant, never from the stream.
    pub fn from_bytes(bytes: &[u8]) -> (r: Result<(Value, usize), VmError>)
        ensures
            match spec_parse_value(bytes@) {
                Some(p) => r is Ok && r->Ok_0.0 == p.0 && r->Ok_0.1 as nat == p.1,
                None => r == Err::<(Value, usize), VmError>(VmError::DecodeError),
            },
    {
        if bytes.len() == 0 {
            return Err(VmError::DecodeError);
        }
        let tag = bytes[0];
        if tag > 11 {
            return Err(VmError::DecodeError);
        }
        let plen: usize = if tag == 0 || tag == 6 {
            1
        } else if tag == 1 || tag == 7 {
            1
        } else if tag == 2 || tag == 8 {
            2
        } else if tag == 3 || tag == 9 {
            4
        } else if tag == 4 || tag == 10 {
            8
        } else {
            16
        };
        if bytes.len() < 1 + plen {
            return Err(VmError::DecodeError);
        }
        let n = read_le(bytes, 1, plen);
        proof {
            lemma_le_value_bound(bytes@.subrange(1, (1 + plen) as int));
            lemma_pow256_values();
        }
        let v = if tag == 0 {
            if n > 1 {
                return Err(VmError::DecodeError);
            }
            Value::Ebool(n == 1)
        } else if tag == 1 {
            Value::Euint8(n as u8)
        } else if tag == 2 {
            Value::Euint16(n as u16)
        } else if tag == 3 {
            Value::Euint32(n as u32)
        } else if tag == 4 {
            Value::Euint64(n as u64)
        } else if tag == 5 {
            Value::Euint128(n)
        } else if tag == 6 {
            if n > 1 {
                return Err(VmError::DecodeError);
            }
            Value::Bool(n == 1)
        } else if tag == 7 {
            Value::Uint8(n as u8)
        } else if tag == 8 {
            Value::Uint16(n as u16)
        } else if tag == 9 {
            Value::Uint32(n as u32)
        } else if tag == 10 {
            Value::Uint64(n as u64)
        } else {
            Value::Uint128(n)
        };
        Ok((v, 1 + plen))
    }
}

impl OpCode {
    /// Serializes this instruction: its tag byte, then its operand bytes
    /// if it has any.
    pub fn to_bytes(&self) -> (r: Vec<u8>)
        ensures
            r@ == opcode_bytes(*self),
    {
        match self {
            OpCode::Add => vec![0],
            OpCode::Sub => vec![1],
            OpCode::Mul => vec![2],
            OpCode::Div => vec![3],
            OpCode::And => vec![4],
            OpCode::Or => vec![5],
            OpCode::Xor => vec![6],
            OpCode::ShiftRight => vec![7],
            OpCode::ShiftLeft => vec![8],
            OpCode::Eq => vec![9],
            OpCode::Neq => vec![10],
            OpCode::Lt => vec![11],
            OpCode::Lte => vec![12],
            OpCode::Gt => vec![13],
            OpCode::Gte => vec![14],
            OpCode::Min => vec![15],
            OpCode::Max => vec![16],
            OpCode::Mux => vec![17],
            OpCode::NoOp => vec![20],
            OpCode::Dup => vec![21],
            OpCode::Push(value) => {
                let mut out: Vec<u8> = Vec::new();
                out.push(22);
                let mut p = value.to_bytes();
                out.append(&mut p);
                proof {
                    assert(out@ =~= seq![22u8] + value_bytes(*value));
                }
                out
            },
            OpCode::Inc => vec![23],
            OpCode::Dec => vec![24],
            OpCode::Load(address) => {
                let ua: u32 = if *address >= 0 {
                    *address as u32
                } else {
                    ((*address as i64) + 0x1_0000_0000i64) as u32
                };
                proof {
                    assert(ua as nat == addr_to_nat(*address));
                }
                let mut out: Vec<u8> = Vec::new();
                out.push(25);
                let mut p = le_bytes_exec(ua as u128, 4);
                out.append(&mut p);
                proof {
                    assert(out@ =~= seq![25u8] + le_bytes(addr_to_nat(*address), 4));
                }
                out
            },
            OpCode::Store(address) => {
                let ua: u32 = if *address >= 0 {
                    *address as u32
                } else {
                    ((*address as i64) + 0x1_0000_0000i64) as u32
                };
                proof {
                    assert(ua as nat == addr_to_nat(*address));
                }
                let mut out: Vec<u8> = Vec::new();
                out.push(26);
                let mut p = le_bytes_exec(ua as u128, 4);
                out.append(&mut p);
                proof {
                    assert(out@ =~= seq![26u8] + le_bytes(addr_to_nat(*address), 4));
                }
                out
            },
            OpCode::Swap => vec![27],
            OpCode::Neg => vec![28],
        }
    }

    /// Deserializes one instruction off the front of `bytes`, returning it
    /// with the number of bytes consumed. An unrecognized tag is a fatal
    /// decode error: the decoder does not guess.
    pub fn from_bytes(bytes: &[u8]) -> (r: Result<(OpCode, usize), VmError>)
        ensures
            match spec_parse_opcode(bytes@) {
                Some(p) => r is Ok && r->Ok_0.0 == p.0 && r->Ok_0.1 as nat == p.1,
                None => r == Err::<(OpCode, usize), VmError>(VmError::DecodeError),
            },
    {
        if bytes.len() == 0 {
            return Err(VmError::DecodeError);
        }
        let tag = bytes[0];
        if tag == 22 {
            let tail = vstd::slice::slice_subrange(bytes, 1, bytes.len());
            proof {
                assert(tail@ =~= bytes@.skip(1));
            }
            match Value::from_bytes(tail) {
                Ok((v, c)) => Ok((OpCode::Push(v), 1 + c)),
                Err(e) => Err(e),
            }
        } else if tag == 25 || tag == 26 {
            if bytes.len() < 5 {
                return Err(VmError::DecodeError);
            }
            let n = read_le(bytes, 1, 4);
            proof {
                lemma_le_value_bound(bytes@.subrange(1, 5));
                lemma_pow256_values();
            }
            let un = n as u32;
            let a: i32 = if un < 0x8000_0000 {
                un as i32
            } else {
                ((un as i64) - 0x1_0000_0000i64) as i32
            };
            proof {
                assert(a == nat_to_addr(n as nat));
            }
            if tag == 25 {
                Ok((OpCode::Load(a), 5))
            } else {
                Ok((OpCode::Store(a), 5))
            }
        } else if tag == 0 {
            Ok((OpCode::Add, 1))
        } else if tag == 1 {
            Ok((OpCode::Sub, 1))
        } else if tag == 2 {
            Ok((OpCode::Mul, 1))
        } else if tag == 3 {
            Ok((OpCode::Div, 1))
        } else if tag == 4 {
            Ok((OpCode::And, 1))
        } else if tag == 5 {
            Ok((OpCode::Or, 1))
        } else if tag == 6 {
            Ok((OpCode::Xor, 1))
        } else if tag == 7 {
            Ok((OpCode::ShiftRight, 1))
        } else if tag == 8 {
            Ok((OpCode::ShiftLeft, 1))
        } else if tag == 9 {
            Ok((OpCode::Eq, 1))
        } else if tag == 10 {
            Ok((OpCode::Neq, 1))
        } else if tag == 11 {
            Ok((OpCode::Lt, 1))
        } else if tag == 12 {
            Ok((OpCode::Lte, 1))
        } else if tag == 13 {
            Ok((OpCode::Gt, 1))
        } else if tag == 14 {
            Ok((OpCode::Gte, 1))
        } else if tag == 15 {
            Ok((OpCode::Min, 1))
        } else if tag == 16 {
            Ok((OpCode::Max, 1))
        } else if tag == 17 {
            Ok((OpCode::Mux, 1))
        } else if tag == 20 {
            Ok((OpCode::NoOp, 1))
        } else if tag == 21 {
            Ok((OpCode::Dup, 1))
        } else if tag == 23 {
            Ok((OpCode::Inc, 1))
        } else if tag == 24 {
            Ok((OpCode::Dec, 1))
        } else if tag == 27 {
            Ok((OpCode::Swap, 1))
        } else if tag == 28 {
            Ok((OpCode::Neg, 1))
        } else {
            Err(VmError::DecodeError)
        }
    }
}

/// Appending one instruction to a program appends its encoding.
proof fn lemma_program_bytes_snoc(ops: Seq<OpCode>, op: OpCode)
    ensures
        program_bytes(ops.push(op)) == program_bytes(ops) + opcode_bytes(op),
    decreases ops.len(),
{
    if ops.len() == 0 {
        let single = ops.push(op);
        assert(single[0] == op);
        assert(single.skip(1) =~= Seq::<OpCode>::empty());
        assert(program_bytes(single) == opcode_bytes(op) + program_bytes(single.skip(1)));
        assert(opcode_bytes(op) + Seq::<u8>::empty() =~= opcode_bytes(op));
        assert(Seq::<u8>::empty() + opcode_bytes(op) =~= opcode_bytes(op));
    } else {
        assert(ops.push(op)[0] == ops[0]);
        assert(ops.push(op).skip(1) =~= ops.skip(1).push(op));
        lemma_program_bytes_snoc(ops.skip(1), op);
        assert((opcode_bytes(ops[0]) + program_bytes(ops.skip(1))) + opcode_bytes(op)
            =~= opcode_bytes(ops[0]) + (program_bytes(ops.skip(1)) + opcode_bytes(op)));
    }
}

/// Flattens a program to bytes by concatenating each instruction's
/// encoding in order.
pub fn serialize(program: &[OpCode]) -> (r: Vec<u8>)
    ensures
        r@ == program_bytes(program@),
{
    let mut out: Vec<u8> = Vec::new();
    let mut i: usize = 0;
    proof {
        assert(program@.take(0) =~= Seq::<OpCode>::empty());
    }
    while i < program.len()
        invariant
            i <= program@.len(),
            out@ == program_bytes(program@.take(i as int)),
        decreases program@.len() - i,
    {
        let mut p = program[i].to_bytes();
        proof {
            assert(program@.take(i + 1) =~= program@.take(i as int).push(program@[i as int]));
            lemma_program_bytes_snoc(program@.take(i as int), program@[i as int]);
        }
        out.append(&mut p);
        i = i + 1;
    }
    proof {
        assert(program@.take(program@.len() as int) =~= program@);
    }
    out
}

/// Parses a byte stream back into a program, one instruction at a time,
/// until the input is exhausted. A trailing partial instruction or an
/// unrecognized tag fails the whole stream.
pub fn deserialize(bytes: &[u8]) -> (r: Result<Vec<OpCode>, VmError>)
    ensures
        match spec_parse_program(bytes@) {
            Some(ops) => r is Ok && r->Ok_0@ == ops,
            None => r == Err::<Vec<OpCode>, VmError>(VmError::DecodeError),
        },
{
    let mut ops: Vec<OpCode> = Vec::new();
    let mut i: usize = 0;
    proof {
        assert(bytes@.skip(0) =~= bytes@);
        if spec_parse_program(bytes@) is Some {
            assert(Seq::<OpCode>::empty() + spec_parse_program(bytes@)->Some_0
                =~= spec_parse_program(bytes@)->Some_0);
        }
    }
    while i < bytes.len()
        invariant
            i <= bytes@.len(),
            spec_parse_program(bytes@) == (match spec_parse_program(bytes@.skip(i as int)) {
                Some(tail) => Some(ops@ + tail),
                None => None::<Seq<OpCode>>,
            }),
        decreases bytes@.len() - i,
    {
        let tail = vstd::slice::slice_subrange(bytes, i, bytes.len());
        proof {
            assert(tail@ =~= bytes@.skip(i as int));
        }
        let (op, c) = match OpCode::from_bytes(tail) {
            Ok(p) => p,
            Err(e) => {
                return Err(e);
            },
        };
        proof {
            let rest = bytes@.skip(i as int);
            let p = spec_parse_opcode(rest)->Some_0;
            assert(1 <= p.1 <= rest.len()) by {
                lemma_parse_opcode_consumes(rest);
            };
            assert(rest.skip(p.1 as int) =~= bytes@.skip(i + c));
            assert(ops@.push(op) + (match spec_parse_program(bytes@.skip(i + c)) {
                Some(t) => t,
                None => Seq::<OpCode>::empty(),
            }) =~= ops@ + (seq![op] + (match spec_parse_program(bytes@.skip(i + c)) {
                Some(t) => t,
                None => Seq::<OpCode>::empty(),
            })));
        }
        ops.push(op);
        i = i + c;
    }
    proof {
        assert(bytes@.skip(bytes@.len() as int) =~= Seq::<u8>::empty());
        assert(ops@ + Seq::<OpCode>::empty() =~= ops@);
    }
    Ok(ops)
}

/// Whatever an instruction parse consumes is at least the tag byte and at
/// most the stream.
proof fn lemma_parse_opcode_consumes(bytes: Seq<u8>)
    requires
        spec_parse_opcode(bytes) is Some,
    ensures
        1 <= spec_parse_opcode(bytes)->Some_0.1 <= bytes.len(),
{
    if bytes.len() > 0 && bytes[0] == 22 {
        assert(spec_parse_value(bytes.skip(1)) is Some);
    }
}

// ---------------------------------------------------------------------------
// The execution engine.
// ---------------------------------------------------------------------------

/// The value-algebra operator a two-operand instruction applies, with the
/// first-popped operand on the right: the stack order `a`, `b` computes
/// `a op b`. Instructions that are not two-operand never reach this.
pub open spec fn apply_binop(op: OpCode, a: Value, b: Value) -> Result<Value, VmError> {
    match op {
        OpCode::Add => spec_add_op(a, b),
        OpCode::Sub => spec_sub_op(a, b),
        OpCode::Mul => spec_mul_op(a, b),
        OpCode::Div => spec_div_op(a, b),
        OpCode::And => spec_and_op(a, b),
        OpCode::Or => spec_or_op(a, b),
        OpCode::Xor => spec_xor_op(a, b),
        OpCode::ShiftRight => spec_shr_op(a, b),
        OpCode::ShiftLeft => spec_shl_op(a, b),
        OpCode::Eq => spec_eq_op(a, b),
        OpCode::Neq => spec_ne_op(a, b),
        OpCode::Lt => spec_lt_op(a, b),
        OpCode::Lte => spec_le_op(a, b),
        OpCode::Gt => spec_gt_op(a, b),
        OpCode::Gte => spec_ge_op(a, b),
        OpCode::Min => spec_min_op(a, b),
        OpCode::Max => spec_max_op(a, b),
        _ => Err(VmError::UnsupportedOperands),
    }
}

/// Whether an instruction is one of the two-operand dispatches above.
pub open spec fn is_binop(op: OpCode) -> bool {
    match op {
        OpCode::Add | OpCode::Sub | OpCode::Mul | OpCode::Div | OpCode::And | OpCode::Or
            | OpCode::Xor | OpCode::ShiftRight | OpCode::ShiftLeft | OpCode::Eq | OpCode::Neq
            | OpCode::Lt | OpCode::Lte | OpCode::Gt | OpCode::Gte | OpCode::Min
            | OpCode::Max => true,
        _ => false,
    }
}

/// The effect of one instruction on the stack and the scratch memory.
///
/// The second-from-top stack entry is always the left-hand operand: the
/// first-pushed operand is the left-hand side of `a op b`. `Store` grows
/// the memory on demand, filling fresh slots with the placeholder value
/// `Ebool(false)` — a trivially encrypted false — before writing; `Load`
/// of an address never populated is a fatal error, with no implicit
/// default on read.
pub open spec fn spec_step(stack: Seq<Value>, mem: Seq<Value>, op: OpCode) -> Result<
    (Seq<Value>, Seq<Value>),
    VmError,
> {
    if is_binop(op) {
        if stack.len() < 2 {
            Err(VmError::StackUnderflow)
        } else {
            let b = stack[stack.len() - 1];
            let a = stack[stack.len() - 2];
            match apply_binop(op, a, b) {
                Ok(v) => Ok((stack.take(stack.len() - 2).push(v), mem)),
                Err(e) => Err(e),
            }
        }
    } else {
        match op {
            OpCode::Push(v) => Ok((stack.push(v), mem)),
            OpCode::Mux => {
                if stack.len() < 3 {
                    Err(VmError::StackUnderflow)
                } else {
                    let c = stack[stack.len() - 1];
                    let b = stack[stack.len() - 2];
                    let a = stack[stack.len() - 3];
                    match spec_mux_op(a, b, c) {
                        Ok(v) => Ok((stack.take(stack.len() - 3).push(v), mem)),
                        Err(e) => Err(e),
                    }
                }
            },
            OpCode::Dup => {
                if stack.len() < 1 {
                    Err(VmError::StackUnderflow)
                } else {
                    Ok((stack.push(stack.last()), mem))
                }
            },
            OpCode::NoOp => Ok((stack, mem)),
            OpCode::Inc => {
                if stack.len() < 1 {
                    Err(VmError::StackUnderflow)
                } else if is_bool_value(stack.last()) {
                    Err(VmError::UnsupportedOperands)
                } else {
                    match spec_add_op(stack.last(), Value::Uint8(1)) {
                        Ok(v) => Ok((stack.drop_last().push(v), mem)),
                        Err(e) => Err(e),
                    }
                }
            },
            OpCode::Dec => {
                if stack.len() < 1 {
                    Err(VmError::StackUnderflow)
                } else if is_bool_value(stack.last()) {
                    Err(VmError::UnsupportedOperands)
                } else {
                    match spec_sub_op(stack.last(), Value::Uint8(1)) {
                        Ok(v) => Ok((stack.drop_last().push(v), mem)),
                        Err(e) => Err(e),
                    }
                }
            },
            OpCode::Neg => {
                if stack.len() < 1 {
                    Err(VmError::StackUnderflow)
                } else {
                    Ok((stack.drop_last().push(spec_neg_op(stack.last())), mem))
                }
            },
            OpCode::Load(addr) => {
                if addr < 0 || addr >= mem.len() {
                    Err(VmError::MemoryIndexOutOfRange)
                } else {
                    Ok((stack.push(mem[addr as int]), mem))
                }
            },
            OpCode::Store(addr) => {
                if stack.len() < 1 {
                    Err(VmError::StackUnderflow)
                } else if addr < 0 {
                    Err(VmError::MemoryIndexOutOfRange)
                } else {
                    let grown = if mem.len() <= addr {
                        mem + Seq::new((addr + 1 - mem.len()) as nat, |i: int| Value::Ebool(false))
                    } else {
                        mem
                    };
                    Ok((stack.drop_last(), grown.update(addr as int, stack.last())))
                }
            },
            OpCode::Swap => {
                if stack.len() < 2 {
                    Err(VmError::StackUnderflow)
                } else {
                    Ok(
                        (
                            stack.take(stack.len() - 2).push(stack[stack.len() - 1]).push(
                                stack[stack.len() - 2],
                            ),
                            mem,
                        ),
                    )
                }
            },
            _ => Err(VmError::UnsupportedOperands),
        }
    }
}

/// A whole program run from a given stack and memory: the fold of
/// [`spec_step`] over the instructions, stopping at the first failure.
pub open spec fn spec_run(stack: Seq<Value>, mem: Seq<Value>, ops: Seq<OpCode>) -> Result<
    (Seq<Value>, Seq<Value>),
    VmError,
>
    decreases ops.len(),
{
    if ops.len() == 0 {
        Ok((stack, mem))
    } else {
        match spec_step(stack, mem, ops[0]) {
            Ok(p) => spec_run(p.0, p.1, ops.skip(1)),
            Err(e) => Err(e),
        }
    }
}

/// The two-operand dispatch as executable code.
fn apply_binop_exec(op: OpCode, a: Value, b: Value) -> (r: Result<Value, VmError>)
    ensures
        r == apply_binop(op, a, b),
{
    match op {
        OpCode::Add => a.add_op(b),
        OpCode::Sub => a.sub_op(b),
        OpCode::Mul => a.mul_op(b),
        OpCode::Div => a.div_op(b),
        OpCode::And => a.and_op(b),
        OpCode::Or => a.or_op(b),
        OpCode::Xor => a.xor_op(b),
        OpCode::ShiftRight => a.shr_op(b),
        OpCode::ShiftLeft => a.shl_op(b),
        OpCode::Eq => a.eq_op(b),
        OpCode::Neq => a.ne_op(b),
        OpCode::Lt => a.lt_op(b),
        OpCode::Lte => a.le_op(b),
        OpCode::Gt => a.gt_op(b),
        OpCode::Gte => a.ge_op(b),
        OpCode::Min => a.min_op(b),
        OpCode::Max => a.max_op(b),
        _ => Err(VmError::UnsupportedOperands),
    }
}

/// Stepping through one more instruction of the tail.
proof fn lemma_skip_step(ops: Seq<OpCode>, i: int)
    requires
        0 <= i < ops.len(),
    ensures
        ops.skip(i)[0] == ops[i],
        ops.skip(i).skip(1) == ops.skip(i + 1),
        ops.skip(i).len() == ops.len() - i,
{
    assert(ops.skip(i).skip(1) =~= ops.skip(i + 1));
}

/// The machine: an operand stack, a scratch memory that grows on demand,
/// and an instruction pointer.
///
/// Stack and memory persist across repeated [`VM::execute`] calls on one
/// instance: leftover stack entries and memory contents are deliberately
/// not cleared between calls, so a caller wanting a fresh run must build a
/// fresh machine.
pub struct VM {
    pub stack: Vec<Value>,
    memory: Vec<Value>,
    ip: usize,
}

impl VM {
    /// The operand stack, as a sequence with the top at the end.
    pub closed spec fn stack_view(&self) -> Seq<Value> {
        self.stack@
    }

    /// The scratch memory, as the sequence of populated slots.
    pub closed spec fn memory_view(&self) -> Seq<Value> {
        self.memory@
    }

    /// The instruction pointer.
    pub closed spec fn ip_view(&self) -> nat {
        self.ip as nat
    }

    /// A fresh machine: empty stack, empty memory, instruction pointer at
    /// the start.
    pub fn new() -> (vm: VM)
        ensures
            vm.stack_view() == Seq::<Value>::empty(),
            vm.memory_view() == Seq::<Value>::empty(),
            vm.ip_view() == 0,
    {
        VM { stack: Vec::new(), ip: 0, memory: Vec::new() }
    }

    /// Pops the top of the operand stack; `None` when the stack is empty.
    pub fn pop(&mut self) -> (r: Option<Value>)
        ensures
            old(self).stack_view().len() == 0 ==> r is None && final(self).stack_view() == old(self).stack_view(),
            old(self).stack_view().len() > 0 ==> r == Some(old(self).stack_view().last())
                && final(self).stack_view() == old(self).stack_view().drop_last(),
            final(self).memory_view() == old(self).memory_view(),
            final(self).ip_view() == old(self).ip_view(),
    {
        self.stack.pop()
    }

    /// Runs a program to completion or to its first fault: exactly the
    /// fold of [`spec_step`] over the instructions, starting from the
    /// stack and memory this machine already holds.
    ///
    /// On success the stack and memory are the fold's result and the
    /// instruction pointer sits one past the last instruction. On a fault
    /// the error is exactly the fold's, and there is no partial-result
    /// contract: the stack and memory are left as the failed run left
    /// them.
    #[verifier::rlimit(100)]
    pub fn execute(&mut self, code: &[OpCode]) -> (r: Result<(), VmError>)
        ensures
            match spec_run(old(self).stack_view(), old(self).memory_view(), code@) {
                Ok(p) => r == Ok::<(), VmError>(()) && final(self).stack_view() == p.0
                    && final(self).memory_view() == p.1
                    && final(self).ip_view() == code@.len(),
                Err(e) => r == Err::<(), VmError>(e),
            },
    {
        self.ip = 0;
        let clen = code.len();
        proof {
            assert(code@.skip(0) =~= code@);
        }
        while self.ip < clen
            invariant
                self.ip <= code@.len(),
                code@.len() == clen,
                spec_run(old(self).stack_view(), old(self).memory_view(), code@) == spec_run(
                    self.stack@,
                    self.memory@,
                    code@.skip(self.ip as int),
                ),
            decreases code@.len() - self.ip,
        {
            let ghost s0 = self.stack@;
            let ghost m0 = self.memory@;
            let op = code[self.ip];
            proof {
                lemma_skip_step(code@, self.ip as int);
            }
            match op {
                OpCode::Add | OpCode::Sub | OpCode::Mul | OpCode::Div | OpCode::And | OpCode::Or
                    | OpCode::Xor | OpCode::ShiftRight | OpCode::ShiftLeft | OpCode::Eq
                    | OpCode::Neq | OpCode::Lt | OpCode::Lte | OpCode::Gt | OpCode::Gte
                    | OpCode::Min | OpCode::Max => {
                    let b = match self.stack.pop() {
                        Some(v) => v,
                        None => {
                            return Err(VmError::StackUnderflow);
                        },
                    };
                    let a = match self.stack.pop() {
                        Some(v) => v,
                        None => {
                            return Err(VmError::StackUnderflow);
                        },
                    };
                    let v = match apply_binop_exec(op, a, b) {
                        Ok(v) => v,
                        Err(e) => {
                            return Err(e);
                        },
                    };
                    proof {
                        assert(self.stack@ =~= s0.take(s0.len() - 2));
                    }
                    self.stack.push(v);
                },
                OpCode::Push(value) => {
                    self.stack.push(value);
                },
                OpCode::Mux => {
                    let c = match self.stack.pop() {
                        Some(v) => v,
                        None => {
                            return Err(VmError::StackUnderflow);
                        },
                    };
                    let b = match self.stack.pop() {
                        Some(v) => v,
                        None => {
                            return Err(VmError::StackUnderflow);
                        },
                    };
                    let a = match self.stack.pop() {
                        Some(v) => v,
                        None => {
                            return Err(VmError::StackUnderflow);
                        },
                    };
                    let v = match a.mux_op(b, c) {
                        Ok(v) => v,
                        Err(e) => {
                            return Err(e);
                        },
                    };
                    proof {
                        assert(self.stack@ =~= s0.take(s0.len() - 3));
                    }
                    self.stack.push(v);
                },
                OpCode::Dup => {
                    let v = match self.stack.pop() {
                        Some(v) => v,
                        None => {
                            return Err(VmError::StackUnderflow);
                        },
                    };
                    self.stack.push(v);
                    self.stack.push(v);
                    proof {
                        assert(self.stack@ =~= s0.push(s0.last()));
                    }
                },
                OpCode::NoOp => {},
                OpCode::Inc => {
                    let a = match self.stack.pop() {
                        Some(v) => v,
                        None => {
                            return Err(VmError::StackUnderflow);
                        },
                    };
                    match a {
                        Value::Bool(_) | Value::Ebool(_) => {
                            return Err(VmError::UnsupportedOperands);
                        },
                        _ => {},
                    }
                    let v = match a.add_op(Value::Uint8(1)) {
                        Ok(v) => v,
                        Err(e) => {
                            return Err(e);
                        },
                    };
                    self.stack.push(v);
                },
                OpCode::Dec => {
                    let a = match self.stack.pop() {
                        Some(v) => v,
                        None => {
                            return Err(VmError::StackUnderflow);
                        },
                    };
                    match a {
                        Value::Bool(_) | Value::Ebool(_) => {
                            return Err(VmError::UnsupportedOperands);
                        },
                        _ => {},
                    }
                    let v = match a.sub_op(Value::Uint8(1)) {
                        Ok(v) => v,
                        Err(e) => {
                            return Err(e);
                        },
                    };
                    self.stack.push(v);
                },
                OpCode::Neg => {
                    let a = match self.stack.pop() {
                        Some(v) => v,
                        None => {
                            return Err(VmError::StackUnderflow);
                        },
                    };
                    let v = a.neg();
                    self.stack.push(v);
                },
                OpCode::Load(address) => {
                    if address < 0 {
                        return Err(VmError::MemoryIndexOutOfRange);
                    }
                    let ua = address as usize;
                    if ua >= self.memory.len() {
                        return Err(VmError::MemoryIndexOutOfRange);
                    }
                    let v = self.memory[ua];
                    self.stack.push(v);
                },
                OpCode::Store(address) => {
                    let a = match self.stack.pop() {
                        Some(v) => v,
                        None => {
                            return Err(VmError::StackUnderflow);
                        },
                    };
                    if address < 0 {
                        return Err(VmError::MemoryIndexOutOfRange);
                    }
                    let ua = address as usize;
                    if self.memory.len() <= ua {
                        self.memory.resize(ua + 1, Value::Ebool(false));
                        proof {
                            assert(self.memory@ =~= m0 + Seq::new(
                                (ua + 1 - m0.len()) as nat,
                                |i: int| Value::Ebool(false),
                            ));
                        }
                    }
                    self.memory.set(ua, a);
                },
                OpCode::Swap => {
                    let a = match self.stack.pop() {
                        Some(v) => v,
                        None => {
                            return Err(VmError::StackUnderflow);
                        },
                    };
                    let b = match self.stack.pop() {
                        Some(v) => v,
                        None => {
                            return Err(VmError::StackUnderflow);
                        },
                    };
                    self.stack.push(a);
                    self.stack.push(b);
                    proof {
                        assert(self.stack@ =~= s0.take(s0.len() - 2).push(s0[s0.len() - 1]).push(
                            s0[s0.len() - 2],
                        ));
                    }
                },
            }
            proof {
                assert(spec_step(s0, m0, code@[self.ip as int]) == Ok::<
                    (Seq<Value>, Seq<Value>),
                    VmError,
                >((self.stack@, self.memory@)));
            }
            self.ip = self.ip + 1;
        }
        proof {
            assert(code@.skip(code@.len() as int) =~= Seq::<OpCode>::empty());
        }
        Ok(())
    }
}

impl Default for VM {
    /// The same machine as [`VM::new`].
    fn default() -> (vm: Self)
        ensures
            vm.stack_view() == Seq::<Value>::empty(),
            vm.memory_view() == Seq::<Value>::empty(),
            vm.ip_view() == 0,
    {
        Self::new()
    }
}

/// Store-grown memory: storing at an address beyond the populated range
/// grows the memory to exactly that address plus one, keeps every slot
/// already populated, fills the gap with the placeholder `Ebool(false)`,
/// writes the stored value at the address — and a load from that address
/// then yields exactly the stored value.
pub proof fn lemma_store_growth(stack: Seq<Value>, mem: Seq<Value>, addr: i32, v: Value)
    requires
        stack.len() >= 1,
        stack.last() == v,
        addr >= 0,
        mem.len() <= addr,
    ensures
        match spec_step(stack, mem, OpCode::Store(addr)) {
            Ok(p) => {
                &&& p.0 == stack.drop_last()
                &&& p.1.len() == addr + 1
                &&& forall|i: int| 0 <= i < mem.len() ==> p.1[i] == mem[i]
                &&& forall|i: int| mem.len() <= i < addr ==> p.1[i] == Value::Ebool(false)
                &&& p.1[addr as int] == v
                &&& spec_step(p.0, p.1, OpCode::Load(addr)) == Ok::<
                    (Seq<Value>, Seq<Value>),
                    VmError,
                >((p.0.push(v), p.1))
            },
            Err(_) => false,
        },
{
}

} // verus!
