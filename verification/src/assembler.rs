//! A line-oriented textual assembler for the bytecode: one instruction
//! per line, a mnemonic first, then a decimal operand where one is
//! needed. Lines that name no instruction — including the jumps the
//! instruction set deliberately lacks — contribute nothing.

use crate::fhescript::{decimal_value, is_digit, lemma_decimal_value_monotone};
use crate::value::Value;
use crate::vm::OpCode;
use vstd::prelude::*;
use vstd::string::StringSliceAdditionalSpecFns;

verus! {

/// Whitespace within a line.
pub open spec fn is_blank(b: u8) -> bool {
    b == 32 || b == 9 || b == 13
}

/// The end of the line starting at `i`: the next newline, or the end of
/// the input.
pub open spec fn line_end(s: Seq<u8>, i: int) -> int
    decreases s.len() - i when 0 <= i <= s.len()
{
    if i < s.len() && s[i] != 10 {
        line_end(s, i + 1)
    } else {
        i
    }
}

/// The first non-blank position at or after `i`, up to `end`.
pub open spec fn blank_end(s: Seq<u8>, i: int, end: int) -> int
    decreases end - i when 0 <= i <= end <= s.len()
{
    if i < end && is_blank(s[i]) {
        blank_end(s, i + 1, end)
    } else {
        i
    }
}

/// The end of the word starting at `i`, up to `end`.
pub open spec fn word_end(s: Seq<u8>, i: int, end: int) -> int
    decreases end - i when 0 <= i <= end <= s.len()
{
    if i < end && !is_blank(s[i]) {
        word_end(s, i + 1, end)
    } else {
        i
    }
}

/// Lines end within the input and after where they begin.
pub proof fn lemma_line_end_bounds(s: Seq<u8>, i: int)
    requires
        0 <= i <= s.len(),
    ensures
        i <= line_end(s, i) <= s.len(),
    decreases s.len() - i,
{
    if i < s.len() && s[i] != 10 {
        lemma_line_end_bounds(s, i + 1);
    }
}

/// Whether the word `s[i..j]` spells exactly the bytes of `pat`.
pub open spec fn word_is(s: Seq<u8>, i: int, j: int, pat: Seq<u8>) -> bool {
    &&& j - i == pat.len()
    &&& forall|k: int| 0 <= k < pat.len() ==> s[i + k] == pat[k]
}

/// The decimal number the word `s[i..j]` spells, if it is all digits and
/// fits a `u32`.
pub open spec fn spec_word_number(s: Seq<u8>, i: int, j: int) -> Option<u32> {
    if i >= j {
        None
    } else if !(forall|k: int| i <= k < j ==> is_digit(#[trigger] s[k])) {
        None
    } else if decimal_value(s.subrange(i, j)) > u32::MAX {
        None
    } else {
        Some(decimal_value(s.subrange(i, j)) as u32)
    }
}

/// The instructions one line contributes: at most one. The first word
/// picks the mnemonic; `push`, `load` and `store` also need a second
/// word that parses as their operand, with an address below the signed
/// 32-bit bound. A line that fits none of this contributes nothing.
pub open spec fn spec_assemble_line(s: Seq<u8>, i: int, end: int) -> Seq<OpCode> {
    let w = blank_end(s, i, end);
    let we = word_end(s, w, end);
    let o = blank_end(s, we, end);
    let oe = word_end(s, o, end);
    if word_is(s, w, we, "push".spec_bytes()) {
        match spec_word_number(s, o, oe) {
            Some(v) => seq![OpCode::Push(Value::Uint32(v))],
            None => Seq::empty(),
        }
    } else if word_is(s, w, we, "add".spec_bytes()) {
        seq![OpCode::Add]
    } else if word_is(s, w, we, "sub".spec_bytes()) {
        seq![OpCode::Sub]
    } else if word_is(s, w, we, "mul".spec_bytes()) {
        seq![OpCode::Mul]
    } else if word_is(s, w, we, "div".spec_bytes()) {
        seq![OpCode::Div]
    } else if word_is(s, w, we, "and".spec_bytes()) {
        seq![OpCode::And]
    } else if word_is(s, w, we, "or".spec_bytes()) {
        seq![OpCode::Or]
    } else if word_is(s, w, we, "xor".spec_bytes()) {
        seq![OpCode::Xor]
    } else if word_is(s, w, we, "shr".spec_bytes()) {
        seq![OpCode::ShiftRight]
    } else if word_is(s, w, we, "shl".spec_bytes()) {
        seq![OpCode::ShiftLeft]
    } else if word_is(s, w, we, "eq".spec_bytes()) {
        seq![OpCode::Eq]
    } else if word_is(s, w, we, "neq".spec_bytes()) {
        seq![OpCode::Neq]
    } else if word_is(s, w, we, "lt".spec_bytes()) {
        seq![OpCode::Lt]
    } else if word_is(s, w, we, "lte".spec_bytes()) {
        seq![OpCode::Lte]
    } else if word_is(s, w, we, "gt".spec_bytes()) {
        seq![OpCode::Gt]
    } else if word_is(s, w, we, "gte".spec_bytes()) {
        seq![OpCode::Gte]
    } else if word_is(s, w, we, "min".spec_bytes()) {
        seq![OpCode::Min]
    } else if word_is(s, w, we, "max".spec_bytes()) {
        seq![OpCode::Max]
    } else if word_is(s, w, we, "mux".spec_bytes()) {
        seq![OpCode::Mux]
    } else if word_is(s, w, we, "dup".spec_bytes()) {
        seq![OpCode::Dup]
    } else if word_is(s, w, we, "noop".spec_bytes()) {
        seq![OpCode::NoOp]
    } else if word_is(s, w, we, "inc".spec_bytes()) {
        seq![OpCode::Inc]
    } else if word_is(s, w, we, "dec".spec_bytes()) {
        seq![OpCode::Dec]
    } else if word_is(s, w, we, "load".spec_bytes()) {
        match spec_word_number(s, o, oe) {
            Some(v) => {
                if v <= 0x7fff_ffff {
                    seq![OpCode::Load(v as i32)]
                } else {
                    Seq::empty()
                }
            },
            None => Seq::empty(),
        }
    } else if word_is(s, w, we, "store".spec_bytes()) {
        match spec_word_number(s, o, oe) {
            Some(v) => {
                if v <= 0x7fff_ffff {
                    seq![OpCode::Store(v as i32)]
                } else {
                    Seq::empty()
                }
            },
            None => Seq::empty(),
        }
    } else if word_is(s, w, we, "swap".spec_bytes()) {
        seq![OpCode::Swap]
    } else if word_is(s, w, we, "neg".spec_bytes()) {
        seq![OpCode::Neg]
    } else {
        Seq::empty()
    }
}

/// The bytecode a whole source spells, from position `i` on: each line's
/// contribution in order.
pub open spec fn spec_assemble(s: Seq<u8>, i: int) -> Seq<OpCode>
    decreases s.len() - i when 0 <= i <= s.len() via spec_assemble_dec
{
    if i >= s.len() {
        Seq::empty()
    } else {
        let end = line_end(s, i);
        spec_assemble_line(s, i, end) + spec_assemble(
            s,
            if end < s.len() {
                end + 1
            } else {
                end
            },
        )
    }
}

#[via_fn]
proof fn spec_assemble_dec(s: Seq<u8>, i: int) {
    if 0 <= i < s.len() {
        lemma_line_end_bounds(s, i);
    }
}

/// Whether the word `bs[i..j]` equals the mnemonic `pat`.
fn word_eq(bs: &[u8], i: usize, j: usize, pat: &str) -> (r: bool)
    requires
        i <= j <= bs@.len(),
    ensures
        r == word_is(bs@, i as int, j as int, pat.spec_bytes()),
{
    let pb = pat.as_bytes();
    if j - i != pb.len() {
        return false;
    }
    let mut k: usize = 0;
    let plen = pb.len();
    while k < plen
        invariant
            k <= plen,
            plen == pb@.len(),
            pb@ == pat.spec_bytes(),
            i <= j <= bs@.len(),
            j - i == plen,
            forall|m: int| 0 <= m < k ==> bs@[i + m] == pb@[m],
        decreases plen - k,
    {
        if bs[i + k] != pb[k] {
            return false;
        }
        k = k + 1;
    }
    true
}

/// The decimal value of the word `bs[i..j]`, if it is all digits and
/// fits a `u32`; exactly [`spec_word_number`].
fn word_number(bs: &[u8], i: usize, j: usize) -> (r: Option<u32>)
    requires
        i <= j <= bs@.len(),
    ensures
        r == spec_word_number(bs@, i as int, j as int),
{
    if i == j {
        return None;
    }
    let ghost whole = bs@.subrange(i as int, j as int);
    let mut acc: u32 = 0;
    let mut k = i;
    proof {
        assert(bs@.subrange(i as int, i as int) =~= Seq::<u8>::empty());
    }
    while k < j
        invariant
            i <= k <= j <= bs@.len(),
            whole == bs@.subrange(i as int, j as int),
            acc == decimal_value(bs@.subrange(i as int, k as int)),
            forall|m: int| i <= m < k ==> is_digit(#[trigger] bs@[m]),
        decreases j - k,
    {
        let b = bs[k];
        if b < 48 || b > 57 {
            return None;
        }
        let d = (b - 48) as u32;
        proof {
            assert(bs@.subrange(i as int, (k + 1) as int).drop_last() =~= bs@.subrange(
                i as int,
                k as int,
            ));
            assert(bs@.subrange(i as int, (k + 1) as int).last() == bs@[k as int]);
        }
        if acc > 0x1999_9999 {
            proof {
                lemma_overflow_rejection(bs@, i as int, (k + 1) as int, j as int);
            }
            return None;
        }
        if acc * 10 > u32::MAX - d {
            proof {
                lemma_overflow_rejection(bs@, i as int, (k + 1) as int, j as int);
            }
            return None;
        }
        acc = acc * 10 + d;
        k = k + 1;
    }
    proof {
        assert(bs@.subrange(i as int, k as int) == whole);
    }
    Some(acc)
}

/// If some prefix of a digit span already exceeds the 32-bit bound, the
/// whole span does. The prefix here is allowed to miss the trailing
/// digits, which only grow the value.
proof fn lemma_overflow_rejection(s: Seq<u8>, i: int, k: int, j: int)
    requires
        0 <= i < k <= j <= s.len(),
        forall|m: int| i <= m < k ==> is_digit(#[trigger] s[m]),
        decimal_value(s.subrange(i, k)) > u32::MAX,
    ensures
        !(forall|m: int| i <= m < j ==> is_digit(#[trigger] s[m])) || decimal_value(
            s.subrange(i, j),
        ) > u32::MAX,
{
    if forall|m: int| i <= m < j ==> is_digit(#[trigger] s[m]) {
        lemma_decimal_value_monotone(s.subrange(i, j), k - i);
        assert(s.subrange(i, j).take(k - i) =~= s.subrange(i, k));
    }
}

/// Assembles source text into bytecode, line by line: exactly
/// [`spec_assemble`] over the input bytes. Non-ASCII input assembles to
/// nothing.
pub fn compile(code: &str) -> (r: Vec<OpCode>)
    ensures
        code.is_ascii() ==> r@ == spec_assemble(code.spec_bytes(), 0),
        !code.is_ascii() ==> r@ == Seq::<OpCode>::empty(),
{
    let mut opcodes: Vec<OpCode> = Vec::new();
    if !code.is_ascii() {
        return opcodes;
    }
    let bs = code.as_bytes();
    let n = bs.len();
    let mut i: usize = 0;
    proof {
        assert(opcodes@ + spec_assemble(bs@, 0) =~= spec_assemble(bs@, 0));
    }
    while i < n
        invariant
            i <= n,
            bs@.len() == n,
            bs@ == code.spec_bytes(),
            spec_assemble(bs@, 0) == opcodes@ + spec_assemble(bs@, i as int),
        decreases n - i,
    {
        let ghost line_start = i as int;
        // find the end of this line
        let mut le = i;
        while le < n && bs[le] != 10
            invariant
                i <= le <= n,
                bs@.len() == n,
                line_end(bs@, i as int) == line_end(bs@, le as int),
            decreases n - le,
        {
            le = le + 1;
        }
        proof {
            assert(line_end(bs@, le as int) == le);
        }
        // first word
        let mut w = i;
        while w < le && (bs[w] == 32 || bs[w] == 9 || bs[w] == 13)
            invariant
                i <= w <= le <= n,
                bs@.len() == n,
                blank_end(bs@, i as int, le as int) == blank_end(bs@, w as int, le as int),
            decreases le - w,
        {
            w = w + 1;
        }
        proof {
            assert(blank_end(bs@, w as int, le as int) == w);
        }
        let mut we = w;
        while we < le && bs[we] != 32 && bs[we] != 9 && bs[we] != 13
            invariant
                w <= we <= le <= n,
                bs@.len() == n,
                word_end(bs@, w as int, le as int) == word_end(bs@, we as int, le as int),
            decreases le - we,
        {
            we = we + 1;
        }
        proof {
            assert(word_end(bs@, we as int, le as int) == we);
        }
        // second word, if any
        let mut o = we;
        while o < le && (bs[o] == 32 || bs[o] == 9 || bs[o] == 13)
            invariant
                we <= o <= le <= n,
                bs@.len() == n,
                blank_end(bs@, we as int, le as int) == blank_end(bs@, o as int, le as int),
            decreases le - o,
        {
            o = o + 1;
        }
        proof {
            assert(blank_end(bs@, o as int, le as int) == o);
        }
        let mut oe = o;
        while oe < le && bs[oe] != 32 && bs[oe] != 9 && bs[oe] != 13
            invariant
                o <= oe <= le <= n,
                bs@.len() == n,
                word_end(bs@, o as int, le as int) == word_end(bs@, oe as int, le as int),
            decreases le - oe,
        {
            oe = oe + 1;
        }
        proof {
            assert(word_end(bs@, oe as int, le as int) == oe);
        }
        let ghost line = spec_assemble_line(bs@, line_start, le as int);
        let ghost before = opcodes@;
        if word_eq(bs, w, we, "push") {
            match word_number(bs, o, oe) {
                Some(v) => opcodes.push(OpCode::Push(Value::Uint32(v))),
                None => {},
            }
        } else if word_eq(bs, w, we, "add") {
            opcodes.push(OpCode::Add);
        } else if word_eq(bs, w, we, "sub") {
            opcodes.push(OpCode::Sub);
        } else if word_eq(bs, w, we, "mul") {
            opcodes.push(OpCode::Mul);
        } else if word_eq(bs, w, we, "div") {
            opcodes.push(OpCode::Div);
        } else if word_eq(bs, w, we, "and") {
            opcodes.push(OpCode::And);
        } else if word_eq(bs, w, we, "or") {
            opcodes.push(OpCode::Or);
        } else if word_eq(bs, w, we, "xor") {
            opcodes.push(OpCode::Xor);
        } else if word_eq(bs, w, we, "shr") {
            opcodes.push(OpCode::ShiftRight);
        } else if word_eq(bs, w, we, "shl") {
            opcodes.push(OpCode::ShiftLeft);
        } else if word_eq(bs, w, we, "eq") {
            opcodes.push(OpCode::Eq);
        } else if word_eq(bs, w, we, "neq") {
            opcodes.push(OpCode::Neq);
        } else if word_eq(bs, w, we, "lt") {
            opcodes.push(OpCode::Lt);
        } else if word_eq(bs, w, we, "lte") {
            opcodes.push(OpCode::Lte);
        } else if word_eq(bs, w, we, "gt") {
            opcodes.push(OpCode::Gt);
        } else if word_eq(bs, w, we, "gte") {
            opcodes.push(OpCode::Gte);
        } else if word_eq(bs, w, we, "min") {
            opcodes.push(OpCode::Min);
        } else if word_eq(bs, w, we, "max") {
            opcodes.push(OpCode::Max);
        } else if word_eq(bs, w, we, "mux") {
            opcodes.push(OpCode::Mux);
        } else if word_eq(bs, w, we, "dup") {
            opcodes.push(OpCode::Dup);
        } else if word_eq(bs, w, we, "noop") {
            opcodes.push(OpCode::NoOp);
        } else if word_eq(bs, w, we, "inc") {
            opcodes.push(OpCode::Inc);
        } else if word_eq(bs, w, we, "dec") {
            opcodes.push(OpCode::Dec);
        } else if word_eq(bs, w, we, "load") {
            match word_number(bs, o, oe) {
                Some(v) => {
                    if v <= 0x7fff_ffff {
                        opcodes.push(OpCode::Load(v as i32));
                    }
                },
                None => {},
            }
        } else if word_eq(bs, w, we, "store") {
            match word_number(bs, o, oe) {
                Some(v) => {
                    if v <= 0x7fff_ffff {
                        opcodes.push(OpCode::Store(v as i32));
                    }
                },
                None => {},
            }
        } else if word_eq(bs, w, we, "swap") {
            opcodes.push(OpCode::Swap);
        } else if word_eq(bs, w, we, "neg") {
            opcodes.push(OpCode::Neg);
        }
        let next = if le < n {
            le + 1
        } else {
            n
        };
        proof {
            assert(opcodes@ =~= before + line);
            assert(spec_assemble(bs@, line_start) == line + spec_assemble(bs@, next as int));
            assert((before + line) + spec_assemble(bs@, next as int) =~= before + (line
                + spec_assemble(bs@, next as int)));
        }
        i = next;
    }
    opcodes
}

} // verus!
