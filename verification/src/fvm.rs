//! An earlier, plaintext-only stack machine over signed integers. Every
//! operand is promoted to the widest signed width before an operator is
//! applied, and every result comes back at that width.

use crate::value::VmError;
use vstd::prelude::*;

verus! {

/// The instruction set of the plaintext machine: binary operators only.
#[derive(Debug, Clone, Copy, PartialEq, Eq, Structural)]
pub enum OpCode {
    Add,
    Sub,
    Mul,
    And,
    Or,
    Xor,
    Eq,
    Neq,
    Lt,
    Lte,
    Gt,
    Gte,
    Min,
    Max,
}

/// A plaintext operand: a signed integer of one of five widths.
#[derive(Debug, Clone, Copy, PartialEq, Eq, Structural)]
pub enum Value {
    Int8(i8),
    Int16(i16),
    Int32(i32),
    Int64(i64),
    Int128(i128),
}

/// The operand sign-extended to the widest width.
pub open spec fn promoted(v: Value) -> i128 {
    match v {
        Value::Int8(n) => n as i128,
        Value::Int16(n) => n as i128,
        Value::Int32(n) => n as i128,
        Value::Int64(n) => n as i128,
        Value::Int128(n) => n,
    }
}

/// What one binary operator computes on two promoted operands. Arithmetic
/// wraps at the widest width; comparisons yield 0 or 1.
pub open spec fn spec_binop(op: OpCode, a: i128, b: i128) -> Value {
    match op {
        OpCode::Add => Value::Int128(vstd::wrapping::i128_specs::wrapping_add(a, b)),
        OpCode::Sub => Value::Int128(vstd::wrapping::i128_specs::wrapping_sub(a, b)),
        OpCode::Mul => Value::Int128(vstd::wrapping::i128_specs::wrapping_mul(a, b)),
        OpCode::And => Value::Int128(a & b),
        OpCode::Or => Value::Int128(a | b),
        OpCode::Xor => Value::Int128(a ^ b),
        OpCode::Eq => Value::Int128(
            if a == b {
                1
            } else {
                0
            },
        ),
        OpCode::Neq => Value::Int128(
            if a != b {
                1
            } else {
                0
            },
        ),
        OpCode::Lt => Value::Int128(
            if a < b {
                1
            } else {
                0
            },
        ),
        OpCode::Lte => Value::Int128(
            if a <= b {
                1
            } else {
                0
            },
        ),
        OpCode::Gt => Value::Int128(
            if a > b {
                1
            } else {
                0
            },
        ),
        OpCode::Gte => Value::Int128(
            if a >= b {
                1
            } else {
                0
            },
        ),
        OpCode::Min => Value::Int128(
            if a <= b {
                a
            } else {
                b
            },
        ),
        OpCode::Max => Value::Int128(
            if a >= b {
                a
            } else {
                b
            },
        ),
    }
}

/// The effect of one instruction: pop the right operand, pop the left
/// operand, push the result.
pub open spec fn spec_step(stack: Seq<Value>, op: OpCode) -> Result<Seq<Value>, VmError> {
    if stack.len() < 2 {
        Err(VmError::StackUnderflow)
    } else {
        Ok(
            stack.take(stack.len() - 2).push(
                spec_binop(op, promoted(stack[stack.len() - 2]), promoted(stack[stack.len() - 1])),
            ),
        )
    }
}

/// A whole program run: the fold of [`spec_step`] over the instructions,
/// stopping at the first failure.
pub open spec fn spec_run(stack: Seq<Value>, ops: Seq<OpCode>) -> Result<Seq<Value>, VmError>
    decreases ops.len(),
{
    if ops.len() == 0 {
        Ok(stack)
    } else {
        match spec_step(stack, ops[0]) {
            Ok(s) => spec_run(s, ops.skip(1)),
            Err(e) => Err(e),
        }
    }
}

impl Value {
    /// Sign-extends this operand to the widest width.
    fn promote_to_i128(self) -> (r: i128)
        ensures
            r == promoted(self),
    {
        match self {
            Value::Int8(val) => val as i128,
            Value::Int16(val) => val as i128,
            Value::Int32(val) => val as i128,
            Value::Int64(val) => val as i128,
            Value::Int128(val) => val,
        }
    }
}

/// The plaintext machine: just an operand stack.
pub struct VM {
    stack: Vec<Value>,
}

impl VM {
    /// The operand stack, as a sequence with the top at the end.
    pub closed spec fn stack_view(&self) -> Seq<Value> {
        self.stack@
    }

    /// A fresh machine with an empty stack.
    pub fn new() -> (vm: VM)
        ensures
            vm.stack_view() == Seq::<Value>::empty(),
    {
        VM { stack: Vec::new() }
    }

    /// Pushes one operand.
    pub fn push(&mut self, value: Value)
        ensures
            final(self).stack_view() == old(self).stack_view().push(value),
    {
        self.stack.push(value);
    }

    /// Pops the top operand; `None` when the stack is empty.
    pub fn pop(&mut self) -> (r: Option<Value>)
        ensures
            old(self).stack_view().len() == 0 ==> r is None
                && final(self).stack_view() == old(self).stack_view(),
            old(self).stack_view().len() > 0 ==> r == Some(old(self).stack_view().last())
                && final(self).stack_view() == old(self).stack_view().drop_last(),
    {
        self.stack.pop()
    }

    /// Pops two operands, applies `op` on their promotions, pushes the
    /// result.
    fn binary_op(&mut self, op: OpCode) -> (r: Result<(), VmError>)
        ensures
            match spec_step(old(self).stack_view(), op) {
                Ok(s) => r == Ok::<(), VmError>(()) && final(self).stack_view() == s,
                Err(e) => r == Err::<(), VmError>(e),
            },
    {
        let ghost s0 = self.stack@;
        let b = match self.stack.pop() {
            Some(v) => v,
            None => {
                return Err(VmError::StackUnderflow);
            },
        };
        let a = match self.stack.pop() {
            Some(v) => v,
            None => {
                return Err(VmError::StackUnderflow);
            },
        };
        let pa = a.promote_to_i128();
        let pb = b.promote_to_i128();
        let result = match op {
            OpCode::Add => Value::Int128(pa.wrapping_add(pb)),
            OpCode::Sub => Value::Int128(pa.wrapping_sub(pb)),
            OpCode::Mul => Value::Int128(pa.wrapping_mul(pb)),
            OpCode::And => Value::Int128(pa & pb),
            OpCode::Or => Value::Int128(pa | pb),
            OpCode::Xor => Value::Int128(pa ^ pb),
            OpCode::Eq => Value::Int128(
                if pa == pb {
                    1
                } else {
                    0
                },
            ),
            OpCode::Neq => Value::Int128(
                if pa != pb {
                    1
                } else {
                    0
                },
            ),
            OpCode::Lt => Value::Int128(
                if pa < pb {
                    1
                } else {
                    0
                },
            ),
            OpCode::Lte => Value::Int128(
                if pa <= pb {
                    1
                } else {
                    0
                },
            ),
            OpCode::Gt => Value::Int128(
                if pa > pb {
                    1
                } else {
                    0
                },
            ),
            OpCode::Gte => Value::Int128(
                if pa >= pb {
                    1
                } else {
                    0
                },
            ),
            OpCode::Min => Value::Int128(
                if pa <= pb {
                    pa
                } else {
                    pb
                },
            ),
            OpCode::Max => Value::Int128(
                if pa >= pb {
                    pa
                } else {
                    pb
                },
            ),
        };
        proof {
            assert(self.stack@ =~= s0.take(s0.len() - 2));
        }
        self.stack.push(result);
        Ok(())
    }

    /// Runs a program to completion or to its first stack underflow:
    /// exactly the fold of [`spec_step`] over the instructions.
    pub fn execute(&mut self, code: Vec<OpCode>) -> (r: Result<(), VmError>)
        ensures
            match spec_run(old(self).stack_view(), code@) {
                Ok(s) => r == Ok::<(), VmError>(()) && final(self).stack_view() == s,
                Err(e) => r == Err::<(), VmError>(e),
            },
    {
        let mut i: usize = 0;
        let clen = code.len();
        proof {
            assert(code@.skip(0) =~= code@);
        }
        while i < clen
            invariant
                i <= code@.len(),
                code@.len() == clen,
                spec_run(old(self).stack_view(), code@) == spec_run(
                    self.stack@,
                    code@.skip(i as int),
                ),
            decreases code@.len() - i,
        {
            proof {
                assert(code@.skip(i as int)[0] == code@[i as int]);
                assert(code@.skip(i as int).skip(1) =~= code@.skip(i + 1));
            }
            match self.binary_op(code[i]) {
                Ok(()) => {},
                Err(e) => {
                    return Err(e);
                },
            }
            i = i + 1;
        }
        proof {
            assert(code@.skip(code@.len() as int) =~= Seq::<OpCode>::empty());
        }
        Ok(())
    }
}

} // verus!
