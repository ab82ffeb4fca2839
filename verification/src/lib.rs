//! A stack-based bytecode virtual machine whose operand values may be
//! either ordinary plaintext integers and booleans or homomorphically
//! encrypted counterparts of the same logical types, so that one
//! instruction stream can mix public and private data and produce a
//! result that is itself a ciphertext — without the machine ever needing
//! a decrypted value to make a control decision.
//!
//! The encryption scheme itself is a collaborator of this crate, not part
//! of it: keys, encryption and decryption live entirely with the host.
//! Within the crate a ciphertext variant carries the logical value its
//! ciphertext decrypts to, which is exactly the quantity every contract
//! here is stated over; the homomorphic operators are the images of the
//! plaintext operators on those values. Because conditions can be
//! encrypted, there are no jumps: conditional selection is the oblivious
//! `Mux` instruction, which picks between two already-computed values.
//!
//! The modules, leaves first:
//!
//! - [`value`] — the operand algebra: plaintext and ciphertext variants
//!   of `bool` and the unsigned widths 8 through 128, with the
//!   promotion and casting rules for every operand pairing.
//! - [`vm`] — the instruction set, its tag-length-value binary encoding,
//!   program (de)serialization, and the execution engine: operand stack,
//!   scratch memory, instruction pointer and dispatch loop.
//! - [`fvm`] — an earlier, plaintext-only machine over signed integers,
//!   kept for its simpler operand model.
//! - [`lang`], [`fhescript`], [`typescript`], [`assembler`] — small
//!   front-ends that turn surface text into bytecode or syntax trees.

pub mod assembler;
pub mod fhescript;
pub mod fvm;
pub mod lang;
pub mod typescript;
pub mod value;
pub mod vm;

pub use lang::MyLanguageParser as LanguageParser;
