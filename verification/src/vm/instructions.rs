//! The opcodes of the machine. Programs on the wire use these numbers.
use vstd::prelude::*;

verus! {

/// Pushes the `u64` that follows.
pub const IPUSH64: u8 = 0;

/// Pushes the byte that follows, as a number.
pub const IPUSH8: u8 = 1;

/// Pushes a copy of the value at the offset that follows as a `u16`.
pub const SPUSH: u8 = 2;

/// Pushes a block: a length as `u64`, then that many bytes.
pub const BPUSH: u8 = 3;

/// Drops as many values as the `u16` that follows says.
pub const DROPN: u8 = 4;

/// Exchanges the values at the two offsets that follow, each a `u16`.
pub const CHG: u8 = 5;

/// Exchanges the two topmost values.
pub const SWAP: u8 = 6;

/// Replaces the block on top by its SHA-256 digest.
pub const BHASH: u8 = 7;

/// Pushes the length of the block on top.
pub const BLEN: u8 = 8;

/// Replaces the block on top by a slice over its bytes.
pub const MKSLICE: u8 = 9;

/// Reads a `u64` from the slice on top and pushes it.
pub const IREAD64: u8 = 10;

/// Reads a byte from the slice on top and pushes it.
pub const IREAD8: u8 = 11;

/// Reads as many bytes as the number on top says from the slice under it, and
/// replaces the number by the block read.
pub const BREAD: u8 = 12;

/// Pushes the number of bytes left in the slice on top.
pub const SLLEN: u8 = 13;

/// Pushes an empty builder.
pub const MKBUILDER: u8 = 14;

/// Appends the number on top, as a `u64`, to the builder under it.
pub const IWRITE64: u8 = 15;

/// Appends the low byte of the number on top to the builder under it.
pub const IWRITE8: u8 = 16;

/// Appends the block on top to the builder under it.
pub const BWRITE: u8 = 17;

/// Replaces the builder on top by the block of what it holds.
pub const BUILD: u8 = 18;

/// Pushes the number of bytes in the builder on top.
pub const BLLEN: u8 = 19;

/// Sum of the two topmost numbers.
pub const ADD: u8 = 20;

/// Difference: the lower number minus the top.
pub const SUB: u8 = 21;

/// Product of the two topmost numbers.
pub const MUL: u8 = 22;

/// Quotient: the lower number by the top.
pub const DIV: u8 = 23;

/// Remainder: the lower number by the top.
pub const MOD: u8 = 24;

/// Adds one to the number on top.
pub const INC: u8 = 25;

/// Whether the lower number is greater than the top.
pub const CMB: u8 = 26;

/// Whether the lower number is less than the top.
pub const CML: u8 = 27;

/// Whether the lower number is greater than or equal to the top.
pub const CMBE: u8 = 28;

/// Whether the lower number is less than or equal to the top.
pub const CMLE: u8 = 29;

/// Whether the two topmost numbers are equal.
pub const CME: u8 = 30;

/// Whether the two topmost numbers differ.
pub const CMNE: u8 = 31;

/// Jumps to the address that follows as a `u64`.
pub const JMP: u8 = 32;

/// Pops a number and jumps to the address that follows if it is not zero.
pub const JMT: u8 = 33;

/// Pops a number and jumps to the address that follows if it is zero.
pub const JMF: u8 = 34;

/// Jumps by the signed distance that follows as a `u16`.
pub const RJMP: u8 = 35;

/// Pops a number and jumps by the distance that follows if it is not zero.
pub const RJMT: u8 = 36;

/// Pops a number and jumps by the distance that follows if it is zero.
pub const RJMF: u8 = 37;

/// Remembers where to return to and jumps to the address that follows.
pub const CALL: u8 = 38;

/// Returns to where the last `CALL` came from.
pub const RET: u8 = 39;

/// Stops the machine.
pub const HALT: u8 = 40;

/// Pushes the data of the contract.
pub const LDATA: u8 = 41;

/// Pops a block and makes it the data of the contract.
pub const SDATA: u8 = 42;

/// Pushes the message that is being served, in its wire format.
pub const MESSAGE: u8 = 43;

/// Sends an internal message made of the four topmost values.
pub const SEND: u8 = 44;

} // verus!
