//! A forward-only writer of bytes.
use crate::vm::block::Block;
use crate::vm::utils::{be_bytes, encode_be};
use vstd::prelude::*;

verus! {

/// A byte string behind its length as a big-endian `u64`.
pub open spec fn framed(bytes: Seq<u8>) -> Seq<u8> {
    be_bytes(bytes.len(), 8) + bytes
}

/// Accumulates bytes; `build` turns what was written into a `Block`.
/// What it holds is exactly the concatenation of what was written.
#[derive(Debug)]
pub struct Builder {
    bytes: Vec<u8>,
}

impl View for Builder {
    type V = Seq<u8>;

    closed spec fn view(&self) -> Seq<u8> {
        self.bytes@
    }
}

impl Builder {
    /// A builder that holds nothing.
    pub fn new() -> (builder: Self)
        ensures
            builder@ == Seq::<u8>::empty(),
    {
        Self { bytes: Vec::new() }
    }

    /// Appends `value` as eight bytes, most significant first.
    pub fn write_u64(&mut self, value: u64)
        ensures
            final(self)@ == old(self)@ + be_bytes(value as nat, 8),
    {
        encode_be(&mut self.bytes, value, 8);
    }

    /// Appends one byte.
    pub fn write_u8(&mut self, value: u8)
        ensures
            final(self)@ == old(self)@.push(value),
    {
        self.bytes.push(value);
    }

    /// Appends the bytes of `value`, with no framing.
    pub fn write_block(&mut self, value: Block)
        ensures
            final(self)@ == old(self)@ + value@,
    {
        let mut tail = value.unpack();
        self.bytes.append(&mut tail);
    }

    /// Appends the length of `value` as a big-endian `u64`, then its bytes.
    pub fn write_block_with_len(&mut self, value: Block)
        ensures
            final(self)@ == old(self)@ + framed(value@),
    {
        self.write_u64(value.len() as u64);
        self.write_block(value);
        assert(self@ =~= old(self)@ + framed(value@));
    }

    /// The number of bytes written so far.
    pub fn len(&self) -> (n: usize)
        ensures
            n == self@.len(),
    {
        self.bytes.len()
    }

    /// A block of the bytes written so far.
    pub fn build(&self) -> (block: Block)
        ensures
            block@ == self@,
    {
        Block::new(self.bytes.as_slice())
    }
}

impl Clone for Builder {
    fn clone(&self) -> (builder: Self)
        ensures
            builder@ == self@,
    {
        Self { bytes: self.bytes.clone() }
    }
}

} // verus!
