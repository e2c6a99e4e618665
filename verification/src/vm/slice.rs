//! A forward-only reader over the bytes of a block.
use crate::vm::block::Block;
use crate::vm::builder::framed;
use crate::vm::utils::{
    be_bytes, be_value, get_u64, get_u8, lemma_be_bytes_len, lemma_be_value_of_bytes,
    lemma_radix_values,
};
use vstd::prelude::*;
use vstd::slice::slice_subrange;

verus! {

/// What a `Slice` is: the bytes it reads from and how many of them it has passed.
pub struct SliceView {
    pub bytes: Seq<u8>,
    pub pointer: nat,
}

impl SliceView {
    /// Whether `n` more bytes are left to read.
    pub open spec fn can_read(self, n: nat) -> bool {
        self.pointer + n <= self.bytes.len()
    }

    /// The next `n` bytes.
    pub open spec fn peek(self, n: nat) -> Seq<u8> {
        self.bytes.subrange(self.pointer as int, (self.pointer + n) as int)
    }

    /// The reader after `n` bytes were passed.
    pub open spec fn advance(self, n: nat) -> SliceView {
        SliceView { bytes: self.bytes, pointer: self.pointer + n }
    }

    /// The bytes not yet read.
    pub open spec fn remaining(self) -> Seq<u8> {
        self.bytes.skip(self.pointer as int)
    }

    /// A framed read: the length as a big-endian `u64`, then that many bytes.
    /// Gives the bytes read, if both reads succeed, and the reader afterwards.
    /// A length that cannot be read leaves the reader in place; bytes that
    /// cannot be read leave it behind the length.
    pub open spec fn read_framed(self) -> (Option<Seq<u8>>, SliceView) {
        if !self.can_read(8) {
            (None, self)
        } else {
            let n = be_value(self.peek(8));
            let body = self.advance(8);
            if body.can_read(n) {
                (Some(body.peek(n)), body.advance(n))
            } else {
                (None, body)
            }
        }
    }
}

/// A cursor over the bytes of a block. Reading moves it forward and never
/// changes the bytes; a read past the end fails and leaves it in place.
#[derive(Debug)]
pub struct Slice {
    code: Vec<u8>,
    pointer: usize,
}

impl View for Slice {
    type V = SliceView;

    closed spec fn view(&self) -> SliceView {
        SliceView { bytes: self.code@, pointer: self.pointer as nat }
    }
}

impl Slice {
    #[verifier::type_invariant]
    spec fn in_bounds(self) -> bool {
        self.pointer <= self.code@.len()
    }

    /// A reader at the start of the bytes of `block`.
    pub fn new(block: Block) -> (slice: Self)
        ensures
            slice@ == (SliceView { bytes: block@, pointer: 0 }),
    {
        Self { code: block.unpack(), pointer: 0 }
    }

    /// Passes `length` bytes and hands them out, or fails where fewer are left.
    fn get(&mut self, length: usize) -> (r: Option<&[u8]>)
        ensures
            match r {
                Some(bytes) => old(self)@.can_read(length as nat) && bytes@ == old(self)@.peek(
                    length as nat,
                ) && final(self)@ == old(self)@.advance(length as nat),
                None => !old(self)@.can_read(length as nat) && final(self)@ == old(self)@,
            },
    {
        proof {
            use_type_invariant(&*self);
        }
        if length > self.code.len() - self.pointer {
            return None;
        }
        let start = self.pointer;
        self.pointer = start + length;
        Some(slice_subrange(self.code.as_slice(), start, start + length))
    }

    /// Reads eight bytes as a big-endian `u64`.
    pub fn read_u64(&mut self) -> (r: Option<u64>)
        ensures
            match r {
                Some(value) => old(self)@.can_read(8) && value == be_value(old(self)@.peek(8))
                    && final(self)@ == old(self)@.advance(8),
                None => !old(self)@.can_read(8) && final(self)@ == old(self)@,
            },
    {
        match self.get(8) {
            Some(bytes) => get_u64(bytes),
            None => None,
        }
    }

    /// Reads one byte.
    pub fn read_u8(&mut self) -> (r: Option<u8>)
        ensures
            match r {
                Some(value) => old(self)@.can_read(1) && value == old(self)@.bytes[old(
                    self,
                )@.pointer as int] && final(self)@ == old(self)@.advance(1),
                None => !old(self)@.can_read(1) && final(self)@ == old(self)@,
            },
    {
        match self.get(1) {
            Some(bytes) => get_u8(bytes),
            None => None,
        }
    }

    /// Reads `length` bytes as a block.
    pub fn read_block(&mut self, length: usize) -> (r: Option<Block>)
        ensures
            match r {
                Some(block) => old(self)@.can_read(length as nat) && block@ == old(self)@.peek(
                    length as nat,
                ) && final(self)@ == old(self)@.advance(length as nat),
                None => !old(self)@.can_read(length as nat) && final(self)@ == old(self)@,
            },
    {
        match self.get(length) {
            Some(bytes) => Some(Block::new(bytes)),
            None => None,
        }
    }

    /// Reads a length as a big-endian `u64`, then that many bytes as a block.
    pub fn read_block_with_len(&mut self) -> (r: Option<Block>)
        ensures
            final(self)@ == old(self)@.read_framed().1,
            match r {
                Some(block) => old(self)@.read_framed().0 == Some(block@),
                None => old(self)@.read_framed().0 is None,
            },
    {
        let size = match self.read_u64() {
            Some(size) => size,
            None => { return None; },
        };
        proof {
            use_type_invariant(&*self);
            assert(self.code@.len() == self.code.len());
        }
        if size > usize::MAX as u64 {
            return None;
        }
        self.read_block(size as usize)
    }

    /// The number of bytes not yet read.
    pub fn len(&self) -> (n: usize)
        ensures
            self@.pointer <= self@.bytes.len(),
            n == self@.bytes.len() - self@.pointer,
            n == self@.remaining().len(),
    {
        proof {
            use_type_invariant(self);
        }
        self.code.len() - self.pointer
    }
}

impl Clone for Slice {
    fn clone(&self) -> (slice: Self)
        ensures
            slice@ == self@,
    {
        proof {
            use_type_invariant(self);
        }
        Self { code: self.code.clone(), pointer: self.pointer }
    }
}

} // verus!

verus! {

/// `bytes` holds `part` at offset `at`.
pub open spec fn holds(bytes: Seq<u8>, at: nat, part: Seq<u8>) -> bool {
    &&& at + part.len() <= bytes.len()
    &&& bytes.subrange(at as int, (at + part.len()) as int) == part
}

/// What was appended stands at the old end.
pub proof fn lemma_holds_appended(head: Seq<u8>, part: Seq<u8>)
    ensures
        holds(head + part, head.len(), part),
{
    assert((head + part).subrange(head.len() as int, (head.len() + part.len()) as int) =~= part);
}

/// Appending more leaves what stands in the bytes where it is.
pub proof fn lemma_holds_extended(bytes: Seq<u8>, at: nat, part: Seq<u8>, tail: Seq<u8>)
    requires
        holds(bytes, at, part),
    ensures
        holds(bytes + tail, at, part),
{
    assert((bytes + tail).subrange(at as int, (at + part.len()) as int) =~= bytes.subrange(
        at as int,
        (at + part.len()) as int,
    ));
}

/// A reader that stands before the eight bytes of a number reads that number.
pub proof fn lemma_reads_u64(bytes: Seq<u8>, at: nat, value: u64)
    requires
        holds(bytes, at, be_bytes(value as nat, 8)),
    ensures
        (SliceView { bytes, pointer: at }).can_read(8),
        be_value((SliceView { bytes, pointer: at }).peek(8)) == value,
{
    lemma_be_bytes_len(value as nat, 8);
    lemma_radix_values();
    lemma_be_value_of_bytes(value as nat, 8);
}

/// A reader that stands before a framed byte string reads it and ends behind it.
pub proof fn lemma_reads_framed(bytes: Seq<u8>, at: nat, body: Seq<u8>)
    requires
        holds(bytes, at, framed(body)),
        body.len() <= u64::MAX,
    ensures
        (SliceView { bytes, pointer: at }).read_framed() == (
            Some(body),
            SliceView { bytes, pointer: at + 8 + body.len() },
        ),
{
    let s = SliceView { bytes, pointer: at };
    let length = be_bytes(body.len(), 8);
    lemma_be_bytes_len(body.len(), 8);
    lemma_radix_values();
    lemma_be_value_of_bytes(body.len(), 8);
    assert(s.peek(8) =~= framed(body).subrange(0, 8));
    assert(framed(body).subrange(0, 8) =~= length);
    assert(s.advance(8).peek(body.len()) =~= framed(body).subrange(8, 8 + body.len() as int));
    assert(framed(body).subrange(8, 8 + body.len() as int) =~= body);
}

/// What stands in the bytes as a whole stands there in its two halves.
pub proof fn lemma_holds_split(bytes: Seq<u8>, at: nat, head: Seq<u8>, tail: Seq<u8>)
    requires
        holds(bytes, at, head + tail),
    ensures
        holds(bytes, at, head),
        holds(bytes, at + head.len(), tail),
{
    let whole = head + tail;
    assert(bytes.subrange(at as int, (at + head.len()) as int) =~= whole.subrange(
        0,
        head.len() as int,
    ));
    assert(whole.subrange(0, head.len() as int) =~= head);
    assert(bytes.subrange((at + head.len()) as int, (at + head.len() + tail.len()) as int)
        =~= whole.subrange(head.len() as int, whole.len() as int));
    assert(whole.subrange(head.len() as int, whole.len() as int) =~= tail);
}

/// One thing that a builder writes and a slice reads: a byte, a number, the
/// bytes of a block as they are, or the bytes of a block behind their length.
pub enum Piece {
    Byte(u8),
    Word(u64),
    Raw(Seq<u8>),
    Framed(Seq<u8>),
}

/// The bytes that writing a piece appends.
pub open spec fn piece_bytes(piece: Piece) -> Seq<u8> {
    match piece {
        Piece::Byte(byte) => seq![byte],
        Piece::Word(word) => be_bytes(word as nat, 8),
        Piece::Raw(bytes) => bytes,
        Piece::Framed(bytes) => framed(bytes),
    }
}

/// What a builder holds after the pieces were written to it in their order.
pub open spec fn written(pieces: Seq<Piece>) -> Seq<u8>
    decreases pieces.len(),
{
    if pieces.len() == 0 {
        Seq::empty()
    } else {
        piece_bytes(pieces[0]) + written(pieces.skip(1))
    }
}

/// The read that answers the write of `like`: a byte for a byte, a number for
/// a number, as many bytes as were written for the bytes of a block, a framed
/// read for framed bytes. Gives what was read, and the reader afterwards.
pub open spec fn read_like(reader: SliceView, like: Piece) -> (Option<Piece>, SliceView) {
    match like {
        Piece::Byte(_) => if reader.can_read(1) {
            (Some(Piece::Byte(reader.bytes[reader.pointer as int])), reader.advance(1))
        } else {
            (None, reader)
        },
        Piece::Word(_) => if reader.can_read(8) {
            (Some(Piece::Word(be_value(reader.peek(8)) as u64)), reader.advance(8))
        } else {
            (None, reader)
        },
        Piece::Raw(bytes) => if reader.can_read(bytes.len()) {
            (Some(Piece::Raw(reader.peek(bytes.len()))), reader.advance(bytes.len()))
        } else {
            (None, reader)
        },
        Piece::Framed(_) => match reader.read_framed() {
            (Some(bytes), next) => (Some(Piece::Framed(bytes)), next),
            (None, next) => (None, next),
        },
    }
}

/// The reads that answer the writes of `like`, one after the other.
pub open spec fn read_all(reader: SliceView, like: Seq<Piece>) -> Option<Seq<Piece>>
    decreases like.len(),
{
    if like.len() == 0 {
        Some(Seq::empty())
    } else {
        match read_like(reader, like[0]) {
            (Some(piece), next) => match read_all(next, like.skip(1)) {
                Some(rest) => Some(seq![piece] + rest),
                None => None,
            },
            (None, _) => None,
        }
    }
}

/// Whether the framed pieces are short enough for their lengths to be written.
pub open spec fn pieces_fit(pieces: Seq<Piece>) -> bool {
    forall|i: int|
        0 <= i < pieces.len() ==> ((#[trigger] pieces[i]) matches Piece::Framed(bytes)
            ==> bytes.len() <= u64::MAX)
}

/// What was written stands in the bytes from `at` on: reading it there in the
/// same order gives the pieces back.
pub proof fn lemma_reads_written(bytes: Seq<u8>, at: nat, pieces: Seq<Piece>)
    requires
        pieces_fit(pieces),
        holds(bytes, at, written(pieces)),
    ensures
        read_all(SliceView { bytes, pointer: at }, pieces) == Some(pieces),
    decreases pieces.len(),
{
    if pieces.len() > 0 {
        let first = pieces[0];
        let rest = pieces.skip(1);
        let reader = SliceView { bytes, pointer: at };
        lemma_holds_split(bytes, at, piece_bytes(first), written(rest));
        let next = SliceView { bytes, pointer: at + piece_bytes(first).len() };
        match first {
            Piece::Byte(byte) => {
                assert(bytes[at as int] == piece_bytes(first)[0]);
            },
            Piece::Word(word) => {
                lemma_reads_u64(bytes, at, word);
                lemma_be_bytes_len(word as nat, 8);
            },
            Piece::Raw(raw) => {},
            Piece::Framed(body) => {
                lemma_reads_framed(bytes, at, body);
                lemma_be_bytes_len(body.len(), 8);
            },
        }
        assert(read_like(reader, first) == (Some(first), next));
        assert(pieces_fit(rest)) by {
            assert forall|i: int| 0 <= i < rest.len() implies ((#[trigger] rest[i]) matches Piece::Framed(
                body,
            ) ==> body.len() <= u64::MAX) by {
                assert(rest[i] == pieces[i + 1]);
            }
        }
        lemma_reads_written(bytes, next.pointer, rest);
        assert(seq![first] + rest =~= pieces);
    } else {
        assert(pieces =~= Seq::<Piece>::empty());
    }
}

/// A slice over what a builder built reads back, in the same order, what was
/// written to the builder.
pub proof fn lemma_write_read_round_trip(pieces: Seq<Piece>)
    requires
        pieces_fit(pieces),
    ensures
        read_all(SliceView { bytes: written(pieces), pointer: 0 }, pieces) == Some(pieces),
{
    lemma_holds_appended(Seq::empty(), written(pieces));
    assert(Seq::<u8>::empty() + written(pieces) =~= written(pieces));
    lemma_reads_written(written(pieces), 0, pieces);
}

} // verus!
