//! Immutable byte strings, their SHA-256 digest and their hexadecimal text.
use sha2::Digest;
use sha2::Sha256;
use vstd::prelude::*;
use vstd::slice::slice_to_vec;
use vstd::std_specs::convert::FromSpecImpl;

verus! {

/// The SHA-256 digest of a byte string.
pub uninterp spec fn sha256(bytes: Seq<u8>) -> Seq<u8>;

/// Calls `sha2::Sha256::digest`. The result is the SHA-256 digest of `bytes`,
/// which the contract names `sha256(bytes)`; a SHA-256 digest has 32 bytes.
#[verifier::external_body]
fn sha256_digest(bytes: &[u8]) -> (digest: Vec<u8>)
    ensures
        digest@ == sha256(bytes@),
        digest@.len() == 32,
{
    Sha256::digest(bytes).to_vec()
}

/// The lowercase hexadecimal digit of a number below sixteen.
pub open spec fn hex_digit(n: u8) -> char {
    if n < 10 {
        (48 + n) as char
    } else {
        (87 + n) as char
    }
}

/// The number that a hexadecimal digit stands for, in either case.
pub open spec fn hex_value(c: char) -> Option<u8> {
    let n = c as int;
    if 48 <= n <= 57 {
        Some((n - 48) as u8)
    } else if 97 <= n <= 102 {
        Some((n - 87) as u8)
    } else if 65 <= n <= 70 {
        Some((n - 55) as u8)
    } else {
        None
    }
}

/// The hexadecimal text of a byte string: two lowercase digits per byte, high nibble first.
pub open spec fn hex_string(bytes: Seq<u8>) -> Seq<char> {
    Seq::new(
        2 * bytes.len(),
        |i: int|
            hex_digit(
                if i % 2 == 0 {
                    bytes[i / 2] / 16
                } else {
                    bytes[i / 2] % 16
                },
            ),
    )
}

/// Whether `text` is hexadecimal text: an even number of hexadecimal digits.
pub open spec fn is_hex(text: Seq<char>) -> bool {
    &&& text.len() % 2 == 0
    &&& forall|i: int| 0 <= i < text.len() ==> (#[trigger] hex_value(text[i])) is Some
}

/// The bytes that hexadecimal text denotes, or `None` where it is not hexadecimal text.
pub open spec fn hex_bytes(text: Seq<char>) -> Option<Seq<u8>> {
    if is_hex(text) {
        Some(
            Seq::new(
                (text.len() / 2) as nat,
                |i: int| (hex_value(text[2 * i])->0 * 16 + hex_value(text[2 * i + 1])->0) as u8,
            ),
        )
    } else {
        None
    }
}

/// Decoding the hexadecimal text of a byte string gives the byte string back.
pub proof fn lemma_hex_round_trip(bytes: Seq<u8>)
    ensures
        hex_bytes(hex_string(bytes)) == Some(bytes),
{
    let text = hex_string(bytes);
    assert forall|n: u8| n < 16 implies hex_value(#[trigger] hex_digit(n)) == Some(n) by {}
    assert forall|i: int| 0 <= i < text.len() implies (#[trigger] hex_value(text[i])) is Some by {
        let n = if i % 2 == 0 {
            bytes[i / 2] / 16
        } else {
            bytes[i / 2] % 16
        };
        assert(text[i] == hex_digit(n));
    }
    assert(is_hex(text));
    let back = hex_bytes(text)->0;
    assert(back.len() == bytes.len());
    assert forall|i: int| 0 <= i < bytes.len() implies back[i] == bytes[i] by {
        assert(text[2 * i] == hex_digit(bytes[i] / 16));
        assert(text[2 * i + 1] == hex_digit(bytes[i] % 16));
    }
    assert(back =~= bytes);
}

/// Calls `hex::encode`. The result is the text of `bytes` in lowercase
/// hexadecimal digits, two per byte, the high nibble first.
#[verifier::external_body]
fn hex_encode(bytes: &Vec<u8>) -> (text: String)
    ensures
        text@ == hex_string(bytes@),
{
    hex::encode(bytes)
}

/// Calls `hex::decode`. It succeeds exactly on an even number of hexadecimal
/// digits of either case, and then gives the byte that each pair denotes.
#[verifier::external_body]
fn hex_decode(text: &str) -> (bytes: Option<Vec<u8>>)
    ensures
        match bytes {
            Some(v) => hex_bytes(text@) == Some(v@),
            None => hex_bytes(text@) is None,
        },
{
    hex::decode(text).ok()
}

/// An immutable byte string. Its identity is its content.
#[derive(Debug)]
pub struct Block {
    buffer: Vec<u8>,
}

impl View for Block {
    type V = Seq<u8>;

    closed spec fn view(&self) -> Seq<u8> {
        self.buffer@
    }
}

/// The bytes of a block that may be absent.
pub open spec fn optional_block_view(block: Option<Block>) -> Option<Seq<u8>> {
    match block {
        Some(block) => Some(block@),
        None => None,
    }
}

/// A value that has a canonical encoding as a `Block`.
pub trait AsBlock {
    /// The bytes of the canonical encoding.
    spec fn encoding(&self) -> Seq<u8>;

    /// Builds the canonical encoding.
    fn get_as_block(&self) -> (block: Block)
        ensures
            block@ == self.encoding(),
    ;
}

impl Block {
    /// Gives up the block for its bytes.
    pub fn unpack(self) -> (bytes: Vec<u8>)
        ensures
            bytes@ == self@,
    {
        self.buffer
    }

    /// A block that holds a copy of `bytes`.
    pub fn new(bytes: &[u8]) -> (block: Self)
        ensures
            block@ == bytes@,
    {
        Self { buffer: slice_to_vec(bytes) }
    }

    /// The block of no bytes.
    pub fn empty() -> (block: Self)
        ensures
            block@ == Seq::<u8>::empty(),
    {
        Self { buffer: Vec::new() }
    }

    /// The number of bytes.
    pub fn len(&self) -> (n: usize)
        ensures
            n == self@.len(),
    {
        self.buffer.len()
    }

    /// The bytes, borrowed.
    pub fn as_slice(&self) -> (bytes: &[u8])
        ensures
            bytes@ == self@,
    {
        self.buffer.as_slice()
    }

    /// Whether two blocks hold the same bytes.
    pub fn same(&self, other: &Block) -> (r: bool)
        ensures
            r == (self@ == other@),
    {
        if self.buffer.len() != other.buffer.len() {
            return false;
        }
        let mut i: usize = 0;
        while i < self.buffer.len()
            invariant
                i <= self.buffer@.len(),
                self.buffer@.len() == other.buffer@.len(),
                self.buffer@.take(i as int) == other.buffer@.take(i as int),
            decreases self.buffer@.len() - i,
        {
            if self.buffer[i] != other.buffer[i] {
                assert(self.buffer@[i as int] != other.buffer@[i as int]);
                return false;
            }
            assert(self.buffer@.take(i + 1) =~= self.buffer@.take(i as int).push(self.buffer@[i as int]));
            assert(other.buffer@.take(i + 1) =~= other.buffer@.take(i as int).push(other.buffer@[i as int]));
            i += 1;
        }
        assert(self.buffer@.take(i as int) =~= self.buffer@);
        assert(other.buffer@.take(i as int) =~= other.buffer@);
        true
    }

    /// Reads a block from hexadecimal text; `None` where the text is not an even
    /// number of hexadecimal digits.
    pub fn from_string(value: String) -> (block: Option<Block>)
        ensures
            match block {
                Some(b) => hex_bytes(value@) == Some(b@),
                None => hex_bytes(value@) is None,
            },
    {
        match hex_decode(value.as_str()) {
            Some(buffer) => Some(Self { buffer }),
            None => None,
        }
    }

    /// The SHA-256 digest of the bytes, as a block of 32 bytes.
    pub fn hash(&self) -> (digest: Block)
        ensures
            digest@ == sha256(self@),
            digest@.len() == 32,
    {
        Self { buffer: sha256_digest(self.buffer.as_slice()) }
    }

    /// The bytes in lowercase hexadecimal text.
    pub fn to_string(&self) -> (text: String)
        ensures
            text@ == hex_string(self@),
    {
        hex_encode(&self.buffer)
    }
}

impl Clone for Block {
    fn clone(&self) -> (block: Self)
        ensures
            block@ == self@,
    {
        Self { buffer: self.buffer.clone() }
    }
}

impl From<Vec<u8>> for Block {
    fn from(value: Vec<u8>) -> (block: Self)
        ensures
            block@ == value@,
    {
        Self { buffer: value }
    }
}

impl FromSpecImpl<Vec<u8>> for Block {
    open spec fn obeys_from_spec() -> bool {
        true
    }

    closed spec fn from_spec(value: Vec<u8>) -> Self {
        Block { buffer: value }
    }
}

impl From<&[u8]> for Block {
    fn from(value: &[u8]) -> (block: Self)
        ensures
            block@ == value@,
    {
        Self { buffer: slice_to_vec(value) }
    }
}

impl FromSpecImpl<&[u8]> for Block {
    open spec fn obeys_from_spec() -> bool {
        false
    }

    closed spec fn from_spec(value: &[u8]) -> Self {
        arbitrary()
    }
}

} // verus!
