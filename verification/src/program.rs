//! Contract programs: a header of optional entry points, then the code.
use crate::vm::block::{AsBlock, Block};
use crate::vm::builder::Builder;
use crate::vm::message::MessageType;
use crate::vm::slice::{
    holds, lemma_holds_appended, lemma_holds_extended, lemma_reads_u64, SliceView,
};
use crate::vm::utils::{be_bytes, be_value, decode_be, lemma_be_bytes_len};
use vstd::prelude::*;
use vstd::slice::{slice_index_get, slice_subrange, slice_to_vec};

verus! {

/// What a `Program` is: its code and, for each kind of message, the offset in
/// the code at which such a message is served, if it is served at all.
pub struct ProgramView {
    pub code: Seq<u8>,
    pub internal: Option<usize>,
    pub external: Option<usize>,
    pub view: Option<usize>,
}

impl ProgramView {
    /// The entry point for a kind of message.
    pub open spec fn entrypoint(self, message_type: MessageType) -> Option<usize> {
        match message_type {
            MessageType::Internal => self.internal,
            MessageType::External => self.external,
            MessageType::View => self.view,
        }
    }
}

/// One entry of the header: a flag byte, and behind the flag 1 an offset as a
/// big-endian `u64`. Any other flag says that the entry point is absent.
pub open spec fn entry_bytes(entry: Option<usize>) -> Seq<u8> {
    match entry {
        Some(offset) => seq![1u8] + be_bytes(offset as nat, 8),
        None => seq![0u8],
    }
}

/// The wire format of a program: the entries for internal, external and view
/// messages, then the code.
pub open spec fn program_bytes(program: ProgramView) -> Seq<u8> {
    entry_bytes(program.internal) + entry_bytes(program.external) + entry_bytes(program.view)
        + program.code
}

/// Reads one entry of the header. Gives `None` where the flag is missing or
/// where the offset that the flag announces is, and the reader afterwards.
pub open spec fn read_entry(reader: SliceView) -> (Option<Option<usize>>, SliceView) {
    if !reader.can_read(1) {
        (None, reader)
    } else if reader.bytes[reader.pointer as int] == 1 {
        let offset = reader.advance(1);
        if offset.can_read(8) {
            (Some(Some(be_value(offset.peek(8)) as usize)), offset.advance(8))
        } else {
            (None, offset)
        }
    } else {
        (Some(None), reader.advance(1))
    }
}

/// Reads a program from where the reader stands: the three entries, then all
/// that is left as code. Gives the program, if the header is whole, and the
/// reader afterwards, which stands where reading stopped.
pub open spec fn read_program(reader: SliceView) -> (Option<ProgramView>, SliceView) {
    let (internal, after_internal) = read_entry(reader);
    let (external, after_external) = read_entry(after_internal);
    let (view, after_view) = read_entry(after_external);
    if internal is None {
        (None, after_internal)
    } else if external is None {
        (None, after_external)
    } else if view is None {
        (None, after_view)
    } else {
        (
            Some(
                ProgramView {
                    code: after_view.remaining(),
                    internal: internal->0,
                    external: external->0,
                    view: view->0,
                },
            ),
            after_view,
        )
    }
}

/// The program that `bytes` hold, if their header is whole.
pub open spec fn parse_program(bytes: Seq<u8>) -> Option<ProgramView> {
    read_program(SliceView { bytes, pointer: 0 }).0
}

/// An entry that stands in the bytes is read back, and the reader ends behind it.
proof fn lemma_reads_entry(bytes: Seq<u8>, at: nat, entry: Option<usize>)
    requires
        holds(bytes, at, entry_bytes(entry)),
    ensures
        read_entry(SliceView { bytes, pointer: at }) == (
            Some(entry),
            SliceView { bytes, pointer: at + entry_bytes(entry).len() },
        ),
{
    let part = entry_bytes(entry);
    assert(bytes[at as int] == part[0]);
    match entry {
        Some(offset) => {
            let word = be_bytes(offset as nat, 8);
            lemma_be_bytes_len(offset as nat, 8);
            assert(bytes.subrange(at as int + 1, at as int + 9) =~= part.subrange(1, 9));
            assert(part.subrange(1, 9) =~= word);
            lemma_reads_u64(bytes, (at + 1) as nat, offset as u64);
        },
        None => {},
    }
}

/// Decoding the wire format of a program gives the program back.
pub proof fn lemma_program_round_trip(program: ProgramView)
    ensures
        parse_program(program_bytes(program)) == Some(program),
{
    let internal = entry_bytes(program.internal);
    let external = entry_bytes(program.external);
    let view = entry_bytes(program.view);
    let b1 = internal + external;
    let b2 = b1 + view;
    let bytes = b2 + program.code;
    lemma_holds_appended(Seq::empty(), internal);
    assert(Seq::<u8>::empty() + internal =~= internal);
    lemma_holds_extended(internal, 0, internal, external);
    lemma_holds_extended(b1, 0, internal, view);
    lemma_holds_extended(b2, 0, internal, program.code);
    lemma_reads_entry(bytes, 0, program.internal);
    lemma_holds_appended(internal, external);
    lemma_holds_extended(b1, internal.len(), external, view);
    lemma_holds_extended(b2, internal.len(), external, program.code);
    lemma_reads_entry(bytes, internal.len(), program.external);
    lemma_holds_appended(b1, view);
    lemma_holds_extended(b2, b1.len(), view, program.code);
    lemma_reads_entry(bytes, b1.len(), program.view);
    assert(bytes.skip(b2.len() as int) =~= program.code);
}

/// A contract program, ready to run.
#[derive(Debug)]
pub struct Program {
    code: Vec<u8>,
    internal: Option<usize>,
    external: Option<usize>,
    view: Option<usize>,
}

impl View for Program {
    type V = ProgramView;

    closed spec fn view(&self) -> ProgramView {
        ProgramView {
            code: self.code@,
            internal: self.internal,
            external: self.external,
            view: self.view,
        }
    }
}

/// The view of a program that may be absent.
pub open spec fn optional_program_view(program: Option<Program>) -> Option<ProgramView> {
    match program {
        Some(program) => Some(program@),
        None => None,
    }
}

/// A reader that takes a program from bytes.
pub struct ProgramReaderFromBytes<'a> {
    offset: usize,
    bytes: &'a [u8],
}

impl<'a> View for ProgramReaderFromBytes<'a> {
    type V = SliceView;

    closed spec fn view(&self) -> SliceView {
        SliceView { bytes: self.bytes@, pointer: self.offset as nat }
    }
}

impl<'a> ProgramReaderFromBytes<'a> {
    /// A reader at the start of `bytes`.
    pub fn new(bytes: &'a [u8]) -> (reader: Self)
        ensures
            reader@ == (SliceView { bytes: bytes@, pointer: 0 }),
    {
        Self { offset: 0, bytes }
    }

    /// Reads one byte.
    pub fn read_u8(&mut self) -> (r: Option<u8>)
        ensures
            match r {
                Some(value) => old(self)@.can_read(1) && value == old(self)@.bytes[old(
                    self,
                )@.pointer as int] && final(self)@ == old(self)@.advance(1),
                None => !old(self)@.can_read(1) && final(self)@ == old(self)@,
            },
    {
        if self.offset < self.bytes.len() {
            let value = *slice_index_get(self.bytes, self.offset);
            self.offset += 1;
            Some(value)
        } else {
            None
        }
    }

    /// Reads eight bytes as a big-endian `u64`.
    pub fn read_u64(&mut self) -> (r: Option<u64>)
        ensures
            match r {
                Some(value) => old(self)@.can_read(8) && value == be_value(old(self)@.peek(8))
                    && final(self)@ == old(self)@.advance(8),
                None => !old(self)@.can_read(8) && final(self)@ == old(self)@,
            },
    {
        if self.bytes.len() >= 8 && self.offset <= self.bytes.len() - 8 {
            let value = decode_be(slice_subrange(self.bytes, self.offset, self.offset + 8));
            self.offset += 8;
            Some(value)
        } else {
            None
        }
    }

    /// Reads one entry of the header.
    fn read_entry(&mut self) -> (r: Option<Option<usize>>)
        ensures
            r == read_entry(old(self)@).0,
            final(self)@ == read_entry(old(self)@).1,
    {
        let flag = self.read_u8()?;
        if flag == 1 {
            let offset = self.read_u64()?;
            Some(Some(#[verifier::truncate] (offset as usize)))
        } else {
            Some(None)
        }
    }

    /// Reads the header and takes the rest as code. A header that ends early,
    /// or an entry whose flag is 1 and whose offset is missing, gives `None`.
    pub fn load(&mut self) -> (r: Option<Program>)
        ensures
            optional_program_view(r) == read_program(old(self)@).0,
            final(self)@ == read_program(old(self)@).1,
    {
        let internal = self.read_entry()?;
        let external = self.read_entry()?;
        let view = self.read_entry()?;
        let code = slice_to_vec(slice_subrange(self.bytes, self.offset, self.bytes.len()));
        Some(Program { code, internal, external, view })
    }
}

impl Program {
    /// Reads a program from `bytes`.
    pub fn from_bytes(bytes: &[u8]) -> (r: Option<Program>)
        ensures
            optional_program_view(r) == parse_program(bytes@),
    {
        let mut reader = ProgramReaderFromBytes::new(bytes);
        reader.load()
    }

    /// A copy of the code.
    pub fn get_code(&self) -> (code: Vec<u8>)
        ensures
            code@ == self@.code,
    {
        self.code.clone()
    }

    /// The entry point for internal messages.
    pub fn get_internal(&self) -> (r: Option<usize>)
        ensures
            r == self@.internal,
    {
        self.internal
    }

    /// The entry point for external messages.
    pub fn get_external(&self) -> (r: Option<usize>)
        ensures
            r == self@.external,
    {
        self.external
    }

    /// The entry point for view messages.
    pub fn get_view(&self) -> (r: Option<usize>)
        ensures
            r == self@.view,
    {
        self.view
    }

    /// The entry point for a kind of message.
    pub fn get_entrypoint(&self, message_type: MessageType) -> (r: Option<usize>)
        ensures
            r == self@.entrypoint(message_type),
    {
        match message_type {
            MessageType::Internal => self.get_internal(),
            MessageType::External => self.get_external(),
            MessageType::View => self.get_view(),
        }
    }
}

/// Appends one entry of the header.
fn write_entry(builder: &mut Builder, entry: Option<usize>)
    ensures
        final(builder)@ == old(builder)@ + entry_bytes(entry),
{
    match entry {
        Some(offset) => {
            builder.write_u8(1);
            builder.write_u64(offset as u64);
            assert(builder@ =~= old(builder)@ + entry_bytes(entry));
        },
        None => {
            builder.write_u8(0);
            assert(builder@ =~= old(builder)@ + entry_bytes(entry));
        },
    }
}

impl AsBlock for Program {
    open spec fn encoding(&self) -> Seq<u8> {
        program_bytes(self@)
    }

    fn get_as_block(&self) -> (block: Block) {
        let mut builder = Builder::new();
        write_entry(&mut builder, self.internal);
        write_entry(&mut builder, self.external);
        write_entry(&mut builder, self.view);
        builder.write_block(Block::new(self.code.as_slice()));
        assert(builder@ =~= program_bytes(self@));
        builder.build()
    }
}

} // verus!
