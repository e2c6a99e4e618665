//! Messages, the deployment record they may carry, and their wire format.
use crate::vm::block::{hex_string, sha256, AsBlock, Block};
use crate::vm::builder::{framed, Builder};
use crate::vm::slice::{
    lemma_holds_appended, lemma_holds_extended, lemma_reads_framed, lemma_reads_u64, Slice,
    SliceView,
};
use crate::vm::utils::{be_bytes, be_value, decimal_string, decimal_text, lemma_be_bytes_len};
use std::time::{SystemTime, UNIX_EPOCH};
use vstd::prelude::*;
use vstd::string::StringExecFns;

verus! {

/// Who sent a message: a contract, a user, or a user who only reads.
#[derive(Clone, Copy, Debug, PartialEq, Eq, Structural)]
pub enum MessageType {
    Internal,
    External,
    View,
}

/// The byte that stands for a kind on the wire.
pub open spec fn kind_byte(kind: MessageType) -> u8 {
    match kind {
        MessageType::External => 0,
        MessageType::Internal => 1,
        MessageType::View => 2,
    }
}

/// The kind that a byte on the wire stands for.
pub open spec fn kind_of_byte(byte: u8) -> Option<MessageType> {
    if byte == 0 {
        Some(MessageType::External)
    } else if byte == 1 {
        Some(MessageType::Internal)
    } else if byte == 2 {
        Some(MessageType::View)
    } else {
        None
    }
}

/// What an `Init` is: the bytes of a program and of its first data.
pub struct InitView {
    pub program: Seq<u8>,
    pub data: Seq<u8>,
}

/// What a `Message` is.
pub struct MessageView {
    pub message_type: MessageType,
    pub sender: Seq<u8>,
    pub receiver: Seq<u8>,
    pub init: Option<InitView>,
    pub opcode: u64,
    pub body: Seq<u8>,
    pub timestamp: u64,
}

impl MessageView {
    /// The same message with another time on it.
    pub open spec fn at(self, timestamp: u64) -> MessageView {
        MessageView { timestamp, ..self }
    }
}

/// The wire format of a deployment record: the program, then the data, each framed.
pub open spec fn init_bytes(init: InitView) -> Seq<u8> {
    framed(init.program) + framed(init.data)
}

/// The deployment record that `bytes` begin with, if they begin with one.
pub open spec fn parse_init(bytes: Seq<u8>) -> Option<InitView> {
    let (program, rest) = (SliceView { bytes, pointer: 0 }).read_framed();
    let (data, _) = rest.read_framed();
    if program is Some && data is Some {
        Some(InitView { program: program->0, data: data->0 })
    } else {
        None
    }
}

/// The wire format of the deployment record that a message carries: nothing where it carries none.
pub open spec fn optional_init_bytes(init: Option<InitView>) -> Seq<u8> {
    match init {
        Some(init) => init_bytes(init),
        None => Seq::empty(),
    }
}

/// The wire format of a message: the kind, the sender, the receiver and the
/// deployment record, each framed, the opcode, the framed body, the time.
#[verifier::opaque]
pub open spec fn message_bytes(message: MessageView) -> Seq<u8> {
    seq![kind_byte(message.message_type)] + framed(message.sender) + framed(message.receiver)
        + framed(optional_init_bytes(message.init)) + be_bytes(message.opcode as nat, 8) + framed(
        message.body,
    ) + be_bytes(message.timestamp as nat, 8)
}

/// The message that `bytes` begin with, if they begin with one.
#[verifier::opaque]
pub open spec fn parse_message(bytes: Seq<u8>) -> Option<MessageView> {
    let start = SliceView { bytes, pointer: 0 };
    let (sender, after_sender) = start.advance(1).read_framed();
    let (receiver, after_receiver) = after_sender.read_framed();
    let (init, after_init) = after_receiver.read_framed();
    let (body, after_body) = after_init.advance(8).read_framed();
    if start.can_read(1) && kind_of_byte(bytes[0]) is Some && sender is Some && receiver is Some
        && init is Some && after_init.can_read(8) && body is Some && after_body.can_read(8) {
        Some(
            MessageView {
                message_type: kind_of_byte(bytes[0])->0,
                sender: sender->0,
                receiver: receiver->0,
                init: parse_init(init->0),
                opcode: be_value(after_init.peek(8)) as u64,
                body: body->0,
                timestamp: be_value(after_body.peek(8)) as u64,
            },
        )
    } else {
        None
    }
}

/// Whether the byte strings of a deployment record are short enough for their
/// lengths to be written as `u64`.
pub open spec fn init_fits(init: InitView) -> bool {
    &&& init.program.len() <= u64::MAX
    &&& init.data.len() <= u64::MAX
}

/// Whether the byte strings of a message are short enough for their lengths to
/// be written as `u64`.
pub open spec fn message_fits(message: MessageView) -> bool {
    &&& message.sender.len() <= u64::MAX
    &&& message.receiver.len() <= u64::MAX
    &&& message.body.len() <= u64::MAX
    &&& optional_init_bytes(message.init).len() <= u64::MAX
    &&& message.init matches Some(init) ==> init_fits(init)
}

/// Decoding the wire format of a deployment record gives the record back.
pub proof fn lemma_init_round_trip(init: InitView)
    requires
        init_fits(init),
    ensures
        parse_init(init_bytes(init)) == Some(init),
{
    lemma_init_prefix_round_trip(init, Seq::empty());
    assert(init_bytes(init) + Seq::<u8>::empty() =~= init_bytes(init));
}

/// A deployment record is read back whatever follows its wire format.
pub proof fn lemma_init_prefix_round_trip(init: InitView, tail: Seq<u8>)
    requires
        init_fits(init),
    ensures
        parse_init(init_bytes(init) + tail) == Some(init),
{
    let bytes = init_bytes(init) + tail;
    let program = framed(init.program);
    let data = framed(init.data);
    lemma_be_bytes_len(init.program.len(), 8);
    lemma_holds_appended(Seq::empty(), program);
    assert(Seq::<u8>::empty() + program =~= program);
    lemma_holds_extended(program, 0, program, data);
    lemma_holds_extended(program + data, 0, program, tail);
    lemma_reads_framed(bytes, 0, init.program);
    lemma_holds_appended(program, data);
    lemma_holds_extended(program + data, program.len(), data, tail);
    lemma_reads_framed(bytes, program.len(), init.data);
}

/// Decoding the wire format of a message gives the message back.
pub proof fn lemma_message_round_trip(message: MessageView)
    requires
        message_fits(message),
    ensures
        parse_message(message_bytes(message)) == Some(message),
{
    reveal(message_bytes);
    reveal(parse_message);
    let kind = seq![kind_byte(message.message_type)];
    let sender = framed(message.sender);
    let receiver = framed(message.receiver);
    let init = framed(optional_init_bytes(message.init));
    let opcode = be_bytes(message.opcode as nat, 8);
    let body = framed(message.body);
    let timestamp = be_bytes(message.timestamp as nat, 8);
    let b1 = kind + sender;
    let b2 = b1 + receiver;
    let b3 = b2 + init;
    let b4 = b3 + opcode;
    let b5 = b4 + body;
    let bytes = b5 + timestamp;
    assert(bytes == message_bytes(message));
    lemma_be_bytes_len(message.sender.len(), 8);
    lemma_be_bytes_len(message.receiver.len(), 8);
    lemma_be_bytes_len(optional_init_bytes(message.init).len(), 8);
    lemma_be_bytes_len(message.opcode as nat, 8);
    lemma_be_bytes_len(message.body.len(), 8);
    lemma_be_bytes_len(message.timestamp as nat, 8);
    assert(bytes[0] == kind_byte(message.message_type));
    lemma_holds_appended(kind, sender);
    lemma_holds_extended(b1, 1, sender, receiver);
    lemma_holds_extended(b2, 1, sender, init);
    lemma_holds_extended(b3, 1, sender, opcode);
    lemma_holds_extended(b4, 1, sender, body);
    lemma_holds_extended(b5, 1, sender, timestamp);
    lemma_reads_framed(bytes, 1, message.sender);
    lemma_holds_appended(b1, receiver);
    lemma_holds_extended(b2, b1.len(), receiver, init);
    lemma_holds_extended(b3, b1.len(), receiver, opcode);
    lemma_holds_extended(b4, b1.len(), receiver, body);
    lemma_holds_extended(b5, b1.len(), receiver, timestamp);
    lemma_reads_framed(bytes, b1.len(), message.receiver);
    lemma_holds_appended(b2, init);
    lemma_holds_extended(b3, b2.len(), init, opcode);
    lemma_holds_extended(b4, b2.len(), init, body);
    lemma_holds_extended(b5, b2.len(), init, timestamp);
    lemma_reads_framed(bytes, b2.len(), optional_init_bytes(message.init));
    lemma_holds_appended(b3, opcode);
    lemma_holds_extended(b4, b3.len(), opcode, body);
    lemma_holds_extended(b5, b3.len(), opcode, timestamp);
    lemma_reads_u64(bytes, b3.len(), message.opcode);
    lemma_holds_appended(b4, body);
    lemma_holds_extended(b5, b4.len(), body, timestamp);
    lemma_reads_framed(bytes, b4.len(), message.body);
    lemma_holds_appended(b5, timestamp);
    lemma_reads_u64(bytes, b5.len(), message.timestamp);
    match message.init {
        Some(record) => {
            lemma_init_round_trip(record);
        },
        None => {
            assert(parse_init(Seq::empty()) is None);
        },
    }
}

/// What a contract starts from: its program and its first data. A message
/// that carries one deploys the contract.
#[derive(Debug)]
pub struct Init {
    pub program: Block,
    pub data: Block,
}

impl View for Init {
    type V = InitView;

    open spec fn view(&self) -> InitView {
        InitView { program: self.program@, data: self.data@ }
    }
}

impl Clone for Init {
    fn clone(&self) -> (init: Self)
        ensures
            init@ == self@,
    {
        Init { program: self.program.clone(), data: self.data.clone() }
    }
}

/// The view of a record that may be absent.
pub open spec fn optional_init_view(init: Option<Init>) -> Option<InitView> {
    match init {
        Some(init) => Some(init@),
        None => None,
    }
}

impl Init {
    /// Reads a deployment record from the start of `block`; `None` where the
    /// block does not begin with two framed byte strings.
    pub fn from_block(block: Block) -> (r: Option<Self>)
        ensures
            optional_init_view(r) == parse_init(block@),
    {
        let mut slice = Slice::new(block);
        let program = slice.read_block_with_len();
        let data = slice.read_block_with_len();
        match (program, data) {
            (Some(program), Some(data)) => Some(Init { program, data }),
            _ => None,
        }
    }
}

impl AsBlock for Init {
    open spec fn encoding(&self) -> Seq<u8> {
        init_bytes(self@)
    }

    fn get_as_block(&self) -> (block: Block) {
        let mut builder = Builder::new();
        builder.write_block_with_len(self.program.clone());
        builder.write_block_with_len(self.data.clone());
        assert(builder@ =~= init_bytes(self@));
        builder.build()
    }
}

/// Reads the system clock with `std::time::SystemTime::now` and gives the
/// milliseconds since the Unix epoch, or 0 for a clock set before it. Nothing
/// is claimed of the number.
#[verifier::external_body]
pub(crate) fn current_millis() -> (now: u64) {
    match SystemTime::now().duration_since(UNIX_EPOCH) {
        Ok(elapsed) => elapsed.as_millis() as u64,
        Err(_) => 0,
    }
}

/// The unit that contracts and users exchange.
#[derive(Debug)]
pub struct Message {
    pub message_type: MessageType,
    pub sender: Block,
    pub receiver: Block,
    pub init: Option<Init>,
    pub opcode: u64,
    pub body: Block,
    pub timestamp: u64,
}

impl View for Message {
    type V = MessageView;

    open spec fn view(&self) -> MessageView {
        MessageView {
            message_type: self.message_type,
            sender: self.sender@,
            receiver: self.receiver@,
            init: optional_init_view(self.init),
            opcode: self.opcode,
            body: self.body@,
            timestamp: self.timestamp,
        }
    }
}

impl Clone for Message {
    fn clone(&self) -> (message: Self)
        ensures
            message@ == self@,
    {
        Message {
            message_type: self.message_type,
            sender: self.sender.clone(),
            receiver: self.receiver.clone(),
            init: match &self.init {
                Some(init) => Some(init.clone()),
                None => None,
            },
            opcode: self.opcode,
            body: self.body.clone(),
            timestamp: self.timestamp,
        }
    }
}

/// The view of a message that may be absent.
pub open spec fn optional_message_view(message: Option<Message>) -> Option<MessageView> {
    match message {
        Some(message) => Some(message@),
        None => None,
    }
}

impl Message {
    /// A message with the time `timestamp`, in milliseconds since the Unix epoch.
    pub fn stamped(
        message_type: MessageType,
        body: Block,
        opcode: u64,
        sender: Block,
        receiver: Block,
        init: Option<Init>,
        timestamp: u64,
    ) -> (message: Self)
        ensures
            message@ == (MessageView {
                message_type,
                sender: sender@,
                receiver: receiver@,
                init: optional_init_view(init),
                opcode,
                body: body@,
                timestamp,
            }),
    {
        Self { message_type, body, sender, receiver, opcode, init, timestamp }
    }

    /// A message with the time of the system clock. Whatever the clock says,
    /// the other fields are the arguments.
    pub fn new(
        message_type: MessageType,
        body: Block,
        opcode: u64,
        sender: Block,
        receiver: Block,
        init: Option<Init>,
    ) -> (message: Self)
        ensures
            message@ == (MessageView {
                message_type,
                sender: sender@,
                receiver: receiver@,
                init: optional_init_view(init),
                opcode,
                body: body@,
                timestamp: message.timestamp,
            }),
    {
        Self::stamped(message_type, body, opcode, sender, receiver, init, current_millis())
    }

    /// Reads a message from the start of `block`; `None` where the block does
    /// not begin with the wire format of a message. A deployment record that
    /// cannot be read counts as none.
    pub fn from_block(block: Block) -> (r: Option<Message>)
        ensures
            optional_message_view(r) == parse_message(block@),
    {
        proof {
            reveal(parse_message);
        }
        let mut slice = Slice::new(block);
        let message_type = match slice.read_u8() {
            Some(0) => MessageType::External,
            Some(1) => MessageType::Internal,
            Some(2) => MessageType::View,
            _ => { return None; },
        };
        let sender = slice.read_block_with_len()?;
        let receiver = slice.read_block_with_len()?;
        let init = Init::from_block(slice.read_block_with_len()?);
        let opcode = slice.read_u64()?;
        let body = slice.read_block_with_len()?;
        let timestamp = slice.read_u64()?;
        Some(Message { message_type, sender, receiver, init, opcode, body, timestamp })
    }
}

/// A message as one line of text: its hash, its sender and receiver, its
/// opcode, its body, and whether it deploys a contract.
pub open spec fn message_text(message: MessageView) -> Seq<char> {
    hex_string(sha256(message_bytes(message))) + " "@ + hex_string(message.sender) + " -> "@
        + hex_string(message.receiver) + " #"@ + decimal_text(message.opcode as nat) + " = "@
        + hex_string(message.body) + " (initial?: "@ + (if message.init is Some {
        "true"@
    } else {
        "false"@
    }) + ")"@
}

impl Message {
    /// The message as one line of text, for people to read.
    pub fn to_string(&self) -> (text: String)
        ensures
            text@ == message_text(self@),
    {
        let deploys = if self.init.is_some() {
            "true"
        } else {
            "false"
        };
        self.get_as_block().hash().to_string().concat(" ").concat(
            self.sender.to_string().as_str(),
        ).concat(" -> ").concat(self.receiver.to_string().as_str()).concat(" #").concat(
            decimal_string(self.opcode).as_str(),
        ).concat(" = ").concat(self.body.to_string().as_str()).concat(" (initial?: ").concat(
            deploys,
        ).concat(")")
    }
}

impl AsBlock for Message {
    open spec fn encoding(&self) -> Seq<u8> {
        message_bytes(self@)
    }

    fn get_as_block(&self) -> (block: Block) {
        let mut builder = Builder::new();
        builder.write_u8(
            match self.message_type {
                MessageType::Internal => 1,
                MessageType::External => 0,
                MessageType::View => 2,
            },
        );
        builder.write_block_with_len(self.sender.clone());
        builder.write_block_with_len(self.receiver.clone());
        builder.write_block_with_len(
            match &self.init {
                Some(init) => init.get_as_block(),
                None => Block::empty(),
            },
        );
        builder.write_u64(self.opcode);
        builder.write_block_with_len(self.body.clone());
        builder.write_u64(self.timestamp);
        proof {
            reveal(message_bytes);
        }
        assert(builder@ =~= message_bytes(self@));
        builder.build()
    }
}

} // verus!
