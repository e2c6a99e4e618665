//! The executor: it finds the contract that a message addresses, runs its
//! program, and executes in turn what the program sends.
use crate::program::{parse_program, Program};
use crate::repositories::{
    found_bytes, involving, latest_data, latest_program, messages_of, newest_first, page,
    transaction_records, RecordView,
};
use crate::vm::block::{optional_block_view, sha256, AsBlock, Block};
use crate::vm::builder::{framed, Builder};
use crate::vm::machine::{extended, run, sends, started, Machine, ValueView};
use crate::vm::message::{
    init_bytes, lemma_message_round_trip, message_bytes, message_fits, optional_message_view,
    parse_message, Init, InitView, Message, MessageView,
};
use crate::vm::slice::{
    holds, lemma_holds_appended, lemma_holds_extended, lemma_holds_split, lemma_reads_framed,
    lemma_reads_u64, Slice, SliceView,
};
use crate::vm::utils::{be_bytes, be_value, lemma_be_bytes_len};
use crate::vm::{message_views, views, SendMessage, Value, STEP_LIMIT, VM};
use vstd::prelude::*;

verus! {

/// What a `ContractState` is.
pub struct ContractStateView {
    pub message: MessageView,
    pub data: Seq<u8>,
    pub children: Seq<TransactionPartView>,
}

/// What a `TransactionPart` is.
pub enum TransactionPartView {
    Message(MessageView),
    State(ContractStateView),
}

impl TransactionPartView {
    /// The message that this part of the transaction answers.
    pub open spec fn message(self) -> MessageView {
        match self {
            TransactionPartView::Message(message) => message,
            TransactionPartView::State(state) => state.message,
        }
    }
}

/// What a message left behind that was executed: the message, the data of the
/// contract afterwards, and what became of the messages that the contract
/// sent, in the order in which it sent them.
#[derive(Debug)]
pub struct ContractState {
    pub message: Message,
    pub data: Block,
    pub children: Vec<TransactionPart>,
}

/// What became of a message: it was executed, or it could not be.
#[derive(Debug)]
pub enum TransactionPart {
    Message(Message),
    State(ContractState),
}

/// What a part of a transaction is, taken apart down to its leaves.
pub open spec fn part_view(part: TransactionPart) -> TransactionPartView
    decreases part,
{
    match part {
        TransactionPart::Message(message) => TransactionPartView::Message(message@),
        TransactionPart::State(state) => TransactionPartView::State(
            ContractStateView {
                message: state.message@,
                data: state.data@,
                children: Seq::new(
                    state.children@.len(),
                    |i: int|
                        if 0 <= i < state.children@.len() {
                            part_view(state.children@[i])
                        } else {
                            arbitrary()
                        },
                ),
            },
        ),
    }
}

impl View for TransactionPart {
    type V = TransactionPartView;

    open spec fn view(&self) -> TransactionPartView {
        part_view(*self)
    }
}

impl View for ContractState {
    type V = ContractStateView;

    open spec fn view(&self) -> ContractStateView {
        ContractStateView {
            message: self.message@,
            data: self.data@,
            children: part_views(self.children@),
        }
    }
}

/// The views of a sequence of parts.
pub open spec fn part_views(parts: Seq<TransactionPart>) -> Seq<TransactionPartView> {
    Seq::new(parts.len(), |i: int| parts[i]@)
}

/// The view of an executed part is built from the view of its state.
pub proof fn lemma_state_view(state: ContractState)
    ensures
        TransactionPart::State(state)@ == TransactionPartView::State(state@),
{
    let part = TransactionPart::State(state);
    let children = part@->State_0.children;
    assert(children.len() == state.children@.len());
    assert forall|i: int| 0 <= i < children.len() implies children[i] == state@.children[i] by {
        assert(children[i] == state.children@[i]@);
    }
    assert(children =~= state@.children);
}

/// The canonical encoding of a part of a transaction: the tag 0 and the
/// framed message, or the tag 1 and the framed state.
pub open spec fn part_bytes(part: TransactionPartView) -> Seq<u8>
    decreases part,
{
    match part {
        TransactionPartView::Message(message) => seq![0u8] + framed(message_bytes(message)),
        TransactionPartView::State(state) => seq![1u8] + framed(state_bytes(state)),
    }
}

/// The canonical encoding of a state: the framed message, the framed data,
/// the number of children as a big-endian `u64`, then each child, framed.
pub open spec fn state_bytes(state: ContractStateView) -> Seq<u8>
    decreases state,
{
    framed(message_bytes(state.message)) + framed(state.data) + be_bytes(state.children.len(), 8)
        + children_bytes(state.children, state.children.len())
}

/// The first `count` of `children`, each in its canonical encoding and framed.
pub open spec fn children_bytes(children: Seq<TransactionPartView>, count: nat) -> Seq<u8>
    decreases children, count,
{
    if count == 0 || count > children.len() {
        Seq::empty()
    } else {
        children_bytes(children, (count - 1) as nat) + framed(
            part_bytes(children[count - 1]),
        )
    }
}

impl AsBlock for TransactionPart {
    open spec fn encoding(&self) -> Seq<u8> {
        part_bytes(self@)
    }

    fn get_as_block(&self) -> (block: Block)
        decreases self, 1nat,
    {
        let mut builder = Builder::new();
        match self {
            TransactionPart::Message(message) => {
                builder.write_u8(0);
                builder.write_block_with_len(message.get_as_block());
            },
            TransactionPart::State(state) => {
                builder.write_u8(1);
                builder.write_block_with_len(state.get_as_block());
                proof {
                    lemma_state_view(*state);
                }
            },
        }
        assert(builder@ =~= part_bytes(self@));
        builder.build()
    }
}

impl AsBlock for ContractState {
    open spec fn encoding(&self) -> Seq<u8> {
        state_bytes(self@)
    }

    fn get_as_block(&self) -> (block: Block)
        decreases self, 0nat,
    {
        let mut builder = Builder::new();
        builder.write_block_with_len(self.message.get_as_block());
        builder.write_block_with_len(self.data.clone());
        builder.write_u64(self.children.len() as u64);
        let ghost head = builder@;
        let mut i: usize = 0;
        while i < self.children.len()
            invariant
                i <= self.children@.len(),
                builder@ == head + children_bytes(self@.children, i as nat),
            decreases self.children@.len() - i,
        {
            let child = &self.children[i];
            builder.write_block_with_len(child.get_as_block());
            assert(self@.children[i as int] == child@);
            assert(builder@ =~= head + children_bytes(self@.children, (i + 1) as nat));
            i += 1;
        }
        assert(builder@ =~= state_bytes(self@));
        builder.build()
    }
}

/// The part of a transaction that `bytes` begin with in the canonical
/// encoding, if they begin with one.
pub open spec fn parse_part(bytes: Seq<u8>) -> Option<TransactionPartView>
    decreases bytes.len(), 2nat, 0nat,
{
    let body = (SliceView { bytes, pointer: 1 }).read_framed().0;
    if bytes.len() == 0 || body is None {
        None
    } else if bytes[0] == 0 {
        match parse_message(body->0) {
            Some(message) => Some(TransactionPartView::Message(message)),
            None => None,
        }
    } else if bytes[0] == 1 && body->0.len() < bytes.len() {
        match parse_state(body->0) {
            Some(state) => Some(TransactionPartView::State(state)),
            None => None,
        }
    } else {
        None
    }
}

/// The state that `bytes` begin with in the canonical encoding, if they begin with one.
pub open spec fn parse_state(bytes: Seq<u8>) -> Option<ContractStateView>
    decreases bytes.len(), 1nat, 0nat,
{
    let (message, after_message) = (SliceView { bytes, pointer: 0 }).read_framed();
    let (data, after_data) = after_message.read_framed();
    if message is Some && data is Some && after_data.can_read(8) && after_data.bytes == bytes {
        let children = parse_children(after_data.advance(8), be_value(after_data.peek(8)));
        match (parse_message(message->0), children) {
            (Some(message), Some(children)) => Some(
                ContractStateView { message, data: data->0, children },
            ),
            _ => None,
        }
    } else {
        None
    }
}

/// The `count` framed parts that stand at the reader, if that many stand there.
#[verifier::opaque]
pub open spec fn parse_children(reader: SliceView, count: nat) -> Option<Seq<TransactionPartView>>
    decreases reader.bytes.len(), 0nat, count,
{
    if count == 0 {
        Some(Seq::empty())
    } else {
        let (child, next) = reader.read_framed();
        if child is Some && child->0.len() < reader.bytes.len() && next.bytes == reader.bytes {
            match (parse_part(child->0), parse_children(next, (count - 1) as nat)) {
                (Some(first), Some(rest)) => Some(seq![first] + rest),
                _ => None,
            }
        } else {
            None
        }
    }
}

/// Whether every byte string and every count in a part of a transaction is
/// short enough to be written behind a `u64`.
pub open spec fn part_fits(part: TransactionPartView) -> bool
    decreases part,
{
    match part {
        TransactionPartView::Message(message) => message_fits(message) && message_bytes(
            message,
        ).len() <= u64::MAX,
        TransactionPartView::State(state) => state_fits(state) && state_bytes(state).len()
            <= u64::MAX,
    }
}

/// The same for a state and all that hangs below it.
pub open spec fn state_fits(state: ContractStateView) -> bool
    decreases state,
{
    &&& message_fits(state.message)
    &&& message_bytes(state.message).len() <= u64::MAX
    &&& state.data.len() <= u64::MAX
    &&& state.children.len() <= u64::MAX
    &&& children_fit(state.children)
}

/// The same for each of the children of a state.
#[verifier::opaque]
pub open spec fn children_fit(children: Seq<TransactionPartView>) -> bool
    decreases children,
{
    forall|i: int|
        0 <= i < children.len() ==> part_fits(#[trigger] children[i]) && part_bytes(
            children[i],
        ).len() <= u64::MAX
}

/// What `children_fit` says of one child.
proof fn lemma_child_fits(children: Seq<TransactionPartView>, i: int)
    requires
        children_fit(children),
        0 <= i < children.len(),
    ensures
        part_fits(children[i]),
        part_bytes(children[i]).len() <= u64::MAX,
{
    reveal(children_fit);
}

/// The children from `from` on, each in its canonical encoding and framed.
pub open spec fn later_children_bytes(children: Seq<TransactionPartView>, from: nat) -> Seq<u8>
    decreases children.len() - from,
{
    if from >= children.len() {
        Seq::empty()
    } else {
        framed(part_bytes(children[from as int])) + later_children_bytes(children, from + 1)
    }
}

/// The encoding of all children is that of the first `count`, then that of the others.
proof fn lemma_children_bytes_split(children: Seq<TransactionPartView>, count: nat)
    requires
        count <= children.len(),
    ensures
        children_bytes(children, children.len()) == children_bytes(children, count)
            + later_children_bytes(children, count),
    decreases children.len() - count,
{
    if count < children.len() {
        lemma_children_bytes_split(children, count + 1);
        assert(children_bytes(children, count + 1) == children_bytes(children, count) + framed(
            part_bytes(children[count as int]),
        ));
        assert(children_bytes(children, count) + later_children_bytes(children, count)
            =~= children_bytes(children, count + 1) + later_children_bytes(children, count + 1));
    } else {
        assert(children_bytes(children, count) + later_children_bytes(children, count)
            =~= children_bytes(children, count));
    }
}

/// Decoding the canonical encoding of a part of a transaction gives the part back.
pub proof fn lemma_part_round_trip(part: TransactionPartView)
    requires
        part_fits(part),
    ensures
        parse_part(part_bytes(part)) == Some(part),
    decreases part, 1nat,
{
    let bytes = part_bytes(part);
    match part {
        TransactionPartView::Message(message) => {
            let body = message_bytes(message);
            lemma_holds_appended(seq![0u8], framed(body));
            lemma_reads_framed(bytes, 1, body);
            lemma_message_round_trip(message);
        },
        TransactionPartView::State(state) => {
            let body = state_bytes(state);
            lemma_holds_appended(seq![1u8], framed(body));
            lemma_reads_framed(bytes, 1, body);
            lemma_be_bytes_len(body.len(), 8);
            lemma_state_round_trip(state);
        },
    }
}

/// Decoding the canonical encoding of a state gives the state back.
pub proof fn lemma_state_round_trip(state: ContractStateView)
    requires
        state_fits(state),
    ensures
        parse_state(state_bytes(state)) == Some(state),
    decreases state, 0nat,
{
    assert(children_fit(state.children)) by {
        reveal(children_fit);
    }
    let count = state.children.len();
    let message = framed(message_bytes(state.message));
    let data = framed(state.data);
    let number = be_bytes(count, 8);
    let children = children_bytes(state.children, count);
    let b1 = message + data;
    let b2 = b1 + number;
    let bytes = b2 + children;
    assert(bytes == state_bytes(state));
    lemma_be_bytes_len(message_bytes(state.message).len(), 8);
    lemma_be_bytes_len(state.data.len(), 8);
    lemma_be_bytes_len(count, 8);
    lemma_holds_appended(Seq::empty(), message);
    assert(Seq::<u8>::empty() + message =~= message);
    lemma_holds_extended(message, 0, message, data);
    lemma_holds_extended(b1, 0, message, number);
    lemma_holds_extended(b2, 0, message, children);
    lemma_reads_framed(bytes, 0, message_bytes(state.message));
    lemma_holds_appended(message, data);
    lemma_holds_extended(b1, message.len(), data, number);
    lemma_holds_extended(b2, message.len(), data, children);
    lemma_reads_framed(bytes, message.len(), state.data);
    lemma_holds_appended(b1, number);
    lemma_holds_extended(b2, b1.len(), number, children);
    lemma_reads_u64(bytes, b1.len(), count as u64);
    lemma_holds_appended(b2, children);
    lemma_children_bytes_split(state.children, 0);
    assert(children_bytes(state.children, 0) + later_children_bytes(state.children, 0)
        =~= later_children_bytes(state.children, 0));
    lemma_children_round_trip(bytes, b2.len(), state.children, 0);
    lemma_skip_all(state.children);
    lemma_message_round_trip(state.message);
    let start = SliceView { bytes, pointer: 0 };
    let after_message = SliceView { bytes, pointer: message.len() };
    let after_data = SliceView { bytes, pointer: b1.len() };
    assert(start.read_framed() == (Some(message_bytes(state.message)), after_message));
    assert(after_message.read_framed() == (Some(state.data), after_data));
    assert(after_data.can_read(8) && be_value(after_data.peek(8)) == count);
    assert(after_data.advance(8) == (SliceView { bytes, pointer: b2.len() }));
    assert(parse_children(after_data.advance(8), count) == Some(state.children));
    assert(after_data.bytes == bytes);
    assert(parse_state(bytes) == Some(state)) by {
        reveal(parse_children);
    }
}

/// What is left of a sequence from `from` on begins with the element at `from`.
proof fn lemma_skip_first(children: Seq<TransactionPartView>, from: nat)
    requires
        from < children.len(),
    ensures
        seq![children[from as int]] + children.skip(from as int + 1) == children.skip(from as int),
{
    assert(seq![children[from as int]] + children.skip(from as int + 1) =~= children.skip(
        from as int,
    ));
}

/// Nothing is left of a sequence behind its end.
proof fn lemma_skip_all(children: Seq<TransactionPartView>)
    ensures
        children.skip(children.len() as int) == Seq::<TransactionPartView>::empty(),
        children.skip(0) == children,
{
    assert(children.skip(children.len() as int) =~= Seq::<TransactionPartView>::empty());
    assert(children.skip(0) =~= children);
}

/// One more child in front: where the reader reads the bytes of a child and
/// the others follow, it reads them all.
proof fn lemma_children_step(
    reader: SliceView,
    count: nat,
    body: Seq<u8>,
    next: SliceView,
    child: TransactionPartView,
    rest: Seq<TransactionPartView>,
)
    requires
        count > 0,
        reader.read_framed() == (Some(body), next),
        body.len() < reader.bytes.len(),
        next.bytes == reader.bytes,
        parse_part(body) == Some(child),
        parse_children(next, (count - 1) as nat) == Some(rest),
    ensures
        parse_children(reader, count) == Some(seq![child] + rest),
{
    reveal(parse_children);
}

/// The framed children that stand in the bytes from `at` on are read back.
proof fn lemma_children_round_trip(
    bytes: Seq<u8>,
    at: nat,
    children: Seq<TransactionPartView>,
    from: nat,
)
    requires
        from <= children.len(),
        holds(bytes, at, later_children_bytes(children, from)),
        children_fit(children),
    ensures
        parse_children(SliceView { bytes, pointer: at }, (children.len() - from) as nat) == Some(
            children.skip(from as int),
        ),
    decreases children, children.len() - from,
{
    if from < children.len() {
        let child = children[from as int];
        let body = part_bytes(child);
        let rest = later_children_bytes(children, from + 1);
        let reader = SliceView { bytes, pointer: at };
        let next = SliceView { bytes, pointer: at + 8 + body.len() };
        let left = (children.len() - from) as nat;
        lemma_child_fits(children, from as int);
        lemma_holds_split(bytes, at, framed(body), rest);
        lemma_be_bytes_len(body.len(), 8);
        assert(reader.read_framed() == (Some(body), next)) by {
            lemma_reads_framed(bytes, at, body);
        }
        assert(body.len() < bytes.len());
        assert(parse_part(body) == Some(child)) by {
            lemma_part_round_trip(child);
        }
        assert(parse_children(next, (left - 1) as nat) == Some(children.skip(from as int + 1))) by {
            lemma_children_round_trip(bytes, at + 8 + body.len(), children, from + 1);
        }
        lemma_children_step(reader, left, body, next, child, children.skip(from as int + 1));
        lemma_skip_first(children, from);
    } else {
        lemma_skip_all(children);
        reveal(parse_children);
    }
}

/// The view of a part that may be absent.
pub open spec fn optional_part_view(part: Option<TransactionPart>) -> Option<TransactionPartView> {
    match part {
        Some(part) => Some(part@),
        None => None,
    }
}

/// The view of a state that may be absent.
pub open spec fn optional_state_view(state: Option<ContractState>) -> Option<ContractStateView> {
    match state {
        Some(state) => Some(state@),
        None => None,
    }
}

impl TransactionPart {
    /// Reads a part of a transaction from the start of `block`; `None` where
    /// the block does not begin with the canonical encoding of one.
    pub fn from_block(block: Block) -> (r: Option<TransactionPart>)
        ensures
            optional_part_view(r) == parse_part(block@),
        decreases block@.len(), 1nat,
    {
        let total = block.len();
        let mut slice = Slice::new(block);
        let tag = slice.read_u8()?;
        let body = slice.read_block_with_len()?;
        if tag == 0 {
            match Message::from_block(body) {
                Some(message) => Some(TransactionPart::Message(message)),
                None => None,
            }
        } else if tag == 1 && body.len() < total {
            match ContractState::from_block(body) {
                Some(state) => {
                    proof {
                        lemma_state_view(state);
                    }
                    Some(TransactionPart::State(state))
                },
                None => None,
            }
        } else {
            None
        }
    }
}

impl ContractState {
    /// Reads a state from the start of `block`; `None` where the block does
    /// not begin with the canonical encoding of one.
    pub fn from_block(block: Block) -> (r: Option<ContractState>)
        ensures
            optional_state_view(r) == parse_state(block@),
        decreases block@.len(), 0nat,
    {
        proof {
            reveal(parse_children);
        }
        let total = block.len();
        let mut slice = Slice::new(block);
        let message_block = slice.read_block_with_len()?;
        let data = slice.read_block_with_len()?;
        let count = slice.read_u64()?;
        let message = Message::from_block(message_block);
        let ghost start = slice@;
        let ghost outcome = parse_children(start, count as nat);
        assert(parse_state(block@) == match (optional_message_view(message), outcome) {
            (Some(message), Some(children)) => Some(
                ContractStateView { message, data: data@, children },
            ),
            _ => None,
        });
        let mut children: Vec<TransactionPart> = Vec::new();
        let mut i: u64 = 0;
        while i < count
            invariant
                i <= count,
                total == block@.len(),
                slice@.bytes == block@,
                children@.len() == i,
                outcome is None ==> parse_state(block@) is None,
                outcome == match parse_children(
                    slice@,
                    (count - i) as nat,
                ) {
                    Some(rest) => Some(part_views(children@) + rest),
                    None => None,
                },
            decreases count - i,
        {
            proof {
                reveal(parse_children);
            }
            let ghost reader = slice@;
            let ghost done = part_views(children@);
            let child_block = slice.read_block_with_len()?;
            if child_block.len() >= total {
                return None;
            }
            let child = TransactionPart::from_block(child_block)?;
            children.push(child);
            i += 1;
            proof {
                assert(part_views(children@) =~= done.push(child@));
                let rest = parse_children(slice@, (count - i) as nat);
                assert(parse_children(reader, (count - i + 1) as nat) == match rest {
                    Some(rest) => Some(seq![child@] + rest),
                    None => None,
                });
                if rest is Some {
                    assert(done + (seq![child@] + rest->0) =~= part_views(children@) + rest->0);
                }
            }
        }
        proof {
            assert(part_views(children@) + Seq::empty() =~= part_views(children@));
        }
        let message = message?;
        Some(ContractState { message, data, children })
    }
}

impl Clone for TransactionPart {
    fn clone(&self) -> (part: Self)
        ensures
            part@ == self@,
        decreases self, 1nat,
    {
        match self {
            TransactionPart::Message(message) => TransactionPart::Message(message.clone()),
            TransactionPart::State(state) => {
                let copy = state.clone();
                proof {
                    lemma_state_view(*state);
                    lemma_state_view(copy);
                }
                TransactionPart::State(copy)
            },
        }
    }
}

impl Clone for ContractState {
    fn clone(&self) -> (state: Self)
        ensures
            state@ == self@,
        decreases self, 0nat,
    {
        let mut children: Vec<TransactionPart> = Vec::new();
        let mut i: usize = 0;
        while i < self.children.len()
            invariant
                i <= self.children@.len(),
                children@.len() == i,
                forall|k: int| 0 <= k < i ==> (#[trigger] children@[k])@ == self.children@[k]@,
            decreases self.children@.len() - i,
        {
            let child = &self.children[i];
            children.push(child.clone());
            i += 1;
        }
        assert(part_views(children@) =~= part_views(self.children@));
        ContractState { message: self.message.clone(), data: self.data.clone(), children }
    }
}

/// How deep `start_transaction` follows the messages that contracts send.
pub const DEPTH_LIMIT: u64 = 0xffff_ffff_ffff_ffff;

/// Where contracts, their states and the messages seen are kept.
pub trait Repository {
    /// All that was recorded, in the order in which it was recorded.
    spec fn records(&self) -> Seq<RecordView>;

    /// The latest program deployed at `address`.
    fn get_contract_program(&self, address: Block) -> (program: Option<Block>)
        ensures
            optional_block_view(program) == found_bytes(latest_program(self.records(), address@)),
    ;

    /// The latest data of the contract at `address`.
    fn get_contract_data(&self, address: Block) -> (data: Option<Block>)
        ensures
            optional_block_view(data) == found_bytes(latest_data(self.records(), address@)),
    ;

    /// Records what a transaction leaves behind.
    fn save_transaction(&mut self, transaction: TransactionPart)
        ensures
            final(self).records() == old(self).records() + transaction_records(transaction@),
    ;

    /// One page of the messages seen, from the newest to the oldest.
    fn get_all_messages(&self, limit: u64, offset: u64) -> (messages: Vec<Message>)
        ensures
            message_views(messages@) == page(
                newest_first(messages_of(self.records())),
                limit,
                offset,
            ),
    ;

    /// One page of the messages that `address` sent or received, from the
    /// newest to the oldest.
    fn get_messages_by_contract(&self, address: Block, limit: u64, offset: u64) -> (messages: Vec<
        Message,
    >)
        ensures
            message_views(messages@) == page(
                involving(newest_first(messages_of(self.records())), address@),
                limit,
                offset,
            ),
    ;
}

/// The program and the data that a message is run with: those that the
/// message brings, if they hash to the address of its receiver, or else the
/// latest that the records hold for that address.
pub open spec fn resolve(records: Seq<RecordView>, message: MessageView) -> Option<InitView> {
    match message.init {
        Some(init) => if sha256(init_bytes(init)) == message.receiver {
            Some(init)
        } else {
            None
        },
        None => match (
            found_bytes(latest_program(records, message.receiver)),
            found_bytes(latest_data(records, message.receiver)),
        ) {
            (Some(program), Some(data)) => Some(InitView { program, data }),
            _ => None,
        },
    }
}

/// The machine that serves a message, before it runs: `None` where no
/// program and data are found, where the program does not parse, and where it
/// has no entry point for the kind of the message.
pub open spec fn boot(records: Seq<RecordView>, message: MessageView) -> Option<Machine> {
    match resolve(records, message) {
        Some(init) => match parse_program(init.program) {
            Some(program) => match program.entrypoint(message.message_type) {
                Some(pc) => Some(
                    Machine {
                        pc,
                        code: program.code,
                        values: Seq::empty(),
                        calls: Seq::empty(),
                        data: init.data,
                        message,
                        stopped: true,
                    },
                ),
                None => None,
            },
            None => None,
        },
        None => None,
    }
}

/// The operand stack that a message is answered with when it is only viewed:
/// that of the machine at rest, or nothing where no machine serves the message.
pub open spec fn view_stack(records: Seq<RecordView>, message: MessageView) -> Seq<ValueView> {
    match boot(records, message) {
        Some(machine) => run(started(machine), STEP_LIMIT as nat).values,
        None => Seq::empty(),
    }
}

/// Whether `part` is what executing its message against `records` gives, when
/// messages are followed `depth` deep. A message that no machine serves, or
/// that lies deeper, stays a message. One that a machine serves becomes a
/// state with the data of the machine at rest and, for each message that the
/// machine sent, in order, the execution of that message with some time on it.
pub open spec fn executed(records: Seq<RecordView>, depth: nat, part: TransactionPartView) -> bool
    decreases depth,
{
    let served = if depth == 0 {
        None
    } else {
        boot(records, part.message())
    };
    match served {
        None => part is Message,
        Some(machine) => {
            let plan = sends(started(machine), STEP_LIMIT as nat);
            &&& part matches TransactionPartView::State(state)
            &&& state.data == run(started(machine), STEP_LIMIT as nat).data
            &&& state.children.len() == plan.len()
            &&& forall|i: int|
                0 <= i < plan.len() ==> {
                    &&& (#[trigger] state.children[i]).message() == plan[i].at(
                        state.children[i].message().timestamp,
                    )
                    &&& executed(records, (depth - 1) as nat, state.children[i])
                }
        },
    }
}

/// A message that deploys a contract is executed only if the hash of what it
/// deploys is the address of its receiver.
pub proof fn lemma_deployment_hash(
    records: Seq<RecordView>,
    depth: nat,
    part: TransactionPartView,
    init: InitView,
)
    requires
        executed(records, depth, part),
        part is State,
        part.message().init == Some(init),
    ensures
        sha256(init_bytes(init)) == part.message().receiver,
{
}

/// The executor of one message: the message, the messages that its contract
/// has sent so far, and the repository that is read from.
pub struct Environment<'r, R: Repository> {
    message: Message,
    order: Vec<Message>,
    repository: &'r R,
}

impl<'r, R: Repository> SendMessage for Environment<'r, R> {
    closed spec fn sent(&self) -> Seq<MessageView> {
        message_views(self.order@)
    }

    fn send_message(&mut self, message: Message) {
        self.order.push(message);
        assert(message_views(self.order@) =~= message_views(old(self).order@).push(message@));
    }
}

impl<'r, R: Repository> Environment<'r, R> {
    fn new(message: Message, repository: &'r R) -> (env: Self)
        ensures
            env.message@ == message@,
            env.order@ == Seq::<Message>::empty(),
            env.repository == repository,
    {
        Self { message, order: Vec::new(), repository }
    }

    /// The machine that serves the message, with this executor as its sink.
    fn get_vm(&mut self) -> (r: Option<VM<'_, Self>>)
        ensures
            match r {
                Some(vm) => boot(old(self).repository.records(), old(self).message@) == Some(vm@)
                    && vm.sent() == old(self).sent() && *final(self) == *final(vm.send_message),
                None => boot(old(self).repository.records(), old(self).message@) is None
                    && *final(self) == *old(self),
            },
    {
        let init = match &self.message.init {
            Some(init) => {
                if !init.get_as_block().hash().same(&self.message.receiver) {
                    return None;
                }
                init.clone()
            },
            None => {
                let address = self.message.receiver.clone();
                let program = self.repository.get_contract_program(address.clone())?;
                let data = self.repository.get_contract_data(address)?;
                Init { program, data }
            },
        };
        let program = Program::from_bytes(init.program.as_slice())?;
        let entrypoint = program.get_entrypoint(self.message.message_type)?;
        let message = self.message.clone();
        Some(VM::new(program.get_code(), entrypoint, init.data, message, self))
    }

    /// Runs the machine that serves the message and gives the data it ends with.
    fn run(&mut self) -> (r: Option<Block>)
        ensures
            match r {
                Some(data) => boot(old(self).repository.records(), old(self).message@) matches Some(
                    machine,
                ) && data@ == run(started(machine), STEP_LIMIT as nat).data && extended(
                    old(self).sent(),
                    final(self).sent(),
                    sends(started(machine), STEP_LIMIT as nat),
                ),
                None => boot(old(self).repository.records(), old(self).message@) is None && final(self).sent() == old(self).sent(),
            },
    {
        let mut vm = self.get_vm()?;
        vm.run();
        Some(vm.get_data())
    }

    /// Runs the machine that serves the message and gives the operand stack it
    /// ends with, from the bottom to the top.
    fn run_view(&mut self) -> (r: Option<Vec<Value>>)
        ensures
            match r {
                Some(values) => boot(
                    old(self).repository.records(),
                    old(self).message@,
                ) matches Some(machine) && views(values@) == run(
                    started(machine),
                    STEP_LIMIT as nat,
                ).values,
                None => boot(old(self).repository.records(), old(self).message@) is None,
            },
    {
        let mut vm = self.get_vm()?;
        vm.run();
        Some(vm.stack())
    }

    /// Executes `message` against what `repository` holds, and in turn the
    /// messages that its contract sends, `depth` deep. Nothing is recorded:
    /// every message of the transaction sees the repository as it is now.
    pub fn execute(message: Message, repository: &'r R, depth: u64) -> (part: TransactionPart)
        ensures
            part@.message() == message@,
            executed(repository.records(), depth as nat, part@),
        decreases depth,
    {
        if depth == 0 {
            return TransactionPart::Message(message);
        }
        let mut env = Self::new(message.clone(), repository);
        assert(env.sent() =~= Seq::empty());
        match env.run() {
            Some(data) => {
                let ghost machine = boot(repository.records(), message@)->0;
                let ghost plan = sends(started(machine), STEP_LIMIT as nat);
                assert(env.sent().skip(0) =~= env.sent());
                assert forall|k: int| 0 <= k < plan.len() implies (#[trigger] env.order@[k])@
                    == plan[k].at(env.order@[k]@.timestamp) by {
                    assert(env.sent()[k] == env.order@[k]@);
                }
                let mut children: Vec<TransactionPart> = Vec::new();
                let mut i: usize = 0;
                while i < env.order.len()
                    invariant
                        depth > 0,
                        i <= env.order@.len(),
                        children@.len() == i,
                        env.order@.len() == plan.len(),
                        forall|k: int|
                            0 <= k < plan.len() ==> (#[trigger] env.order@[k])@ == plan[k].at(
                                env.order@[k]@.timestamp,
                            ),
                        forall|k: int|
                            0 <= k < i ==> {
                                &&& (#[trigger] children@[k])@.message() == env.order@[k]@
                                &&& executed(
                                    repository.records(),
                                    (depth - 1) as nat,
                                    children@[k]@,
                                )
                            },
                    decreases env.order@.len() - i,
                {
                    let child = Self::execute(env.order[i].clone(), repository, depth - 1);
                    children.push(child);
                    i += 1;
                }
                let state = ContractState { message, data, children };
                proof {
                    lemma_state_view(state);
                }
                TransactionPart::State(state)
            },
            None => TransactionPart::Message(message),
        }
    }

    /// Answers a message that only looks: runs its contract and gives the
    /// operand stack that the machine ends with, from the bottom to the top.
    /// Nothing is sent on and nothing is recorded; where no machine serves
    /// the message, the answer is empty.
    pub fn view(message: Message, repository: &'r R) -> (values: Vec<Value>)
        ensures
            views(values@) == view_stack(repository.records(), message@),
    {
        let mut env = Self::new(message, repository);
        match env.run_view() {
            Some(values) => values,
            None => {
                let values: Vec<Value> = Vec::new();
                assert(views(values@) =~= Seq::empty());
                values
            },
        }
    }

    /// Executes `message` and the messages that follow from it, then hands
    /// the whole transaction to the repository to be recorded. Every message
    /// of the transaction sees the repository as it was before.
    pub fn start_transaction(message: Message, repository: &mut R) -> (transaction: TransactionPart)
        ensures
            transaction@.message() == message@,
            executed(old(repository).records(), DEPTH_LIMIT as nat, transaction@),
            final(repository).records() == old(repository).records() + transaction_records(
                transaction@,
            ),
    {
        let transaction = Environment::execute(message, &*repository, DEPTH_LIMIT);
        repository.save_transaction(transaction.clone());
        transaction
    }
}

} // verus!
