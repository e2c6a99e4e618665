//! What a repository holds: the records that transactions leave behind, and
//! what can be asked of them.
use crate::vm::block::{
    hex_bytes, hex_string, lemma_hex_round_trip, optional_block_view, sha256, AsBlock, Block,
};
use crate::vm::env::{
    lemma_state_view, ContractState, ContractStateView, Repository, TransactionPart,
    TransactionPartView,
};
use crate::vm::message::{
    message_bytes, optional_message_view, Init, InitView, Message, MessageType, MessageView,
};
use crate::vm::message_views;
use vstd::prelude::*;

verus! {

/// What a `Record` is.
pub enum RecordView {
    /// A contract was deployed at `address` with `program`.
    Contract { address: Seq<u8>, program: Seq<u8>, timestamp: u64 },
    /// The contract at `address` was left with `data`.
    State { address: Seq<u8>, data: Seq<u8>, timestamp: u64 },
    /// A message was seen.
    Message(MessageView),
}

/// One row of a repository.
#[derive(Debug)]
pub enum Record {
    Contract { address: Block, program: Block, timestamp: u64 },
    State { address: Block, data: Block, timestamp: u64 },
    Message(Message),
}

impl View for Record {
    type V = RecordView;

    open spec fn view(&self) -> RecordView {
        match self {
            Record::Contract { address, program, timestamp } => RecordView::Contract {
                address: address@,
                program: program@,
                timestamp: *timestamp,
            },
            Record::State { address, data, timestamp } => RecordView::State {
                address: address@,
                data: data@,
                timestamp: *timestamp,
            },
            Record::Message(message) => RecordView::Message(message@),
        }
    }
}

impl Clone for Record {
    fn clone(&self) -> (record: Self)
        ensures
            record@ == self@,
    {
        match self {
            Record::Contract { address, program, timestamp } => Record::Contract {
                address: address.clone(),
                program: program.clone(),
                timestamp: *timestamp,
            },
            Record::State { address, data, timestamp } => Record::State {
                address: address.clone(),
                data: data.clone(),
                timestamp: *timestamp,
            },
            Record::Message(message) => Record::Message(message.clone()),
        }
    }
}

/// The views of a sequence of records.
pub open spec fn record_views(records: Seq<Record>) -> Seq<RecordView> {
    records.map_values(|record: Record| record@)
}

/// The program of a record, with its time, where the record says that a
/// contract was deployed at `address`.
pub open spec fn program_in(record: RecordView, address: Seq<u8>) -> Option<(u64, Seq<u8>)> {
    match record {
        RecordView::Contract { address: at, program, timestamp } => if at == address {
            Some((timestamp, program))
        } else {
            None
        },
        _ => None,
    }
}

/// The data of a record, with its time, where the record says what the
/// contract at `address` was left with.
pub open spec fn data_in(record: RecordView, address: Seq<u8>) -> Option<(u64, Seq<u8>)> {
    match record {
        RecordView::State { address: at, data, timestamp } => if at == address {
            Some((timestamp, data))
        } else {
            None
        },
        _ => None,
    }
}

/// Of two finds, the one with the later time; the later find where the times are equal.
pub open spec fn later(earlier: Option<(u64, Seq<u8>)>, found: Option<(u64, Seq<u8>)>) -> Option<
    (u64, Seq<u8>),
> {
    match (earlier, found) {
        (Some(old), Some(new)) => if old.0 <= new.0 {
            found
        } else {
            earlier
        },
        (None, _) => found,
        (_, None) => earlier,
    }
}

/// The program with the latest time among the contracts deployed at `address`,
/// with that time; of several with that time, the one recorded last.
pub open spec fn latest_program(records: Seq<RecordView>, address: Seq<u8>) -> Option<
    (u64, Seq<u8>),
>
    decreases records.len(),
{
    if records.len() == 0 {
        None
    } else {
        later(latest_program(records.drop_last(), address), program_in(records.last(), address))
    }
}

/// The data with the latest time among the states of the contract at
/// `address`, with that time; of several with that time, the one recorded last.
pub open spec fn latest_data(records: Seq<RecordView>, address: Seq<u8>) -> Option<(u64, Seq<u8>)>
    decreases records.len(),
{
    if records.len() == 0 {
        None
    } else {
        later(latest_data(records.drop_last(), address), data_in(records.last(), address))
    }
}

/// The bytes of a find.
pub open spec fn found_bytes(found: Option<(u64, Seq<u8>)>) -> Option<Seq<u8>> {
    match found {
        Some((_, bytes)) => Some(bytes),
        None => None,
    }
}

/// What executing a message leaves behind: the message; the state of the
/// contract; the contract, where the message deployed one.
pub open spec fn node_records(state: ContractStateView) -> Seq<RecordView> {
    let deployed = match state.message.init {
        Some(init) => seq![
            RecordView::Contract {
                address: state.message.receiver,
                program: init.program,
                timestamp: state.message.timestamp,
            },
        ],
        None => Seq::empty(),
    };
    seq![
        RecordView::Message(state.message),
        RecordView::State {
            address: state.message.receiver,
            data: state.data,
            timestamp: state.message.timestamp,
        },
    ] + deployed
}

/// What a transaction leaves behind: the records of each part before those of
/// its children, and the children in their order.
pub open spec fn transaction_records(part: TransactionPartView) -> Seq<RecordView>
    decreases part,
{
    match part {
        TransactionPartView::Message(message) => seq![RecordView::Message(message)],
        TransactionPartView::State(state) => node_records(state) + children_records(
            state.children,
            state.children.len(),
        ),
    }
}

/// What the first `count` of `children` leave behind.
pub open spec fn children_records(children: Seq<TransactionPartView>, count: nat) -> Seq<
    RecordView,
>
    decreases children, count,
{
    if count == 0 || count > children.len() {
        Seq::empty()
    } else {
        children_records(children, (count - 1) as nat) + transaction_records(children[count - 1])
    }
}

/// The records of `records` that say what a contract was left with, in their order.
pub open spec fn state_rows(records: Seq<RecordView>) -> Seq<RecordView>
    decreases records.len(),
{
    if records.len() == 0 {
        Seq::empty()
    } else if records.last() is State {
        state_rows(records.drop_last()).push(records.last())
    } else {
        state_rows(records.drop_last())
    }
}

/// What executing a message says of the contract: its address, the data it
/// was left with, and the time of the message.
pub open spec fn snapshot(state: ContractStateView) -> RecordView {
    RecordView::State {
        address: state.message.receiver,
        data: state.data,
        timestamp: state.message.timestamp,
    }
}

/// The snapshots of the executed parts of a transaction, each part before its
/// children and the children in their order.
pub open spec fn snapshots(part: TransactionPartView) -> Seq<RecordView>
    decreases part,
{
    match part {
        TransactionPartView::Message(_) => Seq::empty(),
        TransactionPartView::State(state) => seq![snapshot(state)] + child_snapshots(
            state.children,
            state.children.len(),
        ),
    }
}

/// The snapshots of the executed parts among the first `count` of `children`
/// and below them.
pub open spec fn child_snapshots(children: Seq<TransactionPartView>, count: nat) -> Seq<
    RecordView,
>
    decreases children, count,
{
    if count == 0 || count > children.len() {
        Seq::empty()
    } else {
        child_snapshots(children, (count - 1) as nat) + snapshots(children[count - 1])
    }
}

/// The states among records put one behind the other are those of the one,
/// then those of the other.
pub proof fn lemma_state_rows_add(head: Seq<RecordView>, tail: Seq<RecordView>)
    ensures
        state_rows(head + tail) == state_rows(head) + state_rows(tail),
    decreases tail.len(),
{
    if tail.len() == 0 {
        assert(head + tail =~= head);
        assert(state_rows(head) + state_rows(tail) =~= state_rows(head));
    } else {
        lemma_state_rows_add(head, tail.drop_last());
        assert((head + tail).drop_last() =~= head + tail.drop_last());
        assert((head + tail).last() == tail.last());
        if tail.last() is State {
            assert(state_rows(head + tail) =~= state_rows(head) + state_rows(tail));
        }
    }
}

/// The states that recording a transaction writes are the snapshots of its
/// executed parts, in the order in which a walk of the tree meets them that
/// visits each part before its children.
pub proof fn lemma_saved_states(part: TransactionPartView)
    ensures
        state_rows(transaction_records(part)) == snapshots(part),
    decreases part, 1nat,
{
    reveal_with_fuel(state_rows, 3);
    match part {
        TransactionPartView::Message(message) => {
            let row = seq![RecordView::Message(message)];
            assert(row.drop_last() =~= Seq::<RecordView>::empty());
            assert(state_rows(row) =~= Seq::<RecordView>::empty());
        },
        TransactionPartView::State(state) => {
            let node = node_records(state);
            let below = children_records(state.children, state.children.len());
            lemma_state_rows_add(node, below);
            lemma_saved_child_states(state.children, state.children.len());
            let deployed = match state.message.init {
                Some(init) => seq![
                    RecordView::Contract {
                        address: state.message.receiver,
                        program: init.program,
                        timestamp: state.message.timestamp,
                    },
                ],
                None => Seq::<RecordView>::empty(),
            };
            let own = seq![RecordView::Message(state.message), snapshot(state)];
            lemma_state_rows_add(own, deployed);
            assert(state_rows(deployed) =~= Seq::<RecordView>::empty()) by {
                if deployed.len() > 0 {
                    assert(deployed.drop_last() =~= Seq::<RecordView>::empty());
                }
            }
            assert(state_rows(own) =~= seq![snapshot(state)]) by {
                assert(own.drop_last() =~= seq![RecordView::Message(state.message)]);
                assert(own.drop_last().drop_last() =~= Seq::<RecordView>::empty());
            }
            assert(state_rows(node) =~= seq![snapshot(state)]);
        },
    }
}

/// The same for the first `count` children of a part.
proof fn lemma_saved_child_states(children: Seq<TransactionPartView>, count: nat)
    ensures
        state_rows(children_records(children, count)) == child_snapshots(children, count),
    decreases children, count,
{
    if count == 0 || count > children.len() {
    } else {
        lemma_saved_child_states(children, (count - 1) as nat);
        lemma_saved_states(children[count - 1]);
        lemma_state_rows_add(
            children_records(children, (count - 1) as nat),
            transaction_records(children[count - 1]),
        );
    }
}

/// The messages among `records`, in their order.
pub open spec fn messages_of(records: Seq<RecordView>) -> Seq<MessageView>
    decreases records.len(),
{
    if records.len() == 0 {
        Seq::empty()
    } else {
        match records.last() {
            RecordView::Message(message) => messages_of(records.drop_last()).push(message),
            _ => messages_of(records.drop_last()),
        }
    }
}

/// `sorted` with `message` put in front of the first message that is not newer than it.
pub open spec fn insert_newest(sorted: Seq<MessageView>, message: MessageView) -> Seq<MessageView>
    decreases sorted.len(),
{
    if sorted.len() == 0 || sorted[0].timestamp <= message.timestamp {
        seq![message] + sorted
    } else {
        seq![sorted[0]] + insert_newest(sorted.skip(1), message)
    }
}

/// The messages ordered from the newest to the oldest; of two with the same
/// time, the one that stands later in `messages` comes first.
pub open spec fn newest_first(messages: Seq<MessageView>) -> Seq<MessageView>
    decreases messages.len(),
{
    if messages.len() == 0 {
        Seq::empty()
    } else {
        insert_newest(newest_first(messages.drop_last()), messages.last())
    }
}

/// Whether a message was sent by `address` or to it.
pub open spec fn involves(message: MessageView, address: Seq<u8>) -> bool {
    message.sender == address || message.receiver == address
}

/// The messages sent by `address` or to it, in their order.
pub open spec fn involving(messages: Seq<MessageView>, address: Seq<u8>) -> Seq<MessageView>
    decreases messages.len(),
{
    if messages.len() == 0 {
        Seq::empty()
    } else if involves(messages.last(), address) {
        involving(messages.drop_last(), address).push(messages.last())
    } else {
        involving(messages.drop_last(), address)
    }
}

/// One page of a listing: at most `limit` messages, behind the first `offset`.
pub open spec fn page(messages: Seq<MessageView>, limit: u64, offset: u64) -> Seq<MessageView> {
    let from = if offset <= messages.len() {
        offset as int
    } else {
        messages.len() as int
    };
    let to = if from + limit <= messages.len() {
        from + limit
    } else {
        messages.len() as int
    };
    messages.subrange(from, to)
}

/// Whether the messages stand from the newest to the oldest.
pub open spec fn descending(messages: Seq<MessageView>) -> bool {
    forall|i: int, j: int|
        0 <= i <= j < messages.len() ==> messages[i].timestamp >= messages[j].timestamp
}

/// Where `insert_newest` puts `message`: behind the messages at the front of
/// `sorted` that are newer than it.
pub open spec fn newest_place(sorted: Seq<MessageView>, message: MessageView) -> nat
    decreases sorted.len(),
{
    if sorted.len() == 0 || sorted[0].timestamp <= message.timestamp {
        0
    } else {
        1 + newest_place(sorted.skip(1), message)
    }
}

/// `insert_newest` inserts at `newest_place`, and `place` is that place where
/// all before it are newer than the message and the one at it is not.
pub proof fn lemma_newest_place(sorted: Seq<MessageView>, message: MessageView, place: nat)
    requires
        place <= sorted.len(),
        forall|j: int| 0 <= j < place ==> sorted[j].timestamp > message.timestamp,
        place < sorted.len() ==> sorted[place as int].timestamp <= message.timestamp,
    ensures
        newest_place(sorted, message) == place,
        insert_newest(sorted, message) == sorted.insert(place as int, message),
    decreases sorted.len(),
{
    if sorted.len() == 0 || sorted[0].timestamp <= message.timestamp {
        assert(place == 0);
        assert(seq![message] + sorted =~= sorted.insert(0, message));
    } else {
        let rest = sorted.skip(1);
        assert forall|j: int| 0 <= j < place - 1 implies rest[j].timestamp
            > message.timestamp by {
            assert(rest[j] == sorted[j + 1]);
        }
        if place < sorted.len() {
            assert(rest[place - 1] == sorted[place as int]);
        }
        lemma_newest_place(rest, message, (place - 1) as nat);
        assert(seq![sorted[0]] + rest.insert(place - 1, message) =~= sorted.insert(
            place as int,
            message,
        ));
    }
}

/// The place that `newest_place` gives is as `lemma_newest_place` asks.
pub proof fn lemma_newest_place_bounds(sorted: Seq<MessageView>, message: MessageView)
    ensures
        newest_place(sorted, message) <= sorted.len(),
        forall|j: int|
            0 <= j < newest_place(sorted, message) ==> sorted[j].timestamp > message.timestamp,
        newest_place(sorted, message) < sorted.len() ==> sorted[newest_place(
            sorted,
            message,
        ) as int].timestamp <= message.timestamp,
    decreases sorted.len(),
{
    if sorted.len() == 0 || sorted[0].timestamp <= message.timestamp {
    } else {
        let rest = sorted.skip(1);
        lemma_newest_place_bounds(rest, message);
        let place = newest_place(rest, message);
        assert forall|j: int| 0 <= j < place + 1 implies sorted[j].timestamp
            > message.timestamp by {
            if j > 0 {
                assert(rest[j - 1] == sorted[j]);
            }
        }
        if place < rest.len() {
            assert(rest[place as int] == sorted[place as int + 1]);
        }
    }
}

/// Putting a message into its place keeps the order, and adds this message and no other.
pub proof fn lemma_insert_newest(sorted: Seq<MessageView>, message: MessageView)
    requires
        descending(sorted),
    ensures
        descending(insert_newest(sorted, message)),
        insert_newest(sorted, message).to_multiset() == sorted.to_multiset().insert(message),
{
    let place = newest_place(sorted, message);
    lemma_newest_place_bounds(sorted, message);
    lemma_newest_place(sorted, message, place);
    let out = sorted.insert(place as int, message);
    vstd::seq_lib::to_multiset_insert(sorted, place as int, message);
    assert forall|i: int, j: int| 0 <= i <= j < out.len() implies out[i].timestamp
        >= out[j].timestamp by {
        let a = if i < place {
            i
        } else {
            i - 1
        };
        let b = if j < place {
            j
        } else {
            j - 1
        };
        if i != place && j != place {
            assert(out[i] == sorted[a] && out[j] == sorted[b]);
        } else if i == place && j != place {
            assert(out[j] == sorted[b]);
            assert(sorted[place as int].timestamp >= sorted[b].timestamp);
        } else if j == place && i != place {
            assert(out[i] == sorted[a]);
        }
    }
}

/// The listing from the newest to the oldest stands in that order and holds
/// exactly the messages that were listed.
pub proof fn lemma_newest_first(messages: Seq<MessageView>)
    ensures
        descending(newest_first(messages)),
        newest_first(messages).to_multiset() == messages.to_multiset(),
    decreases messages.len(),
{
    broadcast use vstd::seq_lib::group_to_multiset_ensures;

    if messages.len() > 0 {
        lemma_newest_first(messages.drop_last());
        lemma_insert_newest(newest_first(messages.drop_last()), messages.last());
        assert(messages =~= messages.drop_last().push(messages.last()));
    } else {
        assert(messages =~= Seq::<MessageView>::empty());
    }
}

/// Appends to `rows` what executing a message left behind.
fn push_node(state: &ContractState, rows: &mut Vec<Record>)
    ensures
        record_views(final(rows)@) == record_views(old(rows)@) + node_records(state@),
{
    rows.push(Record::Message(state.message.clone()));
    rows.push(
        Record::State {
            address: state.message.receiver.clone(),
            data: state.data.clone(),
            timestamp: state.message.timestamp,
        },
    );
    if let Some(init) = &state.message.init {
        rows.push(
            Record::Contract {
                address: state.message.receiver.clone(),
                program: init.program.clone(),
                timestamp: state.message.timestamp,
            },
        );
    }
    assert(record_views(rows@) =~= record_views(old(rows)@) + node_records(state@));
}

/// Appends to `rows` what a transaction leaves behind: for each part that was
/// executed, its message, its state and the contract it deployed, then the
/// same for its children in their order; for a part that was not, its message.
pub fn flatten(transaction: &TransactionPart, rows: &mut Vec<Record>)
    ensures
        record_views(final(rows)@) == record_views(old(rows)@) + transaction_records(
            transaction@,
        ),
    decreases transaction, 1nat,
{
    match transaction {
        TransactionPart::Message(message) => {
            rows.push(Record::Message(message.clone()));
            assert(record_views(rows@) =~= record_views(old(rows)@) + transaction_records(
                transaction@,
            ));
        },
        TransactionPart::State(state) => {
            proof {
                lemma_state_view(*state);
            }
            flatten_state(state, rows);
        },
    }
}

/// Appends to `rows` what an executed part and its children leave behind.
fn flatten_state(state: &ContractState, rows: &mut Vec<Record>)
    ensures
        record_views(final(rows)@) == record_views(old(rows)@) + node_records(state@)
            + children_records(state@.children, state@.children.len()),
    decreases state, 0nat,
{
    push_node(state, rows);
    let ghost head = record_views(rows@);
    let mut i: usize = 0;
    while i < state.children.len()
        invariant
            i <= state.children@.len(),
            record_views(rows@) == head + children_records(state@.children, i as nat),
        decreases state.children@.len() - i,
    {
        let child = &state.children[i];
        flatten(child, rows);
        assert(state@.children[i as int] == child@);
        assert(record_views(rows@) =~= head + children_records(state@.children, (i + 1) as nat));
        i += 1;
    }
}

/// Copies of the messages among `rows`, in their order.
pub fn messages_in(rows: &Vec<Record>) -> (messages: Vec<Message>)
    ensures
        message_views(messages@) == messages_of(record_views(rows@)),
{
    let mut messages: Vec<Message> = Vec::new();
    let mut i: usize = 0;
    assert(message_views(messages@) =~= Seq::empty());
    while i < rows.len()
        invariant
            i <= rows@.len(),
            message_views(messages@) == messages_of(record_views(rows@).take(i as int)),
        decreases rows@.len() - i,
    {
        proof {
            assert(record_views(rows@).take(i + 1).drop_last() =~= record_views(rows@).take(
                i as int,
            ));
        }
        let ghost before = message_views(messages@);
        if let Record::Message(message) = &rows[i] {
            messages.push(message.clone());
            assert(message_views(messages@) =~= before.push(message@));
        }
        i += 1;
    }
    assert(record_views(rows@).take(i as int) =~= record_views(rows@));
    messages
}

/// The messages ordered from the newest to the oldest; of two with the same
/// time, the one that stands later in `messages` comes first.
pub fn order_newest_first(messages: &Vec<Message>) -> (sorted: Vec<Message>)
    ensures
        message_views(sorted@) == newest_first(message_views(messages@)),
{
    let mut sorted: Vec<Message> = Vec::new();
    let mut i: usize = 0;
    assert(message_views(sorted@) =~= Seq::empty());
    while i < messages.len()
        invariant
            i <= messages@.len(),
            message_views(sorted@) == newest_first(message_views(messages@).take(i as int)),
        decreases messages@.len() - i,
    {
        let message = messages[i].clone();
        let mut place: usize = 0;
        while place < sorted.len() && sorted[place].timestamp > message.timestamp
            invariant
                place <= sorted@.len(),
                forall|j: int| 0 <= j < place ==> sorted@[j].timestamp > message.timestamp,
            decreases sorted@.len() - place,
        {
            place += 1;
        }
        proof {
            let views = message_views(sorted@);
            assert forall|j: int| 0 <= j < place implies views[j].timestamp
                > message@.timestamp by {
                assert(views[j] == sorted@[j]@);
            }
            lemma_newest_place(views, message@, place as nat);
            assert(message_views(messages@).take(i + 1).drop_last() =~= message_views(
                messages@,
            ).take(i as int));
        }
        let ghost before = message_views(sorted@);
        sorted.insert(place, message);
        assert(message_views(sorted@) =~= before.insert(place as int, message@));
        i += 1;
    }
    assert(message_views(messages@).take(i as int) =~= message_views(messages@));
    sorted
}

/// Copies of the messages sent by `address` or to it, in their order.
pub fn only_involving(messages: &Vec<Message>, address: &Block) -> (kept: Vec<Message>)
    ensures
        message_views(kept@) == involving(message_views(messages@), address@),
{
    let mut kept: Vec<Message> = Vec::new();
    let mut i: usize = 0;
    assert(message_views(kept@) =~= Seq::empty());
    while i < messages.len()
        invariant
            i <= messages@.len(),
            message_views(kept@) == involving(message_views(messages@).take(i as int), address@),
        decreases messages@.len() - i,
    {
        proof {
            assert(message_views(messages@).take(i + 1).drop_last() =~= message_views(
                messages@,
            ).take(i as int));
        }
        let ghost before = message_views(kept@);
        let message = &messages[i];
        if message.sender.same(address) || message.receiver.same(address) {
            kept.push(message.clone());
            assert(message_views(kept@) =~= before.push(message@));
        }
        i += 1;
    }
    assert(message_views(messages@).take(i as int) =~= message_views(messages@));
    kept
}

/// Copies of at most `limit` of the messages, behind the first `offset`.
pub fn page_of(messages: &Vec<Message>, limit: u64, offset: u64) -> (taken: Vec<Message>)
    ensures
        message_views(taken@) == page(message_views(messages@), limit, offset),
{
    let len = messages.len();
    let from = if offset <= len as u64 {
        offset as usize
    } else {
        len
    };
    let to = if limit <= (len - from) as u64 {
        from + limit as usize
    } else {
        len
    };
    let mut taken: Vec<Message> = Vec::new();
    let mut i: usize = from;
    assert(message_views(taken@) =~= message_views(messages@).subrange(from as int, i as int));
    while i < to
        invariant
            from <= i <= to <= messages@.len(),
            message_views(taken@) == message_views(messages@).subrange(from as int, i as int),
        decreases to - i,
    {
        let ghost before = message_views(taken@);
        taken.push(messages[i].clone());
        assert(message_views(taken@) =~= before.push(messages@[i as int]@));
        assert(message_views(taken@) =~= message_views(messages@).subrange(
            from as int,
            i as int + 1,
        ));
        i += 1;
    }
    taken
}

/// A repository that keeps its records in memory.
#[derive(Debug)]
pub struct MemoryRepository {
    rows: Vec<Record>,
}

impl View for MemoryRepository {
    type V = Seq<RecordView>;

    closed spec fn view(&self) -> Seq<RecordView> {
        record_views(self.rows@)
    }
}

impl MemoryRepository {
    /// A repository that holds nothing.
    pub fn new() -> (repository: Self)
        ensures
            repository@ == Seq::<RecordView>::empty(),
    {
        let repository = Self { rows: Vec::new() };
        assert(repository@ =~= Seq::<RecordView>::empty());
        repository
    }

    /// Adds one record behind those that are there.
    pub fn insert(&mut self, record: Record)
        ensures
            final(self)@ == old(self)@.push(record@),
    {
        self.rows.push(record);
        assert(self@ =~= old(self)@.push(record@));
    }

    /// The number of records.
    pub fn len(&self) -> (n: usize)
        ensures
            n == self@.len(),
    {
        self.rows.len()
    }

    /// A copy of the record at `index`.
    pub fn get(&self, index: usize) -> (record: Option<Record>)
        ensures
            match record {
                Some(record) => index < self@.len() && record@ == self@[index as int],
                None => index >= self@.len(),
            },
    {
        if index < self.rows.len() {
            Some(self.rows[index].clone())
        } else {
            None
        }
    }

    /// The latest program or data for `address`: the program where
    /// `programs` is set, the data where it is not.
    fn latest(&self, address: &Block, programs: bool) -> (found: Option<Block>)
        ensures
            optional_block_view(found) == found_bytes(
                if programs {
                    latest_program(self@, address@)
                } else {
                    latest_data(self@, address@)
                },
            ),
    {
        let mut best: Option<(u64, Block)> = None;
        let mut i: usize = 0;
        while i < self.rows.len()
            invariant
                i <= self.rows@.len(),
                match best {
                    Some((time, block)) => Some((time, block@)),
                    None => None,
                } == (if programs {
                    latest_program(self@.take(i as int), address@)
                } else {
                    latest_data(self@.take(i as int), address@)
                }),
            decreases self.rows@.len() - i,
        {
            proof {
                assert(self@.take(i + 1).drop_last() =~= self@.take(i as int));
                assert(self@.take(i + 1).last() == self.rows@[i as int]@);
            }
            let found = match &self.rows[i] {
                Record::Contract { address: at, program, timestamp } => {
                    if programs && at.same(address) {
                        Some((*timestamp, program))
                    } else {
                        None
                    }
                },
                Record::State { address: at, data, timestamp } => {
                    if !programs && at.same(address) {
                        Some((*timestamp, data))
                    } else {
                        None
                    }
                },
                Record::Message(_) => None,
            };
            if let Some((time, block)) = found {
                let newer = match &best {
                    Some((old, _)) => *old <= time,
                    None => true,
                };
                if newer {
                    best = Some((time, block.clone()));
                }
            }
            i += 1;
        }
        assert(self@.take(i as int) =~= self@);
        match best {
            Some((_, block)) => Some(block),
            None => None,
        }
    }
}

impl Repository for MemoryRepository {
    open spec fn records(&self) -> Seq<RecordView> {
        self@
    }

    fn get_contract_program(&self, address: Block) -> (program: Option<Block>) {
        self.latest(&address, true)
    }

    fn get_contract_data(&self, address: Block) -> (data: Option<Block>) {
        self.latest(&address, false)
    }

    fn save_transaction(&mut self, transaction: TransactionPart) {
        flatten(&transaction, &mut self.rows);
    }

    fn get_all_messages(&self, limit: u64, offset: u64) -> (messages: Vec<Message>) {
        let sorted = order_newest_first(&messages_in(&self.rows));
        page_of(&sorted, limit, offset)
    }

    fn get_messages_by_contract(&self, address: Block, limit: u64, offset: u64) -> (messages: Vec<
        Message,
    >) {
        let sorted = order_newest_first(&messages_in(&self.rows));
        page_of(&only_involving(&sorted, &address), limit, offset)
    }
}

/// The name under which a kind of message is stored.
pub open spec fn kind_name(kind: MessageType) -> Seq<char> {
    match kind {
        MessageType::Internal => "internal"@,
        MessageType::External => "external"@,
        MessageType::View => "view"@,
    }
}

/// The kind that a stored name stands for.
pub open spec fn kind_of_name(name: Seq<char>) -> Option<MessageType> {
    if name == "internal"@ {
        Some(MessageType::Internal)
    } else if name == "external"@ {
        Some(MessageType::External)
    } else if name == "view"@ {
        Some(MessageType::View)
    } else {
        None
    }
}

/// The name of a kind stands for that kind.
pub proof fn lemma_kind_name_round_trip(kind: MessageType)
    ensures
        kind_of_name(kind_name(kind)) == Some(kind),
{
    reveal_strlit("internal");
    reveal_strlit("external");
    reveal_strlit("view");
    assert("internal"@[0] != "external"@[0]);
}

/// What a `SerdeInit` is: the program and the data in hexadecimal text.
pub struct SerdeInitView {
    pub program: Seq<char>,
    pub data: Seq<char>,
}

/// What a `SerdeMessage` is.
pub struct SerdeMessageView {
    pub id: Seq<char>,
    pub message_type: Seq<char>,
    pub sender: Seq<char>,
    pub receiver: Seq<char>,
    pub init: Option<SerdeInitView>,
    pub opcode: u64,
    pub body: Seq<char>,
    pub timestamp: u64,
}

/// A deployment record as it is stored: its byte strings in hexadecimal text.
#[derive(Debug)]
pub struct SerdeInit {
    pub program: String,
    pub data: String,
}

/// A message as it is stored: its byte strings in hexadecimal text, its kind
/// by name, and under `id` the hash of its wire format.
#[derive(Debug)]
pub struct SerdeMessage {
    pub id: String,
    pub message_type: String,
    pub sender: String,
    pub receiver: String,
    pub init: Option<SerdeInit>,
    pub opcode: u64,
    pub body: String,
    pub timestamp: u64,
}

impl View for SerdeMessage {
    type V = SerdeMessageView;

    open spec fn view(&self) -> SerdeMessageView {
        SerdeMessageView {
            id: self.id@,
            message_type: self.message_type@,
            sender: self.sender@,
            receiver: self.receiver@,
            init: match self.init {
                Some(init) => Some(SerdeInitView { program: init.program@, data: init.data@ }),
                None => None,
            },
            opcode: self.opcode,
            body: self.body@,
            timestamp: self.timestamp,
        }
    }
}

/// The stored form of a message.
pub open spec fn stored(message: MessageView) -> SerdeMessageView {
    SerdeMessageView {
        id: hex_string(sha256(message_bytes(message))),
        message_type: kind_name(message.message_type),
        sender: hex_string(message.sender),
        receiver: hex_string(message.receiver),
        init: match message.init {
            Some(init) => Some(
                SerdeInitView { program: hex_string(init.program), data: hex_string(init.data) },
            ),
            None => None,
        },
        opcode: message.opcode,
        body: hex_string(message.body),
        timestamp: message.timestamp,
    }
}

/// The deployment record that a stored one stands for. `None` where it
/// stands for none: where its program or its data is no hexadecimal text.
pub open spec fn loaded_init(init: SerdeInitView) -> Option<InitView> {
    match (hex_bytes(init.program), hex_bytes(init.data)) {
        (Some(program), Some(data)) => Some(InitView { program, data }),
        _ => None,
    }
}

/// The message that a stored one stands for. `None` where it stands for
/// none: where its kind has no such name, or one of its byte strings, or of
/// those of the deployment record it carries, is no hexadecimal text.
pub open spec fn loaded(row: SerdeMessageView) -> Option<MessageView> {
    let init = match row.init {
        Some(init) => loaded_init(init),
        None => None,
    };
    match (
        kind_of_name(row.message_type),
        hex_bytes(row.sender),
        hex_bytes(row.receiver),
        hex_bytes(row.body),
    ) {
        (Some(message_type), Some(sender), Some(receiver), Some(body)) => if row.init is Some
            && init is None {
            None
        } else {
            Some(
                MessageView {
                    message_type,
                    sender,
                    receiver,
                    init,
                    opcode: row.opcode,
                    body,
                    timestamp: row.timestamp,
                },
            )
        },
        _ => None,
    }
}

/// A message that was stored is loaded as it was.
pub proof fn lemma_stored_round_trip(message: MessageView)
    ensures
        loaded(stored(message)) == Some(message),
{
    lemma_kind_name_round_trip(message.message_type);
    lemma_hex_round_trip(message.sender);
    lemma_hex_round_trip(message.receiver);
    lemma_hex_round_trip(message.body);
    match message.init {
        Some(init) => {
            lemma_hex_round_trip(init.program);
            lemma_hex_round_trip(init.data);
        },
        None => {},
    }
}

impl SerdeMessage {
    /// The name under which the kind of `message` is stored.
    pub fn get_message_type(message: &Message) -> (name: String)
        ensures
            name@ == kind_name(message.message_type),
    {
        match message.message_type {
            MessageType::Internal => "internal".to_owned(),
            MessageType::External => "external".to_owned(),
            MessageType::View => "view".to_owned(),
        }
    }

    /// The kind that the stored name stands for; `None` for any other name.
    pub fn get_message_type_inverse(&self) -> (kind: Option<MessageType>)
        ensures
            kind == kind_of_name(self.message_type@),
    {
        if self.message_type == "internal".to_owned() {
            Some(MessageType::Internal)
        } else if self.message_type == "external".to_owned() {
            Some(MessageType::External)
        } else if self.message_type == "view".to_owned() {
            Some(MessageType::View)
        } else {
            None
        }
    }

    /// The message that this stored one stands for.
    pub fn to_message(&self) -> (message: Option<Message>)
        ensures
            optional_message_view(message) == loaded(self@),
    {
        let message_type = self.get_message_type_inverse();
        let sender = Block::from_string(self.sender.clone());
        let receiver = Block::from_string(self.receiver.clone());
        let body = Block::from_string(self.body.clone());
        let init = match &self.init {
            Some(init) => {
                let program = Block::from_string(init.program.clone());
                let data = Block::from_string(init.data.clone());
                match (program, data) {
                    (Some(program), Some(data)) => Some(Init { program, data }),
                    _ => { return None; },
                }
            },
            None => None,
        };
        match (message_type, sender, receiver, body) {
            (Some(message_type), Some(sender), Some(receiver), Some(body)) => Some(
                Message {
                    message_type,
                    sender,
                    receiver,
                    init,
                    opcode: self.opcode,
                    body,
                    timestamp: self.timestamp,
                },
            ),
            _ => None,
        }
    }

    /// The stored form of `message`.
    pub fn from_message(message: &Message) -> (row: SerdeMessage)
        ensures
            row@ == stored(message@),
    {
        SerdeMessage {
            id: message.get_as_block().hash().to_string(),
            message_type: Self::get_message_type(message),
            sender: message.sender.to_string(),
            receiver: message.receiver.to_string(),
            init: match &message.init {
                Some(init) => Some(
                    SerdeInit { program: init.program.to_string(), data: init.data.to_string() },
                ),
                None => None,
            },
            opcode: message.opcode,
            body: message.body.to_string(),
            timestamp: message.timestamp,
        }
    }
}

} // verus!
