use tfsm::program::{Program, ProgramReaderFromBytes};
use tfsm::vm::block::{AsBlock, Block};
use tfsm::vm::env::{ContractState, TransactionPart};
use tfsm::vm::message::{Init, Message, MessageType};
use tfsm::vm::Value;

fn sample_message(kind: MessageType, init: Option<Init>) -> Message {
    Message::stamped(
        kind,
        Block::new(&[0xb0, 0xd1]),
        0x0102030405060708,
        Block::new(&[0x51]),
        Block::new(&[0x4e, 0x4f]),
        init,
        0x1122334455667788,
    )
}

fn kind_number(kind: MessageType) -> u8 {
    match kind {
        MessageType::External => 0,
        MessageType::Internal => 1,
        MessageType::View => 2,
    }
}

fn assert_same_message(left: &Message, right: &Message) {
    assert_eq!(kind_number(left.message_type), kind_number(right.message_type));
    assert_eq!(left.sender.as_slice(), right.sender.as_slice());
    assert_eq!(left.receiver.as_slice(), right.receiver.as_slice());
    assert_eq!(left.opcode, right.opcode);
    assert_eq!(left.body.as_slice(), right.body.as_slice());
    assert_eq!(left.timestamp, right.timestamp);
    match (&left.init, &right.init) {
        (Some(a), Some(b)) => {
            assert_eq!(a.program.as_slice(), b.program.as_slice());
            assert_eq!(a.data.as_slice(), b.data.as_slice());
        }
        (None, None) => {}
        _ => panic!("one message carries a deployment record and the other does not"),
    }
}

#[test]
fn init_wire_format_is_two_framed_blocks() {
    let init = Init { program: Block::new(&[1, 2, 3]), data: Block::new(&[9]) };
    assert_eq!(
        init.get_as_block().unpack(),
        vec![0, 0, 0, 0, 0, 0, 0, 3, 1, 2, 3, 0, 0, 0, 0, 0, 0, 0, 1, 9]
    );
}

#[test]
fn init_round_trip() {
    let init = Init { program: Block::new(&[1, 2, 3]), data: Block::empty() };
    let back = Init::from_block(init.get_as_block()).expect("an init that was encoded");
    assert_eq!(back.program.unpack(), vec![1, 2, 3]);
    assert_eq!(back.data.unpack(), Vec::<u8>::new());
}

#[test]
fn init_that_ends_early_is_refused() {
    assert!(Init::from_block(Block::empty()).is_none());
    assert!(Init::from_block(Block::new(&[0, 0, 0, 0, 0, 0, 0, 1, 7])).is_none());
    assert!(Init::from_block(Block::new(&[0, 0, 0, 0, 0, 0, 0, 2, 7, 0, 0, 0, 0, 0, 0, 0, 0])).is_none());
}

#[test]
fn init_ignores_what_follows() {
    let mut bytes = Init { program: Block::new(&[5]), data: Block::new(&[6]) }.get_as_block().unpack();
    bytes.push(0xff);
    let back = Init::from_block(Block::from(bytes)).expect("an init with a trailing byte");
    assert_eq!(back.program.unpack(), vec![5]);
    assert_eq!(back.data.unpack(), vec![6]);
}

#[test]
fn message_wire_format_is_exact() {
    let message = sample_message(MessageType::Internal, None);
    let expected: Vec<u8> = vec![
        1, // kind
        0, 0, 0, 0, 0, 0, 0, 1, 0x51, // sender
        0, 0, 0, 0, 0, 0, 0, 2, 0x4e, 0x4f, // receiver
        0, 0, 0, 0, 0, 0, 0, 0, // no init
        1, 2, 3, 4, 5, 6, 7, 8, // opcode
        0, 0, 0, 0, 0, 0, 0, 2, 0xb0, 0xd1, // body
        0x11, 0x22, 0x33, 0x44, 0x55, 0x66, 0x77, 0x88, // time
    ];
    assert_eq!(message.get_as_block().unpack(), expected);
}

#[test]
fn message_kinds_on_the_wire() {
    assert_eq!(sample_message(MessageType::External, None).get_as_block().unpack()[0], 0);
    assert_eq!(sample_message(MessageType::Internal, None).get_as_block().unpack()[0], 1);
    assert_eq!(sample_message(MessageType::View, None).get_as_block().unpack()[0], 2);
    for (byte, kind) in [(0u8, MessageType::External), (1, MessageType::Internal), (2, MessageType::View)] {
        let mut bytes = sample_message(MessageType::View, None).get_as_block().unpack();
        bytes[0] = byte;
        let back = Message::from_block(Block::from(bytes)).expect("a message of a known kind");
        assert_eq!(kind_number(back.message_type), kind_number(kind));
    }
}

#[test]
fn message_of_unknown_kind_is_refused() {
    let mut bytes = sample_message(MessageType::View, None).get_as_block().unpack();
    bytes[0] = 3;
    assert!(Message::from_block(Block::from(bytes)).is_none());
}

#[test]
fn message_round_trip_without_init() {
    for kind in [MessageType::External, MessageType::Internal, MessageType::View] {
        let message = sample_message(kind, None);
        let back = Message::from_block(message.get_as_block()).expect("a message that was encoded");
        assert_same_message(&message, &back);
    }
}

#[test]
fn message_round_trip_with_init() {
    let init = Init { program: Block::new(&[1, 2, 3]), data: Block::new(&[4]) };
    let message = sample_message(MessageType::External, Some(init));
    let back = Message::from_block(message.get_as_block()).expect("a message that was encoded");
    assert_same_message(&message, &back);
    assert_same_message(&message, &message.clone());
}

#[test]
fn message_with_unreadable_init_carries_none() {
    let mut bytes = vec![0u8];
    bytes.extend([0, 0, 0, 0, 0, 0, 0, 0]);
    bytes.extend([0, 0, 0, 0, 0, 0, 0, 0]);
    bytes.extend([0, 0, 0, 0, 0, 0, 0, 3, 1, 2, 3]);
    bytes.extend([0, 0, 0, 0, 0, 0, 0, 9]);
    bytes.extend([0, 0, 0, 0, 0, 0, 0, 0]);
    bytes.extend([0, 0, 0, 0, 0, 0, 0, 5]);
    let message = Message::from_block(Block::from(bytes)).expect("a message with a broken init");
    assert!(message.init.is_none());
    assert_eq!(message.opcode, 9);
    assert_eq!(message.timestamp, 5);
}

#[test]
fn message_that_ends_early_is_refused() {
    let bytes = sample_message(MessageType::External, None).get_as_block().unpack();
    for cut in 0..bytes.len() {
        assert!(Message::from_block(Block::new(&bytes[..cut])).is_none(), "cut at {}", cut);
    }
    assert!(Message::from_block(Block::new(&bytes)).is_some());
}

#[test]
fn message_new_takes_the_time_of_the_clock() {
    let message = Message::new(
        MessageType::View,
        Block::new(&[1]),
        4,
        Block::new(&[2]),
        Block::new(&[3]),
        None,
    );
    assert_eq!(message.body.as_slice(), &[1]);
    assert_eq!(message.opcode, 4);
    assert_eq!(message.sender.as_slice(), &[2]);
    assert_eq!(message.receiver.as_slice(), &[3]);
    assert!(message.init.is_none());
    assert!(message.timestamp > 1_600_000_000_000);
}

fn program_bytes(internal: Option<u64>, external: Option<u64>, view: Option<u64>, code: &[u8]) -> Vec<u8> {
    let mut bytes = Vec::new();
    for entry in [internal, external, view] {
        match entry {
            Some(offset) => {
                bytes.push(1);
                bytes.extend(offset.to_be_bytes());
            }
            None => bytes.push(0),
        }
    }
    bytes.extend(code);
    bytes
}

#[test]
fn program_header_is_three_optional_offsets() {
    let bytes = program_bytes(Some(3), None, Some(0x0102), &[7, 8, 9]);
    let program = Program::from_bytes(&bytes).expect("a whole program");
    assert_eq!(program.get_internal(), Some(3));
    assert_eq!(program.get_external(), None);
    assert_eq!(program.get_view(), Some(0x0102));
    assert_eq!(program.get_code(), vec![7, 8, 9]);
    assert_eq!(program.get_entrypoint(MessageType::Internal), Some(3));
    assert_eq!(program.get_entrypoint(MessageType::External), None);
    assert_eq!(program.get_entrypoint(MessageType::View), Some(0x0102));
}

#[test]
fn program_round_trip() {
    for (a, b, c) in [(None, None, None), (Some(1), Some(2), Some(3)), (None, Some(0), None)] {
        let bytes = program_bytes(a, b, c, &[0xaa, 0xbb]);
        let program = Program::from_bytes(&bytes).expect("a whole program");
        assert_eq!(program.get_as_block().unpack(), bytes);
    }
}

#[test]
fn program_without_code_loads() {
    let program = Program::from_bytes(&[0, 0, 0]).expect("a header alone");
    assert_eq!(program.get_code(), Vec::<u8>::new());
    assert_eq!(program.get_entrypoint(MessageType::External), None);
}

#[test]
fn program_with_a_flag_other_than_one_has_no_entry() {
    let program = Program::from_bytes(&[2, 0xff, 0, 5]).expect("a header with odd flags");
    assert_eq!(program.get_internal(), None);
    assert_eq!(program.get_external(), None);
    assert_eq!(program.get_view(), None);
    assert_eq!(program.get_code(), vec![5]);
}

#[test]
fn program_whose_header_ends_early_does_not_load() {
    assert!(Program::from_bytes(&[]).is_none());
    assert!(Program::from_bytes(&[0, 0]).is_none());
    assert!(Program::from_bytes(&[1, 0, 0, 0, 0, 0, 0, 0]).is_none());
    assert!(Program::from_bytes(&[0, 1, 0, 0, 0, 0, 0, 0, 0, 9]).is_none());
}

#[test]
fn program_reader_reads_in_steps() {
    let bytes = [7u8, 0, 0, 0, 0, 0, 0, 1, 2, 0, 0, 0, 5];
    let mut reader = ProgramReaderFromBytes::new(&bytes);
    assert_eq!(reader.read_u8(), Some(7));
    assert_eq!(reader.read_u64(), Some(0x0102));
    assert_eq!(reader.read_u64(), None);
    let program = reader.load().expect("what is left is a header and code");
    assert_eq!(program.get_code(), vec![5]);
    assert_eq!(reader.read_u8(), Some(5));
    assert_eq!(reader.read_u8(), None);
}

#[test]
fn value_encoding_is_tagged() {
    assert_eq!(Value::Number(0x0102).get_as_block().unpack(), vec![0, 0, 0, 0, 0, 0, 0, 1, 2]);
    assert_eq!(
        Value::Block(Block::new(&[7, 8])).get_as_block().unpack(),
        vec![1, 0, 0, 0, 0, 0, 0, 0, 2, 7, 8]
    );
    let slice = tfsm::vm::slice::Slice::new(Block::new(&[1, 2, 3]));
    assert_eq!(Value::Slice(slice).get_as_block().unpack(), vec![2]);
    let mut builder = tfsm::vm::builder::Builder::new();
    builder.write_u8(1);
    assert_eq!(Value::Builder(builder).get_as_block().unpack(), vec![3]);
}

#[test]
fn value_round_trip_of_numbers_and_blocks() {
    match Value::from_block(Value::Number(u64::MAX).get_as_block()) {
        Some(Value::Number(number)) => assert_eq!(number, u64::MAX),
        _ => panic!("a number was encoded"),
    }
    match Value::from_block(Value::Block(Block::new(&[1, 2, 3])).get_as_block()) {
        Some(Value::Block(block)) => assert_eq!(block.unpack(), vec![1, 2, 3]),
        _ => panic!("a block was encoded"),
    }
}

#[test]
fn value_of_a_slice_or_builder_comes_back_empty() {
    match Value::from_block(Block::new(&[2])) {
        Some(Value::Slice(slice)) => assert_eq!(slice.len(), 0),
        _ => panic!("the tag of a slice"),
    }
    match Value::from_block(Block::new(&[3])) {
        Some(Value::Builder(builder)) => assert_eq!(builder.len(), 0),
        _ => panic!("the tag of a builder"),
    }
}

#[test]
fn value_that_is_malformed_is_refused() {
    assert!(Value::from_block(Block::empty()).is_none());
    assert!(Value::from_block(Block::new(&[4])).is_none());
    assert!(Value::from_block(Block::new(&[0, 1, 2])).is_none());
    assert!(Value::from_block(Block::new(&[1, 0, 0, 0, 0, 0, 0, 0, 2, 7])).is_none());
}

fn tree() -> TransactionPart {
    let leaf = TransactionPart::Message(sample_message(MessageType::Internal, None));
    let inner = TransactionPart::State(ContractState {
        message: sample_message(MessageType::Internal, None),
        data: Block::new(&[1]),
        children: vec![leaf.clone()],
    });
    TransactionPart::State(ContractState {
        message: sample_message(MessageType::External, Some(Init { program: Block::new(&[0, 0, 0]), data: Block::empty() })),
        data: Block::new(&[0x2a]),
        children: vec![inner, leaf],
    })
}

#[test]
fn part_encoding_of_a_message_is_tag_and_frame() {
    let message = sample_message(MessageType::View, None);
    let body = message.get_as_block().unpack();
    let mut expected = vec![0u8];
    expected.extend((body.len() as u64).to_be_bytes());
    expected.extend(body);
    assert_eq!(TransactionPart::Message(message).get_as_block().unpack(), expected);
}

#[test]
fn part_encoding_of_a_state_counts_its_children() {
    let message = sample_message(MessageType::External, None);
    let state = ContractState { message: message.clone(), data: Block::new(&[5]), children: vec![] };
    let body = message.get_as_block().unpack();
    let mut inner = Vec::new();
    inner.extend((body.len() as u64).to_be_bytes());
    inner.extend(body);
    inner.extend([0, 0, 0, 0, 0, 0, 0, 1, 5]);
    inner.extend([0, 0, 0, 0, 0, 0, 0, 0]);
    assert_eq!(state.get_as_block().unpack(), inner);
    let mut expected = vec![1u8];
    expected.extend((inner.len() as u64).to_be_bytes());
    expected.extend(inner);
    assert_eq!(TransactionPart::State(state).get_as_block().unpack(), expected);
}

#[test]
fn part_round_trip() {
    let part = tree();
    let bytes = part.get_as_block().unpack();
    let back = TransactionPart::from_block(Block::new(&bytes)).expect("a tree that was encoded");
    assert_eq!(back.get_as_block().unpack(), bytes);
    match back {
        TransactionPart::State(state) => {
            assert_eq!(state.data.unpack(), vec![0x2a]);
            assert_eq!(state.children.len(), 2);
            assert!(matches!(state.children[0], TransactionPart::State(_)));
            assert!(matches!(state.children[1], TransactionPart::Message(_)));
        }
        TransactionPart::Message(_) => panic!("the root was a state"),
    }
    assert_eq!(part.clone().get_as_block().unpack(), bytes);
}

#[test]
fn part_that_is_malformed_is_refused() {
    let bytes = tree().get_as_block().unpack();
    assert!(TransactionPart::from_block(Block::empty()).is_none());
    assert!(TransactionPart::from_block(Block::new(&bytes[..bytes.len() - 1])).is_none());
    let mut other_tag = bytes.clone();
    other_tag[0] = 2;
    assert!(TransactionPart::from_block(Block::from(other_tag)).is_none());
    let mut more_children = ContractState {
        message: sample_message(MessageType::External, None),
        data: Block::empty(),
        children: vec![],
    }
    .get_as_block()
    .unpack();
    let last = more_children.len() - 1;
    more_children[last] = 1;
    assert!(ContractState::from_block(Block::from(more_children)).is_none());
}

#[test]
fn value_text_is_for_people() {
    assert_eq!(Value::Number(0).to_string(), "0");
    assert_eq!(Value::Number(9).to_string(), "9");
    assert_eq!(Value::Number(10).to_string(), "10");
    assert_eq!(Value::Number(1234567890).to_string(), "1234567890");
    assert_eq!(Value::Number(u64::MAX).to_string(), "18446744073709551615");
    assert_eq!(Value::Block(Block::new(&[0xab, 0x01])).to_string(), "[ab01]");
    assert_eq!(Value::Block(Block::empty()).to_string(), "[]");
    let mut slice = tfsm::vm::slice::Slice::new(Block::new(&[1, 2, 3]));
    slice.read_u8();
    assert_eq!(Value::Slice(slice).to_string(), "SLICE 2");
    let mut builder = tfsm::vm::builder::Builder::new();
    builder.write_u64(1);
    builder.write_u64(1);
    assert_eq!(Value::Builder(builder).to_string(), "BUILDER 16");
}

#[test]
fn message_text_is_for_people() {
    let plain = sample_message(MessageType::Internal, None);
    assert_eq!(
        plain.to_string(),
        format!("{} 51 -> 4e4f #72623859790382856 = b0d1 (initial?: false)", plain.get_as_block().hash().to_string())
    );
    let deploying = sample_message(
        MessageType::External,
        Some(Init { program: Block::empty(), data: Block::empty() }),
    );
    assert!(deploying.to_string().ends_with(" = b0d1 (initial?: true)"));
}
