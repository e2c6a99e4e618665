use tfsm::repositories::{MemoryRepository, Record};
use tfsm::server::{
    listing_blob, parse_request, read_incoming, read_stack, reply, screen, stack_blob, Rejection,
    Request, Server, CLOCK_WINDOW,
};
use tfsm::vm::block::{AsBlock, Block};
use tfsm::vm::env::TransactionPart;
use tfsm::vm::instructions::{BUILD, HALT, IPUSH64, IPUSH8, IWRITE8, MKBUILDER, SDATA};
use tfsm::vm::message::{Init, Message, MessageType};
use tfsm::vm::Value;

const NOW: u64 = 1_700_000_000_000;

fn message(kind: MessageType, sender: &[u8], receiver: &[u8], init: Option<Init>, timestamp: u64) -> Message {
    Message::stamped(kind, Block::empty(), 0, Block::new(sender), Block::new(receiver), init, timestamp)
}

fn send_line(message: &Message) -> String {
    format!("send {}\r\n", message.get_as_block().to_string())
}

fn program(external: Option<u64>, view: Option<u64>, code: &[u8]) -> Vec<u8> {
    let mut bytes = vec![0u8];
    for entry in [external, view] {
        match entry {
            Some(offset) => {
                bytes.push(1);
                bytes.extend(offset.to_be_bytes());
            }
            None => bytes.push(0),
        }
    }
    bytes.extend(code);
    bytes
}

fn decode(line: &str) -> Block {
    let text = line.strip_suffix("\r\n").expect("a line end");
    Block::from_string(text.to_string()).expect("hexadecimal text")
}

#[test]
fn request_send() {
    match parse_request("send 0a0b\r\n") {
        Request::Send(text) => assert_eq!(text, "0a0b"),
        _ => panic!("a send request"),
    }
    match parse_request("  send not-hex \t") {
        Request::Send(text) => assert_eq!(text, "not-hex"),
        _ => panic!("a send request"),
    }
    match parse_request("\u{a0}send \u{e9}\u{3000}") {
        Request::Send(text) => assert_eq!(text, "\u{e9}"),
        _ => panic!("a send request"),
    }
}

#[test]
fn request_listings() {
    match parse_request("get_all_messages 10 +2\r\n") {
        Request::AllMessages { limit, offset } => assert_eq!((limit, offset), (10, 2)),
        _ => panic!("a listing"),
    }
    match parse_request("get_all_messages 18446744073709551615 000") {
        Request::AllMessages { limit, offset } => assert_eq!((limit, offset), (u64::MAX, 0)),
        _ => panic!("a listing"),
    }
    match parse_request("get_messages_by_contract 0aFF 1 2\r\n") {
        Request::MessagesByContract { address, limit, offset } => {
            assert_eq!(address.unpack(), vec![0x0a, 0xff]);
            assert_eq!((limit, offset), (1, 2));
        }
        _ => panic!("a listing by contract"),
    }
    match parse_request("get_messages_by_contract  1 2") {
        Request::MessagesByContract { address, limit, offset } => {
            assert!(address.unpack().is_empty());
            assert_eq!((limit, offset), (1, 2));
        }
        _ => panic!("a listing by the empty address"),
    }
}

#[test]
fn request_unknown() {
    for line in [
        "",
        "\r\n",
        "send",
        "send  0a",
        "send 0a 0b",
        "Send 0a",
        "sent 0a",
        "get_all_messages 1",
        "get_all_messages 1 2 3",
        "get_all_messages a 2",
        "get_all_messages 1 -2",
        "get_all_messages 1 +",
        "get_all_messages 1 18446744073709551616",
        "get_all_messages 1\t2",
        "get_messages_by_contract 0a 1",
        "get_messages_by_contract 0 1 2",
        "get_messages_by_contract zz 1 2",
        "get_messages_by_contract 0a x 2",
        "get_messages_by_contract 0a 1 2 3",
        "hello there",
    ] {
        assert!(matches!(parse_request(line), Request::Unknown), "line {:?}", line);
    }
}

#[test]
fn rejections_have_their_lines() {
    assert_eq!(Rejection::InvalidHex.line(), "invalid hex\r\n");
    assert_eq!(Rejection::InvalidMessage.line(), "invalid message\r\n");
    assert_eq!(Rejection::InvalidMessageTime.line(), "invalid message time\r\n");
    assert_eq!(Rejection::SenderMustBeEmpty.line(), "sender must be empty\r\n");
    assert_eq!(Rejection::CantBeInternalMessage.line(), "cant be internal message\r\n");
}

#[test]
fn screen_checks_time_then_sender_then_kind() {
    let at = |timestamp: u64| message(MessageType::External, &[], &[1], None, timestamp);
    assert_eq!(CLOCK_WINDOW, 10000);
    assert_eq!(screen(&at(NOW), NOW), None);
    assert_eq!(screen(&at(NOW - 10000), NOW), None);
    assert_eq!(screen(&at(NOW + 10000), NOW), None);
    assert_eq!(screen(&at(NOW - 10001), NOW), Some(Rejection::InvalidMessageTime));
    assert_eq!(screen(&at(NOW + 10001), NOW), Some(Rejection::InvalidMessageTime));
    assert_eq!(screen(&at(0), 10000), None);
    assert_eq!(screen(&at(0), 10001), Some(Rejection::InvalidMessageTime));
    assert_eq!(screen(&at(u64::MAX), u64::MAX - 10000), None);
    assert_eq!(screen(&at(u64::MAX), u64::MAX - 10001), Some(Rejection::InvalidMessageTime));
    assert_eq!(screen(&at(u64::MAX), u64::MAX), None);
    let named = message(MessageType::External, &[1], &[1], None, NOW);
    assert_eq!(screen(&named, NOW), Some(Rejection::SenderMustBeEmpty));
    let internal = message(MessageType::Internal, &[], &[1], None, NOW);
    assert_eq!(screen(&internal, NOW), Some(Rejection::CantBeInternalMessage));
    let view = message(MessageType::View, &[], &[1], None, NOW);
    assert_eq!(screen(&view, NOW), None);
    let late_and_named = message(MessageType::Internal, &[1], &[1], None, 0);
    assert_eq!(screen(&late_and_named, NOW), Some(Rejection::InvalidMessageTime));
    let named_internal = message(MessageType::Internal, &[1], &[1], None, NOW);
    assert_eq!(screen(&named_internal, NOW), Some(Rejection::SenderMustBeEmpty));
}

#[test]
fn incoming_text_is_decoded_and_screened() {
    assert_eq!(read_incoming("0g".to_string(), NOW).err(), Some(Rejection::InvalidHex));
    assert_eq!(read_incoming("00".to_string(), NOW).err(), Some(Rejection::InvalidMessage));
    assert_eq!(read_incoming(String::new(), NOW).err(), Some(Rejection::InvalidMessage));
    let old = message(MessageType::External, &[], &[1], None, 5);
    assert_eq!(
        read_incoming(old.get_as_block().to_string(), NOW).err(),
        Some(Rejection::InvalidMessageTime)
    );
    let good = message(MessageType::View, &[], &[1, 2], None, NOW + 3);
    let read = read_incoming(good.get_as_block().to_string(), NOW).expect("a good message");
    assert_eq!(read.get_as_block().unpack(), good.get_as_block().unpack());
}

#[test]
fn replies_are_hexadecimal_lines() {
    assert_eq!(reply(&Block::new(&[0xab, 0x01])), "ab01\r\n");
    assert_eq!(reply(&Block::empty()), "\r\n");
}

#[test]
fn stack_blob_counts_and_frames() {
    let values = vec![Value::Number(1), Value::Block(Block::new(&[7]))];
    let mut expected = vec![0, 0, 0, 0, 0, 0, 0, 2];
    expected.extend([0, 0, 0, 0, 0, 0, 0, 9, 0, 0, 0, 0, 0, 0, 0, 0, 1]);
    expected.extend([0, 0, 0, 0, 0, 0, 0, 10, 1, 0, 0, 0, 0, 0, 0, 0, 1, 7]);
    assert_eq!(stack_blob(&values).unpack(), expected);
    assert_eq!(stack_blob(&Vec::new()).unpack(), vec![0; 8]);
}

#[test]
fn a_stack_blob_is_read_back() {
    let values = vec![Value::Number(u64::MAX), Value::Block(Block::new(&[7, 8])), Value::Number(0)];
    let back = read_stack(stack_blob(&values)).expect("an encoded stack");
    assert_eq!(back.len(), 3);
    assert!(matches!(back[0], Value::Number(u64::MAX)));
    match &back[1] {
        Value::Block(block) => assert_eq!(block.as_slice(), &[7, 8]),
        _ => panic!("a block was encoded"),
    }
    assert!(matches!(back[2], Value::Number(0)));
    assert_eq!(read_stack(stack_blob(&Vec::new())).map(|v| v.len()), Some(0));
}

#[test]
fn a_stack_blob_that_is_malformed_is_refused() {
    assert!(read_stack(Block::empty()).is_none());
    assert!(read_stack(Block::new(&[0, 0, 0, 0, 0, 0, 0, 1])).is_none());
    assert!(read_stack(Block::new(&[0, 0, 0, 0, 0, 0, 0, 1, 0, 0, 0, 0, 0, 0, 0, 1, 9])).is_none());
    assert!(read_stack(Block::new(&[0xff; 8])).is_none());
    let mut short = stack_blob(&vec![Value::Number(1), Value::Number(2)]).unpack();
    short.pop();
    assert!(read_stack(Block::from(short)).is_none());
}

#[test]
fn listing_blob_counts_and_frames() {
    let first = message(MessageType::External, &[], &[1], None, 1);
    let second = message(MessageType::View, &[], &[2], None, 2);
    let mut expected = vec![0, 0, 0, 0, 0, 0, 0, 2];
    for m in [&first, &second] {
        let bytes = m.get_as_block().unpack();
        expected.extend((bytes.len() as u64).to_be_bytes());
        expected.extend(bytes);
    }
    assert_eq!(listing_blob(&vec![first, second]).unpack(), expected);
    assert_eq!(listing_blob(&Vec::new()).unpack(), vec![0; 8]);
}

#[test]
fn the_server_answers_rejections() {
    let mut server = Server::new(MemoryRepository::new());
    assert_eq!(server.answer("send xyz\r\n", NOW).as_deref(), Some("invalid hex\r\n"));
    assert_eq!(server.answer("send 0102\r\n", NOW).as_deref(), Some("invalid message\r\n"));
    let old = message(MessageType::External, &[], &[1], None, NOW - 20000);
    assert_eq!(server.answer(&send_line(&old), NOW).as_deref(), Some("invalid message time\r\n"));
    let early = message(MessageType::External, &[], &[1], None, NOW + 20000);
    assert_eq!(server.answer(&send_line(&early), NOW).as_deref(), Some("invalid message time\r\n"));
    let named = message(MessageType::External, &[9], &[1], None, NOW);
    assert_eq!(server.answer(&send_line(&named), NOW).as_deref(), Some("sender must be empty\r\n"));
    let internal = message(MessageType::Internal, &[], &[1], None, NOW);
    assert_eq!(server.answer(&send_line(&internal), NOW).as_deref(), Some("cant be internal message\r\n"));
    assert_eq!(server.repository.len(), 0);
}

#[test]
fn the_server_ignores_what_it_does_not_know() {
    let mut server = Server::new(MemoryRepository::new());
    assert_eq!(server.answer("hello\r\n", NOW), None);
    assert_eq!(server.answer("\r\n", NOW), None);
    assert_eq!(server.answer("get_all_messages x y\r\n", NOW), None);
    assert_eq!(server.handle("something else\r\n"), None);
}

#[test]
fn the_server_executes_an_external_message() {
    let code = program(Some(0), None, &[MKBUILDER, IPUSH8, 42, IWRITE8, BUILD, SDATA, HALT]);
    let init = Init { program: Block::new(&code), data: Block::empty() };
    let receiver = init.get_as_block().hash();
    let deploy = message(MessageType::External, &[], receiver.as_slice(), Some(init), NOW);
    let mut server = Server::new(MemoryRepository::new());
    let line = server.answer(&send_line(&deploy), NOW).expect("an answer");
    match TransactionPart::from_block(decode(&line)).expect("a transaction") {
        TransactionPart::State(state) => {
            assert_eq!(state.data.unpack(), vec![0x2a]);
            assert!(state.children.is_empty());
            assert_eq!(state.message.get_as_block().unpack(), deploy.get_as_block().unpack());
        }
        TransactionPart::Message(_) => panic!("the deployment was executed"),
    }
    assert_eq!(server.repository.len(), 3);
    assert!(matches!(server.repository.get(0), Some(Record::Message(_))));
    assert!(matches!(server.repository.get(1), Some(Record::State { .. })));
    assert!(matches!(server.repository.get(2), Some(Record::Contract { .. })));
}

#[test]
fn the_server_answers_a_message_that_cannot_run() {
    let mut server = Server::new(MemoryRepository::new());
    let lost = message(MessageType::External, &[], &[1, 2, 3], None, NOW);
    let line = server.answer(&send_line(&lost), NOW).expect("an answer");
    let mut expected = vec![0u8];
    let body = lost.get_as_block().unpack();
    expected.extend((body.len() as u64).to_be_bytes());
    expected.extend(body);
    assert_eq!(decode(&line).unpack(), expected);
    assert_eq!(server.repository.len(), 1);
}

#[test]
fn the_server_answers_a_view() {
    let mut code = vec![IPUSH64];
    code.extend(100u64.to_be_bytes());
    code.push(IPUSH64);
    code.extend(200u64.to_be_bytes());
    code.push(HALT);
    let mut repository = MemoryRepository::new();
    repository.insert(Record::Contract {
        address: Block::new(&[7; 32]),
        program: Block::new(&program(None, Some(0), &code)),
        timestamp: 1,
    });
    repository.insert(Record::State { address: Block::new(&[7; 32]), data: Block::empty(), timestamp: 1 });
    let mut server = Server::new(repository);
    let view = message(MessageType::View, &[], &[7; 32], None, NOW);
    let line = server.answer(&send_line(&view), NOW).expect("an answer");
    let stack = read_stack(decode(&line)).expect("an encoded stack");
    assert_eq!(stack.len(), 2);
    assert!(matches!(stack[0], Value::Number(100)));
    assert!(matches!(stack[1], Value::Number(200)));
    assert_eq!(server.repository.len(), 2);
    let again = server.answer(&send_line(&view), NOW).expect("an answer");
    assert_eq!(again, line);
}

#[test]
fn the_server_answers_a_view_of_nothing_with_an_empty_stack() {
    let mut server = Server::new(MemoryRepository::new());
    let view = message(MessageType::View, &[], &[1], None, NOW);
    assert_eq!(server.answer(&send_line(&view), NOW).as_deref(), Some("0000000000000000\r\n"));
}

#[test]
fn the_server_lists_messages() {
    let mut server = Server::new(MemoryRepository::new());
    let first = message(MessageType::External, &[], &[1], None, NOW);
    let second = message(MessageType::External, &[], &[2], None, NOW + 1);
    server.answer(&send_line(&first), NOW);
    server.answer(&send_line(&second), NOW);
    let all = server.answer("get_all_messages 10 0\r\n", NOW).expect("a listing");
    assert_eq!(all, reply(&listing_blob(&vec![second.clone(), first.clone()])));
    let page = server.answer("get_all_messages 1 1\r\n", NOW).expect("a listing");
    assert_eq!(page, reply(&listing_blob(&vec![first.clone()])));
    let by = server.answer("get_messages_by_contract 02 10 0\r\n", NOW).expect("a listing");
    assert_eq!(by, reply(&listing_blob(&vec![second])));
    let none = server.answer("get_messages_by_contract 03 10 0\r\n", NOW).expect("a listing");
    assert_eq!(none, "0000000000000000\r\n");
}

#[test]
fn the_server_reads_the_clock() {
    let mut server = Server::new(MemoryRepository::new());
    let old = message(MessageType::External, &[], &[1], None, 5);
    assert_eq!(server.handle(&send_line(&old)).as_deref(), Some("invalid message time\r\n"));
    let fresh = Message::new(MessageType::View, Block::empty(), 0, Block::empty(), Block::new(&[1]), None);
    assert_eq!(server.handle(&send_line(&fresh)).as_deref(), Some("0000000000000000\r\n"));
}
