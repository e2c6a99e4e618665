use tfsm::repositories::{flatten, MemoryRepository, Record};
use tfsm::vm::block::{AsBlock, Block};
use tfsm::vm::env::{ContractState, Environment, Repository, TransactionPart, DEPTH_LIMIT};
use tfsm::vm::instructions::{
    BPUSH, BUILD, HALT, IPUSH64, IPUSH8, IWRITE8, LDATA, MKBUILDER, SDATA, SEND,
};
use tfsm::vm::message::{Init, Message, MessageType};
use tfsm::vm::Value;

const NOW: u64 = 1_700_000_000_000;

fn program(internal: Option<u64>, external: Option<u64>, view: Option<u64>, code: &[u8]) -> Vec<u8> {
    let mut bytes = Vec::new();
    for entry in [internal, external, view] {
        match entry {
            Some(offset) => {
                bytes.push(1);
                bytes.extend(offset.to_be_bytes());
            }
            None => bytes.push(0),
        }
    }
    bytes.extend(code);
    bytes
}

fn push_block(bytes: &[u8]) -> Vec<u8> {
    let mut code = vec![BPUSH];
    code.extend((bytes.len() as u64).to_be_bytes());
    code.extend(bytes);
    code
}

fn address_of(init: &Init) -> Block {
    init.get_as_block().hash()
}

fn deployment(init: Init, receiver: Block) -> Message {
    Message::stamped(MessageType::External, Block::empty(), 0, Block::empty(), receiver, Some(init), NOW)
}

fn call(kind: MessageType, receiver: &[u8], timestamp: u64) -> Message {
    Message::stamped(kind, Block::empty(), 0, Block::empty(), Block::new(receiver), None, timestamp)
}

fn install(repository: &mut MemoryRepository, address: &[u8], program: &[u8], data: &[u8], timestamp: u64) {
    repository.insert(Record::Contract {
        address: Block::new(address),
        program: Block::new(program),
        timestamp,
    });
    repository.insert(Record::State { address: Block::new(address), data: Block::new(data), timestamp });
}

fn state_of(part: &TransactionPart) -> &ContractState {
    match part {
        TransactionPart::State(state) => state,
        TransactionPart::Message(_) => panic!("the message was not executed"),
    }
}

fn message_of(part: &TransactionPart) -> &Message {
    match part {
        TransactionPart::State(_) => panic!("the message was executed"),
        TransactionPart::Message(message) => message,
    }
}

fn numbers(values: &[Value]) -> Vec<u64> {
    values
        .iter()
        .map(|value| match value {
            Value::Number(number) => *number,
            _ => panic!("a value that is no number"),
        })
        .collect()
}

fn store_program() -> Vec<u8> {
    program(None, Some(0), None, &[MKBUILDER, IPUSH8, 42, IWRITE8, BUILD, SDATA, HALT])
}

#[test]
fn deploy_and_store() {
    let init = Init { program: Block::new(&store_program()), data: Block::empty() };
    let receiver = address_of(&init);
    let mut repository = MemoryRepository::new();
    let transaction = Environment::start_transaction(deployment(init, receiver), &mut repository);
    let state = state_of(&transaction);
    assert_eq!(state.data.as_slice(), &[0x2a]);
    assert!(state.children.is_empty());
}

#[test]
fn deploy_and_store_with_the_number_under_the_builder() {
    // IWRITE8 takes the number from the top and the builder from under it.
    // With the number pushed first nothing is written, and the data stored
    // is what the empty builder builds.
    let code = [IPUSH8, 42, MKBUILDER, IWRITE8, BUILD, SDATA, HALT];
    let init = Init { program: Block::new(&program(None, Some(0), None, &code)), data: Block::new(&[1]) };
    let receiver = address_of(&init);
    let mut repository = MemoryRepository::new();
    let transaction = Environment::start_transaction(deployment(init, receiver), &mut repository);
    let state = state_of(&transaction);
    assert_eq!(state.data.as_slice(), &[] as &[u8]);
    assert!(state.children.is_empty());
}

#[test]
fn hash_mismatch_deploy() {
    let init = Init { program: Block::new(&store_program()), data: Block::empty() };
    let mut repository = MemoryRepository::new();
    let message = deployment(init, Block::new(&[0u8; 32]));
    let encoded = message.get_as_block().unpack();
    let transaction = Environment::start_transaction(message, &mut repository);
    assert_eq!(message_of(&transaction).get_as_block().unpack(), encoded);
    assert_eq!(repository.len(), 1);
    assert!(matches!(repository.get(0), Some(Record::Message(_))));
    assert!(repository.get(1).is_none());
}

#[test]
fn a_deployment_runs_only_under_its_hash() {
    let init = Init { program: Block::new(&store_program()), data: Block::empty() };
    let right = address_of(&init).unpack();
    let repository = MemoryRepository::new();
    for flipped in 0..32 {
        let mut wrong = right.clone();
        wrong[flipped] ^= 1;
        let part = Environment::execute(deployment(init.clone(), Block::from(wrong)), &repository, 3);
        assert!(matches!(part, TransactionPart::Message(_)));
    }
    let part = Environment::execute(deployment(init.clone(), Block::from(right)), &repository, 3);
    assert!(matches!(part, TransactionPart::State(_)));
}

#[test]
fn a_deployment_starts_from_the_data_it_brings() {
    let code = program(None, Some(0), None, &[HALT]);
    let init = Init { program: Block::new(&code), data: Block::new(&[5, 6]) };
    let receiver = address_of(&init);
    let mut repository = MemoryRepository::new();
    install(&mut repository, receiver.as_slice(), &code, &[9], NOW);
    let part = Environment::execute(deployment(init, receiver), &repository, 1);
    assert_eq!(state_of(&part).data.as_slice(), &[5, 6]);
}

fn sender_program(receiver: &[u8]) -> Vec<u8> {
    let mut code = Vec::new();
    code.extend(push_block(receiver));
    code.extend(push_block(&[]));
    code.extend([IPUSH8, 9]);
    code.extend(push_block(&[]));
    code.extend([SEND, HALT]);
    program(Some(0), Some(0), None, &code)
}

#[test]
fn internal_send_fan_out() {
    let a = [0xa1u8; 32];
    let b = [0xb2u8; 32];
    let mut repository = MemoryRepository::new();
    install(&mut repository, &a, &sender_program(&b), &[], 1);
    let root = Environment::start_transaction(call(MessageType::External, &a, NOW), &mut repository);
    let state = state_of(&root);
    assert_eq!(state.children.len(), 1);
    let child = message_of(&state.children[0]);
    assert!(matches!(child.message_type, MessageType::Internal));
    assert_eq!(child.sender.as_slice(), &a);
    assert_eq!(child.receiver.as_slice(), &b);
    assert_eq!(child.opcode, 9);
    assert!(child.body.as_slice().is_empty());
    assert!(child.init.is_none());
}

#[test]
fn internal_send_reaches_an_installed_contract() {
    let a = [0xa1u8; 32];
    let b = [0xb2u8; 32];
    let mut repository = MemoryRepository::new();
    install(&mut repository, &a, &sender_program(&b), &[], 1);
    let store = program(Some(0), None, None, &[MKBUILDER, IPUSH8, 7, IWRITE8, BUILD, SDATA, HALT]);
    install(&mut repository, &b, &store, &[], 1);
    let root = Environment::execute(call(MessageType::External, &a, NOW), &repository, 10);
    let child = state_of(&state_of(&root).children[0]);
    assert_eq!(child.data.as_slice(), &[7]);
    assert_eq!(child.message.receiver.as_slice(), &b);
    assert!(child.children.is_empty());
}

#[test]
fn children_see_the_repository_as_it_was() {
    // A stores [1] and sends to itself; the child still loads the old data.
    let a = [0xa1u8; 32];
    let mut code = Vec::new();
    code.extend(push_block(&a));
    code.extend(push_block(&[]));
    code.extend([IPUSH8, 0]);
    code.extend(push_block(&[]));
    code.extend([SEND]);
    code.extend(push_block(&[1]));
    code.extend([SDATA, HALT, LDATA, SDATA, HALT]);
    let internal = (code.len() - 3) as u64;
    let mut repository = MemoryRepository::new();
    install(&mut repository, &a, &program(Some(internal), Some(0), None, &code), &[0], 1);
    let root = Environment::execute(call(MessageType::External, &a, NOW), &repository, 10);
    let state = state_of(&root);
    assert_eq!(state.data.as_slice(), &[1]);
    assert_eq!(state_of(&state.children[0]).data.as_slice(), &[0]);
}

#[test]
fn depth_bounds_the_tree() {
    // A sends to itself on every run.
    let a = [0xa1u8; 32];
    let mut repository = MemoryRepository::new();
    install(&mut repository, &a, &sender_program(&a), &[], 1);
    let root = Environment::execute(call(MessageType::External, &a, NOW), &repository, 3);
    let first = state_of(&root);
    let second = state_of(&first.children[0]);
    let third = state_of(&second.children[0]);
    assert!(matches!(third.children[0], TransactionPart::Message(_)));
    let none = Environment::execute(call(MessageType::External, &a, NOW), &repository, 0);
    assert!(matches!(none, TransactionPart::Message(_)));
}

#[test]
fn a_message_without_a_contract_stays_a_message() {
    let repository = MemoryRepository::new();
    let part = Environment::execute(call(MessageType::External, &[1], NOW), &repository, 5);
    assert_eq!(message_of(&part).receiver.as_slice(), &[1]);
}

#[test]
fn a_contract_needs_program_and_data() {
    let mut only_program = MemoryRepository::new();
    only_program.insert(Record::Contract {
        address: Block::new(&[1]),
        program: Block::new(&program(None, Some(0), None, &[HALT])),
        timestamp: 1,
    });
    let part = Environment::execute(call(MessageType::External, &[1], NOW), &only_program, 5);
    assert!(matches!(part, TransactionPart::Message(_)));
    let mut only_data = MemoryRepository::new();
    only_data.insert(Record::State { address: Block::new(&[1]), data: Block::empty(), timestamp: 1 });
    let part = Environment::execute(call(MessageType::External, &[1], NOW), &only_data, 5);
    assert!(matches!(part, TransactionPart::Message(_)));
}

#[test]
fn a_message_needs_an_entry_point_for_its_kind() {
    let mut repository = MemoryRepository::new();
    install(&mut repository, &[1], &program(Some(0), None, Some(0), &[HALT]), &[], 1);
    let part = Environment::execute(call(MessageType::External, &[1], NOW), &repository, 5);
    assert!(matches!(part, TransactionPart::Message(_)));
    let part = Environment::execute(call(MessageType::Internal, &[1], NOW), &repository, 5);
    assert!(matches!(part, TransactionPart::State(_)));
}

#[test]
fn a_program_that_does_not_parse_is_not_run() {
    let mut repository = MemoryRepository::new();
    install(&mut repository, &[1], &[0, 1, 0, 0], &[], 1);
    let part = Environment::execute(call(MessageType::External, &[1], NOW), &repository, 5);
    assert!(matches!(part, TransactionPart::Message(_)));
}

fn view_program() -> Vec<u8> {
    let mut code = vec![IPUSH64];
    code.extend(100u64.to_be_bytes());
    code.push(IPUSH64);
    code.extend(200u64.to_be_bytes());
    code.push(HALT);
    program(None, None, Some(0), &code)
}

#[test]
fn view() {
    let mut repository = MemoryRepository::new();
    install(&mut repository, &[7; 32], &view_program(), &[], 1);
    let stack = Environment::view(call(MessageType::View, &[7; 32], NOW), &repository);
    assert_eq!(numbers(&stack), vec![100, 200]);
    assert_eq!(repository.len(), 2);
}

#[test]
fn view_twice_gives_the_same_stack() {
    let mut repository = MemoryRepository::new();
    install(&mut repository, &[7; 32], &view_program(), &[], 1);
    let first = Environment::view(call(MessageType::View, &[7; 32], NOW), &repository);
    let second = Environment::view(call(MessageType::View, &[7; 32], NOW), &repository);
    assert_eq!(numbers(&first), numbers(&second));
}

#[test]
fn view_does_not_follow_what_is_sent() {
    let a = [0xa1u8; 32];
    let mut code = Vec::new();
    code.extend(push_block(&a));
    code.extend(push_block(&[]));
    code.extend([IPUSH8, 0]);
    code.extend(push_block(&[]));
    code.extend([SEND, IPUSH8, 1, HALT]);
    let mut repository = MemoryRepository::new();
    install(&mut repository, &a, &program(None, None, Some(0), &code), &[], 1);
    let stack = Environment::view(call(MessageType::View, &a, NOW), &repository);
    assert_eq!(numbers(&stack), vec![1]);
}

#[test]
fn view_of_nothing_is_empty() {
    let repository = MemoryRepository::new();
    assert!(Environment::view(call(MessageType::View, &[1], NOW), &repository).is_empty());
}

#[test]
fn the_latest_program_and_data_are_used() {
    let mut repository = MemoryRepository::new();
    install(&mut repository, &[1], &program(None, Some(0), None, &[LDATA, SDATA, HALT]), &[20], 20);
    install(&mut repository, &[1], &program(None, Some(0), None, &[HALT]), &[10], 10);
    install(&mut repository, &[2], &program(None, Some(0), None, &[HALT]), &[99], 99);
    assert_eq!(repository.get_contract_data(Block::new(&[1])).map(|b| b.unpack()), Some(vec![20]));
    assert_eq!(
        repository.get_contract_program(Block::new(&[1])).map(|b| b.unpack()),
        Some(program(None, Some(0), None, &[LDATA, SDATA, HALT]))
    );
    assert!(repository.get_contract_data(Block::new(&[3])).is_none());
    assert!(repository.get_contract_program(Block::new(&[3])).is_none());
}

#[test]
fn of_two_records_with_one_time_the_later_counts() {
    let mut repository = MemoryRepository::new();
    install(&mut repository, &[1], &[1], &[1], 5);
    install(&mut repository, &[1], &[2], &[2], 5);
    install(&mut repository, &[1], &[3], &[3], 4);
    assert_eq!(repository.get_contract_data(Block::new(&[1])).map(|b| b.unpack()), Some(vec![2]));
    assert_eq!(repository.get_contract_program(Block::new(&[1])).map(|b| b.unpack()), Some(vec![2]));
}

fn describe(record: &Record) -> String {
    match record {
        Record::Contract { address, program, timestamp } => {
            format!("contract {} {} {}", address.to_string(), program.to_string(), timestamp)
        }
        Record::State { address, data, timestamp } => {
            format!("state {} {} {}", address.to_string(), data.to_string(), timestamp)
        }
        Record::Message(message) => format!("message {} {}", message.receiver.to_string(), message.opcode),
    }
}

fn sample_tree() -> TransactionPart {
    let with_init = Message::stamped(
        MessageType::External,
        Block::empty(),
        1,
        Block::empty(),
        Block::new(&[0xa0]),
        Some(Init { program: Block::new(&[0xc0]), data: Block::new(&[0xd0]) }),
        10,
    );
    let plain = |receiver: u8, opcode: u64, timestamp: u64| {
        Message::stamped(MessageType::Internal, Block::empty(), opcode, Block::new(&[0xa0]), Block::new(&[receiver]), None, timestamp)
    };
    TransactionPart::State(ContractState {
        message: with_init,
        data: Block::new(&[1]),
        children: vec![
            TransactionPart::State(ContractState {
                message: plain(0xb0, 2, 11),
                data: Block::new(&[2]),
                children: vec![TransactionPart::Message(plain(0xb1, 3, 12))],
            }),
            TransactionPart::State(ContractState {
                message: plain(0xb2, 4, 13),
                data: Block::new(&[3]),
                children: vec![],
            }),
        ],
    })
}

#[test]
fn a_transaction_is_recorded_in_pre_order() {
    let mut repository = MemoryRepository::new();
    repository.save_transaction(sample_tree());
    let rows: Vec<String> = (0..repository.len()).map(|i| describe(&repository.get(i).unwrap())).collect();
    assert_eq!(
        rows,
        vec![
            "message a0 1",
            "state a0 01 10",
            "contract a0 c0 10",
            "message b0 2",
            "state b0 02 11",
            "message b1 3",
            "message b2 4",
            "state b2 03 13",
        ]
    );
}

fn walk(part: &TransactionPart, states: &mut Vec<String>) {
    if let TransactionPart::State(state) = part {
        states.push(format!(
            "state {} {} {}",
            state.message.receiver.to_string(),
            state.data.to_string(),
            state.message.timestamp
        ));
        for child in &state.children {
            walk(child, states);
        }
    }
}

#[test]
fn the_states_recorded_are_those_of_the_tree() {
    let tree = sample_tree();
    let mut rows = Vec::new();
    flatten(&tree, &mut rows);
    let recorded: Vec<String> =
        rows.iter().filter(|row| matches!(row, Record::State { .. })).map(describe).collect();
    let mut walked = Vec::new();
    walk(&tree, &mut walked);
    assert_eq!(recorded, walked);
    assert_eq!(recorded.len(), 3);
}

#[test]
fn start_transaction_records_what_it_returns() {
    let init = Init { program: Block::new(&store_program()), data: Block::empty() };
    let receiver = address_of(&init);
    let mut repository = MemoryRepository::new();
    let transaction = Environment::start_transaction(deployment(init, receiver.clone()), &mut repository);
    let mut expected = Vec::new();
    flatten(&transaction, &mut expected);
    let recorded: Vec<String> = (0..repository.len()).map(|i| describe(&repository.get(i).unwrap())).collect();
    assert_eq!(recorded, expected.iter().map(describe).collect::<Vec<_>>());
    assert_eq!(recorded.len(), 3);
    assert_eq!(repository.get_contract_data(receiver.clone()).map(|b| b.unpack()), Some(vec![0x2a]));
    assert_eq!(repository.get_contract_program(receiver).map(|b| b.unpack()), Some(store_program()));
}

#[test]
fn a_deployed_contract_is_found_by_later_messages() {
    let code = program(None, Some(0), None, &[LDATA, MKBUILDER, IPUSH8, 1, IWRITE8, BUILD, SDATA, HALT]);
    let init = Init { program: Block::new(&code), data: Block::new(&[9]) };
    let receiver = address_of(&init);
    let mut repository = MemoryRepository::new();
    Environment::start_transaction(deployment(init, receiver.clone()), &mut repository);
    let later = call(MessageType::External, receiver.as_slice(), NOW + 1);
    let second = Environment::start_transaction(later, &mut repository);
    assert_eq!(state_of(&second).data.as_slice(), &[1]);
    assert_eq!(repository.len(), 5);
}

#[test]
fn the_depth_limit_is_the_largest() {
    assert_eq!(DEPTH_LIMIT, u64::MAX);
}
