use tfsm::vm::block::Block;
use tfsm::vm::builder::Builder;
use tfsm::vm::slice::Slice;
use tfsm::vm::stack::Stack;
use tfsm::vm::utils::operate;
use tfsm::vm::Value;

fn numbers(items: &[u64]) -> Stack<u64> {
    let mut stack = Stack::new();
    for item in items {
        stack.push(*item);
    }
    stack
}

#[test]
fn stack_counts_from_the_top() {
    let stack = numbers(&[10, 20, 30]);
    assert_eq!(stack.len(), 3);
    assert_eq!(stack.get(0), Some(&30));
    assert_eq!(stack.get(2), Some(&10));
    assert_eq!(stack.get(3), None);
    assert_eq!(stack.get_vector(), vec![30, 20, 10]);
}

#[test]
fn stack_get_mut_changes_in_place() {
    let mut stack = numbers(&[1, 2]);
    if let Some(value) = stack.get_mut(1) {
        *value = 9;
    }
    assert!(stack.get_mut(2).is_none());
    assert_eq!(stack.get_vector(), vec![2, 9]);
}

#[test]
fn stack_drop_of_too_many_does_nothing() {
    let mut stack = numbers(&[1, 2, 3]);
    stack.drop(4);
    assert_eq!(stack.len(), 3);
    stack.drop(2);
    assert_eq!(stack.get_vector(), vec![1]);
    stack.drop(0);
    assert_eq!(stack.len(), 1);
    stack.drop(1);
    assert_eq!(stack.len(), 0);
}

#[test]
fn stack_pop_gives_the_top() {
    let mut stack = numbers(&[1, 2]);
    assert_eq!(stack.pop(), Some(2));
    assert_eq!(stack.pop(), Some(1));
    assert_eq!(stack.pop(), None);
}

#[test]
fn stack_change_exchanges_by_offset() {
    let mut stack = numbers(&[1, 2, 3, 4]);
    stack.change(0, 3);
    assert_eq!(stack.get_vector(), vec![1, 3, 2, 4]);
    stack.change(1, 2);
    assert_eq!(stack.get_vector(), vec![1, 2, 3, 4]);
    stack.change(2, 2);
    assert_eq!(stack.get_vector(), vec![1, 2, 3, 4]);
    stack.change(0, 4);
    assert_eq!(stack.get_vector(), vec![1, 2, 3, 4]);
    stack.change(7, 0);
    assert_eq!(stack.get_vector(), vec![1, 2, 3, 4]);
}

#[test]
fn stack_pair_is_lower_then_top() {
    let stack = numbers(&[1, 2, 3]);
    assert_eq!(stack.pair(), Some((&2, &3)));
    assert_eq!(numbers(&[1]).pair(), None);
    assert_eq!(numbers(&[]).pair(), None);
}

#[test]
fn stack_pop_pair_is_in_insertion_order() {
    let mut stack = numbers(&[1, 2, 3]);
    assert_eq!(stack.pop_pair(), Some((2, 3)));
    assert_eq!(stack.len(), 1);
    assert_eq!(stack.pop_pair(), None);
    assert_eq!(stack.len(), 0);
}

#[test]
fn stack_clone_is_independent() {
    let mut stack = numbers(&[1]);
    let copy = stack.clone();
    stack.push(2);
    assert_eq!(copy.get_vector(), vec![1]);
}

fn mixed() -> Stack<Value> {
    let mut stack = Stack::new();
    stack.push(Value::Number(5));
    stack.push(Value::Block(Block::new(&[1, 2])));
    stack.push(Value::Slice(Slice::new(Block::new(&[3, 4, 5]))));
    stack.push(Value::Builder(Builder::new()));
    stack
}

#[test]
fn typed_reads_ask_for_the_variant() {
    let mut stack = mixed();
    assert_eq!(stack.get_number(3), Some(5));
    assert_eq!(stack.get_number(2), None);
    assert_eq!(stack.get_number(9), None);
    assert_eq!(stack.get_block(2).map(|b| b.unpack()), Some(vec![1, 2]));
    assert!(stack.get_block(3).is_none());
    assert!(stack.get_mut_slice(0).is_none());
    assert!(stack.get_mut_builder(1).is_none());
    assert!(stack.get_mut_slice(4).is_none());
    assert_eq!(stack.get_mut_slice(1).map(|s| s.len()), Some(3));
    assert_eq!(stack.get_mut_builder(0).map(|b| b.len()), Some(0));
}

#[test]
fn typed_reads_change_in_place() {
    let mut stack = mixed();
    if let Some(slice) = stack.get_mut_slice(1) {
        assert_eq!(slice.read_u8(), Some(3));
    }
    if let Some(builder) = stack.get_mut_builder(0) {
        builder.write_u8(7);
    }
    assert_eq!(stack.get_mut_slice(1).map(|s| s.len()), Some(2));
    assert_eq!(stack.get_mut_builder(0).map(|b| b.build().unpack()), Some(vec![7]));
}

#[test]
fn operate_needs_two_numbers() {
    let a = Value::Number(7);
    let b = Value::Number(3);
    let block = Value::Block(Block::empty());
    assert_eq!(operate(Some((&a, &b)), |x, y| Some(x - y)), Some(4));
    assert_eq!(operate(Some((&a, &b)), |_, _| None), None);
    assert_eq!(operate(Some((&a, &block)), |x, y| Some(x + y)), None);
    assert_eq!(operate(Some((&block, &b)), |x, y| Some(x + y)), None);
    assert_eq!(operate(None, |x, y| Some(x + y)), None);
}
