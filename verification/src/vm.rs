//! The stack machine and the modules it is built from.
use crate::vm::block::{hex_string, AsBlock, Block};
use crate::vm::builder::{framed, Builder};
use crate::vm::machine::{
    arithmetic, block_at, block_step, builder_at, builder_step, call_step, contract_step, emission,
    emitted, extended, immediate_step, jump_step, number_at, number_step, run, sends, slice_at,
    slice_step, stack_step, started, step, Machine, ValueView,
};
use crate::vm::message::{message_bytes, Init, Message, MessageType, MessageView};
use crate::vm::slice::{
    lemma_holds_appended, lemma_reads_framed, lemma_reads_u64, Slice, SliceView,
};
use crate::vm::stack::{dropped, exchanged, Stack};
use crate::vm::utils::{
    be_bytes, be_value, cond_sign, decimal_string, decimal_text, get_relative_reference, get_u16,
    get_u64, get_u8, operate, Direction,
};
use vstd::prelude::*;
use vstd::slice::slice_subrange;
use vstd::string::StringExecFns;

pub mod block;
pub mod builder;
pub mod env;
pub mod instructions;
pub mod machine;
pub mod message;
pub mod slice;
pub mod stack;
pub mod utils;

verus! {

/// The number of instructions after which `VM::run` gives up.
pub const STEP_LIMIT: u64 = 0xffff_ffff_ffff_ffff;

/// A value on the operand stack.
#[derive(Debug)]
pub enum Value {
    Number(u64),
    Block(Block),
    Slice(Slice),
    Builder(Builder),
}

impl View for Value {
    type V = ValueView;

    open spec fn view(&self) -> ValueView {
        match self {
            Value::Number(number) => ValueView::Number(*number),
            Value::Block(block) => ValueView::Block(block@),
            Value::Slice(slice) => ValueView::Slice(slice@),
            Value::Builder(builder) => ValueView::Builder(builder@),
        }
    }
}

impl Clone for Value {
    fn clone(&self) -> (value: Self)
        ensures
            value@ == self@,
    {
        match self {
            Value::Number(number) => Value::Number(*number),
            Value::Block(block) => Value::Block(block.clone()),
            Value::Slice(slice) => Value::Slice(slice.clone()),
            Value::Builder(builder) => Value::Builder(builder.clone()),
        }
    }
}

/// The views of the values of a stack, from the bottom to the top.
pub open spec fn views(values: Seq<Value>) -> Seq<ValueView> {
    values.map_values(|value: Value| value@)
}

/// The canonical encoding of a value: a tag byte, then the number as a
/// big-endian `u64` or the framed block. A slice and a builder are a tag alone.
pub open spec fn value_bytes(value: ValueView) -> Seq<u8> {
    match value {
        ValueView::Number(number) => seq![0u8] + be_bytes(number as nat, 8),
        ValueView::Block(block) => seq![1u8] + framed(block),
        ValueView::Slice(_) => seq![2u8],
        ValueView::Builder(_) => seq![3u8],
    }
}

impl AsBlock for Value {
    open spec fn encoding(&self) -> Seq<u8> {
        value_bytes(self@)
    }

    fn get_as_block(&self) -> (block: Block) {
        let mut builder = Builder::new();
        match self {
            Value::Number(number) => {
                builder.write_u8(0);
                builder.write_u64(*number);
            },
            Value::Block(block) => {
                builder.write_u8(1);
                builder.write_block_with_len(block.clone());
            },
            Value::Slice(_) => {
                builder.write_u8(2);
            },
            Value::Builder(_) => {
                builder.write_u8(3);
            },
        }
        assert(builder@ =~= value_bytes(self@));
        builder.build()
    }
}

/// The value that `bytes` begin with in the canonical encoding, if they begin
/// with one. A slice and a builder come back empty: their encoding keeps
/// nothing of what they held.
pub open spec fn parse_value(bytes: Seq<u8>) -> Option<ValueView> {
    let body = SliceView { bytes, pointer: 1 };
    if bytes.len() == 0 {
        None
    } else if bytes[0] == 0 {
        if body.can_read(8) {
            Some(ValueView::Number(be_value(body.peek(8)) as u64))
        } else {
            None
        }
    } else if bytes[0] == 1 {
        match body.read_framed().0 {
            Some(block) => Some(ValueView::Block(block)),
            None => None,
        }
    } else if bytes[0] == 2 {
        Some(ValueView::Slice(SliceView { bytes: Seq::empty(), pointer: 0 }))
    } else if bytes[0] == 3 {
        Some(ValueView::Builder(Seq::empty()))
    } else {
        None
    }
}

/// Decoding the canonical encoding of a number or of a block gives the value back.
pub proof fn lemma_value_round_trip(value: ValueView)
    requires
        value is Number || value is Block,
        value matches ValueView::Block(block) ==> block.len() <= u64::MAX,
    ensures
        parse_value(value_bytes(value)) == Some(value),
{
    let bytes = value_bytes(value);
    match value {
        ValueView::Number(number) => {
            lemma_holds_appended(seq![0u8], be_bytes(number as nat, 8));
            lemma_reads_u64(bytes, 1, number);
        },
        ValueView::Block(block) => {
            lemma_holds_appended(seq![1u8], framed(block));
            lemma_reads_framed(bytes, 1, block);
        },
        _ => {},
    }
}

/// The view of a value that may be absent.
pub open spec fn optional_value_view(value: Option<Value>) -> Option<ValueView> {
    match value {
        Some(value) => Some(value@),
        None => None,
    }
}

/// A value as text: a number in decimal, a block in hexadecimal between
/// brackets, a slice and a builder by the number of bytes left and written.
pub open spec fn value_text(value: ValueView) -> Seq<char> {
    match value {
        ValueView::Number(number) => decimal_text(number as nat),
        ValueView::Block(block) => "["@ + hex_string(block) + "]"@,
        ValueView::Slice(slice) => "SLICE "@ + decimal_text(
            (slice.bytes.len() - slice.pointer) as nat,
        ),
        ValueView::Builder(builder) => "BUILDER "@ + decimal_text(builder.len()),
    }
}

impl Value {
    /// The value as text, for people to read.
    pub fn to_string(&self) -> (text: String)
        ensures
            text@ == value_text(self@),
    {
        match self {
            Value::Number(number) => decimal_string(*number),
            Value::Block(block) => "[".to_owned().concat(block.to_string().as_str()).concat("]"),
            Value::Slice(slice) => "SLICE ".to_owned().concat(
                decimal_string(slice.len() as u64).as_str(),
            ),
            Value::Builder(builder) => "BUILDER ".to_owned().concat(
                decimal_string(builder.len() as u64).as_str(),
            ),
        }
    }

    /// Reads a value from the start of `block`; `None` where the block does
    /// not begin with the canonical encoding of a value.
    pub fn from_block(block: Block) -> (r: Option<Value>)
        ensures
            optional_value_view(r) == parse_value(block@),
    {
        let mut slice = Slice::new(block);
        let tag = slice.read_u8()?;
        if tag == 0 {
            Some(Value::Number(slice.read_u64()?))
        } else if tag == 1 {
            Some(Value::Block(slice.read_block_with_len()?))
        } else if tag == 2 {
            Some(Value::Slice(Slice::new(Block::empty())))
        } else if tag == 3 {
            Some(Value::Builder(Builder::new()))
        } else {
            None
        }
    }
}

impl Stack<Value> {
    /// The number `offset` places below the top; `None` where no number stands there.
    pub fn get_number(&self, offset: usize) -> (r: Option<u64>)
        ensures
            r == number_at(views(self@), offset as nat),
    {
        match self.get(offset) {
            Some(Value::Number(number)) => Some(*number),
            _ => None,
        }
    }

    /// A copy of the block `offset` places below the top; `None` where no block stands there.
    pub fn get_block(&self, offset: usize) -> (r: Option<Block>)
        ensures
            match r {
                Some(block) => block_at(views(self@), offset as nat) == Some(block@),
                None => block_at(views(self@), offset as nat) is None,
            },
    {
        match self.get(offset) {
            Some(Value::Block(block)) => Some(block.clone()),
            _ => None,
        }
    }

    /// The slice `offset` places below the top, to be read from in place;
    /// `None` where no slice stands there.
    pub fn get_mut_slice(&mut self, offset: usize) -> (r: Option<&mut Slice>)
        ensures
            match r {
                Some(slice) => slice_at(views(old(self)@), offset as nat) == Some(slice@) && views(
                    final(self)@,
                ) == views(old(self)@).update(
                    old(self)@.len() - 1 - offset,
                    ValueView::Slice(final(slice)@),
                ),
                None => slice_at(views(old(self)@), offset as nat) is None && final(self)@ == old(
                    self,
                )@,
            },
    {
        match self.get_mut(offset) {
            Some(Value::Slice(slice)) => Some(slice),
            _ => None,
        }
    }

    /// The builder `offset` places below the top, to be written to in place;
    /// `None` where no builder stands there.
    pub fn get_mut_builder(&mut self, offset: usize) -> (r: Option<&mut Builder>)
        ensures
            match r {
                Some(builder) => builder_at(views(old(self)@), offset as nat) == Some(builder@)
                    && views(final(self)@) == views(old(self)@).update(
                    old(self)@.len() - 1 - offset,
                    ValueView::Builder(final(builder)@),
                ),
                None => builder_at(views(old(self)@), offset as nat) is None && final(self)@
                    == old(self)@,
            },
    {
        match self.get_mut(offset) {
            Some(Value::Builder(builder)) => Some(builder),
            _ => None,
        }
    }
}

/// Computes what an arithmetic or comparing instruction gives for the lower
/// number `a` and the top `b`.
pub fn evaluate(opcode: u8, a: u64, b: u64) -> (r: Option<u64>)
    ensures
        r == arithmetic(opcode, a, b),
{
    if opcode == instructions::ADD {
        a.checked_add(b)
    } else if opcode == instructions::SUB {
        a.checked_sub(b)
    } else if opcode == instructions::MUL {
        a.checked_mul(b)
    } else if opcode == instructions::DIV {
        if b != 0 {
            Some(a / b)
        } else {
            None
        }
    } else if opcode == instructions::MOD {
        if b != 0 {
            Some(a % b)
        } else {
            None
        }
    } else if opcode == instructions::CMB {
        Some(cond_sign(a > b))
    } else if opcode == instructions::CML {
        Some(cond_sign(a < b))
    } else if opcode == instructions::CMBE {
        Some(cond_sign(a >= b))
    } else if opcode == instructions::CMLE {
        Some(cond_sign(a <= b))
    } else if opcode == instructions::CME {
        Some(cond_sign(a == b))
    } else if opcode == instructions::CMNE {
        Some(cond_sign(a != b))
    } else {
        None
    }
}

/// The registers of the machine: all of its state but the sink that takes the
/// messages it sends.
pub struct Registers {
    pc: usize,
    code: Vec<u8>,
    values: Stack<Value>,
    calls: Stack<usize>,
    data: Block,
    message: Message,
    stopped: bool,
}

impl View for Registers {
    type V = Machine;

    closed spec fn view(&self) -> Machine {
        Machine {
            pc: self.pc,
            code: self.code@,
            values: views(self.values@),
            calls: self.calls@,
            data: self.data@,
            message: self.message@,
            stopped: self.stopped,
        }
    }
}

impl Registers {
    /// Passes `length` bytes of code and hands them out, or fails where the
    /// code does not hold them.
    fn next(&mut self, length: usize) -> (r: Option<&[u8]>)
        ensures
            match r {
                Some(bytes) => old(self)@.can_fetch(length as nat) && bytes@ == old(
                    self,
                )@.operand(length as nat) && final(self)@ == old(self)@.past(length as nat),
                None => !old(self)@.can_fetch(length as nat) && final(self)@ == old(self)@,
            },
    {
        if self.pc > self.code.len() || length > self.code.len() - self.pc {
            return None;
        }
        let start = self.pc;
        self.pc = start + length;
        Some(slice_subrange(self.code.as_slice(), start, start + length))
    }

    /// Passes eight bytes of code and reads them as a big-endian `u64`.
    fn next_u64(&mut self) -> (r: Option<u64>)
        ensures
            match r {
                Some(value) => old(self)@.can_fetch(8) && value == be_value(old(self)@.operand(8))
                    && final(self)@ == old(self)@.past(8),
                None => !old(self)@.can_fetch(8) && final(self)@ == old(self)@,
            },
    {
        match self.next(8) {
            Some(bytes) => get_u64(bytes),
            None => None,
        }
    }

    /// Passes one byte of code and reads it.
    fn next_u8(&mut self) -> (r: Option<u8>)
        ensures
            match r {
                Some(value) => old(self)@.can_fetch(1) && value == old(self)@.code[old(
                    self,
                )@.pc as int] && final(self)@ == old(self)@.past(1),
                None => !old(self)@.can_fetch(1) && final(self)@ == old(self)@,
            },
    {
        match self.next(1) {
            Some(bytes) => get_u8(bytes),
            None => None,
        }
    }

    /// Passes two bytes of code and reads them as a big-endian `u16`.
    fn next_u16(&mut self) -> (r: Option<u16>)
        ensures
            match r {
                Some(value) => old(self)@.can_fetch(2) && value == be_value(old(self)@.operand(2))
                    && final(self)@ == old(self)@.past(2),
                None => !old(self)@.can_fetch(2) && final(self)@ == old(self)@,
            },
    {
        match self.next(2) {
            Some(bytes) => get_u16(bytes),
            None => None,
        }
    }

    /// `IPUSH64`, `IPUSH8`, `SPUSH`, `BPUSH`, `DROPN`, `CHG`.
    fn immediate(&mut self, opcode: u8)
        ensures
            final(self)@ == immediate_step(old(self)@, opcode),
    {
        if opcode == instructions::IPUSH64 {
            if let Some(value) = self.next_u64() {
                self.values.push(Value::Number(value));
                assert(views(self.values@) =~= views(old(self).values@).push(
                    ValueView::Number(value),
                ));
            }
        } else if opcode == instructions::IPUSH8 {
            if let Some(value) = self.next_u8() {
                self.values.push(Value::Number(value as u64));
                assert(views(self.values@) =~= views(old(self).values@).push(
                    ValueView::Number(value as u64),
                ));
            }
        } else if opcode == instructions::SPUSH {
            if let Some(offset) = self.next_u16() {
                let copy = match self.values.get(offset as usize) {
                    Some(value) => Some(value.clone()),
                    None => None,
                };
                if let Some(value) = copy {
                    self.values.push(value);
                    assert(views(self.values@) =~= views(old(self).values@).push(value@));
                }
            }
        } else if opcode == instructions::DROPN {
            if let Some(length) = self.next_u16() {
                self.values.drop(length as usize);
                assert(views(self.values@) =~= dropped(
                    views(old(self).values@),
                    length as nat,
                ));
            }
        } else if opcode == instructions::CHG {
            let first = self.next_u16();
            let second = self.next_u16();
            assert(self.code@.len() == self.code.len());
            if let (Some(first), Some(second)) = (first, second) {
                assert(old(self)@.past(2).past(2) == old(self)@.past(4));
                self.values.change(first as usize, second as usize);
                assert(views(self.values@) =~= exchanged(
                    views(old(self).values@),
                    first as nat,
                    second as nat,
                ));
            }
        } else if opcode == instructions::BPUSH {
            if let Some(size) = self.next_u64() {
                assert(self.code@.len() == self.code.len());
                if size <= usize::MAX as u64 {
                    let block = match self.next(size as usize) {
                        Some(bytes) => Some(Block::new(bytes)),
                        None => None,
                    };
                    if let Some(block) = block {
                        self.values.push(Value::Block(block));
                        assert(views(self.values@) =~= views(old(self).values@).push(
                            ValueView::Block(block@),
                        ));
                    }
                }
            }
        }
    }

    /// `BHASH`, `BLEN`, `MKSLICE`.
    fn block(&mut self, opcode: u8)
        ensures
            final(self)@ == old(self)@.with_values(block_step(old(self)@.values, opcode)),
    {
        if let Some(block) = self.values.get_block(0) {
            if opcode == instructions::BHASH {
                let digest = block.hash();
                self.values.pop();
                self.values.push(Value::Block(digest));
                assert(views(self.values@) =~= block_step(views(old(self).values@), opcode));
            } else if opcode == instructions::BLEN {
                self.values.push(Value::Number(block.len() as u64));
                assert(views(self.values@) =~= block_step(views(old(self).values@), opcode));
            } else if opcode == instructions::MKSLICE {
                self.values.pop();
                self.values.push(Value::Slice(Slice::new(block)));
                assert(views(self.values@) =~= block_step(views(old(self).values@), opcode));
            }
        }
    }

    /// `IREAD64`, `IREAD8`, `BREAD`, `SLLEN`.
    fn slice(&mut self, opcode: u8)
        ensures
            final(self)@ == old(self)@.with_values(slice_step(old(self)@.values, opcode)),
    {
        if opcode == instructions::IREAD64 {
            if let Some(slice) = self.values.get_mut_slice(0) {
                if let Some(value) = slice.read_u64() {
                    self.values.push(Value::Number(value));
                    assert(views(self.values@) =~= slice_step(views(old(self).values@), opcode));
                } else {
                    assert(views(self.values@) =~= views(old(self).values@));
                }
            }
        } else if opcode == instructions::IREAD8 {
            if let Some(slice) = self.values.get_mut_slice(0) {
                if let Some(value) = slice.read_u8() {
                    self.values.push(Value::Number(value as u64));
                    assert(views(self.values@) =~= slice_step(views(old(self).values@), opcode));
                } else {
                    assert(views(self.values@) =~= views(old(self).values@));
                }
            }
        } else if opcode == instructions::BREAD {
            if let Some(length) = self.values.get_number(0) {
                if let Some(slice) = self.values.get_mut_slice(1) {
                    let left = slice.len();
                    if length <= left as u64 {
                        if let Some(block) = slice.read_block(length as usize) {
                            self.values.pop();
                            self.values.push(Value::Block(block));
                            assert(views(self.values@) =~= slice_step(
                                views(old(self).values@),
                                opcode,
                            ));
                        } else {
                            assert(views(self.values@) =~= views(old(self).values@));
                        }
                    } else {
                        assert(views(self.values@) =~= views(old(self).values@));
                    }
                }
            }
        } else if opcode == instructions::SLLEN {
            if let Some(slice) = self.values.get_mut_slice(0) {
                let left = slice.len();
                assert(views(self.values@) =~= views(old(self).values@));
                self.values.push(Value::Number(left as u64));
                assert(views(self.values@) =~= slice_step(views(old(self).values@), opcode));
            }
        }
    }

    /// `MKBUILDER`, `IWRITE64`, `IWRITE8`, `BWRITE`, `BUILD`, `BLLEN`.
    fn builder(&mut self, opcode: u8)
        ensures
            final(self)@ == old(self)@.with_values(builder_step(old(self)@.values, opcode)),
    {
        if opcode == instructions::MKBUILDER {
            self.values.push(Value::Builder(Builder::new()));
            assert(views(self.values@) =~= builder_step(views(old(self).values@), opcode));
        } else if opcode == instructions::IWRITE8 || opcode == instructions::IWRITE64 {
            if let Some(value) = self.values.get_number(0) {
                if let Some(builder) = self.values.get_mut_builder(1) {
                    if opcode == instructions::IWRITE8 {
                        builder.write_u8((value % 256) as u8);
                    } else {
                        builder.write_u64(value);
                    }
                    self.values.pop();
                    assert(views(self.values@) =~= builder_step(views(old(self).values@), opcode));
                }
            }
        } else if opcode == instructions::BWRITE {
            if let Some(value) = self.values.get_block(0) {
                if let Some(builder) = self.values.get_mut_builder(1) {
                    builder.write_block(value);
                    self.values.pop();
                    assert(views(self.values@) =~= builder_step(views(old(self).values@), opcode));
                }
            }
        } else if opcode == instructions::BUILD {
            if let Some(builder) = self.values.get_mut_builder(0) {
                let block = builder.build();
                assert(views(self.values@) =~= views(old(self).values@));
                self.values.pop();
                self.values.push(Value::Block(block));
                assert(views(self.values@) =~= builder_step(views(old(self).values@), opcode));
            }
        } else if opcode == instructions::BLLEN {
            if let Some(builder) = self.values.get_mut_builder(0) {
                let length = builder.len();
                assert(views(self.values@) =~= views(old(self).values@));
                self.values.push(Value::Number(length as u64));
                assert(views(self.values@) =~= builder_step(views(old(self).values@), opcode));
            }
        }
    }

    /// The arithmetic and comparing instructions, and `INC`.
    fn number(&mut self, opcode: u8)
        ensures
            final(self)@ == old(self)@.with_values(number_step(old(self)@.values, opcode)),
    {
        if opcode == instructions::INC {
            if let Some(Value::Number(number)) = self.values.get_mut(0) {
                if let Some(next) = number.checked_add(1) {
                    *number = next;
                }
            }
            assert(views(self.values@) =~= number_step(views(old(self).values@), opcode));
        } else {
            let apply = |a: u64, b: u64| -> (r: Option<u64>)
                ensures
                    r == arithmetic(opcode, a, b),
                {
                    evaluate(opcode, a, b)
                };
            let result = operate(self.values.pair(), apply);
            if let Some(value) = result {
                self.values.pop_pair();
                self.values.push(Value::Number(value));
                assert(views(self.values@) =~= number_step(views(old(self).values@), opcode));
            }
        }
    }

    /// Jumps by the distance that `reference` denotes.
    fn relative(&mut self, reference: u16)
        ensures
            final(self)@ == old(self)@.jumped(reference),
    {
        let (direction, offset) = get_relative_reference(reference);
        match direction {
            Direction::Forward => {
                if let Some(pc) = self.pc.checked_add(offset as usize) {
                    self.pc = pc;
                }
            },
            Direction::Backward => {
                if let Some(pc) = self.pc.checked_sub(offset as usize) {
                    self.pc = pc;
                }
            },
        }
    }

    /// `JMP`, `JMT`, `JMF`, `RJMP`, `RJMT`, `RJMF`.
    fn jump(&mut self, opcode: u8)
        ensures
            final(self)@ == jump_step(old(self)@, opcode),
    {
        if opcode == instructions::JMP {
            if let Some(reference) = self.next_u64() {
                self.pc = #[verifier::truncate] (reference as usize);
            }
        } else if opcode == instructions::JMT || opcode == instructions::JMF {
            if let Some(reference) = self.next_u64() {
                if let Some(value) = self.values.get_number(0) {
                    if (value != 0) == (opcode == instructions::JMT) {
                        self.pc = #[verifier::truncate] (reference as usize);
                    }
                    self.values.drop(1);
                    assert(views(self.values@) =~= views(old(self).values@).drop_last());
                }
            }
        } else if opcode == instructions::RJMP {
            if let Some(reference) = self.next_u16() {
                self.relative(reference);
            }
        } else if opcode == instructions::RJMT || opcode == instructions::RJMF {
            if let Some(reference) = self.next_u16() {
                if let Some(value) = self.values.get_number(0) {
                    if (value != 0) == (opcode == instructions::RJMT) {
                        self.relative(reference);
                    }
                    self.values.drop(1);
                    assert(views(self.values@) =~= views(old(self).values@).drop_last());
                }
            }
        }
    }

    /// `CALL`, `RET`, `HALT`.
    fn call(&mut self, opcode: u8)
        ensures
            final(self)@ == call_step(old(self)@, opcode),
    {
        if opcode == instructions::CALL {
            if let Some(ip) = self.next_u64() {
                self.calls.push(self.pc);
                self.pc = #[verifier::truncate] (ip as usize);
            }
        } else if opcode == instructions::RET {
            if let Some(ip) = self.calls.pop() {
                self.pc = ip;
                assert(self.calls@ =~= old(self).calls@.drop_last());
            }
        } else if opcode == instructions::HALT {
            self.stopped = true;
        }
    }

    /// `LDATA`, `SDATA`, `MESSAGE`, and what `SEND` does to the machine. Gives
    /// the message that `SEND` makes, with the time of the system clock on it.
    fn contract(&mut self, opcode: u8) -> (out: Option<Message>)
        ensures
            final(self)@ == contract_step(old(self)@, opcode),
            match out {
                Some(message) => emission(old(self)@, opcode) == Some(message@.at(0)),
                None => emission(old(self)@, opcode) is None,
            },
    {
        if opcode == instructions::LDATA {
            self.values.push(Value::Block(self.data.clone()));
            assert(views(self.values@) =~= views(old(self).values@).push(
                ValueView::Block(self.data@),
            ));
            None
        } else if opcode == instructions::SDATA {
            if let Some(block) = self.values.get_block(0) {
                self.data = block;
                self.values.pop();
                assert(views(self.values@) =~= views(old(self).values@).drop_last());
            }
            None
        } else if opcode == instructions::MESSAGE {
            self.values.push(Value::Block(self.message.get_as_block()));
            assert(views(self.values@) =~= views(old(self).values@).push(
                ValueView::Block(message_bytes(self.message@)),
            ));
            None
        } else if opcode == instructions::SEND {
            let receiver = self.values.get_block(3);
            let init_block = self.values.get_block(2);
            let opcode = self.values.get_number(1);
            let body = self.values.get_block(0);
            match (receiver, init_block, opcode, body) {
                (Some(receiver), Some(init_block), Some(opcode), Some(body)) => {
                    let init = Init::from_block(init_block);
                    let message = Message::new(
                        MessageType::Internal,
                        body,
                        opcode,
                        self.message.receiver.clone(),
                        receiver,
                        init,
                    );
                    self.values.drop(4);
                    assert(views(self.values@) =~= dropped(
                        views(old(self).values@),
                        4,
                    ));
                    Some(message)
                },
                _ => None,
            }
        } else {
            None
        }
    }

    /// Carries out the instruction `opcode`, whose opcode byte the program
    /// counter has passed, and gives the message that it sends, if it sends one.
    fn step(&mut self, opcode: u8) -> (out: Option<Message>)
        ensures
            final(self)@ == step(old(self)@, opcode),
            match out {
                Some(message) => emission(old(self)@, opcode) == Some(message@.at(0)),
                None => emission(old(self)@, opcode) is None,
            },
    {
        if opcode <= instructions::CHG {
            self.immediate(opcode);
            None
        } else if opcode == instructions::SWAP {
            self.values.change(0, 1);
            assert(views(self.values@) =~= stack_step(views(old(self).values@), opcode));
            None
        } else if opcode <= instructions::MKSLICE {
            self.block(opcode);
            None
        } else if opcode <= instructions::SLLEN {
            self.slice(opcode);
            None
        } else if opcode <= instructions::BLLEN {
            self.builder(opcode);
            None
        } else if opcode <= instructions::CMNE {
            self.number(opcode);
            None
        } else if opcode <= instructions::RJMF {
            self.jump(opcode);
            None
        } else if opcode <= instructions::HALT {
            self.call(opcode);
            None
        } else {
            self.contract(opcode)
        }
    }
}

/// The views of a sequence of messages.
pub open spec fn message_views(messages: Seq<Message>) -> Seq<MessageView> {
    messages.map_values(|message: Message| message@)
}

/// Something that takes the messages a machine sends.
pub trait SendMessage {
    /// The messages taken so far, the first one first.
    spec fn sent(&self) -> Seq<MessageView>;

    /// Takes one more message.
    fn send_message(&mut self, message: Message)
        ensures
            final(self).sent() == old(self).sent().push(message@),
    ;
}

impl SendMessage for Vec<Message> {
    open spec fn sent(&self) -> Seq<MessageView> {
        message_views(self@)
    }

    fn send_message(&mut self, message: Message) {
        self.push(message);
        assert(message_views(self@) =~= message_views(old(self)@).push(message@));
    }
}

/// The machine: registers, and the sink that takes what the program sends.
pub struct VM<'a, S: SendMessage> {
    pub registers: Registers,
    pub send_message: &'a mut S,
}

impl<'a, S: SendMessage> View for VM<'a, S> {
    type V = Machine;

    open spec fn view(&self) -> Machine {
        self.registers@
    }
}

impl<'a, S: SendMessage> VM<'a, S> {
    /// The messages that the sink holds.
    pub open spec fn sent(&self) -> Seq<MessageView> {
        self.send_message.sent()
    }

    /// A machine that will run `code` from `pc` for `message`, with `data` as
    /// the data of the contract and empty stacks. It counts as stopped until
    /// it is run.
    pub fn new(code: Vec<u8>, pc: usize, data: Block, message: Message, send_message: &'a mut S) -> (vm: Self)
        ensures
            vm@ == (Machine {
                pc,
                code: code@,
                values: Seq::empty(),
                calls: Seq::empty(),
                data: data@,
                message: message@,
                stopped: true,
            }),
            vm.sent() == old(send_message).sent(),
            *final(send_message) == *final(vm.send_message),
    {
        let vm = Self {
            registers: Registers {
                pc,
                stopped: true,
                code,
                values: Stack::new(),
                calls: Stack::new(),
                data,
                message,
            },
            send_message,
        };
        assert(views(vm.registers.values@) =~= Seq::empty());
        vm
    }

    /// Carries out the instruction `opcode`, whose opcode byte the program
    /// counter has passed. The machine changes as `step` says; what the
    /// instruction sends goes to the sink, with the time of the system clock.
    pub fn execute(&mut self, opcode: u8)
        ensures
            final(self)@ == step(old(self)@, opcode),
            extended(old(self).sent(), final(self).sent(), emitted(old(self)@, opcode)),
            *final(final(self).send_message) == *final(old(self).send_message),
    {
        let out = self.registers.step(opcode);
        if let Some(message) = out {
            self.send_message.send_message(message);
            assert(self.sent().skip(old(self).sent().len() as int) =~= seq![message@]);
            assert(self.sent().take(old(self).sent().len() as int) =~= old(self).sent());
        } else {
            assert(self.sent().skip(old(self).sent().len() as int) =~= Seq::empty());
            assert(self.sent().take(old(self).sent().len() as int) =~= old(self).sent());
        }
    }

    /// Passes `length` bytes of code and hands them out, or fails where the
    /// code does not hold them.
    pub fn next(&mut self, length: usize) -> (r: Option<&[u8]>)
        ensures
            match r {
                Some(bytes) => old(self)@.can_fetch(length as nat) && bytes@ == old(
                    self,
                )@.operand(length as nat) && final(self)@ == old(self)@.past(length as nat),
                None => !old(self)@.can_fetch(length as nat) && final(self)@ == old(self)@,
            },
            final(self).sent() == old(self).sent(),
            *final(final(self).send_message) == *final(old(self).send_message),
    {
        self.registers.next(length)
    }

    /// Passes eight bytes of code and reads them as a big-endian `u64`.
    pub fn next_u64(&mut self) -> (r: Option<u64>)
        ensures
            match r {
                Some(value) => old(self)@.can_fetch(8) && value == be_value(old(self)@.operand(8))
                    && final(self)@ == old(self)@.past(8),
                None => !old(self)@.can_fetch(8) && final(self)@ == old(self)@,
            },
            final(self).sent() == old(self).sent(),
            *final(final(self).send_message) == *final(old(self).send_message),
    {
        self.registers.next_u64()
    }

    /// Passes one byte of code and reads it.
    pub fn next_u8(&mut self) -> (r: Option<u8>)
        ensures
            match r {
                Some(value) => old(self)@.can_fetch(1) && value == old(self)@.code[old(
                    self,
                )@.pc as int] && final(self)@ == old(self)@.past(1),
                None => !old(self)@.can_fetch(1) && final(self)@ == old(self)@,
            },
            final(self).sent() == old(self).sent(),
            *final(final(self).send_message) == *final(old(self).send_message),
    {
        self.registers.next_u8()
    }

    /// Passes two bytes of code and reads them as a big-endian `u16`.
    pub fn next_u16(&mut self) -> (r: Option<u16>)
        ensures
            match r {
                Some(value) => old(self)@.can_fetch(2) && value == be_value(old(self)@.operand(2))
                    && final(self)@ == old(self)@.past(2),
                None => !old(self)@.can_fetch(2) && final(self)@ == old(self)@,
            },
            final(self).sent() == old(self).sent(),
            *final(final(self).send_message) == *final(old(self).send_message),
    {
        self.registers.next_u16()
    }

    /// Runs the program for at most `steps` instructions and says whether the
    /// machine came to rest: on `HALT`, or where no opcode was left to read.
    /// The messages that the program sends go to the sink in the order in
    /// which it sends them.
    pub fn run_for(&mut self, steps: u64) -> (rest: bool)
        ensures
            final(self)@ == run(started(old(self)@), steps as nat),
            rest == final(self)@.stopped,
            extended(
                old(self).sent(),
                final(self).sent(),
                sends(started(old(self)@), steps as nat),
            ),
            *final(final(self).send_message) == *final(old(self).send_message),
    {
        self.registers.stopped = false;
        let ghost start = self@;
        let ghost before = self.sent();
        let ghost plan = sends(start, steps as nat);
        let ghost mut done: nat = 0;
        let mut left = steps;
        proof {
            assert(plan.skip(0) =~= plan);
        }
        while left > 0 && !self.registers.stopped
            invariant
                run(self@, left as nat) == run(start, steps as nat),
                self.sent().len() == before.len() + done,
                done <= plan.len(),
                forall|i: int| 0 <= i < before.len() ==> self.sent()[i] == before[i],
                forall|j: int|
                    before.len() <= j < before.len() + done ==> #[trigger] self.sent()[j]
                        == plan[j - before.len()].at(self.sent()[j].timestamp),
                plan.skip(done as int) == sends(self@, left as nat),
                *final(self.send_message) == *final(old(self).send_message),
            decreases left,
        {
            let ghost machine = self@;
            let ghost sent = self.sent();
            match self.registers.next_u8() {
                Some(opcode) => {
                    self.execute(opcode);
                    proof {
                        let sending = emitted(machine.past(1), opcode);
                        let rest = sends(step(machine.past(1), opcode), (left - 1) as nat);
                        assert(plan.skip(done as int) == sending + rest);
                        assert(self.sent().take(sent.len() as int) == sent);
                        assert forall|i: int| 0 <= i < sent.len() implies self.sent()[i]
                            == sent[i] by {
                            assert(self.sent().take(sent.len() as int)[i] == self.sent()[i]);
                        }
                        if sending.len() == 1 {
                            assert((sending + rest).len() >= 1);
                            assert(done < plan.len());
                            assert(plan[done as int] == plan.skip(done as int)[0]);
                            assert((sending + rest)[0] == sending[0]);
                            assert(self.sent().skip(sent.len() as int)[0] == self.sent()[sent.len() as int]);
                            assert(self.sent()[sent.len() as int] == plan[done as int].at(
                                self.sent()[sent.len() as int].timestamp,
                            ));
                            assert(plan.skip(done as int + 1) =~= rest) by {
                                assert forall|i: int| 0 <= i < rest.len() implies plan.skip(
                                    done as int + 1,
                                )[i] == rest[i] by {
                                    assert(plan.skip(done as int)[i + 1] == rest[i]);
                                }
                            }
                            done = done + 1;
                        } else {
                            assert(sending + rest =~= rest);
                        }
                        assert forall|j: int|
                            before.len() <= j < before.len() + done implies #[trigger] self.sent()[j]
                            == plan[j - before.len()].at(self.sent()[j].timestamp) by {
                            if j < sent.len() {
                                assert(self.sent()[j] == sent[j]);
                            }
                        }
                    }
                },
                None => {
                    self.registers.stopped = true;
                },
            }
            left -= 1;
        }
        proof {
            assert(sends(self@, left as nat) =~= Seq::empty());
            assert(done == plan.len());
            assert(self.sent().take(before.len() as int) =~= before);
            let tail = self.sent().skip(before.len() as int);
            assert forall|i: int| 0 <= i < tail.len() implies #[trigger] tail[i] == plan[i].at(
                tail[i].timestamp,
            ) by {
                let j = before.len() + i;
                assert(tail[i] == self.sent()[j]);
            }
        }
        self.registers.stopped
    }

    /// Runs the program until the machine comes to rest, for at most
    /// `STEP_LIMIT` instructions.
    pub fn run(&mut self)
        ensures
            final(self)@ == run(started(old(self)@), STEP_LIMIT as nat),
            extended(
                old(self).sent(),
                final(self).sent(),
                sends(started(old(self)@), STEP_LIMIT as nat),
            ),
            *final(final(self).send_message) == *final(old(self).send_message),
    {
        self.run_for(STEP_LIMIT);
    }

    /// Copies of the values on the operand stack, from the bottom to the top.
    pub fn stack(&self) -> (values: Vec<Value>)
        ensures
            views(values@) == self@.values,
    {
        let mut values: Vec<Value> = Vec::new();
        let len = self.registers.values.len();
        let mut i: usize = 0;
        while i < len
            invariant
                len == self.registers.values@.len(),
                i <= len,
                values@.len() == i,
                forall|k: int| 0 <= k < i ==> (#[trigger] values@[k])@ == self.registers.values@[k]@,
            decreases len - i,
        {
            match self.registers.values.get(len - 1 - i) {
                Some(value) => {
                    values.push(value.clone());
                },
                None => {},
            }
            i += 1;
        }
        assert(views(values@) =~= views(self.registers.values@));
        values
    }

    /// A copy of the data of the contract.
    pub fn get_data(&self) -> (data: Block)
        ensures
            data@ == self@.data,
    {
        self.registers.data.clone()
    }
}

} // verus!
