//! What each instruction does, as functions on the state of the machine.
use crate::vm::block::sha256;
use crate::vm::instructions;
use crate::vm::message::{message_bytes, parse_init, MessageType, MessageView};
use crate::vm::slice::SliceView;
use crate::vm::stack::{dropped, exchanged, from_top};
use crate::vm::utils::{be_bytes, be_value, relative_reference, sign, Direction};
use vstd::prelude::*;

verus! {

/// What a value on the operand stack is.
pub enum ValueView {
    Number(u64),
    Block(Seq<u8>),
    Slice(SliceView),
    Builder(Seq<u8>),
}

/// The number `offset` places below the top, if a number stands there.
pub open spec fn number_at(values: Seq<ValueView>, offset: nat) -> Option<u64> {
    match from_top(values, offset) {
        Some(ValueView::Number(number)) => Some(number),
        _ => None,
    }
}

/// The block `offset` places below the top, if a block stands there.
pub open spec fn block_at(values: Seq<ValueView>, offset: nat) -> Option<Seq<u8>> {
    match from_top(values, offset) {
        Some(ValueView::Block(block)) => Some(block),
        _ => None,
    }
}

/// The slice `offset` places below the top, if a slice stands there.
pub open spec fn slice_at(values: Seq<ValueView>, offset: nat) -> Option<SliceView> {
    match from_top(values, offset) {
        Some(ValueView::Slice(slice)) => Some(slice),
        _ => None,
    }
}

/// The builder `offset` places below the top, if a builder stands there.
pub open spec fn builder_at(values: Seq<ValueView>, offset: nat) -> Option<Seq<u8>> {
    match from_top(values, offset) {
        Some(ValueView::Builder(builder)) => Some(builder),
        _ => None,
    }
}

/// `values` with `value` in the place `offset` places below the top.
pub open spec fn placed(values: Seq<ValueView>, offset: nat, value: ValueView) -> Seq<ValueView> {
    values.update(values.len() - 1 - offset, value)
}

/// The instructions that look at a block on top: `BHASH`, `BLEN`, `MKSLICE`.
pub open spec fn block_step(values: Seq<ValueView>, opcode: u8) -> Seq<ValueView> {
    match block_at(values, 0) {
        Some(block) => if opcode == instructions::BHASH {
            placed(values, 0, ValueView::Block(sha256(block)))
        } else if opcode == instructions::BLEN {
            values.push(ValueView::Number(block.len() as u64))
        } else if opcode == instructions::MKSLICE {
            placed(values, 0, ValueView::Slice(SliceView { bytes: block, pointer: 0 }))
        } else {
            values
        },
        None => values,
    }
}

/// The instructions that read from a slice: `IREAD64`, `IREAD8` and `SLLEN`
/// with the slice on top, `BREAD` with the slice under the length. A read
/// past the end of the slice changes nothing.
pub open spec fn slice_step(values: Seq<ValueView>, opcode: u8) -> Seq<ValueView> {
    if opcode == instructions::BREAD {
        match (number_at(values, 0), slice_at(values, 1)) {
            (Some(length), Some(slice)) => if slice.can_read(length as nat) {
                placed(
                    placed(values, 1, ValueView::Slice(slice.advance(length as nat))),
                    0,
                    ValueView::Block(slice.peek(length as nat)),
                )
            } else {
                values
            },
            _ => values,
        }
    } else {
        match slice_at(values, 0) {
            Some(slice) => if opcode == instructions::IREAD64 {
                if slice.can_read(8) {
                    placed(values, 0, ValueView::Slice(slice.advance(8))).push(
                        ValueView::Number(be_value(slice.peek(8)) as u64),
                    )
                } else {
                    values
                }
            } else if opcode == instructions::IREAD8 {
                if slice.can_read(1) {
                    placed(values, 0, ValueView::Slice(slice.advance(1))).push(
                        ValueView::Number(slice.bytes[slice.pointer as int] as u64),
                    )
                } else {
                    values
                }
            } else if opcode == instructions::SLLEN {
                values.push(ValueView::Number((slice.bytes.len() - slice.pointer) as u64))
            } else {
                values
            },
            None => values,
        }
    }
}

/// The instructions that work on a builder: `MKBUILDER`; `BUILD` and `BLLEN`
/// with the builder on top; `IWRITE64`, `IWRITE8` and `BWRITE` with the
/// builder under what is written, which is popped.
pub open spec fn builder_step(values: Seq<ValueView>, opcode: u8) -> Seq<ValueView> {
    if opcode == instructions::MKBUILDER {
        values.push(ValueView::Builder(Seq::empty()))
    } else if opcode == instructions::BUILD {
        match builder_at(values, 0) {
            Some(builder) => placed(values, 0, ValueView::Block(builder)),
            None => values,
        }
    } else if opcode == instructions::BLLEN {
        match builder_at(values, 0) {
            Some(builder) => values.push(ValueView::Number(builder.len() as u64)),
            None => values,
        }
    } else if opcode == instructions::BWRITE {
        match (block_at(values, 0), builder_at(values, 1)) {
            (Some(block), Some(builder)) => placed(
                values,
                1,
                ValueView::Builder(builder + block),
            ).drop_last(),
            _ => values,
        }
    } else if opcode == instructions::IWRITE64 || opcode == instructions::IWRITE8 {
        match (number_at(values, 0), builder_at(values, 1)) {
            (Some(number), Some(builder)) => placed(
                values,
                1,
                ValueView::Builder(
                    if opcode == instructions::IWRITE64 {
                        builder + be_bytes(number as nat, 8)
                    } else {
                        builder.push((number % 256) as u8)
                    },
                ),
            ).drop_last(),
            _ => values,
        }
    } else {
        values
    }
}

/// What an arithmetic or comparing instruction computes from the lower number
/// `a` and the top `b`. A sum, difference or product that does not fit in a
/// `u64`, and a division by zero, give `None`.
pub open spec fn arithmetic(opcode: u8, a: u64, b: u64) -> Option<u64> {
    if opcode == instructions::ADD {
        if a + b <= u64::MAX {
            Some((a + b) as u64)
        } else {
            None
        }
    } else if opcode == instructions::SUB {
        if b <= a {
            Some((a - b) as u64)
        } else {
            None
        }
    } else if opcode == instructions::MUL {
        if a * b <= u64::MAX {
            Some((a * b) as u64)
        } else {
            None
        }
    } else if opcode == instructions::DIV {
        if b != 0 {
            Some(a / b)
        } else {
            None
        }
    } else if opcode == instructions::MOD {
        if b != 0 {
            Some(a % b)
        } else {
            None
        }
    } else if opcode == instructions::CMB {
        Some(sign(a > b))
    } else if opcode == instructions::CML {
        Some(sign(a < b))
    } else if opcode == instructions::CMBE {
        Some(sign(a >= b))
    } else if opcode == instructions::CMLE {
        Some(sign(a <= b))
    } else if opcode == instructions::CME {
        Some(sign(a == b))
    } else if opcode == instructions::CMNE {
        Some(sign(a != b))
    } else {
        None
    }
}

/// The two topmost values, where both are numbers: the lower one first.
pub open spec fn operands(values: Seq<ValueView>) -> Option<(u64, u64)> {
    match (number_at(values, 1), number_at(values, 0)) {
        (Some(a), Some(b)) => Some((a, b)),
        _ => None,
    }
}

/// The arithmetic and comparing instructions, and `INC`. Two numbers on top
/// are replaced by the result; where there is no result, or the two topmost
/// values are not both numbers, nothing changes.
pub open spec fn number_step(values: Seq<ValueView>, opcode: u8) -> Seq<ValueView> {
    if opcode == instructions::INC {
        match number_at(values, 0) {
            Some(number) => if number < u64::MAX {
                placed(values, 0, ValueView::Number((number + 1) as u64))
            } else {
                values
            },
            None => values,
        }
    } else {
        match operands(values) {
            Some((a, b)) => match arithmetic(opcode, a, b) {
                Some(result) => values.take(values.len() - 2).push(ValueView::Number(result)),
                None => values,
            },
            None => values,
        }
    }
}

/// The instructions that take no operand from the code and touch only the
/// operand stack.
pub open spec fn stack_step(values: Seq<ValueView>, opcode: u8) -> Seq<ValueView> {
    if opcode == instructions::SWAP {
        exchanged(values, 0, 1)
    } else if opcode == instructions::BHASH || opcode == instructions::BLEN || opcode
        == instructions::MKSLICE {
        block_step(values, opcode)
    } else if instructions::IREAD64 <= opcode <= instructions::SLLEN {
        slice_step(values, opcode)
    } else if instructions::MKBUILDER <= opcode <= instructions::BLLEN {
        builder_step(values, opcode)
    } else if instructions::ADD <= opcode <= instructions::CMNE {
        number_step(values, opcode)
    } else {
        values
    }
}

/// The state of the machine between two instructions.
pub struct Machine {
    /// The offset in the code of the next byte to read.
    pub pc: usize,
    pub code: Seq<u8>,
    /// The operand stack, from the bottom to the top.
    pub values: Seq<ValueView>,
    /// The return addresses, the latest last.
    pub calls: Seq<usize>,
    /// The data of the contract.
    pub data: Seq<u8>,
    /// The message that is being served.
    pub message: MessageView,
    pub stopped: bool,
}

impl Machine {
    /// Whether `n` more bytes of code stand at the program counter.
    pub open spec fn can_fetch(self, n: nat) -> bool {
        self.pc + n <= self.code.len()
    }

    /// The `n` bytes of code at the program counter.
    pub open spec fn operand(self, n: nat) -> Seq<u8> {
        self.code.subrange(self.pc as int, self.pc + n)
    }

    /// The machine with the program counter `n` bytes further.
    pub open spec fn past(self, n: nat) -> Machine {
        Machine { pc: (self.pc + n) as usize, ..self }
    }

    /// The machine with the program counter at `pc`.
    pub open spec fn at(self, pc: usize) -> Machine {
        Machine { pc, ..self }
    }

    /// The machine with another operand stack.
    pub open spec fn with_values(self, values: Seq<ValueView>) -> Machine {
        Machine { values, ..self }
    }

    /// The machine after a relative jump by `reference`: forward by the
    /// distance, or backward where the top bit is set. A jump that would leave
    /// the range of the program counter is not taken.
    pub open spec fn jumped(self, reference: u16) -> Machine {
        let (direction, distance) = relative_reference(reference);
        match direction {
            Direction::Forward => if self.pc + distance <= usize::MAX {
                self.at((self.pc + distance) as usize)
            } else {
                self
            },
            Direction::Backward => if distance <= self.pc {
                self.at((self.pc - distance) as usize)
            } else {
                self
            },
        }
    }
}

/// The instructions that take an operand from the code and work on the operand
/// stack: `IPUSH64`, `IPUSH8`, `SPUSH`, `BPUSH`, `DROPN`, `CHG`. An operand
/// that the code does not hold leaves the machine as it is; so does the second
/// operand of `CHG`, behind the first.
pub open spec fn immediate_step(m: Machine, opcode: u8) -> Machine {
    if opcode == instructions::IPUSH64 {
        if m.can_fetch(8) {
            m.past(8).with_values(m.values.push(ValueView::Number(be_value(m.operand(8)) as u64)))
        } else {
            m
        }
    } else if opcode == instructions::IPUSH8 {
        if m.can_fetch(1) {
            m.past(1).with_values(m.values.push(ValueView::Number(m.code[m.pc as int] as u64)))
        } else {
            m
        }
    } else if opcode == instructions::SPUSH {
        if m.can_fetch(2) {
            match from_top(m.values, be_value(m.operand(2))) {
                Some(value) => m.past(2).with_values(m.values.push(value)),
                None => m.past(2),
            }
        } else {
            m
        }
    } else if opcode == instructions::DROPN {
        if m.can_fetch(2) {
            m.past(2).with_values(dropped(m.values, be_value(m.operand(2))))
        } else {
            m
        }
    } else if opcode == instructions::CHG {
        if !m.can_fetch(2) {
            m
        } else if !m.past(2).can_fetch(2) {
            m.past(2)
        } else {
            m.past(4).with_values(
                exchanged(m.values, be_value(m.operand(2)), be_value(m.past(2).operand(2))),
            )
        }
    } else if opcode == instructions::BPUSH {
        if !m.can_fetch(8) {
            m
        } else {
            let length = be_value(m.operand(8));
            let body = m.past(8);
            if body.can_fetch(length) {
                body.past(length).with_values(
                    m.values.push(ValueView::Block(body.operand(length))),
                )
            } else {
                body
            }
        }
    } else {
        m
    }
}

/// The jumps: `JMP`, `JMT`, `JMF` to the address that follows as a `u64`,
/// `RJMP`, `RJMT`, `RJMF` by the distance that follows as a `u16`, counted
/// from behind the operand. The conditional ones need a number on top, which
/// they pop; without one they only pass their operand.
pub open spec fn jump_step(m: Machine, opcode: u8) -> Machine {
    let absolute = instructions::JMP <= opcode <= instructions::JMF;
    let width: nat = if absolute {
        8
    } else {
        2
    };
    if !(instructions::JMP <= opcode <= instructions::RJMF) || !m.can_fetch(width) {
        m
    } else {
        let reference = be_value(m.operand(width));
        let next = m.past(width);
        let taken = if absolute {
            next.at(reference as usize)
        } else {
            next.jumped(reference as u16)
        };
        if opcode == instructions::JMP || opcode == instructions::RJMP {
            taken
        } else {
            match number_at(m.values, 0) {
                Some(number) => {
                    let wanted = if opcode == instructions::JMT || opcode == instructions::RJMT {
                        number != 0
                    } else {
                        number == 0
                    };
                    (if wanted {
                        taken
                    } else {
                        next
                    }).with_values(m.values.drop_last())
                },
                None => next,
            }
        }
    }
}

/// `CALL`, `RET` and `HALT`. A `RET` with no return address changes nothing.
pub open spec fn call_step(m: Machine, opcode: u8) -> Machine {
    if opcode == instructions::CALL {
        if m.can_fetch(8) {
            Machine {
                pc: be_value(m.operand(8)) as usize,
                calls: m.calls.push(m.past(8).pc),
                ..m
            }
        } else {
            m
        }
    } else if opcode == instructions::RET {
        if m.calls.len() > 0 {
            Machine { pc: m.calls.last(), calls: m.calls.drop_last(), ..m }
        } else {
            m
        }
    } else if opcode == instructions::HALT {
        Machine { stopped: true, ..m }
    } else {
        m
    }
}

/// A message as `SEND` makes it, but for its time.
pub open spec fn outgoing(m: Machine) -> Option<MessageView> {
    match (
        block_at(m.values, 3),
        block_at(m.values, 2),
        number_at(m.values, 1),
        block_at(m.values, 0),
    ) {
        (Some(receiver), Some(init), Some(opcode), Some(body)) => Some(
            MessageView {
                message_type: MessageType::Internal,
                sender: m.message.receiver,
                receiver,
                init: parse_init(init),
                opcode,
                body,
                timestamp: 0,
            },
        ),
        _ => None,
    }
}

/// What an instruction at the machine `m` sends: `SEND` with a block, a block,
/// a number and a block on top sends the message they describe; anything else
/// sends nothing.
pub open spec fn emission(m: Machine, opcode: u8) -> Option<MessageView> {
    if opcode == instructions::SEND {
        outgoing(m)
    } else {
        None
    }
}

/// The instructions that reach the contract: `LDATA`, `SDATA`, `MESSAGE`, `SEND`.
pub open spec fn contract_step(m: Machine, opcode: u8) -> Machine {
    if opcode == instructions::LDATA {
        m.with_values(m.values.push(ValueView::Block(m.data)))
    } else if opcode == instructions::SDATA {
        match block_at(m.values, 0) {
            Some(block) => Machine { data: block, values: m.values.drop_last(), ..m },
            None => m,
        }
    } else if opcode == instructions::MESSAGE {
        m.with_values(m.values.push(ValueView::Block(message_bytes(m.message))))
    } else if opcode == instructions::SEND {
        if outgoing(m) is Some {
            m.with_values(dropped(m.values, 4))
        } else {
            m
        }
    } else {
        m
    }
}

/// The machine after the instruction `opcode`, whose opcode byte the program
/// counter has passed. An opcode that no instruction has changes nothing.
pub open spec fn step(m: Machine, opcode: u8) -> Machine {
    if opcode <= instructions::CHG {
        immediate_step(m, opcode)
    } else if opcode <= instructions::CMNE {
        m.with_values(stack_step(m.values, opcode))
    } else if opcode <= instructions::RJMF {
        jump_step(m, opcode)
    } else if opcode <= instructions::HALT {
        call_step(m, opcode)
    } else {
        contract_step(m, opcode)
    }
}

/// The machine after at most `fuel` instructions, begun at the program
/// counter. It comes to rest, `stopped`, on `HALT` and where no opcode is
/// left to read; it is not at rest only where the fuel ran out first.
pub open spec fn run(m: Machine, fuel: nat) -> Machine
    decreases fuel,
{
    if m.stopped || fuel == 0 {
        m
    } else if !m.can_fetch(1) {
        Machine { stopped: true, ..m }
    } else {
        run(step(m.past(1), m.code[m.pc as int]), (fuel - 1) as nat)
    }
}

/// What an instruction sends, as a sequence of no message or one.
pub open spec fn emitted(m: Machine, opcode: u8) -> Seq<MessageView> {
    match emission(m, opcode) {
        Some(message) => seq![message],
        None => Seq::empty(),
    }
}

/// The messages that the machine sends in at most `fuel` instructions, in the
/// order in which it sends them, but for their times.
pub open spec fn sends(m: Machine, fuel: nat) -> Seq<MessageView>
    decreases fuel,
{
    if m.stopped || fuel == 0 || !m.can_fetch(1) {
        Seq::empty()
    } else {
        let opcode = m.code[m.pc as int];
        emitted(m.past(1), opcode) + sends(step(m.past(1), opcode), (fuel - 1) as nat)
    }
}

/// Whether `sent` is `plan` with a time on each message.
pub open spec fn stamped(sent: Seq<MessageView>, plan: Seq<MessageView>) -> bool {
    &&& sent.len() == plan.len()
    &&& forall|i: int| 0 <= i < sent.len() ==> #[trigger] sent[i] == plan[i].at(sent[i].timestamp)
}

/// Whether `after` is `before` followed by `plan` with a time on each message.
pub open spec fn extended(
    before: Seq<MessageView>,
    after: Seq<MessageView>,
    plan: Seq<MessageView>,
) -> bool {
    &&& after.len() == before.len() + plan.len()
    &&& after.take(before.len() as int) == before
    &&& stamped(after.skip(before.len() as int), plan)
}

/// A machine that has not run yet: as `m`, but not stopped.
pub open spec fn started(m: Machine) -> Machine {
    Machine { stopped: false, ..m }
}

/// `RJMP` with the operand `0x8001` goes back by one from behind its operand.
pub proof fn lemma_rjmp_back_one(m: Machine)
    requires
        m.code.len() <= usize::MAX,
        m.can_fetch(2),
        m.operand(2) == seq![0x80u8, 0x01u8],
    ensures
        step(m, instructions::RJMP) == m.at((m.pc + 2 - 1) as usize),
{
    let operand = m.operand(2);
    assert(be_value(operand) == 0x8001) by {
        reveal_with_fuel(be_value, 3);
        assert(operand.drop_last() =~= seq![0x80u8]);
        assert(operand.drop_last().drop_last() =~= Seq::<u8>::empty());
    }
}

/// `DROPN` of more values than the stack holds drops none: only the operand is passed.
pub proof fn lemma_dropn_beyond(m: Machine)
    requires
        m.can_fetch(2),
        be_value(m.operand(2)) > m.values.len(),
    ensures
        step(m, instructions::DROPN) == m.past(2),
{
}

/// `BREAD` of more bytes than the slice has left changes nothing: the slice
/// stays where it is, and so does the stack.
pub proof fn lemma_bread_beyond(m: Machine, length: u64, slice: SliceView)
    requires
        number_at(m.values, 0) == Some(length),
        slice_at(m.values, 1) == Some(slice),
        slice.pointer + length > slice.bytes.len(),
    ensures
        step(m, instructions::BREAD) == m,
{
}

/// `RET` with no return address changes nothing: the machine goes on behind it.
pub proof fn lemma_ret_without_call(m: Machine)
    requires
        m.calls.len() == 0,
    ensures
        step(m, instructions::RET) == m,
{
}

} // verus!
