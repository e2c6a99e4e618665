//! The line protocol: what a request line asks for, and what is answered.
use crate::repositories::{
    involving, messages_of, newest_first, page, transaction_records, RecordView,
};
use crate::vm::block::{hex_bytes, hex_string, AsBlock, Block};
use crate::vm::builder::{framed, Builder};
use crate::vm::env::{
    executed, part_bytes, view_stack, Environment, Repository, TransactionPartView, DEPTH_LIMIT,
};
use crate::vm::machine::ValueView;
use crate::vm::message::{
    current_millis, message_bytes, parse_message, Message, MessageType, MessageView,
};
use crate::vm::slice::{
    holds, lemma_holds_appended, lemma_holds_extended, lemma_holds_split, lemma_reads_framed,
    lemma_reads_u64, Slice, SliceView,
};
use crate::vm::utils::{be_bytes, be_value, decimal_text, lemma_be_bytes_len};
use crate::vm::{lemma_value_round_trip, message_views, parse_value, value_bytes, views, Value};
use vstd::prelude::*;
use vstd::string::{StrSliceExecFns, StringExecFns};

verus! {

/// Whether a character is white space.
pub open spec fn is_space(c: char) -> bool {
    let n = c as int;
    ||| 9 <= n <= 13
    ||| n == 0x20
    ||| n == 0x85
    ||| n == 0xa0
    ||| n == 0x1680
    ||| 0x2000 <= n <= 0x200a
    ||| n == 0x2028
    ||| n == 0x2029
    ||| n == 0x202f
    ||| n == 0x205f
    ||| n == 0x3000
}

/// Whether `c` is white space.
fn space(c: char) -> (r: bool)
    ensures
        r == is_space(c),
{
    let n = c as u32;
    (9 <= n && n <= 13) || n == 0x20 || n == 0x85 || n == 0xa0 || n == 0x1680 || (0x2000 <= n && n
        <= 0x200a) || n == 0x2028 || n == 0x2029 || n == 0x202f || n == 0x205f || n == 0x3000
}

/// The number of white-space characters that `text` begins with.
pub open spec fn leading(text: Seq<char>) -> nat
    decreases text.len(),
{
    if text.len() > 0 && is_space(text[0]) {
        1 + leading(text.skip(1))
    } else {
        0
    }
}

/// The number of white-space characters that `text` ends with.
pub open spec fn trailing(text: Seq<char>) -> nat
    decreases text.len(),
{
    if text.len() > 0 && is_space(text.last()) {
        1 + trailing(text.drop_last())
    } else {
        0
    }
}

/// `text` without the white space around it.
pub open spec fn trimmed(text: Seq<char>) -> Seq<char> {
    let rest = text.skip(leading(text) as int);
    rest.take(rest.len() - trailing(rest))
}

/// `count` is the number of leading white-space characters where that many
/// are white space and the next one is not.
proof fn lemma_leading(text: Seq<char>, count: nat)
    requires
        count <= text.len(),
        forall|j: int| 0 <= j < count ==> is_space(#[trigger] text[j]),
        count < text.len() ==> !is_space(text[count as int]),
    ensures
        leading(text) == count,
    decreases text.len(),
{
    if count > 0 {
        let rest = text.skip(1);
        assert forall|j: int| 0 <= j < count - 1 implies is_space(#[trigger] rest[j]) by {
            assert(rest[j] == text[j + 1]);
        }
        if count < text.len() {
            assert(rest[count - 1] == text[count as int]);
        }
        lemma_leading(rest, (count - 1) as nat);
    }
}

/// The same for the white space at the end.
proof fn lemma_trailing(text: Seq<char>, count: nat)
    requires
        count <= text.len(),
        forall|j: int| text.len() - count <= j < text.len() ==> is_space(#[trigger] text[j]),
        count < text.len() ==> !is_space(text[text.len() - count - 1]),
    ensures
        trailing(text) == count,
    decreases text.len(),
{
    if count > 0 {
        let rest = text.drop_last();
        assert forall|j: int| rest.len() - (count - 1) <= j < rest.len() implies is_space(
            #[trigger] rest[j],
        ) by {
            assert(rest[j] == text[j]);
        }
        if count < text.len() {
            assert(rest[rest.len() - (count - 1) - 1] == text[text.len() - count - 1]);
        }
        lemma_trailing(rest, (count - 1) as nat);
    }
}

/// The pieces of `text` between its spaces: one more than it has spaces.
pub open spec fn split(text: Seq<char>) -> Seq<Seq<char>>
    decreases text.len(),
{
    if text.len() == 0 {
        seq![Seq::empty()]
    } else {
        let head = split(text.drop_last());
        if text.last() == ' ' {
            head.push(Seq::empty())
        } else {
            head.drop_last().push(head.last().push(text.last()))
        }
    }
}

/// The number that `digits` write in decimal.
pub open spec fn digits_value(digits: Seq<char>) -> nat
    decreases digits.len(),
{
    if digits.len() == 0 {
        0
    } else {
        digits_value(digits.drop_last()) * 10 + (digits.last() as int - 48) as nat
    }
}

/// Whether all of `digits` are decimal digits.
pub open spec fn all_digits(digits: Seq<char>) -> bool {
    forall|i: int| 0 <= i < digits.len() ==> 48 <= (#[trigger] digits[i]) as int <= 57
}

/// The `u64` that `text` writes in decimal: digits, at least one, behind at
/// most one `+`. `None` for any other text and for a number that does not fit.
pub open spec fn decimal(text: Seq<char>) -> Option<u64> {
    let digits = if text.len() > 0 && text[0] == '+' {
        text.skip(1)
    } else {
        text
    };
    if digits.len() > 0 && all_digits(digits) && digits_value(digits) <= u64::MAX {
        Some(digits_value(digits) as u64)
    } else {
        None
    }
}

/// A number written in decimal is read back.
pub proof fn lemma_decimal_round_trip(value: nat)
    requires
        value <= u64::MAX,
    ensures
        decimal(decimal_text(value)) == Some(value as u64),
{
    lemma_decimal_text(value);
    let text = decimal_text(value);
    assert(48 <= text[0] as int <= 57);
}

/// The decimal text of a number is made of digits, at least one, and writes the number.
proof fn lemma_decimal_text(value: nat)
    ensures
        decimal_text(value).len() > 0,
        all_digits(decimal_text(value)),
        digits_value(decimal_text(value)) == value,
    decreases value,
{
    let text = decimal_text(value);
    if value < 10 {
        assert(text.drop_last() =~= Seq::<char>::empty());
        assert(digits_value(text.drop_last()) == 0);
    } else {
        lemma_decimal_text(value / 10);
        let head = decimal_text(value / 10);
        assert(text.drop_last() =~= head);
        assert forall|i: int| 0 <= i < text.len() implies 48 <= (#[trigger] text[i]) as int
            <= 57 by {
            if i < head.len() {
                assert(text[i] == head[i]);
            }
        }
    }
}

/// The value of digits grows with every digit.
proof fn lemma_digits_value_grows(digits: Seq<char>, count: nat)
    requires
        all_digits(digits),
        count <= digits.len(),
    ensures
        digits_value(digits.take(count as int)) <= digits_value(digits),
    decreases digits.len() - count,
{
    if count < digits.len() {
        lemma_digits_value_grows(digits, count + 1);
        assert(digits.take(count as int + 1).drop_last() =~= digits.take(count as int));
    } else {
        assert(digits.take(count as int) =~= digits);
    }
}

/// The number that a decimal digit stands for; `None` for any other character.
fn digit(c: char) -> (r: Option<u64>)
    ensures
        r == (if 48 <= c as int <= 57 {
            Some((c as int - 48) as u64)
        } else {
            None
        }),
{
    let n = c as u32;
    if 48 <= n && n <= 57 {
        Some((n - 48) as u64)
    } else {
        None
    }
}

/// Reads the characters of `chars` from `from` to `to` as a decimal `u64`.
fn read_decimal(chars: &Vec<char>, from: usize, to: usize) -> (r: Option<u64>)
    requires
        from <= to <= chars@.len(),
    ensures
        r == decimal(chars@.subrange(from as int, to as int)),
{
    let ghost text = chars@.subrange(from as int, to as int);
    let start = if from < to && chars[from] == '+' {
        from + 1
    } else {
        from
    };
    let ghost digits = chars@.subrange(start as int, to as int);
    proof {
        if from < to {
            assert(text[0] == chars@[from as int]);
        }
        assert(digits =~= if text.len() > 0 && text[0] == '+' {
            text.skip(1)
        } else {
            text
        });
    }
    if start == to {
        return None;
    }
    let ghost goal = decimal(text);
    let mut value: u64 = 0;
    let mut i: usize = start;
    while i < to
        invariant
            start <= i <= to <= chars@.len(),
            digits == chars@.subrange(start as int, to as int),
            from <= to,
            goal == decimal(chars@.subrange(from as int, to as int)),
            goal == (if all_digits(digits) && digits_value(digits) <= u64::MAX {
                Some(digits_value(digits) as u64)
            } else {
                None
            }),
            all_digits(digits.take(i - start)),
            value == digits_value(digits.take(i - start)),
        decreases to - i,
    {
        let c = chars[i];
        proof {
            assert(digits[i - start] == c);
            assert(digits.take(i - start + 1).drop_last() =~= digits.take(i - start));
        }
        let digit = match digit(c) {
            Some(digit) => digit,
            None => {
                assert(!all_digits(digits));
                return None;
            },
        };
        let next = match value.checked_mul(10) {
            Some(tenfold) => tenfold.checked_add(digit),
            None => None,
        };
        match next {
            Some(next) => {
                value = next;
            },
            None => {
                proof {
                    if all_digits(digits) {
                        lemma_digits_value_grows(digits, (i - start + 1) as nat);
                    }
                }
                return None;
            },
        }
        proof {
            let longer = digits.take(i - start + 1);
            assert forall|k: int| 0 <= k < longer.len() implies 48 <= (#[trigger] longer[k]) as int
                <= 57 by {
                assert(longer[k] == digits[k]);
                if k < i - start {
                    assert(digits.take(i - start)[k] == digits[k]);
                } else {
                    assert(digits[k] == c);
                }
            }
        }
        i += 1;
    }
    proof {
        assert(digits.take(i - start) =~= digits);
    }
    Some(value)
}

/// What a request line asks for.
pub enum RequestView {
    /// To take in the message that the text holds in hexadecimal.
    Send(Seq<char>),
    /// A page of all messages.
    AllMessages { limit: u64, offset: u64 },
    /// A page of the messages of one contract.
    MessagesByContract { address: Seq<u8>, limit: u64, offset: u64 },
    /// Nothing that the server knows: such a line gets no answer.
    Unknown,
}

/// A request.
#[derive(Debug)]
pub enum Request {
    Send(String),
    AllMessages { limit: u64, offset: u64 },
    MessagesByContract { address: Block, limit: u64, offset: u64 },
    Unknown,
}

impl View for Request {
    type V = RequestView;

    open spec fn view(&self) -> RequestView {
        match self {
            Request::Send(text) => RequestView::Send(text@),
            Request::AllMessages { limit, offset } => RequestView::AllMessages {
                limit: *limit,
                offset: *offset,
            },
            Request::MessagesByContract { address, limit, offset } => {
                RequestView::MessagesByContract {
                    address: address@,
                    limit: *limit,
                    offset: *offset,
                }
            },
            Request::Unknown => RequestView::Unknown,
        }
    }
}

/// What a line asks for: the line is trimmed and split at its spaces, the
/// first word names the command, and the command decides how many words must
/// follow. A line with another number of words, an unknown command, a number
/// that is no decimal `u64` and an address that is no hexadecimal text ask
/// for nothing.
pub open spec fn request_of(line: Seq<char>) -> RequestView {
    let words = split(trimmed(line));
    if words.len() == 2 && words[0] == "send"@ {
        RequestView::Send(words[1])
    } else if words.len() == 3 && words[0] == "get_all_messages"@ {
        match (decimal(words[1]), decimal(words[2])) {
            (Some(limit), Some(offset)) => RequestView::AllMessages { limit, offset },
            _ => RequestView::Unknown,
        }
    } else if words.len() == 4 && words[0] == "get_messages_by_contract"@ {
        match (hex_bytes(words[1]), decimal(words[2]), decimal(words[3])) {
            (Some(address), Some(limit), Some(offset)) => RequestView::MessagesByContract {
                address,
                limit,
                offset,
            },
            _ => RequestView::Unknown,
        }
    } else {
        RequestView::Unknown
    }
}

/// The characters of a text.
fn chars_of(text: &str) -> (chars: Vec<char>)
    ensures
        chars@ == text@,
{
    broadcast use vstd::string::axiom_spec_iter;

    let mut chars: Vec<char> = Vec::new();
    for c in iter: text.chars()
        invariant
            iter.seq() == text@,
            chars@ == iter.seq().take(iter.index() as int),
    {
        chars.push(c);
        assert(chars@ =~= iter.seq().take(iter.index() + 1));
    }
    assert(chars@ =~= text@);
    chars
}

/// The pieces of `chars` that the bounds cut out.
pub open spec fn cut(chars: Seq<char>, bounds: Seq<(usize, usize)>) -> Seq<Seq<char>> {
    Seq::new(bounds.len(), |i: int| chars.subrange(bounds[i].0 as int, bounds[i].1 as int))
}

/// Where the words of a line begin and end: the line trimmed, then split at its spaces.
fn word_bounds(chars: &Vec<char>) -> (bounds: Vec<(usize, usize)>)
    ensures
        cut(chars@, bounds@) == split(trimmed(chars@)),
        forall|i: int|
            0 <= i < bounds@.len() ==> (#[trigger] bounds@[i]).0 <= bounds@[i].1 <= chars@.len(),
{
    let len = chars.len();
    let mut from: usize = 0;
    while from < len && space(chars[from])
        invariant
            from <= len == chars@.len(),
            forall|j: int| 0 <= j < from ==> is_space(#[trigger] chars@[j]),
        decreases len - from,
    {
        from += 1;
    }
    let mut to: usize = len;
    while to > from && space(chars[to - 1])
        invariant
            from <= to <= len == chars@.len(),
            forall|j: int| to <= j < len ==> is_space(#[trigger] chars@[j]),
        decreases to,
    {
        to -= 1;
    }
    let ghost text = chars@.subrange(from as int, to as int);
    proof {
        lemma_leading(chars@, from as nat);
        let rest = chars@.skip(from as int);
        assert forall|j: int| rest.len() - (len - to) <= j < rest.len() implies is_space(
            #[trigger] rest[j],
        ) by {
            assert(rest[j] == chars@[j + from]);
        }
        if len - to < rest.len() {
            assert(rest[rest.len() - (len - to) - 1] == chars@[to - 1]);
        }
        lemma_trailing(rest, (len - to) as nat);
        assert(rest.take(rest.len() - (len - to)) =~= text);
    }
    let mut bounds: Vec<(usize, usize)> = Vec::new();
    let mut begin: usize = from;
    let mut i: usize = from;
    proof {
        assert(chars@.subrange(from as int, i as int) =~= Seq::<char>::empty());
        assert(cut(chars@, bounds@).push(chars@.subrange(begin as int, i as int)) =~= split(
            chars@.subrange(from as int, i as int),
        ));
    }
    while i < to
        invariant
            from <= begin <= i <= to <= chars@.len(),
            cut(chars@, bounds@).push(chars@.subrange(begin as int, i as int)) == split(
                chars@.subrange(from as int, i as int),
            ),
            forall|k: int|
                0 <= k < bounds@.len() ==> (#[trigger] bounds@[k]).0 <= bounds@[k].1
                    <= chars@.len(),
        decreases to - i,
    {
        let ghost done = cut(chars@, bounds@);
        let ghost word = chars@.subrange(begin as int, i as int);
        let ghost seen = chars@.subrange(from as int, i as int);
        let ghost more = chars@.subrange(from as int, i + 1);
        proof {
            assert(more.drop_last() =~= seen);
            assert(more.last() == chars@[i as int]);
            assert(done.push(word).drop_last() =~= done);
        }
        if chars[i] == ' ' {
            bounds.push((begin, i));
            begin = i + 1;
            proof {
                assert(cut(chars@, bounds@) =~= done.push(word));
                assert(chars@.subrange(begin as int, i + 1) =~= Seq::<char>::empty());
            }
        } else {
            proof {
                assert(cut(chars@, bounds@) =~= done);
                assert(chars@.subrange(begin as int, i + 1) =~= word.push(chars@[i as int]));
            }
        }
        i += 1;
    }
    let ghost done = cut(chars@, bounds@);
    bounds.push((begin, to));
    proof {
        assert(cut(chars@, bounds@) =~= done.push(chars@.subrange(begin as int, to as int)));
    }
    bounds
}

/// Whether the characters of `chars` from `from` to `to` spell `word`.
fn spells(chars: &Vec<char>, from: usize, to: usize, word: &str) -> (r: bool)
    requires
        from <= to <= chars@.len(),
    ensures
        r == (chars@.subrange(from as int, to as int) == word@),
{
    let letters = chars_of(word);
    if letters.len() != to - from {
        return false;
    }
    let mut i: usize = 0;
    while i < letters.len()
        invariant
            from <= to <= chars@.len(),
            letters@.len() == to - from,
            i <= letters@.len(),
            letters@ == word@,
            forall|k: int| 0 <= k < i ==> chars@[from + k] == letters@[k],
        decreases letters@.len() - i,
    {
        if chars[from + i] != letters[i] {
            assert(chars@.subrange(from as int, to as int)[i as int] != letters@[i as int]);
            return false;
        }
        i += 1;
    }
    assert(chars@.subrange(from as int, to as int) =~= letters@);
    true
}

/// Reads a request line.
pub fn parse_request(line: &str) -> (request: Request)
    ensures
        request@ == request_of(line@),
{
    let chars = chars_of(line);
    let bounds = word_bounds(&chars);
    let ghost words = split(trimmed(line@));
    proof {
        assert forall|i: int| 0 <= i < bounds@.len() implies words[i] == chars@.subrange(
            bounds@[i].0 as int,
            bounds@[i].1 as int,
        ) by {
            assert(cut(chars@, bounds@)[i] == words[i]);
        }
    }
    if bounds.len() == 2 && spells(&chars, bounds[0].0, bounds[0].1, "send") {
        let text = line.substring_char(bounds[1].0, bounds[1].1);
        Request::Send(text.to_owned())
    } else if bounds.len() == 3 && spells(&chars, bounds[0].0, bounds[0].1, "get_all_messages") {
        let limit = read_decimal(&chars, bounds[1].0, bounds[1].1);
        let offset = read_decimal(&chars, bounds[2].0, bounds[2].1);
        match (limit, offset) {
            (Some(limit), Some(offset)) => Request::AllMessages { limit, offset },
            _ => Request::Unknown,
        }
    } else if bounds.len() == 4 && spells(
        &chars,
        bounds[0].0,
        bounds[0].1,
        "get_messages_by_contract",
    ) {
        let text = line.substring_char(bounds[1].0, bounds[1].1);
        let address = Block::from_string(text.to_owned());
        let limit = read_decimal(&chars, bounds[2].0, bounds[2].1);
        let offset = read_decimal(&chars, bounds[3].0, bounds[3].1);
        match (address, limit, offset) {
            (Some(address), Some(limit), Some(offset)) => Request::MessagesByContract {
                address,
                limit,
                offset,
            },
            _ => Request::Unknown,
        }
    } else {
        Request::Unknown
    }
}

/// Why a message that was sent in is not executed.
#[derive(Clone, Copy, Debug, PartialEq, Eq, Structural)]
pub enum Rejection {
    InvalidHex,
    InvalidMessage,
    InvalidMessageTime,
    SenderMustBeEmpty,
    CantBeInternalMessage,
}

/// The line that tells the client of a rejection.
pub open spec fn rejection_text(rejection: Rejection) -> Seq<char> {
    match rejection {
        Rejection::InvalidHex => "invalid hex\r\n"@,
        Rejection::InvalidMessage => "invalid message\r\n"@,
        Rejection::InvalidMessageTime => "invalid message time\r\n"@,
        Rejection::SenderMustBeEmpty => "sender must be empty\r\n"@,
        Rejection::CantBeInternalMessage => "cant be internal message\r\n"@,
    }
}

impl Rejection {
    /// The line that tells the client of the rejection.
    pub fn line(&self) -> (text: String)
        ensures
            text@ == rejection_text(*self),
    {
        match self {
            Rejection::InvalidHex => "invalid hex\r\n".to_owned(),
            Rejection::InvalidMessage => "invalid message\r\n".to_owned(),
            Rejection::InvalidMessageTime => "invalid message time\r\n".to_owned(),
            Rejection::SenderMustBeEmpty => "sender must be empty\r\n".to_owned(),
            Rejection::CantBeInternalMessage => "cant be internal message\r\n".to_owned(),
        }
    }
}

/// How far, in milliseconds, the time of a message may lie from the clock of the server.
pub const CLOCK_WINDOW: u64 = 10000;

/// Why a message is not taken in at the time `now`, if it is not: its time
/// lies more than `CLOCK_WINDOW` from `now`, it names a sender, or it is internal.
pub open spec fn objection(message: MessageView, now: u64) -> Option<Rejection> {
    if message.timestamp + CLOCK_WINDOW < now || message.timestamp > now + CLOCK_WINDOW {
        Some(Rejection::InvalidMessageTime)
    } else if message.sender.len() > 0 {
        Some(Rejection::SenderMustBeEmpty)
    } else if message.message_type == MessageType::Internal {
        Some(Rejection::CantBeInternalMessage)
    } else {
        None
    }
}

/// Checks a message that a client sent in at the time `now`.
pub fn screen(message: &Message, now: u64) -> (r: Option<Rejection>)
    ensures
        r == objection(message@, now),
{
    if message.timestamp < now.saturating_sub(CLOCK_WINDOW) {
        Some(Rejection::InvalidMessageTime)
    } else if message.timestamp > now.saturating_add(CLOCK_WINDOW) {
        Some(Rejection::InvalidMessageTime)
    } else if message.sender.len() > 0 {
        Some(Rejection::SenderMustBeEmpty)
    } else {
        match message.message_type {
            MessageType::Internal => Some(Rejection::CantBeInternalMessage),
            _ => None,
        }
    }
}

/// The first `count` of `values`, each in its canonical encoding and framed.
pub open spec fn framed_values(values: Seq<ValueView>, count: nat) -> Seq<u8>
    decreases count,
{
    if count == 0 || count > values.len() {
        Seq::empty()
    } else {
        framed_values(values, (count - 1) as nat) + framed(value_bytes(values[count - 1]))
    }
}

/// The answer to a view: the number of values as a big-endian `u64`, then
/// each value, from the bottom of the stack to the top, framed.
pub open spec fn stack_bytes(values: Seq<ValueView>) -> Seq<u8> {
    be_bytes(values.len(), 8) + framed_values(values, values.len())
}

/// Encodes an operand stack for the client.
pub fn stack_blob(values: &Vec<Value>) -> (block: Block)
    ensures
        block@ == stack_bytes(views(values@)),
{
    let mut builder = Builder::new();
    builder.write_u64(values.len() as u64);
    let ghost head = builder@;
    let mut i: usize = 0;
    while i < values.len()
        invariant
            i <= values@.len(),
            builder@ == head + framed_values(views(values@), i as nat),
        decreases values@.len() - i,
    {
        builder.write_block_with_len(values[i].get_as_block());
        assert(builder@ =~= head + framed_values(views(values@), (i + 1) as nat));
        i += 1;
    }
    builder.build()
}

/// The `count` framed values that stand at the reader, if that many stand there.
#[verifier::opaque]
pub open spec fn parse_values(reader: SliceView, count: nat) -> Option<Seq<ValueView>>
    decreases count,
{
    if count == 0 {
        Some(Seq::empty())
    } else {
        let (value, next) = reader.read_framed();
        if value is Some {
            match (parse_value(value->0), parse_values(next, (count - 1) as nat)) {
                (Some(first), Some(rest)) => Some(seq![first] + rest),
                _ => None,
            }
        } else {
            None
        }
    }
}

/// The operand stack that `bytes` begin with as the answer to a view, from
/// the bottom to the top, if they begin with one.
pub open spec fn parse_stack(bytes: Seq<u8>) -> Option<Seq<ValueView>> {
    let start = SliceView { bytes, pointer: 0 };
    if start.can_read(8) {
        parse_values(start.advance(8), be_value(start.peek(8)))
    } else {
        None
    }
}

/// Reads the answer to a view: the operand stack, from the bottom to the top.
/// `None` where the block does not begin with an encoded stack.
pub fn read_stack(block: Block) -> (r: Option<Vec<Value>>)
    ensures
        match r {
            Some(values) => parse_stack(block@) == Some(views(values@)),
            None => parse_stack(block@) is None,
        },
{
    let mut slice = Slice::new(block);
    let count = slice.read_u64()?;
    let ghost start = slice@;
    let ghost outcome = parse_values(start, count as nat);
    let mut values: Vec<Value> = Vec::new();
    let mut i: u64 = 0;
    proof {
        assert(views(values@) =~= Seq::empty());
        match outcome {
            Some(rest) => {
                assert(views(values@) + rest =~= rest);
            },
            None => {},
        }
    }
    while i < count
        invariant
            i <= count,
            values@.len() == i,
            outcome == parse_stack(block@),
            outcome == match parse_values(slice@, (count - i) as nat) {
                Some(rest) => Some(views(values@) + rest),
                None => None,
            },
        decreases count - i,
    {
        proof {
            reveal(parse_values);
        }
        let ghost reader = slice@;
        let ghost done = views(values@);
        let bytes = slice.read_block_with_len()?;
        let value = Value::from_block(bytes)?;
        values.push(value);
        i += 1;
        proof {
            assert(views(values@) =~= done.push(value@));
            let rest = parse_values(slice@, (count - i) as nat);
            assert(parse_values(reader, (count - i + 1) as nat) == match rest {
                Some(rest) => Some(seq![value@] + rest),
                None => None,
            });
            if rest is Some {
                assert(done + (seq![value@] + rest->0) =~= views(values@) + rest->0);
            }
        }
    }
    proof {
        reveal(parse_values);
        assert(views(values@) + Seq::empty() =~= views(values@));
    }
    Some(values)
}

/// Whether a value is a number or a block, short enough to be framed: the
/// values whose encoding keeps what they hold.
pub open spec fn is_plain(value: ValueView) -> bool {
    match value {
        ValueView::Number(_) => true,
        ValueView::Block(block) => block.len() + 9 <= u64::MAX,
        _ => false,
    }
}

/// Whether all values of a stack are plain.
#[verifier::opaque]
pub open spec fn all_plain(values: Seq<ValueView>) -> bool {
    forall|i: int| 0 <= i < values.len() ==> is_plain(#[trigger] values[i])
}

/// The values from `from` on, each in its canonical encoding and framed.
pub open spec fn later_values(values: Seq<ValueView>, from: nat) -> Seq<u8>
    decreases values.len() - from,
{
    if from >= values.len() {
        Seq::empty()
    } else {
        framed(value_bytes(values[from as int])) + later_values(values, from + 1)
    }
}

/// The encoding of all values is that of the first `count`, then that of the others.
proof fn lemma_framed_values_split(values: Seq<ValueView>, count: nat)
    requires
        count <= values.len(),
    ensures
        framed_values(values, values.len()) == framed_values(values, count) + later_values(
            values,
            count,
        ),
    decreases values.len() - count,
{
    if count < values.len() {
        lemma_framed_values_split(values, count + 1);
        assert(framed_values(values, count + 1) == framed_values(values, count) + framed(
            value_bytes(values[count as int]),
        ));
        assert(framed_values(values, count) + later_values(values, count) =~= framed_values(
            values,
            count + 1,
        ) + later_values(values, count + 1));
    } else {
        assert(framed_values(values, count) + later_values(values, count) =~= framed_values(
            values,
            count,
        ));
    }
}

/// What is left of a stack from `from` on begins with the value at `from`.
proof fn lemma_values_from(values: Seq<ValueView>, from: nat)
    requires
        from <= values.len(),
    ensures
        from < values.len() ==> seq![values[from as int]] + values.skip(from as int + 1)
            == values.skip(from as int),
        from == values.len() ==> values.skip(from as int) == Seq::<ValueView>::empty(),
        values.skip(0) == values,
{
    if from < values.len() {
        assert(seq![values[from as int]] + values.skip(from as int + 1) =~= values.skip(
            from as int,
        ));
    } else {
        assert(values.skip(from as int) =~= Seq::<ValueView>::empty());
    }
    assert(values.skip(0) =~= values);
}

/// One more value in front: where the reader reads the bytes of a value and
/// the others follow, it reads them all.
proof fn lemma_values_step(
    reader: SliceView,
    count: nat,
    body: Seq<u8>,
    next: SliceView,
    value: ValueView,
    rest: Seq<ValueView>,
)
    requires
        count > 0,
        reader.read_framed() == (Some(body), next),
        parse_value(body) == Some(value),
        parse_values(next, (count - 1) as nat) == Some(rest),
    ensures
        parse_values(reader, count) == Some(seq![value] + rest),
{
    reveal(parse_values);
}

/// The framed values that stand in the bytes from `at` on are read back.
proof fn lemma_reads_values(bytes: Seq<u8>, at: nat, values: Seq<ValueView>, from: nat)
    requires
        from <= values.len(),
        holds(bytes, at, later_values(values, from)),
        all_plain(values),
    ensures
        parse_values(SliceView { bytes, pointer: at }, (values.len() - from) as nat) == Some(
            values.skip(from as int),
        ),
    decreases values.len() - from,
{
    lemma_values_from(values, from);
    if from < values.len() {
        let value = values[from as int];
        let body = value_bytes(value);
        let rest = later_values(values, from + 1);
        let reader = SliceView { bytes, pointer: at };
        let next = SliceView { bytes, pointer: at + 8 + body.len() };
        assert(is_plain(value)) by {
            reveal(all_plain);
        }
        assert(body.len() <= u64::MAX) by {
            lemma_be_bytes_len(0, 8);
            match value {
                ValueView::Number(number) => {
                    lemma_be_bytes_len(number as nat, 8);
                },
                ValueView::Block(block) => {
                    lemma_be_bytes_len(block.len(), 8);
                },
                _ => {},
            }
        }
        lemma_holds_split(bytes, at, framed(body), rest);
        lemma_be_bytes_len(body.len(), 8);
        assert(reader.read_framed() == (Some(body), next)) by {
            lemma_reads_framed(bytes, at, body);
        }
        assert(parse_value(body) == Some(value)) by {
            lemma_value_round_trip(value);
        }
        lemma_reads_values(bytes, at + 8 + body.len(), values, from + 1);
        lemma_values_step(
            reader,
            (values.len() - from) as nat,
            body,
            next,
            value,
            values.skip(from as int + 1),
        );
    } else {
        reveal(parse_values);
    }
}

/// Decoding the answer to a view gives the stack back, where the stack holds
/// numbers and blocks only.
pub proof fn lemma_stack_round_trip(values: Seq<ValueView>)
    requires
        values.len() <= u64::MAX,
        all_plain(values),
    ensures
        parse_stack(stack_bytes(values)) == Some(values),
{
    let count = be_bytes(values.len(), 8);
    let body = framed_values(values, values.len());
    let bytes = stack_bytes(values);
    lemma_be_bytes_len(values.len(), 8);
    lemma_holds_appended(Seq::empty(), count);
    assert(Seq::<u8>::empty() + count =~= count);
    lemma_holds_extended(count, 0, count, body);
    lemma_reads_u64(bytes, 0, values.len() as u64);
    lemma_holds_appended(count, body);
    lemma_framed_values_split(values, 0);
    assert(framed_values(values, 0) + later_values(values, 0) =~= later_values(values, 0));
    lemma_reads_values(bytes, 8, values, 0);
    lemma_values_from(values, 0);
}

/// The first `count` of `messages`, each in its wire format and framed.
pub open spec fn framed_messages(messages: Seq<MessageView>, count: nat) -> Seq<u8>
    decreases count,
{
    if count == 0 || count > messages.len() {
        Seq::empty()
    } else {
        framed_messages(messages, (count - 1) as nat) + framed(
            message_bytes(messages[count - 1]),
        )
    }
}

/// The answer to a listing: the number of messages as a big-endian `u64`,
/// then each message, framed.
pub open spec fn listing_bytes(messages: Seq<MessageView>) -> Seq<u8> {
    be_bytes(messages.len(), 8) + framed_messages(messages, messages.len())
}

/// Encodes a listing of messages for the client.
pub fn listing_blob(messages: &Vec<Message>) -> (block: Block)
    ensures
        block@ == listing_bytes(message_views(messages@)),
{
    let mut builder = Builder::new();
    builder.write_u64(messages.len() as u64);
    let ghost head = builder@;
    let mut i: usize = 0;
    while i < messages.len()
        invariant
            i <= messages@.len(),
            builder@ == head + framed_messages(message_views(messages@), i as nat),
        decreases messages@.len() - i,
    {
        builder.write_block_with_len(messages[i].get_as_block());
        assert(builder@ =~= head + framed_messages(message_views(messages@), (i + 1) as nat));
        i += 1;
    }
    builder.build()
}

/// The line that carries `bytes` to the client: hexadecimal text and a line end.
pub open spec fn reply_line(bytes: Seq<u8>) -> Seq<char> {
    hex_string(bytes) + "\r\n"@
}

/// The line that carries `block` to the client.
pub fn reply(block: &Block) -> (line: String)
    ensures
        line@ == reply_line(block@),
{
    block.to_string().concat("\r\n")
}

/// Whether `reply` answers `request` at the time `now`, with `before` in the
/// repository when the request came and `after` when it was answered.
///
/// An unknown request gets no answer. A listing gets its page. A message
/// that is no hexadecimal text, that does not parse, or that is turned away
/// gets the line that says so. A view gets the operand stack that its
/// contract ends with. Any other message is executed with all that follows
/// from it, the transaction is recorded, and the answer is the transaction.
/// Only an executed message changes what the repository holds.
pub open spec fn answers(
    request: RequestView,
    now: u64,
    before: Seq<RecordView>,
    after: Seq<RecordView>,
    reply: Option<Seq<char>>,
) -> bool {
    match request {
        RequestView::Unknown => after == before && reply is None,
        RequestView::AllMessages { limit, offset } => after == before && reply == Some(
            reply_line(listing_bytes(page(newest_first(messages_of(before)), limit, offset))),
        ),
        RequestView::MessagesByContract { address, limit, offset } => after == before && reply
            == Some(
            reply_line(
                listing_bytes(
                    page(involving(newest_first(messages_of(before)), address), limit, offset),
                ),
            ),
        ),
        RequestView::Send(text) => match incoming(text, now) {
            Err(rejection) => after == before && reply == Some(rejection_text(rejection)),
            Ok(message) => if message.message_type == MessageType::View {
                after == before && reply == Some(reply_line(stack_bytes(view_stack(before, message))))
            } else {
                exists|transaction: TransactionPartView|
                    {
                        &&& transaction.message() == message
                        &&& executed(before, DEPTH_LIMIT as nat, transaction)
                        &&& after == before + transaction_records(transaction)
                        &&& reply == Some(reply_line(part_bytes(transaction)))
                    }
            },
        },
    }
}

/// The message that a client sent in as `text` at the time `now`, or why it
/// is turned away.
pub open spec fn incoming(text: Seq<char>, now: u64) -> Result<MessageView, Rejection> {
    match hex_bytes(text) {
        None => Err(Rejection::InvalidHex),
        Some(bytes) => match parse_message(bytes) {
            None => Err(Rejection::InvalidMessage),
            Some(message) => match objection(message, now) {
                Some(rejection) => Err(rejection),
                None => Ok(message),
            },
        },
    }
}

/// Reads the message that a client sent in as `text` at the time `now`.
pub fn read_incoming(text: String, now: u64) -> (r: Result<Message, Rejection>)
    ensures
        match r {
            Ok(message) => incoming(text@, now) == Ok::<MessageView, Rejection>(message@),
            Err(rejection) => incoming(text@, now) == Err::<MessageView, Rejection>(rejection),
        },
{
    let block = match Block::from_string(text) {
        Some(block) => block,
        None => { return Err(Rejection::InvalidHex); },
    };
    let message = match Message::from_block(block) {
        Some(message) => message,
        None => { return Err(Rejection::InvalidMessage); },
    };
    match screen(&message, now) {
        Some(rejection) => Err(rejection),
        None => Ok(message),
    }
}

/// The characters of a text that may be absent.
pub open spec fn optional_text(text: Option<String>) -> Option<Seq<char>> {
    match text {
        Some(text) => Some(text@),
        None => None,
    }
}

/// The server, but for its connections: it answers request lines from what
/// its repository holds.
pub struct Server<R: Repository> {
    pub repository: R,
}

impl<R: Repository> Server<R> {
    /// A server over `repository`.
    pub fn new(repository: R) -> (server: Self)
        ensures
            server.repository == repository,
    {
        Self { repository }
    }

    /// Answers one request line at the time `now`, in milliseconds since the
    /// Unix epoch. `None` says that the line gets no answer.
    pub fn answer(&mut self, line: &str, now: u64) -> (reply: Option<String>)
        ensures
            answers(
                request_of(line@),
                now,
                old(self).repository.records(),
                final(self).repository.records(),
                optional_text(reply),
            ),
    {
        match parse_request(line) {
            Request::Unknown => None,
            Request::AllMessages { limit, offset } => {
                let messages = self.repository.get_all_messages(limit, offset);
                Some(reply(&listing_blob(&messages)))
            },
            Request::MessagesByContract { address, limit, offset } => {
                let messages = self.repository.get_messages_by_contract(address, limit, offset);
                Some(reply(&listing_blob(&messages)))
            },
            Request::Send(text) => {
                match read_incoming(text, now) {
                    Err(rejection) => Some(rejection.line()),
                    Ok(message) => {
                        match message.message_type {
                            MessageType::View => {
                                let stack = Environment::view(message, &self.repository);
                                Some(reply(&stack_blob(&stack)))
                            },
                            _ => {
                                let transaction = Environment::start_transaction(
                                    message,
                                    &mut self.repository,
                                );
                                Some(reply(&transaction.get_as_block()))
                            },
                        }
                    },
                }
            },
        }
    }

    /// Answers one request line at the time of the system clock. Whatever the
    /// clock says, the answer is that of `answer` at that time.
    pub fn handle(&mut self, line: &str) -> (reply: Option<String>)
        ensures
            exists|now: u64|
                answers(
                    request_of(line@),
                    now,
                    old(self).repository.records(),
                    final(self).repository.records(),
                    optional_text(reply),
                ),
    {
        let now = current_millis();
        self.answer(line, now)
    }
}

} // verus!
