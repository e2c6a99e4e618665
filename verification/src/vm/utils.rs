//! Big-endian integers, relative jump operands and small helpers of the machine.
use crate::vm::Value;
use vstd::prelude::*;
use vstd::slice::slice_index_get;
use vstd::string::StringExecFns;

verus! {

/// The number that a byte string denotes when read as a big-endian integer.
pub open spec fn be_value(bytes: Seq<u8>) -> nat
    decreases bytes.len(),
{
    if bytes.len() == 0 {
        0
    } else {
        be_value(bytes.drop_last()) * 256 + bytes.last() as nat
    }
}

/// The big-endian byte string of `width` bytes that holds the low `width` bytes of `value`.
pub open spec fn be_bytes(value: nat, width: nat) -> Seq<u8>
    decreases width,
{
    if width == 0 {
        Seq::empty()
    } else {
        be_bytes(value / 256, (width - 1) as nat).push((value % 256) as u8)
    }
}

/// `256` to the power `width`: the number of values that `width` bytes can hold.
pub open spec fn radix(width: nat) -> nat
    decreases width,
{
    if width == 0 {
        1
    } else {
        256 * radix((width - 1) as nat)
    }
}

/// The widths the codec uses, as plain numbers.
pub proof fn lemma_radix_values()
    ensures
        radix(0) == 1,
        radix(1) == 0x100,
        radix(2) == 0x1_0000,
        radix(3) == 0x100_0000,
        radix(4) == 0x1_0000_0000,
        radix(5) == 0x100_0000_0000,
        radix(6) == 0x1_0000_0000_0000,
        radix(7) == 0x100_0000_0000_0000,
        radix(8) == 0x1_0000_0000_0000_0000,
{
    reveal_with_fuel(radix, 10);
}

/// A string of `n` bytes denotes a number below `256^n`.
pub proof fn lemma_be_value_bound(bytes: Seq<u8>)
    ensures
        be_value(bytes) < radix(bytes.len()),
    decreases bytes.len(),
{
    if bytes.len() > 0 {
        lemma_be_value_bound(bytes.drop_last());
    }
}

/// `be_bytes` yields exactly `width` bytes.
pub proof fn lemma_be_bytes_len(value: nat, width: nat)
    ensures
        be_bytes(value, width).len() == width,
    decreases width,
{
    if width > 0 {
        lemma_be_bytes_len(value / 256, (width - 1) as nat);
    }
}

/// Reading back what was written: a number that fits in `width` bytes survives the round trip.
pub proof fn lemma_be_value_of_bytes(value: nat, width: nat)
    requires
        value < radix(width),
    ensures
        be_value(be_bytes(value, width)) == value,
    decreases width,
{
    if width > 0 {
        let rest = be_bytes(value / 256, (width - 1) as nat);
        lemma_be_value_of_bytes(value / 256, (width - 1) as nat);
        assert(be_bytes(value, width).drop_last() =~= rest);
    }
}

/// Writing back what was read: every byte string is the encoding of the number it denotes.
pub proof fn lemma_be_bytes_of_value(bytes: Seq<u8>)
    ensures
        be_bytes(be_value(bytes), bytes.len()) == bytes,
    decreases bytes.len(),
{
    if bytes.len() > 0 {
        lemma_be_bytes_of_value(bytes.drop_last());
        let v = be_value(bytes);
        assert(v / 256 == be_value(bytes.drop_last()));
        assert(v % 256 == bytes.last() as nat);
        assert(be_bytes(v, bytes.len()) =~= bytes);
    } else {
        assert(be_bytes(be_value(bytes), bytes.len()) =~= bytes);
    }
}

/// Reads at most eight bytes as a big-endian integer.
pub(crate) fn decode_be(slice: &[u8]) -> (value: u64)
    requires
        slice@.len() <= 8,
    ensures
        value as nat == be_value(slice@),
{
    let mut value: u64 = 0;
    let mut i: usize = 0;
    while i < slice.len()
        invariant
            i <= slice@.len() <= 8,
            value as nat == be_value(slice@.take(i as int)),
        decreases slice@.len() - i,
    {
        proof {
            lemma_radix_values();
            lemma_be_value_bound(slice@.take(i as int));
            reveal_with_fuel(radix, 10);
            assert(slice@.take(i + 1).drop_last() =~= slice@.take(i as int));
        }
        let byte = *slice_index_get(slice, i);
        value = value * 256 + byte as u64;
        i += 1;
    }
    proof {
        assert(slice@.take(i as int) =~= slice@);
    }
    value
}

/// Appends the `width` low bytes of `value`, most significant first.
pub(crate) fn encode_be(bytes: &mut Vec<u8>, value: u64, width: usize)
    requires
        width <= 8,
    ensures
        final(bytes)@ == old(bytes)@ + be_bytes(value as nat, width as nat),
    decreases width,
{
    if width > 0 {
        encode_be(bytes, value / 256, width - 1);
        bytes.push((value % 256) as u8);
        assert(final(bytes)@ =~= old(bytes)@ + be_bytes(value as nat, width as nat));
    } else {
        assert(bytes@ =~= old(bytes)@ + be_bytes(value as nat, width as nat));
    }
}

/// The numbers of a pair of values, where both are numbers.
pub open spec fn number_pair(pair: Option<(&Value, &Value)>) -> Option<(u64, u64)> {
    match pair {
        Some((Value::Number(first), Value::Number(second))) => Some((*first, *second)),
        _ => None,
    }
}

/// Applies `f` to a pair of numbers. Gives `None` where the pair is absent or
/// one of the two is no number, and otherwise what `f` gives.
pub fn operate<F>(pair: Option<(&Value, &Value)>, f: F) -> (r: Option<u64>) where
    F: Fn(u64, u64) -> Option<u64>,

    requires
        number_pair(pair) matches Some((first, second)) ==> f.requires((first, second)),
    ensures
        match number_pair(pair) {
            Some((first, second)) => f.ensures((first, second), r),
            None => r is None,
        },
{
    if let Some(pair) = pair {
        if let Value::Number(first) = pair.0 {
            if let Value::Number(second) = pair.1 {
                return f(*first, *second);
            }
        }
    }
    None
}

/// `1` for true and `0` for false.
pub open spec fn sign(value: bool) -> u64 {
    if value {
        1
    } else {
        0
    }
}

/// Turns the outcome of a comparison into the number the machine pushes.
pub fn cond_sign(value: bool) -> (r: u64)
    ensures
        r == sign(value),
{
    if value {
        1
    } else {
        0
    }
}

/// The one byte of `slice`, when it has exactly one.
pub fn get_u8(slice: &[u8]) -> (r: Option<u8>)
    ensures
        r == (if slice@.len() == 1 {
            Some(slice@[0])
        } else {
            None::<u8>
        }),
{
    if slice.len() == 1 {
        Some(*slice_index_get(slice, 0))
    } else {
        None
    }
}

/// The big-endian `u16` that `slice` holds, when it has exactly two bytes.
pub fn get_u16(slice: &[u8]) -> (r: Option<u16>)
    ensures
        r == (if slice@.len() == 2 {
            Some(be_value(slice@) as u16)
        } else {
            None::<u16>
        }),
        slice@.len() == 2 ==> be_value(slice@) <= u16::MAX,
{
    if slice.len() == 2 {
        proof {
            lemma_be_value_bound(slice@);
            lemma_radix_values();
        }
        Some(decode_be(slice) as u16)
    } else {
        None
    }
}

/// The big-endian `u64` that `slice` holds, when it has exactly eight bytes.
pub fn get_u64(slice: &[u8]) -> (r: Option<u64>)
    ensures
        r == (if slice@.len() == 8 {
            Some(be_value(slice@) as u64)
        } else {
            None::<u64>
        }),
        slice@.len() == 8 ==> be_value(slice@) <= u64::MAX,
{
    if slice.len() == 8 {
        proof {
            lemma_be_value_bound(slice@);
            lemma_radix_values();
        }
        Some(decode_be(slice))
    } else {
        None
    }
}

/// The decimal digit of a number below ten.
pub open spec fn decimal_digit(n: nat) -> char {
    (48 + n) as char
}

/// A number in decimal, with no sign and no leading zero.
pub open spec fn decimal_text(value: nat) -> Seq<char>
    decreases value,
{
    if value < 10 {
        seq![decimal_digit(value)]
    } else {
        decimal_text(value / 10).push(decimal_digit(value % 10))
    }
}

/// The text of one decimal digit.
fn digit_text(digit: u64) -> (text: &'static str)
    requires
        digit < 10,
    ensures
        text@ == seq![decimal_digit(digit as nat)],
{
    proof {
        reveal_strlit("0");
        reveal_strlit("1");
        reveal_strlit("2");
        reveal_strlit("3");
        reveal_strlit("4");
        reveal_strlit("5");
        reveal_strlit("6");
        reveal_strlit("7");
        reveal_strlit("8");
        reveal_strlit("9");
    }
    let text = if digit == 0 {
        "0"
    } else if digit == 1 {
        "1"
    } else if digit == 2 {
        "2"
    } else if digit == 3 {
        "3"
    } else if digit == 4 {
        "4"
    } else if digit == 5 {
        "5"
    } else if digit == 6 {
        "6"
    } else if digit == 7 {
        "7"
    } else if digit == 8 {
        "8"
    } else {
        "9"
    };
    assert(text@ =~= seq![decimal_digit(digit as nat)]);
    text
}

/// Writes a number in decimal.
pub fn decimal_string(value: u64) -> (text: String)
    ensures
        text@ == decimal_text(value as nat),
    decreases value,
{
    if value < 10 {
        digit_text(value).to_owned()
    } else {
        let text = decimal_string(value / 10).concat(digit_text(value % 10));
        assert(text@ =~= decimal_text(value as nat));
        text
    }
}

/// Which way a relative jump goes.
#[derive(Clone, Copy, Debug, PartialEq, Eq, Structural)]
pub enum Direction {
    Forward,
    Backward,
}

/// The direction and distance that a relative operand denotes: the top bit is the
/// sign, the other fifteen bits the distance.
pub open spec fn relative_reference(reference: u16) -> (Direction, u16) {
    if reference >= 0x8000 {
        (Direction::Backward, (reference - 0x8000) as u16)
    } else {
        (Direction::Forward, reference)
    }
}

/// Splits a relative operand into direction and distance.
pub fn get_relative_reference(reference: u16) -> (r: (Direction, u16))
    ensures
        r == relative_reference(reference),
{
    assert((reference & (1u16 << 15) != 0) <==> reference >= 0x8000) by (bit_vector);
    assert(reference >= 0x8000 ==> reference ^ (1u16 << 15) == (reference - 0x8000) as u16)
        by (bit_vector);
    if reference & (1u16 << 15) != 0 {
        (Direction::Backward, reference ^ (1u16 << 15))
    } else {
        (Direction::Forward, reference)
    }
}

} // verus!
