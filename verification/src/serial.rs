//! The serial console: what is sent over the line for each message, and how
//! the line is driven.

use vstd::prelude::*;
use vstd::string::StringSliceAdditionalSpecFns;

verus! {

/// The first port of the console's controller.
pub const COM1: u16 = 0x3f8;

/// How often the line is asked whether it is ready before a byte is dropped.
pub const SPIN_LIMIT: u32 = 1_000_000;

/// The status bit that says that the line takes a byte.
pub const LINE_READY: u8 = 0x20;

/// A message for the console.
#[derive(Clone, Copy, Debug, PartialEq, Eq)]
pub enum LogRecord {
    Line(&'static str),
    Hex(&'static str, u64),
}

/// The port writes, in order, that set the controller up: no interrupts,
/// divisor 1, eight data bits, no parity, buffers on and cleared, lines ready.
pub fn init() -> (writes: Vec<(u16, u8)>)
    ensures
        writes@ == seq![
            (0x3f9u16, 0x00u8),
            (0x3fbu16, 0x80u8),
            (0x3f8u16, 0x01u8),
            (0x3f9u16, 0x00u8),
            (0x3fbu16, 0x03u8),
            (0x3fau16, 0xc7u8),
            (0x3fcu16, 0x0bu8),
        ],
{
    let mut writes: Vec<(u16, u8)> = Vec::new();
    writes.push((COM1 + 1, 0x00));
    writes.push((COM1 + 3, 0x80));
    writes.push((COM1, 0x01));
    writes.push((COM1 + 1, 0x00));
    writes.push((COM1 + 3, 0x03));
    writes.push((COM1 + 2, 0xc7));
    writes.push((COM1 + 4, 0x0b));
    writes
}

/// The bytes on the line for some text: each newline has a carriage return put
/// before it.
pub open spec fn on_the_line(text: Seq<u8>) -> Seq<u8>
    decreases text.len(),
{
    if text.len() == 0 {
        Seq::empty()
    } else if text.last() == 10 {
        on_the_line(text.drop_last()).push(13).push(10)
    } else {
        on_the_line(text.drop_last()).push(text.last())
    }
}

/// The character of a hexadecimal digit.
pub open spec fn hex_digit(digit: u64) -> u8 {
    if digit < 10 {
        (48 + digit) as u8
    } else {
        (87 + digit) as u8
    }
}

/// The sixteen hexadecimal digits of a number, the highest first.
pub open spec fn hex_digits(value: u64) -> Seq<u8> {
    Seq::new(16, |place: int| hex_digit((value >> ((60 - 4 * place) as u64)) & 0xf))
}

/// The text that a record stands for.
pub open spec fn record_text(record: LogRecord) -> Seq<u8> {
    match record {
        LogRecord::Line(message) => message.spec_bytes().push(10),
        LogRecord::Hex(label, value) => (label.spec_bytes() + seq![48u8, 120u8] + hex_digits(
            value,
        )).push(10),
    }
}

fn write_str(line: &mut Vec<u8>, text: &[u8])
    ensures
        final(line)@ == old(line)@ + on_the_line(text@),
{
    let ghost before = line@;
    let mut index: usize = 0;
    proof {
        assert(text@.take(0) =~= Seq::empty());
        assert(before + Seq::empty() =~= before);
    }
    while index < text.len()
        invariant
            index <= text@.len(),
            line@ == before + on_the_line(text@.take(index as int)),
        decreases text@.len() - index,
    {
        let byte: u8 = text[index];
        proof {
            assert(text@.take(index + 1).drop_last() =~= text@.take(index as int));
        }
        if byte == 10 {
            line.push(13);
        }
        line.push(byte);
        proof {
            assert(line@ =~= before + on_the_line(text@.take(index + 1)));
        }
        index = index + 1;
    }
    proof {
        assert(text@.take(index as int) =~= text@);
    }
}

/// The bytes on the line for `message`, on a line of its own.
pub fn log_line(message: &str) -> (line: Vec<u8>)
    ensures
        line@ == on_the_line(message.spec_bytes().push(10)),
{
    let mut line: Vec<u8> = Vec::new();
    write_str(&mut line, message.as_bytes());
    line.push(13);
    line.push(10);
    proof {
        assert(message.spec_bytes().push(10).drop_last() =~= message.spec_bytes());
        assert(line@ =~= on_the_line(message.spec_bytes().push(10)));
    }
    line
}

/// The bytes on the line for `label`, followed by `value` as a hexadecimal
/// number of sixteen digits, on a line of its own.
pub fn log_hex(label: &str, value: u64) -> (line: Vec<u8>)
    ensures
        line@ == on_the_line(
            (label.spec_bytes() + seq![48u8, 120u8] + hex_digits(value)).push(10),
        ),
{
    let mut text: Vec<u8> = Vec::new();
    text.push(48);
    text.push(120);
    let mut place: u64 = 0;
    proof {
        assert(hex_digits(value).take(0) =~= Seq::empty());
        assert(text@ =~= seq![48u8, 120u8] + hex_digits(value).take(0));
    }
    while place < 16
        invariant
            place <= 16,
            text@ == seq![48u8, 120u8] + hex_digits(value).take(place as int),
        decreases 16 - place,
    {
        let shifted: u64 = value >> (60 - 4 * place);
        proof {
            assert(shifted & 0xf < 16) by (bit_vector);
        }
        let digit: u8 = (shifted & 0xf) as u8;
        text.push(
            if digit < 10 {
                48 + digit
            } else {
                87 + digit
            },
        );
        proof {
            assert(hex_digits(value).take(place + 1) =~= hex_digits(value).take(place as int).push(
                hex_digits(value)[place as int],
            ));
            assert(text@ =~= seq![48u8, 120u8] + hex_digits(value).take(place + 1));
        }
        place = place + 1;
    }
    let mut line: Vec<u8> = Vec::new();
    write_str(&mut line, label.as_bytes());
    write_str(&mut line, text.as_slice());
    line.push(13);
    line.push(10);
    proof {
        assert(hex_digits(value).take(16) =~= hex_digits(value));
        let all = label.spec_bytes() + seq![48u8, 120u8] + hex_digits(value);
        assert(label.spec_bytes() + text@ =~= all);
        lemma_on_the_line_splits(label.spec_bytes(), text@);
        assert(all.push(10).drop_last() =~= all);
        assert(line@ =~= on_the_line(all.push(10)));
    }
    line
}

/// The bytes on the line for a record.
pub fn log_record(record: LogRecord) -> (line: Vec<u8>)
    ensures
        line@ == on_the_line(record_text(record)),
{
    match record {
        LogRecord::Line(message) => log_line(message),
        LogRecord::Hex(label, value) => log_hex(label, value),
    }
}

/// What to do about a byte that waits to be sent.
#[derive(Clone, Copy, Debug, PartialEq, Eq, Structural)]
pub enum WriteStep {
    /// The line takes the byte: send it.
    Send,
    /// Ask the line again; it has been asked this many times.
    Wait(u32),
    /// The line has been asked often enough: drop the byte.
    GiveUp,
}

/// Decides about a waiting byte when the line, asked `polls` times before, now
/// answers with `status`.
pub fn write_byte(polls: u32, status: u8) -> (step: WriteStep)
    requires
        polls < 1_000_000,
    ensures
        step == if status & 0x20 != 0 {
            WriteStep::Send
        } else if polls + 1 < 1_000_000 {
            WriteStep::Wait((polls + 1) as u32)
        } else {
            WriteStep::GiveUp
        },
{
    if status & LINE_READY != 0 {
        WriteStep::Send
    } else if polls + 1 < SPIN_LIMIT {
        WriteStep::Wait(polls + 1)
    } else {
        WriteStep::GiveUp
    }
}

proof fn lemma_on_the_line_splits(one: Seq<u8>, two: Seq<u8>)
    ensures
        on_the_line(one + two) == on_the_line(one) + on_the_line(two),
    decreases two.len(),
{
    if two.len() == 0 {
        assert(one + two =~= one);
        assert(on_the_line(one) + on_the_line(two) =~= on_the_line(one));
    } else {
        assert((one + two).drop_last() =~= one + two.drop_last());
        lemma_on_the_line_splits(one, two.drop_last());
        assert(on_the_line(one + two) =~= on_the_line(one) + on_the_line(two));
    }
}

/// Two texts sent one after the other put on the line what they would put there
/// as one text.
pub proof fn law_messages_join(one: Seq<u8>, two: Seq<u8>)
    ensures
        on_the_line(one + two) == on_the_line(one) + on_the_line(two),
{
    lemma_on_the_line_splits(one, two);
}

/// The number that hexadecimal digits stand for.
pub open spec fn hex_number(digits: Seq<u8>) -> int
    decreases digits.len(),
{
    if digits.len() == 0 {
        0
    } else {
        let last = digits.last();
        16 * hex_number(digits.drop_last()) + (if last < 58 {
            last - 48
        } else {
            last - 87
        })
    }
}

/// The digits of a logged number stand for that number.
pub proof fn law_hex_digits_stand_for_the_number(value: u64)
    ensures
        hex_digits(value).len() == 16,
        hex_number(hex_digits(value)) == value,
{
    lemma_hex_prefix(value, 16);
    assert(hex_digits(value).take(16) =~= hex_digits(value));
    assert(value >> 0 == value) by (bit_vector);
}

proof fn lemma_hex_prefix(value: u64, count: int)
    requires
        1 <= count <= 16,
    ensures
        hex_number(hex_digits(value).take(count)) == value >> ((64 - 4 * count) as u64),
    decreases count,
{
    let digits = hex_digits(value).take(count);
    assert(digits.drop_last() =~= hex_digits(value).take(count - 1));
    let shift = (64 - 4 * count) as u64;
    let shifted = value >> shift;
    assert(digits.last() == hex_digit(shifted & 0xf));
    assert(shifted & 0xf < 16) by (bit_vector);
    if count == 1 {
        assert(hex_digits(value).take(0) =~= Seq::empty());
        assert(hex_number(digits.drop_last()) == 0);
        assert(shifted & 0xf == shifted) by (bit_vector)
            requires
                shifted == value >> 60,
        ;
    } else {
        lemma_hex_prefix(value, count - 1);
        let above = value >> ((shift + 4) as u64);
        assert(shifted == 16 * above + (shifted & 0xf)) by (bit_vector)
            requires
                shift <= 56,
                shifted == value >> shift,
                above == value >> ((shift + 4) as u64),
        ;
    }
}

/// A byte goes over the line as it is, except that a carriage return goes before a newline.
pub proof fn law_bytes_on_the_line(byte: u8)
    ensures
        on_the_line(Seq::empty()) == Seq::<u8>::empty(),
        on_the_line(seq![byte]) == if byte == 0x0a {
            seq![0x0du8, 0x0au8]
        } else {
            seq![byte]
        },
{
    reveal_with_fuel(on_the_line, 2);
    assert(seq![byte].drop_last() =~= Seq::empty());
    assert(on_the_line(seq![byte]) =~= if byte == 0x0a {
        seq![0x0du8, 0x0au8]
    } else {
        seq![byte]
    });
}

/// A record is a line of text: a message, or a label with a number behind it, written with
/// `0x` and sixteen digits, which are 0 to 9 and a to f.
pub proof fn law_records_are_lines(message: &'static str, label: &'static str, value: u64)
    ensures
        record_text(LogRecord::Line(message)) == message.spec_bytes() + seq![0x0au8],
        ({
            let text = record_text(LogRecord::Hex(label, value));
            let size = label.spec_bytes().len() as int;
            &&& text.len() == size + 19
            &&& text.take(size) == label.spec_bytes()
            &&& text[size] == 0x30
            &&& text[size + 1] == 0x78
            &&& hex_number(text.subrange(size + 2, size + 18)) == value
            &&& text[size + 18] == 0x0a
            &&& forall|place: int|
                size + 2 <= place < size + 18 ==> {
                    let digit = #[trigger] text[place];
                    0x30 <= digit <= 0x39 || 0x61 <= digit <= 0x66
                }
        }),
{
    assert(record_text(LogRecord::Line(message)) =~= message.spec_bytes() + seq![0x0au8]);
    let text = record_text(LogRecord::Hex(label, value));
    let size = label.spec_bytes().len() as int;
    law_hex_digits_stand_for_the_number(value);
    assert(text.take(size) =~= label.spec_bytes());
    assert(text.subrange(size + 2, size + 18) =~= hex_digits(value));
    assert forall|place: int| size + 2 <= place < size + 18 implies {
        let digit = #[trigger] text[place];
        0x30 <= digit <= 0x39 || 0x61 <= digit <= 0x66
    } by {
        let at = place - size - 2;
        assert(text[place] == hex_digits(value)[at]);
        let shifted = value >> ((60 - 4 * at) as u64);
        assert(shifted & 0xf < 16) by (bit_vector);
    }
}

} // verus!
