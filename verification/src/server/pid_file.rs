//! The PID file: one line with the decimal process id of the running
//! server.

use crate::error::StoreError;
use crate::protocol::{trim, trim_bounds, trim_end, trim_start};
use crate::text::ascii_bytes;
use vstd::prelude::*;
use vstd::utf8::{encode_utf8, is_ascii_chars, is_ascii_chars_encode_utf8};

verus! {

/// The character of the digit `d`.
pub open spec fn digit_char(d: nat) -> char {
    if d == 0 {
        '0'
    } else if d == 1 {
        '1'
    } else if d == 2 {
        '2'
    } else if d == 3 {
        '3'
    } else if d == 4 {
        '4'
    } else if d == 5 {
        '5'
    } else if d == 6 {
        '6'
    } else if d == 7 {
        '7'
    } else if d == 8 {
        '8'
    } else {
        '9'
    }
}

/// The decimal numeral of `n`, without leading zeros.
pub open spec fn decimal_spec(n: nat) -> Seq<char>
    decreases n,
{
    if n < 10 {
        seq![digit_char(n)]
    } else {
        decimal_spec(n / 10).push(digit_char(n % 10))
    }
}

/// The character of the digit `d`.
fn digit_of(d: u32) -> (c: char)
    requires
        d < 10,
    ensures
        c == digit_char(d as nat),
{
    if d == 0 {
        '0'
    } else if d == 1 {
        '1'
    } else if d == 2 {
        '2'
    } else if d == 3 {
        '3'
    } else if d == 4 {
        '4'
    } else if d == 5 {
        '5'
    } else if d == 6 {
        '6'
    } else if d == 7 {
        '7'
    } else if d == 8 {
        '8'
    } else {
        '9'
    }
}

/// The decimal numeral of a process id.
pub fn format_pid(pid: u32) -> (text: String)
    ensures
        text@ == decimal_spec(pid as nat),
    decreases pid,
{
    if pid < 10 {
        let mut text = String::new();
        text.push(digit_of(pid));
        proof {
            assert(text@ =~= seq![digit_char(pid as nat)]);
        }
        text
    } else {
        let mut text = format_pid(pid / 10);
        text.push(digit_of(pid % 10));
        text
    }
}

/// Whether `b` is a decimal digit.
pub open spec fn is_digit_byte(b: u8) -> bool {
    0x30 <= b <= 0x39
}

/// Whether every byte of `text` is a decimal digit.
pub open spec fn all_digits(text: Seq<u8>) -> bool {
    forall|i: int| 0 <= i < text.len() ==> is_digit_byte(#[trigger] text[i])
}

/// The number that a sequence of decimal digits stands for.
pub open spec fn digits_value(digits: Seq<u8>) -> nat
    decreases digits.len(),
{
    if digits.len() == 0 {
        0
    } else {
        digits_value(digits.drop_last()) * 10 + (digits.last() - 0x30) as nat
    }
}

/// The process id that the contents of a PID file stand for: after
/// trimming, one or more decimal digits whose number fits 32 bits.
pub open spec fn parse_pid_spec(contents: Seq<u8>) -> Option<u32> {
    let text = trim(contents);
    if text.len() > 0 && all_digits(text) && digits_value(text) <= u32::MAX {
        Some(digits_value(text) as u32)
    } else {
        None
    }
}

/// The number of a sequence of digits is at least the number of each of
/// its beginnings.
pub proof fn lemma_digits_monotone(digits: Seq<u8>, n: int)
    requires
        0 <= n <= digits.len(),
        all_digits(digits),
    ensures
        digits_value(digits.take(n)) <= digits_value(digits),
    decreases digits.len() - n,
{
    if n == digits.len() {
        assert(digits.take(n) =~= digits);
    } else {
        lemma_digits_monotone(digits, n + 1);
        assert(digits.take(n + 1).drop_last() =~= digits.take(n));
        assert(is_digit_byte(digits.take(n + 1).last()));
    }
}

/// The decimal numeral of `n` is made of digits, at least one, and stands
/// for `n`.
pub proof fn lemma_decimal_digits(n: nat)
    ensures
        decimal_spec(n).len() >= 1,
        is_ascii_chars(decimal_spec(n)),
        all_digits(ascii_bytes(decimal_spec(n))),
        digits_value(ascii_bytes(decimal_spec(n))) == n,
    decreases n,
{
    let text = decimal_spec(n);
    let bytes = ascii_bytes(text);
    if n < 10 {
        assert(bytes.drop_last() =~= Seq::<u8>::empty());
        assert(digits_value(bytes.drop_last()) == 0);
        assert(bytes.last() == digit_char(n) as u8);
        assert(digit_char(n) as u8 == 0x30 + n);
    } else {
        lemma_decimal_digits(n / 10);
        let front = decimal_spec(n / 10);
        assert(bytes.drop_last() =~= ascii_bytes(front));
        assert(bytes.last() == digit_char(n % 10) as u8);
        assert(digit_char(n % 10) as u8 == 0x30 + n % 10);
        assert(digits_value(bytes) == digits_value(bytes.drop_last()) * 10 + (bytes.last()
            - 0x30) as nat);
        assert forall|i: int| 0 <= i < bytes.len() implies is_digit_byte(#[trigger] bytes[i]) by {
            if i < front.len() {
                assert(bytes[i] == ascii_bytes(front)[i]);
            }
        }
    }
}

/// The PID file that `pid_file_contents` writes reads back as the process
/// id it was written for.
pub proof fn law_pid_file_round_trip(pid: u32)
    ensures
        parse_pid_spec(encode_utf8(decimal_spec(pid as nat).push('\n'))) == Some(pid),
{
    let n = pid as nat;
    let digits = decimal_spec(n);
    let text = digits.push('\n');
    lemma_decimal_digits(n);
    assert(is_ascii_chars(text));
    is_ascii_chars_encode_utf8(text);
    let bytes = encode_utf8(text);
    let number = ascii_bytes(digits);
    assert(bytes =~= number.push(0x0au8));
    assert(is_digit_byte(number[0]));
    assert(trim_start(bytes) == bytes);
    assert(bytes.drop_last() =~= number);
    assert(is_digit_byte(number[number.len() - 1]));
    assert(trim_end(number) == number);
    assert(trim_end(bytes) == number);
}

/// Reads the process id from the contents of a PID file.
pub fn parse_pid(contents: &str) -> (pid: Option<u32>)
    ensures
        pid == parse_pid_spec(encode_utf8(contents@)),
{
    let bytes = contents.as_bytes();
    let (start, end) = trim_bounds(bytes);
    let text = vstd::slice::slice_subrange(bytes, start, end);
    if text.len() == 0 {
        return None;
    }
    let mut value: u64 = 0;
    let mut i: usize = 0;
    proof {
        assert(text@.take(0) =~= Seq::<u8>::empty());
    }
    while i < text.len()
        invariant
            i <= text@.len(),
            text@.len() > 0,
            text@ == trim(encode_utf8(contents@)),
            value == digits_value(text@.take(i as int)),
            value <= u32::MAX,
            all_digits(text@.take(i as int)),
        decreases text@.len() - i,
    {
        let b = text[i];
        proof {
            assert(text@.take(i as int + 1).drop_last() =~= text@.take(i as int));
            assert(text@.take(i as int + 1).last() == b);
        }
        if b < 0x30 || b > 0x39 {
            proof {
                assert(!is_digit_byte(text@[i as int]));
            }
            return None;
        }
        let next: u64 = value * 10 + (b - 0x30) as u64;
        proof {
            assert forall|j: int| 0 <= j < i + 1 implies is_digit_byte(
                #[trigger] text@.take(i as int + 1)[j],
            ) by {
                if j < i {
                    assert(text@.take(i as int + 1)[j] == text@.take(i as int)[j]);
                }
            }
        }
        if next > 0xffff_ffffu64 {
            proof {
                if all_digits(text@) {
                    lemma_digits_monotone(text@, i as int + 1);
                }
            }
            return None;
        }
        value = next;
        i = i + 1;
    }
    proof {
        assert(text@.take(text@.len() as int) =~= text@);
    }
    Some(value as u32)
}

/// The contents of the PID file of the process `pid`: its decimal numeral
/// and a newline.
pub fn pid_file_contents(pid: u32) -> (contents: String)
    ensures
        contents@ == decimal_spec(pid as nat).push('\n'),
{
    let mut contents = format_pid(pid);
    contents.push('\n');
    contents
}

/// What to do about the PID file at startup.
#[derive(Debug, Clone, Copy, PartialEq, Eq, Structural)]
pub enum PidCheck {
    /// No instance is recorded: write the PID file and go on.
    Proceed,
    /// The file holds no process id: remove it, then go on.
    RemoveStale,
    /// The file names a process: find out whether it is alive.
    Probe(u32),
}

/// Decides what to do about the PID file from its contents, if there is
/// one.
pub fn check_pid_file(contents: Option<&str>) -> (check: PidCheck)
    ensures
        check == (match contents {
            None => PidCheck::Proceed,
            Some(text) => match parse_pid_spec(encode_utf8(text@)) {
                Some(pid) => PidCheck::Probe(pid),
                None => PidCheck::RemoveStale,
            },
        }),
{
    match contents {
        None => PidCheck::Proceed,
        Some(text) => match parse_pid(text) {
            Some(pid) => PidCheck::Probe(pid),
            None => PidCheck::RemoveStale,
        },
    }
}

/// Decides startup once the process named in the PID file has been probed:
/// a live process refuses the start, a dead one leaves a stale file to
/// remove.
pub fn after_probe(pid: u32, alive: bool) -> (go: Result<PidCheck, StoreError>)
    ensures
        alive ==> go == Err::<PidCheck, StoreError>(StoreError::AlreadyRunning(pid)),
        !alive ==> go == Ok::<PidCheck, StoreError>(PidCheck::RemoveStale),
{
    if alive {
        Err(StoreError::AlreadyRunning(pid))
    } else {
        Ok(PidCheck::RemoveStale)
    }
}

} // verus!
