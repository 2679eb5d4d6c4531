//! Request framing: start marker, the command code in decimal, an optional
//! space-prefixed argument, end marker.

use crate::catalog::{lookup, Command, PrinterCommand};
use crate::text::{ascii_chars, lemma_ascii_is_text, utf8_text};
use vstd::prelude::*;
use vstd::utf8::*;

verus! {

/// The byte that separates the code from the argument.
pub const SPACE: u8 = 0x20;

/// The two bytes every request starts with: `7E 4D`.
pub open spec fn start_marker() -> Seq<u8> {
    seq![0x7eu8, 0x4du8]
}

/// The two bytes every request ends with: `0D 0A`.
pub open spec fn end_marker() -> Seq<u8> {
    seq![0x0du8, 0x0au8]
}

/// The ASCII digit for `d`, which is below ten.
pub open spec fn digit(d: nat) -> u8 {
    (48 + d) as u8
}

/// `n` in decimal ASCII digits: no sign, no leading zero.
pub open spec fn decimal(n: nat) -> Seq<u8>
    decreases n,
{
    if n < 10 {
        seq![digit(n)]
    } else {
        decimal(n / 10).push(digit(n % 10))
    }
}

/// What follows the code in a frame: nothing, or a space and the argument.
pub open spec fn argument_segment(argument: Option<Seq<u8>>) -> Seq<u8> {
    match argument {
        Some(bytes) => seq![SPACE] + bytes,
        None => Seq::empty(),
    }
}

/// The request frame for a code and an optional argument.
pub open spec fn frame(code: nat, argument: Option<Seq<u8>>) -> Seq<u8> {
    start_marker() + decimal(code) + argument_segment(argument) + end_marker()
}

/// The bytes of an optional text argument: its UTF-8 encoding.
pub open spec fn text_bytes(argument: Option<Seq<char>>) -> Option<Seq<u8>> {
    match argument {
        Some(text) => Some(encode_utf8(text)),
        None => None,
    }
}

/// The characters of an optional string slice.
pub open spec fn text_of(argument: Option<&str>) -> Option<Seq<char>> {
    match argument {
        Some(text) => Some(text@),
        None => None,
    }
}

/// Appends `bytes` to `out`.
pub fn push_bytes(out: &mut Vec<u8>, bytes: &[u8])
    ensures
        final(out)@ == old(out)@ + bytes@,
{
    let mut i: usize = 0;
    while i < bytes.len()
        invariant
            i <= bytes.len(),
            out@ == old(out)@ + bytes@.subrange(0, i as int),
        decreases bytes.len() - i,
    {
        out.push(bytes[i]);
        i += 1;
    }
    assert(bytes@.subrange(0, i as int) =~= bytes@);
}

/// Appends `n` in decimal ASCII digits to `out`.
pub fn push_decimal(out: &mut Vec<u8>, n: u64)
    ensures
        final(out)@ == old(out)@ + decimal(n as nat),
    decreases n,
{
    if n >= 10 {
        push_decimal(out, n / 10);
    }
    let d: u8 = (n % 10) as u8;
    out.push(48 + d);
}

/// Builds the request frame for `code`, carrying the bytes of `argument` if
/// there is one.
///
/// The argument's bytes are passed through as they are; nothing is escaped.
pub fn encode_bytes(code: u16, argument: Option<&[u8]>) -> (out: Vec<u8>)
    ensures
        out@ == frame(
            code as nat,
            match argument {
                Some(bytes) => Some(bytes@),
                None => None,
            },
        ),
{
    let mut out: Vec<u8> = Vec::new();
    out.push(0x7e);
    out.push(0x4d);
    push_decimal(&mut out, code as u64);
    match argument {
        Some(bytes) => {
            out.push(SPACE);
            push_bytes(&mut out, bytes);
        },
        None => {},
    }
    out.push(0x0d);
    out.push(0x0a);
    out
}

/// Builds the request frame of `command`, carrying `argument` if there is one.
///
/// The argument is text the caller has formatted; its UTF-8 bytes go into the
/// frame as they are.
pub fn encode(command: &Command, argument: Option<&str>) -> (out: Vec<u8>)
    ensures
        out@ == frame(command.code as nat, text_bytes(text_of(argument))),
{
    match argument {
        Some(text) => encode_bytes(command.code, Some(text.as_bytes())),
        None => encode_bytes(command.code, None),
    }
}

impl PrinterCommand {
    /// The operation's code as text, in decimal.
    pub fn to_string(&self) -> (text: String)
        ensures
            encode_utf8(text@) == decimal(self.spec_code() as nat),
            text@ == ascii_chars(decimal(self.spec_code() as nat)),
    {
        let mut digits: Vec<u8> = Vec::new();
        push_decimal(&mut digits, self.code() as u64);
        proof {
            lemma_decimal_canonical(self.spec_code() as nat);
            lemma_ascii_is_text(digits@);
        }
        match utf8_text(digits.as_slice()) {
            Some(text) => {
                proof {
                    encode_utf8_decode_utf8(text@);
                }
                text.to_owned()
            },
            None => String::new(),
        }
    }

    /// Builds the request frame of this operation.
    pub fn build(&self, cmd_data: Option<String>) -> (cmd_bytes: Vec<u8>)
        ensures
            cmd_bytes@ == frame(
                self.spec_code() as nat,
                match cmd_data {
                    Some(text) => Some(encode_utf8(text@)),
                    None => None,
                },
            ),
    {
        let command = lookup(*self);
        match &cmd_data {
            Some(text) => encode(&command, Some(text.as_str())),
            None => encode(&command, None),
        }
    }
}

/// Whether a byte is an ASCII digit.
pub open spec fn is_digit(byte: u8) -> bool {
    48 <= byte <= 57
}

/// The number that a run of ASCII digits stands for.
pub open spec fn decimal_value(digits: Seq<u8>) -> nat
    decreases digits.len(),
{
    if digits.len() == 0 {
        0
    } else {
        decimal_value(digits.drop_last()) * 10 + (digits.last() - 48) as nat
    }
}

/// A run of digits as `decimal` writes them: at least one, and no leading
/// zero but for the number zero itself.
pub open spec fn canonical(digits: Seq<u8>) -> bool {
    &&& digits.len() >= 1
    &&& forall|i: int| 0 <= i < digits.len() ==> is_digit(#[trigger] digits[i])
    &&& digits.len() == 1 || digits[0] != 48
}

/// `decimal` writes canonical digits that stand for the number written.
pub proof fn lemma_decimal_canonical(n: nat)
    ensures
        canonical(decimal(n)),
        decimal_value(decimal(n)) == n,
        n > 0 ==> decimal(n)[0] != 48,
    decreases n,
{
    if n < 10 {
        assert(decimal(n).drop_last() =~= Seq::<u8>::empty());
        assert(decimal_value(decimal(n).drop_last()) == 0);
    } else {
        lemma_decimal_canonical(n / 10);
        let shorter = decimal(n / 10);
        assert(decimal(n).drop_last() =~= shorter);
        assert(decimal(n)[0] == shorter[0]);
    }
}

/// Digits without a leading zero stand for a positive number.
pub proof fn lemma_value_positive(digits: Seq<u8>)
    requires
        canonical(digits),
        digits[0] != 48,
    ensures
        decimal_value(digits) > 0,
    decreases digits.len(),
{
    if digits.len() == 1 {
        assert(digits.drop_last() =~= Seq::<u8>::empty());
        assert(decimal_value(digits.drop_last()) == 0);
    } else {
        assert(digits.drop_last()[0] == digits[0]);
        lemma_value_positive(digits.drop_last());
    }
}

/// Canonical digits are what `decimal` writes for the number they stand for.
pub proof fn lemma_canonical_is_decimal(digits: Seq<u8>)
    requires
        canonical(digits),
    ensures
        decimal(decimal_value(digits)) == digits,
    decreases digits.len(),
{
    let shorter = digits.drop_last();
    if digits.len() == 1 {
        assert(shorter =~= Seq::<u8>::empty());
        assert(decimal_value(shorter) == 0);
        assert(decimal(decimal_value(digits)) =~= digits);
    } else {
        assert(shorter[0] == digits[0]);
        lemma_canonical_is_decimal(shorter);
        lemma_value_positive(shorter);
        let value = decimal_value(digits);
        assert(value / 10 == decimal_value(shorter));
        assert(value % 10 == digits.last() - 48);
        assert(decimal(value) =~= digits);
    }
}

/// Digits stand for no less than any leading run of them does.
pub proof fn lemma_value_grows(digits: Seq<u8>, k: int)
    requires
        0 <= k <= digits.len(),
        forall|i: int| 0 <= i < digits.len() ==> is_digit(#[trigger] digits[i]),
    ensures
        decimal_value(digits.subrange(0, k)) <= decimal_value(digits),
    decreases digits.len() - k,
{
    if k == digits.len() {
        assert(digits.subrange(0, k) =~= digits);
    } else {
        lemma_value_grows(digits, k + 1);
        assert(digits.subrange(0, k + 1).drop_last() =~= digits.subrange(0, k));
    }
}

/// The layout of every frame: the start marker, the code's digits, then
/// either the end marker at once, or one space, the argument as it is, and
/// the end marker. Before the argument there is no space, and without an
/// argument there is none in the whole frame.
pub proof fn lemma_frame_layout(code: nat, argument: Option<Seq<u8>>)
    ensures
        ({
            let bytes = frame(code, argument);
            let digits = decimal(code).len() as int;
            &&& digits >= 1
            &&& bytes.len() == 4 + digits + argument_segment(argument).len()
            &&& bytes.subrange(0, 2) == start_marker()
            &&& bytes.subrange(bytes.len() - 2, bytes.len() as int) == end_marker()
            &&& bytes.subrange(2, 2 + digits) == decimal(code)
            &&& forall|i: int| 2 <= i < 2 + digits ==> is_digit(#[trigger] bytes[i])
            &&& forall|i: int| 0 <= i < 2 + digits ==> #[trigger] bytes[i] != SPACE
            &&& match argument {
                Some(text) => bytes[2 + digits] == SPACE && bytes.subrange(
                    3 + digits,
                    bytes.len() - 2,
                ) == text,
                None => forall|i: int| 0 <= i < bytes.len() ==> #[trigger] bytes[i] != SPACE,
            }
        }),
{
    lemma_decimal_canonical(code);
    let bytes = frame(code, argument);
    let digits = decimal(code).len() as int;
    assert(bytes.subrange(0, 2) =~= start_marker());
    assert(bytes.subrange(bytes.len() - 2, bytes.len() as int) =~= end_marker());
    assert(bytes.subrange(2, 2 + digits) =~= decimal(code));
    assert forall|i: int| 2 <= i < 2 + digits implies is_digit(#[trigger] bytes[i]) by {
        assert(bytes[i] == decimal(code)[i - 2]);
    }
    match argument {
        Some(text) => {
            assert(bytes.subrange(3 + digits, bytes.len() - 2) =~= text);
        },
        None => {},
    }
}

/// A frame belongs to one code and one argument only.
pub proof fn lemma_frame_injective(
    code: nat,
    argument: Option<Seq<u8>>,
    other_code: nat,
    other_argument: Option<Seq<u8>>,
)
    requires
        frame(code, argument) == frame(other_code, other_argument),
    ensures
        code == other_code,
        argument == other_argument,
{
    lemma_frame_layout(code, argument);
    lemma_frame_layout(other_code, other_argument);
    lemma_decimal_canonical(code);
    lemma_decimal_canonical(other_code);
    let bytes = frame(code, argument);
    let digits = decimal(code).len() as int;
    let other_digits = decimal(other_code).len() as int;
    if digits < other_digits {
        assert(is_digit(bytes[2 + digits]));
        if argument is None {
            assert(bytes.subrange(bytes.len() - 2, bytes.len() as int)[0] == bytes[2 + digits]);
        }
    }
    if other_digits < digits {
        assert(is_digit(bytes[2 + other_digits]));
        if other_argument is None {
            assert(bytes.subrange(bytes.len() - 2, bytes.len() as int)[0] == bytes[2
                + other_digits]);
        }
    }
    assert(digits == other_digits);
    assert(decimal(code) == decimal(other_code));
    if argument is Some && other_argument is None {
        assert(bytes[2 + digits] == SPACE);
    }
    if argument is None && other_argument is Some {
        assert(bytes[2 + digits] == SPACE);
    }
}

} // verus!
