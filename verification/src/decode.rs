//! Reading a request frame back: the inverse of the encoder, for checking
//! what was put on the wire.

use crate::frame::{
    canonical, decimal, decimal_value, frame, is_digit, lemma_canonical_is_decimal,
    lemma_decimal_canonical, lemma_frame_injective, lemma_frame_layout, lemma_value_grows, SPACE,
};
use vstd::prelude::*;
use vstd::slice::*;

verus! {

/// What a request frame says.
#[derive(Debug, PartialEq, Eq)]
pub struct Request {
    pub code: u16,
    pub argument: Option<Vec<u8>>,
}

impl Request {
    /// The argument's bytes, if there is an argument.
    pub open spec fn argument_bytes(self) -> Option<Seq<u8>> {
        match self.argument {
            Some(bytes) => Some(bytes@),
            None => None,
        }
    }
}

/// Whether `bytes` is the frame of some 16-bit code and some argument.
pub open spec fn well_formed(bytes: Seq<u8>) -> bool {
    exists|code: nat, argument: Option<Seq<u8>>|
        code <= u16::MAX && bytes == #[trigger] frame(code, argument)
}

/// Where the digits of a frame end: they are `decimal(code)`, so the scan
/// that stops at the first byte that is no digit stops right behind them.
proof fn lemma_scan_finds_code(bytes: Seq<u8>, stop: int, code: nat, argument: Option<Seq<u8>>)
    requires
        bytes == frame(code, argument),
        2 <= stop <= bytes.len() - 2,
        forall|i: int| 2 <= i < stop ==> is_digit(#[trigger] bytes[i]),
        stop == bytes.len() - 2 || !is_digit(bytes[stop]),
    ensures
        stop == 2 + decimal(code).len(),
        bytes.subrange(2, stop) == decimal(code),
        argument is None <==> stop == bytes.len() - 2,
        argument is Some ==> bytes[stop] == SPACE && bytes.subrange(stop + 1, bytes.len() - 2)
            == argument->Some_0,
{
    lemma_frame_layout(code, argument);
    let digits = decimal(code).len() as int;
    if stop < 2 + digits {
        assert(is_digit(bytes[stop]));
    }
    if stop > 2 + digits {
        assert(is_digit(bytes[2 + digits]));
        if argument is None {
            assert(false);
        }
    }
}

/// Reads a request frame back into its code and argument.
///
/// The result is `Some` exactly for the frames the encoder builds for
/// 16-bit codes, and then names the code and argument the frame was built
/// from: decoding what was encoded gives back what went in.
pub fn decode(bytes: &[u8]) -> (request: Option<Request>)
    ensures
        request is Some <==> well_formed(bytes@),
        request matches Some(found) ==> bytes@ == frame(
            found.code as nat,
            found.argument_bytes(),
        ),
        forall|code: nat, argument: Option<Seq<u8>>|
            code <= u16::MAX && bytes@ == #[trigger] frame(code, argument) ==> {
                &&& request is Some
                &&& request->Some_0.code == code
                &&& request->Some_0.argument_bytes() == argument
            },
{
    let request = decode_frame(bytes);
    proof {
        assert forall|code: nat, argument: Option<Seq<u8>>|
            code <= u16::MAX && bytes@ == #[trigger] frame(code, argument) implies {
            &&& request is Some
            &&& request->Some_0.code == code
            &&& request->Some_0.argument_bytes() == argument
        } by {
            let found = request->Some_0;
            lemma_frame_injective(code, argument, found.code as nat, found.argument_bytes());
        }
    }
    request
}

/// The scan behind [`decode`].
fn decode_frame(bytes: &[u8]) -> (request: Option<Request>)
    ensures
        request is Some <==> well_formed(bytes@),
        request matches Some(found) ==> bytes@ == frame(
            found.code as nat,
            found.argument_bytes(),
        ),
{
    let length = bytes.len();
    if length < 5 {
        proof {
            assert forall|code: nat, argument: Option<Seq<u8>>|
                bytes@ != #[trigger] frame(code, argument) by {
                lemma_frame_layout(code, argument);
            }
        }
        return None;
    }
    let end: usize = length - 2;
    if bytes[0] != 0x7e || bytes[1] != 0x4d || bytes[end] != 0x0d || bytes[end + 1] != 0x0a {
        proof {
            assert forall|code: nat, argument: Option<Seq<u8>>|
                bytes@ != #[trigger] frame(code, argument) by {
                lemma_frame_layout(code, argument);
                if bytes@ == frame(code, argument) {
                    assert(bytes@.subrange(0, 2)[0] == bytes@[0]);
                    assert(bytes@.subrange(0, 2)[1] == bytes@[1]);
                    assert(bytes@.subrange(end as int, length as int)[0] == bytes@[end as int]);
                    assert(bytes@.subrange(end as int, length as int)[1] == bytes@[end + 1]);
                }
            }
        }
        return None;
    }
    let mut stop: usize = 2;
    while stop < end && 48 <= bytes[stop] && bytes[stop] <= 57
        invariant
            2 <= stop <= end,
            end == bytes@.len() - 2,
            forall|i: int| 2 <= i < stop ==> is_digit(#[trigger] bytes@[i]),
        decreases end - stop,
    {
        stop += 1;
    }
    let ghost digits = bytes@.subrange(2, stop as int);
    let leading_zero = stop > 3 && bytes[2] == 48;
    let unseparated = stop < end && bytes[stop] != SPACE;
    if stop == 2 || leading_zero || unseparated {
        proof {
            assert forall|code: nat, argument: Option<Seq<u8>>|
                bytes@ != #[trigger] frame(code, argument) by {
                if bytes@ == frame(code, argument) {
                    lemma_scan_finds_code(bytes@, stop as int, code, argument);
                    lemma_decimal_canonical(code);
                    assert(digits[0] == bytes@[2]);
                }
            }
        }
        return None;
    }
    let mut value: u32 = 0;
    let mut at: usize = 2;
    while at < stop
        invariant
            2 <= at <= stop <= end,
            end == bytes@.len() - 2,
            forall|i: int| 2 <= i < stop ==> is_digit(#[trigger] bytes@[i]),
            value == decimal_value(bytes@.subrange(2, at as int)),
            value <= u16::MAX,
            digits == bytes@.subrange(2, stop as int),
            stop == end || !is_digit(bytes@[stop as int]),
        decreases stop - at,
    {
        let ghost before = bytes@.subrange(2, at as int);
        let ghost after = bytes@.subrange(2, at + 1);
        proof {
            assert(after.drop_last() =~= before);
            assert(after.last() == bytes@[at as int]);
            assert(is_digit(bytes@[at as int]));
        }
        let next: u32 = value * 10 + (bytes[at] - 48) as u32;
        if next > 65535 {
            proof {
                assert(after =~= digits.subrange(0, at + 1 - 2));
                assert forall|i: int| 0 <= i < digits.len() implies is_digit(
                    #[trigger] digits[i],
                ) by {
                    assert(digits[i] == bytes@[i + 2]);
                }
                lemma_value_grows(digits, at + 1 - 2);
                assert forall|code: nat, argument: Option<Seq<u8>>|
                    code <= u16::MAX implies bytes@ != #[trigger] frame(code, argument) by {
                    if bytes@ == frame(code, argument) {
                        lemma_scan_finds_code(bytes@, stop as int, code, argument);
                        lemma_decimal_canonical(code);
                    }
                }
            }
            return None;
        }
        value = next;
        at += 1;
    }
    let code: u16 = value as u16;
    let argument = if stop == end {
        None
    } else {
        Some(slice_to_vec(slice_subrange(bytes, stop + 1, end)))
    };
    let found = Request { code, argument };
    proof {
        assert forall|i: int| 0 <= i < digits.len() implies is_digit(#[trigger] digits[i]) by {
            assert(digits[i] == bytes@[i + 2]);
        }
        assert(digits[0] == bytes@[2]);
        assert(canonical(digits));
        lemma_canonical_is_decimal(digits);
        assert(bytes@ =~= frame(code as nat, found.argument_bytes()));
    }
    Some(found)
}

} // verus!
