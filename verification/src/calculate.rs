//! CALCULATE: one code for one credential.

use crate::error::Error;
use crate::tlv::{
    decoded, encoded, lemma_round_trip, pop, push, CHALLENGE, FULL_RESPONSE, NAME,
    TRUNCATED_RESPONSE,
};
use crate::Payload;
use vstd::arithmetic::div_mod::{lemma_div_denominator, lemma_small_mod};
use vstd::arithmetic::power::{lemma_pow_increases, lemma_pow_positive, pow};
use vstd::prelude::*;
use vstd::string::StringExecFns;

verus! {

/// The answer to a challenge: a number and the count of decimal digits of
/// it that make the code.
#[derive(Debug, Clone, Copy, PartialEq, Eq, Structural)]
pub struct Response {
    pub digits: u8,
    pub response: u32,
}

/// The number that four bytes hold, the most significant first.
pub open spec fn be_u32(bytes: Seq<u8>) -> u32 {
    (bytes[0] * 0x100_0000 + bytes[1] * 0x1_0000 + bytes[2] * 0x100 + bytes[3]) as u32
}

/// The answer that the value of a response entry holds: one byte of
/// digits, then four bytes of the number. Bytes behind those five are not
/// looked at.
pub open spec fn response_of(value: Seq<u8>) -> Result<Response, Error> {
    if value.len() < 5 {
        Err(Error::InsufficientData)
    } else {
        Ok(Response { digits: value[0], response: be_u32(value.subrange(1, 5)) })
    }
}

/// The tag under which a response comes back.
pub open spec fn response_tag(truncate: bool) -> u8 {
    if truncate {
        TRUNCATED_RESPONSE
    } else {
        FULL_RESPONSE
    }
}

/// The CALCULATE command for the credential `name`: its header, a length
/// byte still to be set, the name entry and the challenge entry.
pub open spec fn command(truncate: bool, name: Seq<u8>, challenge: Seq<u8>) -> Seq<u8> {
    seq![0x00u8, 0xa2, 0x00, if truncate { 0x01u8 } else { 0x00u8 }, 0x00] + encoded(NAME, name)
        + encoded(CHALLENGE, challenge)
}

/// What a response to CALCULATE holds: one response entry, under the tag
/// that `truncate` asks for.
pub open spec fn parsed(truncate: bool, response: Seq<u8>) -> Result<Response, Error> {
    match decoded(response, seq![response_tag(truncate)]) {
        Err(e) => Err(e),
        Ok((_, value)) => response_of(value),
    }
}

/// The decimal digit `d`, for `d` below ten.
pub open spec fn digit(d: nat) -> char {
    (0x30 + d) as char
}

/// The last `width` decimal digits of `value`, zeros in front where
/// `value` has fewer.
pub open spec fn zero_padded(value: nat, width: nat) -> Seq<char>
    decreases width,
{
    if width == 0 {
        Seq::empty()
    } else {
        zero_padded(value / 10, (width - 1) as nat).push(digit(value % 10))
    }
}

impl TryFrom<&'_ [u8]> for Response {
    type Error = Error;

    fn try_from(value: &'_ [u8]) -> (result: Result<Response, Error>) {
        if value.len() < 5 {
            return Err(Error::InsufficientData);
        }
        let response: u32 = (value[1] as u32) * 0x100_0000 + (value[2] as u32) * 0x1_0000
            + (value[3] as u32) * 0x100 + (value[4] as u32);
        Ok(Response { digits: value[0], response })
    }
}

impl vstd::std_specs::convert::TryFromSpecImpl<&'_ [u8]> for Response {
    open spec fn obeys_try_from_spec() -> bool {
        true
    }

    open spec fn try_from_spec(value: &'_ [u8]) -> Result<Response, Error> {
        response_of(value@)
    }
}

/// The powers of ten that fit 32 bits, by their exponent.
proof fn lemma_powers_of_ten()
    ensures
        pow(10, 0) == 1,
        pow(10, 1) == 10,
        pow(10, 2) == 100,
        pow(10, 3) == 1_000,
        pow(10, 4) == 10_000,
        pow(10, 5) == 100_000,
        pow(10, 6) == 1_000_000,
        pow(10, 7) == 10_000_000,
        pow(10, 8) == 100_000_000,
        pow(10, 9) == 1_000_000_000,
        pow(10, 10) == 10_000_000_000,
{
    reveal(pow);
    assert(pow(10, 0) == 1);
    assert(pow(10, 1) == 10);
    assert(pow(10, 2) == 100);
    assert(pow(10, 3) == 1_000);
    assert(pow(10, 4) == 10_000);
    assert(pow(10, 5) == 100_000);
    assert(pow(10, 6) == 1_000_000);
    assert(pow(10, 7) == 10_000_000);
    assert(pow(10, 8) == 100_000_000);
    assert(pow(10, 9) == 1_000_000_000);
    assert(pow(10, 10) == 10_000_000_000);
}

impl Response {
    /// The code as a number: the response modulo ten to the power of
    /// `digits`.
    pub open spec fn code(self) -> nat {
        (self.response as int % pow(10, self.digits as nat)) as nat
    }

    /// The code as a number.
    pub fn value(&self) -> (code: u32)
        ensures
            code == self.code(),
    {
        proof {
            lemma_powers_of_ten();
        }
        if self.digits >= 10 {
            proof {
                lemma_pow_increases(10, 10, self.digits as nat);
                lemma_small_mod(self.response as nat, pow(10, self.digits as nat) as nat);
            }
            self.response
        } else {
            let mut modulus: u32 = 1;
            let mut i: u8 = 0;
            while i < self.digits
                invariant
                    i <= self.digits < 10,
                    modulus == pow(10, i as nat),
                    modulus <= 1_000_000_000,
                decreases self.digits - i,
            {
                proof {
                    reveal(pow);
                    lemma_powers_of_ten();
                    lemma_pow_increases(10, (i + 1) as nat, 9);
                }
                modulus = modulus * 10;
                i += 1;
            }
            self.response % modulus
        }
    }

    /// The code as text: exactly `digits` decimal digits, the number
    /// modulo ten to the power of `digits` with zeros in front.
    pub fn to_string(&self) -> (text: String)
        ensures
            text@ == zero_padded(self.code(), self.digits as nat),
    {
        let width = self.digits as usize;
        let mut cells: Vec<u8> = Vec::new();
        let mut i: usize = 0;
        while i < width
            invariant
                i <= width,
                cells@.len() == i,
                forall|k: int| 0 <= k < i ==> cells@[k] < 10,
            decreases width - i,
        {
            cells.push(0);
            i += 1;
        }
        let mut rest: u32 = self.value();
        while i > 0
            invariant
                i <= width,
                cells@.len() == width,
                forall|k: int| 0 <= k < width ==> cells@[k] < 10,
                zero_padded(self.code(), width as nat) == zero_padded(rest as nat, i as nat)
                    + written(cells@.subrange(i as int, width as int)),
            decreases i,
        {
            let ghost before = cells@;
            i -= 1;
            cells[i] = (rest % 10) as u8;
            assert(zero_padded(rest as nat, (i + 1) as nat) + written(
                before.subrange(i + 1, width as int),
            ) =~= zero_padded((rest / 10) as nat, i as nat) + written(
                cells@.subrange(i as int, width as int),
            ));
            rest = rest / 10;
        }
        assert(written(cells@) =~= zero_padded(self.code(), width as nat)) by {
            assert(cells@.subrange(0, width as int) =~= cells@);
        }
        let mut text = String::new();
        while i < width
            invariant
                i <= width,
                cells@.len() == width,
                forall|k: int| 0 <= k < width ==> cells@[k] < 10,
                text@ == written(cells@.subrange(0, i as int)),
            decreases width - i,
        {
            text.append(numeral(cells[i]));
            assert(text@ =~= written(cells@.subrange(0, i + 1)));
            i += 1;
        }
        assert(cells@.subrange(0, width as int) =~= cells@);
        text
    }
}

/// Digits as the characters that stand for them.
spec fn written(digits: Seq<u8>) -> Seq<char> {
    Seq::new(digits.len(), |i: int| digit(digits[i] as nat))
}

/// The numeral for the digit `d`.
fn numeral(d: u8) -> (text: &'static str)
    requires
        d < 10,
    ensures
        text@ == seq![digit(d as nat)],
{
    proof {
        reveal_strlit("0");
        reveal_strlit("1");
        reveal_strlit("2");
        reveal_strlit("3");
        reveal_strlit("4");
        reveal_strlit("5");
        reveal_strlit("6");
        reveal_strlit("7");
        reveal_strlit("8");
        reveal_strlit("9");
    }
    let text = match d {
        0 => "0",
        1 => "1",
        2 => "2",
        3 => "3",
        4 => "4",
        5 => "5",
        6 => "6",
        7 => "7",
        8 => "8",
        _ => "9",
    };
    assert(text@ =~= seq![digit(d as nat)]);
    text
}

/// The decimal digit of `value` that counts tens to the power of `place`.
pub open spec fn digit_at(value: nat, place: nat) -> nat {
    ((value as int / pow(10, place)) % 10) as nat
}

/// Zero-padded text is exactly `width` characters long, and its last
/// character is the digit that counts ones, the one before it the digit
/// that counts tens, and so on to the front.
pub proof fn lemma_zero_padded(value: nat, width: nat)
    ensures
        zero_padded(value, width).len() == width,
        forall|i: int|
            0 <= i < width ==> #[trigger] zero_padded(value, width)[i] == digit(
                digit_at(value, (width - 1 - i) as nat),
            ),
    decreases width,
{
    if width > 0 {
        let shorter = zero_padded(value / 10, (width - 1) as nat);
        lemma_zero_padded(value / 10, (width - 1) as nat);
        assert forall|i: int| 0 <= i < width implies #[trigger] zero_padded(value, width)[i]
            == digit(digit_at(value, (width - 1 - i) as nat)) by {
            reveal(pow);
            if i == width - 1 {
                assert(pow(10, 0) == 1);
            } else {
                let place = (width - 1 - i) as nat;
                let lower = (place - 1) as nat;
                assert(zero_padded(value, width)[i] == shorter[i]);
                assert(shorter[i] == digit(digit_at(value / 10, lower)));
                lemma_pow_positive(10, lower);
                lemma_div_denominator(value as int, 10, pow(10, lower));
                assert(pow(10, place) == 10 * pow(10, lower));
            }
        }
    }
}

/// A response entry under the tag that was asked for decodes to the answer
/// that its value holds.
pub proof fn lemma_parsed_entry(truncate: bool, value: Seq<u8>)
    requires
        value.len() <= 255,
    ensures
        parsed(truncate, encoded(response_tag(truncate), value)) == response_of(value),
{
    let tags = seq![response_tag(truncate)];
    assert(tags.contains(response_tag(truncate))) by {
        assert(tags[0] == response_tag(truncate));
    }
    lemma_round_trip(response_tag(truncate), value, tags, Seq::empty());
    assert(encoded(response_tag(truncate), value) + Seq::<u8>::empty() =~= encoded(
        response_tag(truncate),
        value,
    ));
}

/// Puts the CALCULATE command for the credential `name` into `buf`, in
/// place of what it held.
pub fn request<C: Payload>(buf: &mut Vec<u8>, truncate: bool, name: &[u8], challenge: C)
    requires
        name@.len() <= 255,
        challenge.bytes().len() <= 255,
    ensures
        final(buf)@ == command(truncate, name@, challenge.bytes()),
{
    buf.clear();
    buf.extend_from_slice(&[0x00, 0xa2, 0x00, if truncate { 0x01 } else { 0x00 }]);
    buf.push(0x00);
    assert(buf@ =~= seq![0x00u8, 0xa2, 0x00, if truncate { 0x01u8 } else { 0x00u8 }, 0x00]);
    push(buf, NAME, name);
    push(buf, CHALLENGE, challenge);
}

/// Decodes the response to CALCULATE.
pub fn parse(truncate: bool, response: &[u8]) -> (result: Result<Response, Error>)
    ensures
        result == parsed(truncate, response@),
{
    let mut response = response;
    let tags: [u8; 1] = [if truncate { TRUNCATED_RESPONSE } else { FULL_RESPONSE }];
    assert(tags@ =~= seq![response_tag(truncate)]);
    let (_, value) = pop(&mut response, &tags)?;
    Response::try_from(value)
}

} // verus!
