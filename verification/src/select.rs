//! SELECT: opens the OATH application on the token and reads who it is.

use crate::error::Error;
use crate::tlv::{
    decoded, encoded, lemma_round_trip, pop, rest, ALGORITHM, CHALLENGE, NAME, VERSION,
};
use crate::Algorithm;
use vstd::prelude::*;

verus! {

/// What the token says of itself. The slices point into the response that
/// was decoded.
#[derive(Debug)]
pub struct Response<'a> {
    pub version: &'a [u8],
    pub name: &'a [u8],
    /// Present where the token asks for authentication.
    pub inner: Option<Inner<'a>>,
}

/// The challenge of a token that asks for authentication, and the
/// algorithm to answer it with.
#[derive(Debug)]
pub struct Inner<'a> {
    pub challenge: &'a [u8],
    pub algorithm: Algorithm,
}

/// An [`Inner`] by its contents.
pub struct InnerView {
    pub challenge: Seq<u8>,
    pub algorithm: Algorithm,
}

/// A [`Response`] by its contents.
pub struct ResponseView {
    pub version: Seq<u8>,
    pub name: Seq<u8>,
    pub inner: Option<InnerView>,
}

impl View for Inner<'_> {
    type V = InnerView;

    open spec fn view(&self) -> InnerView {
        InnerView { challenge: self.challenge@, algorithm: self.algorithm }
    }
}

impl View for Response<'_> {
    type V = ResponseView;

    open spec fn view(&self) -> ResponseView {
        ResponseView {
            version: self.version@,
            name: self.name@,
            inner: match self.inner {
                Some(inner) => Some(inner@),
                None => None,
            },
        }
    }
}

/// The identifier of the OATH application.
pub const AID: [u8; 7] = [0xa0, 0x00, 0x00, 0x05, 0x27, 0x21, 0x01];

/// The SELECT command: its header, a length byte still to be set, and the
/// application identifier.
pub open spec fn command() -> Seq<u8> {
    seq![0x00u8, 0xa4, 0x04, 0x00, 0x00] + AID@
}

/// The algorithm that the value of an algorithm entry names: one byte, 1, 2
/// or 3. Any other byte is refused by its value, any other length by the
/// length.
pub open spec fn algorithm_of(value: Seq<u8>) -> Result<Algorithm, Error> {
    if value.len() != 1 {
        Err(Error::UnexpectedValue((value.len() % 256) as u8))
    } else if value[0] == 1 {
        Ok(Algorithm::HmacSha1)
    } else if value[0] == 2 {
        Ok(Algorithm::HmacSha256)
    } else if value[0] == 3 {
        Ok(Algorithm::HmacSha512)
    } else {
        Err(Error::UnexpectedValue(value[0]))
    }
}

/// The challenge and algorithm entries at the front of `buf`.
pub open spec fn parsed_inner(buf: Seq<u8>) -> Result<InnerView, Error> {
    match decoded(buf, seq![CHALLENGE]) {
        Err(e) => Err(e),
        Ok((_, challenge)) => match decoded(rest(buf, seq![CHALLENGE]), seq![ALGORITHM]) {
            Err(e) => Err(e),
            Ok((_, value)) => match algorithm_of(value) {
                Err(e) => Err(e),
                Ok(algorithm) => Ok(InnerView { challenge, algorithm }),
            },
        },
    }
}

/// What a response to SELECT holds: a version entry, a name entry and,
/// only if bytes remain, a challenge entry and an algorithm entry.
pub open spec fn parsed(response: Seq<u8>) -> Result<ResponseView, Error> {
    match decoded(response, seq![VERSION]) {
        Err(e) => Err(e),
        Ok((_, version)) => {
            let named = rest(response, seq![VERSION]);
            match decoded(named, seq![NAME]) {
                Err(e) => Err(e),
                Ok((_, name)) => {
                    let tail = rest(named, seq![NAME]);
                    if tail.len() == 0 {
                        Ok(ResponseView { version, name, inner: None })
                    } else {
                        match parsed_inner(tail) {
                            Err(e) => Err(e),
                            Ok(inner) => Ok(ResponseView { version, name, inner: Some(inner) }),
                        }
                    }
                },
            }
        },
    }
}

/// A version entry and a name entry, with nothing behind them, decode to a
/// response without authentication.
pub proof fn lemma_parsed_open(version: Seq<u8>, name: Seq<u8>)
    requires
        version.len() <= 255,
        name.len() <= 255,
    ensures
        parsed(encoded(VERSION, version) + encoded(NAME, name)) == Ok::<ResponseView, Error>(
            ResponseView { version, name, inner: None },
        ),
{
    assert(seq![VERSION].contains(VERSION)) by {
        assert(seq![VERSION][0] == VERSION);
    }
    assert(seq![NAME].contains(NAME)) by {
        assert(seq![NAME][0] == NAME);
    }
    lemma_round_trip(VERSION, version, seq![VERSION], encoded(NAME, name));
    lemma_round_trip(NAME, name, seq![NAME], Seq::empty());
    assert(encoded(NAME, name) + Seq::<u8>::empty() =~= encoded(NAME, name));
}

/// The same two entries with a challenge entry and an algorithm entry behind
/// them decode to a response that asks for authentication, whatever
/// follows the algorithm.
pub proof fn lemma_parsed_locked(
    version: Seq<u8>,
    name: Seq<u8>,
    challenge: Seq<u8>,
    algorithm: Seq<u8>,
    tail: Seq<u8>,
)
    requires
        version.len() <= 255,
        name.len() <= 255,
        challenge.len() <= 255,
        algorithm.len() <= 255,
    ensures
        parsed(
            encoded(VERSION, version) + encoded(NAME, name) + encoded(CHALLENGE, challenge)
                + encoded(ALGORITHM, algorithm) + tail,
        ) == match algorithm_of(algorithm) {
            Ok(algorithm) => Ok::<ResponseView, Error>(
                ResponseView { version, name, inner: Some(InnerView { challenge, algorithm }) },
            ),
            Err(e) => Err(e),
        },
{
    assert(seq![VERSION].contains(VERSION)) by {
        assert(seq![VERSION][0] == VERSION);
    }
    assert(seq![NAME].contains(NAME)) by {
        assert(seq![NAME][0] == NAME);
    }
    assert(seq![CHALLENGE].contains(CHALLENGE)) by {
        assert(seq![CHALLENGE][0] == CHALLENGE);
    }
    assert(seq![ALGORITHM].contains(ALGORITHM)) by {
        assert(seq![ALGORITHM][0] == ALGORITHM);
    }
    let fourth = encoded(ALGORITHM, algorithm) + tail;
    let third = encoded(CHALLENGE, challenge) + fourth;
    let second = encoded(NAME, name) + third;
    let whole = encoded(VERSION, version) + second;
    assert(whole =~= encoded(VERSION, version) + encoded(NAME, name) + encoded(
        CHALLENGE,
        challenge,
    ) + encoded(ALGORITHM, algorithm) + tail);
    lemma_round_trip(VERSION, version, seq![VERSION], second);
    lemma_round_trip(NAME, name, seq![NAME], third);
    lemma_round_trip(CHALLENGE, challenge, seq![CHALLENGE], fourth);
    lemma_round_trip(ALGORITHM, algorithm, seq![ALGORITHM], tail);
    assert(third.len() > 0);
}

/// Puts the SELECT command into `buf`, in place of what it held.
pub fn request(buf: &mut Vec<u8>)
    ensures
        final(buf)@ == command(),
{
    buf.clear();
    buf.extend_from_slice(&[0x00, 0xa4, 0x04, 0x00]);
    buf.push(0x00);
    buf.extend_from_slice(&AID);
    assert(buf@ =~= command());
}

/// Reads the algorithm out of the value of an algorithm entry.
pub fn algorithm(value: &[u8]) -> (result: Result<Algorithm, Error>)
    ensures
        result == algorithm_of(value@),
{
    if value.len() != 1 {
        Err(Error::UnexpectedValue((value.len() % 256) as u8))
    } else if value[0] == 0x01 {
        Ok(Algorithm::HmacSha1)
    } else if value[0] == 0x02 {
        Ok(Algorithm::HmacSha256)
    } else if value[0] == 0x03 {
        Ok(Algorithm::HmacSha512)
    } else {
        Err(Error::UnexpectedValue(value[0]))
    }
}

/// Decodes the response to SELECT.
pub fn parse<'a>(response: &'a [u8]) -> (result: Result<Response<'a>, Error>)
    ensures
        match result {
            Ok(selected) => parsed(response@) == Ok::<ResponseView, Error>(selected@),
            Err(e) => parsed(response@) == Err::<ResponseView, Error>(e),
        },
{
    let mut response = response;
    let version_tags: [u8; 1] = [VERSION];
    let name_tags: [u8; 1] = [NAME];
    let challenge_tags: [u8; 1] = [CHALLENGE];
    let algorithm_tags: [u8; 1] = [ALGORITHM];
    proof {
        assert(version_tags@ =~= seq![VERSION]);
        assert(name_tags@ =~= seq![NAME]);
        assert(challenge_tags@ =~= seq![CHALLENGE]);
        assert(algorithm_tags@ =~= seq![ALGORITHM]);
    }
    let (_, version) = pop(&mut response, &version_tags)?;
    let (_, name) = pop(&mut response, &name_tags)?;
    let inner = if response.len() == 0 {
        None
    } else {
        let (_, challenge) = pop(&mut response, &challenge_tags)?;
        let (_, value) = pop(&mut response, &algorithm_tags)?;
        let algorithm = algorithm(value)?;
        Some(Inner { challenge, algorithm })
    };
    Ok(Response { version, name, inner })
}

} // verus!
