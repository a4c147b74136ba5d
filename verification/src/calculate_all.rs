//! CALCULATE ALL: a code for every credential on the token.
//!
//! The response is a run of entries, each a name followed by what the
//! token has for that name. [`Entries`] decodes them one at a time, in the
//! order in which they stand; a caller stops at the first failure, since
//! nothing says where the entry after a broken one would start.

use crate::calculate::{response_of, response_tag, Response};
use crate::error::Error;
use crate::text::from_utf8;
use crate::tlv::{
    decoded, encoded, lemma_round_trip, pop, push, rest, CHALLENGE, FULL_RESPONSE, HOTP, NAME,
    TOUCH, TRUNCATED_RESPONSE,
};
use crate::Payload;
use vstd::prelude::*;
use vstd::utf8::{decode_utf8, valid_utf8};

verus! {

/// One credential of the token. The name points into the response that was
/// decoded.
#[derive(Debug, Clone, Copy)]
pub struct BulkResponse<'a> {
    pub name: &'a str,
    pub data: BulkResponseData,
}

/// What the token has for a credential.
#[derive(Debug, Clone, Copy, PartialEq, Eq, Structural)]
pub enum BulkResponseData {
    /// The answer to the challenge.
    Totp(Response),
    /// A HOTP credential: it takes no challenge, so there is no answer.
    Hotp,
    /// The credential answers only after a touch: ask for it by name.
    Touch,
}

/// A [`BulkResponse`] by its contents.
pub struct BulkResponseView {
    pub name: Seq<char>,
    pub data: BulkResponseData,
}

impl View for BulkResponse<'_> {
    type V = BulkResponseView;

    open spec fn view(&self) -> BulkResponseView {
        BulkResponseView { name: self.name@, data: self.data }
    }
}

/// The CALCULATE ALL command: its header, a length byte still to be set,
/// and the challenge entry.
pub open spec fn command(truncate: bool, challenge: Seq<u8>) -> Seq<u8> {
    seq![0x00u8, 0xa4, 0x00, if truncate { 0x01u8 } else { 0x00u8 }, 0x00] + encoded(
        CHALLENGE,
        challenge,
    )
}

/// The tags under which the second half of an entry may stand.
pub open spec fn data_tags(truncate: bool) -> Seq<u8> {
    seq![response_tag(truncate), HOTP, TOUCH]
}

/// What the second half of an entry says, by its tag and value.
pub open spec fn data_of(tag: u8, value: Seq<u8>) -> Result<BulkResponseData, Error> {
    if tag == FULL_RESPONSE || tag == TRUNCATED_RESPONSE {
        match response_of(value) {
            Ok(response) => Ok(BulkResponseData::Totp(response)),
            Err(e) => Err(e),
        }
    } else if tag == HOTP {
        Ok(BulkResponseData::Hotp)
    } else if tag == TOUCH {
        Ok(BulkResponseData::Touch)
    } else {
        Err(Error::UnexpectedValue(tag))
    }
}

/// The entry at the front of `buf`: a name, then a response, a HOTP marker
/// or a touch marker. The name must be UTF-8, which is looked at last.
pub open spec fn entry(truncate: bool, buf: Seq<u8>) -> Result<BulkResponseView, Error> {
    match decoded(buf, seq![NAME]) {
        Err(e) => Err(e),
        Ok((_, name)) => match decoded(rest(buf, seq![NAME]), data_tags(truncate)) {
            Err(e) => Err(e),
            Ok((tag, value)) => match data_of(tag, value) {
                Err(e) => Err(e),
                Ok(data) => if valid_utf8(name) {
                    Ok(BulkResponseView { name: decode_utf8(name), data })
                } else {
                    Err(Error::Utf8)
                },
            },
        },
    }
}

/// What is left of `buf` once its first entry has been asked for: each half
/// that could be taken is gone, whatever came of the entry as a whole.
pub open spec fn after_entry(truncate: bool, buf: Seq<u8>) -> Seq<u8> {
    if decoded(buf, seq![NAME]) is Ok {
        rest(rest(buf, seq![NAME]), data_tags(truncate))
    } else {
        buf
    }
}

/// All entries of `buf`, in order, as a caller gets them who stops at the
/// first failure: that failure, or every entry up to the end of `buf`.
pub open spec fn all_entries(truncate: bool, buf: Seq<u8>) -> Result<Seq<BulkResponseView>, Error>
    decreases buf.len(),
{
    if buf.len() == 0 {
        Ok(Seq::empty())
    } else {
        match entry(truncate, buf) {
            Err(e) => Err(e),
            Ok(first) => match all_entries(truncate, after_entry(truncate, buf)) {
                Err(e) => Err(e),
                Ok(others) => Ok(seq![first] + others),
            },
        }
    }
}

/// The entries of `found` by their contents.
pub open spec fn views(found: Seq<BulkResponse<'_>>) -> Seq<BulkResponseView> {
    Seq::new(found.len(), |i: int| found[i]@)
}

/// An empty response holds no entry.
pub proof fn lemma_no_entries(truncate: bool)
    ensures
        all_entries(truncate, Seq::empty()) == Ok::<Seq<BulkResponseView>, Error>(Seq::empty()),
{
}

/// A response that is one name entry and one response entry holds exactly
/// that one credential, and nothing is left behind it.
pub proof fn lemma_one_entry(truncate: bool, name: Seq<u8>, value: Seq<u8>)
    requires
        name.len() <= 255,
        valid_utf8(name),
        5 <= value.len() <= 255,
    ensures
        ({
            let buf = encoded(NAME, name) + encoded(response_tag(truncate), value);
            let found = BulkResponseView {
                name: decode_utf8(name),
                data: BulkResponseData::Totp(response_of(value).unwrap()),
            };
            &&& entry(truncate, buf) == Ok::<BulkResponseView, Error>(found)
            &&& after_entry(truncate, buf) == Seq::<u8>::empty()
            &&& all_entries(truncate, buf) == Ok::<Seq<BulkResponseView>, Error>(seq![found])
        }),
{
    let second = encoded(response_tag(truncate), value);
    let buf = encoded(NAME, name) + second;
    assert(seq![NAME].contains(NAME)) by {
        assert(seq![NAME][0] == NAME);
    }
    lemma_round_trip(NAME, name, seq![NAME], second);
    assert(data_tags(truncate).contains(response_tag(truncate))) by {
        assert(data_tags(truncate)[0] == response_tag(truncate));
    }
    lemma_round_trip(response_tag(truncate), value, data_tags(truncate), Seq::empty());
    assert(second + Seq::<u8>::empty() =~= second);
    let found = BulkResponseView {
        name: decode_utf8(name),
        data: BulkResponseData::Totp(response_of(value).unwrap()),
    };
    assert(entry(truncate, buf) == Ok::<BulkResponseView, Error>(found));
    assert(after_entry(truncate, buf) =~= Seq::<u8>::empty());
    assert(seq![found] + Seq::<BulkResponseView>::empty() =~= seq![found]);
    reveal_with_fuel(all_entries, 2);
}

/// Puts the CALCULATE ALL command into `buf`, in place of what it held.
pub fn request<C: Payload>(buf: &mut Vec<u8>, truncate: bool, challenge: C)
    requires
        challenge.bytes().len() <= 255,
    ensures
        final(buf)@ == command(truncate, challenge.bytes()),
{
    buf.clear();
    buf.extend_from_slice(&[0x00, 0xa4, 0x00, if truncate { 0x01 } else { 0x00 }]);
    buf.push(0x00);
    assert(buf@ =~= seq![0x00u8, 0xa4, 0x00, if truncate { 0x01u8 } else { 0x00u8 }, 0x00]);
    push(buf, CHALLENGE, challenge);
}

/// Reads the second half of an entry.
pub fn data(tag: u8, value: &[u8]) -> (result: Result<BulkResponseData, Error>)
    ensures
        result == data_of(tag, value@),
{
    if tag == FULL_RESPONSE || tag == TRUNCATED_RESPONSE {
        Ok(BulkResponseData::Totp(Response::try_from(value)?))
    } else if tag == HOTP {
        Ok(BulkResponseData::Hotp)
    } else if tag == TOUCH {
        Ok(BulkResponseData::Touch)
    } else {
        Err(Error::UnexpectedValue(tag))
    }
}

/// The entries of a response to CALCULATE ALL that have not been decoded
/// yet.
pub struct Entries<'a> {
    response: &'a [u8],
    truncate: bool,
}

impl<'a> Entries<'a> {
    /// The bytes that have not been decoded yet.
    pub closed spec fn remaining(&self) -> Seq<u8> {
        self.response@
    }

    /// Whether the responses were asked for truncated.
    pub closed spec fn truncate(&self) -> bool {
        self.truncate
    }

    /// Starts at the front of `response`.
    pub fn new(truncate: bool, response: &'a [u8]) -> (entries: Entries<'a>)
        ensures
            entries.remaining() == response@,
            entries.truncate() == truncate,
    {
        Entries { response, truncate }
    }

    /// Decodes the next entry: `None` once nothing is left, else the entry
    /// at the front or why it could not be decoded.
    pub fn next(&mut self) -> (item: Option<Result<BulkResponse<'a>, Error>>)
        ensures
            final(self).truncate() == old(self).truncate(),
            final(self).remaining() == after_entry(old(self).truncate(), old(self).remaining()),
            ({
                let first = entry(old(self).truncate(), old(self).remaining());
                match item {
                    None => old(self).remaining().len() == 0,
                    Some(Ok(found)) => old(self).remaining().len() > 0 && first == Ok::<
                        BulkResponseView,
                        Error,
                    >(found@),
                    Some(Err(e)) => old(self).remaining().len() > 0 && first == Err::<
                        BulkResponseView,
                        Error,
                    >(e),
                }
            }),
    {
        if self.response.len() == 0 {
            return None;
        }
        let name_tags: [u8; 1] = [NAME];
        let tags: [u8; 3] = [
            if self.truncate { TRUNCATED_RESPONSE } else { FULL_RESPONSE },
            HOTP,
            TOUCH,
        ];
        proof {
            assert(name_tags@ =~= seq![NAME]);
            assert(tags@ =~= data_tags(self.truncate));
        }
        let mut response = self.response;
        let first = pop(&mut response, &name_tags);
        let name = match first {
            Ok((_, name)) => name,
            Err(e) => {
                self.response = response;
                return Some(Err(e));
            },
        };
        let second = pop(&mut response, &tags);
        self.response = response;
        let (tag, value) = match second {
            Ok(found) => found,
            Err(e) => {
                return Some(Err(e));
            },
        };
        let data = match data(tag, value) {
            Ok(data) => data,
            Err(e) => {
                return Some(Err(e));
            },
        };
        match from_utf8(name) {
            Ok(name) => Some(Ok(BulkResponse { name, data })),
            Err(_) => Some(Err(Error::Utf8)),
        }
    }

    /// Decodes all entries that are left, and stops at the first that
    /// fails.
    pub fn collect(self) -> (result: Result<Vec<BulkResponse<'a>>, Error>)
        ensures
            match result {
                Ok(found) => all_entries(self.truncate(), self.remaining()) == Ok::<
                    Seq<BulkResponseView>,
                    Error,
                >(views(found@)),
                Err(e) => all_entries(self.truncate(), self.remaining()) == Err::<
                    Seq<BulkResponseView>,
                    Error,
                >(e),
            },
    {
        let mut entries = self;
        let mut found: Vec<BulkResponse<'a>> = Vec::new();
        let ghost whole = all_entries(self.truncate(), self.remaining());
        assert(views(found@) =~= Seq::<BulkResponseView>::empty());
        loop
            invariant
                entries.truncate() == self.truncate(),
                entries.remaining().len() <= self.remaining().len(),
                whole == all_entries(self.truncate(), self.remaining()),
                whole == match all_entries(entries.truncate(), entries.remaining()) {
                    Ok(others) => Ok::<Seq<BulkResponseView>, Error>(views(found@) + others),
                    Err(e) => Err(e),
                },
            decreases entries.remaining().len(),
        {
            let ghost before = entries.remaining();
            let ghost so_far = views(found@);
            match entries.next() {
                None => {
                    assert(so_far + Seq::<BulkResponseView>::empty() =~= so_far);
                    return Ok(found);
                },
                Some(Err(e)) => {
                    return Err(e);
                },
                Some(Ok(one)) => {
                    found.push(one);
                    proof {
                        assert(views(found@) =~= so_far + seq![one@]);
                        let after = all_entries(entries.truncate(), entries.remaining());
                        if let Ok(others) = after {
                            assert(so_far + (seq![one@] + others) =~= views(found@) + others);
                        }
                    }
                },
            }
        }
    }
}

} // verus!
