//! Tag, length, value: the one encoding of command parameters and response
//! fields. An entry is a tag byte, a length byte and as many value bytes as
//! the length says; entries do not nest.

use crate::error::Error;
use crate::Payload;
use vstd::prelude::*;
use vstd::slice::slice_subrange;

verus! {

/// The tag of a credential's name.
pub const NAME: u8 = 0x71;

/// The tag of a challenge.
pub const CHALLENGE: u8 = 0x74;

/// The tag of a response in full.
pub const FULL_RESPONSE: u8 = 0x75;

/// The tag of a truncated response.
pub const TRUNCATED_RESPONSE: u8 = 0x76;

/// The tag that marks a HOTP credential, for which there is no response.
pub const HOTP: u8 = 0x77;

/// The tag of the token's version.
pub const VERSION: u8 = 0x79;

/// The tag of an algorithm.
pub const ALGORITHM: u8 = 0x7b;

/// The tag that marks a credential that answers only after a touch.
pub const TOUCH: u8 = 0x7c;

/// The entry that holds `value` under `tag`.
pub open spec fn encoded(tag: u8, value: Seq<u8>) -> Seq<u8> {
    seq![tag, value.len() as u8] + value
}

/// The entry at the front of `buf`, where one of `tags` is expected: its
/// tag and its value, or why there is none.
pub open spec fn decoded(buf: Seq<u8>, tags: Seq<u8>) -> Result<(u8, Seq<u8>), Error> {
    if buf.len() == 0 {
        Err(Error::InsufficientData)
    } else if !tags.contains(buf[0]) {
        Err(Error::UnexpectedValue(buf[0]))
    } else if buf.len() < 2 || buf.len() < 2 + buf[1] {
        Err(Error::InsufficientData)
    } else {
        Ok((buf[0], buf.subrange(2, 2 + buf[1])))
    }
}

/// What is left of `buf` once its first entry has been taken: the bytes
/// behind the entry, or all of `buf` where there is no entry to take.
pub open spec fn rest(buf: Seq<u8>, tags: Seq<u8>) -> Seq<u8> {
    if decoded(buf, tags) is Ok {
        buf.subrange(2 + buf[1], buf.len() as int)
    } else {
        buf
    }
}

/// Whether `data` is short enough for an entry: at most 255 bytes.
pub fn fits<Data: Payload>(data: &Data) -> (short: bool)
    ensures
        short == (data.bytes().len() <= 255),
{
    let mut bytes: Vec<u8> = Vec::new();
    data.push_into(&mut bytes);
    assert(bytes@ =~= data.bytes());
    bytes.len() <= 255
}

/// Appends the entry for `data` under `tag` to `buf`.
pub fn push<Data: Payload>(buf: &mut Vec<u8>, tag: u8, data: Data)
    requires
        data.bytes().len() <= 255,
    ensures
        final(buf)@ == old(buf)@ + encoded(tag, data.bytes()),
{
    buf.push(tag);
    buf.push(data.len());
    data.push_into(buf);
    assert(buf@ =~= old(buf)@ + encoded(tag, data.bytes()));
}

/// Whether `tag` is one of `tags`.
fn expected(tags: &[u8], tag: u8) -> (found: bool)
    ensures
        found == tags@.contains(tag),
{
    let mut i: usize = 0;
    while i < tags.len()
        invariant
            i <= tags@.len(),
            forall|j: int| 0 <= j < i ==> tags@[j] != tag,
        decreases tags@.len() - i,
    {
        if tags[i] == tag {
            return true;
        }
        i += 1;
    }
    false
}

/// Takes the entry at the front of `buf`, where one of `tags` is expected.
/// On success `buf` moves past the entry; on failure it stays where it was.
pub fn pop<'a>(buf: &mut &'a [u8], tags: &[u8]) -> (result: Result<(u8, &'a [u8]), Error>)
    ensures
        match result {
            Ok((tag, data)) => decoded(old(buf)@, tags@) == Ok::<(u8, Seq<u8>), Error>(
                (tag, data@),
            ),
            Err(e) => decoded(old(buf)@, tags@) == Err::<(u8, Seq<u8>), Error>(e),
        },
        final(buf)@ == rest(old(buf)@, tags@),
{
    let bytes: &'a [u8] = *buf;
    if bytes.len() == 0 {
        return Err(Error::InsufficientData);
    }
    let tag = bytes[0];
    if !expected(tags, tag) {
        return Err(Error::UnexpectedValue(tag));
    }
    if bytes.len() < 2 {
        return Err(Error::InsufficientData);
    }
    let len = bytes[1] as usize;
    if bytes.len() - 2 < len {
        return Err(Error::InsufficientData);
    }
    let data = slice_subrange(bytes, 2, 2 + len);
    *buf = slice_subrange(bytes, 2 + len, bytes.len());
    Ok((tag, data))
}

/// Encoding, then decoding, gives back what was encoded: a value of at most
/// 255 bytes under an expected tag is read back in full, and what followed
/// the entry is what is left.
pub proof fn lemma_round_trip(tag: u8, value: Seq<u8>, tags: Seq<u8>, tail: Seq<u8>)
    requires
        value.len() <= 255,
        tags.contains(tag),
    ensures
        decoded(encoded(tag, value) + tail, tags) == Ok::<(u8, Seq<u8>), Error>((tag, value)),
        rest(encoded(tag, value) + tail, tags) == tail,
{
    let buf = encoded(tag, value) + tail;
    assert(buf[0] == tag);
    assert(buf[1] == value.len());
    assert(buf.subrange(2, 2 + buf[1]) =~= value);
    assert(buf.subrange(2 + buf[1], buf.len() as int) =~= tail);
}

/// A buffer that ends before the value that its length byte announces, or
/// before the length byte itself, is refused, and nothing is taken from it.
pub proof fn lemma_truncated(buf: Seq<u8>, tags: Seq<u8>)
    requires
        buf.len() < 2 || buf.len() < 2 + buf[1],
        buf.len() > 0 ==> tags.contains(buf[0]),
    ensures
        decoded(buf, tags) == Err::<(u8, Seq<u8>), Error>(Error::InsufficientData),
        rest(buf, tags) == buf,
{
}

/// An entry whose tag is not expected is refused with that tag, and nothing
/// is taken from the buffer.
pub proof fn lemma_unexpected_tag(buf: Seq<u8>, tags: Seq<u8>)
    requires
        buf.len() > 0,
        !tags.contains(buf[0]),
    ensures
        decoded(buf, tags) == Err::<(u8, Seq<u8>), Error>(Error::UnexpectedValue(buf[0])),
        rest(buf, tags) == buf,
{
}

} // verus!
