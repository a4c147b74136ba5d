//! Client side of the YKOATH smartcard protocol: command frames, chained
//! responses and TLV payloads.
//!
//! Nothing here talks to a device. A caller builds a command with `request`
//! of [`select`], [`calculate`] or [`calculate_all`], runs it through a
//! [`transmit::Exchange`] over a transport of its own, and decodes the
//! response with the same module.

pub mod calculate;
pub mod calculate_all;
pub mod error;
pub mod reader;
pub mod select;
pub mod status;
mod text;
pub mod tlv;
pub mod transmit;

pub use crate::calculate::Response;
pub use crate::calculate_all::{BulkResponse, BulkResponseData};
pub use crate::error::Error;
use std::fmt::Debug;
use vstd::prelude::*;

verus! {

/// The MAC that a token uses to answer a challenge.
#[derive(Debug, Clone, Copy, PartialEq, Eq, Structural)]
pub enum Algorithm {
    HmacSha1,
    HmacSha256,
    HmacSha512,
}

/// A value that can stand in a TLV entry of a command.
pub trait Payload: Debug {
    /// The bytes that this value puts into a command.
    spec fn bytes(&self) -> Seq<u8>;

    /// Appends the bytes of this value to `buf`.
    fn push_into(&self, buf: &mut Vec<u8>)
        ensures
            final(buf)@ == old(buf)@ + self.bytes(),
    ;

    /// The number of bytes, as the length byte of an entry holds it: a
    /// count beyond 255 loses its high part.
    fn len(&self) -> (n: u8)
        ensures
            n == self.bytes().len() % 256,
    ;
}

impl Payload for &'_ [u8] {
    open spec fn bytes(&self) -> Seq<u8> {
        self@
    }

    fn push_into(&self, buf: &mut Vec<u8>) {
        buf.extend_from_slice(self);
        assert(buf@ =~= old(buf)@ + self@);
    }

    fn len(&self) -> (n: u8) {
        (<[u8]>::len(self) % 256) as u8
    }
}

/// The eight bytes of `value` in two's complement, the most significant
/// first.
pub open spec fn be_bytes(value: i64) -> Seq<u8> {
    let unsigned: int = if value < 0 {
        value + 0x1_0000_0000_0000_0000
    } else {
        value as int
    };
    seq![
        (unsigned / 0x100_0000_0000_0000 % 256) as u8,
        (unsigned / 0x1_0000_0000_0000 % 256) as u8,
        (unsigned / 0x100_0000_0000 % 256) as u8,
        (unsigned / 0x1_0000_0000 % 256) as u8,
        (unsigned / 0x100_0000 % 256) as u8,
        (unsigned / 0x1_0000 % 256) as u8,
        (unsigned / 0x100 % 256) as u8,
        (unsigned % 256) as u8,
    ]
}

impl Payload for i64 {
    open spec fn bytes(&self) -> Seq<u8> {
        be_bytes(*self)
    }

    fn push_into(&self, buf: &mut Vec<u8>) {
        let value: i64 = *self;
        let unsigned: u64 = if value < 0 {
            (value + 0x7fff_ffff_ffff_ffff + 1) as u64 + 0x8000_0000_0000_0000
        } else {
            value as u64
        };
        buf.push((unsigned / 0x100_0000_0000_0000 % 256) as u8);
        buf.push((unsigned / 0x1_0000_0000_0000 % 256) as u8);
        buf.push((unsigned / 0x100_0000_0000 % 256) as u8);
        buf.push((unsigned / 0x1_0000_0000 % 256) as u8);
        buf.push((unsigned / 0x100_0000 % 256) as u8);
        buf.push((unsigned / 0x1_0000 % 256) as u8);
        buf.push((unsigned / 0x100 % 256) as u8);
        buf.push((unsigned % 256) as u8);
        assert(buf@ =~= old(buf)@ + be_bytes(value));
    }

    fn len(&self) -> (n: u8) {
        8
    }
}

} // verus!
