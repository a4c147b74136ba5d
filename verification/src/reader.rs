//! Which of the readers of a machine holds a YubiKey: the one whose name,
//! in lower case, has `yubico yubikey` somewhere in it.

use crate::error::Error;
use vstd::prelude::*;

verus! {

/// `yubico yubikey`, the words that name a reader with a YubiKey in it.
pub const READER_NAME: [u8; 14] = [
    0x79, 0x75, 0x62, 0x69, 0x63, 0x6f, 0x20, 0x79, 0x75, 0x62, 0x69, 0x6b, 0x65, 0x79,
];

/// An ASCII capital as its small letter; any other byte as it is.
pub open spec fn lowercase(byte: u8) -> u8 {
    if 0x41 <= byte <= 0x5a {
        (byte + 0x20) as u8
    } else {
        byte
    }
}

/// Whether the words stand in `name` from position `at` on, in capitals or
/// small letters.
pub open spec fn names_yubikey_at(name: Seq<u8>, at: int) -> bool {
    &&& 0 <= at
    &&& at + READER_NAME@.len() <= name.len()
    &&& forall|i: int|
        #![trigger READER_NAME@[i]]
        0 <= i < READER_NAME@.len() ==> lowercase(name[at + i]) == READER_NAME@[i]
}

/// Whether the words stand anywhere in `name`.
pub open spec fn names_yubikey(name: Seq<u8>) -> bool {
    exists|at: int| names_yubikey_at(name, at)
}

/// An ASCII capital as its small letter; any other byte as it is.
fn to_lowercase(byte: u8) -> (lower: u8)
    ensures
        lower == lowercase(byte),
{
    if 0x41 <= byte && byte <= 0x5a {
        byte + 0x20
    } else {
        byte
    }
}

/// Whether the words stand in `name` from position `at` on.
fn is_yubikey_at(name: &[u8], at: usize) -> (found: bool)
    requires
        at + READER_NAME@.len() <= name@.len(),
    ensures
        found == names_yubikey_at(name@, at as int),
{
    let mut i: usize = 0;
    while i < READER_NAME.len()
        invariant
            i <= READER_NAME@.len() == 14,
            at + READER_NAME@.len() <= name.len(),
            forall|j: int|
                #![trigger READER_NAME@[j]]
                0 <= j < i ==> lowercase(name@[at + j]) == READER_NAME@[j],
        decreases READER_NAME@.len() - i,
    {
        if to_lowercase(name[at + i]) != READER_NAME[i] {
            assert(lowercase(name@[at + i]) != READER_NAME@[i as int]);
            return false;
        }
        i += 1;
    }
    true
}

/// Whether a reader of this name holds a YubiKey.
pub fn is_yubikey(name: &[u8]) -> (found: bool)
    ensures
        found == names_yubikey(name@),
{
    if name.len() < READER_NAME.len() {
        return false;
    }
    let last = name.len() - READER_NAME.len();
    let mut at: usize = 0;
    while at <= last
        invariant
            at <= last + 1,
            last + READER_NAME@.len() == name.len(),
            READER_NAME@.len() == 14,
            forall|a: int| 0 <= a < at ==> !names_yubikey_at(name@, a),
        decreases last + 1 - at,
    {
        if is_yubikey_at(name, at) {
            return true;
        }
        at += 1;
    }
    false
}

/// The first of `names` that is the name of a reader with a YubiKey, by
/// its position; `NoDevice` where there is none.
pub fn find(names: &[Vec<u8>]) -> (result: Result<usize, Error>)
    ensures
        match result {
            Ok(at) => {
                &&& at < names@.len()
                &&& names_yubikey(names@[at as int]@)
                &&& forall|i: int| 0 <= i < at ==> !names_yubikey(#[trigger] names@[i]@)
            },
            Err(e) => {
                &&& e == Error::NoDevice
                &&& forall|i: int| 0 <= i < names@.len() ==> !names_yubikey(#[trigger] names@[i]@)
            },
        },
{
    let mut at: usize = 0;
    while at < names.len()
        invariant
            at <= names@.len(),
            forall|i: int| 0 <= i < at ==> !names_yubikey(#[trigger] names@[i]@),
        decreases names@.len() - at,
    {
        if is_yubikey(names[at].as_slice()) {
            return Ok(at);
        }
        at += 1;
    }
    Err(Error::NoDevice)
}

} // verus!
