//! Status words: the two bytes that end every response frame.

use crate::error::Error;
use vstd::prelude::*;

verus! {

/// What a status word says about the frame it ends.
#[derive(Debug, Clone, Copy, PartialEq, Eq, Structural)]
pub enum Status {
    /// `0x9000`: the response is complete.
    Success,
    /// `0x6100` to `0x61ff`: more data is waiting on the device. The low
    /// byte is advisory and carries no meaning here.
    ContinuePending,
    NoSpace,
    NoSuchObject,
    AuthRequired,
    WrongSyntax,
    GenericError,
    /// Any code the table does not list, with its raw value.
    UnknownCode(u16),
}

/// The status table.
pub open spec fn status_of(code: u16) -> Status {
    if code == 0x9000 {
        Status::Success
    } else if 0x6100 <= code <= 0x61ff {
        Status::ContinuePending
    } else if code == 0x6a84 {
        Status::NoSpace
    } else if code == 0x6984 {
        Status::NoSuchObject
    } else if code == 0x6982 {
        Status::AuthRequired
    } else if code == 0x6a80 {
        Status::WrongSyntax
    } else if code == 0x6581 {
        Status::GenericError
    } else {
        Status::UnknownCode(code)
    }
}

/// The failure that a status stands for; `None` for the two that are no
/// failure.
pub open spec fn error_of(status: Status) -> Option<Error> {
    match status {
        Status::Success => None,
        Status::ContinuePending => None,
        Status::NoSpace => Some(Error::NoSpace),
        Status::NoSuchObject => Some(Error::NoSuchObject),
        Status::AuthRequired => Some(Error::AuthRequired),
        Status::WrongSyntax => Some(Error::WrongSyntax),
        Status::GenericError => Some(Error::GenericError),
        Status::UnknownCode(code) => Some(Error::UnknownCode(code)),
    }
}

/// Every status word has exactly one outcome: `0x9000` alone is success,
/// `0x6100` to `0x61ff` and nothing else asks for a continuation, five
/// more codes name one failure each, and every remaining code is unknown
/// and kept as it came.
pub proof fn lemma_status_total(code: u16)
    ensures
        status_of(code) is Success <==> code == 0x9000,
        status_of(code) is ContinuePending <==> 0x6100 <= code <= 0x61ff,
        status_of(code) is NoSpace <==> code == 0x6a84,
        status_of(code) is NoSuchObject <==> code == 0x6984,
        status_of(code) is AuthRequired <==> code == 0x6982,
        status_of(code) is WrongSyntax <==> code == 0x6a80,
        status_of(code) is GenericError <==> code == 0x6581,
        status_of(code) is UnknownCode <==> status_of(code) == Status::UnknownCode(code),
        error_of(status_of(code)) is None <==> code == 0x9000 || 0x6100 <= code <= 0x61ff,
{
}

impl Status {
    /// Maps a status word to its outcome.
    pub fn from_code(code: u16) -> (status: Status)
        ensures
            status == status_of(code),
    {
        if code == 0x9000 {
            Status::Success
        } else if 0x6100 <= code && code <= 0x61ff {
            Status::ContinuePending
        } else if code == 0x6a84 {
            Status::NoSpace
        } else if code == 0x6984 {
            Status::NoSuchObject
        } else if code == 0x6982 {
            Status::AuthRequired
        } else if code == 0x6a80 {
            Status::WrongSyntax
        } else if code == 0x6581 {
            Status::GenericError
        } else {
            Status::UnknownCode(code)
        }
    }

    /// The failure this status stands for, if it is one.
    pub fn error(self) -> (e: Option<Error>)
        ensures
            e == error_of(self),
    {
        match self {
            Status::Success => None,
            Status::ContinuePending => None,
            Status::NoSpace => Some(Error::NoSpace),
            Status::NoSuchObject => Some(Error::NoSuchObject),
            Status::AuthRequired => Some(Error::AuthRequired),
            Status::WrongSyntax => Some(Error::WrongSyntax),
            Status::GenericError => Some(Error::GenericError),
            Status::UnknownCode(code) => Some(Error::UnknownCode(code)),
        }
    }
}

} // verus!
