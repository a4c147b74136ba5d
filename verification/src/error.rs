//! Everything that can go wrong in one exchange with the token.

use vstd::prelude::*;

verus! {

/// A failed exchange. Every failure is a value handed back to the caller;
/// nothing here is retried or recovered from.
#[derive(Debug, Clone, Copy, PartialEq, Eq, Structural)]
pub enum Error {
    /// The transport failed; the number is the raw code it reported.
    Pcsc(u32),
    /// No reader carries a YubiKey.
    NoDevice,
    /// A buffer ends before the bytes that a length field or a fixed layout
    /// announces.
    InsufficientData,
    /// A status word outside the table.
    UnknownCode(u16),
    /// A tag, or an algorithm byte, that is not expected where it stands.
    UnexpectedValue(u8),
    NoSpace,
    NoSuchObject,
    AuthRequired,
    WrongSyntax,
    GenericError,
    /// An account name that is not UTF-8.
    Utf8,
}

} // verus!
