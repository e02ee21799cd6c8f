//! The failures that callers can be handed.

use vstd::prelude::*;

verus! {

/// Why a call on an account was refused.
#[derive(Debug, Clone, Copy, PartialEq, Eq, Structural)]
pub enum AccountError {
    /// The payload is no instruction, or a record carries an unknown kind.
    InvalidInstruction,
    /// The list of accounts is empty.
    MissingAccount,
    /// The account belongs to another program.
    WrongOwner,
    /// The account may not be written.
    NotWritable,
    /// The buffer ends before the bytes that its layout promises.
    Truncated,
    /// The stored bytes are no well-formed list of messages.
    Corrupt,
    /// The new contents do not fit the buffer or its length field.
    CapacityExceeded,
}

/// The three families of failures. None of them is worth a second try with
/// the same request.
#[derive(Debug, Clone, Copy, PartialEq, Eq, Structural)]
pub enum ErrorFamily {
    /// The request is malformed or names no account: the caller has to send
    /// another one.
    Unpack,
    /// The account is not the caller's to change: another account or another
    /// caller is needed.
    Authorization,
    /// The buffer cannot be read or cannot take the new contents.
    Store,
}

impl AccountError {
    /// The family that this failure belongs to.
    pub open spec fn spec_family(self) -> ErrorFamily {
        match self {
            AccountError::InvalidInstruction | AccountError::MissingAccount => ErrorFamily::Unpack,
            AccountError::WrongOwner | AccountError::NotWritable => ErrorFamily::Authorization,
            AccountError::Truncated | AccountError::Corrupt | AccountError::CapacityExceeded => {
                ErrorFamily::Store
            },
        }
    }

    /// The number under which a host reports this failure.
    pub open spec fn spec_code(self) -> u32 {
        match self {
            AccountError::InvalidInstruction => 0,
            AccountError::MissingAccount => 1,
            AccountError::WrongOwner => 2,
            AccountError::NotWritable => 3,
            AccountError::Truncated => 4,
            AccountError::Corrupt => 5,
            AccountError::CapacityExceeded => 6,
        }
    }

    /// The text shown for this failure.
    pub open spec fn spec_message(self) -> Seq<char> {
        match self {
            AccountError::InvalidInstruction => "Invalid Instruction"@,
            AccountError::MissingAccount => "Missing Account"@,
            AccountError::WrongOwner => "Wrong Owner"@,
            AccountError::NotWritable => "Account Not Writable"@,
            AccountError::Truncated => "Truncated Buffer"@,
            AccountError::Corrupt => "Corrupt Data"@,
            AccountError::CapacityExceeded => "Capacity Exceeded"@,
        }
    }

    /// The family that this failure belongs to.
    #[verifier::when_used_as_spec(spec_family)]
    pub fn family(self) -> (r: ErrorFamily)
        ensures
            r == self.spec_family(),
    {
        match self {
            AccountError::InvalidInstruction | AccountError::MissingAccount => ErrorFamily::Unpack,
            AccountError::WrongOwner | AccountError::NotWritable => ErrorFamily::Authorization,
            AccountError::Truncated | AccountError::Corrupt | AccountError::CapacityExceeded => {
                ErrorFamily::Store
            },
        }
    }

    /// The number under which a host reports this failure: the position of
    /// the variant in the declaration, from zero.
    #[verifier::when_used_as_spec(spec_code)]
    pub fn code(self) -> (r: u32)
        ensures
            r == self.spec_code(),
    {
        match self {
            AccountError::InvalidInstruction => 0,
            AccountError::MissingAccount => 1,
            AccountError::WrongOwner => 2,
            AccountError::NotWritable => 3,
            AccountError::Truncated => 4,
            AccountError::Corrupt => 5,
            AccountError::CapacityExceeded => 6,
        }
    }

    /// The text shown for this failure.
    pub fn message(self) -> (r: &'static str)
        ensures
            r@ == self.spec_message(),
    {
        match self {
            AccountError::InvalidInstruction => "Invalid Instruction",
            AccountError::MissingAccount => "Missing Account",
            AccountError::WrongOwner => "Wrong Owner",
            AccountError::NotWritable => "Account Not Writable",
            AccountError::Truncated => "Truncated Buffer",
            AccountError::Corrupt => "Corrupt Data",
            AccountError::CapacityExceeded => "Capacity Exceeded",
        }
    }
}

/// Why bytes are not the encoding of a record.
#[derive(Debug, Clone, Copy, PartialEq, Eq, Structural)]
pub enum DecodeError {
    /// The lengths in the input do not account for all of its bytes.
    MalformedLength,
    /// The input ends inside a field.
    TruncatedBuffer,
    /// The kind of a record is not zero.
    UnknownKind,
    /// The bytes of a text are not UTF-8.
    InvalidUtf8,
}

} // verus!
