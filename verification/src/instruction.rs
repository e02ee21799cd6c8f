//! The instructions that a payload can carry.
//!
//! A payload is the encoding of one record. The encoding of a name record
//! asks to replace the name of an account; the encoding of a message asks to
//! append that message to the list of an account. No payload is both.

use vstd::prelude::*;
use crate::error::AccountError;
use crate::state::{Message, MessageView, NameAccount, NameView};

verus! {

/// What a caller asks the program to do.
#[derive(Debug, Clone, PartialEq, Eq)]
pub enum AccountInstruction {
    /// Append a message to the list of the first account, which must be
    /// writable and owned by the program.
    SendMessage { sender: String, message: String, sent_date: String },
    /// Replace the name that the first account holds; the account must be
    /// writable and owned by the program.
    Rename { name: String },
}

/// What an `AccountInstruction` holds.
pub enum InstructionView {
    SendMessage { sender: Seq<char>, message: Seq<char>, sent_date: Seq<char> },
    Rename { name: Seq<char> },
}

impl View for AccountInstruction {
    type V = InstructionView;

    open spec fn view(&self) -> InstructionView {
        match self {
            AccountInstruction::SendMessage { sender, message, sent_date } => {
                InstructionView::SendMessage {
                    sender: sender@,
                    message: message@,
                    sent_date: sent_date@,
                }
            },
            AccountInstruction::Rename { name } => InstructionView::Rename { name: name@ },
        }
    }
}

/// The instruction that a payload carries, if it carries one: a rename if
/// the payload is the encoding of a name record, a message to send if it is
/// the encoding of a message.
pub open spec fn instruction_of(input: Seq<u8>) -> Option<InstructionView> {
    match NameView::decoded(input) {
        Ok(record) => Some(InstructionView::Rename { name: record.name }),
        Err(_) => match MessageView::decoded(input) {
            Ok(m) => Some(
                InstructionView::SendMessage {
                    sender: m.sender,
                    message: m.message,
                    sent_date: m.sent_date,
                },
            ),
            Err(_) => None,
        },
    }
}

impl AccountInstruction {
    /// The instruction that `input` carries.
    ///
    /// Fails with `InvalidInstruction` on every payload that is neither the
    /// encoding of a name record nor that of a message; among them every
    /// payload whose first byte, the kind, is not zero.
    pub fn unpack(input: &[u8]) -> (r: Result<Self, AccountError>)
        ensures
            match r {
                Ok(instruction) => instruction_of(input@) == Some(instruction@),
                Err(e) => e == AccountError::InvalidInstruction && instruction_of(input@) is None,
            },
            input@.len() > 0 && input@[0] != 0 ==> r is Err,
    {
        match NameAccount::try_from_slice(input) {
            Ok(record) => Ok(AccountInstruction::Rename { name: record.name }),
            Err(_) => match Message::try_from_slice(input) {
                Ok(m) => Ok(
                    AccountInstruction::SendMessage {
                        sender: m.sender,
                        message: m.message,
                        sent_date: m.sent_date,
                    },
                ),
                Err(_) => Err(AccountError::InvalidInstruction),
            },
        }
    }
}

} // verus!
