//! From a payload and a list of accounts to a change of one buffer.

use vstd::prelude::*;
use crate::error::AccountError;
use crate::instruction::{instruction_of, AccountInstruction, InstructionView};
use crate::state::{Message, MessageView};
use crate::store::{append_message, message_appended, name_written, write_name};

verus! {

/// One account as the host hands it over: who owns it, whether it may be
/// written, and its buffer, whose size is fixed.
#[derive(Debug)]
pub struct AccountHandle<'a> {
    pub owner: [u8; 32],
    pub is_writable: bool,
    pub data: &'a mut [u8],
}

/// What an instruction does to an account: the result, and the buffer after
/// it. The owner is looked at first, then the writable flag.
pub open spec fn routed(
    instruction: InstructionView,
    owner: Seq<u8>,
    is_writable: bool,
    program_id: Seq<u8>,
    data: Seq<u8>,
) -> (Result<(), AccountError>, Seq<u8>) {
    if owner != program_id {
        (Err(AccountError::WrongOwner), data)
    } else if !is_writable {
        (Err(AccountError::NotWritable), data)
    } else {
        match instruction {
            InstructionView::Rename { name } => name_written(data, name),
            InstructionView::SendMessage { sender, message, sent_date } => message_appended(
                data,
                MessageView { id: 0, sender, message, sent_date },
            ),
        }
    }
}

/// Whether `after` and `r` are what an instruction makes of the accounts
/// `before`: it fails with `MissingAccount` on an empty list, and else acts
/// on the first account alone.
pub open spec fn dispatched<'a>(
    instruction: InstructionView,
    program_id: Seq<u8>,
    before: Seq<AccountHandle<'a>>,
    after: Seq<AccountHandle<'a>>,
    r: Result<(), AccountError>,
) -> bool {
    &&& after.len() == before.len()
    &&& forall|i: int| 1 <= i < before.len() ==> after[i] == before[i]
    &&& if before.len() == 0 {
        r == Err::<(), AccountError>(AccountError::MissingAccount)
    } else {
        &&& after[0].owner == before[0].owner
        &&& after[0].is_writable == before[0].is_writable
        &&& (r, after[0].data@) == routed(
            instruction,
            before[0].owner@,
            before[0].is_writable,
            program_id,
            before[0].data@,
        )
    }
}

/// Whether two identities are the same.
pub fn same_identity(a: &[u8; 32], b: &[u8; 32]) -> (r: bool)
    ensures
        r == (a@ == b@),
{
    let mut i: usize = 0;
    while i < 32
        invariant
            i <= 32,
            forall|k: int| 0 <= k < i ==> a@[k] == b@[k],
        decreases 32 - i,
    {
        if a[i] != b[i] {
            return false;
        }
        i += 1;
    }
    assert(a@ =~= b@);
    true
}

/// The entry points of the program.
pub struct Processor;

impl Processor {
    /// Carries out `instruction` on `account` for the program `program_id`.
    ///
    /// Fails with `WrongOwner` if the account belongs to another program and
    /// with `NotWritable` if it may not be written, and then leaves the
    /// buffer as it was, whatever the instruction. Else it writes the name or
    /// appends the message, and fails as those do.
    pub fn route(
        instruction: AccountInstruction,
        account: &mut AccountHandle,
        program_id: &[u8; 32],
    ) -> (r: Result<(), AccountError>)
        ensures
            final(account).owner == old(account).owner,
            final(account).is_writable == old(account).is_writable,
            final(account).data@.len() == old(account).data@.len(),
            (r, final(account).data@) == routed(
                instruction@,
                old(account).owner@,
                old(account).is_writable,
                program_id@,
                old(account).data@,
            ),
            old(account).owner@ != program_id@ ==> r == Err::<(), AccountError>(
                AccountError::WrongOwner,
            ) && final(account).data@ == old(account).data@,
    {
        if !same_identity(&account.owner, program_id) {
            return Err(AccountError::WrongOwner);
        }
        if !account.is_writable {
            return Err(AccountError::NotWritable);
        }
        match instruction {
            AccountInstruction::Rename { name } => write_name(account.data, name.as_str()),
            AccountInstruction::SendMessage { sender, message, sent_date } => {
                let new_message = Message { id: 0, sender, message, sent_date };
                append_message(account.data, new_message)
            },
        }
    }

    /// Carries out `instruction` on the first of `accounts`.
    fn dispatch(
        instruction: AccountInstruction,
        accounts: &mut [AccountHandle],
        program_id: &[u8; 32],
    ) -> (r: Result<(), AccountError>)
        ensures
            dispatched(instruction@, program_id@, old(accounts)@, final(accounts)@, r),
    {
        match accounts.first_mut() {
            None => Err(AccountError::MissingAccount),
            Some(account) => Processor::route(instruction, account, program_id),
        }
    }

    /// Appends a message to the list of the first of `accounts`.
    pub fn process_send_message(
        accounts: &mut [AccountHandle],
        program_id: &[u8; 32],
        sender: String,
        message: String,
        sent_date: String,
    ) -> (r: Result<(), AccountError>)
        ensures
            dispatched(
                InstructionView::SendMessage {
                    sender: sender@,
                    message: message@,
                    sent_date: sent_date@,
                },
                program_id@,
                old(accounts)@,
                final(accounts)@,
                r,
            ),
    {
        Processor::dispatch(
            AccountInstruction::SendMessage { sender, message, sent_date },
            accounts,
            program_id,
        )
    }

    /// Replaces the name that the first of `accounts` holds.
    pub fn process_rename(accounts: &mut [AccountHandle], program_id: &[u8; 32], name: String) -> (r:
        Result<(), AccountError>)
        ensures
            dispatched(
                InstructionView::Rename { name: name@ },
                program_id@,
                old(accounts)@,
                final(accounts)@,
                r,
            ),
    {
        Processor::dispatch(AccountInstruction::Rename { name }, accounts, program_id)
    }

    /// Reads the instruction that `instruction_data` carries and carries it
    /// out on the first of `accounts`.
    ///
    /// Fails with `InvalidInstruction` if the payload carries no instruction,
    /// and then leaves every account as it was; the accounts are not looked
    /// at before the payload has been read.
    pub fn process(
        program_id: &[u8; 32],
        accounts: &mut [AccountHandle],
        instruction_data: &[u8],
    ) -> (r: Result<(), AccountError>)
        ensures
            match instruction_of(instruction_data@) {
                None => {
                    &&& r == Err::<(), AccountError>(AccountError::InvalidInstruction)
                    &&& final(accounts)@ == old(accounts)@
                },
                Some(instruction) => dispatched(
                    instruction,
                    program_id@,
                    old(accounts)@,
                    final(accounts)@,
                    r,
                ),
            },
    {
        let instruction = match AccountInstruction::unpack(instruction_data) {
            Ok(instruction) => instruction,
            Err(e) => {
                return Err(e);
            },
        };
        match instruction {
            AccountInstruction::SendMessage { sender, message, sent_date } => {
                Processor::process_send_message(accounts, program_id, sender, message, sent_date)
            },
            AccountInstruction::Rename { name } => Processor::process_rename(
                accounts,
                program_id,
                name,
            ),
        }
    }
}

} // verus!
