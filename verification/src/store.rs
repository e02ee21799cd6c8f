//! Reading and rewriting the buffer of one account.
//!
//! A name account holds one name record at the front of its buffer and zero
//! bytes behind it. A message account holds a length field of four bytes,
//! then the encoded list of that length; what lies behind is never read and
//! never written. New contents are encoded in full before the first byte of
//! the buffer is touched, so a call that fails leaves the buffer as it was.

use vstd::prelude::*;
use vstd::slice::slice_subrange;
use crate::error::{AccountError, DecodeError};
use crate::state::{
    lemma_image_of_list_at_front, lemma_items_image_len, lemma_items_image_push,
    lemma_list_at_front_of_image, list_decoded, list_image, list_packed_len, list_valid,
    DataLength, Message, MessageAccount, MessageView, NameAccount, NameView,
};
use crate::wire::{
    le_bytes, le_value, lemma_le_bytes_len, lemma_le_value_front, lemma_le_value_of_bytes,
    put_text, text_fits, utf8_len,
};

verus! {

/// `count` zero bytes.
pub open spec fn zeros(count: nat) -> Seq<u8> {
    Seq::new(count, |i: int| 0u8)
}

/// The record that stands for a name.
pub open spec fn name_record(name: Seq<char>) -> NameView {
    NameView { id: 0, name }
}

/// Whether the record of a name can be written to a buffer of `capacity`
/// bytes.
pub open spec fn name_fits(name: Seq<char>, capacity: nat) -> bool {
    text_fits(name) && name_record(name).packed_len() <= capacity
}

/// A buffer of `capacity` bytes that holds a name: the record, then zeros.
pub open spec fn name_buffer(name: Seq<char>, capacity: nat) -> Seq<u8> {
    name_record(name).image() + zeros((capacity - name_record(name).packed_len()) as nat)
}

/// What writing a name does to a buffer: the result, and the buffer after it.
pub open spec fn name_written(buffer: Seq<u8>, name: Seq<char>) -> (
    Result<(), AccountError>,
    Seq<u8>,
) {
    if name_fits(name, buffer.len()) {
        (Ok(()), name_buffer(name, buffer.len()))
    } else {
        (Err(AccountError::CapacityExceeded), buffer)
    }
}

/// The name record that a buffer holds, or the reason why it holds none:
/// `Truncated` if the buffer ends inside the record, `Corrupt` if the record
/// is malformed or a byte behind it is not zero.
pub open spec fn stored_name(buffer: Seq<u8>) -> Result<NameView, AccountError> {
    match NameView::at_front(buffer) {
        Err(DecodeError::TruncatedBuffer) => Err(AccountError::Truncated),
        Err(_) => Err(AccountError::Corrupt),
        Ok((record, used)) => if buffer.skip(used) == zeros((buffer.len() - used) as nat) {
            Ok(record)
        } else {
            Err(AccountError::Corrupt)
        },
    }
}

/// The list that a buffer holds, or the reason why it holds none: `Truncated`
/// if the buffer is shorter than its length field or than the length that the
/// field gives, `Corrupt` if the bytes of that length are no list. A length of
/// zero stands for the empty list.
pub open spec fn stored_messages(buffer: Seq<u8>) -> Result<Seq<MessageView>, AccountError> {
    if buffer.len() < 4 {
        Err(AccountError::Truncated)
    } else if le_value(buffer) == 0 {
        Ok(Seq::empty())
    } else if 4 + le_value(buffer) > buffer.len() {
        Err(AccountError::Truncated)
    } else {
        match list_decoded(buffer.subrange(4, 4 + le_value(buffer))) {
            Ok(items) => Ok(items),
            Err(_) => Err(AccountError::Corrupt),
        }
    }
}

/// A buffer that holds a list: the length of its encoding, the encoding, and
/// behind it what `before` had there.
pub open spec fn message_buffer(items: Seq<MessageView>, before: Seq<u8>) -> Seq<u8> {
    le_bytes(list_packed_len(items) as u32) + list_image(items) + before.skip(
        4 + list_packed_len(items) as int,
    )
}

/// Whether a list fits a buffer of `capacity` bytes: its length field can
/// say the size of its encoding, and field and encoding fit the buffer.
pub open spec fn list_fits(items: Seq<MessageView>, capacity: nat) -> bool {
    list_packed_len(items) <= u32::MAX && 4 + list_packed_len(items) <= capacity
}

/// Why a message cannot be appended to what a buffer holds, if it cannot:
/// the buffer holds no list, the longer list does not fit, or the kind of the
/// message is not zero. The reasons are looked for in this order.
pub open spec fn append_refusal(buffer: Seq<u8>, new: MessageView) -> Option<AccountError> {
    match stored_messages(buffer) {
        Err(e) => Some(e),
        Ok(items) => if !list_fits(items.push(new), buffer.len()) {
            Some(AccountError::CapacityExceeded)
        } else if new.id != 0 {
            Some(AccountError::InvalidInstruction)
        } else {
            None
        },
    }
}

/// What appending a message does to a buffer: the result, and the buffer
/// after it.
pub open spec fn message_appended(buffer: Seq<u8>, new: MessageView) -> (
    Result<(), AccountError>,
    Seq<u8>,
) {
    match append_refusal(buffer, new) {
        Some(e) => (Err(e), buffer),
        None => (Ok(()), message_buffer(stored_messages(buffer)->Ok_0.push(new), buffer)),
    }
}

/// A buffer that holds a name is read back as that name.
pub proof fn lemma_stored_name_of_buffer(name: Seq<char>, capacity: nat)
    requires
        name_fits(name, capacity),
    ensures
        name_buffer(name, capacity).len() == capacity,
        stored_name(name_buffer(name, capacity)) == Ok::<NameView, AccountError>(
            name_record(name),
        ),
{
    let record = name_record(name);
    let padding = zeros((capacity - record.packed_len()) as nat);
    record.lemma_image_len();
    record.lemma_at_front_of_image(padding);
    assert(name_buffer(name, capacity).skip(record.image().len() as int) =~= padding);
}

/// A list that fits its buffer is valid, and a buffer that holds it is read
/// back as that list.
pub proof fn lemma_stored_messages_of_buffer(items: Seq<MessageView>, before: Seq<u8>)
    requires
        items.len() > 0,
        forall|i: int| 0 <= i < items.len() ==> (#[trigger] items[i]).id == 0,
        list_fits(items, before.len()),
    ensures
        list_valid(items),
        message_buffer(items, before).len() == before.len(),
        stored_messages(message_buffer(items, before)) == Ok::<Seq<MessageView>, AccountError>(
            items,
        ),
{
    let size = list_packed_len(items);
    let after = message_buffer(items, before);
    let rest = before.skip(4 + size as int);
    lemma_fitting_list_is_valid(items);
    lemma_items_image_len(items);
    lemma_le_bytes_len(items.len() as u32);
    lemma_le_value_of_bytes(size as u32, list_image(items) + rest);
    assert(after =~= le_bytes(size as u32) + (list_image(items) + rest));
    assert(after.subrange(4, 4 + size as int) =~= list_image(items));
    lemma_list_at_front_of_image(items, Seq::empty());
    assert(list_image(items) + Seq::<u8>::empty() =~= list_image(items));
}

/// A list of messages of kind zero whose encoding is no longer than a length
/// field can say is valid.
pub proof fn lemma_fitting_list_is_valid(items: Seq<MessageView>)
    requires
        forall|i: int| 0 <= i < items.len() ==> (#[trigger] items[i]).id == 0,
        list_packed_len(items) <= u32::MAX,
    ensures
        list_valid(items),
    decreases items.len(),
{
    lemma_items_image_len(items);
    if items.len() > 0 {
        let tail = items.skip(1);
        assert forall|i: int| 0 <= i < tail.len() implies (#[trigger] tail[i]).id == 0 by {
            assert(tail[i] == items[i + 1]);
        }
        lemma_fitting_list_is_valid(tail);
        assert forall|i: int| 0 <= i < items.len() implies (#[trigger] items[i]).valid() by {
            if i > 0 {
                assert(items[i] == tail[i - 1]);
            }
        }
    }
}

/// The messages that a buffer holds, and a message of kind zero behind
/// them, are all of kind zero.
pub proof fn lemma_kinds_of_appended(buffer: Seq<u8>, new: MessageView)
    requires
        stored_messages(buffer) is Ok,
        new.id == 0,
    ensures
        forall|i: int|
            0 <= i < stored_messages(buffer)->Ok_0.push(new).len() ==> (
            #[trigger] stored_messages(buffer)->Ok_0.push(new)[i]).id == 0,
{
    let items = stored_messages(buffer)->Ok_0;
    let all = items.push(new);
    if buffer.len() >= 4 && le_value(buffer) != 0 {
        let region = buffer.subrange(4, 4 + le_value(buffer));
        lemma_image_of_list_at_front(region);
    }
    assert forall|i: int| 0 <= i < all.len() implies (#[trigger] all[i]).id == 0 by {
        if i < items.len() {
            assert(all[i] == items[i]);
            assert(items[i].valid());
        }
    }
}

/// Copies `bytes` into `buffer` from `start` on.
fn overwrite(buffer: &mut [u8], start: usize, bytes: &[u8])
    requires
        start + bytes@.len() <= old(buffer)@.len(),
    ensures
        final(buffer)@ == old(buffer)@.take(start as int) + bytes@ + old(buffer)@.skip(
            start + bytes@.len(),
        ),
{
    let len = buffer.len();
    let count = bytes.len();
    let mut i: usize = 0;
    assert(buffer@ =~= old(buffer)@.take(start as int) + bytes@.take(0) + old(buffer)@.skip(
        start as int,
    ));
    while i < count
        invariant
            count == bytes@.len(),
            i <= count,
            len == buffer@.len(),
            len == old(buffer)@.len(),
            start + count <= len,
            buffer@ == old(buffer)@.take(start as int) + bytes@.take(i as int) + old(buffer)@.skip(start + i),
        decreases count - i,
    {
        buffer[start + i] = bytes[i];
        assert(buffer@ =~= old(buffer)@.take(start as int) + bytes@.take(i + 1) + old(buffer)@.skip(start + i + 1));
        i += 1;
    }
    assert(bytes@.take(count as int) =~= bytes@);
}

/// Sets every byte of `buffer` from `start` on to zero.
fn clear_from(buffer: &mut [u8], start: usize)
    requires
        start <= old(buffer)@.len(),
    ensures
        final(buffer)@ == old(buffer)@.take(start as int) + zeros(
            (old(buffer)@.len() - start) as nat,
        ),
{
    let len = buffer.len();
    let mut i: usize = start;
    while i < len
        invariant
            len == buffer@.len(),
            len == old(buffer)@.len(),
            start <= i <= len,
            buffer@ == old(buffer)@.take(start as int) + zeros((i - start) as nat) + old(buffer)@.skip(i as int),
        decreases len - i,
    {
        buffer[i] = 0;
        assert(buffer@ =~= old(buffer)@.take(start as int) + zeros((i + 1 - start) as nat) + old(buffer)@.skip(i + 1));
        i += 1;
    }
    assert(buffer@ =~= old(buffer)@.take(start as int) + zeros((len - start) as nat));
}

/// Whether every byte of `buffer` from `start` on is zero.
fn is_clear_from(buffer: &[u8], start: usize) -> (r: bool)
    requires
        start <= buffer@.len(),
    ensures
        r == (buffer@.skip(start as int) == zeros((buffer@.len() - start) as nat)),
{
    let len = buffer.len();
    let mut i: usize = start;
    while i < len
        invariant
            len == buffer@.len(),
            start <= i <= len,
            forall|k: int| start <= k < i ==> buffer@[k] == 0,
        decreases len - i,
    {
        if buffer[i] != 0 {
            assert(buffer@.skip(start as int)[i - start] != 0);
            return false;
        }
        i += 1;
    }
    assert(buffer@.skip(start as int) =~= zeros((len - start) as nat));
    true
}

/// Replaces what the buffer holds by the record of `new_name`.
///
/// Succeeds exactly when the record fits the buffer; the buffer then holds
/// the record and zeros behind it, whatever it held before. Fails with
/// `CapacityExceeded` otherwise, and leaves the buffer as it was.
pub fn write_name(buffer: &mut [u8], new_name: &str) -> (r: Result<(), AccountError>)
    ensures
        final(buffer)@.len() == old(buffer)@.len(),
        (r, final(buffer)@) == name_written(old(buffer)@, new_name@),
        r is Ok ==> stored_name(final(buffer)@) == Ok::<NameView, AccountError>(
            name_record(new_name@),
        ),
{
    let capacity = buffer.len();
    let size = utf8_len(new_name);
    if size > u32::MAX as usize || capacity < 5 || size > capacity - 5 {
        return Err(AccountError::CapacityExceeded);
    }
    let mut staged: Vec<u8> = Vec::new();
    staged.push(0);
    put_text(&mut staged, new_name);
    proof {
        name_record(new_name@).lemma_image_len();
        assert(staged@ =~= name_record(new_name@).image());
        lemma_stored_name_of_buffer(new_name@, capacity as nat);
    }
    overwrite(buffer, 0, staged.as_slice());
    clear_from(buffer, staged.len());
    assert(buffer@ =~= name_buffer(new_name@, capacity as nat));
    Ok(())
}

/// The name record that the buffer holds.
///
/// Succeeds exactly on a buffer that holds a record of kind zero at its front
/// and only zeros behind it. A buffer of zeros holds the empty name.
pub fn read_name(buffer: &[u8]) -> (r: Result<NameAccount, AccountError>)
    ensures
        match r {
            Ok(record) => stored_name(buffer@) == Ok::<NameView, AccountError>(record@),
            Err(e) => stored_name(buffer@) == Err::<NameView, AccountError>(e),
        },
{
    assert(buffer@.skip(0) =~= buffer@);
    match NameAccount::read_from(buffer, 0) {
        Err(DecodeError::TruncatedBuffer) => Err(AccountError::Truncated),
        Err(_) => Err(AccountError::Corrupt),
        Ok((record, next)) => {
            if is_clear_from(buffer, next) {
                Ok(record)
            } else {
                Err(AccountError::Corrupt)
            }
        },
    }
}

/// The list of messages that the buffer holds.
///
/// A buffer whose length field is zero holds the empty list, whatever
/// follows the field.
pub fn read_messages(buffer: &[u8]) -> (r: Result<MessageAccount, AccountError>)
    ensures
        match r {
            Ok(list) => stored_messages(buffer@) == Ok::<Seq<MessageView>, AccountError>(list@)
                && list_valid(list@),
            Err(e) => stored_messages(buffer@) == Err::<Seq<MessageView>, AccountError>(e),
        },
        buffer@.len() >= 4 && le_value(buffer@) == 0 ==> r is Ok && r->Ok_0@.len() == 0,
{
    let capacity = buffer.len();
    if capacity < 4 {
        return Err(AccountError::Truncated);
    }
    let field = slice_subrange(buffer, 0, 4);
    proof {
        assert(field@.subrange(0, 4) =~= buffer@.subrange(0, 4));
        lemma_le_value_front(field@, buffer@);
    }
    let data_length = match DataLength::try_from_slice(field) {
        Ok(data_length) => data_length,
        Err(_) => {
            return Err(AccountError::Truncated);
        },
    };
    if data_length.length == 0 {
        let list = MessageAccount { sent: Vec::new() };
        assert(list@ =~= Seq::empty());
        return Ok(list);
    }
    let length = data_length.length as usize;
    if length > capacity - 4 {
        return Err(AccountError::Truncated);
    }
    match MessageAccount::try_from_slice(slice_subrange(buffer, 4, 4 + length)) {
        Ok(list) => Ok(list),
        Err(_) => Err(AccountError::Corrupt),
    }
}

/// The encoding of the list that the buffer holds with `new_message` behind
/// it, if the message can be appended.
fn staged_list(buffer: &[u8], new_message: Message) -> (r: Result<Vec<u8>, AccountError>)
    ensures
        match r {
            Ok(staged) => {
                &&& append_refusal(buffer@, new_message@) is None
                &&& staged@ == list_image(stored_messages(buffer@)->Ok_0.push(new_message@))
                &&& staged@.len() == list_packed_len(
                    stored_messages(buffer@)->Ok_0.push(new_message@),
                )
            },
            Err(e) => append_refusal(buffer@, new_message@) == Some(e),
        },
{
    let capacity = buffer.len();
    let mut list = match read_messages(buffer) {
        Ok(list) => list,
        Err(e) => {
            return Err(e);
        },
    };
    let kind = new_message.id;
    let ghost new = new_message@;
    let ghost items = list@;
    let plain = Message {
        id: 0,
        sender: new_message.sender,
        message: new_message.message,
        sent_date: new_message.sent_date,
    };
    let ghost all = items.push(plain@);
    list.sent.push(plain);
    proof {
        assert(list@ =~= all);
        lemma_items_image_push(items, plain@);
        lemma_items_image_push(items, new);
        lemma_items_image_len(all);
        lemma_le_bytes_len(all.len() as u32);
        assert forall|i: int| 0 <= i < all.len() implies (#[trigger] all[i]).id == 0 by {
            if i < items.len() {
                assert(all[i] == items[i]);
                assert(items[i].valid());
            }
        }
        if list_packed_len(all) <= u32::MAX {
            lemma_fitting_list_is_valid(all);
        }
    }
    let size = match list.packed_len() {
        Some(size) => size,
        None => {
            return Err(AccountError::CapacityExceeded);
        },
    };
    if size > u32::MAX as usize || size > capacity - 4 {
        return Err(AccountError::CapacityExceeded);
    }
    if kind != 0 {
        return Err(AccountError::InvalidInstruction);
    }
    match list.try_to_vec() {
        Some(staged) => Ok(staged),
        None => Err(AccountError::CapacityExceeded),
    }
}

/// Appends `new_message` to the list that the buffer holds.
///
/// Fails with what `read_messages` fails with if the buffer holds no list;
/// else with `CapacityExceeded` if the longer list does not fit the buffer or
/// its length field; else with `InvalidInstruction` if the kind of the
/// message is not zero. In each of these cases the buffer is left as it was. Else
/// the buffer holds the old messages in their order and the new one behind
/// them; the bytes behind the list are left as they were.
pub fn append_message(buffer: &mut [u8], new_message: Message) -> (r: Result<(), AccountError>)
    ensures
        final(buffer)@.len() == old(buffer)@.len(),
        (r, final(buffer)@) == message_appended(old(buffer)@, new_message@),
        r is Ok ==> stored_messages(final(buffer)@) == Ok::<Seq<MessageView>, AccountError>(
            stored_messages(old(buffer)@)->Ok_0.push(new_message@),
        ),
{
    let ghost new = new_message@;
    let staged = match staged_list(buffer, new_message) {
        Ok(staged) => staged,
        Err(e) => {
            return Err(e);
        },
    };
    let ghost all = stored_messages(old(buffer)@)->Ok_0.push(new);
    let prefix = (DataLength { length: staged.len() as u32 }).try_to_vec();
    proof {
        lemma_le_bytes_len(staged@.len() as u32);
        lemma_kinds_of_appended(old(buffer)@, new);
        lemma_stored_messages_of_buffer(all, old(buffer)@);
    }
    overwrite(buffer, 0, prefix.as_slice());
    overwrite(buffer, 4, staged.as_slice());
    assert(buffer@ =~= message_buffer(all, old(buffer)@));
    Ok(())
}

} // verus!
