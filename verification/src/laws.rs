//! What holds of the encodings, of the buffers and of the instructions,
//! stated over the functions that the contracts of the library use.

use vstd::prelude::*;
use crate::error::{AccountError, DecodeError};
use crate::instruction::{instruction_of, InstructionView};
use crate::processor::routed;
use crate::state::{
    lemma_image_of_list_at_front, lemma_list_at_front_of_image, list_decoded, list_image,
    list_packed_len, list_valid, DataLength, MessageView, NameView,
};
use crate::store::{
    lemma_kinds_of_appended, lemma_stored_messages_of_buffer, lemma_stored_name_of_buffer,
    list_fits, message_appended, name_fits, name_record, name_written, stored_messages,
    stored_name,
};
use crate::wire::{
    le_value, lemma_image_of_text_at_front, lemma_le_bytes_of_value, lemma_le_value_front,
    lemma_le_value_of_bytes, lemma_le_zero, text_at_front,
};

verus! {

/// Decoding the encoding of a valid name record gives the record back.
pub proof fn law_name_round_trip(record: NameView)
    requires
        record.valid(),
    ensures
        NameView::decoded(record.image()) == Ok::<NameView, DecodeError>(record),
{
    record.lemma_at_front_of_image(Seq::empty());
    assert(record.image() + Seq::<u8>::empty() =~= record.image());
}

/// Bytes that decode to a name record are the encoding of that record, and
/// the record is valid.
pub proof fn law_name_decoding_is_exact(bytes: Seq<u8>)
    requires
        NameView::decoded(bytes) is Ok,
    ensures
        NameView::decoded(bytes)->Ok_0.valid(),
        NameView::decoded(bytes)->Ok_0.image() == bytes,
{
    NameView::lemma_image_of_at_front(bytes);
    assert(bytes.subrange(0, bytes.len() as int) =~= bytes);
}

/// Decoding the encoding of a valid message gives the message back.
pub proof fn law_message_round_trip(m: MessageView)
    requires
        m.valid(),
    ensures
        MessageView::decoded(m.image()) == Ok::<MessageView, DecodeError>(m),
{
    m.lemma_at_front_of_image(Seq::empty());
    assert(m.image() + Seq::<u8>::empty() =~= m.image());
}

/// Bytes that decode to a message are the encoding of that message, and the
/// message is valid.
pub proof fn law_message_decoding_is_exact(bytes: Seq<u8>)
    requires
        MessageView::decoded(bytes) is Ok,
    ensures
        MessageView::decoded(bytes)->Ok_0.valid(),
        MessageView::decoded(bytes)->Ok_0.image() == bytes,
{
    MessageView::lemma_image_of_at_front(bytes);
    assert(bytes.subrange(0, bytes.len() as int) =~= bytes);
}

/// Decoding the encoding of a valid list gives the list back, its messages
/// in their order.
pub proof fn law_list_round_trip(items: Seq<MessageView>)
    requires
        list_valid(items),
    ensures
        list_decoded(list_image(items)) == Ok::<Seq<MessageView>, DecodeError>(items),
        list_image(items).len() == list_packed_len(items),
{
    lemma_list_at_front_of_image(items, Seq::empty());
    assert(list_image(items) + Seq::<u8>::empty() =~= list_image(items));
}

/// Bytes that decode to a list are the encoding of that list, and the list
/// is valid.
pub proof fn law_list_decoding_is_exact(bytes: Seq<u8>)
    requires
        list_decoded(bytes) is Ok,
    ensures
        list_valid(list_decoded(bytes)->Ok_0),
        list_image(list_decoded(bytes)->Ok_0) == bytes,
{
    lemma_image_of_list_at_front(bytes);
    assert(bytes.subrange(0, bytes.len() as int) =~= bytes);
}

/// Decoding the encoding of a length field gives the field back, and four
/// bytes are the encoding of the field that they decode to.
pub proof fn law_length_round_trip(field: DataLength, bytes: Seq<u8>)
    ensures
        DataLength::decoded(field.image()) == Ok::<DataLength, DecodeError>(field),
        bytes.len() == 4 ==> DataLength::decoded(bytes)->Ok_0.image() == bytes,
{
    lemma_le_value_of_bytes(field.length, Seq::empty());
    assert(field.image() + Seq::<u8>::empty() =~= field.image());
    if bytes.len() == 4 {
        lemma_le_bytes_of_value(bytes);
        assert(bytes.subrange(0, 4) =~= bytes);
    }
}

/// A buffer whose first four bytes are zero holds the empty list, whatever
/// its other bytes are.
pub proof fn law_empty_is_valid(buffer: Seq<u8>)
    requires
        buffer.len() >= 4,
        forall|i: int| 0 <= i < 4 ==> buffer[i] == 0,
    ensures
        stored_messages(buffer) == Ok::<Seq<MessageView>, AccountError>(Seq::empty()),
{
    lemma_le_zero(buffer);
}

/// What a buffer holds depends on its length field and on as many bytes
/// behind it as the field says; the bytes behind those are not read.
pub proof fn law_bytes_behind_the_list_are_not_read(first: Seq<u8>, second: Seq<u8>)
    requires
        first.len() >= 4,
        4 + le_value(first) <= first.len(),
        4 + le_value(first) <= second.len(),
        first.subrange(0, 4 + le_value(first)) == second.subrange(0, 4 + le_value(first)),
    ensures
        stored_messages(first) == stored_messages(second),
{
    let end = 4 + le_value(first);
    assert(first.subrange(0, 4) =~= first.subrange(0, end).subrange(0, 4));
    assert(second.subrange(0, 4) =~= second.subrange(0, end).subrange(0, 4));
    lemma_le_value_front(first, second);
    assert(first.subrange(4, end) =~= first.subrange(0, end).subrange(4, end));
    assert(second.subrange(4, end) =~= second.subrange(0, end).subrange(4, end));
}

/// After a message has been appended, the buffer holds the messages that it
/// held before, in their order, and the new message behind them.
pub proof fn law_append_keeps_order(buffer: Seq<u8>, new: MessageView)
    requires
        message_appended(buffer, new).0 is Ok,
    ensures
        message_appended(buffer, new).1.len() == buffer.len(),
        stored_messages(message_appended(buffer, new).1) == Ok::<
            Seq<MessageView>,
            AccountError,
        >(stored_messages(buffer)->Ok_0.push(new)),
        forall|i: int|
            0 <= i < stored_messages(buffer)->Ok_0.len() ==> stored_messages(
                message_appended(buffer, new).1,
            )->Ok_0[i] == stored_messages(buffer)->Ok_0[i],
        stored_messages(message_appended(buffer, new).1)->Ok_0.last() == new,
{
    lemma_kinds_of_appended(buffer, new);
    lemma_stored_messages_of_buffer(stored_messages(buffer)->Ok_0.push(new), buffer);
}

/// A message whose list would need more bytes than the buffer has, or than
/// the length field can say, is refused with `CapacityExceeded`, and the
/// buffer stays as it is.
pub proof fn law_capacity_boundary(buffer: Seq<u8>, new: MessageView)
    requires
        stored_messages(buffer) is Ok,
        !list_fits(stored_messages(buffer)->Ok_0.push(new), buffer.len()),
    ensures
        message_appended(buffer, new) == (
            Err::<(), AccountError>(AccountError::CapacityExceeded),
            buffer,
        ),
{
}

/// Every failure to append leaves the buffer as it is.
pub proof fn law_failed_append_writes_nothing(buffer: Seq<u8>, new: MessageView)
    requires
        message_appended(buffer, new).0 is Err,
    ensures
        message_appended(buffer, new).1 == buffer,
{
}

/// An account of another owner is refused with `WrongOwner` and its buffer
/// stays as it is, whatever the instruction and the writable flag.
pub proof fn law_ownership_gate(
    instruction: InstructionView,
    owner: Seq<u8>,
    is_writable: bool,
    program_id: Seq<u8>,
    data: Seq<u8>,
)
    requires
        owner != program_id,
    ensures
        routed(instruction, owner, is_writable, program_id, data) == (
            Err::<(), AccountError>(AccountError::WrongOwner),
            data,
        ),
{
}

/// A buffer to which a name was written holds that name and nothing of what
/// it held before: two buffers of one size are the same after the same name
/// was written to both.
pub proof fn law_rename_overwrites(first: Seq<u8>, second: Seq<u8>, name: Seq<char>)
    requires
        first.len() == second.len(),
        name_fits(name, first.len()),
    ensures
        name_written(first, name) == name_written(second, name),
        stored_name(name_written(first, name).1) == Ok::<NameView, AccountError>(
            name_record(name),
        ),
{
    lemma_stored_name_of_buffer(name, first.len());
}

/// A payload whose first byte, the kind, is not zero carries no instruction,
/// whatever its other bytes are.
pub proof fn law_unknown_kind_rejected(input: Seq<u8>)
    requires
        input.len() > 0,
        input[0] != 0,
    ensures
        instruction_of(input) is None,
{
}

/// No payload is both the encoding of a name record and that of a message.
pub proof fn law_payload_shapes_are_disjoint(input: Seq<u8>)
    ensures
        !(NameView::decoded(input) is Ok && MessageView::decoded(input) is Ok),
{
    if NameView::decoded(input) is Ok && MessageView::decoded(input) is Ok {
        let (sender, a) = text_at_front(input.skip(1))->Ok_0;
        lemma_image_of_text_at_front(input.skip(1));
        lemma_image_of_text_at_front(input.skip(1 + a));
        let (message, b) = text_at_front(input.skip(1 + a))->Ok_0;
        lemma_image_of_text_at_front(input.skip(1 + a + b));
        assert(false);
    }
}

/// The encoding of a valid name record carries the instruction to write
/// that name, and the encoding of a valid message the instruction to send it.
pub proof fn law_payload_of_record(record: NameView, m: MessageView)
    ensures
        record.valid() ==> instruction_of(record.image()) == Some(
            InstructionView::Rename { name: record.name },
        ),
        m.valid() ==> instruction_of(m.image()) == Some(
            InstructionView::SendMessage {
                sender: m.sender,
                message: m.message,
                sent_date: m.sent_date,
            },
        ),
{
    if record.valid() {
        law_name_round_trip(record);
    }
    if m.valid() {
        law_message_round_trip(m);
        law_payload_shapes_are_disjoint(m.image());
    }
}

/// A buffer whose length field is not zero and gives more bytes than the
/// buffer has behind it holds no list, and every message is refused with
/// `Truncated`; the buffer stays as it is.
pub proof fn law_short_buffer_rejected(buffer: Seq<u8>, new: MessageView)
    requires
        buffer.len() >= 4,
        le_value(buffer) != 0,
        4 + le_value(buffer) > buffer.len(),
    ensures
        stored_messages(buffer) == Err::<Seq<MessageView>, AccountError>(AccountError::Truncated),
        message_appended(buffer, new) == (
            Err::<(), AccountError>(AccountError::Truncated),
            buffer,
        ),
{
}

} // verus!
