use account_records::error::AccountError;
use account_records::state::{DataLength, Message, MessageAccount, NameAccount};
use account_records::store::{append_message, read_messages, read_name, write_name};

fn note(sender: &str, text: &str, sent_date: &str) -> Message {
    Message {
        id: 0,
        sender: sender.to_string(),
        message: text.to_string(),
        sent_date: sent_date.to_string(),
    }
}

#[test]
fn zero_length_field_is_the_empty_list() {
    let buffer = vec![0u8; 64];
    assert_eq!(read_messages(&buffer), Ok(MessageAccount { sent: Vec::new() }));
    let mut stale = vec![0xabu8; 64];
    stale[..4].copy_from_slice(&[0, 0, 0, 0]);
    assert_eq!(read_messages(&stale), Ok(MessageAccount { sent: Vec::new() }));
    assert_eq!(read_messages(&[0, 0, 0, 0]), Ok(MessageAccount { sent: Vec::new() }));
}

#[test]
fn encoded_empty_list_is_read_too() {
    let buffer = [4u8, 0, 0, 0, 0, 0, 0, 0, 9, 9];
    assert_eq!(read_messages(&buffer), Ok(MessageAccount { sent: Vec::new() }));
}

#[test]
fn append_to_empty_buffer() {
    let mut buffer = vec![0u8; 64];
    let c = note("carol", "hi", "wed");
    assert_eq!(append_message(&mut buffer, c.clone()), Ok(()));
    assert_eq!(read_messages(&buffer), Ok(MessageAccount { sent: vec![c.clone()] }));
    let encoded = MessageAccount { sent: vec![c] }.try_to_vec().unwrap();
    assert_eq!(encoded.len(), 4 + 13 + 5 + 2 + 3);
    assert_eq!(&buffer[..4], &[27u8, 0, 0, 0][..]);
    assert_eq!(&buffer[4..4 + encoded.len()], &encoded[..]);
    assert!(buffer[4 + encoded.len()..].iter().all(|b| *b == 0));
}

#[test]
fn append_keeps_earlier_messages_in_order() {
    let mut buffer = vec![0u8; 256];
    let a = note("alice", "first", "mon");
    let b = note("bob", "second", "tue");
    let c = note("carol", "third", "wed");
    assert_eq!(append_message(&mut buffer, a.clone()), Ok(()));
    assert_eq!(append_message(&mut buffer, b.clone()), Ok(()));
    assert_eq!(
        read_messages(&buffer),
        Ok(MessageAccount { sent: vec![a.clone(), b.clone()] })
    );
    assert_eq!(append_message(&mut buffer, c.clone()), Ok(()));
    let list = MessageAccount { sent: vec![a, b, c] };
    assert_eq!(read_messages(&buffer), Ok(list.clone()));
    let size = list.packed_len().unwrap();
    assert_eq!(
        DataLength::try_from_slice(&buffer[..4]),
        Ok(DataLength { length: size as u32 })
    );
    assert_eq!(&buffer[4..4 + size], &list.try_to_vec().unwrap()[..]);
}

#[test]
fn append_leaves_bytes_behind_the_list_alone() {
    let mut buffer = vec![0x5au8; 40];
    buffer[..4].copy_from_slice(&[0, 0, 0, 0]);
    assert_eq!(append_message(&mut buffer, note("a", "b", "c")), Ok(()));
    let used = 4 + 4 + 16;
    assert!(buffer[used..].iter().all(|b| *b == 0x5a));
    assert_eq!(read_messages(&buffer).unwrap().sent.len(), 1);
}

#[test]
fn append_fills_the_buffer_to_its_last_byte() {
    let m = note("ab", "cd", "ef");
    let needed = 4 + 4 + 13 + 6;
    let mut exact = vec![0u8; needed];
    assert_eq!(append_message(&mut exact, m.clone()), Ok(()));
    assert_eq!(read_messages(&exact), Ok(MessageAccount { sent: vec![m.clone()] }));
    let mut short = vec![0u8; needed - 1];
    assert_eq!(append_message(&mut short, m), Err(AccountError::CapacityExceeded));
    assert_eq!(short, vec![0u8; needed - 1]);
}

#[test]
fn append_beyond_capacity_leaves_buffer_unchanged() {
    let mut buffer = vec![0u8; 60];
    assert_eq!(append_message(&mut buffer, note("alice", "one", "mon")), Ok(()));
    let before = buffer.clone();
    assert_eq!(
        append_message(&mut buffer, note("bob", &"x".repeat(40), "tue")),
        Err(AccountError::CapacityExceeded)
    );
    assert_eq!(buffer, before);
    assert_eq!(read_messages(&buffer).unwrap().sent.len(), 1);
    assert_eq!(append_message(&mut buffer, note("b", "", "")), Ok(()));
    assert_eq!(read_messages(&buffer).unwrap().sent.len(), 2);
}

#[test]
fn append_to_buffer_without_room_for_the_length_field() {
    for len in 0..4 {
        let mut buffer = vec![0u8; len];
        assert_eq!(append_message(&mut buffer, note("a", "b", "c")), Err(AccountError::Truncated));
        assert_eq!(buffer, vec![0u8; len]);
        assert_eq!(read_messages(&buffer), Err(AccountError::Truncated));
    }
}

#[test]
fn length_field_beyond_the_buffer_is_rejected() {
    let mut buffer = vec![0u8; 53];
    buffer[0] = 50;
    let before = buffer.clone();
    assert_eq!(read_messages(&buffer), Err(AccountError::Truncated));
    assert_eq!(append_message(&mut buffer, note("a", "b", "c")), Err(AccountError::Truncated));
    assert_eq!(buffer, before);
    let mut huge = vec![0xffu8; 16];
    assert_eq!(append_message(&mut huge, note("a", "b", "c")), Err(AccountError::Truncated));
    assert_eq!(huge, vec![0xffu8; 16]);
}

#[test]
fn malformed_list_is_corrupt() {
    let mut buffer = vec![0u8; 54];
    buffer[0] = 50;
    let before = buffer.clone();
    assert_eq!(read_messages(&buffer), Err(AccountError::Corrupt));
    assert_eq!(append_message(&mut buffer, note("a", "b", "c")), Err(AccountError::Corrupt));
    assert_eq!(buffer, before);

    let mut good = vec![0u8; 64];
    assert_eq!(append_message(&mut good, note("a", "b", "c")), Ok(()));
    let mut wrong_kind = good.clone();
    wrong_kind[8] = 1;
    assert_eq!(read_messages(&wrong_kind), Err(AccountError::Corrupt));
    let mut wrong_length = good.clone();
    wrong_length[0] += 1;
    assert_eq!(read_messages(&wrong_length), Err(AccountError::Corrupt));
    let mut wrong_text = good.clone();
    wrong_text[13] = 0xff;
    assert_eq!(read_messages(&wrong_text), Err(AccountError::Corrupt));
}

#[test]
fn message_of_unknown_kind_is_not_appended() {
    let mut buffer = vec![0u8; 64];
    let mut m = note("a", "b", "c");
    m.id = 7;
    assert_eq!(append_message(&mut buffer, m.clone()), Err(AccountError::InvalidInstruction));
    assert_eq!(buffer, vec![0u8; 64]);
    assert_eq!(append_message(&mut buffer, note("a", "b", "c")), Ok(()));
    let before = buffer.clone();
    assert_eq!(append_message(&mut buffer, m.clone()), Err(AccountError::InvalidInstruction));
    assert_eq!(buffer, before);
}

#[test]
fn unreadable_or_full_buffer_comes_before_the_kind() {
    let mut m = note("a", "b", "c");
    m.id = 7;
    let mut short = vec![0xffu8; 2];
    assert_eq!(append_message(&mut short, m.clone()), Err(AccountError::Truncated));
    let mut broken = vec![9u8, 0, 0, 0, 1, 2, 3, 4, 5, 6, 7, 8, 9, 10];
    assert_eq!(append_message(&mut broken, m.clone()), Err(AccountError::Corrupt));
    let mut small = vec![0u8; 20];
    assert_eq!(append_message(&mut small, m), Err(AccountError::CapacityExceeded));
    assert_eq!(small, vec![0u8; 20]);
}

#[test]
fn write_name_fills_the_rest_with_zeros() {
    let mut buffer = vec![0xeeu8; 12];
    assert_eq!(write_name(&mut buffer, "Alice"), Ok(()));
    assert_eq!(buffer, vec![0u8, 5, 0, 0, 0, b'A', b'l', b'i', b'c', b'e', 0, 0]);
    assert_eq!(read_name(&buffer), Ok(NameAccount { id: 0, name: "Alice".to_string() }));
}

#[test]
fn rename_leaves_no_trace_of_the_old_name() {
    let mut buffer = vec![0u8; 32];
    assert_eq!(write_name(&mut buffer, "Alice"), Ok(()));
    assert_eq!(write_name(&mut buffer, "Bob"), Ok(()));
    assert_eq!(read_name(&buffer), Ok(NameAccount { id: 0, name: "Bob".to_string() }));
    let mut fresh = vec![0u8; 32];
    assert_eq!(write_name(&mut fresh, "Bob"), Ok(()));
    assert_eq!(buffer, fresh);
    let mut expected = vec![0u8, 3, 0, 0, 0, b'B', b'o', b'b'];
    expected.resize(32, 0);
    assert_eq!(buffer, expected);
}

#[test]
fn name_that_fills_the_buffer_exactly() {
    let mut buffer = vec![1u8; 8];
    assert_eq!(write_name(&mut buffer, "Bob"), Ok(()));
    assert_eq!(buffer, NameAccount { id: 0, name: "Bob".to_string() }.try_to_vec().unwrap());
    assert_eq!(read_name(&buffer), NameAccount::try_from_slice(&buffer).map_err(|_| AccountError::Corrupt));
    let mut small = vec![1u8; 7];
    assert_eq!(write_name(&mut small, "Bob"), Err(AccountError::CapacityExceeded));
    assert_eq!(small, vec![1u8; 7]);
    let mut tiny = vec![3u8; 4];
    assert_eq!(write_name(&mut tiny, ""), Err(AccountError::CapacityExceeded));
    assert_eq!(tiny, vec![3u8; 4]);
    let mut five = vec![3u8; 5];
    assert_eq!(write_name(&mut five, ""), Ok(()));
    assert_eq!(five, vec![0u8; 5]);
}

#[test]
fn zero_buffer_holds_the_empty_name() {
    assert_eq!(read_name(&[0u8; 16]), Ok(NameAccount { id: 0, name: String::new() }));
    assert_eq!(read_name(&[0u8; 5]), Ok(NameAccount { id: 0, name: String::new() }));
}

#[test]
fn read_name_failures() {
    assert_eq!(read_name(&[]), Err(AccountError::Truncated));
    assert_eq!(read_name(&[0u8; 4]), Err(AccountError::Truncated));
    assert_eq!(read_name(&[0, 9, 0, 0, 0, b'a', b'b']), Err(AccountError::Truncated));
    assert_eq!(read_name(&[2, 1, 0, 0, 0, b'a', 0]), Err(AccountError::Corrupt));
    assert_eq!(read_name(&[0, 1, 0, 0, 0, 0xff, 0]), Err(AccountError::Corrupt));
    assert_eq!(read_name(&[0, 1, 0, 0, 0, b'a', 0, 1]), Err(AccountError::Corrupt));
}

#[test]
fn name_with_wide_characters() {
    let mut buffer = vec![0u8; 24];
    assert_eq!(write_name(&mut buffer, "Zoë 🙂"), Ok(()));
    assert_eq!(buffer[1], 9);
    assert_eq!(read_name(&buffer).unwrap().name, "Zoë 🙂");
}
