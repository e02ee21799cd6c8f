use account_records::error::DecodeError;
use account_records::state::{DataLength, Message, MessageAccount, NameAccount};
use borsh::{BorshDeserialize, BorshSerialize};

fn message(sender: &str, text: &str, sent_date: &str) -> Message {
    Message {
        id: 0,
        sender: sender.to_string(),
        message: text.to_string(),
        sent_date: sent_date.to_string(),
    }
}

fn as_tuple(m: &Message) -> (u8, String, String, String) {
    (m.id, m.sender.clone(), m.message.clone(), m.sent_date.clone())
}

#[test]
fn data_length_is_four_bytes_least_significant_first() {
    let bytes = DataLength { length: 0x0403_0201 }.try_to_vec();
    assert_eq!(bytes, vec![1u8, 2, 3, 4]);
    assert_eq!(DataLength { length: 0 }.try_to_vec(), vec![0u8, 0, 0, 0]);
    assert_eq!(DataLength { length: u32::MAX }.try_to_vec(), vec![255u8, 255, 255, 255]);
    assert_eq!(DataLength { length: 300 }.packed_len(), 4);
}

#[test]
fn data_length_round_trip() {
    for length in [0u32, 1, 255, 256, 65_535, 65_536, 16_777_216, 0xdead_beef, u32::MAX] {
        let field = DataLength { length };
        assert_eq!(DataLength::try_from_slice(&field.try_to_vec()), Ok(field));
    }
    assert_eq!(DataLength::try_from_slice(&[50, 0, 0, 0]), Ok(DataLength { length: 50 }));
}

#[test]
fn data_length_needs_exactly_four_bytes() {
    assert_eq!(DataLength::try_from_slice(&[]), Err(DecodeError::TruncatedBuffer));
    assert_eq!(DataLength::try_from_slice(&[1, 2, 3]), Err(DecodeError::TruncatedBuffer));
    assert_eq!(DataLength::try_from_slice(&[1, 2, 3, 4, 5]), Err(DecodeError::MalformedLength));
}

#[test]
fn name_record_layout() {
    let record = NameAccount { id: 0, name: "Alice".to_string() };
    let bytes = record.try_to_vec().unwrap();
    assert_eq!(bytes, vec![0u8, 5, 0, 0, 0, b'A', b'l', b'i', b'c', b'e']);
    assert_eq!(record.packed_len(), Some(10));
    let empty = NameAccount { id: 0, name: String::new() };
    assert_eq!(empty.try_to_vec().unwrap(), vec![0u8, 0, 0, 0, 0]);
    assert_eq!(empty.packed_len(), Some(5));
}

#[test]
fn name_record_round_trip() {
    for name in ["", "Bob", "Alice", "Zoë – 名前 🙂", "a\0b"] {
        let record = NameAccount { id: 0, name: name.to_string() };
        let bytes = record.try_to_vec().unwrap();
        assert_eq!(record.packed_len(), Some(bytes.len()));
        assert_eq!(NameAccount::try_from_slice(&bytes), Ok(record));
    }
}

#[test]
fn name_record_counts_bytes_not_characters() {
    let record = NameAccount { id: 0, name: "é🙂".to_string() };
    let bytes = record.try_to_vec().unwrap();
    assert_eq!(bytes, vec![0u8, 6, 0, 0, 0, 0xc3, 0xa9, 0xf0, 0x9f, 0x99, 0x82]);
}

#[test]
fn name_record_decode_failures() {
    assert_eq!(NameAccount::try_from_slice(&[]), Err(DecodeError::TruncatedBuffer));
    assert_eq!(NameAccount::try_from_slice(&[0, 3, 0]), Err(DecodeError::TruncatedBuffer));
    assert_eq!(
        NameAccount::try_from_slice(&[0, 3, 0, 0, 0, b'a', b'b']),
        Err(DecodeError::TruncatedBuffer)
    );
    assert_eq!(
        NameAccount::try_from_slice(&[7, 3, 0, 0, 0, b'a', b'b', b'c']),
        Err(DecodeError::UnknownKind)
    );
    assert_eq!(
        NameAccount::try_from_slice(&[0, 2, 0, 0, 0, 0xff, 0xfe]),
        Err(DecodeError::InvalidUtf8)
    );
    assert_eq!(
        NameAccount::try_from_slice(&[0, 1, 0, 0, 0, b'a', 0]),
        Err(DecodeError::MalformedLength)
    );
}

#[test]
fn record_of_unknown_kind_is_not_written() {
    let record = NameAccount { id: 1, name: "x".to_string() };
    assert!(!record.is_valid());
    assert_eq!(record.try_to_vec(), None);
    assert_eq!(record.packed_len(), None);
    let mut m = message("a", "b", "c");
    m.id = 7;
    assert!(!m.is_valid());
    assert_eq!(m.try_to_vec(), None);
    assert_eq!(m.packed_len(), None);
    let list = MessageAccount { sent: vec![message("a", "b", "c"), m] };
    assert_eq!(list.try_to_vec(), None);
    assert_eq!(list.packed_len(), None);
}

#[test]
fn message_layout() {
    let m = message("a", "bc", "");
    assert!(m.is_valid());
    let bytes = m.try_to_vec().unwrap();
    assert_eq!(bytes, vec![0u8, 1, 0, 0, 0, b'a', 2, 0, 0, 0, b'b', b'c', 0, 0, 0, 0]);
    assert_eq!(m.packed_len(), Some(16));
    assert_eq!(message("", "", "").packed_len(), Some(13));
}

#[test]
fn message_round_trip() {
    let samples = [
        message("", "", ""),
        message("alice", "hello, world", "2021-10-05T12:00:00Z"),
        message("ボブ", "line one\nline two", "yesterday"),
        message("s", &"x".repeat(70_000), "d"),
    ];
    for m in samples {
        let bytes = m.try_to_vec().unwrap();
        assert_eq!(m.packed_len(), Some(bytes.len()));
        assert_eq!(Message::try_from_slice(&bytes), Ok(m));
    }
}

#[test]
fn message_bytes_are_those_of_borsh() {
    let m = message("alice", "grüße", "2021-10-05");
    let expected = as_tuple(&m).try_to_vec().unwrap();
    assert_eq!(m.try_to_vec().unwrap(), expected);
    let back = <(u8, String, String, String)>::try_from_slice(&m.try_to_vec().unwrap()).unwrap();
    assert_eq!(back, as_tuple(&m));
    assert_eq!(Message::try_from_slice(&expected), Ok(m));
}

#[test]
fn message_decode_failures() {
    let good = message("ab", "cd", "ef").try_to_vec().unwrap();
    assert_eq!(Message::try_from_slice(&[]), Err(DecodeError::TruncatedBuffer));
    for cut in 1..good.len() {
        assert_eq!(Message::try_from_slice(&good[..cut]), Err(DecodeError::TruncatedBuffer));
    }
    let mut longer = good.clone();
    longer.push(0);
    assert_eq!(Message::try_from_slice(&longer), Err(DecodeError::MalformedLength));
    let mut other_kind = good.clone();
    other_kind[0] = 7;
    assert_eq!(Message::try_from_slice(&other_kind), Err(DecodeError::UnknownKind));
    let mut bad_text = good.clone();
    bad_text[5] = 0xff;
    assert_eq!(Message::try_from_slice(&bad_text), Err(DecodeError::InvalidUtf8));
    let mut split_char = message("é", "", "").try_to_vec().unwrap();
    split_char[1] = 1;
    assert_eq!(Message::try_from_slice(&split_char), Err(DecodeError::InvalidUtf8));
}

#[test]
fn unknown_kind_comes_before_anything_else() {
    assert_eq!(Message::try_from_slice(&[7]), Err(DecodeError::UnknownKind));
    assert_eq!(Message::try_from_slice(&[7, 0xff, 0xff]), Err(DecodeError::UnknownKind));
    assert_eq!(NameAccount::try_from_slice(&[1]), Err(DecodeError::UnknownKind));
    assert_eq!(
        NameAccount::try_from_slice(&[255, 255, 255, 255, 255, 1]),
        Err(DecodeError::UnknownKind)
    );
}

#[test]
fn declared_length_beyond_the_input_is_truncation() {
    assert_eq!(
        Message::try_from_slice(&[0, 255, 255, 255, 255, b'a']),
        Err(DecodeError::TruncatedBuffer)
    );
    assert_eq!(
        NameAccount::try_from_slice(&[0, 255, 255, 255, 255, b'a']),
        Err(DecodeError::TruncatedBuffer)
    );
}

#[test]
fn list_layout() {
    let empty = MessageAccount { sent: Vec::new() };
    assert_eq!(empty.try_to_vec().unwrap(), vec![0u8, 0, 0, 0]);
    assert_eq!(empty.packed_len(), Some(4));
    let list = MessageAccount { sent: vec![message("a", "", ""), message("", "b", "")] };
    let bytes = list.try_to_vec().unwrap();
    let expected: Vec<u8> = vec![
        2, 0, 0, 0, // two messages
        0, 1, 0, 0, 0, b'a', 0, 0, 0, 0, 0, 0, 0, 0, // the first
        0, 0, 0, 0, 0, 1, 0, 0, 0, b'b', 0, 0, 0, 0, // the second
    ];
    assert_eq!(bytes, expected);
    assert_eq!(list.packed_len(), Some(32));
}

#[test]
fn list_round_trip_keeps_order() {
    let list = MessageAccount {
        sent: vec![
            message("a", "first", "1"),
            message("b", "second", "2"),
            message("a", "third", "3"),
            message("", "", ""),
        ],
    };
    let bytes = list.try_to_vec().unwrap();
    assert_eq!(list.packed_len(), Some(bytes.len()));
    let back = MessageAccount::try_from_slice(&bytes).unwrap();
    assert_eq!(back, list);
    assert_eq!(back.sent[1].message, "second");
    let empty = MessageAccount { sent: Vec::new() };
    assert_eq!(MessageAccount::try_from_slice(&empty.try_to_vec().unwrap()), Ok(empty));
}

#[test]
fn list_bytes_are_those_of_borsh() {
    let list = MessageAccount {
        sent: vec![message("alice", "hi", "mon"), message("bob", "hello – ✓", "tue")],
    };
    let tuples: Vec<(u8, String, String, String)> = list.sent.iter().map(as_tuple).collect();
    let expected = tuples.try_to_vec().unwrap();
    assert_eq!(list.try_to_vec().unwrap(), expected);
    let back = Vec::<(u8, String, String, String)>::try_from_slice(&expected).unwrap();
    assert_eq!(back, tuples);
    assert_eq!(MessageAccount::try_from_slice(&expected), Ok(list));
}

#[test]
fn list_decode_failures() {
    let list = MessageAccount { sent: vec![message("a", "b", "c"), message("d", "e", "f")] };
    let good = list.try_to_vec().unwrap();
    assert_eq!(MessageAccount::try_from_slice(&[]), Err(DecodeError::TruncatedBuffer));
    assert_eq!(MessageAccount::try_from_slice(&[1, 0, 0]), Err(DecodeError::TruncatedBuffer));
    for cut in 0..good.len() {
        assert_eq!(
            MessageAccount::try_from_slice(&good[..cut]),
            Err(DecodeError::TruncatedBuffer)
        );
    }
    let mut longer = good.clone();
    longer.push(9);
    assert_eq!(MessageAccount::try_from_slice(&longer), Err(DecodeError::MalformedLength));
    let mut fewer = good.clone();
    fewer[0] = 1;
    assert_eq!(MessageAccount::try_from_slice(&fewer), Err(DecodeError::MalformedLength));
    let mut more = good.clone();
    more[0] = 3;
    assert_eq!(MessageAccount::try_from_slice(&more), Err(DecodeError::TruncatedBuffer));
    let mut other_kind = good.clone();
    other_kind[4 + 16] = 2;
    assert_eq!(MessageAccount::try_from_slice(&other_kind), Err(DecodeError::UnknownKind));
    let mut bad_text = good.clone();
    bad_text[4 + 5] = 0x80;
    assert_eq!(MessageAccount::try_from_slice(&bad_text), Err(DecodeError::InvalidUtf8));
    assert_eq!(
        MessageAccount::try_from_slice(&[255, 255, 255, 255]),
        Err(DecodeError::TruncatedBuffer)
    );
}
