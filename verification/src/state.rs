//! The records that account buffers hold, and their encodings.
//!
//! A name record is a kind byte and a text. A message is a kind byte and
//! three texts. A list of messages is the number of its items, as four bytes,
//! and the items in order. The kind byte of every record is zero; a record
//! with another kind is neither written nor read.

use vstd::prelude::*;
use vstd::utf8::*;
use crate::error::DecodeError;
use crate::wire::{
    le_bytes, le_value, lemma_image_of_text_at_front, lemma_le_bytes_len,
    lemma_le_bytes_of_value, lemma_le_value_of_bytes, lemma_text_at_front_of_image, put_text,
    put_u32, read_text, read_u32, text_at_front, text_fits, text_image, utf8_len, whole,
};

verus! {

/// One message of an account's list.
#[derive(Debug, Clone, PartialEq, Eq)]
pub struct Message {
    /// The kind of the record; zero is the only kind there is.
    pub id: u8,
    /// Who sent the message.
    pub sender: String,
    /// What the message says.
    pub message: String,
    /// When it was sent, as the sender wrote it.
    pub sent_date: String,
}

/// What a `Message` holds.
pub struct MessageView {
    pub id: u8,
    pub sender: Seq<char>,
    pub message: Seq<char>,
    pub sent_date: Seq<char>,
}

impl View for Message {
    type V = MessageView;

    open spec fn view(&self) -> MessageView {
        MessageView {
            id: self.id,
            sender: self.sender@,
            message: self.message@,
            sent_date: self.sent_date@,
        }
    }
}

impl MessageView {
    /// Whether the message can be written: its kind is zero and the length of
    /// each text fits its length field.
    pub open spec fn valid(self) -> bool {
        &&& self.id == 0
        &&& text_fits(self.sender)
        &&& text_fits(self.message)
        &&& text_fits(self.sent_date)
    }

    /// The encoding of the message: the kind byte, then the three texts.
    pub open spec fn image(self) -> Seq<u8> {
        seq![self.id] + text_image(self.sender) + text_image(self.message) + text_image(
            self.sent_date,
        )
    }

    /// The number of bytes of the encoding.
    pub open spec fn packed_len(self) -> nat {
        13 + encode_utf8(self.sender).len() + encode_utf8(self.message).len() + encode_utf8(
            self.sent_date,
        ).len()
    }

    /// The message that opens `bytes` and the number of bytes it takes, or
    /// the reason why no message opens them. The kind is looked at first.
    pub open spec fn at_front(bytes: Seq<u8>) -> Result<(MessageView, int), DecodeError> {
        if bytes.len() < 1 {
            Err(DecodeError::TruncatedBuffer)
        } else if bytes[0] != 0 {
            Err(DecodeError::UnknownKind)
        } else {
            match text_at_front(bytes.skip(1)) {
                Err(e) => Err(e),
                Ok((sender, a)) => match text_at_front(bytes.skip(1 + a)) {
                    Err(e) => Err(e),
                    Ok((message, b)) => match text_at_front(bytes.skip(1 + a + b)) {
                        Err(e) => Err(e),
                        Ok((sent_date, c)) => Ok(
                            (MessageView { id: 0, sender, message, sent_date }, 1 + a + b + c),
                        ),
                    },
                },
            }
        }
    }

    /// The message that `bytes` encode, or the reason why they encode none.
    pub open spec fn decoded(bytes: Seq<u8>) -> Result<MessageView, DecodeError> {
        whole(Self::at_front(bytes), bytes.len())
    }

    /// The encoding has as many bytes as `packed_len` says.
    pub proof fn lemma_image_len(self)
        ensures
            self.image().len() == self.packed_len(),
    {
        lemma_le_bytes_len(encode_utf8(self.sender).len() as u32);
        lemma_le_bytes_len(encode_utf8(self.message).len() as u32);
        lemma_le_bytes_len(encode_utf8(self.sent_date).len() as u32);
    }

    /// A valid message is read back from its encoding, whatever follows it.
    pub proof fn lemma_at_front_of_image(self, rest: Seq<u8>)
        requires
            self.valid(),
        ensures
            Self::at_front(self.image() + rest) == Ok::<(MessageView, int), DecodeError>(
                (self, self.image().len() as int),
            ),
    {
        let bytes = self.image() + rest;
        let s = text_image(self.sender);
        let m = text_image(self.message);
        let d = text_image(self.sent_date);
        lemma_text_at_front_of_image(self.sender, m + d + rest);
        lemma_text_at_front_of_image(self.message, d + rest);
        lemma_text_at_front_of_image(self.sent_date, rest);
        assert(bytes.skip(1) =~= s + (m + d + rest));
        assert(bytes.skip(1 + s.len() as int) =~= m + (d + rest));
        assert(bytes.skip(1 + s.len() as int + m.len() as int) =~= d + rest);
    }

    /// A message read from the front of bytes is valid, and the bytes it took
    /// are its encoding.
    pub proof fn lemma_image_of_at_front(bytes: Seq<u8>)
        requires
            Self::at_front(bytes) is Ok,
        ensures
            ({
                let (m, used) = Self::at_front(bytes)->Ok_0;
                &&& m.valid()
                &&& 13 <= used <= bytes.len()
                &&& used == m.image().len()
                &&& bytes.subrange(0, used) == m.image()
            }),
    {
        let (m, used) = Self::at_front(bytes)->Ok_0;
        let (sender, a) = text_at_front(bytes.skip(1))->Ok_0;
        lemma_image_of_text_at_front(bytes.skip(1));
        let (message, b) = text_at_front(bytes.skip(1 + a))->Ok_0;
        lemma_image_of_text_at_front(bytes.skip(1 + a));
        let (sent_date, c) = text_at_front(bytes.skip(1 + a + b))->Ok_0;
        lemma_image_of_text_at_front(bytes.skip(1 + a + b));
        assert(bytes.subrange(0, used) =~= seq![0u8] + bytes.skip(1).subrange(0, a) + bytes.skip(
            1 + a,
        ).subrange(0, b) + bytes.skip(1 + a + b).subrange(0, c));
    }
}

impl Message {
    /// Whether the message can be written.
    pub fn is_valid(&self) -> (r: bool)
        ensures
            r == self@.valid(),
    {
        self.id == 0 && utf8_len(self.sender.as_str()) <= u32::MAX as usize && utf8_len(
            self.message.as_str(),
        ) <= u32::MAX as usize && utf8_len(self.sent_date.as_str()) <= u32::MAX as usize
    }

    /// The number of bytes that the encoding takes, computed from the lengths
    /// of the fields alone. `None` for a message that cannot be written, or
    /// whose size is no `usize`.
    pub fn packed_len(&self) -> (r: Option<usize>)
        ensures
            match r {
                Some(n) => self@.valid() && n == self@.image().len(),
                None => !self@.valid() || self@.image().len() > usize::MAX,
            },
    {
        proof {
            self@.lemma_image_len();
        }
        if !self.is_valid() {
            return None;
        }
        let a = match 13usize.checked_add(utf8_len(self.sender.as_str())) {
            Some(a) => a,
            None => { return None; },
        };
        let b = match a.checked_add(utf8_len(self.message.as_str())) {
            Some(b) => b,
            None => { return None; },
        };
        b.checked_add(utf8_len(self.sent_date.as_str()))
    }

    /// Appends the encoding of the message to `out`.
    pub(crate) fn write_to(&self, out: &mut Vec<u8>)
        requires
            self@.valid(),
        ensures
            final(out)@ == old(out)@ + self@.image(),
    {
        out.push(self.id);
        put_text(out, self.sender.as_str());
        put_text(out, self.message.as_str());
        put_text(out, self.sent_date.as_str());
        assert(out@ =~= old(out)@ + self@.image());
    }

    /// The encoding of the message, or `None` for a message that cannot be
    /// written.
    pub fn try_to_vec(&self) -> (r: Option<Vec<u8>>)
        ensures
            match r {
                Some(bytes) => self@.valid() && bytes@ == self@.image(),
                None => !self@.valid(),
            },
    {
        if !self.is_valid() {
            return None;
        }
        let mut out: Vec<u8> = Vec::new();
        self.write_to(&mut out);
        assert(out@ =~= self@.image());
        Some(out)
    }

    /// Reads the message that starts at `start`, and says where it ends.
    pub(crate) fn read_from(bytes: &[u8], start: usize) -> (r: Result<(Message, usize), DecodeError>)
        requires
            start <= bytes@.len(),
        ensures
            match r {
                Ok((m, next)) => {
                    &&& start <= next <= bytes@.len()
                    &&& MessageView::at_front(bytes@.skip(start as int)) == Ok::<
                        (MessageView, int),
                        DecodeError,
                    >((m@, next - start))
                },
                Err(e) => MessageView::at_front(bytes@.skip(start as int)) == Err::<
                    (MessageView, int),
                    DecodeError,
                >(e),
            },
    {
        let ghost tail = bytes@.skip(start as int);
        if bytes.len() - start < 1 {
            return Err(DecodeError::TruncatedBuffer);
        }
        let id = bytes[start];
        if id != 0 {
            return Err(DecodeError::UnknownKind);
        }
        let at = start + 1;
        assert(bytes@.skip(at as int) =~= tail.skip(1));
        let (sender, at) = match read_text(bytes, at) {
            Ok(found) => found,
            Err(e) => { return Err(e); },
        };
        assert(bytes@.skip(at as int) =~= tail.skip(at - start));
        let (message, at) = match read_text(bytes, at) {
            Ok(found) => found,
            Err(e) => { return Err(e); },
        };
        assert(bytes@.skip(at as int) =~= tail.skip(at - start));
        let (sent_date, at) = match read_text(bytes, at) {
            Ok(found) => found,
            Err(e) => { return Err(e); },
        };
        Ok((Message { id, sender, message, sent_date }, at))
    }

    /// The message that `v` encodes.
    ///
    /// Succeeds exactly on the encodings of valid messages, and returns the
    /// message whose encoding `v` is. Fails with `UnknownKind` if the first
    /// byte is not zero, whatever follows; with `TruncatedBuffer` if `v` ends
    /// inside a field; with `InvalidUtf8` if a text is not UTF-8; and with
    /// `MalformedLength` if bytes follow the last field.
    pub fn try_from_slice(v: &[u8]) -> (r: Result<Message, DecodeError>)
        ensures
            match r {
                Ok(m) => MessageView::decoded(v@) == Ok::<MessageView, DecodeError>(m@)
                    && m@.valid() && v@ == m@.image(),
                Err(e) => MessageView::decoded(v@) == Err::<MessageView, DecodeError>(e),
            },
            v@.len() > 0 && v@[0] != 0 ==> r == Err::<Message, DecodeError>(
                DecodeError::UnknownKind,
            ),
    {
        assert(v@.skip(0) =~= v@);
        match Message::read_from(v, 0) {
            Err(e) => Err(e),
            Ok((m, next)) => {
                if next == v.len() {
                    proof {
                        MessageView::lemma_image_of_at_front(v@);
                        assert(v@.subrange(0, next as int) =~= v@);
                    }
                    Ok(m)
                } else {
                    Err(DecodeError::MalformedLength)
                }
            },
        }
    }
}

/// The name that an account holds.
#[derive(Debug, Clone, PartialEq, Eq)]
pub struct NameAccount {
    /// The kind of the record; zero is the only kind there is.
    pub id: u8,
    /// The name.
    pub name: String,
}

/// What a `NameAccount` holds.
pub struct NameView {
    pub id: u8,
    pub name: Seq<char>,
}

impl View for NameAccount {
    type V = NameView;

    open spec fn view(&self) -> NameView {
        NameView { id: self.id, name: self.name@ }
    }
}

impl NameView {
    /// Whether the record can be written: its kind is zero and the length of
    /// the name fits its length field.
    pub open spec fn valid(self) -> bool {
        self.id == 0 && text_fits(self.name)
    }

    /// The encoding of the record: the kind byte, then the name.
    pub open spec fn image(self) -> Seq<u8> {
        seq![self.id] + text_image(self.name)
    }

    /// The number of bytes of the encoding.
    pub open spec fn packed_len(self) -> nat {
        5 + encode_utf8(self.name).len()
    }

    /// The record that opens `bytes` and the number of bytes it takes, or the
    /// reason why no record opens them. The kind is looked at first.
    pub open spec fn at_front(bytes: Seq<u8>) -> Result<(NameView, int), DecodeError> {
        if bytes.len() < 1 {
            Err(DecodeError::TruncatedBuffer)
        } else if bytes[0] != 0 {
            Err(DecodeError::UnknownKind)
        } else {
            match text_at_front(bytes.skip(1)) {
                Err(e) => Err(e),
                Ok((name, a)) => Ok((NameView { id: 0, name }, 1 + a)),
            }
        }
    }

    /// The record that `bytes` encode, or the reason why they encode none.
    pub open spec fn decoded(bytes: Seq<u8>) -> Result<NameView, DecodeError> {
        whole(Self::at_front(bytes), bytes.len())
    }

    /// The encoding has as many bytes as `packed_len` says.
    pub proof fn lemma_image_len(self)
        ensures
            self.image().len() == self.packed_len(),
    {
        lemma_le_bytes_len(encode_utf8(self.name).len() as u32);
    }

    /// A valid record is read back from its encoding, whatever follows it.
    pub proof fn lemma_at_front_of_image(self, rest: Seq<u8>)
        requires
            self.valid(),
        ensures
            Self::at_front(self.image() + rest) == Ok::<(NameView, int), DecodeError>(
                (self, self.image().len() as int),
            ),
    {
        let bytes = self.image() + rest;
        lemma_text_at_front_of_image(self.name, rest);
        assert(bytes.skip(1) =~= text_image(self.name) + rest);
    }

    /// A record read from the front of bytes is valid, and the bytes it took
    /// are its encoding.
    pub proof fn lemma_image_of_at_front(bytes: Seq<u8>)
        requires
            Self::at_front(bytes) is Ok,
        ensures
            ({
                let (n, used) = Self::at_front(bytes)->Ok_0;
                &&& n.valid()
                &&& 5 <= used <= bytes.len()
                &&& used == n.image().len()
                &&& bytes.subrange(0, used) == n.image()
            }),
    {
        let (n, used) = Self::at_front(bytes)->Ok_0;
        lemma_image_of_text_at_front(bytes.skip(1));
        assert(bytes.subrange(0, used) =~= seq![0u8] + bytes.skip(1).subrange(0, used - 1));
    }
}

impl NameAccount {
    /// Whether the record can be written.
    pub fn is_valid(&self) -> (r: bool)
        ensures
            r == self@.valid(),
    {
        self.id == 0 && utf8_len(self.name.as_str()) <= u32::MAX as usize
    }

    /// The number of bytes that the encoding takes, computed from the length
    /// of the name alone. `None` for a record that cannot be written, or
    /// whose size is no `usize`.
    pub fn packed_len(&self) -> (r: Option<usize>)
        ensures
            match r {
                Some(n) => self@.valid() && n == self@.image().len(),
                None => !self@.valid() || self@.image().len() > usize::MAX,
            },
    {
        proof {
            self@.lemma_image_len();
        }
        if !self.is_valid() {
            return None;
        }
        5usize.checked_add(utf8_len(self.name.as_str()))
    }

    /// Appends the encoding of the record to `out`.
    pub(crate) fn write_to(&self, out: &mut Vec<u8>)
        requires
            self@.valid(),
        ensures
            final(out)@ == old(out)@ + self@.image(),
    {
        out.push(self.id);
        put_text(out, self.name.as_str());
        assert(out@ =~= old(out)@ + self@.image());
    }

    /// The encoding of the record, or `None` for a record that cannot be
    /// written.
    pub fn try_to_vec(&self) -> (r: Option<Vec<u8>>)
        ensures
            match r {
                Some(bytes) => self@.valid() && bytes@ == self@.image(),
                None => !self@.valid(),
            },
    {
        if !self.is_valid() {
            return None;
        }
        let mut out: Vec<u8> = Vec::new();
        self.write_to(&mut out);
        assert(out@ =~= self@.image());
        Some(out)
    }

    /// Reads the record that starts at `start`, and says where it ends.
    pub(crate) fn read_from(bytes: &[u8], start: usize) -> (r: Result<
        (NameAccount, usize),
        DecodeError,
    >)
        requires
            start <= bytes@.len(),
        ensures
            match r {
                Ok((n, next)) => {
                    &&& start <= next <= bytes@.len()
                    &&& NameView::at_front(bytes@.skip(start as int)) == Ok::<
                        (NameView, int),
                        DecodeError,
                    >((n@, next - start))
                },
                Err(e) => NameView::at_front(bytes@.skip(start as int)) == Err::<
                    (NameView, int),
                    DecodeError,
                >(e),
            },
    {
        let ghost tail = bytes@.skip(start as int);
        if bytes.len() - start < 1 {
            return Err(DecodeError::TruncatedBuffer);
        }
        let id = bytes[start];
        if id != 0 {
            return Err(DecodeError::UnknownKind);
        }
        let at = start + 1;
        assert(bytes@.skip(at as int) =~= tail.skip(1));
        match read_text(bytes, at) {
            Ok((name, next)) => Ok((NameAccount { id, name }, next)),
            Err(e) => Err(e),
        }
    }

    /// The record that `v` encodes.
    ///
    /// Succeeds exactly on the encodings of valid records, and returns the
    /// record whose encoding `v` is. Fails with `UnknownKind` if the first
    /// byte is not zero, whatever follows; with `TruncatedBuffer` if `v` ends
    /// inside a field; with `InvalidUtf8` if the name is not UTF-8; and with
    /// `MalformedLength` if bytes follow the name.
    pub fn try_from_slice(v: &[u8]) -> (r: Result<NameAccount, DecodeError>)
        ensures
            match r {
                Ok(n) => NameView::decoded(v@) == Ok::<NameView, DecodeError>(n@) && n@.valid()
                    && v@ == n@.image(),
                Err(e) => NameView::decoded(v@) == Err::<NameView, DecodeError>(e),
            },
            v@.len() > 0 && v@[0] != 0 ==> r == Err::<NameAccount, DecodeError>(
                DecodeError::UnknownKind,
            ),
    {
        assert(v@.skip(0) =~= v@);
        match NameAccount::read_from(v, 0) {
            Err(e) => Err(e),
            Ok((n, next)) => {
                if next == v.len() {
                    proof {
                        NameView::lemma_image_of_at_front(v@);
                        assert(v@.subrange(0, next as int) =~= v@);
                    }
                    Ok(n)
                } else {
                    Err(DecodeError::MalformedLength)
                }
            },
        }
    }
}

/// The length field that opens the buffer of a message account: the number
/// of bytes that the encoded list takes behind it. Zero says that no list has
/// been written yet.
#[derive(Debug, Clone, Copy, PartialEq, Eq)]
pub struct DataLength {
    pub length: u32,
}

impl DataLength {
    /// The encoding of the length: its four bytes, least significant first.
    pub open spec fn image(self) -> Seq<u8> {
        le_bytes(self.length)
    }

    /// The length that `bytes` encode, or the reason why they encode none.
    pub open spec fn decoded(bytes: Seq<u8>) -> Result<DataLength, DecodeError> {
        if bytes.len() < 4 {
            Err(DecodeError::TruncatedBuffer)
        } else if bytes.len() > 4 {
            Err(DecodeError::MalformedLength)
        } else {
            Ok(DataLength { length: le_value(bytes) })
        }
    }

    /// The number of bytes of the encoding: four.
    pub fn packed_len(&self) -> (r: usize)
        ensures
            r == 4,
            r == self.image().len(),
    {
        proof {
            lemma_le_bytes_len(self.length);
        }
        4
    }

    /// The encoding of the length.
    pub fn try_to_vec(&self) -> (r: Vec<u8>)
        ensures
            r@ == self.image(),
    {
        let mut out: Vec<u8> = Vec::new();
        put_u32(&mut out, self.length);
        assert(out@ =~= self.image());
        out
    }

    /// The length that `v` encodes: `v` must have exactly four bytes.
    pub fn try_from_slice(v: &[u8]) -> (r: Result<DataLength, DecodeError>)
        ensures
            r == Self::decoded(v@),
            r matches Ok(d) ==> d.image() == v@,
    {
        if v.len() < 4 {
            Err(DecodeError::TruncatedBuffer)
        } else if v.len() > 4 {
            Err(DecodeError::MalformedLength)
        } else {
            assert(v@.skip(0) =~= v@);
            proof {
                lemma_le_bytes_of_value(v@);
                assert(v@.subrange(0, 4) =~= v@);
            }
            Ok(DataLength { length: read_u32(v, 0) })
        }
    }
}

/// The messages of an account, oldest first.
#[derive(Debug, Clone, PartialEq, Eq)]
pub struct MessageAccount {
    pub sent: Vec<Message>,
}

impl View for MessageAccount {
    type V = Seq<MessageView>;

    open spec fn view(&self) -> Seq<MessageView> {
        self.sent@.map_values(|m: Message| m@)
    }
}

/// Whether every message of a list can be written.
pub open spec fn items_valid(items: Seq<MessageView>) -> bool {
    forall|i: int| 0 <= i < items.len() ==> (#[trigger] items[i]).valid()
}

/// The encodings of the messages of a list, one after the other.
pub open spec fn items_image(items: Seq<MessageView>) -> Seq<u8>
    decreases items.len(),
{
    if items.len() == 0 {
        Seq::empty()
    } else {
        items[0].image() + items_image(items.skip(1))
    }
}

/// The number of bytes that the messages of a list take.
pub open spec fn items_packed_len(items: Seq<MessageView>) -> nat
    decreases items.len(),
{
    if items.len() == 0 {
        0
    } else {
        items[0].packed_len() + items_packed_len(items.skip(1))
    }
}

/// The `count` messages that open `bytes` and the number of bytes they take,
/// or the reason why the first message that cannot be read cannot.
pub open spec fn items_at_front(bytes: Seq<u8>, count: nat) -> Result<
    (Seq<MessageView>, int),
    DecodeError,
>
    decreases count,
{
    if count == 0 {
        Ok((Seq::empty(), 0))
    } else {
        match MessageView::at_front(bytes) {
            Err(e) => Err(e),
            Ok((first, used)) => extended(seq![first], used, items_at_front(bytes.skip(used), (count - 1) as nat)),
        }
    }
}

/// What is read in all when `done` has been read from `used` bytes and
/// `more` is read behind it.
pub open spec fn extended(
    done: Seq<MessageView>,
    used: int,
    more: Result<(Seq<MessageView>, int), DecodeError>,
) -> Result<(Seq<MessageView>, int), DecodeError> {
    match more {
        Ok((rest, further)) => Ok((done + rest, used + further)),
        Err(e) => Err(e),
    }
}

/// Whether a list can be written: the number of its messages fits the count
/// field, and every message can be written.
pub open spec fn list_valid(items: Seq<MessageView>) -> bool {
    items.len() <= u32::MAX && items_valid(items)
}

/// The encoding of a list: the number of its messages, then the messages.
pub open spec fn list_image(items: Seq<MessageView>) -> Seq<u8> {
    le_bytes(items.len() as u32) + items_image(items)
}

/// The number of bytes of the encoding of a list.
pub open spec fn list_packed_len(items: Seq<MessageView>) -> nat {
    4 + items_packed_len(items)
}

/// The list that opens `bytes` and the number of bytes it takes, or the
/// reason why no list opens them.
pub open spec fn list_at_front(bytes: Seq<u8>) -> Result<(Seq<MessageView>, int), DecodeError> {
    if bytes.len() < 4 {
        Err(DecodeError::TruncatedBuffer)
    } else {
        extended(Seq::empty(), 4, items_at_front(bytes.skip(4), le_value(bytes) as nat))
    }
}

/// The list that `bytes` encode, or the reason why they encode none.
pub open spec fn list_decoded(bytes: Seq<u8>) -> Result<Seq<MessageView>, DecodeError> {
    whole(list_at_front(bytes), bytes.len())
}

/// The encodings of two runs of messages, joined, are the encoding of the
/// joined runs; so are their sizes.
pub proof fn lemma_items_image_concat(a: Seq<MessageView>, b: Seq<MessageView>)
    ensures
        items_image(a + b) == items_image(a) + items_image(b),
        items_packed_len(a + b) == items_packed_len(a) + items_packed_len(b),
    decreases a.len(),
{
    if a.len() == 0 {
        assert(a + b =~= b);
        assert(items_image(a) + items_image(b) =~= items_image(b));
    } else {
        assert((a + b).skip(1) =~= a.skip(1) + b);
        lemma_items_image_concat(a.skip(1), b);
        assert(items_image(a + b) =~= items_image(a) + items_image(b));
    }
}

/// The encoding of a run with one more message is the encoding of the run
/// followed by that of the message.
pub proof fn lemma_items_image_push(items: Seq<MessageView>, last: MessageView)
    ensures
        items_image(items.push(last)) == items_image(items) + last.image(),
        items_packed_len(items.push(last)) == items_packed_len(items) + last.packed_len(),
{
    let one = seq![last];
    lemma_items_image_concat(items, one);
    assert(items.push(last) =~= items + one);
    assert(one[0] == last);
    assert(one.skip(1) =~= Seq::<MessageView>::empty());
    assert(items_image(one.skip(1)) =~= Seq::<u8>::empty());
    assert(items_packed_len(one.skip(1)) == 0);
    assert(items_image(one) =~= last.image());
    assert(items_packed_len(one) == last.packed_len());
}

/// The encoding of a run of messages has as many bytes as
/// `items_packed_len` says, at least thirteen for each message.
pub proof fn lemma_items_image_len(items: Seq<MessageView>)
    ensures
        items_image(items).len() == items_packed_len(items),
        items_packed_len(items) >= 13 * items.len(),
    decreases items.len(),
{
    if items.len() > 0 {
        items[0].lemma_image_len();
        lemma_items_image_len(items.skip(1));
    }
}

/// Valid messages are read back from their encodings, whatever follows.
pub proof fn lemma_items_at_front_of_image(items: Seq<MessageView>, rest: Seq<u8>)
    requires
        items_valid(items),
    ensures
        items_at_front(items_image(items) + rest, items.len()) == Ok::<
            (Seq<MessageView>, int),
            DecodeError,
        >((items, items_image(items).len() as int)),
    decreases items.len(),
{
    if items.len() == 0 {
        assert(items =~= Seq::empty());
    } else {
        let first = items[0];
        let tail = items.skip(1);
        let bytes = items_image(items) + rest;
        assert(first.valid());
        assert(items_valid(tail)) by {
            assert forall|i: int| 0 <= i < tail.len() implies (#[trigger] tail[i]).valid() by {
                assert(tail[i] == items[i + 1]);
            }
        }
        first.lemma_at_front_of_image(items_image(tail) + rest);
        assert(bytes =~= first.image() + (items_image(tail) + rest));
        assert(bytes.skip(first.image().len() as int) =~= items_image(tail) + rest);
        lemma_items_at_front_of_image(tail, rest);
        assert(seq![first] + tail =~= items);
    }
}

/// Messages read from the front of bytes are valid, and the bytes they took
/// are their encodings, one after the other.
pub proof fn lemma_image_of_items_at_front(bytes: Seq<u8>, count: nat)
    requires
        items_at_front(bytes, count) is Ok,
    ensures
        ({
            let (items, used) = items_at_front(bytes, count)->Ok_0;
            &&& items.len() == count
            &&& items_valid(items)
            &&& 0 <= used <= bytes.len()
            &&& used == items_image(items).len()
            &&& bytes.subrange(0, used) == items_image(items)
        }),
    decreases count,
{
    if count == 0 {
        assert(bytes.subrange(0, 0) =~= Seq::<u8>::empty());
    } else {
        let (items, used) = items_at_front(bytes, count)->Ok_0;
        let (first, a) = MessageView::at_front(bytes)->Ok_0;
        MessageView::lemma_image_of_at_front(bytes);
        let (tail, b) = items_at_front(bytes.skip(a), (count - 1) as nat)->Ok_0;
        lemma_image_of_items_at_front(bytes.skip(a), (count - 1) as nat);
        assert(items == seq![first] + tail);
        assert(items.skip(1) =~= tail);
        assert(bytes.subrange(0, used) =~= bytes.subrange(0, a) + bytes.skip(a).subrange(0, b));
    }
}

/// A valid list is read back from its encoding, whatever follows it.
pub proof fn lemma_list_at_front_of_image(items: Seq<MessageView>, rest: Seq<u8>)
    requires
        list_valid(items),
    ensures
        list_at_front(list_image(items) + rest) == Ok::<(Seq<MessageView>, int), DecodeError>(
            (items, list_image(items).len() as int),
        ),
        list_image(items).len() == list_packed_len(items),
{
    let bytes = list_image(items) + rest;
    lemma_le_value_of_bytes(items.len() as u32, items_image(items) + rest);
    assert(bytes =~= le_bytes(items.len() as u32) + (items_image(items) + rest));
    assert(bytes.skip(4) =~= items_image(items) + rest);
    lemma_items_at_front_of_image(items, rest);
    lemma_items_image_len(items);
    assert(Seq::<MessageView>::empty() + items =~= items);
}

/// A list read from the front of bytes is valid, and the bytes it took are
/// its encoding.
pub proof fn lemma_image_of_list_at_front(bytes: Seq<u8>)
    requires
        list_at_front(bytes) is Ok,
    ensures
        ({
            let (items, used) = list_at_front(bytes)->Ok_0;
            &&& list_valid(items)
            &&& 4 <= used <= bytes.len()
            &&& used == list_image(items).len()
            &&& used == list_packed_len(items)
            &&& bytes.subrange(0, used) == list_image(items)
        }),
{
    let (items, used) = list_at_front(bytes)->Ok_0;
    let count = le_value(bytes) as nat;
    lemma_image_of_items_at_front(bytes.skip(4), count);
    let (read, further) = items_at_front(bytes.skip(4), count)->Ok_0;
    assert(Seq::<MessageView>::empty() + read =~= read);
    lemma_le_bytes_of_value(bytes);
    lemma_items_image_len(items);
    assert(bytes.subrange(0, used) =~= bytes.subrange(0, 4) + bytes.skip(4).subrange(0, further));
}

impl MessageAccount {
    /// The number of bytes that the encoding takes, computed from the lengths
    /// of the fields alone. `None` for a list that cannot be written, or
    /// whose size is no `usize`.
    pub fn packed_len(&self) -> (r: Option<usize>)
        ensures
            match r {
                Some(n) => list_valid(self@) && n == list_image(self@).len(),
                None => !list_valid(self@) || list_image(self@).len() > usize::MAX,
            },
    {
        let count = self.sent.len();
        proof {
            lemma_items_image_len(self@);
            lemma_le_bytes_len(count as u32);
        }
        if count > u32::MAX as usize {
            return None;
        }
        let mut total: usize = 4;
        let mut i: usize = 0;
        while i < count
            invariant
                count == self.sent.len(),
                i <= count,
                total == 4 + items_packed_len(self@.take(i as int)),
                items_valid(self@.take(i as int)),
                list_image(self@).len() == 4 + items_packed_len(self@),
            decreases count - i,
        {
            let ghost done = self@.take(i as int);
            let ghost item = self@[i as int];
            proof {
                item.lemma_image_len();
                lemma_items_image_push(done, item);
                assert(self@.take(i + 1) =~= done.push(item));
                lemma_items_image_concat(self@.take(i + 1), self@.skip(i + 1));
                assert(self@.take(i + 1) + self@.skip(i + 1) =~= self@);
            }
            let size = match self.sent[i].packed_len() {
                Some(size) => size,
                None => {
                    return None;
                },
            };
            total = match total.checked_add(size) {
                Some(sum) => sum,
                None => {
                    return None;
                },
            };
            proof {
                assert forall|k: int| 0 <= k < i + 1 implies (#[trigger] self@.take(
                    i + 1,
                )[k]).valid() by {
                    if k < i {
                        assert(self@.take(i + 1)[k] == done[k]);
                    }
                }
            }
            i += 1;
        }
        assert(self@.take(count as int) =~= self@);
        Some(total)
    }

    /// The encoding of the list, or `None` for a list that cannot be written.
    pub fn try_to_vec(&self) -> (r: Option<Vec<u8>>)
        ensures
            match r {
                Some(bytes) => list_valid(self@) && bytes@ == list_image(self@),
                None => !list_valid(self@),
            },
    {
        let count = self.sent.len();
        if count > u32::MAX as usize {
            return None;
        }
        let mut out: Vec<u8> = Vec::new();
        put_u32(&mut out, count as u32);
        let mut i: usize = 0;
        while i < count
            invariant
                count == self.sent.len(),
                count <= u32::MAX,
                i <= count,
                out@ == le_bytes(count as u32) + items_image(self@.take(i as int)),
                items_valid(self@.take(i as int)),
            decreases count - i,
        {
            let ghost done = self@.take(i as int);
            let ghost item = self@[i as int];
            if !self.sent[i].is_valid() {
                return None;
            }
            self.sent[i].write_to(&mut out);
            proof {
                lemma_items_image_push(done, item);
                assert(self@.take(i + 1) =~= done.push(item));
                assert(out@ =~= le_bytes(count as u32) + items_image(self@.take(i + 1)));
            }
            i += 1;
        }
        assert(self@.take(count as int) =~= self@);
        Some(out)
    }

    /// The list that `v` encodes.
    ///
    /// Succeeds exactly on the encodings of valid lists, and returns the list
    /// whose encoding `v` is, in the order of the encoding. Fails with
    /// `TruncatedBuffer` if `v` ends inside the count or inside a message,
    /// with the failure of the first message that cannot be read, and with
    /// `MalformedLength` if bytes follow the last message.
    pub fn try_from_slice(v: &[u8]) -> (r: Result<MessageAccount, DecodeError>)
        ensures
            match r {
                Ok(list) => list_decoded(v@) == Ok::<Seq<MessageView>, DecodeError>(list@)
                    && list_valid(list@) && v@ == list_image(list@),
                Err(e) => list_decoded(v@) == Err::<Seq<MessageView>, DecodeError>(e),
            },
    {
        if v.len() < 4 {
            return Err(DecodeError::TruncatedBuffer);
        }
        assert(v@.skip(0) =~= v@);
        let count = read_u32(v, 0);
        let mut sent: Vec<Message> = Vec::new();
        let mut at: usize = 4;
        let mut i: u32 = 0;
        let ghost body = v@.skip(4);
        assert(Seq::<MessageView>::empty() + sent@.map_values(|m: Message| m@) =~= sent@.map_values(
            |m: Message| m@,
        ));
        assert(body.skip(0) =~= body);
        while i < count
            invariant
                v@.len() >= 4,
                body == v@.skip(4),
                count == le_value(v@),
                i <= count,
                4 <= at <= v@.len(),
                sent@.len() == i,
                items_at_front(body, count as nat) == extended(
                    sent@.map_values(|m: Message| m@),
                    at - 4,
                    items_at_front(body.skip(at - 4), (count - i) as nat),
                ),
            decreases count - i,
        {
            let ghost done = sent@.map_values(|m: Message| m@);
            assert(v@.skip(at as int) =~= body.skip(at - 4));
            let (m, next) = match Message::read_from(v, at) {
                Ok(found) => found,
                Err(e) => {
                    return Err(e);
                },
            };
            proof {
                let more = items_at_front(body.skip(next - 4), (count - i - 1) as nat);
                assert(body.skip(at - 4).skip(next - at) =~= body.skip(next - 4));
                assert(sent@.push(m).map_values(|m: Message| m@) =~= done.push(m@));
                match more {
                    Ok((rest, further)) => {
                        assert(done + (seq![m@] + rest) =~= done.push(m@) + rest);
                    },
                    Err(_) => {},
                }
            }
            sent.push(m);
            at = next;
            i += 1;
        }
        let list = MessageAccount { sent };
        assert(list@ + Seq::<MessageView>::empty() =~= list@);
        if at == v.len() {
            proof {
                lemma_image_of_list_at_front(v@);
                assert(v@.subrange(0, at as int) =~= v@);
            }
            Ok(list)
        } else {
            Err(DecodeError::MalformedLength)
        }
    }
}

} // verus!
