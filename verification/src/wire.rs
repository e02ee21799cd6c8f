//! The two leaves of the wire format: a 32-bit number and a text.
//!
//! A number is four bytes, least significant first. A text is the number of
//! its UTF-8 bytes followed by those bytes. The bytes of both are produced and
//! read back by borsh; what is stated of those calls is marked as trusted.

use vstd::prelude::*;
use vstd::slice::slice_subrange;
use vstd::utf8::*;
use crate::error::DecodeError;

verus! {

/// The four bytes of a number, least significant first.
#[verifier::opaque]
pub open spec fn le_bytes(value: u32) -> Seq<u8> {
    seq![
        (value % 256) as u8,
        ((value / 256) % 256) as u8,
        ((value / 65536) % 256) as u8,
        (value / 16777216) as u8,
    ]
}

/// The number whose four bytes, least significant first, open `bytes`.
#[verifier::opaque]
pub open spec fn le_value(bytes: Seq<u8>) -> u32 {
    (bytes[0] + 256 * bytes[1] + 65536 * bytes[2] + 16777216 * bytes[3]) as u32
}

/// Whether the UTF-8 length of a text can be written as a 32-bit number.
pub open spec fn text_fits(text: Seq<char>) -> bool {
    encode_utf8(text).len() <= u32::MAX
}

/// The encoding of a text: the length of its UTF-8 bytes, then the bytes.
pub open spec fn text_image(text: Seq<char>) -> Seq<u8> {
    le_bytes(encode_utf8(text).len() as u32) + encode_utf8(text)
}

/// Whether `bytes`, as a whole, are the encoding of some text.
pub open spec fn is_text_image(bytes: Seq<u8>) -> bool {
    &&& bytes.len() >= 4
    &&& le_value(bytes) == bytes.len() - 4
    &&& valid_utf8(bytes.skip(4))
}

/// The text that opens `bytes` and the number of bytes it takes, or the reason
/// why no text opens them.
pub open spec fn text_at_front(bytes: Seq<u8>) -> Result<(Seq<char>, int), DecodeError> {
    if bytes.len() < 4 {
        Err(DecodeError::TruncatedBuffer)
    } else if bytes.len() - 4 < le_value(bytes) {
        Err(DecodeError::TruncatedBuffer)
    } else if !valid_utf8(bytes.subrange(4, 4 + le_value(bytes))) {
        Err(DecodeError::InvalidUtf8)
    } else {
        Ok((decode_utf8(bytes.subrange(4, 4 + le_value(bytes))), 4 + le_value(bytes)))
    }
}

/// What a decoder returns for the whole of an input of `len` bytes, given
/// what opens it: the value if it takes all bytes, and `MalformedLength` if
/// bytes are left over.
pub open spec fn whole<T>(front: Result<(T, int), DecodeError>, len: nat) -> Result<
    T,
    DecodeError,
> {
    match front {
        Ok((value, used)) => if used == len {
            Ok(value)
        } else {
            Err(DecodeError::MalformedLength)
        },
        Err(e) => Err(e),
    }
}

/// A number is written as four bytes.
pub proof fn lemma_le_bytes_len(value: u32)
    ensures
        le_bytes(value).len() == 4,
{
    reveal(le_bytes);
}

/// The number read depends on the first four bytes alone.
pub proof fn lemma_le_value_front(a: Seq<u8>, b: Seq<u8>)
    requires
        a.len() >= 4,
        b.len() >= 4,
        a.subrange(0, 4) == b.subrange(0, 4),
    ensures
        le_value(a) == le_value(b),
{
    reveal(le_value);
    assert forall|i: int| 0 <= i < 4 implies a[i] == b[i] by {
        assert(a[i] == a.subrange(0, 4)[i]);
        assert(b[i] == b.subrange(0, 4)[i]);
    }
}

/// Reading back the bytes of a number gives the number.
pub proof fn lemma_le_value_of_bytes(value: u32, rest: Seq<u8>)
    ensures
        le_bytes(value).len() == 4,
        le_value(le_bytes(value) + rest) == value,
{
    reveal(le_bytes);
    reveal(le_value);
    let v = value as int;
    let a = v / 256;
    let b = a / 256;
    let c = b / 256;
    assert(v == 256 * a + v % 256);
    assert(a == 256 * b + a % 256);
    assert(b == 256 * c + b % 256);
    assert(v / 65536 == b);
    assert(v / 16777216 == c);
    assert(c < 256);
    let bytes = le_bytes(value) + rest;
    assert(bytes[0] == v % 256);
    assert(bytes[1] == a % 256);
    assert(bytes[2] == b % 256);
    assert(bytes[3] == c);
}

/// Four bytes are the bytes of the number read from them.
pub proof fn lemma_le_bytes_of_value(bytes: Seq<u8>)
    requires
        bytes.len() >= 4,
    ensures
        le_bytes(le_value(bytes)) == bytes.subrange(0, 4),
{
    reveal(le_bytes);
    reveal(le_value);
    let b0 = bytes[0] as int;
    let b1 = bytes[1] as int;
    let b2 = bytes[2] as int;
    let b3 = bytes[3] as int;
    let v = b0 + 256 * b1 + 65536 * b2 + 16777216 * b3;
    assert(le_value(bytes) == v);
    assert(v % 256 == b0 && v / 256 == b1 + 256 * b2 + 65536 * b3);
    assert((v / 256) % 256 == b1);
    assert(v / 65536 == b2 + 256 * b3);
    assert((v / 65536) % 256 == b2);
    assert(v / 16777216 == b3);
    assert(le_bytes(le_value(bytes)) =~= bytes.subrange(0, 4));
}

/// The number zero is written as four zero bytes, and only zero is.
pub proof fn lemma_le_zero(bytes: Seq<u8>)
    requires
        bytes.len() >= 4,
    ensures
        le_value(bytes) == 0 <==> (forall|i: int| 0 <= i < 4 ==> bytes[i] == 0),
{
    reveal(le_value);
    if le_value(bytes) == 0 {
        assert(bytes[0] == 0 && bytes[1] == 0 && bytes[2] == 0 && bytes[3] == 0);
    }
}

/// A text that fits is read back from its encoding, whatever follows it.
pub proof fn lemma_text_at_front_of_image(text: Seq<char>, rest: Seq<u8>)
    requires
        text_fits(text),
    ensures
        text_image(text).len() == 4 + encode_utf8(text).len(),
        text_at_front(text_image(text) + rest) == Ok::<(Seq<char>, int), DecodeError>(
            (text, text_image(text).len() as int),
        ),
{
    let payload = encode_utf8(text);
    let bytes = text_image(text) + rest;
    lemma_le_value_of_bytes(payload.len() as u32, payload + rest);
    assert(bytes =~= le_bytes(payload.len() as u32) + (payload + rest));
    assert(le_value(bytes) == payload.len());
    assert(bytes.subrange(4, 4 + payload.len() as int) =~= payload);
    encode_utf8_valid_utf8(text);
    encode_utf8_decode_utf8(text);
}

/// A text read from the front of bytes fits, and the bytes it took are its
/// encoding.
pub proof fn lemma_image_of_text_at_front(bytes: Seq<u8>)
    requires
        text_at_front(bytes) is Ok,
    ensures
        ({
            let (text, used) = text_at_front(bytes)->Ok_0;
            &&& text_fits(text)
            &&& 4 <= used <= bytes.len()
            &&& used == text_image(text).len()
            &&& bytes.subrange(0, used) == text_image(text)
        }),
{
    let (text, used) = text_at_front(bytes)->Ok_0;
    let payload = bytes.subrange(4, used);
    decode_utf8_encode_utf8(payload);
    lemma_le_bytes_of_value(bytes);
    assert(encode_utf8(text).len() == le_value(bytes));
    assert(bytes.subrange(0, used) =~= bytes.subrange(0, 4) + payload);
}

/// Appends the four bytes of `value` to `out`.
///
/// Trusted: calls borsh's `BorshSerialize::serialize` for `u32` on a
/// `Vec<u8>`, which writes `value.to_le_bytes()`; writing to a vector does
/// not fail.
#[verifier::external_body]
pub(crate) fn put_u32(out: &mut Vec<u8>, value: u32)
    ensures
        final(out)@ == old(out)@ + le_bytes(value),
{
    let _ = borsh::BorshSerialize::serialize(&value, out);
}

/// Reads a number from exactly four bytes.
///
/// Trusted: calls borsh's `BorshDeserialize::try_from_slice` for `u32`, which
/// returns `from_le_bytes` of a slice of four bytes and fails on a slice of
/// any other length.
#[verifier::external_body]
pub(crate) fn take_u32(bytes: &[u8]) -> (r: Option<u32>)
    ensures
        r == (if bytes@.len() == 4 {
            Some(le_value(bytes@))
        } else {
            None
        }),
{
    match <u32 as borsh::BorshDeserialize>::try_from_slice(bytes) {
        Ok(value) => Some(value),
        Err(_) => None,
    }
}

/// Appends the encoding of `text` to `out`, and says whether it did.
///
/// Trusted: calls borsh's `BorshSerialize::serialize` for `str` on a
/// `Vec<u8>`. It fails, before it writes anything, when the length of
/// `text.as_bytes()` is no `u32`; else it writes that length as four bytes,
/// least significant first, and then the bytes.
#[verifier::external_body]
pub(crate) fn put_text(out: &mut Vec<u8>, text: &str) -> (r: bool)
    ensures
        r == text_fits(text@),
        final(out)@ == (if r {
            old(out)@ + text_image(text@)
        } else {
            old(out)@
        }),
{
    borsh::BorshSerialize::serialize(text, out).is_ok()
}

/// Reads a text from bytes that hold nothing else.
///
/// Trusted: calls borsh's `BorshDeserialize::try_from_slice` for `String`. It
/// reads a length from the first four bytes, least significant first, takes
/// that many bytes, hands them to `String::from_utf8`, and fails if the slice
/// is too short for any of this, if the bytes are not UTF-8, or if bytes are
/// left over.
#[verifier::external_body]
pub(crate) fn take_text(bytes: &[u8]) -> (r: Option<String>)
    ensures
        match r {
            Some(text) => is_text_image(bytes@) && text@ == decode_utf8(bytes@.skip(4)),
            None => !is_text_image(bytes@),
        },
{
    match <String as borsh::BorshDeserialize>::try_from_slice(bytes) {
        Ok(text) => Some(text),
        Err(_) => None,
    }
}

/// The number of UTF-8 bytes of a text.
pub(crate) fn utf8_len(text: &str) -> (r: usize)
    ensures
        r == encode_utf8(text@).len(),
{
    text.as_bytes().len()
}

/// Reads the number that starts at `start`.
pub(crate) fn read_u32(bytes: &[u8], start: usize) -> (r: u32)
    requires
        start + 4 <= bytes@.len(),
    ensures
        r == le_value(bytes@.skip(start as int)),
{
    let len = bytes.len();
    assert(start + 4 <= len);
    let field = slice_subrange(bytes, start, start + 4);
    proof {
        assert(field@.subrange(0, 4) =~= bytes@.skip(start as int).subrange(0, 4));
        lemma_le_value_front(field@, bytes@.skip(start as int));
    }
    match take_u32(field) {
        Some(value) => value,
        None => 0,
    }
}

/// Reads the text that starts at `start`, and says where it ends.
pub(crate) fn read_text(bytes: &[u8], start: usize) -> (r: Result<(String, usize), DecodeError>)
    requires
        start <= bytes@.len(),
    ensures
        match r {
            Ok((text, next)) => {
                &&& start <= next <= bytes@.len()
                &&& text_at_front(bytes@.skip(start as int)) == Ok::<
                    (Seq<char>, int),
                    DecodeError,
                >((text@, next - start))
            },
            Err(e) => text_at_front(bytes@.skip(start as int)) == Err::<
                (Seq<char>, int),
                DecodeError,
            >(e),
        },
{
    let len = bytes.len();
    let ghost tail = bytes@.skip(start as int);
    if len - start < 4 {
        return Err(DecodeError::TruncatedBuffer);
    }
    let declared = read_u32(bytes, start) as usize;
    if len - start - 4 < declared {
        return Err(DecodeError::TruncatedBuffer);
    }
    let next = start + 4 + declared;
    let field = slice_subrange(bytes, start, next);
    assert(field@ =~= tail.subrange(0, 4 + declared));
    assert(field@.skip(4) =~= tail.subrange(4, 4 + declared));
    proof {
        assert(field@.subrange(0, 4) =~= tail.subrange(0, 4));
        lemma_le_value_front(field@, tail);
    }
    match take_text(field) {
        Some(text) => Ok((text, next)),
        None => Err(DecodeError::InvalidUtf8),
    }
}

} // verus!
