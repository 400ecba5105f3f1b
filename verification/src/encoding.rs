//! The encoding of a value inside a line.
//!
//! A value whose bytes are all printable ASCII or ASCII whitespace other than
//! the newline stands in a line as it is. Any other value stands there as the
//! marker `base64:` followed by its standard base64 text.

use crate::text::{append_bytes, copy_range, has_prefix, holds_at, is_ascii_bytes, lacks_byte, NEWLINE};
use base64::engine::general_purpose::STANDARD;
use base64::Engine;
use vstd::prelude::*;

verus! {

/// The longest value that the store accepts, in bytes.
pub const MAX_VALUE_SIZE: usize = 1048576;

/// The longest line of a request or of the log, in bytes.
pub const MAX_LINE_LEN: usize = 4194304;

/// The standard base64 text of `data`, padded, as ASCII bytes.
pub uninterp spec fn base64_text(data: Seq<u8>) -> Seq<u8>;

/// The bytes that the standard base64 text `text` stands for, where it is
/// well formed.
pub uninterp spec fn base64_data(text: Seq<u8>) -> Option<Seq<u8>>;

/// Whether `b` is a letter, a digit, `+`, `/` or the padding `=`.
pub open spec fn is_base64_byte(b: u8) -> bool {
    ||| 0x41 <= b <= 0x5a
    ||| 0x61 <= b <= 0x7a
    ||| 0x30 <= b <= 0x39
    ||| b == 0x2b
    ||| b == 0x2f
    ||| b == 0x3d
}

/// The length of the padded base64 text of `len` bytes.
pub open spec fn base64_len(len: nat) -> nat {
    if len % 3 == 0 {
        len / 3 * 4
    } else {
        len / 3 * 4 + 4
    }
}

/// Whether the base64 text of `len` bytes has a length that fits in `usize`.
pub open spec fn base64_encodable(len: nat) -> bool {
    len / 3 * 4 + 4 <= usize::MAX
}

/// Whether a text of `len` bytes is short enough to be handed to the
/// decoder, which sizes its buffer at three bytes for every four of text.
pub open spec fn base64_decodable(len: nat) -> bool {
    (len / 4 + 1) * 3 <= usize::MAX
}

/// The base64 text of `data`.
///
/// This is `Engine::encode` of the crate `base64` on its `STANDARD` engine.
/// Believed of it: the text is a function of the bytes; it has four
/// characters for every three bytes, the last group padded; it is made of
/// the standard alphabet and `=`; and the decoder reads it back as `data`.
/// The call fails where the text's length overflows `usize`, which
/// `requires` leaves out.
#[verifier::external_body]
pub(crate) fn base64_encode(data: &[u8]) -> (text: Vec<u8>)
    requires
        base64_encodable(data@.len()),
    ensures
        text@ == base64_text(data@),
        text@.len() == base64_len(data@.len()),
        forall|i: int| 0 <= i < text@.len() ==> is_base64_byte(#[trigger] text@[i]),
        base64_data(text@) == Some(data@),
{
    STANDARD.encode(data).into_bytes()
}

/// The bytes that a base64 text stands for.
///
/// This is `Engine::decode` of the crate `base64` on its `STANDARD` engine,
/// with its error dropped. Believed of it: whether it accepts a text, and
/// what it then yields, is a function of the text.
#[verifier::external_body]
pub(crate) fn base64_decode(text: &[u8]) -> (data: Option<Vec<u8>>)
    requires
        base64_decodable(text@.len()),
    ensures
        data is Some <==> base64_data(text@) is Some,
        data is Some ==> base64_data(text@) == Some(data->0@),
{
    STANDARD.decode(text).ok()
}

/// Whether `b` is a printable ASCII character or ASCII whitespace other than
/// the newline.
pub open spec fn is_plain_byte(b: u8) -> bool {
    ||| 0x21 <= b <= 0x7e
    ||| b == 0x20
    ||| b == 0x09
    ||| b == 0x0c
    ||| b == 0x0d
}

/// Whether every byte of `value` is plain.
pub open spec fn is_plain(value: Seq<u8>) -> bool {
    forall|i: int| 0 <= i < value.len() ==> is_plain_byte(#[trigger] value[i])
}

/// The marker `base64:`.
pub open spec fn base64_marker() -> Seq<u8> {
    seq![0x62u8, 0x61u8, 0x73u8, 0x65u8, 0x36u8, 0x34u8, 0x3au8]
}

/// The field that stands for `value` in a line.
pub open spec fn encode_value_spec(value: Seq<u8>) -> Seq<u8> {
    if is_plain(value) {
        value
    } else {
        base64_marker() + base64_text(value)
    }
}

/// The length of the field that stands for `value`.
pub open spec fn field_len(value: Seq<u8>) -> nat {
    if is_plain(value) {
        value.len()
    } else {
        7 + base64_len(value.len())
    }
}

/// The value that a field stands for: after the marker the bytes of the
/// base64 text, which must be well formed; without it the field itself.
pub open spec fn decode_value_spec(field: Seq<u8>) -> Option<Seq<u8>> {
    if has_prefix(field, base64_marker()) {
        base64_data(field.skip(7))
    } else {
        Some(field)
    }
}

/// The value that a field of a request stands for: as `decode_value_spec`,
/// but a field whose base64 text is malformed stands for itself.
pub open spec fn decode_request_value_spec(field: Seq<u8>) -> Seq<u8> {
    match decode_value_spec(field) {
        Some(value) => value,
        None => field,
    }
}

/// Whether `value` is plain and yet begins with the marker, so that its
/// field reads as base64 text.
pub open spec fn looks_encoded(value: Seq<u8>) -> bool {
    is_plain(value) && has_prefix(value, base64_marker())
}

/// Whether the field of `value` has no newline, is no longer than the
/// value, the marker and the base64 text together, and reads back as
/// `value`.
pub open spec fn faithful_value(value: Seq<u8>) -> bool {
    let field = encode_value_spec(value);
    &&& decode_value_spec(field) == Some(value)
    &&& lacks_byte(field, NEWLINE)
    &&& field.len() <= value.len() + 7 + base64_len(value.len())
}

/// The marker, as bytes.
pub(crate) fn marker_bytes() -> (marker: Vec<u8>)
    ensures
        marker@ == base64_marker(),
{
    let mut marker: Vec<u8> = Vec::new();
    marker.push(0x62u8);
    marker.push(0x61u8);
    marker.push(0x73u8);
    marker.push(0x65u8);
    marker.push(0x36u8);
    marker.push(0x34u8);
    marker.push(0x3au8);
    proof {
        assert(marker@ =~= base64_marker());
    }
    marker
}

/// Whether every byte of `value` is plain.
pub fn is_plain_value(value: &[u8]) -> (plain: bool)
    ensures
        plain == is_plain(value@),
{
    let mut i: usize = 0;
    while i < value.len()
        invariant
            i <= value@.len(),
            forall|j: int| 0 <= j < i ==> is_plain_byte(#[trigger] value@[j]),
        decreases value@.len() - i,
    {
        let b = value[i];
        let plain = (0x21 <= b && b <= 0x7e) || b == 0x20 || b == 0x09 || b == 0x0c || b == 0x0d;
        if !plain {
            return false;
        }
        i = i + 1;
    }
    true
}

/// The field of a value that is not plain, from its base64 text: the
/// marker and the text.
pub fn with_marker(text: &[u8]) -> (field: Vec<u8>)
    ensures
        field@ == base64_marker() + text@,
{
    let mut field = marker_bytes();
    append_bytes(&mut field, text);
    field
}

/// The base64 text of a field that begins with the marker: what follows
/// the marker.
pub fn without_marker(field: &[u8]) -> (text: Option<&[u8]>)
    ensures
        text is Some <==> has_prefix(field@, base64_marker()),
        text is Some ==> text->0@ == field@.skip(7),
{
    let marker = marker_bytes();
    proof {
        assert(field@.skip(0) =~= field@);
    }
    if holds_at(field, 0, marker.as_slice()) {
        let text = vstd::slice::slice_subrange(field, 7, field.len());
        proof {
            assert(field@.skip(7) =~= field@.subrange(7, field@.len() as int));
        }
        Some(text)
    } else {
        None
    }
}

/// The value of a request's field, given what the decoder made of it: the
/// decoded bytes, or the field itself where the decoder refused it.
pub fn or_literal(field: &[u8], decoded: Option<Vec<u8>>) -> (value: Vec<u8>)
    ensures
        value@ == (match decoded {
            Some(bytes) => bytes@,
            None => field@,
        }),
{
    match decoded {
        Some(bytes) => bytes,
        None => {
            let value = copy_range(field, 0, field.len());
            proof {
                assert(value@ =~= field@);
            }
            value
        },
    }
}

/// Encodes a value as a field of a line.
///
/// The field has no newline and is ASCII. It reads back as the value unless
/// the value is plain and begins with the marker.
pub fn encode_value(value: &[u8]) -> (field: Vec<u8>)
    requires
        base64_encodable(value@.len()),
    ensures
        field@ == encode_value_spec(value@),
        field@.len() == field_len(value@),
        is_ascii_bytes(field@),
        lacks_byte(field@, NEWLINE),
        !looks_encoded(value@) ==> faithful_value(value@),
{
    if is_plain_value(value) {
        let field = copy_range(value, 0, value.len());
        proof {
            assert(field@ =~= value@);
        }
        field
    } else {
        let text = base64_encode(value);
        let field = with_marker(text.as_slice());
        proof {
            assert(field@.skip(7) =~= text@);
            assert(field@.take(7) =~= base64_marker());
        }
        field
    }
}

/// Decodes a field of a line of the log.
pub fn decode_value(field: &[u8]) -> (value: Option<Vec<u8>>)
    requires
        field@.len() <= MAX_LINE_LEN,
    ensures
        value is Some <==> decode_value_spec(field@) is Some,
        value is Some ==> decode_value_spec(field@) == Some(value->0@),
{
    match without_marker(field) {
        Some(text) => base64_decode(text),
        None => {
            let value = copy_range(field, 0, field.len());
            proof {
                assert(value@ =~= field@);
            }
            Some(value)
        },
    }
}

/// Decodes the value field of a request: a field that claims to be base64
/// and is not stands for its own bytes.
pub fn decode_request_value(field: &[u8]) -> (value: Vec<u8>)
    requires
        field@.len() <= MAX_LINE_LEN,
    ensures
        value@ == decode_request_value_spec(field@),
{
    let decoded = decode_value(field);
    or_literal(field, decoded)
}

} // verus!
