//! Keys: which texts may name a value.
//!
//! A key is a text of 1 to 1024 bytes of UTF-8 that holds no space and no
//! newline and does not begin with the marker `base64:`.

use crate::encoding::{base64_marker, marker_bytes};
use crate::text::{find_byte, has_prefix, holds_at, lacks_byte, NEWLINE, SPACE};
use vstd::prelude::*;
use vstd::utf8::encode_utf8;

verus! {

/// The longest key, in bytes of UTF-8.
pub const MAX_KEY_SIZE: usize = 1024;

/// Whether `key` is the UTF-8 form of an acceptable key, apart from being
/// valid UTF-8.
pub open spec fn valid_key_bytes(key: Seq<u8>) -> bool {
    &&& 1 <= key.len() <= MAX_KEY_SIZE
    &&& lacks_byte(key, SPACE)
    &&& lacks_byte(key, NEWLINE)
    &&& !has_prefix(key, base64_marker())
}

/// Whether `key` is an acceptable key.
pub open spec fn valid_key(key: Seq<char>) -> bool {
    valid_key_bytes(encode_utf8(key))
}

/// Whether the bytes `key` have the length and the content of a key.
pub fn is_valid_key_bytes(key: &[u8]) -> (valid: bool)
    ensures
        valid == valid_key_bytes(key@),
{
    if key.len() == 0 || key.len() > MAX_KEY_SIZE {
        return false;
    }
    proof {
        assert(key@.skip(0) =~= key@);
        crate::text::lemma_first_index_of(key@, SPACE);
        crate::text::lemma_first_index_of(key@, NEWLINE);
    }
    if find_byte(key, 0, SPACE) < key.len() {
        return false;
    }
    if find_byte(key, 0, NEWLINE) < key.len() {
        return false;
    }
    let marker = marker_bytes();
    !holds_at(key, 0, marker.as_slice())
}

/// Whether `key` is an acceptable key.
pub fn is_valid_key(key: &str) -> (valid: bool)
    ensures
        valid == valid_key(key@),
{
    is_valid_key_bytes(key.as_bytes())
}

} // verus!
