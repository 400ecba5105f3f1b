//! Byte strings: searching and comparing them, and passing between bytes and
//! text.

use vstd::prelude::*;
use vstd::utf8::*;

verus! {

/// The space that separates the fields of a line.
pub const SPACE: u8 = 0x20;

/// The byte that ends a line.
pub const NEWLINE: u8 = 0x0a;

/// Whether `data` begins with `prefix`.
pub open spec fn has_prefix(data: Seq<u8>, prefix: Seq<u8>) -> bool {
    prefix.len() <= data.len() && data.take(prefix.len() as int) == prefix
}

/// Whether `b` occurs nowhere in `data`.
pub open spec fn lacks_byte(data: Seq<u8>, b: u8) -> bool {
    forall|i: int| 0 <= i < data.len() ==> data[i] != b
}

/// The position of the first `b` in `data`, or the length of `data` where
/// there is none.
pub open spec fn first_index_of(data: Seq<u8>, b: u8) -> int
    decreases data.len(),
{
    if data.len() == 0 {
        0
    } else if data[0] == b {
        0
    } else {
        1 + first_index_of(data.drop_first(), b)
    }
}

/// Whether every byte of `data` is below 128.
pub open spec fn is_ascii_bytes(data: Seq<u8>) -> bool {
    forall|i: int| 0 <= i < data.len() ==> data[i] < 0x80
}

/// The bytes of a text of ASCII characters.
pub open spec fn ascii_bytes(chars: Seq<char>) -> Seq<u8> {
    Seq::new(chars.len(), |i: int| chars[i] as u8)
}

/// `first_index_of` is within the sequence, nothing before it is `b`, and
/// it holds `b` unless it is the end.
pub proof fn lemma_first_index_of(data: Seq<u8>, b: u8)
    ensures
        0 <= first_index_of(data, b) <= data.len(),
        forall|i: int| 0 <= i < first_index_of(data, b) ==> data[i] != b,
        first_index_of(data, b) < data.len() ==> data[first_index_of(data, b)] == b,
        lacks_byte(data, b) <==> first_index_of(data, b) == data.len(),
    decreases data.len(),
{
    if data.len() > 0 && data[0] != b {
        let rest = data.drop_first();
        lemma_first_index_of(rest, b);
        assert forall|i: int| 0 <= i < first_index_of(data, b) implies data[i] != b by {
            if i > 0 {
                assert(data[i] == rest[i - 1]);
            }
        }
        if lacks_byte(rest, b) {
            assert forall|i: int| 0 <= i < data.len() implies data[i] != b by {
                if i > 0 {
                    assert(data[i] == rest[i - 1]);
                }
            }
        }
        if lacks_byte(data, b) {
            assert forall|i: int| 0 <= i < rest.len() implies rest[i] != b by {
                assert(rest[i] == data[i + 1]);
            }
        }
    }
}

/// A position that holds `b` and has no `b` before it is the first one.
pub proof fn lemma_first_index_is(data: Seq<u8>, b: u8, at: int)
    requires
        0 <= at <= data.len(),
        forall|i: int| 0 <= i < at ==> data[i] != b,
        at < data.len() ==> data[at] == b,
    ensures
        first_index_of(data, b) == at,
{
    lemma_first_index_of(data, b);
    let f = first_index_of(data, b);
    if f < at {
        assert(data[f] == b);
    }
}

/// The UTF-8 encoding of a text has at least one byte for each character.
pub proof fn lemma_encoding_not_shorter(chars: Seq<char>)
    ensures
        encode_utf8(chars).len() >= chars.len(),
    decreases chars.len(),
{
    if chars.len() > 0 {
        lemma_encoding_not_shorter(chars.drop_first());
    }
}

/// A sequence of bytes below 128 is valid UTF-8.
pub proof fn lemma_ascii_is_utf8(data: Seq<u8>)
    requires
        is_ascii_bytes(data),
    ensures
        valid_utf8(data),
{
    assert forall|i: int| 0 <= i < data.len() implies #[trigger] is_leading_byte_width_1(
        data[i],
    ) by {
        let b = data[i];
        assert(b < 0x80 ==> b & 0x80 == 0) by (bit_vector);
    }
    assert(data.subrange(0, 0) =~= Seq::<u8>::empty());
    assert(partial_valid_utf8(data, 0));
    partial_valid_utf8_extend_ascii_block(data, 0, data.len() as int);
    assert(data.subrange(0, data.len() as int) =~= data);
}

/// A stretch of valid UTF-8 that is bounded on either side by an ASCII
/// byte or by the end of the text is valid UTF-8 itself.
pub proof fn lemma_ascii_delimited_is_utf8(data: Seq<u8>, from: int, to: int)
    requires
        valid_utf8(data),
        0 <= from <= to <= data.len(),
        from == 0 || data[from - 1] < 0x80,
        to == data.len() || data[to] < 0x80,
    ensures
        valid_utf8(data.subrange(from, to)),
{
    let suffix = data.subrange(from, data.len() as int);
    if from == 0 {
        assert(suffix =~= data);
    } else {
        is_char_boundary_iff_not_is_continuation_byte(data, from - 1);
        valid_utf8_split(data, from - 1);
        let tail = data.subrange(from - 1, data.len() as int);
        assert(tail[0] == data[from - 1]);
        assert(pop_first_scalar(tail) =~= suffix);
    }
    let cut = to - from;
    if cut == suffix.len() {
        is_char_boundary_start_end_of_seq(suffix);
    } else {
        assert(suffix[cut] == data[to]);
        is_char_boundary_iff_not_is_continuation_byte(suffix, cut);
    }
    valid_utf8_split(suffix, cut);
    assert(suffix.subrange(0, cut) =~= data.subrange(from, to));
}

/// The first position of `b` in `data` at or after `from`, or the length of
/// `data`.
pub(crate) fn find_byte(data: &[u8], from: usize, b: u8) -> (at: usize)
    requires
        from <= data@.len(),
    ensures
        at == from + first_index_of(data@.skip(from as int), b),
        from <= at <= data@.len(),
{
    let mut at = from;
    while at < data.len() && data[at] != b
        invariant
            from <= at <= data@.len(),
            forall|i: int| from <= i < at ==> data@[i] != b,
        decreases data@.len() - at,
    {
        at = at + 1;
    }
    proof {
        lemma_first_index_is(data@.skip(from as int), b, at - from);
    }
    at
}

/// Whether `data` holds `word` at position `at`.
pub(crate) fn holds_at(data: &[u8], at: usize, word: &[u8]) -> (found: bool)
    requires
        at <= data@.len(),
    ensures
        found == has_prefix(data@.skip(at as int), word@),
{
    if word.len() > data.len() - at {
        return false;
    }
    let mut i: usize = 0;
    while i < word.len()
        invariant
            at + word@.len() <= data@.len() <= usize::MAX,
            i <= word@.len(),
            forall|j: int| 0 <= j < i ==> data@[at + j] == word@[j],
        decreases word@.len() - i,
    {
        if data[at + i] != word[i] {
            proof {
                assert(data@.skip(at as int).take(word@.len() as int)[i as int] != word@[i as int]);
            }
            return false;
        }
        i = i + 1;
    }
    proof {
        assert(data@.skip(at as int).take(word@.len() as int) =~= word@);
    }
    true
}

/// The bytes of `data` from `from` up to `to`, as a vector of their own.
pub(crate) fn copy_range(data: &[u8], from: usize, to: usize) -> (out: Vec<u8>)
    requires
        from <= to <= data@.len(),
    ensures
        out@ == data@.subrange(from as int, to as int),
{
    let mut out: Vec<u8> = Vec::new();
    let mut i = from;
    while i < to
        invariant
            from <= i <= to <= data@.len(),
            out@ == data@.subrange(from as int, i as int),
        decreases to - i,
    {
        out.push(data[i]);
        i = i + 1;
        proof {
            assert(out@ =~= data@.subrange(from as int, i as int));
        }
    }
    out
}

/// Appends `src` to `dst`.
pub(crate) fn append_bytes(dst: &mut Vec<u8>, src: &[u8])
    ensures
        final(dst)@ == old(dst)@ + src@,
{
    let mut i: usize = 0;
    while i < src.len()
        invariant
            i <= src@.len(),
            dst@ == old(dst)@ + src@.take(i as int),
        decreases src@.len() - i,
    {
        dst.push(src[i]);
        i = i + 1;
        proof {
            assert(dst@ =~= old(dst)@ + src@.take(i as int));
        }
    }
    proof {
        assert(src@.take(src@.len() as int) =~= src@);
    }
}

/// `String::push` appends one character to the text.
pub assume_specification[ String::push ](s: &mut String, c: char)
    ensures
        final(s)@ == old(s)@.push(c),
;

/// Text from bytes, where they are valid UTF-8.
///
/// This is `String::from_utf8` with its error dropped: it yields the
/// string whose encoding is `bytes` when the bytes are valid UTF-8, and
/// nothing otherwise.
#[verifier::external_body]
pub(crate) fn string_from_utf8(bytes: Vec<u8>) -> (out: Option<String>)
    ensures
        out is Some <==> valid_utf8(bytes@),
        out is Some ==> encode_utf8(out->0@) == bytes@,
{
    String::from_utf8(bytes).ok()
}

} // verus!
