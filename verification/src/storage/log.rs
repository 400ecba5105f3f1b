//! The records of the append-only log and their lines.
//!
//! A record is one line: `SET`, a space, the key, a space and the value's
//! field; or `DELETE`, a space and the key. `record_line` is the line of a
//! record and `parse_line` reads a line back.

use crate::error::{overflow_error, overflow_text, StoreError};
use crate::encoding::{
    base64_encodable, base64_len, decode_value, decode_value_spec, encode_value,
    encode_value_spec, faithful_value, field_len, looks_encoded, MAX_LINE_LEN, MAX_VALUE_SIZE,
};
use crate::key::{is_valid_key_bytes, valid_key, valid_key_bytes};
use crate::text::{
    append_bytes, copy_range, find_byte, first_index_of, has_prefix, holds_at, is_ascii_bytes,
    lacks_byte, lemma_ascii_is_utf8, lemma_first_index_is, lemma_first_index_of,
    string_from_utf8, NEWLINE, SPACE,
};
use crate::storage::compaction::{image_spec, plain_safe};
use crate::storage::replay::{
    entry_views, recovered_pairs, replay_spec, terminated, valid_records, written_line,
};
use vstd::prelude::*;
use vstd::utf8::{decode_utf8, encode_utf8, valid_utf8};

verus! {

/// A record of the log, as a mathematical value.
pub enum Record {
    /// The key holds the value from here on.
    Put { key: Seq<char>, value: Seq<u8> },
    /// The key holds nothing from here on.
    Delete { key: Seq<char> },
}

/// A record of the log.
#[derive(Debug, Clone)]
pub enum LogEntry {
    /// The key holds the value from here on.
    Put(String, Vec<u8>),
    /// The key holds nothing from here on.
    Delete(String),
}

impl View for LogEntry {
    type V = Record;

    open spec fn view(&self) -> Record {
        match self {
            LogEntry::Put(key, value) => Record::Put { key: key@, value: value@ },
            LogEntry::Delete(key) => Record::Delete { key: key@ },
        }
    }
}

/// The bytes `SET ` that open the line of a `Put` record.
pub open spec fn set_verb() -> Seq<u8> {
    seq![0x53u8, 0x45u8, 0x54u8, 0x20u8]
}

/// The bytes `DELETE ` that open the line of a `Delete` record.
pub open spec fn delete_verb() -> Seq<u8> {
    seq![0x44u8, 0x45u8, 0x4cu8, 0x45u8, 0x54u8, 0x45u8, 0x20u8]
}

/// The key of a record.
pub open spec fn record_key(record: Record) -> Seq<char> {
    match record {
        Record::Put { key, value } => key,
        Record::Delete { key } => key,
    }
}

/// Whether the store may hold the record: its key is acceptable and its
/// value, if it has one, is not too long.
pub open spec fn valid_record(record: Record) -> bool {
    match record {
        Record::Put { key, value } => valid_key(key) && value.len() <= MAX_VALUE_SIZE,
        Record::Delete { key } => valid_key(key),
    }
}

/// The line of a record, without the newline that ends it.
pub open spec fn record_line(record: Record) -> Seq<u8> {
    match record {
        Record::Put { key, value } => set_verb() + encode_utf8(key) + seq![SPACE]
            + encode_value_spec(value),
        Record::Delete { key } => delete_verb() + encode_utf8(key),
    }
}

/// The length of what an append of the record writes: the line and its
/// newline.
pub open spec fn written_len(record: Record) -> nat {
    match record {
        Record::Put { key, value } => 4 + encode_utf8(key).len() + 1 + field_len(value) + 1,
        Record::Delete { key } => 7 + encode_utf8(key).len() + 1,
    }
}

/// The record that a line stands for, if it stands for one.
///
/// A `SET` line has a key up to the next space and the value's field after
/// it; a `DELETE` line has a key up to its end. The key must be acceptable,
/// a base64 field well formed, and the value within the limit.
pub open spec fn parse_line(line: Seq<u8>) -> Option<Record> {
    if line.len() > MAX_LINE_LEN {
        None
    } else if has_prefix(line, set_verb()) {
        let rest = line.skip(4);
        let space = first_index_of(rest, SPACE);
        let key = rest.take(space);
        if space >= rest.len() || !valid_key_bytes(key) || !valid_utf8(key) {
            None
        } else {
            match decode_value_spec(rest.skip(space + 1)) {
                Some(value) => if value.len() <= MAX_VALUE_SIZE {
                    Some(Record::Put { key: decode_utf8(key), value })
                } else {
                    None
                },
                None => None,
            }
        }
    } else if has_prefix(line, delete_verb()) {
        let key = line.skip(7);
        if valid_key_bytes(key) && valid_utf8(key) {
            Some(Record::Delete { key: decode_utf8(key) })
        } else {
            None
        }
    } else {
        None
    }
}

/// Whether the line of `record` has no newline and reads back as `record`.
pub open spec fn faithful_record(record: Record) -> bool {
    &&& lacks_byte(record_line(record), NEWLINE)
    &&& parse_line(record_line(record)) == Some(record)
}

/// The line of a valid record reads back as the record, provided the field
/// of its value does.
pub proof fn lemma_faithful_record(record: Record)
    requires
        valid_record(record),
        record is Put ==> faithful_value(record->Put_value),
    ensures
        faithful_record(record),
{
    broadcast use vstd::utf8::encode_utf8_valid_utf8, vstd::utf8::encode_utf8_decode_utf8;

    let line = record_line(record);
    let key = encode_utf8(record_key(record));
    match record {
        Record::Put { key: k, value } => {
            let field = encode_value_spec(value);
            let rest = key + seq![SPACE] + field;
            assert(line.take(4) =~= set_verb());
            assert(line.skip(4) =~= rest);
            lemma_first_index_is(rest, SPACE, key.len() as int);
            assert(rest.take(key.len() as int) =~= key);
            assert(rest.skip(key.len() as int + 1) =~= field);
            assert(base64_len(value.len()) <= 1398104) by {
                assert(value.len() / 3 <= 349525);
            }
        },
        Record::Delete { key: k } => {
            assert(line[0] == 0x44u8);
            assert(line.take(4)[0] == line[0]);
            assert(line.take(7) =~= delete_verb());
            assert(line.skip(7) =~= key);
        },
    }
}

/// The bytes `SET `.
fn set_verb_bytes() -> (verb: Vec<u8>)
    ensures
        verb@ == set_verb(),
{
    let mut verb: Vec<u8> = Vec::new();
    verb.push(0x53u8);
    verb.push(0x45u8);
    verb.push(0x54u8);
    verb.push(0x20u8);
    proof {
        assert(verb@ =~= set_verb());
    }
    verb
}

/// The bytes `DELETE `.
fn delete_verb_bytes() -> (verb: Vec<u8>)
    ensures
        verb@ == delete_verb(),
{
    let mut verb: Vec<u8> = Vec::new();
    verb.push(0x44u8);
    verb.push(0x45u8);
    verb.push(0x4cu8);
    verb.push(0x45u8);
    verb.push(0x54u8);
    verb.push(0x45u8);
    verb.push(0x20u8);
    proof {
        assert(verb@ =~= delete_verb());
    }
    verb
}

/// The line that gives `key` the value whose field is `field`, without
/// the newline.
pub fn put_line_with(key: &str, field: &[u8]) -> (line: Vec<u8>)
    ensures
        line@ == set_verb() + encode_utf8(key@) + seq![SPACE] + field@,
        is_ascii_bytes(field@) ==> valid_utf8(line@),
{
    broadcast use vstd::utf8::encode_utf8_valid_utf8, vstd::utf8::valid_utf8_concat;

    let mut line = set_verb_bytes();
    append_bytes(&mut line, key.as_bytes());
    line.push(SPACE);
    append_bytes(&mut line, field);
    proof {
        let head = set_verb() + encode_utf8(key@);
        assert(line@ =~= head + seq![SPACE] + field@);
        assert(is_ascii_bytes(set_verb()));
        assert(is_ascii_bytes(seq![SPACE]));
        lemma_ascii_is_utf8(set_verb());
        lemma_ascii_is_utf8(seq![SPACE]);
        assert(valid_utf8(head));
        assert(valid_utf8(head + seq![SPACE]));
        if is_ascii_bytes(field@) {
            lemma_ascii_is_utf8(field@);
        }
    }
    line
}

/// The line that gives `key` the value `value`, without the newline.
pub fn put_line(key: &str, value: &[u8]) -> (line: Vec<u8>)
    requires
        base64_encodable(value@.len()),
    ensures
        line@ == record_line(Record::Put { key: key@, value: value@ }),
        line@.len() + 1 == written_len(Record::Put { key: key@, value: value@ }),
        valid_utf8(line@),
        valid_key(key@) && value@.len() <= MAX_VALUE_SIZE && !looks_encoded(value@)
            ==> faithful_record(Record::Put { key: key@, value: value@ }),
{
    let field = encode_value(value);
    let line = put_line_with(key, field.as_slice());
    proof {
        if valid_key(key@) && value@.len() <= MAX_VALUE_SIZE && !looks_encoded(value@) {
            lemma_faithful_record(Record::Put { key: key@, value: value@ });
        }
    }
    line
}

/// The `Put` record of a key and of what the decoder made of the value's
/// field: none where the decoder refused the field or the value is beyond
/// the limit.
pub fn checked_put(key: String, decoded: Option<Vec<u8>>) -> (entry: Option<LogEntry>)
    ensures
        entry is Some <==> decoded is Some && decoded->0@.len() <= MAX_VALUE_SIZE,
        entry is Some ==> entry->0@ == (Record::Put { key: key@, value: decoded->0@ }),
{
    match decoded {
        Some(value) => {
            if value.len() <= MAX_VALUE_SIZE {
                Some(LogEntry::Put(key, value))
            } else {
                None
            }
        },
        None => None,
    }
}

/// The line that takes `key` out, without the newline.
pub fn delete_line(key: &str) -> (line: Vec<u8>)
    ensures
        line@ == record_line(Record::Delete { key: key@ }),
        line@.len() + 1 == written_len(Record::Delete { key: key@ }),
        valid_utf8(line@),
        valid_key(key@) ==> faithful_record(Record::Delete { key: key@ }),
{
    broadcast use vstd::utf8::encode_utf8_valid_utf8, vstd::utf8::valid_utf8_concat;

    let mut line = delete_verb_bytes();
    append_bytes(&mut line, key.as_bytes());
    proof {
        assert(is_ascii_bytes(delete_verb()));
        lemma_ascii_is_utf8(delete_verb());
        if valid_key(key@) {
            lemma_faithful_record(Record::Delete { key: key@ });
        }
    }
    line
}

impl LogEntry {
    /// Whether the value of the record, if it has one, is short enough for
    /// its base64 text to have a length.
    pub open spec fn encodable(&self) -> bool {
        match self {
            LogEntry::Put(key, value) => base64_encodable(value@.len()),
            LogEntry::Delete(key) => true,
        }
    }

    /// Whether the record is valid and its value does not pass for base64
    /// text while being plain.
    pub open spec fn reads_back(&self) -> bool {
        &&& valid_record(self@)
        &&& self@ is Put ==> !looks_encoded(self@->Put_value)
    }

    /// The line of the record as bytes, without the newline.
    pub fn to_bytes(&self) -> (line: Vec<u8>)
        requires
            self.encodable(),
        ensures
            line@ == record_line(self@),
            line@.len() + 1 == written_len(self@),
            valid_utf8(line@),
            self.reads_back() ==> faithful_record(self@),
    {
        match self {
            LogEntry::Put(key, value) => put_line(key.as_str(), value.as_slice()),
            LogEntry::Delete(key) => delete_line(key.as_str()),
        }
    }

    /// The line of the record, without the newline.
    pub fn to_string(&self) -> (line: String)
        requires
            self.encodable(),
        ensures
            encode_utf8(line@) == record_line(self@),
            self.reads_back() ==> faithful_record(self@),
    {
        match string_from_utf8(self.to_bytes()) {
            Some(line) => line,
            None => String::new(),
        }
    }

    /// Reads a line of the log, given as bytes without its newline.
    pub fn from_bytes(line: &[u8]) -> (entry: Option<LogEntry>)
        ensures
            entry is Some <==> parse_line(line@) is Some,
            entry is Some ==> parse_line(line@) == Some(entry->0@),
            entry is Some ==> valid_record(entry->0@),
    {
        broadcast use vstd::utf8::encode_utf8_decode_utf8;

        if line.len() > MAX_LINE_LEN {
            return None;
        }
        proof {
            assert(line@.skip(0) =~= line@);
        }
        let set_verb = set_verb_bytes();
        let delete_verb = delete_verb_bytes();
        if holds_at(line, 0, set_verb.as_slice()) {
            let space = find_byte(line, 4, SPACE);
            let ghost rest = line@.skip(4);
            proof {
                lemma_first_index_of(rest, SPACE);
                assert(rest.take(space - 4) =~= line@.subrange(4, space as int));
            }
            if space >= line.len() {
                return None;
            }
            let key_bytes = copy_range(line, 4, space);
            if !is_valid_key_bytes(key_bytes.as_slice()) {
                return None;
            }
            let key = match string_from_utf8(key_bytes) {
                Some(key) => key,
                None => {
                    return None;
                },
            };
            let field = vstd::slice::slice_subrange(line, space + 1, line.len());
            proof {
                assert(rest.skip(space - 4 + 1) =~= field@);
            }
            let decoded = decode_value(field);
            checked_put(key, decoded)
        } else if holds_at(line, 0, delete_verb.as_slice()) {
            let key_bytes = copy_range(line, 7, line.len());
            proof {
                assert(line@.skip(7) =~= key_bytes@);
            }
            if !is_valid_key_bytes(key_bytes.as_slice()) {
                return None;
            }
            match string_from_utf8(key_bytes) {
                Some(key) => Some(LogEntry::Delete(key)),
                None => None,
            }
        } else {
            None
        }
    }

    /// Reads a line of the log, given as bytes without its newline, and
    /// reports a line that is no record as a corrupt one.
    pub fn parse(line: &[u8]) -> (entry: Result<LogEntry, StoreError>)
        ensures
            parse_line(line@) is None ==> entry == Err::<LogEntry, StoreError>(
                StoreError::LogCorruption,
            ),
            parse_line(line@) is Some ==> entry is Ok && parse_line(line@) == Some(entry->Ok_0@),
            entry is Ok ==> valid_record(entry->Ok_0@),
    {
        match LogEntry::from_bytes(line) {
            Some(entry) => Ok(entry),
            None => Err(StoreError::LogCorruption),
        }
    }

    /// Reads a line of the log, given without its newline.
    pub fn from_string(line: &str) -> (entry: Option<LogEntry>)
        ensures
            entry is Some <==> parse_line(encode_utf8(line@)) is Some,
            entry is Some ==> parse_line(encode_utf8(line@)) == Some(entry->0@),
            entry is Some ==> valid_record(entry->0@),
    {
        LogEntry::from_bytes(line.as_bytes())
    }
}

/// The length beyond which the log is due for compaction, in bytes.
pub const MAX_LOG_SIZE: usize = 1048576;

/// The book-keeping of the log file: how long it is, and when it is due
/// for compaction. The file itself is the caller's.
pub struct LogFile {
    current_size: usize,
}

impl LogFile {
    /// The tracked length of the log, in bytes.
    pub closed spec fn size_spec(&self) -> nat {
        self.current_size as nat
    }

    /// The book-keeping of a log that is `size` bytes long.
    pub fn with_size(size: usize) -> (log: LogFile)
        ensures
            log.size_spec() == size,
    {
        LogFile { current_size: size }
    }

    /// The tracked length of the log, in bytes.
    pub fn size(&self) -> (size: usize)
        ensures
            size == self.size_spec(),
    {
        self.current_size
    }

    /// Whether the log has grown beyond the threshold of compaction.
    pub fn needs_compaction(&self) -> (due: bool)
        ensures
            due == (self.size_spec() > MAX_LOG_SIZE),
    {
        self.current_size > MAX_LOG_SIZE
    }

    /// Accounts for the append of a record and hands out the bytes to
    /// write: the record's line and its newline.
    ///
    /// A record with an unacceptable key or too long a value is refused,
    /// and so is one whose line would take the length beyond `usize`; the
    /// tracked length then stays as it was.
    pub fn append(&mut self, entry: &LogEntry) -> (done: Result<Vec<u8>, StoreError>)
        ensures
            !valid_key(record_key(entry@)) ==> done == Err::<Vec<u8>, StoreError>(
                StoreError::InvalidKey,
            ),
            valid_key(record_key(entry@)) && !valid_record(entry@) ==> done == Err::<
                Vec<u8>,
                StoreError,
            >(StoreError::ValueTooLarge),
            valid_record(entry@) && old(self).size_spec() + written_len(entry@) > usize::MAX
                ==> done is Err && done->Err_0.is_io(overflow_text()),
            valid_record(entry@) && old(self).size_spec() + written_len(entry@) <= usize::MAX
                ==> done is Ok,
            done is Ok ==> done->Ok_0@ == written_line(entry@),
            done is Ok ==> done->Ok_0@.len() == written_len(entry@),
            done is Ok ==> final(self).size_spec() == old(self).size_spec() + written_len(entry@),
            done is Ok && entry.reads_back() ==> faithful_record(entry@),
            done is Err ==> final(self).size_spec() == old(self).size_spec(),
    {
        let valid_key = match entry {
            LogEntry::Put(key, value) => is_valid_key_bytes(key.as_str().as_bytes()),
            LogEntry::Delete(key) => is_valid_key_bytes(key.as_str().as_bytes()),
        };
        if !valid_key {
            return Err(StoreError::InvalidKey);
        }
        match entry {
            LogEntry::Put(key, value) => {
                if value.len() > MAX_VALUE_SIZE {
                    return Err(StoreError::ValueTooLarge);
                }
            },
            LogEntry::Delete(key) => {},
        }
        let mut line = entry.to_bytes();
        line.push(NEWLINE);
        if self.grow(line.len()) {
            Ok(line)
        } else {
            Err(overflow_error())
        }
    }

    /// Accounts for `len` more bytes at the end of the log. Where the
    /// length would go beyond `usize` it stays as it was, and the answer
    /// is `false`.
    pub fn grow(&mut self, len: usize) -> (done: bool)
        ensures
            done == (old(self).size_spec() + len <= usize::MAX),
            done ==> final(self).size_spec() == old(self).size_spec() + len,
            !done ==> final(self).size_spec() == old(self).size_spec(),
    {
        match self.current_size.checked_add(len) {
            Some(size) => {
                self.current_size = size;
                true
            },
            None => false,
        }
    }

    /// Sets the tracked length to `size`: the log has been replaced by a
    /// file of that length.
    pub fn reset(&mut self, size: usize)
        ensures
            final(self).size_spec() == size,
    {
        self.current_size = size;
    }

    /// Reads the records of the log from its bytes, in the order of their
    /// lines; what is no record is passed over.
    pub fn replay(data: &[u8]) -> (entries: Vec<LogEntry>)
        ensures
            entry_views(entries@) == replay_spec(
                data@,
            ),
            valid_records(replay_spec(data@)),
    {
        crate::storage::replay::replay(data)
    }

    /// Compacts the log whose bytes are `data`: replays it, folds its
    /// records into a state, and hands out the image of that state, which
    /// is to replace the log. The tracked length becomes the image's.
    pub fn compact(&mut self, data: &[u8]) -> (image: Vec<u8>)
        ensures
            image@ == image_spec(
                recovered_pairs(data@),
            ),
            final(self).size_spec() == image@.len(),
            terminated(image@),
            plain_safe(recovered_pairs(data@))
                ==> recovered_pairs(image@)
                == recovered_pairs(data@),
    {
        let index = crate::storage::replay::recover(data);
        let image = index.image();
        self.current_size = image.len();
        image
    }
}

} // verus!
