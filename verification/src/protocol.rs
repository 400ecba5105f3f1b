//! The line protocol: one request line in, one response line out.
//!
//! A request is a verb, read without regard to case, and its arguments,
//! separated by single spaces: `GET key`, `SET key value`, `DELETE key`,
//! `COMPACT`. White space around the line does not count. A response is
//! `OK`, `VALUE` and the value's field, `NOT_FOUND`, or `ERROR` and a
//! reason.

use crate::encoding::{
    base64_encodable, decode_request_value, decode_request_value_spec, encode_value,
    encode_value_spec, is_plain_byte, MAX_LINE_LEN,
};
use crate::text::{
    append_bytes, copy_range, find_byte, first_index_of, is_ascii_bytes, lacks_byte,
    lemma_ascii_delimited_is_utf8, lemma_ascii_is_utf8, lemma_first_index_of, string_from_utf8,
    NEWLINE, SPACE,
};
use vstd::prelude::*;
use vstd::utf8::{decode_utf8, encode_utf8, valid_utf8};

verus! {

/// A request, as a mathematical value.
pub enum Request {
    /// Asks for the value of a key.
    Get { key: Seq<char> },
    /// Gives a key a value.
    Put { key: Seq<char>, value: Seq<u8> },
    /// Takes a key out.
    Delete { key: Seq<char> },
    /// Asks for the log to be compacted.
    Compact,
}

/// Commands that a client sends to the server.
#[derive(Debug)]
pub enum Command {
    /// Get the value associated with a key.
    Get(String),
    /// Give a key a value.
    Put(String, Vec<u8>),
    /// Delete a key and its value.
    Delete(String),
    /// Compact the log file.
    Compact,
}

impl View for Command {
    type V = Request;

    open spec fn view(&self) -> Request {
        match self {
            Command::Get(key) => Request::Get { key: key@ },
            Command::Put(key, value) => Request::Put { key: key@, value: value@ },
            Command::Delete(key) => Request::Delete { key: key@ },
            Command::Compact => Request::Compact,
        }
    }
}

/// Whether `b` is ASCII white space: space, tab, newline, form feed or
/// carriage return.
pub open spec fn is_space_byte(b: u8) -> bool {
    b == 0x20 || b == 0x09 || b == 0x0a || b == 0x0c || b == 0x0d
}

/// `line` without the white space at its start.
pub open spec fn trim_start(line: Seq<u8>) -> Seq<u8>
    decreases line.len(),
{
    if line.len() > 0 && is_space_byte(line[0]) {
        trim_start(line.drop_first())
    } else {
        line
    }
}

/// `line` without the white space at its end.
pub open spec fn trim_end(line: Seq<u8>) -> Seq<u8>
    decreases line.len(),
{
    if line.len() > 0 && is_space_byte(line.last()) {
        trim_end(line.drop_last())
    } else {
        line
    }
}

/// `line` without the white space at either end.
pub open spec fn trim(line: Seq<u8>) -> Seq<u8> {
    trim_end(trim_start(line))
}

/// The upper-case form of an ASCII letter; any other byte is itself.
pub open spec fn upper(b: u8) -> u8 {
    if 0x61 <= b <= 0x7a {
        (b - 0x20) as u8
    } else {
        b
    }
}

/// Whether `token` is `word` without regard to the case of ASCII letters;
/// `word` is in upper case.
pub open spec fn is_verb(token: Seq<u8>, word: Seq<u8>) -> bool {
    token.len() == word.len() && forall|i: int| 0 <= i < token.len() ==> upper(token[i]) == word[i]
}

/// The verb `GET`.
pub open spec fn get_word() -> Seq<u8> {
    seq![0x47u8, 0x45u8, 0x54u8]
}

/// The verb `SET`.
pub open spec fn set_word() -> Seq<u8> {
    seq![0x53u8, 0x45u8, 0x54u8]
}

/// The verb `DELETE`.
pub open spec fn delete_word() -> Seq<u8> {
    seq![0x44u8, 0x45u8, 0x4cu8, 0x45u8, 0x54u8, 0x45u8]
}

/// The verb `COMPACT`.
pub open spec fn compact_word() -> Seq<u8> {
    seq![0x43u8, 0x4fu8, 0x4du8, 0x50u8, 0x41u8, 0x43u8, 0x54u8]
}

/// The verb of a request.
pub enum Verb {
    /// `GET`
    Get,
    /// `SET`
    Put,
    /// `DELETE`
    Delete,
    /// `COMPACT`
    Compact,
}

/// A request line cut into its fields, the key still in bytes.
pub struct Fields {
    /// The verb.
    pub verb: Verb,
    /// The bytes of the key; none for `COMPACT`.
    pub key: Seq<u8>,
    /// The value; empty for all but `SET`.
    pub value: Seq<u8>,
}

/// The fields of a request whose only argument is a key: all that follows
/// the verb's space, without a further space.
pub open spec fn single_key(verb: Verb, rest: Option<Seq<u8>>) -> Option<Fields> {
    match rest {
        Some(key) => if lacks_byte(key, SPACE) {
            Some(Fields { verb, key, value: Seq::empty() })
        } else {
            None
        },
        None => None,
    }
}

/// The fields of a request line, if it has the form of a request.
///
/// The line is trimmed; the verb reaches to the first space. `GET` and
/// `DELETE` take one key and nothing more, `COMPACT` takes nothing, and
/// `SET` takes a key and, after the next space, the value's field up to
/// the end of the line; without that space the value is empty.
pub open spec fn request_fields(line: Seq<u8>) -> Option<Fields> {
    let text = trim(line);
    let cut = first_index_of(text, SPACE);
    let verb = text.take(cut);
    let rest = if cut < text.len() {
        Some(text.skip(cut + 1))
    } else {
        None
    };
    if line.len() > MAX_LINE_LEN {
        None
    } else if is_verb(verb, get_word()) {
        single_key(Verb::Get, rest)
    } else if is_verb(verb, set_word()) {
        match rest {
            Some(args) => {
                let cut2 = first_index_of(args, SPACE);
                let field = if cut2 < args.len() {
                    args.skip(cut2 + 1)
                } else {
                    Seq::empty()
                };
                Some(
                    Fields {
                        verb: Verb::Put,
                        key: args.take(cut2),
                        value: decode_request_value_spec(field),
                    },
                )
            },
            None => None,
        }
    } else if is_verb(verb, delete_word()) {
        single_key(Verb::Delete, rest)
    } else if is_verb(verb, compact_word()) {
        if rest is None {
            Some(Fields { verb: Verb::Compact, key: Seq::empty(), value: Seq::empty() })
        } else {
            None
        }
    } else {
        None
    }
}

/// The request that fields with a key of valid UTF-8 stand for.
pub open spec fn request_of(fields: Fields) -> Request {
    match fields.verb {
        Verb::Get => Request::Get { key: decode_utf8(fields.key) },
        Verb::Put => Request::Put { key: decode_utf8(fields.key), value: fields.value },
        Verb::Delete => Request::Delete { key: decode_utf8(fields.key) },
        Verb::Compact => Request::Compact,
    }
}

/// The request that a line stands for, if it stands for one: the line has
/// the form of a request and its key is valid UTF-8.
pub open spec fn parse_request(line: Seq<u8>) -> Option<Request> {
    match request_fields(line) {
        Some(fields) => if valid_utf8(fields.key) {
            Some(request_of(fields))
        } else {
            None
        },
        None => None,
    }
}

/// The number of white-space bytes at the start of `line`.
pub open spec fn leading_spaces(line: Seq<u8>) -> nat
    decreases line.len(),
{
    if line.len() > 0 && is_space_byte(line[0]) {
        1 + leading_spaces(line.drop_first())
    } else {
        0
    }
}

/// The number of white-space bytes at the end of `line`.
pub open spec fn trailing_spaces(line: Seq<u8>) -> nat
    decreases line.len(),
{
    if line.len() > 0 && is_space_byte(line.last()) {
        1 + trailing_spaces(line.drop_last())
    } else {
        0
    }
}

/// Trimming the start drops the leading white space and nothing else.
pub proof fn lemma_trim_start(line: Seq<u8>)
    ensures
        leading_spaces(line) <= line.len(),
        trim_start(line) == line.skip(leading_spaces(line) as int),
        leading_spaces(line) > 0 ==> is_space_byte(line[leading_spaces(line) - 1]),
    decreases line.len(),
{
    if line.len() > 0 && is_space_byte(line[0]) {
        let rest = line.drop_first();
        lemma_trim_start(rest);
        assert(rest.skip(leading_spaces(rest) as int) =~= line.skip(leading_spaces(line) as int));
        if leading_spaces(rest) > 0 {
            assert(rest[leading_spaces(rest) - 1] == line[leading_spaces(line) - 1]);
        }
    } else {
        assert(line.skip(0) =~= line);
    }
}

/// Trimming the end drops the trailing white space and nothing else.
pub proof fn lemma_trim_end(line: Seq<u8>)
    ensures
        trailing_spaces(line) <= line.len(),
        trim_end(line) == line.take(line.len() - trailing_spaces(line)),
        trailing_spaces(line) > 0 ==> is_space_byte(line[line.len() - trailing_spaces(line)]),
    decreases line.len(),
{
    if line.len() > 0 && is_space_byte(line.last()) {
        let rest = line.drop_last();
        lemma_trim_end(rest);
        assert(rest.take(rest.len() - trailing_spaces(rest)) =~= line.take(
            line.len() - trailing_spaces(line),
        ));
        if trailing_spaces(rest) > 0 {
            assert(rest[rest.len() - trailing_spaces(rest)] == line[line.len() - trailing_spaces(
                line,
            )]);
        }
    } else {
        assert(line.take(line.len() as int) =~= line);
    }
}

/// In a line of valid UTF-8 the key of a request is valid UTF-8 too, so
/// that a line of text is a request whenever it has the form of one.
pub proof fn lemma_text_has_text_keys(line: Seq<u8>)
    requires
        valid_utf8(line),
    ensures
        request_fields(line) is Some ==> valid_utf8(request_fields(line)->0.key),
        parse_request(line) is Some <==> request_fields(line) is Some,
{
    lemma_trim_start(line);
    let start = leading_spaces(line) as int;
    let middle = line.skip(start);
    lemma_trim_end(middle);
    let end = line.len() - trailing_spaces(middle);
    let text = trim(line);
    assert(text =~= line.subrange(start, end));
    if trailing_spaces(middle) > 0 {
        assert(middle[middle.len() - trailing_spaces(middle)] == line[end]);
    }
    lemma_first_index_of(text, SPACE);
    let cut = first_index_of(text, SPACE);
    if request_fields(line) is Some {
        let fields = request_fields(line)->0;
        match fields.verb {
            Verb::Compact => {
                assert(fields.key =~= Seq::<u8>::empty());
            },
            Verb::Put => {
                let args = text.skip(cut + 1);
                lemma_first_index_of(args, SPACE);
                let cut2 = first_index_of(args, SPACE);
                let from = start + cut + 1;
                assert(text[cut] == line[start + cut]);
                assert(args.take(cut2) =~= line.subrange(from, from + cut2));
                if cut2 < args.len() {
                    assert(args[cut2] == line[from + cut2]);
                }
                lemma_ascii_delimited_is_utf8(line, from, from + cut2);
            },
            _ => {
                let from = start + cut + 1;
                assert(text[cut] == line[start + cut]);
                assert(text.skip(cut + 1) =~= line.subrange(from, end));
                lemma_ascii_delimited_is_utf8(line, from, end);
            },
        }
    }
}

/// Whether `b` is ASCII white space.
fn is_space(b: u8) -> (space: bool)
    ensures
        space == is_space_byte(b),
{
    b == 0x20 || b == 0x09 || b == 0x0a || b == 0x0c || b == 0x0d
}

/// The bounds of `line` without the white space at either end.
pub(crate) fn trim_bounds(line: &[u8]) -> (bounds: (usize, usize))
    ensures
        bounds.0 <= bounds.1 <= line@.len(),
        line@.subrange(bounds.0 as int, bounds.1 as int) == trim(line@),
{
    let mut start: usize = 0;
    proof {
        assert(line@.skip(0) =~= line@);
    }
    while start < line.len() && is_space(line[start])
        invariant
            start <= line@.len(),
            trim_start(line@) == trim_start(line@.skip(start as int)),
        decreases line@.len() - start,
    {
        proof {
            assert(line@.skip(start as int).drop_first() =~= line@.skip(start as int + 1));
        }
        start = start + 1;
    }
    let ghost rest = line@.skip(start as int);
    assert(trim_start(line@) == rest);
    let mut end: usize = line.len();
    proof {
        assert(line@.subrange(start as int, end as int) =~= rest);
    }
    while end > start && is_space(line[end - 1])
        invariant
            start <= end <= line@.len(),
            trim_end(rest) == trim_end(line@.subrange(start as int, end as int)),
        decreases end - start,
    {
        proof {
            assert(line@.subrange(start as int, end as int).drop_last() =~= line@.subrange(
                start as int,
                end as int - 1,
            ));
        }
        end = end - 1;
    }
    (start, end)
}

/// The upper-case form of an ASCII letter; any other byte is itself.
fn to_upper(b: u8) -> (u: u8)
    ensures
        u == upper(b),
{
    if 0x61 <= b && b <= 0x7a {
        b - 0x20
    } else {
        b
    }
}

/// Whether the first `len` bytes of `text` are `word` without regard to
/// case.
fn verb_matches(text: &[u8], len: usize, word: &[u8]) -> (found: bool)
    requires
        len <= text@.len(),
    ensures
        found == is_verb(text@.take(len as int), word@),
{
    if len != word.len() {
        return false;
    }
    let mut i: usize = 0;
    while i < len
        invariant
            i <= len == word@.len(),
            len <= text@.len(),
            forall|j: int| 0 <= j < i ==> upper(text@[j]) == word@[j],
        decreases len - i,
    {
        if to_upper(text[i]) != word[i] {
            proof {
                assert(text@.take(len as int)[i as int] == text@[i as int]);
            }
            return false;
        }
        i = i + 1;
    }
    true
}

/// A word of three bytes.
fn word3(a: u8, b: u8, c: u8) -> (word: Vec<u8>)
    ensures
        word@ == seq![a, b, c],
{
    let mut word: Vec<u8> = Vec::new();
    word.push(a);
    word.push(b);
    word.push(c);
    proof {
        assert(word@ =~= seq![a, b, c]);
    }
    word
}

/// The verb `DELETE`, as bytes.
fn delete_word_bytes() -> (word: Vec<u8>)
    ensures
        word@ == delete_word(),
{
    let mut word = word3(0x44u8, 0x45u8, 0x4cu8);
    word.push(0x45u8);
    word.push(0x54u8);
    word.push(0x45u8);
    proof {
        assert(word@ =~= delete_word());
    }
    word
}

/// The verb `COMPACT`, as bytes.
fn compact_word_bytes() -> (word: Vec<u8>)
    ensures
        word@ == compact_word(),
{
    let mut word = word3(0x43u8, 0x4fu8, 0x4du8);
    word.push(0x50u8);
    word.push(0x41u8);
    word.push(0x43u8);
    word.push(0x54u8);
    proof {
        assert(word@ =~= compact_word());
    }
    word
}

/// The key that is the only argument of a request.
fn parse_single_key(text: &[u8], cut: usize) -> (key: Option<String>)
    requires
        cut <= text@.len(),
    ensures
        key is Some <==> cut < text@.len() && lacks_byte(text@.skip(cut as int + 1), SPACE)
            && valid_utf8(text@.skip(cut as int + 1)),
        key is Some ==> key->0@ == decode_utf8(text@.skip(cut as int + 1)),
{
    broadcast use vstd::utf8::encode_utf8_decode_utf8;

    if cut >= text.len() {
        return None;
    }
    let ghost rest = text@.skip(cut as int + 1);
    let space = find_byte(text, cut + 1, SPACE);
    proof {
        lemma_first_index_of(rest, SPACE);
    }
    if space < text.len() {
        return None;
    }
    let bytes = copy_range(text, cut + 1, text.len());
    proof {
        assert(bytes@ =~= rest);
    }
    string_from_utf8(bytes)
}

/// Parses a request line given as bytes.
pub fn parse_bytes(line: &[u8]) -> (command: Option<Command>)
    ensures
        command is Some <==> parse_request(line@) is Some,
        command is Some ==> parse_request(line@) == Some(command->0@),
{
    broadcast use vstd::utf8::encode_utf8_decode_utf8;

    if line.len() > MAX_LINE_LEN {
        return None;
    }
    let (start, end) = trim_bounds(line);
    let text = vstd::slice::slice_subrange(line, start, end);
    proof {
        assert(text@.skip(0) =~= text@);
        lemma_first_index_of(text@, SPACE);
    }
    let cut = find_byte(text, 0, SPACE);
    if verb_matches(text, cut, word3(0x47u8, 0x45u8, 0x54u8).as_slice()) {
        match parse_single_key(text, cut) {
            Some(key) => Some(Command::Get(key)),
            None => None,
        }
    } else if verb_matches(text, cut, word3(0x53u8, 0x45u8, 0x54u8).as_slice()) {
        if cut >= text.len() {
            return None;
        }
        let ghost args = text@.skip(cut as int + 1);
        let cut2 = find_byte(text, cut + 1, SPACE);
        proof {
            lemma_first_index_of(args, SPACE);
        }
        let key_bytes = copy_range(text, cut + 1, cut2);
        proof {
            assert(key_bytes@ =~= args.take(cut2 - cut - 1));
        }
        let key = match string_from_utf8(key_bytes) {
            Some(key) => key,
            None => {
                return None;
            },
        };
        let value = if cut2 < text.len() {
            let field = vstd::slice::slice_subrange(text, cut2 + 1, text.len());
            proof {
                assert(field@ =~= args.skip(cut2 - cut - 1 + 1));
            }
            decode_request_value(field)
        } else {
            proof {
                assert(!crate::text::has_prefix(
                    Seq::<u8>::empty(),
                    crate::encoding::base64_marker(),
                ));
            }
            Vec::new()
        };
        Some(Command::Put(key, value))
    } else if verb_matches(text, cut, delete_word_bytes().as_slice()) {
        match parse_single_key(text, cut) {
            Some(key) => Some(Command::Delete(key)),
            None => None,
        }
    } else if verb_matches(text, cut, compact_word_bytes().as_slice()) {
        if cut >= text.len() {
            Some(Command::Compact)
        } else {
            None
        }
    } else {
        None
    }
}

/// Parse a command from a string: the line is a command whenever it has
/// the form of one.
pub fn parse_command(line: &str) -> (command: Option<Command>)
    ensures
        command is Some <==> request_fields(encode_utf8(line@)) is Some,
        command is Some ==> parse_request(encode_utf8(line@)) == Some(command->0@),
        command is None ==> parse_request(encode_utf8(line@)) is None,
{
    proof {
        vstd::utf8::encode_utf8_valid_utf8(line@);
        lemma_text_has_text_keys(encode_utf8(line@));
    }
    parse_bytes(line.as_bytes())
}

/// Whether every byte of `value` is a printable ASCII character or ASCII
/// white space, the newline included.
pub open spec fn is_text(value: Seq<u8>) -> bool {
    forall|i: int| 0 <= i < value.len() ==> is_plain_byte(#[trigger] value[i]) || value[i] == NEWLINE
}

/// The text that shows a request to a reader: the verb in lower case and
/// the arguments, a value that is not text shown as `[binary data]`.
pub open spec fn request_text(request: Request) -> Seq<u8> {
    match request {
        Request::Get { key } => encode_utf8("get "@) + encode_utf8(key),
        Request::Put { key, value } => encode_utf8("set "@) + encode_utf8(key) + encode_utf8(" "@)
            + (if is_text(value) {
            value
        } else {
            encode_utf8("[binary data]"@)
        }),
        Request::Delete { key } => encode_utf8("delete "@) + encode_utf8(key),
        Request::Compact => encode_utf8("compact"@),
    }
}

/// Whether every byte of `value` is text.
fn is_text_value(value: &[u8]) -> (text: bool)
    ensures
        text == is_text(value@),
{
    let mut i: usize = 0;
    while i < value.len()
        invariant
            i <= value@.len(),
            forall|j: int| 0 <= j < i ==> is_plain_byte(#[trigger] value@[j]) || value@[j] == NEWLINE,
        decreases value@.len() - i,
    {
        let b = value[i];
        let text = (0x21 <= b && b <= 0x7e) || b == 0x20 || b == 0x09 || b == 0x0c || b == 0x0d || b
            == 0x0a;
        if !text {
            return false;
        }
        i = i + 1;
    }
    true
}

/// The text whose UTF-8 form is `bytes`, which are valid UTF-8.
fn text_of(bytes: Vec<u8>) -> (text: String)
    requires
        valid_utf8(bytes@),
    ensures
        encode_utf8(text@) == bytes@,
{
    match string_from_utf8(bytes) {
        Some(text) => text,
        None => String::new(),
    }
}

impl Command {
    /// The text that shows the command to a reader.
    pub fn to_string(&self) -> (text: String)
        ensures
            encode_utf8(text@) == request_text(self@),
    {
        broadcast use vstd::utf8::encode_utf8_valid_utf8, vstd::utf8::valid_utf8_concat;

        let mut bytes: Vec<u8> = Vec::new();
        match self {
            Command::Get(key) => {
                append_bytes(&mut bytes, "get ".as_bytes());
                append_bytes(&mut bytes, key.as_str().as_bytes());
                proof {
                    assert(bytes@ =~= request_text(self@));
                }
            },
            Command::Put(key, value) => {
                append_bytes(&mut bytes, "set ".as_bytes());
                append_bytes(&mut bytes, key.as_str().as_bytes());
                append_bytes(&mut bytes, " ".as_bytes());
                let ghost head = bytes@;
                proof {
                    assert(head =~= encode_utf8("set "@) + encode_utf8(key@) + encode_utf8(" "@));
                    assert(valid_utf8(encode_utf8("set "@) + encode_utf8(key@)));
                    assert(valid_utf8(head));
                }
                if is_text_value(value.as_slice()) {
                    append_bytes(&mut bytes, value.as_slice());
                    proof {
                        assert(is_ascii_bytes(value@));
                        lemma_ascii_is_utf8(value@);
                    }
                } else {
                    append_bytes(&mut bytes, "[binary data]".as_bytes());
                }
                proof {
                    assert(bytes@ =~= request_text(self@));
                }
            },
            Command::Delete(key) => {
                append_bytes(&mut bytes, "delete ".as_bytes());
                append_bytes(&mut bytes, key.as_str().as_bytes());
                proof {
                    assert(bytes@ =~= request_text(self@));
                }
            },
            Command::Compact => {
                append_bytes(&mut bytes, "compact".as_bytes());
                proof {
                    assert(bytes@ =~= request_text(self@));
                }
            },
        }
        text_of(bytes)
    }
}

/// A response, as a mathematical value.
pub enum Reply {
    /// The operation succeeded.
    Done,
    /// The operation succeeded and yields a value.
    Value { value: Seq<u8> },
    /// The key holds no value.
    NotFound,
    /// The operation failed for the reason given.
    Error { reason: Seq<char> },
}

/// Responses that the server sends to a client.
#[derive(Debug)]
pub enum Response {
    /// Operation successful.
    Done,
    /// Operation successful with a value.
    Value(Vec<u8>),
    /// Key not found.
    NotFound,
    /// Error occurred.
    Error(String),
}

impl View for Response {
    type V = Reply;

    open spec fn view(&self) -> Reply {
        match self {
            Response::Done => Reply::Done,
            Response::Value(value) => Reply::Value { value: value@ },
            Response::NotFound => Reply::NotFound,
            Response::Error(reason) => Reply::Error { reason: reason@ },
        }
    }
}

/// The line of a response, without the newline that ends it.
pub open spec fn response_line(reply: Reply) -> Seq<u8> {
    match reply {
        Reply::Done => encode_utf8("OK"@),
        Reply::Value { value } => encode_utf8("VALUE "@) + encode_value_spec(value),
        Reply::NotFound => encode_utf8("NOT_FOUND"@),
        Reply::Error { reason } => encode_utf8("ERROR "@) + encode_utf8(reason),
    }
}

/// The line of a response that carries the value whose field is `field`,
/// without the newline.
pub fn value_line(field: &[u8]) -> (line: Vec<u8>)
    ensures
        line@ == encode_utf8("VALUE "@) + field@,
        is_ascii_bytes(field@) ==> valid_utf8(line@),
{
    broadcast use vstd::utf8::encode_utf8_valid_utf8, vstd::utf8::valid_utf8_concat;

    let mut line: Vec<u8> = Vec::new();
    append_bytes(&mut line, "VALUE ".as_bytes());
    append_bytes(&mut line, field);
    proof {
        assert(line@ =~= encode_utf8("VALUE "@) + field@);
        if is_ascii_bytes(field@) {
            lemma_ascii_is_utf8(field@);
        }
    }
    line
}

impl Response {
    /// Whether the value of the response, if it has one, is short enough
    /// for its base64 text to have a length.
    pub open spec fn encodable(&self) -> bool {
        match self {
            Response::Value(value) => base64_encodable(value@.len()),
            _ => true,
        }
    }

    /// The line of the response as bytes, without the newline.
    pub fn to_bytes(&self) -> (line: Vec<u8>)
        requires
            self.encodable(),
        ensures
            line@ == response_line(self@),
            valid_utf8(line@),
    {
        broadcast use vstd::utf8::encode_utf8_valid_utf8, vstd::utf8::valid_utf8_concat;

        let mut line: Vec<u8> = Vec::new();
        match self {
            Response::Done => {
                append_bytes(&mut line, "OK".as_bytes());
            },
            Response::Value(value) => {
                let field = encode_value(value.as_slice());
                line = value_line(field.as_slice());
            },
            Response::NotFound => {
                append_bytes(&mut line, "NOT_FOUND".as_bytes());
            },
            Response::Error(reason) => {
                append_bytes(&mut line, "ERROR ".as_bytes());
                append_bytes(&mut line, reason.as_str().as_bytes());
            },
        }
        proof {
            assert(line@ =~= response_line(self@));
        }
        line
    }

    /// The line of the response, without the newline.
    pub fn to_string(&self) -> (line: String)
        requires
            self.encodable(),
        ensures
            encode_utf8(line@) == response_line(self@),
    {
        text_of(self.to_bytes())
    }
}

} // verus!
