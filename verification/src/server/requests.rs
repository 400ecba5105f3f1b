//! Requests: what a request line does to the store, what is answered, and
//! what has to happen to the log file.

use crate::encoding::{looks_encoded, MAX_VALUE_SIZE};
use crate::error::{overflow_text, StoreError};
use crate::key::valid_key;
use crate::protocol::{parse_command, parse_request, Command, Reply, Request, Response};
use crate::storage::compaction::{image_spec, plain_safe};
use crate::storage::index::{
    lemma_position_of, pairs_map, pairs_put, pairs_remove, position_of, Pair,
};
use crate::storage::log::{written_len, Record, MAX_LOG_SIZE};
use crate::storage::replay::written_line;
use crate::storage::Database;
use vstd::prelude::*;
use vstd::utf8::encode_utf8;

verus! {


/// What the caller has to do to the log file after a request, as a
/// mathematical value.
pub enum LogChange {
    /// Nothing.
    Nothing,
    /// Append the bytes and make them durable.
    Append { line: Seq<u8> },
    /// Append the bytes and make them durable, then replace the log by the
    /// image.
    AppendThenRewrite { line: Seq<u8>, image: Seq<u8> },
    /// Replace the log by the image.
    Rewrite { image: Seq<u8> },
}

/// What the caller has to do to the log file after a request.
#[derive(Debug)]
pub enum Effect {
    /// Nothing.
    Nothing,
    /// Append the bytes and make them durable.
    Append(Vec<u8>),
    /// Append the bytes and make them durable, then replace the log by the
    /// image.
    AppendThenRewrite(Vec<u8>, Vec<u8>),
    /// Replace the log by the image.
    Rewrite(Vec<u8>),
}

impl View for Effect {
    type V = LogChange;

    open spec fn view(&self) -> LogChange {
        match self {
            Effect::Nothing => LogChange::Nothing,
            Effect::Append(line) => LogChange::Append { line: line@ },
            Effect::AppendThenRewrite(line, image) => LogChange::AppendThenRewrite {
                line: line@,
                image: image@,
            },
            Effect::Rewrite(image) => LogChange::Rewrite { image: image@ },
        }
    }
}

/// The answer to a request and what it asks of the log file.
#[derive(Debug)]
pub struct Outcome {
    /// The response to send.
    pub response: Response,
    /// The change to make to the log file before the response is sent.
    pub effect: Effect,
}

/// One step of the store: the reply, the change to the log, and the state
/// that the request leaves.
pub struct Step {
    /// The reply to the request.
    pub reply: Reply,
    /// The change to the log file.
    pub change: LogChange,
    /// The entries after the request.
    pub pairs: Seq<Pair>,
    /// The tracked length of the log after the request.
    pub size: nat,
}

/// The step that refuses a request and leaves everything as it is.
pub open spec fn refuse(pairs: Seq<Pair>, size: nat, reason: Seq<char>) -> Step {
    Step { reply: Reply::Error { reason }, change: LogChange::Nothing, pairs, size }
}

/// The step of a mutation that appends `record`.
///
/// A line that would take the log beyond `usize` is refused. One that
/// takes it beyond the threshold of compaction is appended and the log then
/// replaced by the image of the new state.
pub open spec fn append_step(
    old_pairs: Seq<Pair>,
    new_pairs: Seq<Pair>,
    size: nat,
    record: Record,
) -> Step {
    let line = written_line(record);
    let len = written_len(record);
    if size + len > usize::MAX {
        refuse(old_pairs, size, overflow_text())
    } else if size + len > MAX_LOG_SIZE {
        Step {
            reply: Reply::Done,
            change: LogChange::AppendThenRewrite { line, image: image_spec(new_pairs) },
            pairs: new_pairs,
            size: image_spec(new_pairs).len(),
        }
    } else {
        Step {
            reply: Reply::Done,
            change: LogChange::Append { line },
            pairs: new_pairs,
            size: size + len,
        }
    }
}

/// The step that a request takes from the state `pairs` with a log of
/// `size` bytes.
pub open spec fn step(pairs: Seq<Pair>, size: nat, request: Request) -> Step {
    match request {
        Request::Get { key } => Step {
            reply: if pairs_map(pairs).contains_key(key) {
                Reply::Value { value: pairs_map(pairs)[key] }
            } else {
                Reply::NotFound
            },
            change: LogChange::Nothing,
            pairs,
            size,
        },
        Request::Put { key, value } => if !valid_key(key) {
            refuse(pairs, size, StoreError::InvalidKey.message())
        } else if value.len() > MAX_VALUE_SIZE {
            refuse(pairs, size, StoreError::ValueTooLarge.message())
        } else {
            append_step(
                pairs,
                pairs_put(pairs, key, value),
                size,
                Record::Put { key, value },
            )
        },
        Request::Delete { key } => if !valid_key(key) {
            refuse(pairs, size, StoreError::InvalidKey.message())
        } else if !pairs_map(pairs).contains_key(key) {
            Step { reply: Reply::Done, change: LogChange::Nothing, pairs, size }
        } else {
            append_step(
                pairs,
                pairs_remove(pairs, key),
                size,
                Record::Delete { key },
            )
        },
        Request::Compact => Step {
            reply: Reply::Done,
            change: LogChange::Rewrite { image: image_spec(pairs) },
            pairs,
            size: image_spec(pairs).len(),
        },
    }
}

/// The step of a request line: a line that is no request is refused as an
/// invalid command.
pub open spec fn line_step(pairs: Seq<Pair>, size: nat, line: Seq<u8>) -> Step {
    match parse_request(line) {
        Some(request) => step(pairs, size, request),
        None => refuse(pairs, size, StoreError::InvalidCommand.message()),
    }
}

/// The step that an outcome and the database after it stand for.
pub open spec fn taken_step(outcome: Outcome, db: Database) -> Step {
    Step {
        reply: outcome.response@,
        change: outcome.effect@,
        pairs: db.pairs(),
        size: db.log_size(),
    }
}

/// What a mutation of the database came to: the bytes to append, or the
/// text of the error.
pub open spec fn mutation_view(done: Result<Vec<u8>, StoreError>) -> Result<Seq<u8>, Seq<char>> {
    match done {
        Ok(line) => Ok(line@),
        Err(error) => Err(error.message()),
    }
}

/// The step that settles a mutation which the database has carried out and
/// which left it with `pairs` and a log of `size` bytes.
pub open spec fn settle(pairs: Seq<Pair>, size: nat, done: Result<Seq<u8>, Seq<char>>) -> Step {
    match done {
        Ok(line) => if line.len() == 0 {
            Step { reply: Reply::Done, change: LogChange::Nothing, pairs, size }
        } else if size > MAX_LOG_SIZE {
            Step {
                reply: Reply::Done,
                change: LogChange::AppendThenRewrite { line, image: image_spec(pairs) },
                pairs,
                size: image_spec(pairs).len(),
            }
        } else {
            Step { reply: Reply::Done, change: LogChange::Append { line }, pairs, size }
        },
        Err(reason) => refuse(pairs, size, reason),
    }
}

/// The log once the caller has made the change to it.
pub open spec fn log_after(log: Seq<u8>, change: LogChange) -> Seq<u8> {
    match change {
        LogChange::Nothing => log,
        LogChange::Append { line } => log + line,
        LogChange::AppendThenRewrite { line, image } => image,
        LogChange::Rewrite { image } => image,
    }
}

/// Whether the database `after` mirrors every log that `before` mirrored,
/// once the caller has made the change to it.
pub open spec fn keeps_mirror(before: Database, after: Database, change: LogChange) -> bool {
    forall|log: Seq<u8>| #[trigger] before.mirrors(log) ==> after.mirrors(log_after(log, change))
}

/// Where the entries are plain-safe after a key was given a value, the
/// value does not pass for base64 text.
proof fn lemma_stored_value_is_safe(pairs: Seq<Pair>, key: Seq<char>, value: Seq<u8>)
    requires
        plain_safe(pairs_put(pairs, key, value)),
    ensures
        !looks_encoded(value),
{
    lemma_position_of(pairs, key);
    let at = position_of(pairs, key);
    assert(pairs_put(pairs, key, value)[at] == (key, value));
}

/// The outcome of a mutation that the database has answered.
fn after_mutation(db: &mut Database, done: Result<Vec<u8>, StoreError>) -> (outcome: Outcome)
    requires
        old(db).wf(),
    ensures
        final(db).wf(),
        outcome.response.encodable(),
        taken_step(outcome, *final(db)) == settle(
            old(db).pairs(),
            old(db).log_size(),
            mutation_view(done),
        ),
        plain_safe(old(db).pairs()) && outcome.effect@ is AppendThenRewrite ==> final(db).mirrors(
            outcome.effect@->AppendThenRewrite_image,
        ),
{
    match done {
        Ok(line) => {
            if line.len() == 0 {
                Outcome { response: Response::Done, effect: Effect::Nothing }
            } else if db.needs_compaction() {
                let image = db.compact();
                Outcome { response: Response::Done, effect: Effect::AppendThenRewrite(line, image) }
            } else {
                Outcome { response: Response::Done, effect: Effect::Append(line) }
            }
        },
        Err(error) => Outcome {
            response: Response::Error(error.to_string()),
            effect: Effect::Nothing,
        },
    }
}

/// Carries out a command on the database and says what to answer and what
/// to do to the log file.
pub fn execute(db: &mut Database, command: &Command) -> (outcome: Outcome)
    requires
        old(db).wf(),
    ensures
        final(db).wf(),
        outcome.response.encodable(),
        taken_step(outcome, *final(db)) == step(old(db).pairs(), old(db).log_size(), command@),
        plain_safe(final(db).pairs()) ==> keeps_mirror(*old(db), *final(db), outcome.effect@),
{
    let ghost before = *old(db);
    match command {
        Command::Get(key) => {
            match db.get(key.as_str()) {
                Some(value) => Outcome { response: Response::Value(value), effect: Effect::Nothing },
                None => Outcome { response: Response::NotFound, effect: Effect::Nothing },
            }
        },
        Command::Put(key, value) => {
            let done = db.set(key.as_str(), value.as_slice());
            let ghost middle = *db;
            let outcome = after_mutation(db, done);
            proof {
                if plain_safe(db.pairs()) && done is Ok {
                    lemma_stored_value_is_safe(before.pairs(), key@, value@);
                    assert forall|log: Seq<u8>| #[trigger] before.mirrors(log) implies db.mirrors(
                        log_after(log, outcome.effect@),
                    ) by {
                        assert(middle.mirrors(log + done->Ok_0@));
                    }
                }
            }
            outcome
        },
        Command::Delete(key) => {
            let done = db.delete(key.as_str());
            let ghost middle = *db;
            let outcome = after_mutation(db, done);
            proof {
                if plain_safe(db.pairs()) && done is Ok {
                    assert forall|log: Seq<u8>| #[trigger] before.mirrors(log) implies db.mirrors(
                        log_after(log, outcome.effect@),
                    ) by {
                        assert(middle.mirrors(log + done->Ok_0@));
                        assert(log + Seq::<u8>::empty() =~= log);
                    }
                }
            }
            outcome
        },
        Command::Compact => {
            let image = db.compact();
            Outcome { response: Response::Done, effect: Effect::Rewrite(image) }
        },
    }
}

/// Answers one request line: the line is parsed and the command carried
/// out; a line that is no request is answered with an error.
pub fn handle_line(db: &mut Database, line: &str) -> (outcome: Outcome)
    requires
        old(db).wf(),
    ensures
        final(db).wf(),
        outcome.response.encodable(),
        taken_step(outcome, *final(db)) == line_step(
            old(db).pairs(),
            old(db).log_size(),
            encode_utf8(line@),
        ),
        plain_safe(final(db).pairs()) ==> keeps_mirror(*old(db), *final(db), outcome.effect@),
{
    match parse_command(line) {
        Some(command) => execute(db, &command),
        None => Outcome {
            response: Response::Error(StoreError::InvalidCommand.to_string()),
            effect: Effect::Nothing,
        },
    }
}

} // verus!
