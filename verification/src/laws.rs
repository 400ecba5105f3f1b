//! What holds of the store as a whole.
//!
//! The laws speak of the log as bytes and of the state as a mapping. They
//! rest on what `Database::set` and `Database::delete` promise of the
//! bytes they hand out: that these append the record to any log that ends
//! with a newline. The promise is made of every record but a `Put` whose
//! value is plain and yet begins with the marker `base64:`, whose line
//! reads back as base64 text.

use crate::encoding::MAX_VALUE_SIZE;
use crate::key::valid_key;
use crate::server::requests::{step, LogChange};
use crate::protocol::{Reply, Request};
use crate::storage::compaction::{
    image_spec, lemma_compaction_not_longer, lemma_image_recovers, put_records,
};
use crate::storage::index::{
    distinct_keys, lemma_pairs_put, lemma_pairs_remove, lemma_position_of, pairs_map, pairs_put,
    pairs_remove, Pair,
};
use crate::storage::log::{record_key, written_len, Record};
use crate::storage::replay::{
    appends_record, apply_record, faithful_records, lemma_pairs_after, lemma_replay_append,
    lemma_replay_log_of, log_of, pairs_after, recovered_pairs, recovered_state, replay_spec,
    state_after, terminated,
};
use vstd::prelude::*;

verus! {

/// Applying two runs of records one after the other is applying the run
/// that holds them both.
pub proof fn lemma_state_after_concat(
    state: Map<Seq<char>, Seq<u8>>,
    first: Seq<Record>,
    second: Seq<Record>,
)
    ensures
        state_after(state, first + second) == state_after(state_after(state, first), second),
    decreases second.len(),
{
    if second.len() == 0 {
        assert(first + second =~= first);
    } else {
        assert((first + second).drop_last() =~= first + second.drop_last());
        lemma_state_after_concat(state, first, second.drop_last());
    }
}

/// The same, of the entries of the index.
pub proof fn lemma_pairs_after_concat(pairs: Seq<Pair>, first: Seq<Record>, second: Seq<Record>)
    ensures
        pairs_after(pairs, first + second) == pairs_after(pairs_after(pairs, first), second),
    decreases second.len(),
{
    if second.len() == 0 {
        assert(first + second =~= first);
    } else {
        assert((first + second).drop_last() =~= first + second.drop_last());
        lemma_pairs_after_concat(pairs, first, second.drop_last());
    }
}

/// What a run of appends has written: the pieces one after the other.
pub open spec fn written(pieces: Seq<Seq<u8>>) -> Seq<u8>
    decreases pieces.len(),
{
    if pieces.len() == 0 {
        Seq::empty()
    } else {
        written(pieces.drop_last()) + pieces.last()
    }
}

/// Replay equivalence: after any run of mutations, opening the log again
/// recovers the state that the mutations left.
///
/// `pieces` are the bytes that the mutations handed out, in their order,
/// and `records` what they did; each piece appends its record, which is
/// what `Database::set` and `Database::delete` promise of the bytes
/// they hand out.
pub proof fn law_replay_equivalence(log: Seq<u8>, pieces: Seq<Seq<u8>>, records: Seq<Record>)
    requires
        terminated(log),
        pieces.len() == records.len(),
        forall|i: int| 0 <= i < pieces.len() ==> appends_record(#[trigger] pieces[i], records[i]),
    ensures
        terminated(log + written(pieces)),
        replay_spec(log + written(pieces)) == replay_spec(log) + records,
        recovered_state(log + written(pieces)) == state_after(recovered_state(log), records),
        recovered_pairs(log + written(pieces)) == pairs_after(recovered_pairs(log), records),
    decreases pieces.len(),
{
    if pieces.len() == 0 {
        assert(log + written(pieces) =~= log);
        assert(replay_spec(log) + records =~= replay_spec(log));
    } else {
        let front = pieces.drop_last();
        let before = records.drop_last();
        assert forall|i: int| 0 <= i < front.len() implies appends_record(
            #[trigger] front[i],
            before[i],
        ) by {
            assert(front[i] == pieces[i] && before[i] == records[i]);
        }
        law_replay_equivalence(log, front, before);
        let so_far = log + written(front);
        assert(appends_record(pieces[pieces.len() - 1], records[records.len() - 1]));
        assert(so_far + pieces.last() =~= log + written(pieces));
        assert(replay_spec(so_far + pieces.last()) == replay_spec(so_far).push(records.last()));
        assert((replay_spec(log) + before).push(records.last()) =~= replay_spec(log) + records);
    }
    lemma_state_after_concat(Map::empty(), replay_spec(log), records);
    lemma_pairs_after_concat(Seq::empty(), replay_spec(log), records);
}

/// Replay equivalence, of a log that holds the lines of faithful records
/// after what it held before.
pub proof fn law_replay_of_records(log: Seq<u8>, records: Seq<Record>)
    requires
        terminated(log),
        faithful_records(records),
    ensures
        replay_spec(log + log_of(records)) == replay_spec(log) + records,
        recovered_state(log + log_of(records)) == state_after(recovered_state(log), records),
        recovered_pairs(log + log_of(records)) == pairs_after(recovered_pairs(log), records),
{
    lemma_replay_append(log, log_of(records));
    lemma_replay_log_of(records);
    lemma_state_after_concat(Map::empty(), replay_spec(log), records);
    lemma_pairs_after_concat(Seq::empty(), replay_spec(log), records);
}

/// Compaction equivalence, of the length: the image of the state that a
/// run of records leaves is no longer than the log of the records.
pub proof fn law_compaction_shrinks(records: Seq<Record>)
    ensures
        image_spec(pairs_after(Seq::empty(), records)).len() <= log_of(records).len(),
{
    lemma_compaction_not_longer(records);
}

/// Compaction equivalence, of the state: the image of the state that a run
/// of records leaves recovers that very state.
///
/// This holds where each line of the image reads back as its record, which
/// `Database::compact` establishes of the image it hands out unless a
/// value is plain and yet begins with the marker.
pub proof fn law_compaction_equivalence(records: Seq<Record>)
    requires
        faithful_records(put_records(pairs_after(Seq::empty(), records))),
    ensures
        recovered_pairs(image_spec(pairs_after(Seq::empty(), records))) == pairs_after(
            Seq::empty(),
            records,
        ),
        recovered_state(image_spec(pairs_after(Seq::empty(), records))) == state_after(
            Map::empty(),
            records,
        ),
{
    let pairs = pairs_after(Seq::empty(), records);
    lemma_pairs_after(Seq::empty(), records);
    assert(pairs_map(Seq::<Pair>::empty()) =~= Map::<Seq<char>, Seq<u8>>::empty());
    lemma_image_recovers(pairs);
    lemma_pairs_after(Seq::empty(), put_records(pairs));
}

/// Round trip of values: after a key is given a value, the key holds
/// exactly that value, whatever its bytes are. The request that stores an
/// acceptable key and a value within the limit is answered with success,
/// provided its line still fits the log, and the request that reads the key
/// is then answered with the value.
pub proof fn law_set_then_get(pairs: Seq<Pair>, size: nat, key: Seq<char>, value: Seq<u8>)
    requires
        distinct_keys(pairs),
        valid_key(key),
        value.len() <= MAX_VALUE_SIZE,
        size + written_len(Record::Put { key, value }) <= usize::MAX,
    ensures
        ({
            let first = step(pairs, size, Request::Put { key, value });
            let second = step(first.pairs, first.size, Request::Get { key });
            &&& first.reply == Reply::Done
            &&& pairs_map(first.pairs) == pairs_map(pairs).insert(key, value)
            &&& second.reply == Reply::Value { value }
            &&& second.pairs == first.pairs
        }),
        apply_record(pairs_map(pairs), Record::Put { key, value })[key] == value,
{
    lemma_pairs_put(pairs, key, value);
}

/// Delete idempotence: taking a key out twice is taking it out once, the
/// second time changes nothing and appends nothing, and the key then holds
/// no value. Both requests are answered with success, provided the line of
/// the first still fits the log.
pub proof fn law_delete_idempotent(pairs: Seq<Pair>, size: nat, key: Seq<char>)
    requires
        distinct_keys(pairs),
        valid_key(key),
        size + written_len(Record::Delete { key }) <= usize::MAX,
    ensures
        ({
            let first = step(pairs, size, Request::Delete { key });
            let second = step(first.pairs, first.size, Request::Delete { key });
            let third = step(second.pairs, second.size, Request::Get { key });
            &&& first.reply == Reply::Done
            &&& second.reply == Reply::Done
            &&& second.change == LogChange::Nothing
            &&& second.pairs == first.pairs
            &&& !pairs_map(second.pairs).contains_key(key)
            &&& third.reply == Reply::NotFound
        }),
        apply_record(
            apply_record(pairs_map(pairs), Record::Delete { key }),
            Record::Delete { key },
        ) == apply_record(pairs_map(pairs), Record::Delete { key }),
{
    lemma_pairs_remove(pairs, key);
    lemma_position_of(pairs, key);
    let first = step(pairs, size, Request::Delete { key });
    assert(first.pairs == pairs_remove(pairs, key));
    assert(pairs_map(first.pairs) =~= pairs_map(pairs).remove(key));
    assert(pairs_map(pairs).remove(key).remove(key) =~= pairs_map(pairs).remove(key));
}

/// Durability: once the bytes that a `set` handed out stand at the end of
/// the log, opening the log finds the key with the value, whatever came
/// before.
///
/// `piece` are those bytes; they append the `Put` record, which is what
/// `Database::set` promises of them.
pub proof fn law_durability(log: Seq<u8>, piece: Seq<u8>, key: Seq<char>, value: Seq<u8>)
    requires
        terminated(log),
        appends_record(piece, Record::Put { key, value }),
    ensures
        recovered_state(log + piece).contains_key(key),
        recovered_state(log + piece)[key] == value,
        recovered_state(log + piece) == recovered_state(log).insert(key, value),
        terminated(log + piece),
{
    let record = Record::Put { key, value };
    assert(replay_spec(log + piece) == replay_spec(log).push(record));
    assert(replay_spec(log).push(record).drop_last() =~= replay_spec(log));
}

/// Mutation ordering: the record that comes last in the log for a key
/// decides what the key holds. A `Put` with no later record for its key
/// leaves the key with its value, a `Delete` leaves it without one.
pub proof fn law_last_write_wins(state: Map<Seq<char>, Seq<u8>>, records: Seq<Record>, at: int)
    requires
        0 <= at < records.len(),
        forall|later: int|
            at < later < records.len() ==> record_key(#[trigger] records[later]) != record_key(
                records[at],
            ),
    ensures
        match records[at] {
            Record::Put { key, value } => state_after(state, records).contains_key(key)
                && state_after(state, records)[key] == value,
            Record::Delete { key } => !state_after(state, records).contains_key(key),
        },
    decreases records.len(),
{
    if at < records.len() - 1 {
        let front = records.drop_last();
        assert(front[at] == records[at]);
        assert forall|later: int| at < later < front.len() implies record_key(
            #[trigger] front[later],
        ) != record_key(front[at]) by {
            assert(front[later] == records[later]);
        }
        law_last_write_wins(state, front, at);
        assert(record_key(records[records.len() - 1]) != record_key(records[at]));
    }
}

/// Mutation ordering, on keys that differ: where every record is a `Put`
/// and no two have the same key, each key holds its value in the end, in
/// whatever order the records came.
pub proof fn law_disjoint_writes_visible(
    state: Map<Seq<char>, Seq<u8>>,
    records: Seq<Record>,
    at: int,
)
    requires
        0 <= at < records.len(),
        forall|i: int| 0 <= i < records.len() ==> (#[trigger] records[i]) is Put,
        forall|i: int, j: int|
            0 <= i < j < records.len() ==> record_key(records[i]) != record_key(records[j]),
    ensures
        state_after(state, records).contains_key(record_key(records[at])),
        state_after(state, records)[record_key(records[at])] == records[at]->Put_value,
{
    law_last_write_wins(state, records, at);
}

} // verus!
