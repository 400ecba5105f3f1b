//! Compaction: the shortest log that recovers a given state.
//!
//! The image of an index is the log that holds one `Put` line for each of
//! its entries, in their order, and nothing else.

use crate::encoding::looks_encoded;
use crate::storage::index::{
    distinct_keys, lemma_position_is, lemma_position_of, position_of, Pair,
};
use crate::storage::log::Record;
use crate::storage::replay::{
    apply_to_pairs, faithful_records, lemma_replay_log_of, log_of, pairs_after, recovered_pairs,
    replay_spec, written_line,
};
use vstd::prelude::*;

verus! {

/// The record that stores a pair.
pub open spec fn put_record(pair: Pair) -> Record {
    Record::Put { key: pair.0, value: pair.1 }
}

/// The records that store the pairs, in their order.
pub open spec fn put_records(pairs: Seq<Pair>) -> Seq<Record> {
    Seq::new(pairs.len(), |i: int| put_record(pairs[i]))
}

/// The image of a list of pairs: the log of the records that store them.
pub open spec fn image_spec(pairs: Seq<Pair>) -> Seq<u8> {
    log_of(put_records(pairs))
}

/// Whether no value of the pairs is plain and yet begins with the marker.
pub open spec fn plain_safe(pairs: Seq<Pair>) -> bool {
    forall|i: int| 0 <= i < pairs.len() ==> !looks_encoded((#[trigger] pairs[i]).1)
}

/// Storing pairs of distinct keys one after the other, into nothing,
/// leaves exactly those pairs, in their order.
pub proof fn lemma_put_records_rebuild(pairs: Seq<Pair>)
    requires
        distinct_keys(pairs),
    ensures
        pairs_after(Seq::empty(), put_records(pairs)) == pairs,
    decreases pairs.len(),
{
    let records = put_records(pairs);
    if pairs.len() == 0 {
        assert(pairs =~= Seq::<Pair>::empty());
    } else {
        let front = pairs.drop_last();
        assert(records.drop_last() =~= put_records(front));
        lemma_put_records_rebuild(front);
        let last = pairs.last();
        lemma_position_is(front, last.0, front.len() as int);
        assert(front.push(last) =~= pairs);
    }
}

/// The image of valid pairs of distinct keys, none of whose values passes
/// for base64 text, recovers exactly those pairs, provided each line of the
/// image reads back.
pub proof fn lemma_image_recovers(pairs: Seq<Pair>)
    requires
        distinct_keys(pairs),
        faithful_records(put_records(pairs)),
    ensures
        replay_spec(image_spec(pairs)) == put_records(pairs),
        recovered_pairs(image_spec(pairs)) == pairs,
{
    lemma_replay_log_of(put_records(pairs));
    lemma_put_records_rebuild(pairs);
}

/// The image of a list extended by a pair is the image of the list
/// followed by the line that stores the pair.
pub proof fn lemma_image_push(pairs: Seq<Pair>, pair: Pair)
    ensures
        image_spec(pairs.push(pair)) == image_spec(pairs) + written_line(put_record(pair)),
{
    let records = put_records(pairs.push(pair));
    assert(records.drop_last() =~= put_records(pairs));
    assert(records.last() == put_record(pair));
}

/// Replacing a pair changes the length of the image by the difference of
/// the two lines.
pub proof fn lemma_image_update_len(pairs: Seq<Pair>, at: int, pair: Pair)
    requires
        0 <= at < pairs.len(),
    ensures
        image_spec(pairs.update(at, pair)).len() + written_line(put_record(pairs[at])).len()
            == image_spec(pairs).len() + written_line(put_record(pair)).len(),
    decreases pairs.len(),
{
    let front = pairs.drop_last();
    lemma_image_push(front, pairs.last());
    assert(front.push(pairs.last()) =~= pairs);
    if at == pairs.len() - 1 {
        lemma_image_push(front, pair);
        assert(front.push(pair) =~= pairs.update(at, pair));
    } else {
        lemma_image_update_len(front, at, pair);
        lemma_image_push(front.update(at, pair), pairs.last());
        assert(front.update(at, pair).push(pairs.last()) =~= pairs.update(at, pair));
    }
}

/// Taking a pair out shortens the image by the line that stored it.
pub proof fn lemma_image_remove_len(pairs: Seq<Pair>, at: int)
    requires
        0 <= at < pairs.len(),
    ensures
        image_spec(pairs.remove(at)).len() + written_line(put_record(pairs[at])).len()
            == image_spec(pairs).len(),
    decreases pairs.len(),
{
    let front = pairs.drop_last();
    lemma_image_push(front, pairs.last());
    assert(front.push(pairs.last()) =~= pairs);
    if at == pairs.len() - 1 {
        assert(pairs.remove(at) =~= front);
    } else {
        lemma_image_remove_len(front, at);
        lemma_image_push(front.remove(at), pairs.last());
        assert(front.remove(at).push(pairs.last()) =~= pairs.remove(at));
    }
}

/// One record lengthens the image by no more than its own line.
pub proof fn lemma_image_step(pairs: Seq<Pair>, record: Record)
    ensures
        image_spec(apply_to_pairs(pairs, record)).len() <= image_spec(pairs).len() + written_line(
            record,
        ).len(),
{
    match record {
        Record::Put { key, value } => {
            let at = position_of(pairs, key);
            lemma_position_of(pairs, key);
            if at < pairs.len() {
                lemma_image_update_len(pairs, at, (key, value));
            } else {
                lemma_image_push(pairs, (key, value));
            }
        },
        Record::Delete { key } => {
            let at = position_of(pairs, key);
            lemma_position_of(pairs, key);
            if at < pairs.len() {
                lemma_image_remove_len(pairs, at);
            }
        },
    }
}

/// The image of the state that records leave is no longer than the log of
/// those records.
pub proof fn lemma_compaction_not_longer(records: Seq<Record>)
    ensures
        image_spec(pairs_after(Seq::empty(), records)).len() <= log_of(records).len(),
    decreases records.len(),
{
    if records.len() == 0 {
        assert(put_records(Seq::<Pair>::empty()) =~= Seq::<Record>::empty());
    } else {
        let front = records.drop_last();
        lemma_compaction_not_longer(front);
        lemma_image_step(pairs_after(Seq::empty(), front), records.last());
    }
}

} // verus!
