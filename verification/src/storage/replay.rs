//! Replay: from the bytes of a log to its records, and from the records to
//! the state they leave.
//!
//! The log is cut at its newlines. A line that is no record is passed over,
//! and so is what follows the last newline. The records are applied from
//! the left: a `Put` stores, a `Delete` removes, and removing what is not
//! there changes nothing.

use crate::storage::index::{
    distinct_keys, lemma_pairs_put, lemma_pairs_remove, pairs_map, pairs_put, pairs_remove,
    valid_pairs, Index, Pair,
};
use crate::storage::log::{
    faithful_record, parse_line, record_line, valid_record, LogEntry, Record,
};
use crate::text::{first_index_of, lacks_byte, lemma_first_index_is, lemma_first_index_of, NEWLINE};
use vstd::prelude::*;

verus! {

/// The records of a log, in the order of their lines.
pub open spec fn replay_spec(log: Seq<u8>) -> Seq<Record>
    decreases log.len(),
{
    let end = first_index_of(log, NEWLINE);
    if end < 0 || end >= log.len() {
        Seq::empty()
    } else {
        let rest = replay_spec(log.skip(end + 1));
        match parse_line(log.take(end)) {
            Some(record) => seq![record] + rest,
            None => rest,
        }
    }
}

/// The number of whole lines of a log that are no records.
pub open spec fn corrupt_count(log: Seq<u8>) -> nat
    decreases log.len(),
{
    let end = first_index_of(log, NEWLINE);
    if end < 0 || end >= log.len() {
        0
    } else {
        let rest = corrupt_count(log.skip(end + 1));
        match parse_line(log.take(end)) {
            Some(record) => rest,
            None => rest + 1,
        }
    }
}

/// Whether the log is empty or ends with a newline, so that what is
/// appended starts a line of its own.
pub open spec fn terminated(log: Seq<u8>) -> bool {
    log.len() == 0 || log.last() == NEWLINE
}

/// The line of a record with the newline that ends it: what an append
/// writes.
pub open spec fn written_line(record: Record) -> Seq<u8> {
    record_line(record).push(NEWLINE)
}

/// The log that holds the lines of `records` and nothing else.
pub open spec fn log_of(records: Seq<Record>) -> Seq<u8>
    decreases records.len(),
{
    if records.len() == 0 {
        Seq::empty()
    } else {
        log_of(records.drop_last()) + written_line(records.last())
    }
}

/// The state after one record.
pub open spec fn apply_record(state: Map<Seq<char>, Seq<u8>>, record: Record) -> Map<
    Seq<char>,
    Seq<u8>,
> {
    match record {
        Record::Put { key, value } => state.insert(key, value),
        Record::Delete { key } => state.remove(key),
    }
}

/// The state after `records`, applied to `state` from the left.
pub open spec fn state_after(state: Map<Seq<char>, Seq<u8>>, records: Seq<Record>) -> Map<
    Seq<char>,
    Seq<u8>,
>
    decreases records.len(),
{
    if records.len() == 0 {
        state
    } else {
        apply_record(state_after(state, records.drop_last()), records.last())
    }
}

/// The state that opening a log recovers.
pub open spec fn recovered_state(log: Seq<u8>) -> Map<Seq<char>, Seq<u8>> {
    state_after(Map::empty(), replay_spec(log))
}

/// The entries of the index after one record.
pub open spec fn apply_to_pairs(pairs: Seq<Pair>, record: Record) -> Seq<Pair> {
    match record {
        Record::Put { key, value } => pairs_put(pairs, key, value),
        Record::Delete { key } => pairs_remove(pairs, key),
    }
}

/// The entries of the index after `records`, applied to `pairs` from the
/// left.
pub open spec fn pairs_after(pairs: Seq<Pair>, records: Seq<Record>) -> Seq<Pair>
    decreases records.len(),
{
    if records.len() == 0 {
        pairs
    } else {
        apply_to_pairs(pairs_after(pairs, records.drop_last()), records.last())
    }
}

/// The entries of the index that opening a log recovers.
pub open spec fn recovered_pairs(log: Seq<u8>) -> Seq<Pair> {
    pairs_after(Seq::empty(), replay_spec(log))
}

/// Whether every record of the sequence is valid.
pub open spec fn valid_records(records: Seq<Record>) -> bool {
    forall|i: int| 0 <= i < records.len() ==> valid_record(#[trigger] records[i])
}

/// Whether the line of every record of the sequence reads back as the
/// record.
pub open spec fn faithful_records(records: Seq<Record>) -> bool {
    forall|i: int| 0 <= i < records.len() ==> faithful_record(#[trigger] records[i])
}

/// The records that a vector of entries stands for.
pub open spec fn entry_views(entries: Seq<LogEntry>) -> Seq<Record> {
    Seq::new(entries.len(), |i: int| entries[i]@)
}

/// A log that begins with a whole line replays as that line's record, if
/// it is one, followed by the records of the rest.
pub proof fn lemma_replay_first_line(line: Seq<u8>, rest: Seq<u8>)
    requires
        lacks_byte(line, NEWLINE),
    ensures
        replay_spec(line.push(NEWLINE) + rest) == (match parse_line(line) {
            Some(record) => seq![record] + replay_spec(rest),
            None => replay_spec(rest),
        }),
{
    let log = line.push(NEWLINE) + rest;
    lemma_first_index_is(log, NEWLINE, line.len() as int);
    assert(log.take(line.len() as int) =~= line);
    assert(log.skip(line.len() as int + 1) =~= rest);
}

/// What is appended to a terminated log replays after what the log holds.
pub proof fn lemma_replay_append(log: Seq<u8>, more: Seq<u8>)
    requires
        terminated(log),
    ensures
        replay_spec(log + more) == replay_spec(log) + replay_spec(more),
    decreases log.len(),
{
    if log.len() == 0 {
        assert(log + more =~= more);
        assert(replay_spec(log) + replay_spec(more) =~= replay_spec(more));
    } else {
        lemma_first_index_of(log, NEWLINE);
        let end = first_index_of(log, NEWLINE);
        assert(end < log.len()) by {
            if end >= log.len() {
                assert(log[log.len() - 1] != NEWLINE);
            }
        }
        let whole = log + more;
        lemma_first_index_is(whole, NEWLINE, end);
        assert(whole.take(end) =~= log.take(end));
        assert(whole.skip(end + 1) =~= log.skip(end + 1) + more);
        let tail = log.skip(end + 1);
        if tail.len() > 0 {
            assert(tail.last() == log.last());
        }
        lemma_replay_append(tail, more);
        match parse_line(log.take(end)) {
            Some(record) => {
                assert(seq![record] + (replay_spec(tail) + replay_spec(more)) =~= (seq![record]
                    + replay_spec(tail)) + replay_spec(more));
            },
            None => {},
        }
    }
}

/// Appending the line of a record to a terminated log adds that record, and
/// nothing else, to what the log replays, and leaves the log terminated.
pub proof fn lemma_replay_written(log: Seq<u8>, record: Record)
    requires
        terminated(log),
        faithful_record(record),
    ensures
        replay_spec(log + written_line(record)) == replay_spec(log).push(record),
        terminated(log + written_line(record)),
{
    let line = record_line(record);
    lemma_replay_append(log, written_line(record));
    lemma_replay_first_line(line, Seq::empty());
    assert(line.push(NEWLINE) + Seq::<u8>::empty() =~= written_line(record));
    assert(replay_spec(Seq::<u8>::empty()) =~= Seq::<Record>::empty());
    assert(seq![record] + Seq::<Record>::empty() =~= seq![record]);
    assert(replay_spec(log) + seq![record] =~= replay_spec(log).push(record));
}

/// Whether appending `line` to any terminated log adds exactly `record` to
/// what the log replays, and leaves the log terminated.
pub open spec fn appends_record(line: Seq<u8>, record: Record) -> bool {
    forall|log: Seq<u8>|
        terminated(log) ==> #[trigger] replay_spec(log + line) == replay_spec(log).push(record)
            && terminated(log + line)
}

/// The written line of a faithful record appends that record to any
/// terminated log.
pub proof fn lemma_faithful_appends(record: Record)
    requires
        faithful_record(record),
    ensures
        appends_record(written_line(record), record),
{
    assert forall|log: Seq<u8>| terminated(log) implies #[trigger] replay_spec(
        log + written_line(record),
    ) == replay_spec(log).push(record) && terminated(log + written_line(record)) by {
        lemma_replay_written(log, record);
    }
}

/// A piece that appends a record to a terminated log makes the log
/// recover what the record makes of the state it recovered before.
pub proof fn lemma_recovered_after_append(log: Seq<u8>, piece: Seq<u8>, record: Record)
    requires
        terminated(log),
        appends_record(piece, record),
    ensures
        terminated(log + piece),
        recovered_pairs(log + piece) == apply_to_pairs(recovered_pairs(log), record),
        recovered_state(log + piece) == apply_record(recovered_state(log), record),
{
    assert(replay_spec(log + piece) == replay_spec(log).push(record));
    assert(replay_spec(log).push(record).drop_last() =~= replay_spec(log));
}

/// A log made of the lines of records is terminated.
pub proof fn lemma_log_of_terminated(records: Seq<Record>)
    ensures
        terminated(log_of(records)),
{
    if records.len() > 0 {
        assert(log_of(records).last() == written_line(records.last()).last());
    }
}

/// A log made of the lines of records replays as those records.
pub proof fn lemma_replay_log_of(records: Seq<Record>)
    requires
        faithful_records(records),
    ensures
        replay_spec(log_of(records)) == records,
        terminated(log_of(records)),
    decreases records.len(),
{
    if records.len() == 0 {
        assert(replay_spec(Seq::<u8>::empty()) =~= Seq::<Record>::empty());
        assert(records =~= Seq::<Record>::empty());
    } else {
        let front = records.drop_last();
        assert(faithful_records(front)) by {
            assert forall|i: int| 0 <= i < front.len() implies faithful_record(
                #[trigger] front[i],
            ) by {
                assert(front[i] == records[i]);
            }
        }
        lemma_replay_log_of(front);
        lemma_replay_written(log_of(front), records.last());
        assert(front.push(records.last()) =~= records);
    }
}

/// Applying records to the entries of the index keeps the keys distinct,
/// stands for applying them to the mapping, and keeps the entries valid
/// where the records are.
pub proof fn lemma_pairs_after(pairs: Seq<Pair>, records: Seq<Record>)
    requires
        distinct_keys(pairs),
    ensures
        distinct_keys(pairs_after(pairs, records)),
        pairs_map(pairs_after(pairs, records)) == state_after(pairs_map(pairs), records),
        valid_pairs(pairs) && valid_records(records) ==> valid_pairs(pairs_after(pairs, records)),
    decreases records.len(),
{
    if records.len() > 0 {
        let front = records.drop_last();
        lemma_pairs_after(pairs, front);
        if valid_records(records) {
            assert forall|i: int| 0 <= i < front.len() implies valid_record(
                #[trigger] front[i],
            ) by {
                assert(front[i] == records[i]);
            }
            assert(valid_record(records[records.len() - 1]));
        }
        match records.last() {
            Record::Put { key, value } => {
                lemma_pairs_put(pairs_after(pairs, front), key, value);
            },
            Record::Delete { key } => {
                lemma_pairs_remove(pairs_after(pairs, front), key);
            },
        }
    }
}

/// Reads the records of a log, in the order of their lines.
///
/// A line that is no record is passed over, and so is what follows the last
/// newline.
pub fn replay(data: &[u8]) -> (entries: Vec<LogEntry>)
    ensures
        entry_views(entries@) == replay_spec(data@),
        valid_records(replay_spec(data@)),
{
    let mut entries: Vec<LogEntry> = Vec::new();
    let mut pos: usize = 0;
    proof {
        assert(data@.skip(0) =~= data@);
        assert(entry_views(entries@) + replay_spec(data@) =~= replay_spec(data@));
    }
    loop
        invariant
            pos <= data@.len(),
            replay_spec(data@) == entry_views(entries@) + replay_spec(data@.skip(pos as int)),
            valid_records(entry_views(entries@)),
        ensures
            replay_spec(data@) == entry_views(entries@),
            valid_records(entry_views(entries@)),
        decreases data@.len() - pos,
    {
        let end = find_newline(data, pos);
        let ghost tail = data@.skip(pos as int);
        if end >= data.len() {
            proof {
                assert(replay_spec(tail) =~= Seq::<Record>::empty());
                assert(entry_views(entries@) + Seq::<Record>::empty() =~= entry_views(entries@));
            }
            break;
        }
        let line = vstd::slice::slice_subrange(data, pos, end);
        proof {
            assert(tail.take(end - pos) =~= line@);
            assert(tail.skip(end - pos + 1) =~= data@.skip(end + 1));
        }
        let ghost before = entry_views(entries@);
        match LogEntry::from_bytes(line) {
            Some(entry) => {
                entries.push(entry);
                proof {
                    assert(entry_views(entries@) =~= before.push(entry@));
                    assert(before + (seq![entry@] + replay_spec(data@.skip(end + 1)))
                        =~= before.push(entry@) + replay_spec(data@.skip(end + 1)));
                }
            },
            None => {},
        }
        pos = end + 1;
    }
    entries
}

/// The length of the log up to and with its last newline: the part that is
/// made of whole lines.
pub open spec fn whole_lines_len(log: Seq<u8>) -> int
    decreases log.len(),
{
    if log.len() == 0 {
        0
    } else if log.last() == NEWLINE {
        log.len() as int
    } else {
        whole_lines_len(log.drop_last())
    }
}

/// The whole lines of a log are terminated, what follows them has no
/// newline, and they replay as the log does.
pub proof fn lemma_whole_lines(log: Seq<u8>)
    ensures
        0 <= whole_lines_len(log) <= log.len(),
        terminated(log.take(whole_lines_len(log))),
        lacks_byte(log.skip(whole_lines_len(log)), NEWLINE),
        replay_spec(log.take(whole_lines_len(log))) == replay_spec(log),
    decreases log.len(),
{
    let keep = whole_lines_len(log);
    if log.len() == 0 {
    } else if log.last() == NEWLINE {
        assert(log.take(keep) =~= log);
    } else {
        let front = log.drop_last();
        lemma_whole_lines(front);
        assert(log.take(keep) =~= front.take(keep));
        assert forall|i: int| 0 <= i < log.skip(keep).len() implies log.skip(keep)[i]
            != NEWLINE by {
            if i < front.skip(keep).len() {
                assert(log.skip(keep)[i] == front.skip(keep)[i]);
            }
        }
    }
    let head = log.take(keep);
    let tail = log.skip(keep);
    assert(head + tail =~= log);
    lemma_replay_append(head, tail);
    lemma_first_index_of(tail, NEWLINE);
    assert(replay_spec(tail) =~= Seq::<Record>::empty());
    assert(replay_spec(head) + Seq::<Record>::empty() =~= replay_spec(head));
}

/// The length of the log up to and with its last newline. What follows is
/// the rest of a line that was never finished; a log cut to this length
/// is terminated and replays as before.
pub fn terminated_len(data: &[u8]) -> (keep: usize)
    ensures
        keep == whole_lines_len(data@),
        keep <= data@.len(),
        terminated(data@.take(keep as int)),
        replay_spec(data@.take(keep as int)) == replay_spec(data@),
{
    let mut keep: usize = data.len();
    proof {
        assert(data@.take(data@.len() as int) =~= data@);
    }
    while keep > 0 && data[keep - 1] != NEWLINE
        invariant
            keep <= data@.len(),
            whole_lines_len(data@) == whole_lines_len(data@.take(keep as int)),
        decreases keep,
    {
        proof {
            assert(data@.take(keep as int).drop_last() =~= data@.take(keep as int - 1));
        }
        keep = keep - 1;
    }
    proof {
        lemma_whole_lines(data@);
    }
    keep
}

/// Counts the whole lines of a log that are no records: the lines that
/// replay passes over.
pub fn count_corrupt_lines(data: &[u8]) -> (count: usize)
    ensures
        count == corrupt_count(data@),
{
    let mut count: usize = 0;
    let mut pos: usize = 0;
    proof {
        assert(data@.skip(0) =~= data@);
    }
    loop
        invariant
            pos <= data@.len(),
            count <= pos,
            corrupt_count(data@) == count + corrupt_count(data@.skip(pos as int)),
        ensures
            corrupt_count(data@) == count,
        decreases data@.len() - pos,
    {
        let end = find_newline(data, pos);
        let ghost tail = data@.skip(pos as int);
        if end >= data.len() {
            break;
        }
        let line = vstd::slice::slice_subrange(data, pos, end);
        proof {
            assert(tail.take(end - pos) =~= line@);
            assert(tail.skip(end - pos + 1) =~= data@.skip(end + 1));
        }
        if LogEntry::from_bytes(line).is_none() {
            count = count + 1;
        }
        pos = end + 1;
    }
    count
}

/// The position of the first newline at or after `from`, or the length of
/// `data`.
fn find_newline(data: &[u8], from: usize) -> (at: usize)
    requires
        from <= data@.len(),
    ensures
        at == from + first_index_of(data@.skip(from as int), NEWLINE),
        from <= at <= data@.len(),
{
    crate::text::find_byte(data, from, NEWLINE)
}

/// Recovers the index from the bytes of a log: the records are read and
/// applied from the left to an empty index.
pub fn recover(data: &[u8]) -> (index: Index)
    ensures
        index.wf(),
        index.pairs() == recovered_pairs(data@),
        index@ == recovered_state(data@),
{
    let entries = replay(data);
    let mut index = Index::new();
    let mut i: usize = 0;
    let ghost records = entry_views(entries@);
    proof {
        assert(records.take(0) =~= Seq::<Record>::empty());
    }
    while i < entries.len()
        invariant
            i <= entries@.len(),
            records == entry_views(entries@),
            valid_records(records),
            index.wf(),
            index.pairs() == pairs_after(Seq::empty(), records.take(i as int)),
        decreases entries@.len() - i,
    {
        proof {
            assert(records[i as int] == entries@[i as int]@);
            assert(valid_record(records[i as int]));
            assert(records.take(i as int + 1).drop_last() =~= records.take(i as int));
        }
        let done = index.apply(&entries[i]);
        i = i + 1;
    }
    proof {
        assert(records.take(records.len() as int) =~= records);
        lemma_pairs_after(Seq::empty(), records);
        assert(pairs_map(Seq::<Pair>::empty()) =~= Map::<Seq<char>, Seq<u8>>::empty());
    }
    index
}

} // verus!
