//! The storage engine: the log's records, the index, and the database that
//! binds them.
//!
//! The database holds the index and the book-keeping of the log. A mutation
//! hands out the bytes that the caller appends to the log file; opening
//! takes the bytes of the log file and recovers the state they stand for.

pub mod compaction;
pub mod index;
pub mod log;
pub mod replay;

pub use index::Index;
pub use log::{LogEntry, LogFile};

use crate::encoding::{looks_encoded, MAX_VALUE_SIZE};
use crate::error::{overflow_error, overflow_text, StoreError};
use crate::key::{is_valid_key, valid_key};
use crate::storage::compaction::{image_spec, lemma_image_step, plain_safe};
use crate::storage::index::{
    distinct_keys, pairs_map, pairs_put, pairs_remove, valid_pairs, Pair,
};
use crate::storage::log::{
    delete_line, faithful_record, put_line, written_len, Record, MAX_LOG_SIZE,
};
use crate::storage::replay::{
    appends_record, lemma_faithful_appends, lemma_recovered_after_append, recovered_pairs,
    recovered_state, terminated, written_line,
};
use crate::text::NEWLINE;
use vstd::prelude::*;

verus! {

/// The key-value store: an index that answers reads, and the length of the
/// log that backs it.
pub struct Database {
    index: Index,
    log: LogFile,
}

impl View for Database {
    type V = Map<Seq<char>, Seq<u8>>;

    open spec fn view(&self) -> Map<Seq<char>, Seq<u8>> {
        pairs_map(self.pairs())
    }
}

impl Database {
    /// The entries in the order in which their keys were first stored.
    pub closed spec fn pairs(&self) -> Seq<Pair> {
        self.index.pairs()
    }

    /// The tracked length of the log, in bytes.
    pub closed spec fn log_size(&self) -> nat {
        self.log.size_spec()
    }

    /// Whether the database is well formed: no key twice, every key
    /// acceptable and every value within the limit.
    pub open spec fn wf(&self) -> bool {
        distinct_keys(self.pairs()) && valid_pairs(self.pairs())
    }

    /// Whether the log is at least as long as the image of the state, so
    /// that compaction cannot lengthen it.
    pub open spec fn tight(&self) -> bool {
        image_spec(self.pairs()).len() <= self.log_size()
    }

    /// Whether `log` is made of whole lines and recovers exactly the
    /// entries of the database: the database mirrors the log.
    pub open spec fn mirrors(&self, log: Seq<u8>) -> bool {
        terminated(log) && recovered_pairs(log) == self.pairs()
    }

    /// Whether the database mirrors every log that `before` mirrored, once
    /// `piece` has been appended to it.
    pub open spec fn follows(&self, before: Database, piece: Seq<u8>) -> bool {
        forall|log: Seq<u8>| #[trigger] before.mirrors(log) ==> self.mirrors(log + piece)
    }

    /// An empty database on an empty log.
    pub fn new() -> (db: Database)
        ensures
            db.wf(),
            db.tight(),
            db.pairs() == Seq::<Pair>::empty(),
            db@ == Map::<Seq<char>, Seq<u8>>::empty(),
            db.log_size() == 0,
            db.mirrors(Seq::empty()),
    {
        let db = Database { index: Index::new(), log: LogFile::with_size(0) };
        proof {
            assert(crate::storage::replay::replay_spec(Seq::<u8>::empty()) =~= Seq::<
                Record,
            >::empty());
            assert(db@ =~= Map::<Seq<char>, Seq<u8>>::empty());
            assert(crate::storage::compaction::put_records(Seq::<Pair>::empty()) =~= Seq::<
                Record,
            >::empty());
        }
        db
    }

    /// Recovers the database from the bytes of its log: the records are
    /// replayed from the left into an empty index.
    pub fn open(data: &[u8]) -> (db: Database)
        ensures
            db.wf(),
            db.pairs() == recovered_pairs(data@),
            db@ == recovered_state(data@),
            db.log_size() == data@.len(),
            terminated(data@) ==> db.mirrors(data@),
    {
        Database { index: crate::storage::replay::recover(data), log: LogFile::with_size(data.len()) }
    }

    /// The value that `key` holds, as a copy.
    pub fn get(&self, key: &str) -> (value: Option<Vec<u8>>)
        ensures
            value is Some <==> self@.contains_key(key@),
            value is Some ==> value->0@ == self@[key@],
            value is Some && self.wf() ==> value->0@.len() <= MAX_VALUE_SIZE,
    {
        self.index.get(key)
    }

    /// The tracked length of the log, in bytes.
    pub fn size(&self) -> (size: usize)
        ensures
            size == self.log_size(),
    {
        self.log.size()
    }

    /// Whether the log has grown beyond the threshold of compaction.
    pub fn needs_compaction(&self) -> (due: bool)
        ensures
            due == (self.log_size() > MAX_LOG_SIZE),
    {
        self.log.needs_compaction()
    }

    /// Gives `key` the value `value` and hands out the bytes that the
    /// caller appends to the log: the line of the record and its newline.
    ///
    /// The line reads back as the record unless the value is plain and yet
    /// begins with the marker. On an error nothing has changed.
    pub fn set(&mut self, key: &str, value: &[u8]) -> (done: Result<Vec<u8>, StoreError>)
        requires
            old(self).wf(),
        ensures
            final(self).wf(),
            !valid_key(key@) ==> done == Err::<Vec<u8>, StoreError>(StoreError::InvalidKey),
            valid_key(key@) && value@.len() > MAX_VALUE_SIZE ==> done == Err::<
                Vec<u8>,
                StoreError,
            >(StoreError::ValueTooLarge),
            valid_key(key@) && value@.len() <= MAX_VALUE_SIZE && old(self).log_size()
                + written_len(Record::Put { key: key@, value: value@ }) > usize::MAX
                ==> done is Err && done->Err_0.is_io(overflow_text()),
            valid_key(key@) && value@.len() <= MAX_VALUE_SIZE && old(self).log_size()
                + written_len(Record::Put { key: key@, value: value@ }) <= usize::MAX
                ==> done is Ok,
            done is Ok ==> {
                &&& done->Ok_0@ == written_line(Record::Put { key: key@, value: value@ })
                &&& done->Ok_0@.len() == written_len(Record::Put { key: key@, value: value@ })
                &&& final(self).pairs() == pairs_put(old(self).pairs(), key@, value@)
                &&& final(self)@ == old(self)@.insert(key@, value@)
                &&& final(self).log_size() == old(self).log_size() + done->Ok_0@.len()
                &&& !looks_encoded(value@) ==> faithful_record(
                    Record::Put { key: key@, value: value@ },
                )
                &&& !looks_encoded(value@) ==> appends_record(
                    done->Ok_0@,
                    Record::Put { key: key@, value: value@ },
                )
                &&& !looks_encoded(value@) ==> final(self).follows(*old(self), done->Ok_0@)
            },
            done is Err ==> final(self).pairs() == old(self).pairs() && final(self).log_size()
                == old(self).log_size(),
            old(self).tight() ==> final(self).tight(),
    {
        if !is_valid_key(key) {
            return Err(StoreError::InvalidKey);
        }
        if value.len() > MAX_VALUE_SIZE {
            return Err(StoreError::ValueTooLarge);
        }
        let mut line = put_line(key, value);
        line.push(NEWLINE);
        if !self.log.grow(line.len()) {
            return Err(overflow_error());
        }
        proof {
            lemma_image_step(self.pairs(), Record::Put { key: key@, value: value@ });
            if !looks_encoded(value@) {
                lemma_faithful_appends(Record::Put { key: key@, value: value@ });
            }
        }
        let stored = self.index.insert(key, value);
        proof {
            if !looks_encoded(value@) {
                assert forall|log: Seq<u8>| #[trigger] old(self).mirrors(log) implies self.mirrors(
                    log + line@,
                ) by {
                    lemma_recovered_after_append(
                        log,
                        line@,
                        Record::Put { key: key@, value: value@ },
                    );
                }
            }
        }
        Ok(line)
    }

    /// Takes `key` out and hands out the bytes that the caller appends to
    /// the log: the line of the record and its newline, or nothing where the
    /// key held no value.
    ///
    /// On an error nothing has changed.
    pub fn delete(&mut self, key: &str) -> (done: Result<Vec<u8>, StoreError>)
        requires
            old(self).wf(),
        ensures
            final(self).wf(),
            !valid_key(key@) ==> done == Err::<Vec<u8>, StoreError>(StoreError::InvalidKey),
            valid_key(key@) && old(self)@.contains_key(key@) && old(self).log_size()
                + written_len(Record::Delete { key: key@ }) > usize::MAX
                ==> done is Err && done->Err_0.is_io(overflow_text()),
            valid_key(key@) && !(old(self)@.contains_key(key@) && old(self).log_size()
                + written_len(Record::Delete { key: key@ }) > usize::MAX) ==> done is Ok,
            done is Ok ==> {
                &&& done->Ok_0@ == (if old(self)@.contains_key(key@) {
                    written_line(Record::Delete { key: key@ })
                } else {
                    Seq::<u8>::empty()
                })
                &&& final(self).pairs() == pairs_remove(old(self).pairs(), key@)
                &&& final(self)@ == old(self)@.remove(key@)
                &&& final(self).log_size() == old(self).log_size() + done->Ok_0@.len()
                &&& faithful_record(Record::Delete { key: key@ })
                &&& old(self)@.contains_key(key@) ==> appends_record(
                    done->Ok_0@,
                    Record::Delete { key: key@ },
                )
                &&& final(self).follows(*old(self), done->Ok_0@)
            },
            done is Err ==> final(self).pairs() == old(self).pairs() && final(self).log_size()
                == old(self).log_size(),
            old(self).tight() ==> final(self).tight(),
    {
        if !is_valid_key(key) {
            return Err(StoreError::InvalidKey);
        }
        let mut line = delete_line(key);
        if !self.index.contains_key(key) {
            proof {
                crate::storage::index::lemma_pairs_remove(self.pairs(), key@);
                crate::storage::index::lemma_position_of(self.pairs(), key@);
                assert forall|log: Seq<u8>| #[trigger] old(self).mirrors(log) implies self.mirrors(
                    log + Seq::<u8>::empty(),
                ) by {
                    assert(log + Seq::<u8>::empty() =~= log);
                }
            }
            return Ok(Vec::new());
        }
        line.push(NEWLINE);
        if !self.log.grow(line.len()) {
            return Err(overflow_error());
        }
        proof {
            lemma_image_step(self.pairs(), Record::Delete { key: key@ });
            lemma_faithful_appends(Record::Delete { key: key@ });
        }
        let found = self.index.remove(key);
        proof {
            assert forall|log: Seq<u8>| #[trigger] old(self).mirrors(log) implies self.mirrors(
                log + line@,
            ) by {
                lemma_recovered_after_append(log, line@, Record::Delete { key: key@ });
            }
        }
        Ok(line)
    }

    /// Compacts: hands out the image of the state, which is to replace the
    /// log, and takes the image's length for the log's.
    ///
    /// The state is as before. Opening the image recovers it, unless a
    /// value is plain and yet begins with the marker.
    pub fn compact(&mut self) -> (image: Vec<u8>)
        requires
            old(self).wf(),
        ensures
            final(self).wf(),
            final(self).pairs() == old(self).pairs(),
            final(self)@ == old(self)@,
            image@ == image_spec(old(self).pairs()),
            terminated(image@),
            final(self).log_size() == image@.len(),
            final(self).tight(),
            old(self).tight() ==> image@.len() <= old(self).log_size(),
            plain_safe(old(self).pairs()) ==> recovered_pairs(image@) == old(self).pairs(),
            plain_safe(old(self).pairs()) ==> final(self).mirrors(image@),
    {
        let image = self.index.image();
        self.log.reset(image.len());
        image
    }
}

} // verus!
