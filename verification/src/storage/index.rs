//! The in-memory index: which key holds which value.
//!
//! The index keeps its entries in the order in which their keys were first
//! stored, no key twice. `pairs` is that list and the view is the mapping
//! it stands for.

use crate::encoding::MAX_VALUE_SIZE;
use crate::error::StoreError;
use crate::key::{is_valid_key, valid_key};
use crate::storage::compaction::{
    image_spec, lemma_image_push, lemma_image_recovers, plain_safe, put_records,
};
use crate::storage::log::{faithful_record, put_line, LogEntry, Record};
use crate::storage::replay::{
    apply_to_pairs, faithful_records, lemma_log_of_terminated, recovered_pairs, terminated,
};
use crate::text::{append_bytes, copy_range, NEWLINE};
use vstd::prelude::*;
use vstd::string::StringExecFns;

verus! {

/// A key and the value it holds.
pub type Pair = (Seq<char>, Seq<u8>);

/// The position of the first pair with `key`, or the length of `pairs`
/// where there is none.
pub open spec fn position_of(pairs: Seq<Pair>, key: Seq<char>) -> int
    decreases pairs.len(),
{
    if pairs.len() == 0 {
        0
    } else if pairs[0].0 == key {
        0
    } else {
        1 + position_of(pairs.drop_first(), key)
    }
}

/// Whether no key occurs twice in `pairs`.
pub open spec fn distinct_keys(pairs: Seq<Pair>) -> bool {
    forall|i: int, j: int| 0 <= i < j < pairs.len() ==> pairs[i].0 != pairs[j].0
}

/// Whether every pair has an acceptable key and a value within the limit.
pub open spec fn valid_pairs(pairs: Seq<Pair>) -> bool {
    forall|i: int|
        0 <= i < pairs.len() ==> valid_key((#[trigger] pairs[i]).0) && pairs[i].1.len()
            <= MAX_VALUE_SIZE
}

/// The mapping that a list of pairs stands for: each key with the value of
/// its first pair.
pub open spec fn pairs_map(pairs: Seq<Pair>) -> Map<Seq<char>, Seq<u8>> {
    Map::new(
        |key: Seq<char>| position_of(pairs, key) < pairs.len(),
        |key: Seq<char>| pairs[position_of(pairs, key)].1,
    )
}

/// The list after `key` is given `value`: in place where the key is there,
/// at the end where it is not.
pub open spec fn pairs_put(pairs: Seq<Pair>, key: Seq<char>, value: Seq<u8>) -> Seq<Pair> {
    let at = position_of(pairs, key);
    if at < pairs.len() {
        pairs.update(at, (key, value))
    } else {
        pairs.push((key, value))
    }
}

/// The list after `key` is taken out, the others keeping their order.
pub open spec fn pairs_remove(pairs: Seq<Pair>, key: Seq<char>) -> Seq<Pair> {
    let at = position_of(pairs, key);
    if at < pairs.len() {
        pairs.remove(at)
    } else {
        pairs
    }
}

/// `position_of` is within the list, no pair before it has the key, and
/// its pair has the key unless it is the end.
pub proof fn lemma_position_of(pairs: Seq<Pair>, key: Seq<char>)
    ensures
        0 <= position_of(pairs, key) <= pairs.len(),
        forall|i: int| 0 <= i < position_of(pairs, key) ==> pairs[i].0 != key,
        position_of(pairs, key) < pairs.len() ==> pairs[position_of(pairs, key)].0 == key,
    decreases pairs.len(),
{
    if pairs.len() > 0 && pairs[0].0 != key {
        let rest = pairs.drop_first();
        lemma_position_of(rest, key);
        assert forall|i: int| 0 <= i < position_of(pairs, key) implies pairs[i].0 != key by {
            if i > 0 {
                assert(pairs[i] == rest[i - 1]);
            }
        }
    }
}

/// A position whose pair has the key, with no such pair before it, is the
/// position of the key.
pub proof fn lemma_position_is(pairs: Seq<Pair>, key: Seq<char>, at: int)
    requires
        0 <= at <= pairs.len(),
        forall|i: int| 0 <= i < at ==> pairs[i].0 != key,
        at < pairs.len() ==> pairs[at].0 == key,
    ensures
        position_of(pairs, key) == at,
{
    lemma_position_of(pairs, key);
    let found = position_of(pairs, key);
    if found < at {
        assert(pairs[found].0 == key);
    }
}

/// Giving a key a value keeps the keys distinct and valid, and stands for
/// the insertion into the mapping.
pub proof fn lemma_pairs_put(pairs: Seq<Pair>, key: Seq<char>, value: Seq<u8>)
    requires
        distinct_keys(pairs),
    ensures
        distinct_keys(pairs_put(pairs, key, value)),
        pairs_map(pairs_put(pairs, key, value)) == pairs_map(pairs).insert(key, value),
        valid_pairs(pairs) && valid_key(key) && value.len() <= MAX_VALUE_SIZE ==> valid_pairs(
            pairs_put(pairs, key, value),
        ),
{
    let after = pairs_put(pairs, key, value);
    let at = position_of(pairs, key);
    lemma_position_of(pairs, key);
    lemma_position_is(after, key, at);
    let target = pairs_map(pairs).insert(key, value);
    assert forall|other: Seq<char>|
        #![trigger pairs_map(after).dom().contains(other)]
        #![trigger target.dom().contains(other)]
        #![trigger pairs_map(after)[other]]
        #![trigger target[other]]
        pairs_map(after).dom().contains(other) == target.dom().contains(other) && (
        target.dom().contains(other) ==> pairs_map(after)[other] == target[other]) by {
        lemma_position_of(pairs, other);
        if other != key {
            if position_of(pairs, other) < pairs.len() {
                lemma_position_is(after, other, position_of(pairs, other));
            } else {
                lemma_position_is(after, other, after.len() as int);
            }
        }
    }
    assert(pairs_map(after) =~= target);
}

/// Taking a key out keeps the keys distinct and valid, and stands for the
/// removal from the mapping.
pub proof fn lemma_pairs_remove(pairs: Seq<Pair>, key: Seq<char>)
    requires
        distinct_keys(pairs),
    ensures
        distinct_keys(pairs_remove(pairs, key)),
        pairs_map(pairs_remove(pairs, key)) == pairs_map(pairs).remove(key),
        valid_pairs(pairs) ==> valid_pairs(pairs_remove(pairs, key)),
{
    let after = pairs_remove(pairs, key);
    let at = position_of(pairs, key);
    lemma_position_of(pairs, key);
    if at < pairs.len() {
        assert forall|i: int| 0 <= i < after.len() implies after[i].0 != key by {
            if i < at {
            } else {
                assert(after[i] == pairs[i + 1]);
            }
        }
        lemma_position_is(after, key, after.len() as int);
        assert forall|other: Seq<char>| other != key implies position_of(after, other) == (if position_of(
            pairs,
            other,
        ) < at {
            position_of(pairs, other)
        } else {
            position_of(pairs, other) - 1
        }) by {
            lemma_position_of(pairs, other);
            let p = position_of(pairs, other);
            if p < at {
                lemma_position_is(after, other, p);
            } else {
                assert forall|i: int| 0 <= i < p - 1 implies after[i].0 != other by {
                    if i >= at {
                        assert(after[i] == pairs[i + 1]);
                    }
                }
                lemma_position_is(after, other, p - 1);
            }
        }
        assert(pairs_map(after) =~= pairs_map(pairs).remove(key)) by {
            assert forall|other: Seq<char>|
                pairs_map(after).contains_key(other) <==> pairs_map(pairs).remove(
                    key,
                ).contains_key(other) by {
                lemma_position_of(pairs, other);
            }
            assert forall|other: Seq<char>| pairs_map(after).contains_key(other) implies pairs_map(
                after,
            )[other] == pairs_map(pairs).remove(key)[other] by {
                lemma_position_of(pairs, other);
            }
        }
    } else {
        assert(pairs_map(after) =~= pairs_map(pairs).remove(key));
    }
}

/// One entry of the index.
struct Entry {
    key: String,
    value: Vec<u8>,
}

/// The mapping from keys to values that answers reads.
pub struct Index {
    entries: Vec<Entry>,
}

impl View for Index {
    type V = Map<Seq<char>, Seq<u8>>;

    open spec fn view(&self) -> Map<Seq<char>, Seq<u8>> {
        pairs_map(self.pairs())
    }
}

impl Index {
    /// The entries in their order, as pairs of key and value.
    pub closed spec fn pairs(&self) -> Seq<Pair> {
        Seq::new(self.entries@.len(), |i: int| (self.entries@[i].key@, self.entries@[i].value@))
    }

    /// Whether the index is well formed: no key twice, every key acceptable
    /// and every value within the limit.
    pub open spec fn wf(&self) -> bool {
        distinct_keys(self.pairs()) && valid_pairs(self.pairs())
    }

    /// An index without entries.
    pub fn new() -> (index: Index)
        ensures
            index.wf(),
            index.pairs() == Seq::<Pair>::empty(),
            index@ == Map::<Seq<char>, Seq<u8>>::empty(),
    {
        let index = Index { entries: Vec::new() };
        proof {
            assert(index.pairs() =~= Seq::<Pair>::empty());
            assert(index@ =~= Map::<Seq<char>, Seq<u8>>::empty());
        }
        index
    }

    /// The number of entries.
    pub fn len(&self) -> (n: usize)
        ensures
            n == self.pairs().len(),
    {
        self.entries.len()
    }

    /// Whether the index has no entry.
    pub fn is_empty(&self) -> (empty: bool)
        ensures
            empty == (self.pairs().len() == 0),
    {
        self.entries.len() == 0
    }

    /// The position of the entry with `key`, or the number of entries.
    fn find(&self, key: &String) -> (at: usize)
        ensures
            at == position_of(self.pairs(), key@),
            at <= self.entries@.len(),
    {
        let mut at: usize = 0;
        while at < self.entries.len() && !(self.entries[at].key == *key)
            invariant
                at <= self.entries@.len(),
                forall|i: int| 0 <= i < at ==> self.pairs()[i].0 != key@,
            decreases self.entries@.len() - at,
        {
            at = at + 1;
        }
        proof {
            lemma_position_is(self.pairs(), key@, at as int);
        }
        at
    }

    /// The value that `key` holds, as a copy.
    pub fn get(&self, key: &str) -> (value: Option<Vec<u8>>)
        ensures
            value is Some <==> self@.contains_key(key@),
            value is Some ==> value->0@ == self@[key@],
            value is Some && self.wf() ==> value->0@.len() <= MAX_VALUE_SIZE,
    {
        let owned = String::from_str(key);
        let at = self.find(&owned);
        if at < self.entries.len() {
            let stored = &self.entries[at].value;
            let copy = copy_range(stored.as_slice(), 0, stored.len());
            proof {
                assert(copy@ =~= stored@);
                assert(self.pairs()[at as int].1 == stored@);
            }
            Some(copy)
        } else {
            None
        }
    }

    /// Whether `key` holds a value.
    pub fn contains_key(&self, key: &str) -> (found: bool)
        ensures
            found == self@.contains_key(key@),
    {
        let owned = String::from_str(key);
        self.find(&owned) < self.entries.len()
    }

    /// Gives `key` the value `value`.
    ///
    /// A key that is not acceptable, or a value beyond the limit, is
    /// refused and leaves the index as it was.
    pub fn insert(&mut self, key: &str, value: &[u8]) -> (done: Result<(), StoreError>)
        requires
            old(self).wf(),
        ensures
            final(self).wf(),
            !valid_key(key@) ==> done == Err::<(), StoreError>(StoreError::InvalidKey),
            valid_key(key@) && value@.len() > MAX_VALUE_SIZE ==> done == Err::<(), StoreError>(
                StoreError::ValueTooLarge,
            ),
            valid_key(key@) && value@.len() <= MAX_VALUE_SIZE ==> done is Ok,
            done is Ok ==> final(self).pairs() == pairs_put(old(self).pairs(), key@, value@),
            done is Ok ==> final(self)@ == old(self)@.insert(key@, value@),
            done is Err ==> final(self).pairs() == old(self).pairs(),
    {
        if !is_valid_key(key) {
            return Err(StoreError::InvalidKey);
        }
        if value.len() > MAX_VALUE_SIZE {
            return Err(StoreError::ValueTooLarge);
        }
        let owned = String::from_str(key);
        let copy = copy_range(value, 0, value.len());
        proof {
            assert(copy@ =~= value@);
            lemma_pairs_put(self.pairs(), key@, value@);
        }
        let at = self.find(&owned);
        let entry = Entry { key: owned, value: copy };
        if at < self.entries.len() {
            self.entries[at] = entry;
        } else {
            self.entries.push(entry);
        }
        proof {
            assert(self.pairs() =~= pairs_put(old(self).pairs(), key@, value@));
        }
        Ok(())
    }

    /// Takes `key` out of the index; says whether it held a value.
    pub fn remove(&mut self, key: &str) -> (found: bool)
        requires
            old(self).wf(),
        ensures
            final(self).wf(),
            found == old(self)@.contains_key(key@),
            final(self).pairs() == pairs_remove(old(self).pairs(), key@),
            final(self)@ == old(self)@.remove(key@),
    {
        let owned = String::from_str(key);
        let at = self.find(&owned);
        proof {
            lemma_pairs_remove(self.pairs(), key@);
        }
        if at < self.entries.len() {
            self.entries.remove(at);
            proof {
                assert(self.pairs() =~= pairs_remove(old(self).pairs(), key@));
            }
            true
        } else {
            false
        }
    }

    /// Applies one record of the log: a `Put` stores, a `Delete` removes.
    ///
    /// A `Put` that the index cannot hold is refused as `insert` refuses
    /// it; a `Delete` always succeeds.
    pub fn apply(&mut self, entry: &LogEntry) -> (done: Result<(), StoreError>)
        requires
            old(self).wf(),
        ensures
            final(self).wf(),
            done is Ok <==> (entry@ is Delete || crate::storage::log::valid_record(entry@)),
            done is Ok ==> final(self).pairs() == apply_to_pairs(old(self).pairs(), entry@),
            done is Err ==> final(self).pairs() == old(self).pairs(),
    {
        match entry {
            LogEntry::Put(key, value) => self.insert(key.as_str(), value.as_slice()),
            LogEntry::Delete(key) => {
                self.remove(key.as_str());
                Ok(())
            },
        }
    }

    /// The image of the index: one `Put` line for each entry, in their
    /// order.
    ///
    /// Opening the image recovers the entries as they are, unless a value
    /// is plain and yet begins with the marker.
    pub fn image(&self) -> (image: Vec<u8>)
        requires
            self.wf(),
        ensures
            image@ == image_spec(self.pairs()),
            terminated(image@),
            plain_safe(self.pairs()) ==> recovered_pairs(image@) == self.pairs(),
    {
        let mut image: Vec<u8> = Vec::new();
        let mut i: usize = 0;
        let ghost pairs = self.pairs();
        proof {
            assert(put_records(pairs.take(0)) =~= Seq::<Record>::empty());
        }
        while i < self.entries.len()
            invariant
                self.wf(),
                pairs == self.pairs(),
                i <= self.entries@.len(),
                pairs.len() == self.entries@.len(),
                image@ == image_spec(pairs.take(i as int)),
                plain_safe(pairs) ==> faithful_records(put_records(pairs.take(i as int))),
            decreases self.entries@.len() - i,
        {
            let entry = &self.entries[i];
            proof {
                assert(pairs[i as int] == (entry.key@, entry.value@));
                assert(valid_key(pairs[i as int].0) && pairs[i as int].1.len() <= MAX_VALUE_SIZE);
            }
            let line = put_line(entry.key.as_str(), entry.value.as_slice());
            append_bytes(&mut image, line.as_slice());
            image.push(NEWLINE);
            proof {
                let before = pairs.take(i as int);
                let after = pairs.take(i as int + 1);
                assert(after =~= before.push(pairs[i as int]));
                lemma_image_push(before, pairs[i as int]);
                assert(image@ =~= image_spec(before) + line@.push(NEWLINE));
                if plain_safe(pairs) {
                    assert(!crate::encoding::looks_encoded(pairs[i as int].1));
                    assert forall|j: int| 0 <= j < put_records(after).len() implies faithful_record(
                        #[trigger] put_records(after)[j],
                    ) by {
                        if j < i {
                            assert(put_records(after)[j] == put_records(before)[j]);
                        }
                    }
                }
            }
            i = i + 1;
        }
        proof {
            assert(pairs.take(pairs.len() as int) =~= pairs);
            lemma_log_of_terminated(put_records(pairs));
            if plain_safe(pairs) {
                lemma_image_recovers(pairs);
            }
        }
        image
    }
}

} // verus!
