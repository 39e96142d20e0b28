//! Bounded exact reuse of identity-free paragraph preparation.
//!
//! Entries are keyed by the backend epoch, the projected paragraph text and
//! the remaining projection inputs, bucketed by an FNV-1a fingerprint of the
//! text, charged a caller-estimated weight, and evicted least recently used
//! first whenever a new entry would exceed the byte budget.

use vstd::prelude::*;
use vstd::std_specs::cmp::PartialEqSpec;

use std::sync::Arc;

use crate::accounting::saturate;
use crate::cache::{max_usize, SharedPreparationDiagnostics};
use crate::geometry::{fnv_fold, fnv_offset, text_fingerprint};
use crate::shared::share;

verus! {

/// Fingerprint of a paragraph text: FNV-1a over its UTF-8 encoding.
pub open spec fn text_bucket(text: Seq<char>) -> u64 {
    fnv_fold(fnv_offset(), vstd::utf8::encode_utf8(text))
}

/// Exact identity of one shared preparation.
pub struct SharedPreparationKey<K> {
    /// Backend epoch the preparation was made under.
    pub epoch: u64,
    /// Projected paragraph text.
    pub text: String,
    /// Every other projection input the preparation depends on.
    pub inputs: K,
}

/// One retained preparation.
pub struct SharedPreparationEntry<K, V> {
    /// Exact key of the preparation.
    pub key: SharedPreparationKey<K>,
    /// Bucket of the key's text.
    pub fingerprint: u64,
    /// Shared prepared value.
    pub facts: Arc<V>,
    /// Accounting charge of the entry.
    pub weight: usize,
    /// Use counter at the last insertion or hit.
    pub last_used: u64,
}

/// Cumulative activity of a shared preparation cache.
#[derive(Clone, Copy, Debug, PartialEq, Eq, Structural)]
pub struct SharedPreparationWork {
    /// Highest observed accounting charge.
    pub peak_bytes: usize,
    /// Exact hits.
    pub hits: usize,
    /// Lookups that missed.
    pub misses: usize,
    /// Entries removed to enforce the budget.
    pub evictions: usize,
    /// Values too large to retain at all.
    pub oversized_non_retentions: usize,
}

/// Bounded, epoch-scoped store of shared preparations.
pub struct SharedPreparationCache<K, V> {
    budget: usize,
    epoch: Option<u64>,
    entries: Vec<SharedPreparationEntry<K, V>>,
    resident_bytes: usize,
    work: SharedPreparationWork,
}

/// `x + 1`, saturating at the largest `usize`.
pub open spec fn bumped(x: usize) -> usize {
    saturate(x + 1) as usize
}

/// Sum of the weights of `entries`.
pub open spec fn total_weight<K, V>(entries: Seq<SharedPreparationEntry<K, V>>) -> int
    decreases entries.len(),
{
    if entries.len() == 0 {
        0
    } else {
        total_weight(entries.drop_last()) + entries.last().weight
    }
}

/// `a` was used strictly before `b`, ties broken by the smaller fingerprint.
pub open spec fn used_before<K, V>(
    a: SharedPreparationEntry<K, V>,
    b: SharedPreparationEntry<K, V>,
) -> bool {
    a.last_used < b.last_used || (a.last_used == b.last_used && a.fingerprint < b.fingerprint)
}

/// Index of the least recently used entry; among equals, the first.
pub open spec fn oldest_index<K, V>(entries: Seq<SharedPreparationEntry<K, V>>) -> int
    decreases entries.len(),
{
    if entries.len() <= 1 {
        0
    } else {
        let earlier = oldest_index(entries.drop_last());
        if used_before(entries.last(), entries[earlier]) {
            entries.len() - 1
        } else {
            earlier
        }
    }
}

/// Entries, resident charge and eviction count after evicting least
/// recently used entries until `weight` more bytes fit in `budget`.
pub open spec fn evict_until<K, V>(
    entries: Seq<SharedPreparationEntry<K, V>>,
    resident: int,
    weight: int,
    budget: int,
) -> (Seq<SharedPreparationEntry<K, V>>, int, nat)
    decreases entries.len(),
{
    let oldest = oldest_index(entries);
    if entries.len() > 0 && saturate(resident + weight) > budget && 0 <= oldest < entries.len() {
        let removed = entries[oldest].weight;
        let remaining = if resident >= removed { resident - removed } else { 0 };
        let (survivors, charge, evicted) = evict_until(
            entries.remove(oldest),
            remaining,
            weight,
            budget,
        );
        (survivors, charge, evicted + 1)
    } else {
        (entries, resident, 0)
    }
}

/// `entry` answers a lookup of `key`.
pub open spec fn answers<K: PartialEq, V>(
    entry: SharedPreparationEntry<K, V>,
    key: SharedPreparationKey<K>,
) -> bool {
    &&& entry.fingerprint == text_bucket(key.text@)
    &&& entry.key.epoch == key.epoch
    &&& entry.key.text@ == key.text@
    &&& entry.key.inputs.eq_spec(&key.inputs)
}

/// Some entry answers `key`.
pub open spec fn has_answer<K: PartialEq, V>(
    entries: Seq<SharedPreparationEntry<K, V>>,
    key: SharedPreparationKey<K>,
) -> bool {
    exists|i: int| 0 <= i < entries.len() && answers(#[trigger] entries[i], key)
}

/// `i` is the first entry that answers `key`.
pub open spec fn first_answer_at<K: PartialEq, V>(
    entries: Seq<SharedPreparationEntry<K, V>>,
    key: SharedPreparationKey<K>,
    i: int,
) -> bool {
    &&& 0 <= i < entries.len()
    &&& answers(entries[i], key)
    &&& forall|j: int| 0 <= j < i ==> !answers(#[trigger] entries[j], key)
}

/// Index of the first entry that answers `key`.
pub open spec fn first_answer<K: PartialEq, V>(
    entries: Seq<SharedPreparationEntry<K, V>>,
    key: SharedPreparationKey<K>,
) -> int {
    choose|i: int| first_answer_at(entries, key, i)
}

/// `entry` after a hit at use `current_use`.
pub open spec fn touched<K, V>(
    entry: SharedPreparationEntry<K, V>,
    current_use: u64,
) -> SharedPreparationEntry<K, V> {
    SharedPreparationEntry { last_used: current_use, ..entry }
}

proof fn lemma_first_answer_unique<K: PartialEq, V>(
    entries: Seq<SharedPreparationEntry<K, V>>,
    key: SharedPreparationKey<K>,
    i: int,
)
    requires
        first_answer_at(entries, key, i),
    ensures
        first_answer(entries, key) == i,
{
    let k = first_answer(entries, key);
    assert(first_answer_at(entries, key, k));
    if k < i {
        assert(!answers(entries[k], key));
    } else if i < k {
        assert(!answers(entries[i], key));
    }
}

proof fn lemma_oldest_in_range<K, V>(entries: Seq<SharedPreparationEntry<K, V>>)
    requires
        entries.len() > 0,
    ensures
        0 <= oldest_index(entries) < entries.len(),
    decreases entries.len(),
{
    if entries.len() > 1 {
        lemma_oldest_in_range(entries.drop_last());
    }
}

proof fn lemma_total_nonnegative<K, V>(entries: Seq<SharedPreparationEntry<K, V>>)
    ensures
        total_weight(entries) >= 0,
    decreases entries.len(),
{
    if entries.len() > 0 {
        lemma_total_nonnegative(entries.drop_last());
    }
}

proof fn lemma_total_remove<K, V>(entries: Seq<SharedPreparationEntry<K, V>>, i: int)
    requires
        0 <= i < entries.len(),
    ensures
        total_weight(entries.remove(i)) + entries[i].weight == total_weight(entries),
    decreases entries.len(),
{
    if i == entries.len() - 1 {
        assert(entries.remove(i) =~= entries.drop_last());
    } else {
        lemma_total_remove(entries.drop_last(), i);
        assert(entries.remove(i).drop_last() =~= entries.drop_last().remove(i));
    }
}

proof fn lemma_total_update<K, V>(
    entries: Seq<SharedPreparationEntry<K, V>>,
    i: int,
    entry: SharedPreparationEntry<K, V>,
)
    requires
        0 <= i < entries.len(),
        entry.weight == entries[i].weight,
    ensures
        total_weight(entries.update(i, entry)) == total_weight(entries),
    decreases entries.len(),
{
    if i < entries.len() - 1 {
        lemma_total_update(entries.drop_last(), i, entry);
        assert(entries.update(i, entry).drop_last() =~= entries.drop_last().update(i, entry));
    } else {
        assert(entries.update(i, entry).drop_last() =~= entries.drop_last());
    }
}

/// Every entry that survives eviction was already retained.
proof fn lemma_survivors_retained<K, V>(
    entries: Seq<SharedPreparationEntry<K, V>>,
    resident: int,
    weight: int,
    budget: int,
)
    ensures
        forall|i: int|
            0 <= i < evict_until(entries, resident, weight, budget).0.len() ==> entries.contains(
                #[trigger] evict_until(entries, resident, weight, budget).0[i],
            ),
    decreases entries.len(),
{
    let oldest = oldest_index(entries);
    if entries.len() > 0 && saturate(resident + weight) > budget && 0 <= oldest < entries.len() {
        let removed = entries[oldest].weight;
        let remaining = if resident >= removed {
            resident - removed
        } else {
            0
        };
        let rest = entries.remove(oldest);
        lemma_survivors_retained(rest, remaining, weight, budget);
        assert forall|i: int|
            0 <= i < evict_until(entries, resident, weight, budget).0.len() implies entries.contains(
                #[trigger] evict_until(entries, resident, weight, budget).0[i],
            ) by {
            let x = evict_until(rest, remaining, weight, budget).0[i];
            assert(rest.contains(x));
            let j = choose|j: int| 0 <= j < rest.len() && rest[j] == x;
            if j < oldest {
                assert(entries[j] == x);
            } else {
                assert(entries[j + 1] == x);
            }
        }
    } else {
        assert forall|i: int|
            0 <= i < evict_until(entries, resident, weight, budget).0.len() implies entries.contains(
                #[trigger] evict_until(entries, resident, weight, budget).0[i],
            ) by {
            assert(entries[i] == evict_until(entries, resident, weight, budget).0[i]);
        }
    }
}

/// The entry chosen for eviction is least recently used: no entry was used
/// before it, and it precedes every earlier entry it ties with.
pub proof fn lemma_oldest_is_least_recent<K, V>(entries: Seq<SharedPreparationEntry<K, V>>)
    requires
        entries.len() > 0,
    ensures
        0 <= oldest_index(entries) < entries.len(),
        forall|j: int|
            0 <= j < entries.len() ==> !used_before(
                #[trigger] entries[j],
                entries[oldest_index(entries)],
            ),
        forall|j: int|
            0 <= j < oldest_index(entries) ==> used_before(
                entries[oldest_index(entries)],
                #[trigger] entries[j],
            ),
    decreases entries.len(),
{
    lemma_oldest_in_range(entries);
    if entries.len() > 1 {
        let prefix = entries.drop_last();
        lemma_oldest_is_least_recent(prefix);
        assert forall|j: int| 0 <= j < prefix.len() implies prefix[j] == #[trigger] entries[j] by {}
    }
}

/// The cache's accounting: the resident charge never exceeds the budget
/// nor the total weight of the retained entries, and equals that total
/// whenever twice the budget fits in a `usize`; every retained entry belongs
/// to the current epoch and sits in the bucket of its text.
pub proof fn lemma_shared_cache_accounting<K, V>(cache: &SharedPreparationCache<K, V>)
    requires
        cache.wf(),
    ensures
        cache.resident_bytes() <= cache.budget(),
        cache.resident_bytes() <= total_weight(cache.entries()),
        2 * cache.budget() <= usize::MAX ==> cache.resident_bytes() == total_weight(
            cache.entries(),
        ),
        forall|i: int|
            0 <= i < cache.entries().len() ==> {
                &&& cache.epoch() == Some(#[trigger] cache.entries()[i].key.epoch)
                &&& cache.entries()[i].fingerprint == text_bucket(cache.entries()[i].key.text@)
            },
{
}

/// A key that no entry answers is answered, after it is inserted, by the
/// new entry and its value, whatever the insertion evicted; this needs the
/// key's inputs to equal themselves.
pub proof fn lemma_lookup_after_insert<K: PartialEq, V>(
    entries: Seq<SharedPreparationEntry<K, V>>,
    resident: int,
    budget: int,
    key: SharedPreparationKey<K>,
    facts: Arc<V>,
    weight: usize,
    current_use: u64,
)
    requires
        !has_answer(entries, key),
        key.inputs.eq_spec(&key.inputs),
    ensures
        ({
            let after = evict_until(entries, resident, weight as int, budget).0.push(
                SharedPreparationEntry {
                    key,
                    fingerprint: text_bucket(key.text@),
                    facts,
                    weight,
                    last_used: current_use,
                },
            );
            &&& has_answer(after, key)
            &&& first_answer(after, key) == after.len() - 1
            &&& after[first_answer(after, key)].facts == facts
        }),
{
    let survivors = evict_until(entries, resident, weight as int, budget).0;
    let entry = SharedPreparationEntry {
        key,
        fingerprint: text_bucket(key.text@),
        facts,
        weight,
        last_used: current_use,
    };
    let after = survivors.push(entry);
    lemma_survivors_retained(entries, resident, weight as int, budget);
    assert forall|j: int| 0 <= j < after.len() - 1 implies !answers(#[trigger] after[j], key) by {
        assert(after[j] == survivors[j]);
        assert(entries.contains(survivors[j]));
        let k = choose|k: int| 0 <= k < entries.len() && entries[k] == survivors[j];
        assert(!answers(entries[k], key));
    }
    assert(answers(after[after.len() - 1], key));
    assert(first_answer_at(after, key, after.len() - 1));
    lemma_first_answer_unique(after, key, after.len() - 1);
}

impl<K, V> SharedPreparationCache<K, V> {
    /// Configured byte budget.
    pub closed spec fn budget(&self) -> usize {
        self.budget
    }

    /// Backend epoch the entries belong to, if synchronized.
    pub closed spec fn epoch(&self) -> Option<u64> {
        self.epoch
    }

    /// Retained entries, oldest insertion first.
    pub closed spec fn entries(&self) -> Seq<SharedPreparationEntry<K, V>> {
        self.entries@
    }

    /// Current accounting charge.
    pub closed spec fn resident_bytes(&self) -> usize {
        self.resident_bytes
    }

    /// Cumulative activity.
    pub closed spec fn work(&self) -> SharedPreparationWork {
        self.work
    }

    /// The cache's invariant: the charge never exceeds the budget nor the
    /// entries' total weight, and equals that total while sums cannot
    /// saturate; every entry belongs to the current epoch and to the bucket
    /// of its text.
    pub closed spec fn wf(&self) -> bool {
        &&& self.resident_bytes <= self.budget
        &&& self.resident_bytes <= total_weight(self.entries@)
        &&& 2 * self.budget <= usize::MAX ==> self.resident_bytes == total_weight(self.entries@)
        &&& forall|i: int|
            0 <= i < self.entries@.len() ==> {
                &&& self.epoch == Some(#[trigger] self.entries@[i].key.epoch)
                &&& self.entries@[i].fingerprint == text_bucket(self.entries@[i].key.text@)
            }
    }

    /// An empty cache with `budget` bytes and no epoch.
    pub fn new(budget: usize) -> (cache: Self)
        ensures
            cache.wf(),
            cache.budget() == budget,
            cache.epoch() == None::<u64>,
            cache.entries() == Seq::<SharedPreparationEntry<K, V>>::empty(),
            cache.resident_bytes() == 0,
            cache.work() == (SharedPreparationWork {
                peak_bytes: 0,
                hits: 0,
                misses: 0,
                evictions: 0,
                oversized_non_retentions: 0,
            }),
    {
        SharedPreparationCache {
            budget,
            epoch: None,
            entries: Vec::new(),
            resident_bytes: 0,
            work: SharedPreparationWork {
                peak_bytes: 0,
                hits: 0,
                misses: 0,
                evictions: 0,
                oversized_non_retentions: 0,
            },
        }
    }

    fn clear_entries(&mut self)
        ensures
            final(self).entries@ == Seq::<SharedPreparationEntry<K, V>>::empty(),
            final(self).resident_bytes == 0,
            final(self).budget == old(self).budget,
            final(self).epoch == old(self).epoch,
            final(self).work == old(self).work,
    {
        self.entries.clear();
        self.resident_bytes = 0;
    }

    /// Drops every entry when the backend epoch changes, and adopts it.
    pub fn synchronize_epoch(&mut self, epoch: Option<u64>)
        requires
            old(self).wf(),
        ensures
            final(self).wf(),
            final(self).epoch() == epoch,
            final(self).budget() == old(self).budget(),
            final(self).work() == old(self).work(),
            old(self).epoch() == epoch ==> {
                &&& final(self).entries() == old(self).entries()
                &&& final(self).resident_bytes() == old(self).resident_bytes()
            },
            old(self).epoch() != epoch ==> {
                &&& final(self).entries() == Seq::<SharedPreparationEntry<K, V>>::empty()
                &&& final(self).resident_bytes() == 0
            },
    {
        if self.epoch != epoch {
            self.clear_entries();
            self.epoch = epoch;
        }
    }

    /// Whether shared reuse is on: a nonzero budget and a known epoch.
    pub fn is_enabled(&self) -> (enabled: bool)
        ensures
            enabled == (self.budget() != 0 && self.epoch() is Some),
    {
        self.budget != 0 && self.epoch.is_some()
    }

    /// Drops every entry and forgets the epoch.
    pub fn clear(&mut self)
        requires
            old(self).wf(),
        ensures
            final(self).wf(),
            final(self).epoch() == None::<u64>,
            final(self).entries() == Seq::<SharedPreparationEntry<K, V>>::empty(),
            final(self).resident_bytes() == 0,
            final(self).budget() == old(self).budget(),
            final(self).work() == old(self).work(),
    {
        self.clear_entries();
        self.epoch = None;
    }

    /// Budget, occupancy and cumulative activity.
    pub fn diagnostics(&self) -> (diagnostics: SharedPreparationDiagnostics)
        ensures
            diagnostics.budget == self.budget(),
            diagnostics.entries == self.entries().len(),
            diagnostics.resident_bytes == self.resident_bytes(),
            diagnostics.peak_bytes == self.work().peak_bytes,
            diagnostics.hits == self.work().hits,
            diagnostics.misses == self.work().misses,
            diagnostics.evictions == self.work().evictions,
            diagnostics.oversized_non_retentions == self.work().oversized_non_retentions,
    {
        SharedPreparationDiagnostics {
            budget: self.budget,
            entries: self.entries.len(),
            resident_bytes: self.resident_bytes,
            peak_bytes: self.work.peak_bytes,
            hits: self.work.hits,
            misses: self.work.misses,
            evictions: self.work.evictions,
            oversized_non_retentions: self.work.oversized_non_retentions,
        }
    }
}

impl<K: PartialEq, V> SharedPreparationCache<K, V> {
    /// Returns the prepared value of the first entry whose key equals `key`
    /// and marks that entry used at `current_use`, counting a hit; counts a
    /// miss when no entry matches.
    pub fn lookup(&mut self, key: &SharedPreparationKey<K>, current_use: u64) -> (hit: Option<
        Arc<V>,
    >)
        requires
            old(self).wf(),
            old(self).epoch() == Some(key.epoch),
            K::obeys_eq_spec(),
        ensures
            final(self).wf(),
            final(self).budget() == old(self).budget(),
            final(self).epoch() == old(self).epoch(),
            final(self).resident_bytes() == old(self).resident_bytes(),
            final(self).work().peak_bytes == old(self).work().peak_bytes,
            final(self).work().evictions == old(self).work().evictions,
            final(self).work().oversized_non_retentions
                == old(self).work().oversized_non_retentions,
            has_answer(old(self).entries(), *key) ==> {
                let i = first_answer(old(self).entries(), *key);
                &&& hit == Some(old(self).entries()[i].facts)
                &&& final(self).entries() == old(self).entries().update(
                    i,
                    touched(old(self).entries()[i], current_use),
                )
                &&& final(self).work().hits == bumped(old(self).work().hits)
                &&& final(self).work().misses == old(self).work().misses
            },
            !has_answer(old(self).entries(), *key) ==> {
                &&& hit is None
                &&& final(self).entries() == old(self).entries()
                &&& final(self).work().hits == old(self).work().hits
                &&& final(self).work().misses == bumped(old(self).work().misses)
            },
    {
        let fingerprint = text_fingerprint(key.text.as_str());
        let mut found: Option<usize> = None;
        let mut index: usize = 0;
        while index < self.entries.len()
            invariant_except_break
                found is None,
            invariant
                *self == *old(self),
                fingerprint == text_bucket(key.text@),
                K::obeys_eq_spec(),
                index <= self.entries@.len(),
                forall|j: int| 0 <= j < index ==> !answers(#[trigger] self.entries@[j], *key),
            ensures
                *self == *old(self),
                match found {
                    Some(i) => first_answer_at(self.entries@, *key, i as int),
                    None => !has_answer(self.entries@, *key),
                },
            decreases self.entries@.len() - index,
        {
            let entry = &self.entries[index];
            if entry.fingerprint == fingerprint && entry.key.epoch == key.epoch && entry.key.text
                == key.text && entry.key.inputs == key.inputs {
                found = Some(index);
                break;
            }
            index += 1;
        }
        match found {
            Some(i) => {
                proof {
                    lemma_first_answer_unique(self.entries@, *key, i as int);
                    lemma_total_update(
                        self.entries@,
                        i as int,
                        touched(self.entries@[i as int], current_use),
                    );
                }
                self.entries[i].last_used = current_use;
                self.work.hits = self.work.hits.saturating_add(1);
                Some(share(&self.entries[i].facts))
            },
            None => {
                self.work.misses = self.work.misses.saturating_add(1);
                None
            },
        }
    }
}

impl<K, V> SharedPreparationCache<K, V> {
    fn oldest_position(&self) -> (oldest: usize)
        requires
            self.entries@.len() > 0,
        ensures
            oldest == oldest_index(self.entries@),
    {
        let mut best: usize = 0;
        let mut index: usize = 1;
        while index < self.entries.len()
            invariant
                1 <= index <= self.entries@.len(),
                best == oldest_index(self.entries@.take(index as int)),
            decreases self.entries@.len() - index,
        {
            proof {
                lemma_oldest_in_range(self.entries@.take(index as int));
                assert(self.entries@.take(index + 1).drop_last() =~= self.entries@.take(
                    index as int,
                ));
            }
            let candidate = &self.entries[index];
            let current = &self.entries[best];
            if candidate.last_used < current.last_used || (candidate.last_used
                == current.last_used && candidate.fingerprint < current.fingerprint) {
                best = index;
            }
            index += 1;
        }
        proof {
            assert(self.entries@.take(self.entries@.len() as int) =~= self.entries@);
        }
        best
    }

    fn evict_oldest(&mut self)
        requires
            old(self).wf(),
            old(self).entries@.len() > 0,
        ensures
            final(self).wf(),
            final(self).entries@ == old(self).entries@.remove(oldest_index(old(self).entries@)),
            final(self).resident_bytes == (if old(self).resident_bytes >= old(
                self,
            ).entries@[oldest_index(old(self).entries@)].weight {
                old(self).resident_bytes - old(self).entries@[oldest_index(
                    old(self).entries@,
                )].weight
            } else {
                0
            }),
            final(self).budget == old(self).budget,
            final(self).epoch == old(self).epoch,
            final(self).work == (SharedPreparationWork {
                evictions: bumped(old(self).work.evictions),
                ..old(self).work
            }),
    {
        let oldest = self.oldest_position();
        proof {
            lemma_oldest_in_range(self.entries@);
            lemma_total_remove(self.entries@, oldest as int);
            lemma_total_nonnegative(self.entries@.remove(oldest as int));
        }
        let entry = self.entries.remove(oldest);
        self.resident_bytes = self.resident_bytes.saturating_sub(entry.weight);
        self.work.evictions = self.work.evictions.saturating_add(1);
        proof {
            assert forall|i: int| 0 <= i < self.entries@.len() implies {
                &&& self.epoch == Some(#[trigger] self.entries@[i].key.epoch)
                &&& self.entries@[i].fingerprint == text_bucket(self.entries@[i].key.text@)
            } by {
                if i >= oldest {
                    assert(self.entries@[i] == old(self).entries@[i + 1]);
                } else {
                    assert(self.entries@[i] == old(self).entries@[i]);
                }
            }
        }
    }

    /// Retains `facts` under `key` with accounting charge `weight`, first
    /// evicting least recently used entries until the charge fits the
    /// budget; a value heavier than the whole budget is not retained and is
    /// counted as oversized.
    pub fn insert(
        &mut self,
        key: SharedPreparationKey<K>,
        facts: Arc<V>,
        weight: usize,
        current_use: u64,
    )
        requires
            old(self).wf(),
            old(self).epoch() == Some(key.epoch),
        ensures
            final(self).wf(),
            final(self).budget() == old(self).budget(),
            final(self).epoch() == old(self).epoch(),
            final(self).work().hits == old(self).work().hits,
            final(self).work().misses == old(self).work().misses,
            weight > old(self).budget() ==> {
                &&& final(self).entries() == old(self).entries()
                &&& final(self).resident_bytes() == old(self).resident_bytes()
                &&& final(self).work() == (SharedPreparationWork {
                    oversized_non_retentions: bumped(old(self).work().oversized_non_retentions),
                    ..old(self).work()
                })
            },
            weight <= old(self).budget() ==> {
                let (survivors, charge, evicted) = evict_until(
                    old(self).entries(),
                    old(self).resident_bytes() as int,
                    weight as int,
                    old(self).budget() as int,
                );
                &&& final(self).entries() == survivors.push(
                    SharedPreparationEntry {
                        key,
                        fingerprint: text_bucket(key.text@),
                        facts,
                        weight,
                        last_used: current_use,
                    },
                )
                &&& final(self).resident_bytes() == saturate(charge + weight)
                &&& final(self).work().evictions == saturate(
                    old(self).work().evictions + evicted,
                )
                &&& final(self).work().peak_bytes == max_usize(
                    old(self).work().peak_bytes,
                    final(self).resident_bytes(),
                )
                &&& final(self).work().oversized_non_retentions
                    == old(self).work().oversized_non_retentions
            },
    {
        if weight > self.budget {
            self.work.oversized_non_retentions = self.work.oversized_non_retentions.saturating_add(
                1,
            );
            return ;
        }
        let ghost target = evict_until(
            self.entries@,
            self.resident_bytes as int,
            weight as int,
            self.budget as int,
        );
        while self.resident_bytes.saturating_add(weight) > self.budget && self.entries.len() > 0
            invariant
                self.wf(),
                weight <= self.budget,
                self.budget == old(self).budget,
                self.epoch == old(self).epoch,
                self.work.hits == old(self).work.hits,
                self.work.misses == old(self).work.misses,
                self.work.peak_bytes == old(self).work.peak_bytes,
                self.work.oversized_non_retentions == old(self).work.oversized_non_retentions,
                evict_until(
                    self.entries@,
                    self.resident_bytes as int,
                    weight as int,
                    self.budget as int,
                ).0 == target.0,
                evict_until(
                    self.entries@,
                    self.resident_bytes as int,
                    weight as int,
                    self.budget as int,
                ).1 == target.1,
                evict_until(
                    self.entries@,
                    self.resident_bytes as int,
                    weight as int,
                    self.budget as int,
                ).2 <= target.2,
                self.work.evictions == saturate(
                    old(self).work.evictions + target.2 - evict_until(
                        self.entries@,
                        self.resident_bytes as int,
                        weight as int,
                        self.budget as int,
                    ).2,
                ),
            decreases self.entries@.len(),
        {
            proof {
                lemma_oldest_in_range(self.entries@);
            }
            self.evict_oldest();
        }
        proof {
            lemma_total_nonnegative(self.entries@);
            assert(self.entries@.len() == 0 ==> self.resident_bytes == 0);
        }
        let fingerprint = text_fingerprint(key.text.as_str());
        let ghost before = self.entries@;
        self.entries.push(
            SharedPreparationEntry { key, fingerprint, facts, weight, last_used: current_use },
        );
        self.resident_bytes = self.resident_bytes.saturating_add(weight);
        if self.resident_bytes > self.work.peak_bytes {
            self.work.peak_bytes = self.resident_bytes;
        }
        proof {
            assert(self.entries@.drop_last() =~= before);
            assert forall|i: int| 0 <= i < self.entries@.len() implies {
                &&& self.epoch == Some(#[trigger] self.entries@[i].key.epoch)
                &&& self.entries@[i].fingerprint == text_bucket(self.entries@[i].key.text@)
            } by {
                if i < before.len() {
                    assert(self.entries@[i] == before[i]);
                }
            }
        }
    }
}

/// Whether two optional references are both absent, or both present with
/// equal values.
pub fn option_ref_eq<T: PartialEq>(left: Option<&T>, right: Option<&T>) -> (equal: bool)
    requires
        T::obeys_eq_spec(),
    ensures
        equal == match (left, right) {
            (Some(a), Some(b)) => a.eq_spec(b),
            (None, None) => true,
            _ => false,
        },
{
    match (left, right) {
        (Some(left), Some(right)) => left == right,
        (None, None) => true,
        _ => false,
    }
}

/// The accounting charge of one shared entry: the entry itself, plus the
/// owned bytes of its key, its facts and its region transcript, if any,
/// saturating at the largest `usize`.
pub fn shared_entry_weight<K, V>(key_bytes: usize, facts_bytes: usize, transcript_bytes: Option<usize>) -> (weight: usize)
    ensures
        weight == saturate(
            vstd::layout::size_of::<SharedPreparationEntry<K, V>>() + key_bytes + facts_bytes + match transcript_bytes {
                Some(bytes) => bytes as int,
                None => 0,
            },
        ),
{
    let transcript = match transcript_bytes {
        Some(bytes) => bytes,
        None => 0,
    };
    core::mem::size_of::<SharedPreparationEntry<K, V>>().saturating_add(key_bytes).saturating_add(
        facts_bytes,
    ).saturating_add(transcript)
}

} // verus!
