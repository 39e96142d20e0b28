//! Dense store of retained paragraph entries, keyed by paragraph identity.
//!
//! Entries live in one vector for cache-friendly scans; an ordered index maps
//! each paragraph to its slot. Removal swaps the last entry into the freed
//! slot and re-points its index.

use vstd::prelude::*;

use std::collections::BTreeMap;

use vstd::pervasive::VecAdditionalExecFns;

use crate::ids::ParagraphId;

verus! {

broadcast use vstd::laws_cmp::group_laws_cmp, vstd::std_specs::btree::group_btree_axioms;

/// The ordered-index key of a paragraph.
pub open spec fn paragraph_key(paragraph: ParagraphId) -> (u64, u64, u32) {
    (paragraph.document.words_spec().0, paragraph.document.words_spec().1, paragraph.index)
}

pub(crate) fn key_of(paragraph: ParagraphId) -> (key: (u64, u64, u32))
    ensures
        key == paragraph_key(paragraph),
{
    let (low, high) = paragraph.document.words();
    (low, high, paragraph.index)
}

proof fn lemma_key_injective(a: ParagraphId, b: ParagraphId)
    requires
        paragraph_key(a) == paragraph_key(b),
    ensures
        a == b,
{
    a.document.lemma_words_injective(b.document);
}

/// Whether some entry belongs to `paragraph`.
pub open spec fn holds(entries: Seq<(ParagraphId, int)>, paragraph: ParagraphId) -> bool {
    exists|i: int| 0 <= i < entries.len() && (#[trigger] entries[i]).0 == paragraph
}

/// Retained entries keyed by paragraph, each paragraph at most once.
#[derive(Debug)]
pub struct ParagraphCacheStore<E> {
    index: BTreeMap<(u64, u64, u32), usize>,
    entries: Vec<(ParagraphId, E)>,
}

/// The slot of `paragraph` among `entries`.
pub open spec fn slot_of<E>(entries: Seq<(ParagraphId, E)>, paragraph: ParagraphId) -> int {
    choose|i: int| 0 <= i < entries.len() && (#[trigger] entries[i]).0 == paragraph
}

/// Whether `entries` holds `paragraph`.
pub open spec fn contains_paragraph<E>(entries: Seq<(ParagraphId, E)>, paragraph: ParagraphId) -> bool {
    exists|i: int| 0 <= i < entries.len() && (#[trigger] entries[i]).0 == paragraph
}

/// No paragraph holds two entries.
pub open spec fn distinct_paragraphs<E>(entries: Seq<(ParagraphId, E)>) -> bool {
    forall|i: int, j: int|
        0 <= i < entries.len() && 0 <= j < entries.len() && i != j ==> (#[trigger] entries[i]).0
            != (#[trigger] entries[j]).0
}

/// The entries as a map from paragraph to entry.
pub open spec fn entries_map<E>(entries: Seq<(ParagraphId, E)>) -> Map<ParagraphId, E> {
    Map::new(
        |paragraph: ParagraphId| contains_paragraph(entries, paragraph),
        |paragraph: ParagraphId| entries[slot_of(entries, paragraph)].1,
    )
}

/// A paragraph's place in paragraph order: its document's bytes compared
/// in order (the identity's words are big-endian), then its index.
pub open spec fn paragraph_rank(paragraph: ParagraphId) -> int {
    let (first, second, index) = paragraph_key(paragraph);
    first * 0x1_0000_0000_0000_0000_0000_0000 + second * 0x1_0000_0000 + index
}

/// Distinct paragraphs have distinct places in paragraph order.
pub(crate) proof fn lemma_rank_injective(a: ParagraphId, b: ParagraphId)
    requires
        paragraph_rank(a) == paragraph_rank(b),
    ensures
        a == b,
{
    assert(paragraph_key(a) == paragraph_key(b));
    lemma_key_injective(a, b);
}

/// Whether `a` comes before `b` in paragraph order.
pub(crate) fn rank_less(a: (u64, u64, u32), b: (u64, u64, u32)) -> (less: bool)
    ensures
        less == (a.0 * 0x1_0000_0000_0000_0000_0000_0000 + a.1 * 0x1_0000_0000 + a.2 < b.0
            * 0x1_0000_0000_0000_0000_0000_0000 + b.1 * 0x1_0000_0000 + b.2),
{
    a.0 < b.0 || (a.0 == b.0 && (a.1 < b.1 || (a.1 == b.1 && a.2 < b.2)))
}

/// The recency a deterministic `recency` reports for an entry.
pub open spec fn recency_of<E, F: Fn(&ParagraphId, &E) -> u64>(
    recency: F,
    paragraph: ParagraphId,
    entry: E,
) -> u64 {
    choose|used: u64| recency.ensures((&paragraph, &entry), used)
}

/// `a` is evicted before `b`: it was used less recently, or as recently and
/// its paragraph comes first.
pub open spec fn evicted_before<E, F: Fn(&ParagraphId, &E) -> u64>(
    recency: F,
    a: (ParagraphId, E),
    b: (ParagraphId, E),
) -> bool {
    let (ua, ub) = (recency_of(recency, a.0, a.1), recency_of(recency, b.0, b.1));
    ua < ub || (ua == ub && paragraph_rank(a.0) < paragraph_rank(b.0))
}

/// `recency` can be asked about any entry and always gives one answer.
pub open spec fn answers_deterministically<E, F: Fn(&ParagraphId, &E) -> u64>(recency: F) -> bool {
    &&& forall|paragraph: &ParagraphId, entry: &E| #[trigger] recency.requires((paragraph, entry))
    &&& forall|paragraph: &ParagraphId, entry: &E, a: u64, b: u64|
        #![trigger recency.ensures((paragraph, entry), a), recency.ensures((paragraph, entry), b)]
        recency.ensures((paragraph, entry), a) && recency.ensures((paragraph, entry), b) ==> a == b
}

impl<E> ParagraphCacheStore<E> {
    /// The entries in slot order.
    pub closed spec fn entry_seq(&self) -> Seq<(ParagraphId, E)> {
        self.entries@
    }

    /// The entries as a map from paragraph to entry.
    pub open spec fn map(&self) -> Map<ParagraphId, E> {
        entries_map(self.entry_seq())
    }

    /// The index and the entries agree, and no paragraph repeats.
    pub closed spec fn wf(&self) -> bool {
        &&& distinct_paragraphs(self.entries@)
        &&& forall|i: int|
            0 <= i < self.entries@.len() ==> #[trigger] self.index@.contains_key(
                paragraph_key(self.entries@[i].0),
            ) && self.index@[paragraph_key(self.entries@[i].0)] == i
        &&& forall|k: (u64, u64, u32)|
            #[trigger] self.index@.contains_key(k) ==> self.index@[k] < self.entries@.len()
                && paragraph_key(self.entries@[self.index@[k] as int].0) == k
    }

    /// An empty store.
    pub fn new() -> (store: Self)
        ensures
            store.wf(),
            store.entry_seq() == Seq::<(ParagraphId, E)>::empty(),
    {
        ParagraphCacheStore { index: BTreeMap::new(), entries: Vec::new() }
    }

    /// Returns the number of retained entries.
    pub fn len(&self) -> (len: usize)
        ensures
            len == self.entry_seq().len(),
    {
        self.entries.len()
    }

    /// Removes every entry.
    pub fn clear(&mut self)
        ensures
            final(self).wf(),
            final(self).entry_seq() == Seq::<(ParagraphId, E)>::empty(),
    {
        self.index.clear();
        self.entries.clear();
    }

    /// Returns the slot of a paragraph's entry.
    fn slot(&self, paragraph: &ParagraphId) -> (slot: Option<usize>)
        requires
            self.wf(),
        ensures
            match slot {
                Some(i) => i < self.entry_seq().len() && self.entry_seq()[i as int].0 == *paragraph,
                None => !contains_paragraph(self.entry_seq(), *paragraph),
            },
    {
        let key = key_of(*paragraph);
        match self.index.get(&key) {
            Some(i) => {
                proof {
                    assert(self.index@.contains_key(key));
                    lemma_key_injective(self.entries@[*i as int].0, *paragraph);
                }
                Some(*i)
            },
            None => {
                proof {
                    assert forall|i: int| 0 <= i < self.entries@.len() implies (#[trigger] self.entries@[i]).0 != *paragraph by {
                        assert(self.index@.contains_key(paragraph_key(self.entries@[i].0)));
                    }
                }
                None
            },
        }
    }

    /// Returns whether a paragraph has an entry.
    pub fn contains_key(&self, paragraph: &ParagraphId) -> (found: bool)
        requires
            self.wf(),
        ensures
            found == self.map().contains_key(*paragraph),
    {
        self.slot(paragraph).is_some()
    }

    /// Returns a paragraph's entry.
    pub fn get(&self, paragraph: &ParagraphId) -> (entry: Option<&E>)
        requires
            self.wf(),
        ensures
            match entry {
                Some(e) => self.map().contains_key(*paragraph) && *e == self.map()[*paragraph],
                None => !self.map().contains_key(*paragraph),
            },
    {
        match self.slot(paragraph) {
            Some(i) => {
                proof {
                    let s = self.entries@;
                    let c = slot_of(s, *paragraph);
                    assert(s[i as int].0 == *paragraph);
                    assert(0 <= c < s.len() && s[c].0 == *paragraph);
                    assert(c == i);
                }
                Some(&self.entries[i].1)
            },
            None => None,
        }
    }

    /// Returns a paragraph's entry for update in place.
    pub fn get_mut(&mut self, paragraph: &ParagraphId) -> (entry: Option<&mut E>)
        requires
            old(self).wf(),
        ensures
            final(self).wf(),
            match entry {
                Some(e) => {
                    &&& old(self).map().contains_key(*paragraph)
                    &&& *e == old(self).map()[*paragraph]
                    &&& final(self).entry_seq() == old(self).entry_seq().update(
                        slot_of(old(self).entry_seq(), *paragraph),
                        (*paragraph, *final(e)),
                    )
                    &&& final(self).map() == old(self).map().insert(*paragraph, *final(e))
                },
                None => {
                    &&& !old(self).map().contains_key(*paragraph)
                    &&& final(self).entry_seq() == old(self).entry_seq()
                },
            },
    {
        match self.slot(paragraph) {
            Some(i) => {
                proof {
                    lemma_slot_unique(self.entries@, *paragraph, i as int);
                }
                let ghost before = self.entries@;
                let slot = &mut self.entries[i];
                let value = &mut slot.1;
                proof {
                    lemma_update_map(before, i as int, *paragraph, *final(value));
                }
                Some(value)
            },
            None => None,
        }
    }

    /// Keeps the entries that `keep` accepts and removes the others, asking
    /// once about every entry; a removal moves the last entry into the freed
    /// slot, which is asked about next.
    pub fn retain<F: Fn(&ParagraphId, &E) -> bool>(&mut self, keep: F)
        requires
            old(self).wf(),
            forall|paragraph: &ParagraphId, entry: &E| #[trigger] keep.requires((paragraph, entry)),
        ensures
            final(self).wf(),
            forall|paragraph: ParagraphId|
                #[trigger] final(self).map().contains_key(paragraph) ==> {
                    &&& old(self).map().contains_key(paragraph)
                    &&& final(self).map()[paragraph] == old(self).map()[paragraph]
                    &&& keep.ensures((&paragraph, &old(self).map()[paragraph]), true)
                },
            forall|paragraph: ParagraphId|
                #[trigger] old(self).map().contains_key(paragraph) && !final(self).map().contains_key(
                    paragraph,
                ) ==> keep.ensures((&paragraph, &old(self).map()[paragraph]), false),
    {
        let mut index: usize = 0;
        while index < self.entries.len()
            invariant
                self.wf(),
                index <= self.entries@.len(),
                forall|paragraph: &ParagraphId, entry: &E| #[trigger] keep.requires((paragraph, entry)),
                forall|paragraph: ParagraphId|
                    #[trigger] self.map().contains_key(paragraph) ==> {
                        &&& old(self).map().contains_key(paragraph)
                        &&& self.map()[paragraph] == old(self).map()[paragraph]
                    },
                forall|paragraph: ParagraphId|
                    #[trigger] old(self).map().contains_key(paragraph) && !self.map().contains_key(
                        paragraph,
                    ) ==> keep.ensures((&paragraph, &old(self).map()[paragraph]), false),
                forall|k: int|
                    0 <= k < index ==> keep.ensures(
                        (&(#[trigger] self.entries@[k]).0, &self.entries@[k].1),
                        true,
                    ),
            decreases self.entries@.len() - index,
        {
            let kept = keep(&self.entries[index].0, &self.entries[index].1);
            if kept {
                index += 1;
            } else {
                let paragraph = self.entries[index].0;
                let ghost before = self.entries@;
                proof {
                    lemma_slot_unique(before, paragraph, index as int);
                }
                self.remove(&paragraph);
                proof {
                    assert forall|k: int| 0 <= k < index implies keep.ensures(
                        (&(#[trigger] self.entries@[k]).0, &self.entries@[k].1),
                        true,
                    ) by {
                        assert(self.entries@[k] == before[k]);
                    }
                }
            }
        }
        proof {
            assert forall|paragraph: ParagraphId| #[trigger] self.map().contains_key(paragraph) implies keep.ensures(
                (&paragraph, &old(self).map()[paragraph]),
                true,
            ) by {
                let s = self.entries@;
                let k = slot_of(s, paragraph);
                assert(0 <= k < s.len() && s[k].0 == paragraph);
                assert(keep.ensures((&s[k].0, &s[k].1), true));
            }
        }
    }

    /// Removes least recently used entries until at most `max_entries`
    /// remain, returning them in the order they were evicted; entries used
    /// equally recently leave in paragraph order.
    pub fn evict_least_recent<F: Fn(&ParagraphId, &E) -> u64>(
        &mut self,
        max_entries: usize,
        recency: F,
    ) -> (evicted: Vec<(ParagraphId, E)>)
        requires
            old(self).wf(),
            answers_deterministically::<E, F>(recency),
        ensures
            final(self).wf(),
            final(self).entry_seq().len() == if old(self).entry_seq().len() <= max_entries {
                old(self).entry_seq().len()
            } else {
                max_entries as nat
            },
            evicted@.len() + final(self).entry_seq().len() == old(self).entry_seq().len(),
            forall|paragraph: ParagraphId|
                #[trigger] final(self).map().contains_key(paragraph) ==> old(self).map().contains_key(
                    paragraph,
                ) && final(self).map()[paragraph] == old(self).map()[paragraph],
            forall|i: int|
                0 <= i < evicted@.len() ==> {
                    &&& old(self).map().contains_key((#[trigger] evicted@[i]).0)
                    &&& old(self).map()[evicted@[i].0] == evicted@[i].1
                    &&& !final(self).map().contains_key(evicted@[i].0)
                },
            forall|i: int, j: int|
                0 <= i < j < evicted@.len() ==> evicted_before(
                    recency,
                    #[trigger] evicted@[i],
                    #[trigger] evicted@[j],
                ),
            forall|i: int, paragraph: ParagraphId|
                0 <= i < evicted@.len() && #[trigger] final(self).map().contains_key(paragraph)
                    ==> evicted_before(
                    recency,
                    #[trigger] evicted@[i],
                    (paragraph, final(self).map()[paragraph]),
                ),
    {
        let mut evicted: Vec<(ParagraphId, E)> = Vec::new();
        while self.entries.len() > max_entries
            invariant
                self.wf(),
                answers_deterministically::<E, F>(recency),
                evicted@.len() + self.entries@.len() == old(self).entries@.len(),
                evicted@.len() > 0 ==> self.entries@.len() >= max_entries,
                forall|paragraph: ParagraphId|
                    #[trigger] self.map().contains_key(paragraph) ==> old(self).map().contains_key(
                        paragraph,
                    ) && self.map()[paragraph] == old(self).map()[paragraph],
                forall|i: int|
                    0 <= i < evicted@.len() ==> {
                        &&& old(self).map().contains_key((#[trigger] evicted@[i]).0)
                        &&& old(self).map()[evicted@[i].0] == evicted@[i].1
                        &&& !self.map().contains_key(evicted@[i].0)
                    },
                forall|i: int, j: int|
                    0 <= i < j < evicted@.len() ==> evicted_before(
                        recency,
                        #[trigger] evicted@[i],
                        #[trigger] evicted@[j],
                    ),
                forall|i: int, k: int|
                    0 <= i < evicted@.len() && 0 <= k < self.entries@.len() ==> evicted_before(
                        recency,
                        #[trigger] evicted@[i],
                        #[trigger] self.entries@[k],
                    ),
            decreases self.entries@.len(),
        {
            let ghost entries = self.entries@;
            let mut best: usize = 0;
            let mut best_used = recency(&self.entries[0].0, &self.entries[0].1);
            let mut best_key = key_of(self.entries[0].0);
            let mut k: usize = 1;
            while k < self.entries.len()
                invariant
                    self.wf(),
                    self.entries@ == entries,
                    answers_deterministically::<E, F>(recency),
                    best < k <= entries.len(),
                    best_used == recency_of(recency, entries[best as int].0, entries[best as int].1),
                    best_key.0 * 0x1_0000_0000_0000_0000_0000_0000 + best_key.1 * 0x1_0000_0000
                        + best_key.2 == paragraph_rank(entries[best as int].0),
                    forall|j: int|
                        0 <= j < k && j != best ==> evicted_before(
                            recency,
                            entries[best as int],
                            #[trigger] entries[j],
                        ),
                decreases entries.len() - k,
            {
                let used = recency(&self.entries[k].0, &self.entries[k].1);
                let key = key_of(self.entries[k].0);
                proof {
                    assert(used == recency_of(recency, entries[k as int].0, entries[k as int].1));
                    if paragraph_rank(entries[k as int].0) == paragraph_rank(entries[best as int].0) {
                        lemma_rank_injective(entries[k as int].0, entries[best as int].0);
                    }
                }
                if used < best_used || (used == best_used && rank_less(key, best_key)) {
                    best = k;
                    best_used = used;
                    best_key = key;
                }
                k += 1;
            }
            let paragraph = self.entries[best].0;
            let ghost chosen = entries[best as int];
            proof {
                lemma_slot_unique(entries, paragraph, best as int);
            }
            match self.remove(&paragraph) {
                Some(entry) => {
                    proof {
                        assert(entry == chosen.1);
                        assert forall|m: int| 0 <= m < self.entries@.len() implies evicted_before(
                            recency,
                            chosen,
                            #[trigger] self.entries@[m],
                        ) by {
                            let source = if m == best {
                                entries.len() - 1
                            } else {
                                m
                            };
                            assert(self.entries@[m] == entries[source]);
                        }
                        assert forall|i: int, m: int|
                            0 <= i < evicted@.len() && 0 <= m < self.entries@.len() implies evicted_before(
                            recency,
                            #[trigger] evicted@[i],
                            #[trigger] self.entries@[m],
                        ) by {
                            let source = if m == best {
                                entries.len() - 1
                            } else {
                                m
                            };
                            assert(self.entries@[m] == entries[source]);
                        }
                        assert forall|i: int| 0 <= i < evicted@.len() implies evicted_before(
                            recency,
                            #[trigger] evicted@[i],
                            chosen,
                        ) by {}
                    }
                    evicted.push((paragraph, entry));
                },
                None => {
                    proof {
                        assert(false);
                    }
                },
            }
        }
        proof {
            assert forall|i: int, paragraph: ParagraphId|
                0 <= i < evicted@.len() && #[trigger] self.map().contains_key(paragraph) implies evicted_before(
                recency,
                #[trigger] evicted@[i],
                (paragraph, self.map()[paragraph]),
            ) by {
                let s = self.entries@;
                let m = slot_of(s, paragraph);
                assert(0 <= m < s.len() && s[m].0 == paragraph);
                assert(evicted_before(recency, evicted@[i], s[m]));
            }
        }
        evicted
    }

    /// Returns the entries in slot order.
    pub fn entries(&self) -> (entries: &[(ParagraphId, E)])
        requires
            self.wf(),
        ensures
            entries@ == self.entry_seq(),
            distinct_paragraphs(entries@),
    {
        self.entries.as_slice()
    }

    /// Stores `entry` for `paragraph`, returning the entry it replaces.
    ///
    /// A replaced entry keeps its slot; a new paragraph is appended.
    pub fn insert(&mut self, paragraph: ParagraphId, entry: E) -> (replaced: Option<E>)
        requires
            old(self).wf(),
        ensures
            final(self).wf(),
            final(self).entry_seq() == if contains_paragraph(old(self).entry_seq(), paragraph) {
                old(self).entry_seq().update(slot_of(old(self).entry_seq(), paragraph), (paragraph, entry))
            } else {
                old(self).entry_seq().push((paragraph, entry))
            },
            final(self).map() == old(self).map().insert(paragraph, entry),
            match replaced {
                Some(e) => old(self).map().contains_key(paragraph) && e == old(self).map()[paragraph],
                None => !old(self).map().contains_key(paragraph),
            },
    {
        let ghost before = self.entries@;
        match self.slot(&paragraph) {
            Some(i) => {
                proof {
                    lemma_slot_unique(before, paragraph, i as int);
                }
                let mut slot = (paragraph, entry);
                self.entries.set_and_swap(i, &mut slot);
                proof {
                    let after = self.entries@;
                    assert(after == before.update(i as int, (paragraph, entry)));
                    assert forall|a: int, b: int| 0 <= a < after.len() && 0 <= b < after.len() && a != b implies (#[trigger] after[a]).0 != (#[trigger] after[b]).0 by {
                        assert(after[a].0 == before[a].0 && after[b].0 == before[b].0);
                    }
                    assert forall|k: int| 0 <= k < after.len() implies #[trigger] self.index@.contains_key(paragraph_key(after[k].0)) && self.index@[paragraph_key(after[k].0)] == k by {
                        assert(after[k].0 == before[k].0);
                    }
                    lemma_update_map(before, i as int, paragraph, entry);
                }
                Some(slot.1)
            },
            None => {
                let i = self.entries.len();
                self.entries.push((paragraph, entry));
                let key = key_of(paragraph);
                let ghost old_index = self.index@;
                self.index.insert(key, i);
                proof {
                    let after = self.entries@;
                    assert(after == before.push((paragraph, entry)));
                    assert(!old_index.contains_key(key)) by {
                        if old_index.contains_key(key) {
                            let j = old_index[key] as int;
                            lemma_key_injective(before[j].0, paragraph);
                        }
                    }
                    assert forall|a: int, b: int| 0 <= a < after.len() && 0 <= b < after.len() && a != b implies (#[trigger] after[a]).0 != (#[trigger] after[b]).0 by {
                        if a < before.len() && b < before.len() {
                            assert(after[a] == before[a] && after[b] == before[b]);
                        } else if a < before.len() {
                            assert(after[a] == before[a]);
                        } else {
                            assert(after[b] == before[b]);
                        }
                    }
                    assert forall|k: int| 0 <= k < after.len() implies #[trigger] self.index@.contains_key(paragraph_key(after[k].0)) && self.index@[paragraph_key(after[k].0)] == k by {
                        if k < before.len() {
                            assert(after[k] == before[k]);
                            assert(old_index.contains_key(paragraph_key(before[k].0)));
                        }
                    }
                    assert forall|k: (u64, u64, u32)| #[trigger] self.index@.contains_key(k) implies self.index@[k] < after.len() && paragraph_key(after[self.index@[k] as int].0) == k by {
                        if k != key {
                            assert(old_index.contains_key(k));
                            assert(after[old_index[k] as int] == before[old_index[k] as int]);
                        }
                    }
                    lemma_push_map(before, paragraph, entry);
                }
                None
            },
        }
    }
    /// Removes a paragraph's entry and returns it.
    ///
    /// The last entry moves into the freed slot.
    pub fn remove(&mut self, paragraph: &ParagraphId) -> (removed: Option<E>)
        requires
            old(self).wf(),
        ensures
            final(self).wf(),
            final(self).map() == old(self).map().remove(*paragraph),
            match removed {
                Some(e) => {
                    &&& old(self).map().contains_key(*paragraph)
                    &&& e == old(self).map()[*paragraph]
                    &&& final(self).entry_seq() == swap_removed(
                        old(self).entry_seq(),
                        slot_of(old(self).entry_seq(), *paragraph),
                    )
                },
                None => !old(self).map().contains_key(*paragraph) && final(self).entry_seq()
                    == old(self).entry_seq(),
            },
    {
        let ghost before = self.entries@;
        let ghost old_index = self.index@;
        let key = key_of(*paragraph);
        match self.index.remove(&key) {
            None => {
                proof {
                    assert forall|k: int| 0 <= k < before.len() implies (#[trigger] before[k]).0 != *paragraph by {
                        assert(old_index.contains_key(paragraph_key(before[k].0)));
                    }
                    assert(entries_map(before).remove(*paragraph) =~= entries_map(before));
                }
                None
            },
            Some(i) => {
                proof {
                    assert(old_index.contains_key(key));
                    lemma_key_injective(before[i as int].0, *paragraph);
                    lemma_slot_unique(before, *paragraph, i as int);
                }
                let (_, removed) = self.entries.swap_remove(i);
                let ghost mid_index = self.index@;
                if i < self.entries.len() {
                    let moved = self.entries[i].0;
                    self.index.insert(key_of(moved), i);
                }
                proof {
                    let after = self.entries@;
                    let last = before.len() - 1;
                    assert(after == swap_removed(before, i as int));
                    assert(mid_index == old_index.remove(key));
                    assert forall|a: int, b: int| 0 <= a < after.len() && 0 <= b < after.len() && a != b implies (#[trigger] after[a]).0 != (#[trigger] after[b]).0 by {
                        let ba = if a == i { last } else { a };
                        let bb = if b == i { last } else { b };
                        assert(after[a] == before[ba] && after[b] == before[bb]);
                    }
                    assert forall|k: int| 0 <= k < after.len() implies #[trigger] self.index@.contains_key(paragraph_key(after[k].0)) && self.index@[paragraph_key(after[k].0)] == k by {
                        if k != i {
                            assert(after[k] == before[k]);
                            assert(old_index.contains_key(paragraph_key(before[k].0)));
                            if paragraph_key(before[k].0) == key {
                                lemma_key_injective(before[k].0, *paragraph);
                            }
                            if i < after.len() && paragraph_key(before[k].0) == paragraph_key(before[last].0) {
                                lemma_key_injective(before[k].0, before[last].0);
                            }
                        }
                    }
                    assert forall|k: (u64, u64, u32)| #[trigger] self.index@.contains_key(k) implies self.index@[k] < after.len() && paragraph_key(after[self.index@[k] as int].0) == k by {
                        if i < after.len() && k == paragraph_key(before[last].0) {
                        } else {
                            assert(mid_index.contains_key(k));
                            assert(k != key);
                            let j = old_index[k] as int;
                            assert(paragraph_key(before[j].0) == k);
                            if j == last {
                                if i < after.len() {
                                } else {
                                    assert(j == i);
                                    lemma_key_injective(before[j].0, *paragraph);
                                }
                            } else {
                                if j == i {
                                    lemma_key_injective(before[j].0, *paragraph);
                                }
                                assert(after[j] == before[j]);
                            }
                        }
                    }
                    lemma_swap_remove_map(before, i as int);
                }
                Some(removed)
            },
        }
    }
}

/// The entries after the one at `i` is removed and the last moves into its
/// slot.
pub open spec fn swap_removed<E>(entries: Seq<(ParagraphId, E)>, i: int) -> Seq<(ParagraphId, E)> {
    entries.update(i, entries.last()).drop_last()
}

/// Swap-removing a paragraph's slot removes the paragraph from the map.
proof fn lemma_swap_remove_map<E>(entries: Seq<(ParagraphId, E)>, i: int)
    requires
        distinct_paragraphs(entries),
        0 <= i < entries.len(),
    ensures
        distinct_paragraphs(swap_removed(entries, i)),
        entries_map(swap_removed(entries, i)) == entries_map(entries).remove(entries[i].0),
{
    let after = swap_removed(entries, i);
    let paragraph = entries[i].0;
    let last = entries.len() - 1;
    assert(distinct_paragraphs(after)) by {
        assert forall|a: int, b: int| 0 <= a < after.len() && 0 <= b < after.len() && a != b implies (#[trigger] after[a]).0 != (#[trigger] after[b]).0 by {
            let ba = if a == i { last } else { a };
            let bb = if b == i { last } else { b };
            assert(after[a] == entries[ba] && after[b] == entries[bb]);
        }
    }
    assert forall|p: ParagraphId| #[trigger] entries_map(after).contains_key(p) == entries_map(entries).remove(paragraph).contains_key(p) by {
        if contains_paragraph(after, p) {
            let k = slot_of(after, p);
            let bk = if k == i { last } else { k };
            assert(after[k] == entries[bk]);
            assert(bk != i);
        }
        if contains_paragraph(entries, p) && p != paragraph {
            let k = slot_of(entries, p);
            if k == last {
                assert(after[i] == entries[last]);
            } else {
                assert(after[k] == entries[k]);
            }
        }
    }
    assert forall|p: ParagraphId| #[trigger] entries_map(after).contains_key(p) implies entries_map(after)[p] == entries_map(entries).remove(paragraph)[p] by {
        let k = slot_of(after, p);
        let bk = if k == i { last } else { k };
        assert(after[k] == entries[bk]);
        lemma_slot_unique(after, p, k);
        lemma_slot_unique(entries, p, bk);
    }
    assert(entries_map(after) =~= entries_map(entries).remove(paragraph));
}


/// Within distinct paragraphs, the slot holding a paragraph is the chosen
/// slot.
proof fn lemma_slot_unique<E>(entries: Seq<(ParagraphId, E)>, paragraph: ParagraphId, i: int)
    requires
        distinct_paragraphs(entries),
        0 <= i < entries.len(),
        entries[i].0 == paragraph,
    ensures
        contains_paragraph(entries, paragraph),
        slot_of(entries, paragraph) == i,
{
    assert(contains_paragraph(entries, paragraph));
}

/// Replacing the entry in a paragraph's slot updates the map at that
/// paragraph.
proof fn lemma_update_map<E>(entries: Seq<(ParagraphId, E)>, i: int, paragraph: ParagraphId, entry: E)
    requires
        distinct_paragraphs(entries),
        0 <= i < entries.len(),
        entries[i].0 == paragraph,
    ensures
        entries_map(entries.update(i, (paragraph, entry))) == entries_map(entries).insert(paragraph, entry),
{
    let after = entries.update(i, (paragraph, entry));
    assert(distinct_paragraphs(after)) by {
        assert forall|a: int, b: int| 0 <= a < after.len() && 0 <= b < after.len() && a != b implies (#[trigger] after[a]).0 != (#[trigger] after[b]).0 by {
            assert(after[a].0 == entries[a].0 && after[b].0 == entries[b].0);
        }
    }
    assert forall|p: ParagraphId| #[trigger] entries_map(after).contains_key(p) == entries_map(entries).insert(paragraph, entry).contains_key(p) by {
        if contains_paragraph(entries, p) {
            let k = slot_of(entries, p);
            assert(after[k].0 == p);
        }
        if contains_paragraph(after, p) {
            let k = slot_of(after, p);
            assert(entries[k].0 == p);
        }
    }
    assert forall|p: ParagraphId| #[trigger] entries_map(after).contains_key(p) implies entries_map(after)[p] == entries_map(entries).insert(paragraph, entry)[p] by {
        let k = slot_of(after, p);
        assert(0 <= k < after.len() && after[k].0 == p);
        if p == paragraph {
            lemma_slot_unique(after, p, i);
        } else {
            assert(entries[k].0 == p);
            lemma_slot_unique(entries, p, k);
        }
    }
    assert(entries_map(after) =~= entries_map(entries).insert(paragraph, entry));
}

/// Appending an entry for a new paragraph adds it to the map.
proof fn lemma_push_map<E>(entries: Seq<(ParagraphId, E)>, paragraph: ParagraphId, entry: E)
    requires
        distinct_paragraphs(entries),
        !contains_paragraph(entries, paragraph),
    ensures
        entries_map(entries.push((paragraph, entry))) == entries_map(entries).insert(paragraph, entry),
{
    let after = entries.push((paragraph, entry));
    assert(distinct_paragraphs(after)) by {
        assert forall|a: int, b: int| 0 <= a < after.len() && 0 <= b < after.len() && a != b implies (#[trigger] after[a]).0 != (#[trigger] after[b]).0 by {
            if a < entries.len() && b < entries.len() {
                assert(after[a] == entries[a] && after[b] == entries[b]);
            } else if a < entries.len() {
                assert(after[a] == entries[a]);
            } else {
                assert(after[b] == entries[b]);
            }
        }
    }
    assert forall|p: ParagraphId| #[trigger] entries_map(after).contains_key(p) == entries_map(entries).insert(paragraph, entry).contains_key(p) by {
        if contains_paragraph(entries, p) {
            let k = slot_of(entries, p);
            assert(after[k] == entries[k]);
        }
        if p == paragraph {
            assert(after[entries.len() as int].0 == p);
        }
        if contains_paragraph(after, p) && p != paragraph {
            let k = slot_of(after, p);
            assert(after[k] == entries[k]);
        }
    }
    assert forall|p: ParagraphId| #[trigger] entries_map(after).contains_key(p) implies entries_map(after)[p] == entries_map(entries).insert(paragraph, entry)[p] by {
        let k = slot_of(after, p);
        if p == paragraph {
            lemma_slot_unique(after, p, entries.len() as int);
        } else {
            assert(after[k] == entries[k]);
            lemma_slot_unique(entries, p, k);
        }
    }
    assert(entries_map(after) =~= entries_map(entries).insert(paragraph, entry));
}

/// Reading a paragraph after storing an entry for it gives that entry back,
/// and every other paragraph keeps what it had.
pub proof fn lemma_get_after_insert<E>(
    before: &ParagraphCacheStore<E>,
    after: &ParagraphCacheStore<E>,
    paragraph: ParagraphId,
    entry: E,
    other: ParagraphId,
)
    requires
        after.map() == before.map().insert(paragraph, entry),
    ensures
        after.map().contains_key(paragraph),
        after.map()[paragraph] == entry,
        other != paragraph ==> (after.map().contains_key(other) <==> before.map().contains_key(other)),
        other != paragraph && before.map().contains_key(other) ==> after.map()[other] == before.map()[other],
{
}

/// Reading a paragraph after removing it gives nothing, and every other
/// paragraph keeps what it had.
pub proof fn lemma_get_after_remove<E>(
    before: &ParagraphCacheStore<E>,
    after: &ParagraphCacheStore<E>,
    paragraph: ParagraphId,
    other: ParagraphId,
)
    requires
        after.map() == before.map().remove(paragraph),
    ensures
        !after.map().contains_key(paragraph),
        other != paragraph ==> (after.map().contains_key(other) <==> before.map().contains_key(other)),
        other != paragraph && before.map().contains_key(other) ==> after.map()[other] == before.map()[other],
{
}

} // verus!
