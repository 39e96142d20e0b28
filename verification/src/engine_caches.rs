//! The engine's retained geometry: a committed lane and a transient
//! composition lane, each under its own entry budget, the published scene
//! roots that pin their entries, and the activity counters.
//!
//! Budgets are enforced lane by lane, so composition work never evicts
//! committed geometry. An eviction takes the entry whose own use and whose
//! pinning roots are least recent, drops the roots it invalidates, and hands
//! the entry back so that its adapter state can be released.

use vstd::prelude::*;

use std::collections::BTreeMap;

use crate::cache::{
    CacheBudget, CacheDiagnostics, CacheWork, ParagraphFormationCacheDiagnostics,
    SharedPreparationDiagnostics,
};
use crate::residency::SceneResidencyBytes;
use crate::cache_store::{
    distinct_paragraphs, key_of, slot_of, swap_removed, lemma_rank_injective, paragraph_rank, rank_less, ParagraphCacheStore,
};
use crate::ids::{DocumentId, ParagraphId};
use crate::roots::{
    dropped_roots, dropped_roots_spec, later, root_use_for, root_use_spec, CacheKind, CompositionRoot,
    DroppedRoots, PublishedRoots,
};

verus! {

broadcast use vstd::laws_cmp::group_laws_cmp, vstd::std_specs::btree::group_btree_axioms;

/// One retained paragraph entry.
#[derive(Debug)]
pub struct RetainedEntry<S> {
    /// Engine clock of the entry's last use.
    pub last_used: u64,
    /// Deterministic charge of the entry's owned data.
    pub accounted_bytes: usize,
    /// Adapter preparation the entry's facts belong to.
    pub preparation: u64,
    /// The retained scene segment.
    pub segment: S,
}

/// A document with nothing published.
pub open spec fn no_roots() -> PublishedRoots {
    PublishedRoots { document: None, block: None, composition: None }
}

/// The published roots of every document.
#[derive(Debug)]
pub struct PublishedRootTable {
    table: BTreeMap<(u64, u64), PublishedRoots>,
}

impl PublishedRootTable {
    /// The roots published for `document`; none when nothing is.
    pub closed spec fn roots_of(&self, document: DocumentId) -> PublishedRoots {
        if self.table@.contains_key(document.words_spec()) {
            self.table@[document.words_spec()]
        } else {
            no_roots()
        }
    }

    /// A table with nothing published.
    pub fn new() -> (table: Self)
        ensures
            forall|document: DocumentId| #[trigger] table.roots_of(document) == no_roots(),
    {
        PublishedRootTable { table: BTreeMap::new() }
    }

    /// Returns the roots published for `document`.
    pub fn get(&self, document: DocumentId) -> (roots: PublishedRoots)
        ensures
            roots == self.roots_of(document),
    {
        match self.table.get(&document.words()) {
            Some(roots) => *roots,
            None => PublishedRoots { document: None, block: None, composition: None },
        }
    }

    /// Replaces the roots published for `document`.
    pub fn set(&mut self, document: DocumentId, roots: PublishedRoots)
        ensures
            forall|other: DocumentId| #[trigger] final(self).roots_of(other) == if other == document {
                roots
            } else {
                old(self).roots_of(other)
            },
    {
        self.table.insert(document.words(), roots);
        proof {
            assert forall|other: DocumentId| #[trigger] self.roots_of(other) == if other == document {
                roots
            } else {
                old(self).roots_of(other)
            } by {
                if other.words_spec() == document.words_spec() {
                    other.lemma_words_injective(document);
                }
            }
        }
    }

    /// Forgets everything published.
    pub fn clear(&mut self)
        ensures
            forall|document: DocumentId| #[trigger] final(self).roots_of(document) == no_roots(),
    {
        self.table.clear();
    }
}

/// `roots` with the dropped scenes removed.
pub open spec fn without(roots: PublishedRoots, dropped: DroppedRoots) -> PublishedRoots {
    PublishedRoots {
        document: if dropped.document {
            None
        } else {
            roots.document
        },
        block: if dropped.block {
            None
        } else {
            roots.block
        },
        composition: if dropped.composition {
            None
        } else {
            roots.composition
        },
    }
}

fn without_dropped(roots: PublishedRoots, dropped: DroppedRoots) -> (remaining: PublishedRoots)
    ensures
        remaining == without(roots, dropped),
{
    PublishedRoots {
        document: if dropped.document {
            None
        } else {
            roots.document
        },
        block: if dropped.block {
            None
        } else {
            roots.block
        },
        composition: if dropped.composition {
            None
        } else {
            roots.composition
        },
    }
}

/// The paragraphs of evicted entries, in eviction order.
pub open spec fn paragraphs_of<S>(released: Seq<(ParagraphId, RetainedEntry<S>)>) -> Seq<ParagraphId> {
    released.map_values(|entry: (ParagraphId, RetainedEntry<S>)| entry.0)
}

/// The roots of `document` after evicting `evicted` in order from lane
/// `kind`, starting from `initial`.
pub open spec fn roots_after(
    initial: PublishedRootTable,
    kind: CacheKind,
    evicted: Seq<ParagraphId>,
    document: DocumentId,
) -> PublishedRoots
    decreases evicted.len(),
{
    if evicted.len() == 0 {
        initial.roots_of(document)
    } else {
        let before = roots_after(initial, kind, evicted.drop_last(), document);
        let paragraph = evicted.last();
        if paragraph.document == document {
            without(before, dropped_roots_spec(kind, paragraph, before))
        } else {
            before
        }
    }
}

/// The eviction rank of an entry under its document's roots.
pub open spec fn rank_under<S>(
    kind: CacheKind,
    paragraph: ParagraphId,
    entry: RetainedEntry<S>,
    roots: PublishedRoots,
) -> u64 {
    later(entry.last_used, root_use_spec(kind, paragraph, roots))
}

/// After the evictions `prior`, entry `a` is evicted before entry `b`: it
/// ranks lower, or equally and its paragraph comes first.
pub open spec fn evicted_first<S>(
    initial: PublishedRootTable,
    kind: CacheKind,
    prior: Seq<ParagraphId>,
    a: (ParagraphId, RetainedEntry<S>),
    b: (ParagraphId, RetainedEntry<S>),
) -> bool {
    let ra = rank_under(kind, a.0, a.1, roots_after(initial, kind, prior, a.0.document));
    let rb = rank_under(kind, b.0, b.1, roots_after(initial, kind, prior, b.0.document));
    ra < rb || (ra == rb && paragraph_rank(a.0) < paragraph_rank(b.0))
}

/// The scene-cache charge after releasing `released` in order, saturating
/// at zero.
pub open spec fn charge_after<S>(total: usize, released: Seq<(ParagraphId, RetainedEntry<S>)>) -> usize
    decreases released.len(),
{
    if released.len() == 0 {
        total
    } else {
        let before = charge_after(total, released.drop_last());
        let bytes = released.last().1.accounted_bytes;
        if before >= bytes {
            (before - bytes) as usize
        } else {
            0
        }
    }
}

/// The retained geometry of an engine.
#[derive(Debug)]
pub struct EngineCaches<S> {
    committed: ParagraphCacheStore<RetainedEntry<S>>,
    composition: ParagraphCacheStore<RetainedEntry<S>>,
    roots: PublishedRootTable,
    work: CacheWork,
    budget: CacheBudget,
}

impl<S> EngineCaches<S> {
    /// Both lanes are well formed.
    pub closed spec fn wf(&self) -> bool {
        &&& self.committed.wf()
        &&& self.composition.wf()
        &&& self.committed.entry_seq().len() + self.composition.entry_seq().len() <= usize::MAX
    }

    /// The entries of lane `kind`, in slot order.
    pub closed spec fn lane(&self, kind: CacheKind) -> Seq<(ParagraphId, RetainedEntry<S>)> {
        match kind {
            CacheKind::Committed => self.committed.entry_seq(),
            CacheKind::Composition => self.composition.entry_seq(),
        }
    }

    /// The entries of lane `kind`, by paragraph.
    pub closed spec fn lane_map(&self, kind: CacheKind) -> Map<ParagraphId, RetainedEntry<S>> {
        match kind {
            CacheKind::Committed => self.committed.map(),
            CacheKind::Composition => self.composition.map(),
        }
    }

    /// The roots published for `document`.
    pub closed spec fn roots_of(&self, document: DocumentId) -> PublishedRoots {
        self.roots.roots_of(document)
    }

    /// The published roots of every document.
    pub closed spec fn root_table(&self) -> PublishedRootTable {
        self.roots
    }

    /// The activity counters.
    pub closed spec fn work(&self) -> CacheWork {
        self.work
    }

    /// The lane budgets.
    pub closed spec fn budget(&self) -> CacheBudget {
        self.budget
    }

    /// Returns how many entries lane `kind` retains.
    pub fn lane_len(&self, kind: CacheKind) -> (len: usize)
        ensures
            len == self.lane(kind).len(),
    {
        match kind {
            CacheKind::Committed => self.committed.len(),
            CacheKind::Composition => self.composition.len(),
        }
    }

    /// Returns the entry lane `kind` retains for `paragraph`.
    pub fn entry(&self, kind: CacheKind, paragraph: ParagraphId) -> (entry: Option<&RetainedEntry<S>>)
        requires
            self.wf(),
        ensures
            match entry {
                Some(e) => self.lane_map(kind).contains_key(paragraph) && *e == self.lane_map(kind)[paragraph],
                None => !self.lane_map(kind).contains_key(paragraph),
            },
    {
        match kind {
            CacheKind::Committed => self.committed.get(&paragraph),
            CacheKind::Composition => self.composition.get(&paragraph),
        }
    }

    /// Returns the roots published for `document`.
    pub fn published(&self, document: DocumentId) -> (roots: PublishedRoots)
        ensures
            roots == self.roots_of(document),
    {
        self.roots.get(document)
    }

    /// Returns the activity counters.
    pub fn cache_work(&self) -> (work: CacheWork)
        ensures
            work == self.work(),
    {
        self.work
    }

    /// Reports the retained state: both lanes' entry counts, their budgets
    /// and the activity counters, with what the adapter, the segments and
    /// the shared preparation report for themselves. The two counts always
    /// add up within `usize`, so the current entries are their sum.
    pub fn diagnostics(
        &self,
        adapter_facts: Option<ParagraphFormationCacheDiagnostics>,
        scene_cache_residency: SceneResidencyBytes,
        shared: SharedPreparationDiagnostics,
    ) -> (diagnostics: CacheDiagnostics)
        requires
            self.wf(),
        ensures
            diagnostics.committed_entries() == self.lane(CacheKind::Committed).len(),
            diagnostics.composition_entries() == self.lane(CacheKind::Composition).len(),
            diagnostics.committed_entries() + diagnostics.composition_entries() <= usize::MAX,
            diagnostics.budget() == self.budget().max_entries(),
            diagnostics.composition_budget() == self.budget().max_composition_entries(),
            diagnostics.adapter_facts() == adapter_facts,
            diagnostics.scene_cache_accounted_bytes() == self.work().scene_cache_accounted_bytes,
            diagnostics.scene_cache_residency() == scene_cache_residency,
            diagnostics.peak_entries() == self.work().peak_entries,
            diagnostics.hits() == self.work().hits,
            diagnostics.misses() == self.work().misses,
            diagnostics.evictions() == self.work().evictions,
            diagnostics.releases() == self.work().releases,
            diagnostics.shared_preparation_entries() == shared.entries,
    {
        CacheDiagnostics::from_state(
            self.budget,
            self.committed.len(),
            self.composition.len(),
            adapter_facts,
            self.work,
            scene_cache_residency,
            shared,
        )
    }

    /// Empty lanes under `budget`, with nothing published.
    pub fn new(budget: CacheBudget) -> (caches: Self)
        ensures
            caches.wf(),
            caches.lane(CacheKind::Committed).len() == 0,
            caches.lane(CacheKind::Composition).len() == 0,
            forall|document: DocumentId| #[trigger] caches.roots_of(document) == no_roots(),
            caches.work() == (CacheWork {
                scene_cache_accounted_bytes: 0,
                peak_entries: 0,
                hits: 0,
                misses: 0,
                evictions: 0,
                releases: 0,
            }),
            caches.budget() == budget,
    {
        EngineCaches {
            committed: ParagraphCacheStore::new(),
            composition: ParagraphCacheStore::new(),
            roots: PublishedRootTable::new(),
            work: CacheWork::new(),
            budget,
        }
    }
}

/// The lane entry that is evicted next under the current roots.
fn least_recent<S>(
    lane: &ParagraphCacheStore<RetainedEntry<S>>,
    roots: &PublishedRootTable,
    kind: CacheKind,
    Ghost(initial): Ghost<PublishedRootTable>,
    Ghost(prior): Ghost<Seq<ParagraphId>>,
) -> (best: usize)
    requires
        lane.wf(),
        lane.entry_seq().len() > 0,
        forall|d: DocumentId| #[trigger] roots.roots_of(d) == roots_after(initial, kind, prior, d),
    ensures
        best < lane.entry_seq().len(),
        forall|j: int|
            0 <= j < lane.entry_seq().len() && j != best ==> evicted_first(
                initial,
                kind,
                prior,
                lane.entry_seq()[best as int],
                #[trigger] lane.entry_seq()[j],
            ),
{
    let entries = lane.entries();
    let ghost s = lane.entry_seq();
    let first_roots = roots.get(entries[0].0.document);
    let mut best: usize = 0;
    let mut best_rank = later_use(entries[0].1.last_used, root_use_for(kind, entries[0].0, first_roots));
    let mut best_key = key_of(entries[0].0);
    let mut k: usize = 1;
    while k < entries.len()
        invariant
            entries@ == s,
            distinct_paragraphs(s),
            forall|d: DocumentId| #[trigger] roots.roots_of(d) == roots_after(initial, kind, prior, d),
            best < k <= s.len(),
            best_rank == rank_under(kind, s[best as int].0, s[best as int].1, roots_after(initial, kind, prior, s[best as int].0.document)),
            best_key.0 * 0x1_0000_0000_0000_0000_0000_0000 + best_key.1 * 0x1_0000_0000 + best_key.2
                == paragraph_rank(s[best as int].0),
            forall|j: int|
                0 <= j < k && j != best ==> evicted_first(
                    initial,
                    kind,
                    prior,
                    s[best as int],
                    #[trigger] s[j],
                ),
        decreases s.len() - k,
    {
        let entry_roots = roots.get(entries[k].0.document);
        let rank = later_use(entries[k].1.last_used, root_use_for(kind, entries[k].0, entry_roots));
        let key = key_of(entries[k].0);
        proof {
            if paragraph_rank(s[k as int].0) == paragraph_rank(s[best as int].0) {
                lemma_rank_injective(s[k as int].0, s[best as int].0);
            }
        }
        if rank < best_rank || (rank == best_rank && rank_less(key, best_key)) {
            best = k;
            best_rank = rank;
            best_key = key;
        }
        k += 1;
    }
    best
}

/// Evicts least recent entries of one lane until at most `max_entries`
/// remain, dropping the roots each eviction invalidates and counting it.
#[verifier::rlimit(60)]
#[verifier::spinoff_prover]
fn enforce_lane<S>(
    lane: &mut ParagraphCacheStore<RetainedEntry<S>>,
    roots: &mut PublishedRootTable,
    work: &mut CacheWork,
    kind: CacheKind,
    max_entries: usize,
) -> (released: Vec<(ParagraphId, RetainedEntry<S>)>)
    requires
        old(lane).wf(),
        old(work).evictions + old(lane).entry_seq().len() <= usize::MAX,
    ensures
        final(lane).wf(),
        lane_enforced(
            old(lane).map(),
            old(lane).entry_seq().len(),
            final(lane).map(),
            final(lane).entry_seq().len(),
            *old(roots),
            kind,
            max_entries,
            released@,
        ),
        forall|d: DocumentId| #[trigger] final(roots).roots_of(d) == roots_after(
            *old(roots),
            kind,
            paragraphs_of(released@),
            d,
        ),
        old(lane).entry_seq().len() <= max_entries ==> final(lane).entry_seq() == old(lane).entry_seq()
            && released@.len() == 0,
        *final(work) == (CacheWork {
            scene_cache_accounted_bytes: charge_after(old(work).scene_cache_accounted_bytes, released@),
            evictions: (old(work).evictions + released@.len()) as usize,
            ..*old(work)
        }),
{
    let ghost initial = *old(roots);
    let ghost start = old(lane).map();
    let ghost start_len = old(lane).entry_seq().len();
    let ghost start_work = *old(work);
    let ghost start_seq = old(lane).entry_seq();
    let mut released: Vec<(ParagraphId, RetainedEntry<S>)> = Vec::new();
    while lane.len() > max_entries
        invariant
            lane.wf(),
            released@.len() + lane.entry_seq().len() == start_len,
            start_len == start_seq.len(),
            released@.len() == 0 ==> lane.entry_seq() == start_seq,
            start_work.evictions + start_len <= usize::MAX,
            released@.len() > 0 ==> lane.entry_seq().len() >= max_entries,
            forall|p: ParagraphId| #[trigger] lane.map().contains_key(p) ==> start.contains_key(p)
                && lane.map()[p] == start[p],
            forall|i: int| 0 <= i < released@.len() ==> {
                &&& start.contains_key((#[trigger] released@[i]).0)
                &&& start[released@[i].0] == released@[i].1
                &&& !lane.map().contains_key(released@[i].0)
            },
            forall|i: int, j: int|
                0 <= i < j < released@.len() ==> evicted_first(
                    initial,
                    kind,
                    paragraphs_of(released@.take(i)),
                    #[trigger] released@[i],
                    #[trigger] released@[j],
                ),
            forall|i: int, p: ParagraphId|
                0 <= i < released@.len() && #[trigger] lane.map().contains_key(p) ==> evicted_first(
                    initial,
                    kind,
                    paragraphs_of(released@.take(i)),
                    #[trigger] released@[i],
                    (p, lane.map()[p]),
                ),
            forall|d: DocumentId| #[trigger] roots.roots_of(d) == roots_after(initial, kind, paragraphs_of(released@), d),
            *work == (CacheWork {
                scene_cache_accounted_bytes: charge_after(start_work.scene_cache_accounted_bytes, released@),
                evictions: (start_work.evictions + released@.len()) as usize,
                ..start_work
            }),
        decreases lane.entry_seq().len(),
    {
        let ghost prior = paragraphs_of(released@);
        let ghost before = lane.map();
        let ghost seq = lane.entry_seq();
        let best = least_recent(lane, roots, kind, Ghost(initial), Ghost(prior));
        let paragraph = lane.entries()[best].0;
        proof {
            assert(distinct_paragraphs(seq));
            assert(slot_of(seq, paragraph) == best as int);
            assert(before[paragraph] == seq[best as int].1);
        }
        let current = roots.get(paragraph.document);
        let dropped = dropped_roots(kind, paragraph, current);
        roots.set(paragraph.document, without_dropped(current, dropped));
        let removed = lane.remove(&paragraph);
        let entry = match removed {
            Some(entry) => entry,
            None => {
                proof {
                    assert(false);
                }
                return released;
            },
        };
        work.scene_cache_accounted_bytes = work.scene_cache_accounted_bytes.saturating_sub(
            entry.accounted_bytes,
        );
        work.evictions = work.evictions + 1;
        let ghost old_released = released@;
        released.push((paragraph, entry));
        proof {
            let now = released@;
            assert(now.drop_last() =~= old_released);
            assert(paragraphs_of(now) =~= prior.push(paragraph));
            assert(paragraphs_of(now).drop_last() =~= prior);
            assert forall|d: DocumentId| #[trigger] roots.roots_of(d) == roots_after(initial, kind, paragraphs_of(now), d) by {
                assert(paragraphs_of(now).last() == paragraph);
            }
            assert forall|i: int| 0 <= i < old_released.len() implies #[trigger] now.take(i) =~= old_released.take(i) by {}
            assert(now.take(old_released.len() as int) =~= old_released);
            assert forall|i: int, j: int|
                0 <= i < j < now.len() implies evicted_first(
                    initial,
                    kind,
                    paragraphs_of(now.take(i)),
                    #[trigger] now[i],
                    #[trigger] now[j],
                ) by {
                assert(now.take(i) =~= old_released.take(i) || i == old_released.len());
                if j == old_released.len() {
                    assert(before.contains_key(paragraph));
                    assert(now[j] == (paragraph, before[paragraph]));
                } else {
                    assert(now[i] == old_released[i] && now[j] == old_released[j]);
                }
            }
            assert forall|i: int, p: ParagraphId|
                0 <= i < now.len() && #[trigger] lane.map().contains_key(p) implies evicted_first(
                    initial,
                    kind,
                    paragraphs_of(now.take(i)),
                    #[trigger] now[i],
                    (p, lane.map()[p]),
                ) by {
                assert(before.contains_key(p) && lane.map()[p] == before[p]);
                if i == old_released.len() {
                    let slot = slot_of(seq, p);
                    assert(0 <= slot < seq.len() && seq[slot].0 == p);
                    assert(seq[slot].1 == before[p]);
                    assert(slot != best);
                    assert(evicted_first(initial, kind, prior, seq[best as int], seq[slot]));
                } else {
                    assert(now.take(i) =~= old_released.take(i));
                    assert(now[i] == old_released[i]);
                }
            }
        }
    }
    released
}

/// Lane enforcement kept `survivors` of `start` under `max_entries` and
/// released `released` in order: each released entry was, at its turn,
/// evicted before every later one and every survivor.
pub open spec fn lane_enforced<S>(
    start: Map<ParagraphId, RetainedEntry<S>>,
    start_len: nat,
    survivors: Map<ParagraphId, RetainedEntry<S>>,
    survivor_len: nat,
    initial: PublishedRootTable,
    kind: CacheKind,
    max_entries: usize,
    released: Seq<(ParagraphId, RetainedEntry<S>)>,
) -> bool {
    &&& survivor_len == if start_len <= max_entries {
        start_len
    } else {
        max_entries as nat
    }
    &&& released.len() + survivor_len == start_len
    &&& forall|p: ParagraphId| #[trigger] survivors.contains_key(p) ==> start.contains_key(p)
        && survivors[p] == start[p]
    &&& forall|i: int| 0 <= i < released.len() ==> {
        &&& start.contains_key((#[trigger] released[i]).0)
        &&& start[released[i].0] == released[i].1
        &&& !survivors.contains_key(released[i].0)
    }
    &&& forall|i: int, j: int|
        0 <= i < j < released.len() ==> evicted_first(
            initial,
            kind,
            paragraphs_of(released.take(i)),
            #[trigger] released[i],
            #[trigger] released[j],
        )
    &&& forall|i: int, p: ParagraphId|
        0 <= i < released.len() && #[trigger] survivors.contains_key(p) ==> evicted_first(
            initial,
            kind,
            paragraphs_of(released.take(i)),
            #[trigger] released[i],
            (p, survivors[p]),
        )
}

/// Removes every entry of `document` from one lane, counting each as a
/// release and releasing its charge.
#[verifier::rlimit(40)]
#[verifier::spinoff_prover]
fn release_in_lane<S>(
    lane: &mut ParagraphCacheStore<RetainedEntry<S>>,
    work: &mut CacheWork,
    document: DocumentId,
) -> (released: Vec<(ParagraphId, RetainedEntry<S>)>)
    requires
        old(lane).wf(),
    ensures
        final(lane).wf(),
        lane_released(old(lane).map(), final(lane).map(), document, released@),
        released@.len() + final(lane).entry_seq().len() == old(lane).entry_seq().len(),
        *final(work) == (CacheWork {
            scene_cache_accounted_bytes: charge_after(old(work).scene_cache_accounted_bytes, released@),
            releases: saturate_count(old(work).releases + released@.len()),
            ..*old(work)
        }),
{
    let ghost start = old(lane).map();
    let ghost start_len = old(lane).entry_seq().len();
    let ghost start_work = *old(work);
    let mut released: Vec<(ParagraphId, RetainedEntry<S>)> = Vec::new();
    let mut i: usize = 0;
    while i < lane.len()
        invariant
            lane.wf(),
            i <= lane.entry_seq().len(),
            released@.len() + lane.entry_seq().len() == start_len,
            forall|k: int| 0 <= k < i ==> (#[trigger] lane.entry_seq()[k]).0.document != document,
            forall|p: ParagraphId| #[trigger] lane.map().contains_key(p) ==> start.contains_key(p)
                && lane.map()[p] == start[p],
            forall|p: ParagraphId| #[trigger] start.contains_key(p) && p.document != document
                ==> lane.map().contains_key(p),
            forall|j: int| 0 <= j < released@.len() ==> {
                &&& start.contains_key((#[trigger] released@[j]).0)
                &&& start[released@[j].0] == released@[j].1
                &&& released@[j].0.document == document
                &&& !lane.map().contains_key(released@[j].0)
            },
            forall|p: ParagraphId| #[trigger] start.contains_key(p) && !lane.map().contains_key(p)
                ==> exists|j: int| 0 <= j < released@.len() && (#[trigger] released@[j]).0 == p,
            *work == (CacheWork {
                scene_cache_accounted_bytes: charge_after(start_work.scene_cache_accounted_bytes, released@),
                releases: saturate_count(start_work.releases + released@.len()),
                ..start_work
            }),
        decreases lane.entry_seq().len() - i,
    {
        let paragraph = lane.entries()[i].0;
        if paragraph.document == document {
            let ghost seq = lane.entry_seq();
            let ghost before = lane.map();
            proof {
                assert(distinct_paragraphs(seq));
                assert(slot_of(seq, paragraph) == i as int);
            }
            let removed = lane.remove(&paragraph);
            let entry = match removed {
                Some(entry) => entry,
                None => {
                    proof {
                        assert(false);
                    }
                    return released;
                },
            };
            work.scene_cache_accounted_bytes = work.scene_cache_accounted_bytes.saturating_sub(
                entry.accounted_bytes,
            );
            work.releases = work.releases.saturating_add(1);
            let ghost old_released = released@;
            released.push((paragraph, entry));
            proof {
                let now = released@;
                assert(now.drop_last() =~= old_released);
                assert(lane.entry_seq() == swap_removed(seq, i as int));
                assert forall|k: int| 0 <= k < i implies (#[trigger] lane.entry_seq()[k]).0.document != document by {
                    assert(lane.entry_seq()[k] == seq[k]);
                }
                assert forall|p: ParagraphId| #[trigger] start.contains_key(p) && !lane.map().contains_key(p)
                    implies exists|j: int| 0 <= j < now.len() && (#[trigger] now[j]).0 == p by {
                    if p == paragraph {
                        assert(now[old_released.len() as int].0 == p);
                    } else {
                        assert(!before.contains_key(p));
                        let j = choose|j: int| 0 <= j < old_released.len() && (#[trigger] old_released[j]).0 == p;
                        assert(now[j] == old_released[j]);
                    }
                }
                assert forall|j: int| 0 <= j < now.len() implies {
                    &&& start.contains_key((#[trigger] now[j]).0)
                    &&& start[now[j].0] == now[j].1
                    &&& now[j].0.document == document
                    &&& !lane.map().contains_key(now[j].0)
                } by {
                    if j < old_released.len() {
                        assert(now[j] == old_released[j]);
                    }
                }
            }
        } else {
            i += 1;
        }
    }
    released
}

/// A count, saturating at the largest `usize`.
pub open spec fn saturate_count(count: int) -> usize {
    if count > usize::MAX {
        usize::MAX
    } else {
        count as usize
    }
}

/// Releasing `document` from one lane kept exactly its other entries and
/// released exactly its own, each once.
pub open spec fn lane_released<S>(
    start: Map<ParagraphId, RetainedEntry<S>>,
    survivors: Map<ParagraphId, RetainedEntry<S>>,
    document: DocumentId,
    released: Seq<(ParagraphId, RetainedEntry<S>)>,
) -> bool {
    &&& forall|p: ParagraphId| #[trigger] survivors.contains_key(p) <==> start.contains_key(p)
        && p.document != document
    &&& forall|p: ParagraphId| #[trigger] survivors.contains_key(p) ==> survivors[p] == start[p]
    &&& forall|j: int| 0 <= j < released.len() ==> {
        &&& start.contains_key((#[trigger] released[j]).0)
        &&& start[released[j].0] == released[j].1
        &&& released[j].0.document == document
    }
    &&& forall|p: ParagraphId| #[trigger] start.contains_key(p) && p.document == document
        ==> exists|j: int| 0 <= j < released.len() && (#[trigger] released[j]).0 == p
}

fn later_use(a: u64, b: u64) -> (used: u64)
    ensures
        used == later(a, b),
{
    if a >= b {
        a
    } else {
        b
    }
}

impl<S> EngineCaches<S> {
    /// Evicts least recent entries of lane `kind` until at most
    /// `max_entries` remain. Each eviction takes the entry ranked lowest by
    /// its own last use and the use of the roots that pin it (ties in
    /// paragraph order), drops the published roots it invalidates, releases
    /// its charge and counts it. The other lane is untouched. The evicted
    /// entries are returned in order so that their adapter state can be
    /// released.
    pub fn enforce_lane_budget(&mut self, kind: CacheKind, max_entries: usize) -> (released: Vec<
        (ParagraphId, RetainedEntry<S>),
    >)
        requires
            old(self).wf(),
            old(self).work().evictions + old(self).lane(kind).len() <= usize::MAX,
        ensures
            final(self).wf(),
            lane_enforced(
                old(self).lane_map(kind),
                old(self).lane(kind).len(),
                final(self).lane_map(kind),
                final(self).lane(kind).len(),
                old(self).root_table(),
                kind,
                max_entries,
                released@,
            ),
            final(self).lane(other_lane(kind)) == old(self).lane(other_lane(kind)),
            final(self).lane_map(other_lane(kind)) == old(self).lane_map(other_lane(kind)),
            old(self).lane(kind).len() <= max_entries ==> final(self).lane(kind) == old(self).lane(kind)
                && released@.len() == 0,
            forall|d: DocumentId| #[trigger] final(self).roots_of(d) == roots_after(
                old(self).root_table(),
                kind,
                paragraphs_of(released@),
                d,
            ),
            final(self).work() == (CacheWork {
                scene_cache_accounted_bytes: charge_after(old(self).work().scene_cache_accounted_bytes, released@),
                evictions: (old(self).work().evictions + released@.len()) as usize,
                ..old(self).work()
            }),
            final(self).budget() == old(self).budget(),
    {
        match kind {
            CacheKind::Committed => enforce_lane(
                &mut self.committed,
                &mut self.roots,
                &mut self.work,
                kind,
                max_entries,
            ),
            CacheKind::Composition => enforce_lane(
                &mut self.composition,
                &mut self.roots,
                &mut self.work,
                kind,
                max_entries,
            ),
        }
    }

    /// Enforces both lane budgets, committed first, each against its own
    /// limit, and returns the evicted entries of each lane.
    pub fn enforce_budget(&mut self) -> (released: (
        Vec<(ParagraphId, RetainedEntry<S>)>,
        Vec<(ParagraphId, RetainedEntry<S>)>,
    ))
        requires
            old(self).wf(),
            old(self).work().evictions + old(self).lane(CacheKind::Committed).len() + old(
                self,
            ).lane(CacheKind::Composition).len() <= usize::MAX,
        ensures
            final(self).wf(),
            final(self).lane(CacheKind::Committed).len() == if old(self).lane(
                CacheKind::Committed,
            ).len() <= old(self).budget().max_entries() {
                old(self).lane(CacheKind::Committed).len()
            } else {
                old(self).budget().max_entries() as nat
            },
            final(self).lane(CacheKind::Composition).len() == if old(self).lane(
                CacheKind::Composition,
            ).len() <= old(self).budget().max_composition_entries() {
                old(self).lane(CacheKind::Composition).len()
            } else {
                old(self).budget().max_composition_entries() as nat
            },
            released.0@.len() + final(self).lane(CacheKind::Committed).len() == old(self).lane(
                CacheKind::Committed,
            ).len(),
            released.1@.len() + final(self).lane(CacheKind::Composition).len() == old(self).lane(
                CacheKind::Composition,
            ).len(),
            final(self).work().evictions == old(self).work().evictions + released.0@.len()
                + released.1@.len(),
            final(self).budget() == old(self).budget(),
    {
        let committed_limit = self.budget.max_entries();
        let composition_limit = self.budget.max_composition_entries();
        let committed = self.enforce_lane_budget(CacheKind::Committed, committed_limit);
        let composition = self.enforce_lane_budget(CacheKind::Composition, composition_limit);
        (committed, composition)
    }

    /// Releases everything retained for `document`: its published roots
    /// and every entry of its paragraphs in both lanes, each counted as a
    /// release with its charge released. Every other entry and every other
    /// document's roots stay as they were.
    pub fn release_document(&mut self, document: DocumentId) -> (released: Vec<
        (ParagraphId, RetainedEntry<S>),
    >)
        requires
            old(self).wf(),
        ensures
            final(self).wf(),
            exists|committed: Seq<(ParagraphId, RetainedEntry<S>)>, composition: Seq<(ParagraphId, RetainedEntry<S>)>|
                {
                    &&& released@ == committed + composition
                    &&& lane_released(
                        old(self).lane_map(CacheKind::Committed),
                        final(self).lane_map(CacheKind::Committed),
                        document,
                        committed,
                    )
                    &&& lane_released(
                        old(self).lane_map(CacheKind::Composition),
                        final(self).lane_map(CacheKind::Composition),
                        document,
                        composition,
                    )
                    &&& committed.len() + final(self).lane(CacheKind::Committed).len() == old(
                        self,
                    ).lane(CacheKind::Committed).len()
                    &&& composition.len() + final(self).lane(CacheKind::Composition).len() == old(
                        self,
                    ).lane(CacheKind::Composition).len()
                    &&& final(self).work().scene_cache_accounted_bytes == charge_after(
                        charge_after(old(self).work().scene_cache_accounted_bytes, committed),
                        composition,
                    )
                    &&& final(self).work().releases == saturate_count(
                        saturate_count(old(self).work().releases + committed.len()) + composition.len(),
                    )
                },
            final(self).work().evictions == old(self).work().evictions,
            final(self).work().hits == old(self).work().hits,
            final(self).work().misses == old(self).work().misses,
            final(self).work().peak_entries == old(self).work().peak_entries,
            final(self).roots_of(document) == no_roots(),
            forall|d: DocumentId| d != document ==> #[trigger] final(self).roots_of(d) == old(self).roots_of(d),
            final(self).budget() == old(self).budget(),
    {
        self.roots.set(document, PublishedRoots { document: None, block: None, composition: None });
        let mut released = release_in_lane(&mut self.committed, &mut self.work, document);
        let ghost committed = released@;
        let mut composition = release_in_lane(&mut self.composition, &mut self.work, document);
        let ghost composition_seq = composition@;
        released.append(&mut composition);
        proof {
            assert(released@ == committed + composition_seq);
        }
        released
    }

    /// Releases everything: both lanes and every published root. Each
    /// released entry is counted as a release, and no charge remains.
    pub fn clear(&mut self) -> (released: usize)
        requires
            old(self).wf(),
            old(self).work().releases + old(self).lane(CacheKind::Committed).len() + old(
                self,
            ).lane(CacheKind::Composition).len() <= usize::MAX,
        ensures
            final(self).wf(),
            final(self).lane(CacheKind::Committed).len() == 0,
            final(self).lane(CacheKind::Composition).len() == 0,
            forall|d: DocumentId| #[trigger] final(self).roots_of(d) == no_roots(),
            released == old(self).lane(CacheKind::Committed).len() + old(self).lane(
                CacheKind::Composition,
            ).len(),
            final(self).work() == (CacheWork {
                scene_cache_accounted_bytes: 0,
                releases: (old(self).work().releases + released) as usize,
                ..old(self).work()
            }),
            final(self).budget() == old(self).budget(),
    {
        let released = self.committed.len() + self.composition.len();
        self.work.releases = self.work.releases + released;
        self.committed.clear();
        self.composition.clear();
        self.roots.clear();
        self.work.scene_cache_accounted_bytes = 0;
        released
    }
}

/// The lane that is not `kind`.
pub open spec fn other_lane(kind: CacheKind) -> CacheKind {
    match kind {
        CacheKind::Committed => CacheKind::Composition,
        CacheKind::Composition => CacheKind::Committed,
    }
}

/// What the adapter side of a preparation reports to the engine.
#[derive(Debug)]
pub enum PrepareEvent<S> {
    /// A paragraph was formed and validated; its entry is to be retained in
    /// lane `kind`.
    Formed {
        /// The lane the entry belongs to.
        kind: CacheKind,
        /// The formed paragraph.
        paragraph: ParagraphId,
        /// The entry to retain.
        entry: RetainedEntry<S>,
    },
    /// A paragraph failed; the preparation ends without a scene.
    Failed,
    /// Every paragraph was prepared; the scene may be published.
    Finished {
        /// The prepared document.
        document: DocumentId,
        /// The edited paragraph of a composition scene; none for a
        /// committed scene.
        composition_target: Option<ParagraphId>,
        /// Engine clock at publication.
        last_used: u64,
        /// Every paragraph of the scene is still retained.
        all_resident: bool,
    },
}

/// What the engine does next.
#[derive(Debug)]
pub enum EngineAction<S> {
    /// Go on with the next paragraph, after releasing the adapter state of
    /// the entries evicted from the committed and composition lanes.
    Continue {
        /// Entries evicted from the committed lane.
        committed: Vec<(ParagraphId, RetainedEntry<S>)>,
        /// Entries evicted from the composition lane.
        composition: Vec<(ParagraphId, RetainedEntry<S>)>,
    },
    /// The preparation failed: nothing is published.
    Abort,
    /// The scene is published as the document's root.
    Published,
    /// The scene is returned, but not published, since some of its
    /// paragraphs are no longer retained.
    Unpublished,
}

/// `roots` with the scene of `document` or of its composition set to
/// `last_used`, or removed.
pub open spec fn republished(
    roots: PublishedRoots,
    composition_target: Option<ParagraphId>,
    last_used: u64,
    publish: bool,
) -> PublishedRoots {
    match composition_target {
        None => PublishedRoots {
            document: if publish {
                Some(last_used)
            } else {
                None
            },
            ..roots
        },
        Some(target) => PublishedRoots {
            composition: if publish {
                Some(CompositionRoot { target, last_used })
            } else {
                None
            },
            ..roots
        },
    }
}

/// Publishing a finished scene sets its root (the document scene, or the
/// composition scene of the edited paragraph) to its last use; an
/// unpublished scene leaves that root empty, withdrawing an earlier
/// publication. The root of the other kind is kept either way.
pub proof fn lemma_publication_sets_or_withdraws(
    roots: PublishedRoots,
    composition_target: Option<ParagraphId>,
    last_used: u64,
    publish: bool,
)
    ensures
        ({
            let after = republished(roots, composition_target, last_used, publish);
            &&& composition_target is None ==> {
                &&& after.document == (if publish {
                    Some(last_used)
                } else {
                    None::<u64>
                })
                &&& after.composition == roots.composition
            }
            &&& composition_target matches Some(target) ==> {
                &&& after.composition == (if publish {
                    Some(CompositionRoot { target, last_used })
                } else {
                    None::<CompositionRoot>
                })
                &&& after.document == roots.document
            }
            &&& after.block == roots.block
        }),
{
}

impl<S> EngineCaches<S> {
    /// Decides the next engine step from what preparation reports.
    ///
    /// A formed paragraph is retained in its lane, its access counted, and
    /// both lanes are held to their budgets; an entry of one lane never
    /// evicts an entry of the other lane while that lane is within its
    /// budget. A failure changes nothing: no root is published and no entry
    /// is touched. A finished scene is published when all its paragraphs are
    /// still retained, and otherwise its previous publication is withdrawn.
    pub fn step(&mut self, event: PrepareEvent<S>) -> (action: EngineAction<S>)
        requires
            old(self).wf(),
            old(self).work().evictions + old(self).lane(CacheKind::Committed).len() + old(
                self,
            ).lane(CacheKind::Composition).len() < usize::MAX,
            old(self).work().hits < usize::MAX,
            old(self).work().misses < usize::MAX,
        ensures
            final(self).wf(),
            final(self).budget() == old(self).budget(),
            event is Failed ==> {
                &&& action is Abort
                &&& final(self).lane(CacheKind::Committed) == old(self).lane(CacheKind::Committed)
                &&& final(self).lane(CacheKind::Composition) == old(self).lane(
                    CacheKind::Composition,
                )
                &&& final(self).root_table() == old(self).root_table()
                &&& final(self).work() == old(self).work()
            },
            event matches PrepareEvent::Finished { document, composition_target, last_used, all_resident } ==> {
                &&& (if all_resident {
                    action is Published
                } else {
                    action is Unpublished
                })
                &&& final(self).lane(CacheKind::Committed) == old(self).lane(CacheKind::Committed)
                &&& final(self).lane(CacheKind::Composition) == old(self).lane(
                    CacheKind::Composition,
                )
                &&& final(self).roots_of(document) == republished(
                    old(self).roots_of(document),
                    composition_target,
                    last_used,
                    all_resident,
                )
                &&& forall|d: DocumentId| d != document ==> #[trigger] final(self).roots_of(d)
                    == old(self).roots_of(d)
                &&& final(self).work() == old(self).work()
            },
            event matches PrepareEvent::Formed { kind, paragraph, entry } ==> {
                &&& action is Continue
                &&& final(self).lane(CacheKind::Committed).len() <= old(self).budget().max_entries()
                &&& final(self).lane(CacheKind::Composition).len() <= old(self).budget().max_composition_entries()
                &&& forall|p: ParagraphId| #[trigger] final(self).lane_map(kind).contains_key(p) ==> (p
                    == paragraph && final(self).lane_map(kind)[p] == entry) || (p != paragraph
                    && old(self).lane_map(kind).contains_key(p) && final(self).lane_map(kind)[p]
                    == old(self).lane_map(kind)[p])
                &&& old(self).lane(other_lane(kind)).len() <= lane_limit(old(self).budget(), other_lane(kind))
                    ==> final(self).lane(other_lane(kind)) == old(self).lane(other_lane(kind))
                    && final(self).lane_map(other_lane(kind)) == old(self).lane_map(other_lane(kind))
            },
    {
        match event {
            PrepareEvent::Failed => EngineAction::Abort,
            PrepareEvent::Finished { document, composition_target, last_used, all_resident } => {
                let current = self.roots.get(document);
                let roots = match composition_target {
                    None => PublishedRoots {
                        document: if all_resident {
                            Some(last_used)
                        } else {
                            None
                        },
                        ..current
                    },
                    Some(target) => PublishedRoots {
                        composition: if all_resident {
                            Some(CompositionRoot { target, last_used })
                        } else {
                            None
                        },
                        ..current
                    },
                };
                self.roots.set(document, roots);
                if all_resident {
                    EngineAction::Published
                } else {
                    EngineAction::Unpublished
                }
            },
            PrepareEvent::Formed { kind, paragraph, entry } => {
                let accounted = entry.accounted_bytes;
                let replaced = match kind {
                    CacheKind::Committed => self.committed.insert(paragraph, entry),
                    CacheKind::Composition => self.composition.insert(paragraph, entry),
                };
                let (previous_use, previous_bytes) = match &replaced {
                    Some(old_entry) => (Some(old_entry.last_used), old_entry.accounted_bytes),
                    None => (None, 0),
                };
                let resident = self.committed.len() + self.composition.len();
                self.work.record_access(previous_bytes, accounted, previous_use, resident);
                let committed_limit = self.budget.max_entries();
                let composition_limit = self.budget.max_composition_entries();
                let committed = self.enforce_lane_budget(CacheKind::Committed, committed_limit);
                let composition = self.enforce_lane_budget(CacheKind::Composition, composition_limit);
                EngineAction::Continue { committed, composition }
            },
        }
    }
}

/// The roots after reusing the published document scene, or the published
/// composition scene of `composition_target`, at `last_used`: the scene's
/// last use moves there when it is published; nothing changes otherwise.
pub open spec fn refreshed(
    roots: PublishedRoots,
    composition_target: Option<ParagraphId>,
    last_used: u64,
) -> Option<PublishedRoots> {
    match composition_target {
        None => if roots.document is Some {
            Some(PublishedRoots { document: Some(last_used), ..roots })
        } else {
            None
        },
        Some(target) => if roots.composition matches Some(root) && root.target == target {
            Some(PublishedRoots { composition: Some(CompositionRoot { target, last_used }), ..roots })
        } else {
            None
        },
    }
}

impl<S> EngineCaches<S> {
    /// Reuses a published scene of `document` (its composition scene when
    /// `composition_target` names the edited paragraph), recording its use
    /// at `last_used`. Returns whether such a scene is published; when none
    /// is, nothing changes. Entries and counters are untouched either way.
    pub fn reuse_published(
        &mut self,
        document: DocumentId,
        composition_target: Option<ParagraphId>,
        last_used: u64,
    ) -> (reused: bool)
        requires
            old(self).wf(),
        ensures
            final(self).wf(),
            reused == refreshed(old(self).roots_of(document), composition_target, last_used) is Some,
            final(self).roots_of(document) == match refreshed(old(self).roots_of(document), composition_target, last_used) {
                Some(roots) => roots,
                None => old(self).roots_of(document),
            },
            forall|d: DocumentId| d != document ==> #[trigger] final(self).roots_of(d) == old(self).roots_of(d),
            final(self).lane(CacheKind::Committed) == old(self).lane(CacheKind::Committed),
            final(self).lane(CacheKind::Composition) == old(self).lane(CacheKind::Composition),
            final(self).work() == old(self).work(),
            final(self).budget() == old(self).budget(),
    {
        let current = self.roots.get(document);
        let next = match composition_target {
            None => match current.document {
                Some(_) => Some(PublishedRoots { document: Some(last_used), ..current }),
                None => None,
            },
            Some(target) => match current.composition {
                Some(root) => if root.target == target {
                    Some(PublishedRoots { composition: Some(CompositionRoot { target, last_used }), ..current })
                } else {
                    None
                },
                None => None,
            },
        };
        match next {
            Some(roots) => {
                self.roots.set(document, roots);
                true
            },
            None => false,
        }
    }
}

/// The entry limit of lane `kind`.
pub open spec fn lane_limit(budget: CacheBudget, kind: CacheKind) -> usize {
    match kind {
        CacheKind::Committed => budget.max_entries(),
        CacheKind::Composition => budget.max_composition_entries(),
    }
}

} // verus!
