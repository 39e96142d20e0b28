//! Retained-cache budgets, activity counters, and their diagnostics.
//!
//! Committed and transient composition geometry are budgeted independently,
//! so composition cannot evict committed work. Shared preparation and
//! paragraph-adapter facts have byte budgets of their own.

use vstd::prelude::*;

use crate::accounting::saturate;
use crate::residency::SceneResidencyBytes;

verus! {

/// Independent retained-geometry limits for committed and composition lanes.
#[derive(Clone, Copy, Debug, PartialEq, Eq, Structural)]
pub struct CacheBudget {
    max_entries: usize,
    max_composition_entries: usize,
    shared_preparation_bytes: usize,
    adapter_facts_bytes: usize,
}

impl CacheBudget {
    /// Maximum retained committed geometry entries.
    pub closed spec fn spec_max_entries(self) -> usize {
        self.max_entries
    }

    /// Maximum retained composition geometry entries.
    pub closed spec fn spec_max_composition_entries(self) -> usize {
        self.max_composition_entries
    }

    /// Byte budget of shared preparation.
    pub closed spec fn spec_shared_preparation_bytes(self) -> usize {
        self.shared_preparation_bytes
    }

    /// Byte budget of identity-local adapter facts.
    pub closed spec fn spec_adapter_facts_bytes(self) -> usize {
        self.adapter_facts_bytes
    }

    /// This budget with its shared-preparation byte budget replaced.
    pub closed spec fn spec_with_shared_preparation_bytes(self, bytes: usize) -> Self {
        CacheBudget { shared_preparation_bytes: bytes, ..self }
    }

    /// Budgets are equal exactly when all four limits agree.
    pub proof fn lemma_limits_identify(a: CacheBudget, b: CacheBudget)
        ensures
            a == b <==> (a.spec_max_entries() == b.spec_max_entries()
                && a.spec_max_composition_entries() == b.spec_max_composition_entries()
                && a.spec_shared_preparation_bytes() == b.spec_shared_preparation_bytes()
                && a.spec_adapter_facts_bytes() == b.spec_adapter_facts_bytes()),
    {
    }

    /// Setting the shared-preparation bytes keeps the other limits, and a
    /// later setting overrides an earlier one.
    pub proof fn lemma_shared_preparation_bytes_override(
        budget: CacheBudget,
        first: usize,
        second: usize,
    )
        ensures
            budget.spec_with_shared_preparation_bytes(first).spec_shared_preparation_bytes()
                == first,
            budget.spec_with_shared_preparation_bytes(first).spec_max_entries()
                == budget.spec_max_entries(),
            budget.spec_with_shared_preparation_bytes(first).spec_max_composition_entries()
                == budget.spec_max_composition_entries(),
            budget.spec_with_shared_preparation_bytes(first).spec_adapter_facts_bytes()
                == budget.spec_adapter_facts_bytes(),
            budget.spec_with_shared_preparation_bytes(first).spec_with_shared_preparation_bytes(
                second,
            ) == budget.spec_with_shared_preparation_bytes(second),
    {
    }

    /// Creates a budget with the given maximum in each geometry lane.
    ///
    /// A zero lane budget still materializes caller-owned outputs without
    /// retaining entries in that lane. Shared preparation and adapter facts
    /// get no bytes until asked for.
    pub fn new(max_entries: usize) -> (budget: Self)
        ensures
            budget.max_entries() == max_entries,
            budget.max_composition_entries() == max_entries,
            budget.shared_preparation_bytes() == 0,
            budget.adapter_facts_bytes() == 0,
    {
        CacheBudget {
            max_entries,
            max_composition_entries: max_entries,
            shared_preparation_bytes: 0,
            adapter_facts_bytes: 0,
        }
    }

    /// Returns a budget with a distinct transient-composition entry limit.
    ///
    /// Zero disables engine-owned composition retention without affecting
    /// committed geometry.
    pub fn with_composition_entries(self, max_entries: usize) -> (budget: Self)
        ensures
            budget.max_entries() == self.max_entries(),
            budget.max_composition_entries() == max_entries,
            budget.shared_preparation_bytes() == self.shared_preparation_bytes(),
            budget.adapter_facts_bytes() == self.adapter_facts_bytes(),
    {
        CacheBudget { max_composition_entries: max_entries, ..self }
    }

    /// Returns a budget that may retain this many bytes of exact shared
    /// paragraph preparation.
    #[verifier::when_used_as_spec(spec_with_shared_preparation_bytes)]
    pub fn with_shared_preparation_bytes(self, bytes: usize) -> (budget: Self)
        ensures
            budget == self.spec_with_shared_preparation_bytes(bytes),
            budget.max_entries() == self.max_entries(),
            budget.max_composition_entries() == self.max_composition_entries(),
            budget.shared_preparation_bytes() == bytes,
            budget.adapter_facts_bytes() == self.adapter_facts_bytes(),
    {
        CacheBudget { shared_preparation_bytes: bytes, ..self }
    }

    /// Returns a budget that may retain this many bytes of identity-local
    /// paragraph-adapter facts.
    pub fn with_adapter_facts_bytes(self, bytes: usize) -> (budget: Self)
        ensures
            budget.max_entries() == self.max_entries(),
            budget.max_composition_entries() == self.max_composition_entries(),
            budget.shared_preparation_bytes() == self.shared_preparation_bytes(),
            budget.adapter_facts_bytes() == bytes,
    {
        CacheBudget { adapter_facts_bytes: bytes, ..self }
    }

    /// Returns the maximum number of retained committed geometry entries.
    #[verifier::when_used_as_spec(spec_max_entries)]
    pub fn max_entries(self) -> (max: usize)
        ensures
            max == self.spec_max_entries(),
    {
        self.max_entries
    }

    /// Returns the maximum number of retained transient-composition entries.
    #[verifier::when_used_as_spec(spec_max_composition_entries)]
    pub fn max_composition_entries(self) -> (max: usize)
        ensures
            max == self.spec_max_composition_entries(),
    {
        self.max_composition_entries
    }

    /// Returns the maximum accounting charge for shared preparation entries.
    #[verifier::when_used_as_spec(spec_shared_preparation_bytes)]
    pub fn shared_preparation_bytes(self) -> (bytes: usize)
        ensures
            bytes == self.spec_shared_preparation_bytes(),
    {
        self.shared_preparation_bytes
    }

    /// Returns the deterministic byte budget for identity-local adapter facts.
    #[verifier::when_used_as_spec(spec_adapter_facts_bytes)]
    pub fn adapter_facts_bytes(self) -> (bytes: usize)
        ensures
            bytes == self.spec_adapter_facts_bytes(),
    {
        self.adapter_facts_bytes
    }
}

/// Retained paragraph-adapter facts, as a backend reports them.
#[derive(Clone, Copy, Debug, PartialEq, Eq, Structural)]
pub struct ParagraphFormationCacheDiagnostics {
    /// Deterministic byte budget for retained facts.
    pub budget_bytes: usize,
    /// Retained fact entries.
    pub entries: usize,
    /// Deterministic charge of the retained facts.
    pub resident_bytes: usize,
}

impl Default for ParagraphFormationCacheDiagnostics {
    fn default() -> (diagnostics: Self)
        ensures
            diagnostics == (ParagraphFormationCacheDiagnostics {
                budget_bytes: 0,
                entries: 0,
                resident_bytes: 0,
            }),
    {
        ParagraphFormationCacheDiagnostics { budget_bytes: 0, entries: 0, resident_bytes: 0 }
    }
}

/// Counters of the shared-preparation cache.
#[derive(Clone, Copy, Debug, PartialEq, Eq, Structural)]
pub struct SharedPreparationDiagnostics {
    /// Configured byte budget.
    pub budget: usize,
    /// Resident entries.
    pub entries: usize,
    /// Current accounting charge.
    pub resident_bytes: usize,
    /// Highest observed accounting charge.
    pub peak_bytes: usize,
    /// Exact hits.
    pub hits: usize,
    /// Eligible lookups that missed.
    pub misses: usize,
    /// Entries removed to enforce the budget.
    pub evictions: usize,
    /// Prepared values served but too large to retain.
    pub oversized_non_retentions: usize,
}

/// Cumulative activity of the geometry lanes.
#[derive(Clone, Copy, Debug, PartialEq, Eq, Structural)]
pub struct CacheWork {
    /// Deterministic capacity charge of retained scene-cache data.
    pub scene_cache_accounted_bytes: usize,
    /// Highest observed resident entry count.
    pub peak_entries: usize,
    /// Lookups that found a resident entry.
    pub hits: usize,
    /// Lookups that created an entry.
    pub misses: usize,
    /// Entries removed to enforce the budget.
    pub evictions: usize,
    /// Entries removed by explicit release.
    pub releases: usize,
}

/// The larger of two counts.
pub open spec fn max_usize(a: usize, b: usize) -> usize {
    if a >= b {
        a
    } else {
        b
    }
}

/// The charge after replacing `previous` bytes with `current` bytes,
/// saturating at both ends.
pub open spec fn recharged(total: usize, previous: usize, current: usize) -> usize {
    if previous == current {
        total
    } else {
        let lowered: int = if total >= previous {
            total - previous
        } else {
            0
        };
        saturate(lowered + current) as usize
    }
}

impl CacheWork {
    /// No activity.
    pub fn new() -> (work: Self)
        ensures
            work == (CacheWork {
                scene_cache_accounted_bytes: 0,
                peak_entries: 0,
                hits: 0,
                misses: 0,
                evictions: 0,
                releases: 0,
            }),
    {
        CacheWork {
            scene_cache_accounted_bytes: 0,
            peak_entries: 0,
            hits: 0,
            misses: 0,
            evictions: 0,
            releases: 0,
        }
    }

    /// Records one lookup of a paragraph entry.
    ///
    /// The entry's charge moved from `previous_accounted_bytes` to
    /// `current_accounted_bytes`; it was a hit when the entry had been used
    /// before; `resident_entries` counts both lanes after the lookup.
    pub fn record_access(
        &mut self,
        previous_accounted_bytes: usize,
        current_accounted_bytes: usize,
        previous_use: Option<u64>,
        resident_entries: usize,
    )
        requires
            previous_use is Some ==> old(self).hits < usize::MAX,
            previous_use is None ==> old(self).misses < usize::MAX,
        ensures
            final(self).scene_cache_accounted_bytes == recharged(
                old(self).scene_cache_accounted_bytes,
                previous_accounted_bytes,
                current_accounted_bytes,
            ),
            final(self).hits == old(self).hits + (if previous_use is Some {
                1int
            } else {
                0
            }),
            final(self).misses == old(self).misses + (if previous_use is None {
                1int
            } else {
                0
            }),
            final(self).peak_entries == max_usize(old(self).peak_entries, resident_entries),
            final(self).evictions == old(self).evictions,
            final(self).releases == old(self).releases,
    {
        if previous_accounted_bytes != current_accounted_bytes {
            self.scene_cache_accounted_bytes = self.scene_cache_accounted_bytes.saturating_sub(
                previous_accounted_bytes,
            ).saturating_add(current_accounted_bytes);
        }
        if previous_use.is_some() {
            self.hits += 1;
        } else {
            self.misses += 1;
        }
        if resident_entries > self.peak_entries {
            self.peak_entries = resident_entries;
        }
    }

    /// Records an entry evicted to enforce a lane budget, releasing its
    /// charge when it was resident.
    pub fn record_eviction(&mut self, removed_accounted_bytes: Option<usize>)
        requires
            old(self).evictions < usize::MAX,
        ensures
            final(self).scene_cache_accounted_bytes == match removed_accounted_bytes {
                Some(bytes) => if old(self).scene_cache_accounted_bytes >= bytes {
                    (old(self).scene_cache_accounted_bytes - bytes) as usize
                } else {
                    0
                },
                None => old(self).scene_cache_accounted_bytes,
            },
            final(self).evictions == old(self).evictions + 1,
            final(self).peak_entries == old(self).peak_entries,
            final(self).hits == old(self).hits,
            final(self).misses == old(self).misses,
            final(self).releases == old(self).releases,
    {
        if let Some(bytes) = removed_accounted_bytes {
            self.scene_cache_accounted_bytes = self.scene_cache_accounted_bytes.saturating_sub(
                bytes,
            );
        }
        self.evictions += 1;
    }
}

/// Snapshot of coordinated retained-cache state and cumulative activity.
#[derive(Clone, Copy, Debug, PartialEq, Eq, Structural)]
pub struct CacheDiagnostics {
    budget: usize,
    composition_budget: usize,
    committed_entries: usize,
    composition_entries: usize,
    adapter_facts: Option<ParagraphFormationCacheDiagnostics>,
    scene_cache_accounted_bytes: usize,
    scene_cache_residency: SceneResidencyBytes,
    peak_entries: usize,
    hits: usize,
    misses: usize,
    evictions: usize,
    releases: usize,
    shared: SharedPreparationDiagnostics,
}


impl CacheDiagnostics {
    pub closed spec fn spec_budget(self) -> usize {
        self.budget
    }

    pub closed spec fn spec_composition_budget(self) -> usize {
        self.composition_budget
    }

    pub closed spec fn spec_committed_entries(self) -> usize {
        self.committed_entries
    }

    pub closed spec fn spec_composition_entries(self) -> usize {
        self.composition_entries
    }

    pub closed spec fn spec_adapter_facts(self) -> Option<ParagraphFormationCacheDiagnostics> {
        self.adapter_facts
    }

    pub closed spec fn spec_scene_cache_accounted_bytes(self) -> usize {
        self.scene_cache_accounted_bytes
    }

    pub closed spec fn spec_scene_cache_residency(self) -> SceneResidencyBytes {
        self.scene_cache_residency
    }

    pub closed spec fn spec_peak_entries(self) -> usize {
        self.peak_entries
    }

    pub closed spec fn spec_hits(self) -> usize {
        self.hits
    }

    pub closed spec fn spec_misses(self) -> usize {
        self.misses
    }

    pub closed spec fn spec_evictions(self) -> usize {
        self.evictions
    }

    pub closed spec fn spec_releases(self) -> usize {
        self.releases
    }

    pub closed spec fn spec_shared_preparation_budget(self) -> usize {
        self.shared.budget
    }

    pub closed spec fn spec_shared_preparation_entries(self) -> usize {
        self.shared.entries
    }

    pub closed spec fn spec_shared_preparation_resident_bytes(self) -> usize {
        self.shared.resident_bytes
    }

    pub closed spec fn spec_shared_preparation_peak_bytes(self) -> usize {
        self.shared.peak_bytes
    }

    pub closed spec fn spec_shared_preparation_hits(self) -> usize {
        self.shared.hits
    }

    pub closed spec fn spec_shared_preparation_misses(self) -> usize {
        self.shared.misses
    }

    pub closed spec fn spec_shared_preparation_evictions(self) -> usize {
        self.shared.evictions
    }

    pub closed spec fn spec_shared_preparation_oversized_non_retentions(self) -> usize {
        self.shared.oversized_non_retentions
    }

    /// Assembles diagnostics from the engine's budgets, lane sizes, adapter
    /// report, activity counters, lane residency, and shared-preparation
    /// counters.
    pub fn from_state(
        budget: CacheBudget,
        committed_entries: usize,
        composition_entries: usize,
        adapter_facts: Option<ParagraphFormationCacheDiagnostics>,
        work: CacheWork,
        scene_cache_residency: SceneResidencyBytes,
        shared: SharedPreparationDiagnostics,
    ) -> (diagnostics: Self)
        ensures
            diagnostics.budget() == budget.max_entries(),
            diagnostics.composition_budget() == budget.max_composition_entries(),
            diagnostics.committed_entries() == committed_entries,
            diagnostics.composition_entries() == composition_entries,
            diagnostics.adapter_facts() == adapter_facts,
            diagnostics.scene_cache_accounted_bytes() == work.scene_cache_accounted_bytes,
            diagnostics.scene_cache_residency() == scene_cache_residency,
            diagnostics.peak_entries() == work.peak_entries,
            diagnostics.hits() == work.hits,
            diagnostics.misses() == work.misses,
            diagnostics.evictions() == work.evictions,
            diagnostics.releases() == work.releases,
            diagnostics.shared_preparation_budget() == shared.budget,
            diagnostics.shared_preparation_entries() == shared.entries,
            diagnostics.shared_preparation_resident_bytes() == shared.resident_bytes,
            diagnostics.shared_preparation_peak_bytes() == shared.peak_bytes,
            diagnostics.shared_preparation_hits() == shared.hits,
            diagnostics.shared_preparation_misses() == shared.misses,
            diagnostics.shared_preparation_evictions() == shared.evictions,
            diagnostics.shared_preparation_oversized_non_retentions() == shared.oversized_non_retentions,
    {
        CacheDiagnostics {
            budget: budget.max_entries(),
            composition_budget: budget.max_composition_entries(),
            committed_entries,
            composition_entries,
            adapter_facts,
            scene_cache_accounted_bytes: work.scene_cache_accounted_bytes,
            scene_cache_residency,
            peak_entries: work.peak_entries,
            hits: work.hits,
            misses: work.misses,
            evictions: work.evictions,
            releases: work.releases,
            shared,
        }
    }

    /// Returns the configured maximum retained committed geometry entries.
    #[verifier::when_used_as_spec(spec_budget)]
    pub fn budget(self) -> (value: usize)
        ensures
            value == self.spec_budget(),
    {
        self.budget
    }

    /// Returns the configured maximum retained composition geometry entries.
    #[verifier::when_used_as_spec(spec_composition_budget)]
    pub fn composition_budget(self) -> (value: usize)
        ensures
            value == self.spec_composition_budget(),
    {
        self.composition_budget
    }

    /// Returns resident committed geometry entries.
    #[verifier::when_used_as_spec(spec_committed_entries)]
    pub fn committed_entries(self) -> (value: usize)
        ensures
            value == self.spec_committed_entries(),
    {
        self.committed_entries
    }

    /// Returns resident transient-composition geometry entries.
    #[verifier::when_used_as_spec(spec_composition_entries)]
    pub fn composition_entries(self) -> (value: usize)
        ensures
            value == self.spec_composition_entries(),
    {
        self.composition_entries
    }

    /// Returns all resident geometry entries across the independently
    /// budgeted committed and composition lanes.
    pub fn current_entries(self) -> (entries: usize)
        requires
            self.committed_entries() + self.composition_entries() <= usize::MAX,
        ensures
            entries == self.committed_entries() + self.composition_entries(),
    {
        self.committed_entries + self.composition_entries
    }

    /// Returns retained paragraph-adapter facts, when the backend reports
    /// deterministic accounting.
    #[verifier::when_used_as_spec(spec_adapter_facts)]
    pub fn adapter_facts(self) -> (value: Option<ParagraphFormationCacheDiagnostics>)
        ensures
            value == self.spec_adapter_facts(),
    {
        self.adapter_facts
    }

    /// Returns the deterministic capacity charge for retained scene-cache data.
    ///
    /// Shared font blobs, backend-private storage, and allocator overhead are
    /// excluded.
    #[verifier::when_used_as_spec(spec_scene_cache_accounted_bytes)]
    pub fn scene_cache_accounted_bytes(self) -> (value: usize)
        ensures
            value == self.spec_scene_cache_accounted_bytes(),
    {
        self.scene_cache_accounted_bytes
    }

    /// Returns capability-category charges for retained scene segments.
    #[verifier::when_used_as_spec(spec_scene_cache_residency)]
    pub fn scene_cache_residency(self) -> (value: SceneResidencyBytes)
        ensures
            value == self.spec_scene_cache_residency(),
    {
        self.scene_cache_residency
    }

    /// Returns the highest observed resident geometry entry count.
    #[verifier::when_used_as_spec(spec_peak_entries)]
    pub fn peak_entries(self) -> (value: usize)
        ensures
            value == self.spec_peak_entries(),
    {
        self.peak_entries
    }

    /// Returns paragraph-identity lookups that found a resident geometry entry.
    #[verifier::when_used_as_spec(spec_hits)]
    pub fn hits(self) -> (value: usize)
        ensures
            value == self.spec_hits(),
    {
        self.hits
    }

    /// Returns paragraph-identity lookups that created a geometry entry.
    #[verifier::when_used_as_spec(spec_misses)]
    pub fn misses(self) -> (value: usize)
        ensures
            value == self.spec_misses(),
    {
        self.misses
    }

    /// Returns entries removed to enforce the configured budget.
    #[verifier::when_used_as_spec(spec_evictions)]
    pub fn evictions(self) -> (value: usize)
        ensures
            value == self.spec_evictions(),
    {
        self.evictions
    }

    /// Returns entries removed by explicit document or whole-cache release.
    #[verifier::when_used_as_spec(spec_releases)]
    pub fn releases(self) -> (value: usize)
        ensures
            value == self.spec_releases(),
    {
        self.releases
    }

    /// Returns the configured shared-preparation byte budget.
    #[verifier::when_used_as_spec(spec_shared_preparation_budget)]
    pub fn shared_preparation_budget(self) -> (value: usize)
        ensures
            value == self.spec_shared_preparation_budget(),
    {
        self.shared.budget
    }

    /// Returns resident identity-free preparation entries.
    #[verifier::when_used_as_spec(spec_shared_preparation_entries)]
    pub fn shared_preparation_entries(self) -> (value: usize)
        ensures
            value == self.spec_shared_preparation_entries(),
    {
        self.shared.entries
    }

    /// Returns the current deterministic shared-preparation accounting charge.
    #[verifier::when_used_as_spec(spec_shared_preparation_resident_bytes)]
    pub fn shared_preparation_resident_bytes(self) -> (value: usize)
        ensures
            value == self.spec_shared_preparation_resident_bytes(),
    {
        self.shared.resident_bytes
    }

    /// Returns the highest observed shared-preparation accounting charge.
    #[verifier::when_used_as_spec(spec_shared_preparation_peak_bytes)]
    pub fn shared_preparation_peak_bytes(self) -> (value: usize)
        ensures
            value == self.spec_shared_preparation_peak_bytes(),
    {
        self.shared.peak_bytes
    }

    /// Returns exact cross-identity prepared-fact cache hits.
    #[verifier::when_used_as_spec(spec_shared_preparation_hits)]
    pub fn shared_preparation_hits(self) -> (value: usize)
        ensures
            value == self.spec_shared_preparation_hits(),
    {
        self.shared.hits
    }

    /// Returns eligible shared-preparation lookups that missed.
    #[verifier::when_used_as_spec(spec_shared_preparation_misses)]
    pub fn shared_preparation_misses(self) -> (value: usize)
        ensures
            value == self.spec_shared_preparation_misses(),
    {
        self.shared.misses
    }

    /// Returns shared entries removed to enforce the byte budget.
    #[verifier::when_used_as_spec(spec_shared_preparation_evictions)]
    pub fn shared_preparation_evictions(self) -> (value: usize)
        ensures
            value == self.spec_shared_preparation_evictions(),
    {
        self.shared.evictions
    }

    /// Returns prepared values served but too large to retain.
    #[verifier::when_used_as_spec(spec_shared_preparation_oversized_non_retentions)]
    pub fn shared_preparation_oversized_non_retentions(self) -> (value: usize)
        ensures
            value == self.spec_shared_preparation_oversized_non_retentions(),
    {
        self.shared.oversized_non_retentions
    }
}

impl Default for CacheDiagnostics {
    fn default() -> (diagnostics: Self)
        ensures
            diagnostics.budget() == 0,
            diagnostics.composition_budget() == 0,
            diagnostics.committed_entries() == 0,
            diagnostics.composition_entries() == 0,
            diagnostics.adapter_facts() is None,
            diagnostics.scene_cache_accounted_bytes() == 0,
            diagnostics.scene_cache_residency() == crate::residency::zero_bytes(),
            diagnostics.peak_entries() == 0,
            diagnostics.hits() == 0,
            diagnostics.misses() == 0,
            diagnostics.evictions() == 0,
            diagnostics.releases() == 0,
            diagnostics.shared_preparation_budget() == 0,
            diagnostics.shared_preparation_entries() == 0,
            diagnostics.shared_preparation_resident_bytes() == 0,
            diagnostics.shared_preparation_peak_bytes() == 0,
            diagnostics.shared_preparation_hits() == 0,
            diagnostics.shared_preparation_misses() == 0,
            diagnostics.shared_preparation_evictions() == 0,
            diagnostics.shared_preparation_oversized_non_retentions() == 0,
    {
        CacheDiagnostics {
            budget: 0,
            composition_budget: 0,
            committed_entries: 0,
            composition_entries: 0,
            adapter_facts: None,
            scene_cache_accounted_bytes: 0,
            scene_cache_residency: SceneResidencyBytes::default(),
            peak_entries: 0,
            hits: 0,
            misses: 0,
            evictions: 0,
            releases: 0,
            shared: SharedPreparationDiagnostics {
                budget: 0,
                entries: 0,
                resident_bytes: 0,
                peak_bytes: 0,
                hits: 0,
                misses: 0,
                evictions: 0,
                oversized_non_retentions: 0,
            },
        }
    }
}

} // verus!
