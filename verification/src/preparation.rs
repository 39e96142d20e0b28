//! Decisions of paragraph preparation: when retained geometry is reused as
//! it stands, where formation facts come from, what the reuse counters
//! record, and how a formed paragraph is committed or its adapter state
//! released.
//!
//! Formation itself, geometry construction and the adapter calls are
//! outside work; these functions take what that work reports as plain
//! values and decide the next step.

use vstd::prelude::*;

use crate::cache_store::ParagraphCacheStore;
use crate::error::{SceneError, SceneErrorKind};
use crate::ids::{DocumentId, DocumentRevision, ParagraphId, TextId};

verus! {

/// How a retained committed entry compares with a new request.
#[derive(Clone, Copy, Debug, PartialEq, Eq, Structural)]
pub struct RetainedComparison {
    /// The entry was formed from the same text, styles and constraint.
    pub formation_matches: bool,
    /// The entry was painted with the same paint slots and table.
    pub paint_matches: bool,
    /// The entry's line adjustment matches the request's.
    pub adjustment_matches: bool,
    /// The entry's geometry carries every requested capability.
    pub geometry_has_features: bool,
    /// The entry's prepared facts carry every requested capability.
    pub artifact_has_features: bool,
}

/// What a request may take from retained geometry before any formation.
#[derive(Clone, Copy, Debug, PartialEq, Eq, Structural)]
pub struct PreparationPlan {
    /// The retained geometry answers the request unchanged.
    pub exact_reuse: bool,
    /// Line layout of the retained geometry may be kept.
    pub retain_layout: bool,
    /// Only paint changed: the retained geometry is kept and repainted.
    pub repaint_only: bool,
    /// Everything matches but the retained geometry lacks a requested
    /// capability.
    pub capability_upgrade: bool,
}

/// Where the facts of a paragraph that is not reused exactly come from.
#[derive(Clone, Copy, Debug, PartialEq, Eq, Structural)]
pub enum FactSource {
    /// The retained entry's own prepared facts.
    RetainedArtifact,
    /// The other lane's entry, whose facts are unchanged for this request.
    AlternateArtifact,
    /// Exact shared preparation of an equal paragraph. Lane-local adapter
    /// facts are released first, since the shared result may stand for a
    /// state the adapter never observed.
    SharedPreparation,
    /// A call of the paragraph-formation adapter.
    Adapter,
}

/// How the adapter reports the facts it formed from.
#[derive(Clone, Copy, Debug, PartialEq, Eq, Structural)]
pub enum ParagraphFormationReuse {
    /// No retained adapter facts were used.
    Cold,
    /// Retained adapter facts were reused.
    RetainedFacts,
}

/// What the caller does with the adapter's state for a paragraph.
#[derive(Clone, Copy, Debug, PartialEq, Eq, Structural)]
pub enum AdapterAction {
    /// The formed paragraph was committed to the retained cache.
    Commit,
    /// Formation failed after an adapter call: its facts are released.
    Release,
    /// Formation failed without an adapter call: nothing to release.
    Keep,
}

/// Counters of how paragraph preparation reused earlier work.
#[derive(Clone, Copy, Debug, PartialEq, Eq, Structural)]
pub struct PreparationReuse {
    /// Paragraphs considered.
    pub paragraphs: usize,
    /// Paragraphs with no retained entry.
    pub cold_paragraphs: usize,
    /// Paragraphs whose retained entry answered without a new comparison.
    pub preflight_reuses: usize,
    /// Retained entries whose formation no longer matched.
    pub formation_invalidations: usize,
    /// Retained entries whose line adjustment no longer matched.
    pub adjustment_invalidations: usize,
    /// Retained entries whose paint no longer matched.
    pub paint_invalidations: usize,
    /// Retained geometry reused unchanged.
    pub exact_geometry_reuses: usize,
    /// Facts taken from shared preparation.
    pub shared_preparation_reuses: usize,
    /// Calls of the formation adapter.
    pub adapter_calls: usize,
    /// Adapter calls that reused retained adapter facts.
    pub adapter_fact_hits: usize,
    /// Adapter calls that formed cold.
    pub adapter_fact_misses: usize,
    /// Capability upgrades formed cold.
    pub cold_capability_upgrades: usize,
    /// Capability upgrades formed from retained adapter facts.
    pub warm_capability_upgrades: usize,
}

impl Default for PreparationReuse {
    fn default() -> (reuse: Self)
        ensures
            reuse == PreparationReuse::zero(),
    {
        PreparationReuse {
            paragraphs: 0,
            cold_paragraphs: 0,
            preflight_reuses: 0,
            formation_invalidations: 0,
            adjustment_invalidations: 0,
            paint_invalidations: 0,
            exact_geometry_reuses: 0,
            shared_preparation_reuses: 0,
            adapter_calls: 0,
            adapter_fact_hits: 0,
            adapter_fact_misses: 0,
            cold_capability_upgrades: 0,
            warm_capability_upgrades: 0,
        }
    }
}

impl PreparationReuse {
    /// Counters with nothing recorded.
    pub open spec fn zero() -> PreparationReuse {
        PreparationReuse {
            paragraphs: 0,
            cold_paragraphs: 0,
            preflight_reuses: 0,
            formation_invalidations: 0,
            adjustment_invalidations: 0,
            paint_invalidations: 0,
            exact_geometry_reuses: 0,
            shared_preparation_reuses: 0,
            adapter_calls: 0,
            adapter_fact_hits: 0,
            adapter_fact_misses: 0,
            cold_capability_upgrades: 0,
            warm_capability_upgrades: 0,
        }
    }
}

/// One more, saturating at the largest count.
pub open spec fn bumped(count: usize, by: bool) -> usize {
    if by && count < usize::MAX {
        (count + 1) as usize
    } else {
        count
    }
}

fn bump(count: usize, by: bool) -> (next: usize)
    ensures
        next == bumped(count, by),
{
    if by {
        count.saturating_add(1)
    } else {
        count
    }
}

/// Whether the retained entry's line layout still answers the request:
/// its formation and its line adjustment both match.
pub open spec fn layout_matches(retained: Option<RetainedComparison>) -> bool {
    retained matches Some(r) && r.formation_matches && r.adjustment_matches
}

/// Whether the retained entry was painted as the request paints.
pub open spec fn paint_matches(retained: Option<RetainedComparison>) -> bool {
    retained matches Some(r) && r.paint_matches
}

/// Whether the retained geometry carries every requested capability.
pub open spec fn geometry_complete(retained: Option<RetainedComparison>) -> bool {
    retained matches Some(r) && r.geometry_has_features
}

/// The plan for a request: reuse exactly when layout, paint and
/// capabilities all hold; keep the layout whenever it matches; repaint only
/// when just the paint changed; upgrade when just a capability is missing.
pub open spec fn preparation_plan_spec(retained: Option<RetainedComparison>) -> PreparationPlan {
    let layout = layout_matches(retained);
    let paint = paint_matches(retained);
    let complete = geometry_complete(retained);
    PreparationPlan {
        exact_reuse: layout && paint && complete,
        retain_layout: layout,
        repaint_only: layout && !paint && complete,
        capability_upgrade: layout && paint && !complete,
    }
}

/// Retained line layout is kept, and retained geometry reused as it stands,
/// only when the entry's formation and its line adjustment both still
/// match; exact reuse needs matching paint and every requested capability
/// on top. Repainting keeps a layout whose paint changed, and an upgrade
/// keeps one that lacks a capability; neither happens without a retained
/// entry.
pub proof fn lemma_plan_reuses_only_matching_layout(retained: Option<RetainedComparison>)
    ensures
        ({
            let plan = preparation_plan_spec(retained);
            &&& plan.retain_layout <==> (retained matches Some(r) && r.formation_matches
                && r.adjustment_matches)
            &&& plan.exact_reuse <==> (retained matches Some(r) && r.formation_matches
                && r.adjustment_matches && r.paint_matches && r.geometry_has_features)
            &&& plan.repaint_only <==> (retained matches Some(r) && r.formation_matches
                && r.adjustment_matches && !r.paint_matches && r.geometry_has_features)
            &&& plan.capability_upgrade <==> (retained matches Some(r) && r.formation_matches
                && r.adjustment_matches && r.paint_matches && !r.geometry_has_features)
            &&& plan.exact_reuse ==> plan.retain_layout && !plan.repaint_only
                && !plan.capability_upgrade
        }),
{
}

/// Decides what a request may take from retained geometry.
pub fn plan_paragraph_preparation(retained: Option<RetainedComparison>) -> (plan: PreparationPlan)
    ensures
        plan == preparation_plan_spec(retained),
{
    match retained {
        None => PreparationPlan {
            exact_reuse: false,
            retain_layout: false,
            repaint_only: false,
            capability_upgrade: false,
        },
        Some(r) => {
            let layout = r.formation_matches && r.adjustment_matches;
            PreparationPlan {
                exact_reuse: layout && r.paint_matches && r.geometry_has_features,
                retain_layout: layout,
                repaint_only: layout && !r.paint_matches && r.geometry_has_features,
                capability_upgrade: layout && r.paint_matches && !r.geometry_has_features,
            }
        },
    }
}

/// Whether the retained entry's own facts serve the request: formation
/// and paint match and the facts carry every requested capability.
pub open spec fn retained_facts_serve(retained: Option<RetainedComparison>) -> bool {
    retained matches Some(r) && r.formation_matches && r.paint_matches && r.artifact_has_features
}

/// The source of facts for a request that is not reused exactly: the first
/// that serves, in the order retained facts, the other lane's unchanged
/// facts, a shared hit, and the adapter.
pub open spec fn fact_source_spec(
    retained: Option<RetainedComparison>,
    alternate_unchanged: bool,
    shared_hit: bool,
) -> FactSource {
    if retained_facts_serve(retained) {
        FactSource::RetainedArtifact
    } else if alternate_unchanged {
        FactSource::AlternateArtifact
    } else if shared_hit {
        FactSource::SharedPreparation
    } else {
        FactSource::Adapter
    }
}

/// Chooses where formation facts come from: the retained entry's facts
/// when formation and paint still match and they carry the requested
/// capabilities, then the other lane's unchanged facts, then a shared
/// preparation hit, and otherwise the adapter.
pub fn choose_fact_source(
    retained: Option<RetainedComparison>,
    alternate_unchanged: bool,
    shared_hit: bool,
) -> (source: FactSource)
    ensures
        source == fact_source_spec(retained, alternate_unchanged, shared_hit),
{
    if let Some(r) = retained {
        if r.formation_matches && r.paint_matches && r.artifact_has_features {
            return FactSource::RetainedArtifact;
        }
    }
    if alternate_unchanged {
        FactSource::AlternateArtifact
    } else if shared_hit {
        FactSource::SharedPreparation
    } else {
        FactSource::Adapter
    }
}

/// The counters after considering one paragraph against its retained entry.
pub open spec fn considered_spec(
    reuse: PreparationReuse,
    retained: Option<RetainedComparison>,
) -> PreparationReuse {
    let plan = preparation_plan_spec(retained);
    match retained {
        None => PreparationReuse {
            paragraphs: bumped(reuse.paragraphs, true),
            cold_paragraphs: bumped(reuse.cold_paragraphs, true),
            ..reuse
        },
        Some(r) => PreparationReuse {
            paragraphs: bumped(reuse.paragraphs, true),
            formation_invalidations: bumped(reuse.formation_invalidations, !r.formation_matches),
            adjustment_invalidations: bumped(reuse.adjustment_invalidations, !r.adjustment_matches),
            paint_invalidations: bumped(reuse.paint_invalidations, !r.paint_matches),
            exact_geometry_reuses: bumped(reuse.exact_geometry_reuses, plan.exact_reuse),
            ..reuse
        },
    }
}

/// Records one paragraph considered against its retained entry: a cold
/// paragraph when there is none, each comparison that failed, and an exact
/// reuse when the plan allows one. Counters saturate.
pub fn record_considered(reuse: &mut PreparationReuse, retained: Option<RetainedComparison>)
    ensures
        *final(reuse) == considered_spec(*old(reuse), retained),
{
    let plan = plan_paragraph_preparation(retained);
    reuse.paragraphs = bump(reuse.paragraphs, true);
    match retained {
        None => {
            reuse.cold_paragraphs = bump(reuse.cold_paragraphs, true);
        },
        Some(r) => {
            reuse.formation_invalidations = bump(reuse.formation_invalidations, !r.formation_matches);
            reuse.adjustment_invalidations = bump(reuse.adjustment_invalidations, !r.adjustment_matches);
            reuse.paint_invalidations = bump(reuse.paint_invalidations, !r.paint_matches);
            reuse.exact_geometry_reuses = bump(reuse.exact_geometry_reuses, plan.exact_reuse);
        },
    }
}

/// The counters after facts were taken from `source`; `formed` is what the
/// adapter reported when it was called.
pub open spec fn sourced_spec(
    reuse: PreparationReuse,
    source: FactSource,
    formed: ParagraphFormationReuse,
    capability_upgrade: bool,
) -> PreparationReuse {
    match source {
        FactSource::SharedPreparation => PreparationReuse {
            shared_preparation_reuses: bumped(reuse.shared_preparation_reuses, true),
            ..reuse
        },
        FactSource::Adapter => {
            let hit = formed == ParagraphFormationReuse::RetainedFacts;
            PreparationReuse {
                adapter_calls: bumped(reuse.adapter_calls, true),
                adapter_fact_hits: bumped(reuse.adapter_fact_hits, hit),
                adapter_fact_misses: bumped(reuse.adapter_fact_misses, !hit),
                cold_capability_upgrades: bumped(
                    reuse.cold_capability_upgrades,
                    capability_upgrade && !hit,
                ),
                warm_capability_upgrades: bumped(
                    reuse.warm_capability_upgrades,
                    capability_upgrade && hit,
                ),
                ..reuse
            }
        },
        _ => reuse,
    }
}

/// Records where a paragraph's facts came from: a shared reuse, or an
/// adapter call with its fact hit or miss and, for a capability upgrade,
/// whether the upgrade formed cold or warm. Retained and alternate facts
/// count nothing here. Counters saturate.
pub fn record_fact_source(
    reuse: &mut PreparationReuse,
    source: FactSource,
    formed: ParagraphFormationReuse,
    capability_upgrade: bool,
)
    ensures
        *final(reuse) == sourced_spec(*old(reuse), source, formed, capability_upgrade),
{
    match source {
        FactSource::SharedPreparation => {
            reuse.shared_preparation_reuses = bump(reuse.shared_preparation_reuses, true);
        },
        FactSource::Adapter => {
            let hit = match formed {
                ParagraphFormationReuse::RetainedFacts => true,
                ParagraphFormationReuse::Cold => false,
            };
            reuse.adapter_calls = bump(reuse.adapter_calls, true);
            reuse.adapter_fact_hits = bump(reuse.adapter_fact_hits, hit);
            reuse.adapter_fact_misses = bump(reuse.adapter_fact_misses, !hit);
            reuse.cold_capability_upgrades = bump(
                reuse.cold_capability_upgrades,
                capability_upgrade && !hit,
            );
            reuse.warm_capability_upgrades = bump(
                reuse.warm_capability_upgrades,
                capability_upgrade && hit,
            );
        },
        FactSource::RetainedArtifact => {},
        FactSource::AlternateArtifact => {},
    }
}

/// Ends one paragraph's formation. A validated entry is committed to the
/// retained cache under its paragraph; a failure publishes nothing, leaves
/// the cache as it was, and releases the adapter's facts when the adapter
/// was called for this paragraph.
pub fn finish_formation<E>(
    cache: &mut ParagraphCacheStore<E>,
    paragraph: ParagraphId,
    adapter_called: bool,
    validated: Result<E, SceneError>,
) -> (action: AdapterAction)
    requires
        old(cache).wf(),
    ensures
        final(cache).wf(),
        validated is Err ==> final(cache).map() == old(cache).map() && action == (if adapter_called {
            AdapterAction::Release
        } else {
            AdapterAction::Keep
        }),
        validated is Ok ==> action == AdapterAction::Commit && final(cache).map() == old(
            cache,
        ).map().insert(paragraph, validated->Ok_0),
{
    match validated {
        Ok(entry) => {
            cache.insert(paragraph, entry);
            AdapterAction::Commit
        },
        Err(_) => {
            if adapter_called {
                AdapterAction::Release
            } else {
                AdapterAction::Keep
            }
        },
    }
}

/// The sequence increases strictly.
pub open spec fn strictly_increasing(s: Seq<usize>) -> bool {
    forall|i: int, j: int| 0 <= i < j < s.len() ==> s[i] < s[j]
}

/// The sequence does not decrease.
pub open spec fn nondecreasing(s: Seq<usize>) -> bool {
    forall|i: int, j: int| 0 <= i < j < s.len() ==> s[i] <= s[j]
}

/// Sorts paragraph indexes in ascending order.
///
/// Calls `slice::sort_unstable`, which the standard library documents as
/// sorting the slice in ascending order; it permutes the elements, so the
/// multiset of indexes is kept.
#[verifier::external_body]
fn sort_indices(indices: &mut Vec<usize>)
    ensures
        nondecreasing(final(indices)@),
        final(indices)@.to_multiset() == old(indices)@.to_multiset(),
{
    indices.sort_unstable();
}

/// Paragraph indexes that changed in content or in style, ascending and
/// each once.
pub fn changed_paragraph_indices(content: &[usize], styles: &[usize]) -> (changed: Vec<usize>)
    requires
        content@.len() + styles@.len() <= usize::MAX,
    ensures
        strictly_increasing(changed@),
        forall|x: usize| changed@.contains(x) <==> (content@.contains(x) || styles@.contains(x)),
{
    broadcast use vstd::seq_lib::to_multiset_contains;
    let mut all: Vec<usize> = Vec::with_capacity(content.len() + styles.len());
    let mut i: usize = 0;
    while i < content.len()
        invariant
            i <= content@.len(),
            all@ == content@.take(i as int),
        decreases content@.len() - i,
    {
        all.push(content[i]);
        proof {
            assert(content@.take(i + 1) =~= content@.take(i as int).push(content@[i as int]));
        }
        i += 1;
    }
    let mut k: usize = 0;
    while k < styles.len()
        invariant
            i == content@.len(),
            k <= styles@.len(),
            all@ == content@ + styles@.take(k as int),
        decreases styles@.len() - k,
    {
        all.push(styles[k]);
        proof {
            assert(styles@.take(k + 1) =~= styles@.take(k as int).push(styles@[k as int]));
            assert(content@ + styles@.take(k + 1) =~= (content@ + styles@.take(k as int)).push(
                styles@[k as int],
            ));
        }
        k += 1;
    }
    proof {
        assert(content@.take(content@.len() as int) =~= content@);
        assert(styles@.take(styles@.len() as int) =~= styles@);
    }
    let ghost joined = all@;
    assert forall|x: usize| joined.contains(x) <==> (content@.contains(x) || styles@.contains(x)) by {
        if joined.contains(x) {
            let n = choose|n: int| 0 <= n < joined.len() && joined[n] == x;
            if n < content@.len() {
                assert(content@[n] == x);
            } else {
                assert(styles@[n - content@.len()] == x);
            }
        }
        if content@.contains(x) {
            let n = choose|n: int| 0 <= n < content@.len() && content@[n] == x;
            assert(joined[n] == x);
        }
        if styles@.contains(x) {
            let n = choose|n: int| 0 <= n < styles@.len() && styles@[n] == x;
            assert(joined[content@.len() + n] == x);
        }
    }
    sort_indices(&mut all);
    let ghost sorted = all@;
    assert forall|x: usize| sorted.contains(x) <==> joined.contains(x) by {
        assert(sorted.to_multiset().count(x) == joined.to_multiset().count(x));
    }
    let mut changed: Vec<usize> = Vec::new();
    let mut j: usize = 0;
    while j < all.len()
        invariant
            all@ == sorted,
            nondecreasing(sorted),
            j <= sorted.len(),
            strictly_increasing(changed@),
            changed@.len() > 0 ==> j > 0 && changed@.last() == sorted[j - 1],
            changed@.len() == 0 ==> j == 0,
            forall|x: usize| changed@.contains(x) <==> sorted.take(j as int).contains(x),
        decreases sorted.len() - j,
    {
        let index = all[j];
        let ghost before = changed@;
        proof {
            assert(sorted.take(j + 1) =~= sorted.take(j as int).push(index));
        }
        if changed.len() == 0 || changed[changed.len() - 1] != index {
            changed.push(index);
            proof {
                if before.len() > 0 {
                    assert(before.last() <= index);
                }
                assert forall|x: usize| changed@.contains(x) <==> sorted.take(j + 1).contains(x) by {
                    assert(before.contains(x) <==> sorted.take(j as int).contains(x));
                    if changed@.contains(x) && x != index {
                        let n = choose|n: int| 0 <= n < changed@.len() && changed@[n] == x;
                        assert(before[n] == x);
                        assert(before.contains(x));
                        let m = choose|m: int| 0 <= m < j && #[trigger] sorted.take(j as int)[m] == x;
                        assert(sorted.take(j + 1)[m] == x);
                    }
                    if sorted.take(j + 1).contains(x) && x != index {
                        let n = choose|n: int| 0 <= n < j + 1 && #[trigger] sorted.take(j + 1)[n] == x;
                        assert(sorted.take(j as int)[n] == x);
                        assert(sorted.take(j as int).contains(x));
                        let m = choose|m: int| 0 <= m < before.len() && before[m] == x;
                        assert(changed@[m] == x);
                    }
                    if x == index {
                        assert(changed@[changed@.len() - 1] == x);
                        assert(sorted.take(j + 1)[j as int] == x);
                    }
                }
            }
        } else {
            proof {
                assert forall|x: usize| changed@.contains(x) <==> sorted.take(j + 1).contains(x) by {
                    if sorted.take(j + 1).contains(x) && x != index {
                        let n = choose|n: int| 0 <= n < j + 1 && #[trigger] sorted.take(j + 1)[n] == x;
                        assert(sorted.take(j as int)[n] == x);
                    }
                    if x == index {
                        assert(changed@[changed@.len() - 1] == x);
                    }
                }
            }
        }
        j += 1;
    }
    proof {
        assert(sorted.take(sorted.len() as int) =~= sorted);
    }
    changed
}

/// A localized update is possible when every changed paragraph exists both
/// before and after the edit.
pub open spec fn changes_in_range(changed: Seq<usize>, previous_count: usize, current_count: usize) -> bool {
    forall|i: int| 0 <= i < changed.len() ==> #[trigger] changed[i] < previous_count && changed[i] < current_count
}

/// Whether every changed paragraph exists both before and after the edit;
/// otherwise the engine falls back to a full preparation.
pub fn localized_changes_in_range(changed: &[usize], previous_count: usize, current_count: usize) -> (in_range: bool)
    ensures
        in_range == changes_in_range(changed@, previous_count, current_count),
{
    let mut i: usize = 0;
    while i < changed.len()
        invariant
            i <= changed@.len(),
            changes_in_range(changed@.take(i as int), previous_count, current_count),
        decreases changed@.len() - i,
    {
        if changed[i] >= previous_count || changed[i] >= current_count {
            proof {
                assert(!changes_in_range(changed@, previous_count, current_count)) by {
                    assert(changed@[i as int] == changed[i as int]);
                }
            }
            return false;
        }
        proof {
            assert forall|n: int| 0 <= n < i + 1 implies #[trigger] changed@.take(i + 1)[n] < previous_count
                && changed@.take(i + 1)[n] < current_count by {
                if n < i {
                    assert(changed@.take(i as int)[n] == changed@.take(i + 1)[n]);
                }
            }
        }
        i += 1;
    }
    proof {
        assert(changed@.take(changed@.len() as int) =~= changed@);
    }
    true
}

/// An appended scene may reuse the published one when paragraphs were
/// appended and every paragraph whose style changed is among them.
pub open spec fn appended_update_possible(appended: Seq<usize>, style_changes: Seq<usize>) -> bool {
    appended.len() > 0 && forall|i: int| 0 <= i < style_changes.len() ==> appended.contains(#[trigger] style_changes[i])
}

/// Whether the published scene can be extended by the appended paragraphs
/// alone: some were appended and no paragraph before them changed style.
pub fn appended_update_allowed(appended: &[usize], style_changes: &[usize]) -> (allowed: bool)
    ensures
        allowed == appended_update_possible(appended@, style_changes@),
{
    if appended.len() == 0 {
        return false;
    }
    let mut i: usize = 0;
    while i < style_changes.len()
        invariant
            i <= style_changes@.len(),
            appended@.len() > 0,
            forall|n: int| 0 <= n < i ==> appended@.contains(#[trigger] style_changes@[n]),
        decreases style_changes@.len() - i,
    {
        let index = style_changes[i];
        let mut found = false;
        let mut k: usize = 0;
        while k < appended.len()
            invariant
                k <= appended@.len(),
                found ==> appended@.contains(index),
                !found ==> forall|m: int| 0 <= m < k ==> appended@[m] != index,
            decreases appended@.len() - k,
        {
            if appended[k] == index {
                found = true;
                proof {
                    assert(appended@[k as int] == index);
                }
            }
            k += 1;
        }
        if !found {
            proof {
                assert(!appended@.contains(index));
                assert(style_changes@[i as int] == index);
            }
            return false;
        }
        i += 1;
    }
    true
}

/// The counters after `paragraph_count` paragraphs were prepared and only
/// `changed_count` of them formed: each other paragraph counts as an exact
/// reuse answered without comparison. Counters saturate.
pub open spec fn unchanged_reused_spec(
    reuse: PreparationReuse,
    paragraph_count: usize,
    changed_count: usize,
) -> PreparationReuse {
    let unchanged: int = if paragraph_count >= changed_count {
        paragraph_count - changed_count
    } else {
        0
    };
    PreparationReuse {
        paragraphs: saturated(reuse.paragraphs + unchanged),
        preflight_reuses: saturated(reuse.preflight_reuses + unchanged),
        exact_geometry_reuses: saturated(reuse.exact_geometry_reuses + unchanged),
        ..reuse
    }
}

/// A count, saturating at the largest `usize`.
pub open spec fn saturated(count: int) -> usize {
    if count > usize::MAX {
        usize::MAX
    } else {
        count as usize
    }
}

/// Records the paragraphs a localized preparation left untouched.
pub fn record_unchanged(reuse: &mut PreparationReuse, paragraph_count: usize, changed_count: usize)
    ensures
        *final(reuse) == unchanged_reused_spec(*old(reuse), paragraph_count, changed_count),
{
    let unchanged = paragraph_count.saturating_sub(changed_count);
    reuse.paragraphs = reuse.paragraphs.saturating_add(unchanged);
    reuse.preflight_reuses = reuse.preflight_reuses.saturating_add(unchanged);
    reuse.exact_geometry_reuses = reuse.exact_geometry_reuses.saturating_add(unchanged);
}

/// The composition error of a snapshot's document.
pub open spec fn is_invalid_composition_of(e: SceneError, document: DocumentId) -> bool {
    &&& e.kind() == SceneErrorKind::InvalidComposition
    &&& e.document() == Some(document)
    &&& e.paragraph() is None
    &&& e.source() is None
}

/// Checks that a composition was taken in the snapshot's document and
/// revision.
pub fn check_composition_base(
    document: DocumentId,
    revision: DocumentRevision,
    composition_document: DocumentId,
    base_revision: DocumentRevision,
) -> (checked: Result<(), SceneError>)
    ensures
        checked is Ok <==> (composition_document == document && base_revision == revision),
        checked matches Err(e) ==> is_invalid_composition_of(e, document),
{
    if composition_document != document || base_revision.0 != revision.0 {
        return Err(SceneError::for_document(SceneErrorKind::InvalidComposition, document));
    }
    Ok(())
}

/// The paragraph a composition edits: the one at its target's paragraph
/// position, when that paragraph carries the same position and the target
/// leaf exists in the snapshot.
pub open spec fn composition_target_spec(
    target: Option<TextId>,
    paragraphs: Seq<ParagraphId>,
    target_present: bool,
) -> Option<ParagraphId> {
    match target {
        None => None,
        Some(t) => if t.paragraph < paragraphs.len() && paragraphs[t.paragraph as int].index
            == t.paragraph && target_present {
            Some(paragraphs[t.paragraph as int])
        } else {
            None
        },
    }
}

/// Finds the paragraph a composition edits among the snapshot's paragraphs;
/// `target_present` tells whether the snapshot holds the target leaf.
pub fn composition_target_paragraph(
    document: DocumentId,
    target: Option<TextId>,
    paragraphs: &[ParagraphId],
    target_present: bool,
) -> (found: Result<ParagraphId, SceneError>)
    ensures
        match composition_target_spec(target, paragraphs@, target_present) {
            Some(p) => found == Ok::<ParagraphId, SceneError>(p),
            None => found matches Err(e) && is_invalid_composition_of(e, document),
        },
{
    let invalid = SceneError::for_document(SceneErrorKind::InvalidComposition, document);
    match target {
        None => Err(invalid),
        Some(t) => {
            let position = t.paragraph as usize;
            if position < paragraphs.len() && paragraphs[position].index == t.paragraph
                && target_present {
                Ok(paragraphs[position])
            } else {
                Err(invalid)
            }
        },
    }
}

/// What the formed paragraph's checks found, each as its check reported it.
#[derive(Debug, PartialEq, Eq)]
pub struct FormedParagraphChecks {
    /// The formed paragraph names the requested paragraph.
    pub identity_matches: bool,
    /// The formed paragraph covers the projected text length.
    pub text_len_matches: bool,
    /// The formed paragraph carries every requested capability.
    pub features_present: bool,
    /// The structural validation of the formed facts against the projection.
    pub facts_valid: Result<(), SceneError>,
    /// The request flows through regions.
    pub region_flow: bool,
    /// A region cursor was handed to formation.
    pub region_cursor: bool,
    /// The region transcript formation produced, if any, and whether it
    /// starts at the cursor, replays to its end, and matches the output.
    pub transcript: Option<bool>,
    /// Every line has a region slot exactly when the request flows through
    /// regions.
    pub slots_match: bool,
}

/// The formed paragraph is the requested one, over the projected text,
/// with the requested capabilities.
pub open spec fn covers_request(checks: FormedParagraphChecks) -> bool {
    checks.identity_matches && checks.text_len_matches && checks.features_present
}

/// A valid region transcript is present exactly when formation ran in
/// region flow, and region flow and cursor come together.
pub open spec fn regions_agree(checks: FormedParagraphChecks) -> bool {
    if checks.region_flow {
        checks.region_cursor && checks.transcript == Some(true)
    } else {
        !checks.region_cursor && checks.transcript is None
    }
}

/// The outcome of the checks: a source-coverage error when the output does
/// not cover the request, else the facts' own error, else a flow error when
/// regions disagree or the line slots do; otherwise acceptance, keeping a
/// transcript exactly in region flow.
pub open spec fn formed_paragraph_outcome(paragraph: ParagraphId, checks: FormedParagraphChecks) -> Result<
    bool,
    SceneError,
> {
    if !covers_request(checks) {
        Err(SceneError::spec_for_paragraph(SceneErrorKind::SourceCoverage, paragraph))
    } else if checks.facts_valid is Err {
        Err(checks.facts_valid->Err_0)
    } else if !regions_agree(checks) || !checks.slots_match {
        Err(SceneError::spec_for_paragraph(SceneErrorKind::Flow, paragraph))
    } else {
        Ok(checks.region_flow)
    }
}

/// Accepts a formed paragraph only when it is the requested paragraph over
/// the projected text with the requested capabilities, its facts are valid,
/// its region transcript is present, valid and expected exactly when the
/// request flows through regions, and its lines' region slots agree.
/// Returns whether a region transcript is kept.
pub fn check_formed_paragraph(paragraph: ParagraphId, checks: FormedParagraphChecks) -> (outcome: Result<
    bool,
    SceneError,
>)
    ensures
        outcome == formed_paragraph_outcome(paragraph, checks),
{
    if !(checks.identity_matches && checks.text_len_matches && checks.features_present) {
        return Err(SceneError::for_paragraph(SceneErrorKind::SourceCoverage, paragraph));
    }
    match checks.facts_valid {
        Err(e) => {
            return Err(e);
        },
        Ok(()) => {},
    }
    let transcript_valid = match checks.transcript {
        Some(valid) => valid,
        None => false,
    };
    let regions_agree = (checks.region_flow && checks.region_cursor && transcript_valid) || (
    !checks.region_flow && !checks.region_cursor && checks.transcript.is_none());
    if !regions_agree || !checks.slots_match {
        return Err(SceneError::for_paragraph(SceneErrorKind::Flow, paragraph));
    }
    Ok(checks.region_flow)
}

/// How formation is constrained: within region flow when both a flow and a
/// cursor are given, plainly when neither is; anything else is a flow error.
pub fn formation_in_regions(paragraph: ParagraphId, region_flow: bool, region_cursor: bool) -> (mode: Result<
    bool,
    SceneError,
>)
    ensures
        region_flow == region_cursor ==> mode == Ok::<bool, SceneError>(region_flow),
        region_flow != region_cursor ==> mode == Err::<bool, SceneError>(
            SceneError::spec_for_paragraph(SceneErrorKind::Flow, paragraph),
        ),
{
    if region_flow && region_cursor {
        Ok(true)
    } else if !region_flow && !region_cursor {
        Ok(false)
    } else {
        Err(SceneError::for_paragraph(SceneErrorKind::Flow, paragraph))
    }
}

} // verus!
