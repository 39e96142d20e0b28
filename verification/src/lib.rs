//! Underwood: document positions, selections, styles, and scene provenance.
//!
//! The library keeps the renderer-independent logic of text composition:
//! revision-bound selections, computed style partitions, projection of style
//! runs through presentation text, paragraph source provenance, allocation-free
//! cursor navigation over prepared interaction units, and deterministic cache
//! accounting.

mod accounting;
mod adapter;
mod cache;
mod cache_store;
mod canonical;
mod composition;
mod cursor;
mod engine_caches;
mod error;
mod features;
mod geometry;
mod ids;
mod interaction;
mod paint;
mod paragraph_source;
mod preparation;
mod projection;
mod records;
mod residency;
mod roots;
mod selection;
mod source_map;
mod seq_search;
mod shared;
mod shared_cache;
mod spine;
mod style;
mod text_projection;
mod text_utf8;
mod views;

pub use ids::{
    CompositionEpoch, CompositionId, DocumentId, DocumentRevision, ParagraphId, TextAffinity,
    TextId,
};

pub use selection::{
    SnapshotTextPosition, SnapshotTextRange, SnapshotTextSelection, SnapshotTextSelectionSet,
    SnapshotTextUnit, TextMovement, TextSelectionMode,
};

pub use adapter::{
    LineBreakReason, PreparedClusterSide, PreparedInteractionUnit, PreparedLine,
    PreparedParagraphFacts,
};

pub use cursor::{
    affinity_for_visual_direction, CursorCaretAnchor, CursorCluster, CursorMovement,
    DerivedCursorStep, ParagraphCursor,
};

pub use text_projection::{ProjectionKind, ProjectionSegment, TextProjection};

pub use engine_caches::{
    EngineAction, EngineCaches, PrepareEvent, PublishedRootTable, RetainedEntry,
};

pub use error::{
    SceneError, SceneErrorKind, SelectionError, SelectionErrorKind, StyleError, StyleErrorKind,
};

pub use source_map::{
    LeafSpan, LeafSpanSource, LocalPosition, LocalRange, LocalRanges, ParagraphSourceMap,
    SourceLeaf, SourcePosition, SourceReference, SourceRelation, SourceSpan,
};

pub use composition::{
    CompositionTextPosition, CompositionTextRange, ProjectedTextPosition, ProjectedTextRange,
    ProjectedTextSource,
};

pub use geometry::{
    fragment_identity, hit_unit, materialize_cursor_step, materialize_optional_snapshot_range,
    materialize_position, materialize_projected_source, materialize_range,
    materialize_snapshot_unit, projected_position, text_fingerprint, CachedSidecar, HitUnit, SceneCursorStep,
    SYNTHETIC_HIT_UNIT,
};

pub use style::{
    AnalysisStyle, BaseDirection, LineHeightBasis, PaintSlot, ParagraphStyle, WhitespaceCollapse,
    WordBreak,
};

pub use paint::PaintTable;

pub use paragraph_source::{
    append_projection_span, lemma_committed_projection_text, lemma_projection_tiles,
    lemma_tiling_spans_cover, paragraph_source_structure_matches, project_paragraph,
    project_paragraph_with_composition,
    validate_source_range, CompositionSplice, LeafSource, LeafStyle, ParagraphSource,
    ProjectedLeaves,
};

pub use projection::{
    append_analysis_run, append_paint_run, append_run, composition_identity, project_runs,
    project_style_runs, run_for_position, span_for_position, whole_paint_slot, StyleRun,
};

pub use records::{
    SceneCaret, SceneCompositionRect, SceneFragmentId, SceneGlyphInstanceId, SceneSelectionRect,
};

pub use residency::{SceneResidency, SceneResidencyBytes};

pub use roots::{
    dropped_roots, eviction_rank, lemma_dropped_roots_spare_the_other_lane, root_use_for,
    CacheKind, CompositionRoot, DroppedRoots, PublishedRoots,
};

pub use shared_cache::{
    lemma_lookup_after_insert, option_ref_eq, shared_entry_weight, lemma_oldest_is_least_recent, lemma_shared_cache_accounting,
    SharedPreparationCache, SharedPreparationEntry, SharedPreparationKey, SharedPreparationWork,
};

pub use cache::{
    CacheBudget, CacheDiagnostics, CacheWork, ParagraphFormationCacheDiagnostics,
    SharedPreparationDiagnostics,
};

pub use canonical::{
    canonicalize_ranges, lemma_canonical_contains_original, lemma_canonical_idempotent,
    lemma_canonical_not_longer, lemma_canonical_ordered_and_apart, lemma_canonical_strictly_ordered,
    lemma_canonical_selects_only_original,
};

pub use preparation::{
    appended_update_allowed, changed_paragraph_indices, check_composition_base, choose_fact_source,
    check_formed_paragraph, composition_target_paragraph, finish_formation, formation_in_regions,
    localized_changes_in_range, FormedParagraphChecks, plan_paragraph_preparation, record_considered, record_fact_source,
    record_unchanged, AdapterAction, FactSource,
    ParagraphFormationReuse, PreparationPlan, PreparationReuse, RetainedComparison,
};

pub use views::{
    ProjectedSources, ProjectedTextUnitView, SnapshotSources, SnapshotTextUnitView, TextSources,
    TextUnitView,
};

pub use accounting::{accounted_node_bytes, saturating_mul, vec_bytes};

pub use features::{canonical_features, FontFeature, FontSetting, Tag};

pub use cache_store::{lemma_get_after_insert, lemma_get_after_remove, ParagraphCacheStore};

pub use interaction::{
    local_range_overlaps_projected, logical_position_key, logical_ranges, logical_text_key, movement_mode,
    ranges_conflict, ranges_overlap, validate_independent_selections,
};

pub use adapter::lemma_units_before_monotonic;
pub use cursor::{lemma_logical_round_trip, lemma_logical_steps_progress, lemma_normalize_idempotent, lemma_steps_land_on_caret_stops};
pub use features::{lemma_canonical_features_idempotent, lemma_canonical_features_unique};
pub use ids::lemma_document_bytes_determine_identity;
pub use interaction::{lemma_overlap_conflicts, lemma_ranges_conflict_symmetric};
pub use projection::lemma_append_keeps_tiling;
pub use residency::lemma_total_monotone;
pub use source_map::{lemma_leaf_for_position, lemma_ranges_committed};
pub use text_projection::{lemma_identity_lengths, lemma_identity_offsets, lemma_segment_bounds};

pub use spine::{
    lemma_paragraph_records, lemma_spine_stays_shallow, RecordKind, SceneNode, SceneSpine, SegmentCounts, SegmentPosition,
};

pub use cursor::{lemma_next_visual_wraps_at_soft_line_end, lemma_previous_visual_wraps_at_soft_line_end};
pub use engine_caches::lemma_publication_sets_or_withdraws;
pub use interaction::lemma_independent_means_no_pair_conflicts;
pub use preparation::lemma_plan_reuses_only_matching_layout;
pub use source_map::{
    lemma_projection_relations_linked, lemma_source_range_ends_at_its_run,
    lemma_source_range_inside_identity_run,
    lemma_source_range_starts_at_its_run,
};
