use underwood::{
    materialize_cursor_step, materialize_optional_snapshot_range, materialize_position,
    materialize_projected_source, materialize_range, materialize_snapshot_unit, projected_position,
    CachedSidecar, CompositionEpoch, CompositionId, CompositionTextPosition, CompositionTextRange,
    DerivedCursorStep, DocumentId, DocumentRevision, LeafSpan, LeafSpanSource, LocalPosition,
    LocalRange, ParagraphId, ParagraphSourceMap, PreparedClusterSide, ProjectedTextPosition,
    ProjectedTextSource, ProjectionKind, ProjectionSegment, SceneErrorKind, SnapshotTextPosition,
    SnapshotTextRange, SourceLeaf, SourcePosition, SourceReference, SourceRelation, SourceSpan,
    TextAffinity, TextId,
    TextProjection,
};

fn document() -> DocumentId {
    DocumentId::from_bytes(*b"source-map-doc01")
}

fn paragraph() -> ParagraphId {
    ParagraphId::new(document(), 0)
}

fn leaf(index: u32) -> TextId {
    TextId::new(document(), 0, index)
}

fn segment(kind: ProjectionKind, source: (u32, u32), projected: (u32, u32)) -> ProjectionSegment {
    ProjectionSegment {
        kind,
        source_start: source.0,
        source_end: source.1,
        projected_start: projected.0,
        projected_end: projected.1,
    }
}

fn span(start: u32, end: u32, index: u32) -> LeafSpan {
    LeafSpan {
        paragraph_start: start,
        paragraph_end: end,
        text: leaf(index),
        source: LeafSpanSource::Snapshot { start: 0 },
        leaf_len: end - start,
    }
}

/// Source "ab  cd" from leaves "ab " and " cd"; the two spaces collapse to
/// one, giving the projected text "ab cd".
fn collapsed_map() -> ParagraphSourceMap {
    let mapping = TextProjection::try_new(
        6,
        5,
        vec![
            segment(ProjectionKind::Identity, (0, 2), (0, 2)),
            segment(ProjectionKind::Collapsed, (2, 4), (2, 3)),
            segment(ProjectionKind::Identity, (4, 6), (3, 5)),
        ],
    )
    .unwrap();
    ParagraphSourceMap::from_projection(&mapping, &[span(0, 3, 0), span(3, 6, 1)], paragraph())
        .expect("the leaves cover the source")
}

#[test]
fn projections_validate_their_segments() {
    assert!(TextProjection::try_new(0, 0, Vec::new()).is_some());
    assert!(TextProjection::try_new(1, 0, Vec::new()).is_none());
    assert!(TextProjection::try_new(
        2,
        2,
        vec![segment(ProjectionKind::Identity, (0, 2), (0, 1)), segment(ProjectionKind::Inserted, (2, 2), (1, 2))],
    )
    .is_none());
    assert!(TextProjection::try_new(2, 1, vec![segment(ProjectionKind::Omitted, (0, 2), (0, 1))]).is_none());
    let identity = TextProjection::try_new(3, 3, vec![segment(ProjectionKind::Identity, (0, 3), (0, 3))]).unwrap();
    assert!(identity.is_identity());
    assert_eq!(identity.source_len(), 3);
    assert_eq!(identity.projected_len(), 3);
    assert_eq!(identity.segments().len(), 1);
    assert_eq!(identity.segments()[0].kind(), ProjectionKind::Identity);
    assert_eq!(identity.segments()[0].source(), 0..3);
    assert_eq!(identity.segments()[0].projected(), 0..3);
}

#[test]
fn source_maps_need_contiguous_leaf_coverage() {
    let mapping = TextProjection::try_new(4, 4, vec![segment(ProjectionKind::Identity, (0, 4), (0, 4))]).unwrap();
    let error = ParagraphSourceMap::from_projection(&mapping, &[span(0, 2, 0), span(3, 4, 1)], paragraph())
        .expect_err("byte two has no leaf");
    assert_eq!(error.kind(), SceneErrorKind::SourceCoverage);
    assert_eq!(error.paragraph(), Some(paragraph()));
    assert!(ParagraphSourceMap::from_projection(&mapping, &[span(0, 2, 0), span(2, 4, 1)], paragraph()).is_ok());
}

#[test]
fn projected_offsets_map_back_to_source_offsets() {
    let map = collapsed_map();
    assert_eq!(map.source_position(1, TextAffinity::Downstream), 1);
    assert_eq!(map.source_position(4, TextAffinity::Upstream), 5);
    assert_eq!(map.source_position(3, TextAffinity::Downstream), 4);
    assert_eq!(map.source_position(3, TextAffinity::Upstream), 4);
    assert_eq!(map.source_range(SourceSpan::new(1, 4)), SourceSpan::new(1, 5));
    assert_eq!(map.span(0..5, paragraph()), Ok(SourceSpan::new(0, 5)));
    let error = map.span(4..6, paragraph()).expect_err("the projected text has five bytes");
    assert_eq!(error.source(), Some(4..6));
}

#[test]
fn spans_resolve_to_leaf_local_ranges() {
    let map = collapsed_map();
    assert_eq!(map.leaf_count(), 2);
    let mut ranges = map.ranges(SourceReference::Projected(SourceSpan::new(1, 4)));
    assert_eq!(ranges.len(), 2);
    assert_eq!(ranges.next(), Some(LocalRange::Snapshot { text: leaf(0), bytes: 1..3 }));
    assert_eq!(ranges.next(), Some(LocalRange::Snapshot { text: leaf(1), bytes: 0..2 }));
    assert_eq!(ranges.next(), None);
    assert_eq!(map.leaf_index_for_text(leaf(1)), Some(1));
    assert_eq!(map.leaf_index_for_text(leaf(7)), None);
    assert_eq!(map.leaf_range(1), Some(LocalRange::Snapshot { text: leaf(1), bytes: 0..3 }));
    assert_eq!(map.leaf_range(2), None);
    let mut whole = map.ranges_for_leaf(0);
    assert_eq!(whole.next_back(), Some(LocalRange::Snapshot { text: leaf(0), bytes: 0..3 }));
}

#[test]
fn positions_materialize_in_their_leaf() {
    let map = collapsed_map();
    let local = map.materialize_position(SourcePosition::new(3, TextAffinity::Downstream));
    assert_eq!(
        local,
        LocalPosition::Snapshot { text: leaf(1), byte: 1, affinity: TextAffinity::Downstream }
    );
    let revision = DocumentRevision(5);
    assert_eq!(
        materialize_position(&map, SourcePosition::new(3, TextAffinity::Downstream), revision),
        SnapshotTextPosition::new(revision, leaf(1), 1, TextAffinity::Downstream)
    );
    assert_eq!(
        projected_position(&map, SourcePosition::new(1, TextAffinity::Upstream), revision),
        ProjectedTextPosition::Snapshot(SnapshotTextPosition::new(revision, leaf(0), 1, TextAffinity::Upstream))
    );
}

#[test]
fn snapshot_units_collect_every_leaf_range() {
    let map = collapsed_map();
    let revision = DocumentRevision(2);
    let unit = materialize_snapshot_unit(&map, SourceSpan::new(1, 4), revision);
    assert_eq!(
        unit.sources(),
        &[
            SnapshotTextRange::new(revision, leaf(0), 1..3),
            SnapshotTextRange::new(revision, leaf(1), 0..2),
        ]
    );
    assert_eq!(
        materialize_optional_snapshot_range(&map, SourceReference::Projected(SourceSpan::new(0, 1)), revision),
        Some(SnapshotTextRange::new(revision, leaf(0), 0..1))
    );
    assert_eq!(
        materialize_optional_snapshot_range(&map, SourceReference::Projected(SourceSpan::new(1, 4)), revision),
        None
    );
}

#[test]
fn cursor_steps_materialize_their_target_and_crossed_unit() {
    let map = collapsed_map();
    let revision = DocumentRevision(4);
    let step = DerivedCursorStep {
        target: PreparedClusterSide::new(2, TextAffinity::Upstream),
        source: Some(1..2),
    };
    let scene = materialize_cursor_step(&map, Some(step), revision).unwrap();
    assert_eq!(scene.target, SnapshotTextPosition::new(revision, leaf(0), 2, TextAffinity::Upstream));
    assert_eq!(
        scene.source.unwrap().sources(),
        &[SnapshotTextRange::new(revision, leaf(0), 1..2)]
    );
    assert!(materialize_cursor_step(&map, None, revision).is_none());
}

#[test]
fn local_ranges_materialize_with_their_revision_or_epoch() {
    let revision = DocumentRevision(8);
    let snapshot = LocalRange::Snapshot { text: leaf(0), bytes: 0..2 };
    assert_eq!(materialize_range(snapshot.clone(), revision), SnapshotTextRange::new(revision, leaf(0), 0..2));
    assert_eq!(
        materialize_projected_source(snapshot, revision),
        ProjectedTextSource::Snapshot(SnapshotTextRange::new(revision, leaf(0), 0..2))
    );
    let composed = LocalRange::Composition { id: CompositionId(3), epoch: CompositionEpoch(1), bytes: 1..4 };
    assert_eq!(
        materialize_projected_source(composed, revision),
        ProjectedTextSource::Composition(CompositionTextRange::new(CompositionId(3), CompositionEpoch(1), 1..4))
    );
    let position = CompositionTextPosition::new(CompositionId(3), CompositionEpoch(1), 2, TextAffinity::Upstream);
    assert_eq!(position.byte(), 2);
    assert_eq!(position.id(), CompositionId(3));
    assert_eq!(position.epoch(), CompositionEpoch(1));
    assert_eq!(position.affinity(), TextAffinity::Upstream);
}

#[test]
fn composition_leaves_are_rebound_to_a_new_epoch() {
    let mapping = TextProjection::try_new(2, 2, vec![segment(ProjectionKind::Identity, (0, 2), (0, 2))]).unwrap();
    let spans = [LeafSpan {
        paragraph_start: 0,
        paragraph_end: 2,
        text: leaf(0),
        source: LeafSpanSource::Composition { id: CompositionId(1), epoch: CompositionEpoch(1), start: 0 },
        leaf_len: 2,
    }];
    let mut map = ParagraphSourceMap::from_projection(&mapping, &spans, paragraph()).unwrap();
    map.rebind_composition(CompositionId(2), CompositionEpoch(5));
    assert_eq!(
        map.leaf_range(0),
        Some(LocalRange::Composition { id: CompositionId(2), epoch: CompositionEpoch(5), bytes: 0..2 })
    );
}

#[test]
fn owned_bytes_charge_at_least_the_retained_tables() {
    let map = collapsed_map();
    let tables = 3 * core::mem::size_of::<SourceRelation>() + 2 * core::mem::size_of::<SourceLeaf>();
    assert!(map.accounted_owned_bytes() >= tables);
    let single = ParagraphSourceMap::snapshot_leaf(leaf(0), 3);
    assert!(single.accounted_owned_bytes() > 0);
}

#[test]
fn sidecars_share_retained_records() {
    let retained = CachedSidecar::from_records(vec![1_u32, 2, 3]);
    assert_eq!(retained.as_slice(), &[1, 2, 3]);
    assert!(retained.capacity() >= 3);
    let mut empty: CachedSidecar<u32> = CachedSidecar::new(false, Vec::new());
    assert_eq!(empty.as_slice(), &[] as &[u32]);
    assert_eq!(empty.capacity(), 0);
    empty.retain_from(&retained);
    assert_eq!(empty.as_slice(), &[1, 2, 3]);
    let mut own = CachedSidecar::new(true, vec![9_u32]);
    own.retain_from(&retained);
    assert_eq!(own.as_slice(), &[9]);
}
