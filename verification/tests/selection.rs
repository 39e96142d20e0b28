use underwood::{
    local_range_overlaps_projected, logical_position_key, logical_text_key, movement_mode,
    ranges_conflict, ranges_overlap, validate_independent_selections, CompositionEpoch,
    CompositionId, CompositionTextRange, DocumentId, DocumentRevision, LocalRange,
    ProjectedTextRange, ProjectedTextSource, SelectionErrorKind, SnapshotTextPosition,
    SnapshotTextRange, SnapshotTextSelection, SnapshotTextSelectionSet, SnapshotTextUnit,
    TextAffinity, TextId, TextMovement, TextSelectionMode,
};

fn document() -> DocumentId {
    DocumentId::from_bytes(*b"selection-doc-01")
}

fn leaf(paragraph: u32, index: u32) -> TextId {
    TextId::new(document(), paragraph, index)
}

fn range(text: TextId, start: u32, end: u32) -> SnapshotTextRange {
    SnapshotTextRange::new(DocumentRevision(3), text, start..end)
}

fn position(text: TextId, byte: u32) -> SnapshotTextPosition {
    SnapshotTextPosition::new(DocumentRevision(3), text, byte, TextAffinity::Downstream)
}

fn selection(ranges: Vec<SnapshotTextRange>) -> SnapshotTextSelection {
    let first = ranges[0];
    SnapshotTextSelection::new(
        position(first.text(), first.bytes().start),
        position(first.text(), first.bytes().end),
        TextSelectionMode::Logical,
        ranges,
    )
}

#[test]
fn positions_and_ranges_return_their_observations() {
    let p = SnapshotTextPosition::new(DocumentRevision(9), leaf(1, 2), 4, TextAffinity::Upstream);
    assert_eq!(p.revision(), DocumentRevision(9));
    assert_eq!(p.text(), leaf(1, 2));
    assert_eq!(p.byte(), 4);
    assert_eq!(p.affinity(), TextAffinity::Upstream);
    let r = range(leaf(0, 0), 2, 5);
    assert_eq!(r.revision(), DocumentRevision(3));
    assert_eq!(r.text(), leaf(0, 0));
    assert_eq!(r.bytes(), 2..5);
    assert!(!r.is_empty());
    assert!(range(leaf(0, 0), 5, 5).is_empty());
}

#[test]
fn units_and_selections_keep_their_parts() {
    let unit = SnapshotTextUnit::new(vec![range(leaf(0, 0), 3, 4), range(leaf(0, 1), 0, 1)]);
    assert_eq!(unit.sources().len(), 2);
    let s = selection(vec![range(leaf(0, 0), 1, 4)]);
    assert_eq!(s.anchor(), position(leaf(0, 0), 1));
    assert_eq!(s.extent(), position(leaf(0, 0), 4));
    assert_eq!(s.mode(), TextSelectionMode::Logical);
    assert_eq!(s.ranges(), &[range(leaf(0, 0), 1, 4)]);
    assert!(!s.is_collapsed());
    assert!(selection(vec![range(leaf(0, 0), 2, 2)]).is_collapsed());
}

#[test]
fn selection_sets_expose_the_primary_selection() {
    let empty = SnapshotTextSelectionSet::new(document(), DocumentRevision(3), Vec::new());
    assert!(empty.is_empty());
    assert!(empty.primary().is_none());
    let first = selection(vec![range(leaf(0, 0), 0, 1)]);
    let second = selection(vec![range(leaf(0, 0), 2, 3)]);
    let set = SnapshotTextSelectionSet::new(
        document(),
        DocumentRevision(3),
        vec![first.clone(), second.clone()],
    );
    assert_eq!(set.document(), document());
    assert_eq!(set.revision(), DocumentRevision(3));
    assert_eq!(set.selections().len(), 2);
    assert_eq!(set.primary(), Some(&first));
    assert!(!set.is_empty());
}

#[test]
fn document_order_keys_compare_paragraph_then_leaf_then_byte() {
    assert_eq!(logical_text_key(leaf(2, 1), 7), (2, 1, 7));
    assert_eq!(logical_position_key(&position(leaf(1, 3), 0)), (1, 3, 0));
    assert!(logical_text_key(leaf(0, 9), 9) < logical_text_key(leaf(1, 0), 0));
}

#[test]
fn movements_choose_their_selection_interpretation() {
    assert_eq!(movement_mode(TextMovement::NextVisual), TextSelectionMode::Visual);
    assert_eq!(movement_mode(TextMovement::PreviousVisual), TextSelectionMode::Visual);
    assert_eq!(movement_mode(TextMovement::NextLogical), TextSelectionMode::Logical);
    assert_eq!(movement_mode(TextMovement::PreviousLogical), TextSelectionMode::Logical);
}

#[test]
fn overlap_needs_a_shared_byte_of_one_leaf() {
    assert!(ranges_overlap(&range(leaf(0, 0), 0, 3), &range(leaf(0, 0), 2, 5)));
    assert!(!ranges_overlap(&range(leaf(0, 0), 0, 3), &range(leaf(0, 0), 3, 5)));
    assert!(!ranges_overlap(&range(leaf(0, 0), 0, 3), &range(leaf(0, 1), 0, 3)));
}

#[test]
fn carets_conflict_at_range_edges_and_with_each_other() {
    let caret = range(leaf(0, 0), 3, 3);
    assert!(ranges_conflict(&caret, &range(leaf(0, 0), 0, 3)));
    assert!(ranges_conflict(&range(leaf(0, 0), 3, 6), &caret));
    assert!(ranges_conflict(&caret, &range(leaf(0, 0), 3, 3)));
    assert!(!ranges_conflict(&caret, &range(leaf(0, 0), 4, 4)));
    assert!(!ranges_conflict(&range(leaf(0, 0), 0, 3), &range(leaf(0, 0), 3, 6)));
}

#[test]
fn independent_selections_must_not_conflict() {
    let a = selection(vec![range(leaf(0, 0), 0, 2)]);
    let b = selection(vec![range(leaf(0, 0), 2, 4)]);
    let c = selection(vec![range(leaf(0, 0), 1, 1)]);
    assert!(validate_independent_selections(&[a.clone(), b.clone()]).is_ok());
    let error = validate_independent_selections(&[a, b, c]).expect_err("the caret lies inside a");
    assert_eq!(error.kind(), SelectionErrorKind::OverlappingSelections);
}

#[test]
fn local_ranges_overlap_projected_sources_of_the_same_revision() {
    let local = LocalRange::Snapshot { text: leaf(0, 0), bytes: 1..3 };
    let projected = ProjectedTextRange::new(vec![ProjectedTextSource::Snapshot(range(leaf(0, 0), 2, 4))]);
    assert!(local_range_overlaps_projected(&local, &projected, DocumentRevision(3)));
    assert!(!local_range_overlaps_projected(&local, &projected, DocumentRevision(4)));
    let composed = LocalRange::Composition {
        id: CompositionId(1),
        epoch: CompositionEpoch(2),
        bytes: 0..2,
    };
    let generated = ProjectedTextRange::new(vec![ProjectedTextSource::Composition(
        CompositionTextRange::new(CompositionId(1), CompositionEpoch(2), 1..5),
    )]);
    assert!(local_range_overlaps_projected(&composed, &generated, DocumentRevision(3)));
    assert!(!local_range_overlaps_projected(&composed, &projected, DocumentRevision(3)));
}
