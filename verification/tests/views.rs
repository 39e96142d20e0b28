use underwood::{
    DocumentId, DocumentRevision, ParagraphSourceMap, ProjectedTextSource, ProjectedTextUnitView,
    SnapshotTextRange, SnapshotTextUnitView, SourceSpan, TextId,
};

fn leaf() -> TextId {
    TextId::new(DocumentId::from_bytes(*b"views-test-doc01"), 0, 0)
}

#[test]
fn snapshot_unit_view_stamps_the_scene_revision() {
    let map = ParagraphSourceMap::snapshot_leaf(leaf(), 6);
    let view = SnapshotTextUnitView::new(DocumentRevision(7), &map, SourceSpan::new(1, 3));
    let mut sources = view.sources();
    assert_eq!(sources.len(), 1);
    let copy = sources.iter();
    assert_eq!(
        sources.next(),
        Some(SnapshotTextRange::new(DocumentRevision(7), leaf(), 1..3))
    );
    assert_eq!(sources.next(), None);
    assert_eq!(copy.len(), 1);
    let unit = view.to_owned();
    assert_eq!(
        unit.sources(),
        &[SnapshotTextRange::new(DocumentRevision(7), leaf(), 1..3)]
    );
}

#[test]
fn snapshot_sources_can_be_read_from_the_back() {
    let map = ParagraphSourceMap::snapshot_leaf(leaf(), 4);
    let view = SnapshotTextUnitView::new(DocumentRevision(2), &map, SourceSpan::new(0, 4));
    let mut sources = view.sources();
    assert_eq!(
        sources.next_back(),
        Some(SnapshotTextRange::new(DocumentRevision(2), leaf(), 0..4))
    );
    assert_eq!(sources.next_back(), None);
}

#[test]
fn projected_unit_view_materializes_committed_sources() {
    let map = ParagraphSourceMap::snapshot_leaf(leaf(), 4);
    let view = ProjectedTextUnitView::new(DocumentRevision(3), &map, SourceSpan::new(2, 4));
    let owned = view.to_owned();
    assert_eq!(
        owned.sources(),
        &[ProjectedTextSource::Snapshot(SnapshotTextRange::new(
            DocumentRevision(3),
            leaf(),
            2..4
        ))]
    );
    let mut sources = view.sources();
    assert!(sources.next().is_some());
    assert!(sources.next().is_none());
}

#[test]
fn snapshot_sources_iter_restarts_after_consumption() {
    let map = ParagraphSourceMap::snapshot_leaf(leaf(), 6);
    let view = SnapshotTextUnitView::new(DocumentRevision(4), &map, SourceSpan::new(0, 5));
    let mut sources = view.sources();
    assert!(sources.next().is_some());
    assert_eq!(sources.len(), 0);
    let mut fresh = sources.iter();
    assert_eq!(fresh.len(), 1);
    assert_eq!(sources.len(), 0);
    assert_eq!(
        fresh.next(),
        Some(SnapshotTextRange::new(DocumentRevision(4), leaf(), 0..5))
    );
    assert_eq!(fresh.next(), None);
}
