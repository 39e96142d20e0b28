use peniko::kurbo::Rect;
use underwood::{
    DocumentId, DocumentRevision, SceneCaret, SceneCompositionRect, SceneSelectionRect,
    SnapshotTextPosition, TextAffinity, TextId,
};

#[test]
fn geometry_records_copy_and_compare_their_fields() {
    let bounds = Rect::new(1.0, 2.0, 3.0, 5.0);
    let highlight = SceneSelectionRect { selection: 1, range: 0, line: 2, bounds, bidi_level: 1 };
    let copy = highlight;
    assert_eq!(copy, highlight);
    assert_ne!(SceneSelectionRect { line: 3, ..highlight }, highlight);

    let preedit = SceneCompositionRect { line: 0, bounds, bidi_level: 0 };
    assert_eq!(preedit.clone(), preedit);
    assert_eq!(preedit.bounds.height(), 3.0);

    let position = SnapshotTextPosition::new(
        DocumentRevision(4),
        TextId::new(DocumentId::from_bytes(*b"scene-record-doc"), 0, 0),
        2,
        TextAffinity::Downstream,
    );
    let caret = SceneCaret { position, bounds: Rect::new(10.0, 0.0, 10.0, 16.0) };
    let moved = caret;
    assert_eq!(moved.position, position);
    assert_eq!(moved.bounds.width(), 0.0);
}
