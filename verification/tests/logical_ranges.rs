use underwood::{
    logical_ranges, DocumentId, DocumentRevision, SelectionErrorKind, SnapshotTextPosition,
    SnapshotTextRange, TextAffinity, TextId,
};

fn leaf(paragraph: u32, index: u32) -> TextId {
    TextId::new(DocumentId::from_bytes(*b"logical-ranges01"), paragraph, index)
}

fn at(text: TextId, byte: u32) -> SnapshotTextPosition {
    SnapshotTextPosition::new(DocumentRevision(2), text, byte, TextAffinity::Downstream)
}

fn range(text: TextId, start: u32, end: u32) -> SnapshotTextRange {
    SnapshotTextRange::new(DocumentRevision(2), text, start..end)
}

fn leaves() -> Vec<SnapshotTextRange> {
    vec![range(leaf(0, 0), 0, 5), range(leaf(0, 1), 0, 0), range(leaf(1, 0), 0, 4)]
}

#[test]
fn a_selection_covers_every_leaf_between_its_ends() {
    let ranges = logical_ranges(DocumentRevision(2), &leaves(), at(leaf(1, 0), 2), at(leaf(0, 0), 3)).unwrap();
    assert_eq!(ranges, vec![range(leaf(0, 0), 3, 5), range(leaf(1, 0), 0, 2)]);
}

#[test]
fn a_selection_within_one_leaf_covers_its_bytes() {
    let ranges = logical_ranges(DocumentRevision(2), &leaves(), at(leaf(0, 0), 4), at(leaf(0, 0), 1)).unwrap();
    assert_eq!(ranges, vec![range(leaf(0, 0), 1, 4)]);
}

#[test]
fn a_collapsed_or_empty_selection_is_a_caret_at_the_extent() {
    let caret = logical_ranges(DocumentRevision(2), &leaves(), at(leaf(0, 0), 2), at(leaf(0, 0), 2)).unwrap();
    assert_eq!(caret, vec![range(leaf(0, 0), 2, 2)]);
    let empty = logical_ranges(DocumentRevision(2), &leaves(), at(leaf(0, 0), 5), at(leaf(1, 0), 0)).unwrap();
    assert_eq!(empty, vec![range(leaf(1, 0), 0, 0)]);
}

#[test]
fn a_position_outside_the_scene_is_unknown() {
    let error = logical_ranges(DocumentRevision(2), &leaves(), at(leaf(3, 0), 0), at(leaf(0, 0), 1)).unwrap_err();
    assert_eq!(error.kind(), SelectionErrorKind::UnknownPosition);
}
