use underwood::{canonicalize_ranges, DocumentId, DocumentRevision, SnapshotTextRange, TextId};

fn text(document: &[u8; 16], paragraph: u32, index: u32) -> TextId {
    TextId::new(DocumentId::from_bytes(*document), paragraph, index)
}

fn range(revision: u64, text: TextId, start: u32, end: u32) -> SnapshotTextRange {
    SnapshotTextRange::new(DocumentRevision(revision), text, start..end)
}

#[test]
fn ranges_are_sorted_into_document_order() {
    let a = text(b"canonical-doc-01", 0, 0);
    let b = text(b"canonical-doc-01", 0, 1);
    let c = text(b"canonical-doc-01", 1, 0);
    let mut ranges = vec![range(1, c, 0, 1), range(1, b, 4, 5), range(1, a, 2, 3), range(1, b, 0, 1)];
    canonicalize_ranges(&mut ranges);
    assert_eq!(
        ranges,
        vec![range(1, a, 2, 3), range(1, b, 0, 1), range(1, b, 4, 5), range(1, c, 0, 1)]
    );
}

#[test]
fn overlapping_and_touching_ranges_of_one_leaf_merge() {
    let a = text(b"canonical-doc-01", 0, 0);
    let mut ranges = vec![range(2, a, 5, 9), range(1, a, 0, 3), range(3, a, 3, 4), range(4, a, 8, 12)];
    canonicalize_ranges(&mut ranges);
    assert_eq!(ranges, vec![range(1, a, 0, 4), range(2, a, 5, 12)]);
}

#[test]
fn a_caret_inside_a_range_merges_into_it() {
    let a = text(b"canonical-doc-01", 0, 0);
    let mut ranges = vec![range(1, a, 2, 2), range(1, a, 0, 5)];
    canonicalize_ranges(&mut ranges);
    assert_eq!(ranges, vec![range(1, a, 0, 5)]);
}

#[test]
fn ranges_of_equal_keys_keep_their_order_across_documents() {
    let first = text(b"canonical-doc-01", 0, 0);
    let second = text(b"canonical-doc-02", 0, 0);
    let mut ranges = vec![range(1, first, 0, 2), range(1, second, 0, 1), range(1, first, 0, 1)];
    canonicalize_ranges(&mut ranges);
    assert_eq!(
        ranges,
        vec![range(1, first, 0, 2), range(1, second, 0, 1), range(1, first, 0, 1)]
    );
}

#[test]
fn canonicalizing_nothing_gives_nothing() {
    let mut ranges: Vec<SnapshotTextRange> = Vec::new();
    canonicalize_ranges(&mut ranges);
    assert!(ranges.is_empty());
}

#[test]
fn canonicalizing_twice_changes_nothing_and_never_lengthens() {
    let a = text(b"canonical-doc-01", 0, 0);
    let b = text(b"canonical-doc-01", 2, 1);
    let original = vec![range(3, b, 4, 6), range(1, a, 0, 3), range(2, a, 3, 5), range(4, b, 0, 2), range(5, a, 9, 9)];
    let mut ranges = original.clone();
    canonicalize_ranges(&mut ranges);
    assert!(ranges.len() <= original.len());
    assert_eq!(ranges, vec![range(1, a, 0, 5), range(5, a, 9, 9), range(4, b, 0, 2), range(3, b, 4, 6)]);
    let once = ranges.clone();
    canonicalize_ranges(&mut ranges);
    assert_eq!(ranges, once);
}

#[test]
fn canonicalizing_ranges_of_two_documents_twice_changes_nothing() {
    let a = text(b"canonical-doc-01", 0, 0);
    let b = text(b"canonical-doc-02", 0, 0);
    let mut ranges = vec![range(1, a, 3, 4), range(1, b, 1, 2), range(1, a, 0, 5)];
    canonicalize_ranges(&mut ranges);
    assert_eq!(ranges, vec![range(1, a, 0, 5), range(1, b, 1, 2), range(1, a, 3, 4)]);
    let once = ranges.clone();
    canonicalize_ranges(&mut ranges);
    assert_eq!(ranges, once);
}

#[test]
fn canonical_ranges_of_one_document_have_strictly_increasing_keys() {
    let a = text(b"canonical-doc-01", 0, 0);
    let b = text(b"canonical-doc-01", 0, 1);
    let c = text(b"canonical-doc-01", 1, 0);
    let mut ranges = vec![range(1, c, 2, 3), range(1, a, 4, 4), range(1, b, 0, 2), range(1, a, 4, 6), range(1, a, 0, 1)];
    canonicalize_ranges(&mut ranges);
    let keys: Vec<_> = ranges
        .iter()
        .map(|r| (r.text().paragraph, r.text().index, r.bytes().start))
        .collect();
    assert!(keys.windows(2).all(|pair| pair[0] < pair[1]));
    assert_eq!(ranges, vec![range(1, a, 0, 1), range(1, a, 4, 6), range(1, b, 0, 2), range(1, c, 2, 3)]);
}
