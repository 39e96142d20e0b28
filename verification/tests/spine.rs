use std::sync::Arc;

use underwood::{RecordKind, SceneSpine, SegmentCounts, SegmentPosition};

fn counts(lines: usize) -> SegmentCounts {
    SegmentCounts::for_segment(lines, 1, 2 * lines, 1, 0, 0)
}

fn segments(names: &[&'static str]) -> Vec<(SegmentCounts, Arc<&'static str>)> {
    names
        .iter()
        .enumerate()
        .map(|(index, name)| (counts(index + 1), Arc::new(*name)))
        .collect()
}

fn names(spine: &SceneSpine<&'static str>) -> Vec<&'static str> {
    (0..spine.paragraph_count())
        .map(|index| **spine.segment(index).expect("index is in range"))
        .collect()
}

#[test]
fn a_spine_keeps_segments_in_paragraph_order() {
    let spine = SceneSpine::from_segments(&segments(&["a", "b", "c", "d", "e"]), true);
    assert_eq!(spine.paragraph_count(), 5);
    assert_eq!(names(&spine), vec!["a", "b", "c", "d", "e"]);
    assert!(spine.segment(5).is_none());
    assert!(spine.is_normal_flow());
    let summary = spine.summary();
    assert_eq!(summary.paragraphs, 5);
    assert_eq!(summary.lines, 15);
    assert_eq!(summary.fragments, 5);
    assert_eq!(SceneSpine::<&str>::empty(false).paragraph_count(), 0);
}

#[test]
fn replacing_one_segment_changes_only_that_paragraph() {
    let spine = SceneSpine::from_segments(&segments(&["a", "b", "c"]), true);
    let replaced = spine.replace(1, counts(7), Arc::new("B")).expect("index one exists");
    assert_eq!(names(&replaced), vec!["a", "B", "c"]);
    assert_eq!(replaced.summary().lines, 1 + 7 + 3);
    assert_eq!(names(&spine), vec!["a", "b", "c"]);
    assert!(spine.replace(3, counts(1), Arc::new("x")).is_none());
    let single = SceneSpine::from_segments(&segments(&["only"]), true);
    assert_eq!(names(&single.replace(0, counts(1), Arc::new("new")).unwrap()), vec!["new"]);
}

#[test]
fn appending_many_segments_keeps_their_order() {
    let mut spine = SceneSpine::empty(true);
    let mut expected = Vec::new();
    let labels = ["0", "1", "2", "3", "4", "5", "6", "7", "8", "9", "10", "11"];
    for label in labels {
        spine = spine.append(counts(1), Arc::new(label));
        expected.push(label);
        assert_eq!(names(&spine), expected);
    }
    assert_eq!(spine.summary().lines, 12);
}

#[test]
fn replacing_a_range_splices_segments() {
    let spine = SceneSpine::from_segments(&segments(&["a", "b", "c", "d", "e"]), false);
    let replacement = vec![(counts(1), Arc::new("X")), (counts(1), Arc::new("Y"))];
    let spliced = spine.replace_range(2, &replacement).expect("two segments fit from index two");
    assert_eq!(names(&spliced), vec!["a", "b", "X", "Y", "e"]);
    assert!(!spliced.is_normal_flow());
    let across = spine.replace_range(1, &[(counts(1), Arc::new("P")), (counts(1), Arc::new("Q")), (counts(1), Arc::new("R"))]).unwrap();
    assert_eq!(names(&across), vec!["a", "P", "Q", "R", "e"]);
    assert!(spine.replace_range(4, &replacement).is_none());
    assert_eq!(names(&spine.replace_range(5, &[]).unwrap()), names(&spine));
    assert!(spine.replace_range(6, &[]).is_none());
}

#[test]
fn records_are_found_with_the_counts_before_their_segment() {
    // Line counts per segment: 1, 2, 3.
    let spine = SceneSpine::from_segments(&segments(&["a", "b", "c"]), true);
    let (segment, position, local) = spine.positioned_record(3, RecordKind::Lines).unwrap();
    assert_eq!(**segment, "c");
    assert_eq!(local, 0);
    assert_eq!(position.paragraph_base, 2);
    assert_eq!(position.line_base, 3);
    assert_eq!(position.movement_base, 6);
    let (segment, position, local) = spine.positioned_record(2, RecordKind::Lines).unwrap();
    assert_eq!(**segment, "b");
    assert_eq!(local, 1);
    assert_eq!(position, SegmentPosition { paragraph_base: 1, line_base: 1, fragment_base: 1, movement_base: 2, text_base: 1 });
    assert!(spine.positioned_record(6, RecordKind::Lines).is_none());
    let (segment, _, _) = spine.positioned_record(1, RecordKind::Paragraphs).unwrap();
    assert_eq!(**segment, "b");
}

#[test]
fn only_trees_charge_node_bytes() {
    let single = SceneSpine::from_segments(&segments(&["a"]), true);
    assert_eq!(single.accounted_node_bytes(), 0);
    let tree = SceneSpine::from_segments(&segments(&["a", "b", "c"]), true);
    assert_eq!(
        tree.accounted_node_bytes(),
        5 * core::mem::size_of::<underwood::SceneNode<&'static str>>()
    );
}

#[test]
fn position_advances_saturate() {
    let mut position = SegmentPosition::start();
    position.advance(counts(3));
    assert_eq!(position.line_base, 3);
    position.advance(SegmentCounts::for_segment(usize::MAX, 0, 0, 0, 0, 0));
    assert_eq!(position.line_base, usize::MAX);
    assert_eq!(position.paragraph_base, 2);
}

#[derive(Debug)]
struct Segment {
    paragraph: u32,
    height: f64,
}

fn segment(paragraph: u32, height: f64) -> (SegmentCounts, Arc<Segment>) {
    (SegmentCounts::for_segment(0, 0, 0, 0, 0, 0), Arc::new(Segment { paragraph, height }))
}

#[test]
fn replacement_shares_siblings_and_updates_prefix_summaries() {
    let segments = [segment(0, 10.0), segment(1, 20.0), segment(2, 30.0)];
    let spine = SceneSpine::from_segments(&segments, true);
    let (counts, replacement) = segment(1, 25.0);
    let changed = spine.replace(1, counts, Arc::clone(&replacement)).expect("paragraph exists");

    assert!(Arc::ptr_eq(
        spine.segment(0).expect("first segment exists"),
        changed.segment(0).expect("first segment remains")
    ));
    assert!(Arc::ptr_eq(
        spine.segment(2).expect("last segment exists"),
        changed.segment(2).expect("last segment remains")
    ));
    assert!(Arc::ptr_eq(changed.segment(1).expect("replacement exists"), &replacement));
    assert_eq!(changed.segment(1).unwrap().height, 25.0);
    assert_eq!(changed.summary().paragraphs, 3);
    assert_eq!(
        spine.accounted_node_bytes(),
        5 * core::mem::size_of::<underwood::SceneNode<Segment>>(),
        "three paragraphs retain three leaves and two branch nodes"
    );
    assert_eq!(spine.unshared_node_bytes_from(Some(&spine)), 0, "an exact spine retains no new nodes");
    assert_eq!(
        changed.unshared_node_bytes_from(Some(&spine)),
        3 * core::mem::size_of::<underwood::SceneNode<Segment>>(),
        "replacing the middle paragraph retains one new leaf and its two-node root path"
    );
    assert_eq!(
        changed.unshared_node_bytes_from(None),
        changed.accounted_node_bytes(),
        "without a previous spine every node is new"
    );
}

#[test]
fn single_paragraph_spine_needs_no_persistent_tree_node() {
    let only = segment(0, 10.0);
    let spine = SceneSpine::from_segments(core::slice::from_ref(&only), true);

    assert_eq!(spine.accounted_node_bytes(), 0);
    assert_eq!(spine.unshared_node_bytes_from(None), 0);
    assert!(Arc::ptr_eq(spine.segment(0).expect("single segment exists"), &only.1));
    assert_eq!(spine.paragraph_count(), 1);
    assert_eq!(spine.depth(), 1);
}

#[test]
fn range_replacement_copies_each_covered_path_once() {
    let segments: Vec<_> = (0..64).map(|paragraph| segment(paragraph, 10.0)).collect();
    let spine = SceneSpine::from_segments(&segments, false);
    let replacements: Vec<_> = (20..28).map(|paragraph| segment(paragraph, 20.0)).collect();
    let changed = spine.replace_range(20, &replacements).expect("range is represented");

    assert!(Arc::ptr_eq(
        spine.segment(19).expect("prefix exists"),
        changed.segment(19).expect("prefix remains")
    ));
    assert!(Arc::ptr_eq(
        spine.segment(28).expect("suffix exists"),
        changed.segment(28).expect("suffix remains")
    ));
    for (offset, replacement) in replacements.iter().enumerate() {
        assert!(Arc::ptr_eq(
            changed.segment(20 + offset).expect("replacement exists"),
            &replacement.1
        ));
    }
    assert_eq!(changed.depth(), spine.depth());
    assert!(
        changed.unshared_node_bytes_from(Some(&spine))
            < replacements.len().saturating_mul(32).saturating_mul(core::mem::size_of::<underwood::SceneNode<Segment>>()),
        "one range update must share paths instead of applying independent replacements"
    );
    let other_flow = SceneSpine::from_segments(&segments, true);
    assert_eq!(changed.unshared_node_bytes_from(Some(&other_flow)), changed.accounted_node_bytes());
}

#[test]
fn append_remains_balanced_and_shares_the_complete_prefix() {
    let initial: Vec<_> = (0..1_024).map(|paragraph| segment(paragraph, 10.0)).collect();
    let spine = SceneSpine::from_segments(&initial, true);
    let (counts, appended) = segment(1_024, 20.0);
    let changed = spine.append(counts, Arc::clone(&appended));

    assert!(Arc::ptr_eq(
        spine.segment(511).expect("old prefix exists"),
        changed.segment(511).expect("old prefix remains")
    ));
    assert!(Arc::ptr_eq(changed.segment(1_024).expect("appended segment exists"), &appended));
    assert_eq!(changed.summary().paragraphs, 1_025);
    assert_eq!(changed.segment(1_024).unwrap().paragraph, 1_024);
    assert!(changed.depth() <= 12, "sequential append must preserve logarithmic depth");
}

#[test]
fn sequential_appends_stay_shallow() {
    let mut spine = SceneSpine::empty(true);
    for paragraph in 0..2_000 {
        let (counts, next) = segment(paragraph, 1.0);
        spine = spine.append(counts, next);
        let paragraphs = spine.paragraph_count() as f64;
        let bound = 2.0 * paragraphs.log2() + 1.0;
        assert!(f64::from(spine.depth()) <= bound.max(1.0));
    }
    assert_eq!(spine.segment(1_999).unwrap().paragraph, 1_999);
}
