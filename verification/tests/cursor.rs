use underwood::{
    affinity_for_visual_direction, hit_unit, SYNTHETIC_HIT_UNIT, CursorCaretAnchor, CursorCluster, LineBreakReason,
    ParagraphCursor, PreparedClusterSide, PreparedInteractionUnit, PreparedLine,
    PreparedParagraphFacts, TextAffinity,
};

fn side(offset: u32, affinity: TextAffinity) -> PreparedClusterSide {
    PreparedClusterSide::new(offset, affinity)
}

fn ltr(start: u32, end: u32) -> PreparedInteractionUnit {
    PreparedInteractionUnit {
        source_start: start,
        source_end: end,
        bidi_level: 0,
        left: side(start, TextAffinity::Downstream),
        right: side(end, TextAffinity::Upstream),
    }
}

fn rtl(start: u32, end: u32) -> PreparedInteractionUnit {
    PreparedInteractionUnit {
        source_start: start,
        source_end: end,
        bidi_level: 1,
        left: side(end, TextAffinity::Upstream),
        right: side(start, TextAffinity::Downstream),
    }
}

fn line(
    start: u32,
    end: u32,
    reason: LineBreakReason,
    units: Vec<PreparedInteractionUnit>,
    source_order: Vec<usize>,
) -> PreparedLine {
    PreparedLine {
        source_start: start,
        source_end: end,
        break_reason: reason,
        units,
        source_order,
    }
}

fn abc() -> PreparedParagraphFacts {
    PreparedParagraphFacts::try_new(
        3,
        true,
        vec![line(
            0,
            3,
            LineBreakReason::End,
            vec![ltr(0, 1), ltr(1, 2), ltr(2, 3)],
            vec![0, 1, 2],
        )],
    )
    .expect("one well-formed line")
}

#[test]
fn facts_reject_overlapping_or_unordered_input() {
    assert!(PreparedParagraphFacts::try_new(
        3,
        true,
        vec![line(0, 3, LineBreakReason::End, vec![ltr(0, 2), ltr(1, 3)], vec![0, 1])],
    )
    .is_none());
    assert!(PreparedParagraphFacts::try_new(
        3,
        true,
        vec![
            line(2, 3, LineBreakReason::Regular, vec![ltr(2, 3)], vec![0]),
            line(0, 2, LineBreakReason::End, vec![ltr(0, 2)], vec![0]),
        ],
    )
    .is_none());
    assert!(PreparedParagraphFacts::try_new(
        2,
        true,
        vec![line(0, 3, LineBreakReason::End, vec![ltr(0, 3)], vec![0])],
    )
    .is_none());
    let facts = abc();
    assert_eq!(facts.text_len(), 3);
    assert!(facts.has_selection());
    assert_eq!(facts.lines()[0].source(), 0..3);
    assert_eq!(facts.lines()[0].break_reason(), LineBreakReason::End);
}

#[test]
fn caret_stops_count_both_sides_of_each_unit() {
    let facts = abc();
    assert_eq!(ParagraphCursor::new(&facts).count(), 6);
    let hidden = PreparedParagraphFacts::try_new(
        3,
        false,
        vec![line(0, 3, LineBreakReason::End, vec![ltr(0, 3)], vec![0])],
    )
    .unwrap();
    assert_eq!(ParagraphCursor::new(&hidden).count(), 0);
    assert!(ParagraphCursor::new(&hidden).start().is_none());
    let empty = PreparedParagraphFacts::try_new(0, true, vec![line(0, 0, LineBreakReason::End, vec![], vec![])]).unwrap();
    assert_eq!(ParagraphCursor::new(&empty).count(), 1);
}

#[test]
fn offsets_normalize_to_caret_stops() {
    let facts = abc();
    let cursor = ParagraphCursor::new(&facts);
    assert_eq!(cursor.normalize(1, TextAffinity::Upstream), side(1, TextAffinity::Upstream));
    assert_eq!(cursor.normalize(0, TextAffinity::Upstream), side(0, TextAffinity::Downstream));
    assert_eq!(cursor.normalize(3, TextAffinity::Downstream), side(3, TextAffinity::Upstream));
    assert_eq!(cursor.normalize(4, TextAffinity::Downstream), side(u32::MAX, TextAffinity::Downstream));
    assert!(cursor.get(side(1, TextAffinity::Upstream)).is_some());
    assert!(cursor.get(side(3, TextAffinity::Downstream)).is_none());
    assert_eq!(cursor.start().unwrap().position(), side(0, TextAffinity::Downstream));
    assert_eq!(cursor.end().unwrap().position(), side(3, TextAffinity::Upstream));
    assert_eq!(cursor.first_visual().unwrap().position(), side(0, TextAffinity::Downstream));
    assert_eq!(cursor.last_visual().unwrap().position(), side(3, TextAffinity::Upstream));
}

#[test]
fn clusters_are_found_by_source_offset() {
    let facts = abc();
    let cursor = ParagraphCursor::new(&facts);
    assert_eq!(cursor.downstream_cluster(1), Some(CursorCluster { line: 0, unit: 1 }));
    assert_eq!(cursor.upstream_cluster(1), Some(CursorCluster { line: 0, unit: 0 }));
    assert_eq!(cursor.upstream_cluster(0), None);
    assert_eq!(cursor.downstream_cluster(3), None);
    assert_eq!(cursor.first_cluster(), Some(CursorCluster { line: 0, unit: 0 }));
    assert_eq!(cursor.last_cluster(), Some(CursorCluster { line: 0, unit: 2 }));
    let middle = CursorCluster { line: 0, unit: 1 };
    assert_eq!(cursor.previous_cluster(middle), Some(CursorCluster { line: 0, unit: 0 }));
    assert_eq!(cursor.next_cluster(middle), Some(CursorCluster { line: 0, unit: 2 }));
    assert_eq!(cursor.next_cluster(CursorCluster { line: 0, unit: 2 }), None);
    assert_eq!(cursor.unit(middle), Some(&ltr(1, 2)));
    assert!(!cursor.is_rtl(middle));
    assert!(cursor.is_end_of_line(CursorCluster { line: 0, unit: 2 }));
    assert!(!cursor.is_soft_line_end(CursorCluster { line: 0, unit: 2 }));
}

#[test]
fn logical_steps_cross_one_unit() {
    let facts = abc();
    let cursor = ParagraphCursor::new(&facts);
    let start = cursor.start().unwrap();
    let next = start.next_logical().unwrap();
    assert_eq!(next.target, side(1, TextAffinity::Upstream));
    assert_eq!(next.source, Some(0..1));
    assert!(start.previous_logical().is_none());
    let end = cursor.end().unwrap();
    let previous = end.previous_logical().unwrap();
    assert_eq!(previous.target, side(2, TextAffinity::Downstream));
    assert_eq!(previous.source, Some(2..3));
    assert!(end.next_logical().is_none());
}

#[test]
fn visual_steps_follow_the_screen_in_left_to_right_text() {
    let facts = abc();
    let cursor = ParagraphCursor::new(&facts);
    let start = cursor.start().unwrap();
    let right = start.next_visual().unwrap();
    assert_eq!(right.target, side(1, TextAffinity::Upstream));
    assert_eq!(right.source, Some(0..1));
    assert!(start.previous_visual().is_none());
    let end = cursor.end().unwrap();
    let left = end.previous_visual().unwrap();
    assert_eq!(left.target, side(2, TextAffinity::Downstream));
    assert_eq!(left.source, Some(2..3));
    assert_eq!(
        start.caret_anchor(),
        CursorCaretAnchor::Unit { cluster: CursorCluster { line: 0, unit: 0 }, at_end: false }
    );
    assert_eq!(
        end.caret_anchor(),
        CursorCaretAnchor::Unit { cluster: CursorCluster { line: 0, unit: 2 }, at_end: true }
    );
}

#[test]
fn visual_steps_in_right_to_left_text_move_logically_backward() {
    // Two right-to-left units shown as [b, a]: a = 0..1, b = 1..2.
    let facts = PreparedParagraphFacts::try_new(
        2,
        true,
        vec![line(0, 2, LineBreakReason::End, vec![rtl(1, 2), rtl(0, 1)], vec![1, 0])],
    )
    .unwrap();
    let cursor = ParagraphCursor::new(&facts);
    let leftmost = cursor.first_visual().unwrap();
    assert_eq!(leftmost.position(), side(2, TextAffinity::Upstream));
    let step = leftmost.next_visual().unwrap();
    assert_eq!(step.target, side(1, TextAffinity::Downstream));
    assert_eq!(step.source, Some(1..2));
    assert!(cursor.is_rtl(CursorCluster { line: 0, unit: 0 }));
    assert_eq!(cursor.last_visual().unwrap().position(), side(0, TextAffinity::Downstream));
}

#[test]
fn a_caret_after_a_final_hard_break_sits_at_the_last_line_start() {
    let facts = PreparedParagraphFacts::try_new(
        2,
        true,
        vec![
            line(0, 2, LineBreakReason::Mandatory, vec![ltr(0, 1), ltr(1, 2)], vec![0, 1]),
            line(2, 2, LineBreakReason::End, vec![], vec![]),
        ],
    )
    .unwrap();
    let cursor = ParagraphCursor::new(&facts);
    let end = cursor.end().unwrap();
    assert_eq!(end.position(), side(2, TextAffinity::Upstream));
    assert_eq!(end.caret_anchor(), CursorCaretAnchor::LastLineStart);
    assert!(cursor.is_hard_line_end(CursorCluster { line: 0, unit: 1 }));
}

#[test]
fn visual_direction_picks_the_affinity_of_the_crossed_edge() {
    assert_eq!(affinity_for_visual_direction(false, true), TextAffinity::Upstream);
    assert_eq!(affinity_for_visual_direction(false, false), TextAffinity::Downstream);
    assert_eq!(affinity_for_visual_direction(true, true), TextAffinity::Downstream);
    assert_eq!(affinity_for_visual_direction(true, false), TextAffinity::Upstream);
}

#[test]
fn units_are_found_by_logical_rank() {
    let l = line(0, 2, LineBreakReason::End, vec![rtl(1, 2), rtl(0, 1)], vec![1, 0]);
    assert_eq!(l.unit_at_source_rank(0), Some((1, &rtl(0, 1))));
    assert_eq!(l.unit_at_source_rank(1), Some((0, &rtl(1, 2))));
    assert_eq!(l.unit_at_source_rank(2), None);
    assert_eq!(l.units().len(), 2);
    let unit = rtl(0, 1);
    assert_eq!(unit.source(), 0..1);
    assert_eq!(unit.bidi_level(), 1);
    assert_eq!(unit.left(), side(1, TextAffinity::Upstream));
    assert_eq!(unit.right(), side(0, TextAffinity::Downstream));
}

#[test]
fn crossing_a_unit_forward_and_back_restores_the_caret() {
    let facts = abc();
    let cursor = ParagraphCursor::new(&facts);
    for offset in 0..3 {
        let position = side(offset, TextAffinity::Downstream);
        let movement = cursor.get(position).unwrap();
        let forward = movement.next_logical().unwrap();
        let back = cursor.get(forward.target).unwrap().previous_logical().unwrap();
        assert_eq!(back.target, position);
        assert_eq!(back.source, forward.source);
        assert!(forward.source.is_some());
    }
}

#[test]
fn a_gap_after_the_crossed_unit_lands_at_the_end_of_the_text() {
    let facts = PreparedParagraphFacts::try_new(
        4,
        true,
        vec![line(0, 4, LineBreakReason::End, vec![ltr(0, 2), ltr(3, 4)], vec![0, 1])],
    )
    .expect("one well-formed line");
    let cursor = ParagraphCursor::new(&facts);
    let forward = cursor.start().unwrap().next_logical().unwrap();
    assert_eq!(forward.target, side(4, TextAffinity::Upstream));
    let back = cursor.get(forward.target).unwrap().previous_logical().unwrap();
    assert_eq!(back.source, Some(3..4));
}

#[test]
fn hit_placements_resolve_to_their_unit_or_the_line_start() {
    let facts = PreparedParagraphFacts::try_new(
        5,
        true,
        vec![
            line(0, 2, LineBreakReason::Regular, vec![ltr(0, 1), rtl(1, 2)], vec![0, 1]),
            line(2, 5, LineBreakReason::End, vec![ltr(2, 5)], vec![0]),
        ],
    )
    .expect("two well-formed lines");
    let second = hit_unit(&facts, 0, 1);
    assert!(second.prepared);
    assert_eq!((second.source_start, second.source_end), (1, 2));
    assert_eq!(second.left, side(2, TextAffinity::Upstream));
    assert_eq!(second.right, side(1, TextAffinity::Downstream));
    assert_eq!(second.bidi_level, 1);
    let synthetic = hit_unit(&facts, 1, SYNTHETIC_HIT_UNIT);
    assert!(!synthetic.prepared);
    assert_eq!((synthetic.source_start, synthetic.source_end), (2, 5));
    assert_eq!(synthetic.left, side(2, TextAffinity::Upstream));
    assert_eq!(synthetic.right, synthetic.left);
    assert_eq!(synthetic.bidi_level, 0);
    let missing = hit_unit(&facts, 7, 0);
    assert_eq!((missing.source_start, missing.source_end), (0, 0));
    assert_eq!(missing.left, side(0, TextAffinity::Downstream));
}
