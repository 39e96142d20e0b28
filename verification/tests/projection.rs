use underwood::{
    append_analysis_run, append_paint_run, append_run, composition_identity, project_runs,
    project_style_runs, run_for_position, span_for_position, whole_paint_slot, AnalysisStyle,
    CompositionEpoch, CompositionId, DocumentId, LeafSpan, LeafSpanSource, PaintSlot,
    ParagraphId, ProjectionKind, ProjectionSegment, SceneErrorKind, StyleRun, TextAffinity,
    TextId, TextProjection, WordBreak,
};

fn paragraph() -> ParagraphId {
    ParagraphId::new(DocumentId::from_bytes(*b"projection-doc01"), 0)
}

fn run(start: u32, end: u32, key: u32) -> StyleRun {
    StyleRun::new(start..end, key)
}

fn segment(kind: ProjectionKind, source: (u32, u32), projected: (u32, u32)) -> ProjectionSegment {
    ProjectionSegment {
        kind,
        source_start: source.0,
        source_end: source.1,
        projected_start: projected.0,
        projected_end: projected.1,
    }
}

#[test]
fn appending_a_continuation_with_the_same_key_extends_the_last_run() {
    let mut runs = Vec::new();
    append_run(&mut runs, 0..3, 7);
    append_run(&mut runs, 3..5, 7);
    assert_eq!(runs, vec![run(0, 5, 7)]);
    append_run(&mut runs, 5..6, 8);
    append_run(&mut runs, 7..9, 8);
    assert_eq!(runs, vec![run(0, 5, 7), run(5, 6, 8), run(7, 9, 8)]);
}

#[test]
fn paint_runs_use_the_slot_index_as_key() {
    let mut runs = Vec::new();
    append_paint_run(&mut runs, 0..2, PaintSlot::new(3));
    append_paint_run(&mut runs, 2..4, PaintSlot::new(3));
    assert_eq!(runs, vec![run(0, 4, 3)]);
}

#[test]
fn analysis_styles_are_interned_by_first_equal_entry() {
    let mut styles = Vec::new();
    let mut runs = Vec::new();
    let normal = AnalysisStyle::new(WordBreak::Normal);
    let keep = AnalysisStyle::new(WordBreak::KeepAll);
    append_analysis_run(&mut styles, &mut runs, 0..2, normal, paragraph()).unwrap();
    append_analysis_run(&mut styles, &mut runs, 2..4, keep, paragraph()).unwrap();
    append_analysis_run(&mut styles, &mut runs, 4..6, normal, paragraph()).unwrap();
    assert_eq!(styles, vec![normal, keep]);
    assert_eq!(runs, vec![run(0, 2, 0), run(2, 4, 1), run(4, 6, 0)]);
}

#[test]
fn interning_beyond_sixteen_bits_is_an_invalid_style() {
    let styles_full = vec![AnalysisStyle::new(WordBreak::Normal); 0x1_0000];
    let mut styles = styles_full.clone();
    let mut runs = Vec::new();
    let keep = AnalysisStyle::new(WordBreak::KeepAll);
    let error = append_analysis_run(&mut styles, &mut runs, 0..1, keep, paragraph())
        .expect_err("a new style would need key 65536");
    assert_eq!(error.kind(), SceneErrorKind::InvalidStyle);
    assert_eq!(error.paragraph(), Some(paragraph()));
    assert_eq!(styles.len(), styles_full.len());
    assert!(runs.is_empty());
    let normal = AnalysisStyle::new(WordBreak::Normal);
    append_analysis_run(&mut styles, &mut runs, 0..1, normal, paragraph())
        .expect("an equal style reuses key zero");
    assert_eq!(runs, vec![run(0, 1, 0)]);
}

#[test]
fn run_for_position_prefers_a_covering_run_then_the_last_ending_run() {
    let runs = vec![run(0, 2, 1), run(2, 4, 2), run(6, 6, 3)];
    assert_eq!(run_for_position(&runs, 0), Some(0));
    assert_eq!(run_for_position(&runs, 2), Some(1));
    assert_eq!(run_for_position(&runs, 4), Some(1));
    assert_eq!(run_for_position(&runs, 6), Some(2));
    assert_eq!(run_for_position(&runs, 5), None);
}

#[test]
fn projection_moves_identity_runs_and_keys_generated_text_by_owner() {
    // Source "ab  cd" (6 bytes) collapses the two spaces to one: "ab cd".
    let mapping = TextProjection::try_new(
        6,
        5,
        vec![
            segment(ProjectionKind::Identity, (0, 2), (0, 2)),
            segment(ProjectionKind::Collapsed, (2, 4), (2, 3)),
            segment(ProjectionKind::Identity, (4, 6), (3, 5)),
        ],
    )
    .expect("segments partition both texts");
    let source = vec![run(0, 3, 1), run(3, 6, 2)];
    let projected = project_runs(paragraph(), &mapping, &source).expect("all text is styled");
    assert_eq!(projected, vec![run(0, 3, 1), run(3, 5, 2)]);
}

#[test]
fn projection_reports_unowned_generated_text() {
    let mapping = TextProjection::try_new(
        2,
        3,
        vec![
            segment(ProjectionKind::Identity, (0, 1), (0, 1)),
            segment(ProjectionKind::Inserted, (1, 1), (1, 2)),
            segment(ProjectionKind::Identity, (1, 2), (2, 3)),
        ],
    )
    .expect("segments partition both texts");
    let source = vec![run(0, 0, 1)];
    let error = project_runs(paragraph(), &mapping, &source).expect_err("no run owns byte one");
    assert_eq!(error.kind(), SceneErrorKind::SourceCoverage);
    assert_eq!(error.source(), Some(1..1));
}

#[test]
fn identity_projection_leaves_every_partition_unchanged() {
    let mapping = TextProjection::try_new(
        3,
        3,
        vec![segment(ProjectionKind::Identity, (0, 3), (0, 3))],
    )
    .unwrap();
    let mut analysis = vec![run(0, 3, 0)];
    let mut shaping = vec![run(0, 1, 0), run(1, 3, 1)];
    let mut inline_flow = vec![run(0, 3, 0)];
    let mut paint = vec![run(0, 2, 4), run(2, 3, 5)];
    project_style_runs(
        paragraph(),
        &mapping,
        &mut analysis,
        &mut shaping,
        &mut inline_flow,
        &mut paint,
    )
    .unwrap();
    assert_eq!(shaping, vec![run(0, 1, 0), run(1, 3, 1)]);
    assert_eq!(paint, vec![run(0, 2, 4), run(2, 3, 5)]);
}

#[test]
fn a_failing_partition_stops_projection_and_keeps_later_partitions() {
    let mapping = TextProjection::try_new(
        2,
        1,
        vec![
            segment(ProjectionKind::Identity, (0, 1), (0, 1)),
            segment(ProjectionKind::Omitted, (1, 2), (1, 1)),
        ],
    )
    .unwrap();
    let mut analysis = vec![run(0, 2, 0)];
    let mut shaping = vec![run(0, 2, 1)];
    let mut inline_flow = vec![run(0, 2, 2)];
    let mut paint = vec![run(0, 2, 3)];
    project_style_runs(
        paragraph(),
        &mapping,
        &mut analysis,
        &mut shaping,
        &mut inline_flow,
        &mut paint,
    )
    .unwrap();
    assert_eq!(analysis, vec![run(0, 1, 0)]);
    assert_eq!(paint, vec![run(0, 1, 3)]);

    let replaced = TextProjection::try_new(
        2,
        1,
        vec![segment(ProjectionKind::Replacement, (0, 2), (0, 1))],
    )
    .unwrap();
    let mut analysis = vec![run(0, 2, 0)];
    let mut shaping = vec![run(1, 2, 1)];
    let mut inline_flow = vec![run(0, 2, 2)];
    let mut paint = vec![run(0, 2, 3)];
    let error = project_style_runs(
        paragraph(),
        &replaced,
        &mut analysis,
        &mut shaping,
        &mut inline_flow,
        &mut paint,
    )
    .expect_err("no shaping run owns byte zero");
    assert_eq!(error.source(), Some(0..2));
    assert_eq!(analysis, vec![run(0, 1, 0)]);
    assert_eq!(shaping, vec![run(1, 2, 1)]);
    assert_eq!(inline_flow, vec![run(0, 2, 2)]);
}

fn span(start: u32, end: u32, index: u32) -> LeafSpan {
    LeafSpan {
        paragraph_start: start,
        paragraph_end: end,
        text: TextId::new(DocumentId::from_bytes(*b"projection-doc01"), 0, index),
        source: LeafSpanSource::Snapshot { start: 0 },
        leaf_len: end - start,
    }
}

#[test]
fn span_ownership_follows_affinity_at_boundaries() {
    let spans = vec![span(0, 3, 0), span(3, 3, 1), span(3, 6, 2)];
    assert_eq!(span_for_position(&spans, 3, TextAffinity::Upstream), Some(1));
    assert_eq!(span_for_position(&spans, 3, TextAffinity::Downstream), Some(1));
    assert_eq!(span_for_position(&spans, 2, TextAffinity::Upstream), Some(0));
    assert_eq!(span_for_position(&spans, 0, TextAffinity::Upstream), Some(0));
    assert_eq!(span_for_position(&spans, 6, TextAffinity::Downstream), Some(2));
    assert_eq!(span_for_position(&spans, 7, TextAffinity::Downstream), None);
}

#[test]
fn whole_paint_slot_needs_one_containing_run() {
    let runs = vec![run(0, 4, 1), run(4, 8, 2)];
    assert_eq!(whole_paint_slot(&runs, 1..3), Some(PaintSlot::new(1)));
    assert_eq!(whole_paint_slot(&runs, 3..5), None);
    assert_eq!(whole_paint_slot(&runs, 8..9), None);
}

#[test]
fn composition_identity_comes_from_the_first_composition_span() {
    let mut spans = vec![span(0, 1, 0)];
    assert_eq!(composition_identity(&spans), None);
    spans.push(LeafSpan {
        paragraph_start: 1,
        paragraph_end: 2,
        text: TextId::new(DocumentId::from_bytes(*b"projection-doc01"), 0, 1),
        source: LeafSpanSource::Composition {
            id: CompositionId(9),
            epoch: CompositionEpoch(4),
            start: 0,
        },
        leaf_len: 1,
    });
    assert_eq!(
        composition_identity(&spans),
        Some((CompositionId(9), CompositionEpoch(4)))
    );
}

#[test]
fn paragraph_projection_interns_repeated_style_partitions() {
    let paragraph = ParagraphId::new(DocumentId::from_bytes(*b"scene-test-doc04"), 0);
    let normal = AnalysisStyle::default();
    let keep_all = AnalysisStyle::new(WordBreak::KeepAll);
    let mut analysis_styles = Vec::new();
    let mut analysis_runs = Vec::new();
    append_analysis_run(&mut analysis_styles, &mut analysis_runs, 0..1, normal, paragraph)
        .expect("first analysis style must intern");
    append_analysis_run(&mut analysis_styles, &mut analysis_runs, 1..2, keep_all, paragraph)
        .expect("second analysis style must intern");
    append_analysis_run(&mut analysis_styles, &mut analysis_runs, 2..3, normal, paragraph)
        .expect("repeated analysis style must intern");
    assert_eq!(analysis_styles, [normal, keep_all]);
    assert_eq!(analysis_runs[0].key(), 0);
    assert_eq!(analysis_runs[1].key(), 1);
    assert_eq!(analysis_runs[2].key(), 0);
}
