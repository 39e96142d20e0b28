use underwood::{
    BaseDirection, WhitespaceCollapse,
    append_projection_span, project_paragraph, project_paragraph_with_composition, AnalysisStyle,
    CompositionEpoch, CompositionId, CompositionSplice, DocumentId, DocumentRevision, LeafSource,
    LeafSpan, LeafSpanSource, LeafStyle, PaintSlot, ParagraphId, ParagraphSource, ParagraphStyle, ProjectedLeaves,
    SceneErrorKind, SnapshotTextRange, StyleRun, TextId, WordBreak, validate_source_range,
    paragraph_source_structure_matches,
};

fn document() -> DocumentId {
    DocumentId::from_bytes(*b"leaf-projection1")
}

fn paragraph() -> ParagraphId {
    ParagraphId::new(document(), 2)
}

fn text_id(index: u32) -> TextId {
    TextId::new(document(), 2, index)
}

fn leaf(index: u32, text: &str) -> LeafSource {
    LeafSource::new(text_id(index), String::from(text))
}

fn style(word_break: WordBreak, slot: u32) -> LeafStyle {
    LeafStyle { analysis: AnalysisStyle::new(word_break), paint: PaintSlot::new(slot) }
}

fn span(start: u32, end: u32, leaf: u32, source: LeafSpanSource, leaf_len: u32) -> LeafSpan {
    LeafSpan {
        paragraph_start: start,
        paragraph_end: end,
        text: text_id(leaf),
        source,
        leaf_len,
    }
}

fn snapshot(start: u32) -> LeafSpanSource {
    LeafSpanSource::Snapshot { start }
}

fn composed() -> LeafSpanSource {
    LeafSpanSource::Composition { id: CompositionId(9), epoch: CompositionEpoch(4), start: 0 }
}

fn run(start: u32, end: u32, key: u32) -> StyleRun {
    StyleRun::new(start..end, key)
}

fn splice(target: Option<TextId>, ranges: &[(u32, u32)], text: &str) -> CompositionSplice {
    CompositionSplice {
        id: CompositionId(9),
        epoch: CompositionEpoch(4),
        base_revision: DocumentRevision(3),
        target,
        ranges: ranges
            .iter()
            .map(|(start, end)| {
                SnapshotTextRange::new(DocumentRevision(3), target.unwrap_or(text_id(0)), *start..*end)
            })
            .collect(),
        text: String::from(text),
    }
}

fn empty_projection() -> ProjectedLeaves {
    ProjectedLeaves {
        paragraph: paragraph(),
        paragraph_style: ParagraphStyle::default(),
        text: String::new(),
        spans: Vec::new(),
        analysis_styles: Vec::new(),
        analysis_runs: Vec::new(),
        paint_runs: Vec::new(),
    }
}

#[test]
fn paragraph_source_reports_its_leaves_and_text() {
    let source = ParagraphSource::new(paragraph(), 7, vec![leaf(0, "Hello, "), leaf(1, ""), leaf(2, "world")]);
    assert_eq!(source.id(), paragraph());
    assert_eq!(source.version(), 7);
    assert_eq!(source.leaf_count(), 3);
    assert_eq!(source.leaves()[2].id(), text_id(2));
    assert_eq!(source.leaves()[2].text(), "world");
    assert!(!source.is_empty());

    let mut text = String::from("stale contents");
    source.project_text_into(&mut text);
    assert_eq!(text, "Hello, world");

    let blank = ParagraphSource::new(paragraph(), 1, vec![leaf(0, ""), leaf(1, "")]);
    assert!(blank.is_empty());
    assert!(ParagraphSource::new(paragraph(), 1, Vec::new()).is_empty());
}

#[test]
fn committed_projection_concatenates_leaves_with_spans_and_runs() {
    let source = ParagraphSource::new(paragraph(), 1, vec![leaf(0, "Hello "), leaf(1, ""), leaf(2, "wörld")]);
    let styles = [style(WordBreak::Normal, 3), style(WordBreak::Normal, 3), style(WordBreak::KeepAll, 5)];
    let projected = project_paragraph(&source, &styles, ParagraphStyle::default()).expect("committed leaves project");

    let mut expected_text = String::new();
    source.project_text_into(&mut expected_text);
    assert_eq!(projected.text, expected_text);
    assert_eq!(projected.text, "Hello wörld");
    assert_eq!(
        projected.spans,
        vec![
            span(0, 6, 0, snapshot(0), 6),
            span(6, 6, 1, snapshot(0), 0),
            span(6, 12, 2, snapshot(0), 6),
        ]
    );
    assert_eq!(
        projected.analysis_styles,
        vec![AnalysisStyle::new(WordBreak::Normal), AnalysisStyle::new(WordBreak::KeepAll)]
    );
    assert_eq!(projected.analysis_runs, vec![run(0, 6, 0), run(6, 12, 1)]);
    assert_eq!(projected.paint_runs, vec![run(0, 6, 3), run(6, 12, 5)]);
}

#[test]
fn projection_names_its_paragraph_and_keeps_its_paragraph_style() {
    let source = ParagraphSource::new(paragraph(), 1, vec![leaf(0, "a  b")]);
    let styles = [style(WordBreak::Normal, 0)];
    let paragraph_style = ParagraphStyle::new(BaseDirection::Rtl)
        .with_whitespace_collapse(WhitespaceCollapse::Collapse);
    let projected = project_paragraph(&source, &styles, paragraph_style).unwrap();
    assert_eq!(projected.paragraph, paragraph());
    assert_eq!(projected.paragraph_style, paragraph_style);
    assert_eq!(projected.paragraph_style.base_direction(), BaseDirection::Rtl);
    assert_eq!(projected.text, "a  b");
}

#[test]
fn equal_neighbouring_styles_share_one_run() {
    let source = ParagraphSource::new(paragraph(), 1, vec![leaf(0, "ab"), leaf(1, "cd")]);
    let styles = [style(WordBreak::BreakAll, 1), style(WordBreak::BreakAll, 1)];
    let projected = project_paragraph(&source, &styles, ParagraphStyle::default()).unwrap();
    assert_eq!(projected.analysis_runs, vec![run(0, 4, 0)]);
    assert_eq!(projected.paint_runs, vec![run(0, 4, 1)]);
    assert_eq!(projected.spans.len(), 2);
}

#[test]
fn composition_replaces_its_first_range_with_the_composed_text() {
    let source = ParagraphSource::new(paragraph(), 1, vec![leaf(0, "xy"), leaf(1, "abcdef")]);
    let styles = [style(WordBreak::Normal, 0), style(WordBreak::Normal, 0)];
    let composition = splice(Some(text_id(1)), &[(1, 3)], "ZZ");
    let projected = project_paragraph_with_composition(&source, &styles, ParagraphStyle::default(), &composition).unwrap();
    assert_eq!(projected.text, "xyaZZdef");
    assert_eq!(
        projected.spans,
        vec![
            span(0, 2, 0, snapshot(0), 2),
            span(2, 3, 1, snapshot(0), 6),
            span(3, 5, 1, composed(), 6),
            span(5, 8, 1, snapshot(3), 6),
        ]
    );
    assert_eq!(projected.analysis_runs, vec![run(0, 8, 0)]);
}

#[test]
fn later_replacement_ranges_are_removed_without_composed_text() {
    let source = ParagraphSource::new(paragraph(), 1, vec![leaf(0, "abcdef")]);
    let styles = [style(WordBreak::Normal, 0)];
    let composition = splice(Some(text_id(0)), &[(1, 2), (4, 5)], "Z");
    let projected = project_paragraph_with_composition(&source, &styles, ParagraphStyle::default(), &composition).unwrap();
    assert_eq!(projected.text, "aZcdf");
    assert_eq!(
        projected.spans,
        vec![
            span(0, 1, 0, snapshot(0), 6),
            span(1, 2, 0, composed(), 6),
            span(2, 4, 0, snapshot(2), 6),
            span(4, 5, 0, snapshot(5), 6),
        ]
    );
}

#[test]
fn composition_at_the_leaf_end_keeps_every_committed_byte() {
    let source = ParagraphSource::new(paragraph(), 1, vec![leaf(0, "abc")]);
    let styles = [style(WordBreak::Normal, 0)];
    let composition = splice(Some(text_id(0)), &[(3, 3)], "");
    let projected = project_paragraph_with_composition(&source, &styles, ParagraphStyle::default(), &composition).unwrap();
    assert_eq!(projected.text, "abc");
    assert_eq!(projected.spans, vec![span(0, 3, 0, snapshot(0), 3), span(3, 3, 0, composed(), 3)]);
    assert_eq!(projected.analysis_runs, vec![run(0, 3, 0)]);
}

#[test]
fn invalid_compositions_are_rejected() {
    let source = ParagraphSource::new(paragraph(), 1, vec![leaf(0, "aé")]);
    let styles = [style(WordBreak::Normal, 0)];

    let untargeted = splice(None, &[(0, 1)], "x");
    let error = project_paragraph_with_composition(&source, &styles, ParagraphStyle::default(), &untargeted).unwrap_err();
    assert_eq!(error.kind(), SceneErrorKind::InvalidComposition);
    assert_eq!(error.paragraph(), Some(paragraph()));
    assert_eq!(error.source(), None);

    let elsewhere = splice(Some(TextId::new(document(), 3, 0)), &[(0, 1)], "x");
    let error = project_paragraph_with_composition(&source, &styles, ParagraphStyle::default(), &elsewhere).unwrap_err();
    assert_eq!(error.kind(), SceneErrorKind::InvalidComposition);

    let rangeless = splice(Some(text_id(0)), &[], "x");
    let error = project_paragraph_with_composition(&source, &styles, ParagraphStyle::default(), &rangeless).unwrap_err();
    assert_eq!(error.kind(), SceneErrorKind::InvalidComposition);

    let mut stale = splice(Some(text_id(0)), &[(0, 1)], "x");
    stale.base_revision = DocumentRevision(4);
    let error = project_paragraph_with_composition(&source, &styles, ParagraphStyle::default(), &stale).unwrap_err();
    assert_eq!(error.kind(), SceneErrorKind::InvalidComposition);

    let missing = splice(Some(text_id(5)), &[(0, 1)], "x");
    let error = project_paragraph_with_composition(&source, &styles, ParagraphStyle::default(), &missing).unwrap_err();
    assert_eq!(error.kind(), SceneErrorKind::InvalidComposition);
    assert_eq!(error.source(), None);
}

#[test]
fn replacements_must_follow_each_other_and_select_whole_characters() {
    let source = ParagraphSource::new(paragraph(), 1, vec![leaf(0, "aéb")]);
    let styles = [style(WordBreak::Normal, 0)];

    let split_character = splice(Some(text_id(0)), &[(1, 2)], "x");
    let error = project_paragraph_with_composition(&source, &styles, ParagraphStyle::default(), &split_character).unwrap_err();
    assert_eq!(error.kind(), SceneErrorKind::InvalidComposition);
    assert_eq!(error.source(), Some(1..2));

    let backwards = splice(Some(text_id(0)), &[(3, 4), (0, 1)], "x");
    let error = project_paragraph_with_composition(&source, &styles, ParagraphStyle::default(), &backwards).unwrap_err();
    assert_eq!(error.source(), Some(0..1));

    let past_end = splice(Some(text_id(0)), &[(3, 9)], "x");
    let error = project_paragraph_with_composition(&source, &styles, ParagraphStyle::default(), &past_end).unwrap_err();
    assert_eq!(error.source(), Some(3..9));

    let whole_character = splice(Some(text_id(0)), &[(1, 3)], "e");
    let projected = project_paragraph_with_composition(&source, &styles, ParagraphStyle::default(), &whole_character).unwrap();
    assert_eq!(projected.text, "aeb");
}

#[test]
fn appending_a_span_records_offsets_and_runs() {
    let mut projection = empty_projection();
    let source = leaf(4, "leaf text");
    append_projection_span(paragraph(), &mut projection, &source, "leaf", snapshot(0), style(WordBreak::Normal, 2))
        .unwrap();
    append_projection_span(paragraph(), &mut projection, &source, "", snapshot(4), style(WordBreak::KeepAll, 2))
        .unwrap();
    assert_eq!(projection.text, "leaf");
    assert_eq!(projection.spans, vec![span(0, 4, 4, snapshot(0), 9), span(4, 4, 4, snapshot(4), 9)]);
    assert_eq!(projection.analysis_styles, vec![AnalysisStyle::new(WordBreak::Normal)]);
    assert_eq!(projection.paint_runs, vec![run(0, 4, 2)]);
}

#[test]
fn source_ranges_inside_tiling_spans_validate() {
    let spans = [span(0, 3, 0, snapshot(0), 3), span(3, 3, 1, snapshot(0), 0), span(3, 8, 2, snapshot(0), 5)];
    assert!(validate_source_range(paragraph(), &spans, 1..5, 1..5).is_ok());
    assert!(validate_source_range(paragraph(), &spans, 0..8, 0..8).is_ok());
    assert!(validate_source_range(paragraph(), &spans, 3..3, 3..3).is_ok());
    assert!(validate_source_range(paragraph(), &spans, 0..0, 0..0).is_ok());
}

#[test]
fn source_ranges_across_gaps_or_overlaps_are_coverage_errors() {
    let gapped = [span(0, 3, 0, snapshot(0), 3), span(4, 8, 1, snapshot(0), 4)];
    let error = validate_source_range(paragraph(), &gapped, 10..14, 2..6).unwrap_err();
    assert_eq!(error.kind(), SceneErrorKind::SourceCoverage);
    assert_eq!(error.paragraph(), Some(paragraph()));
    assert_eq!(error.source(), Some(10..14));

    let short = [span(0, 3, 0, snapshot(0), 3)];
    assert!(validate_source_range(paragraph(), &short, 0..5, 0..5).is_err());

    let overlapping = [span(0, 4, 0, snapshot(0), 4), span(2, 8, 1, snapshot(0), 6)];
    assert!(validate_source_range(paragraph(), &overlapping, 0..8, 0..8).is_err());

    let error = validate_source_range(paragraph(), &[], 0..0, 0..0).unwrap_err();
    assert_eq!(error.source(), Some(0..0));
}

#[test]
fn composition_projection_rejects_a_missing_semantic_target() {
    let document = DocumentId::from_bytes(*b"scene-test-doc10");
    let paragraph = ParagraphId::new(document, 0);
    let missing = TextId::new(document, 0, 99);
    let source = ParagraphSource::new(
        paragraph,
        1,
        vec![LeafSource::new(TextId::new(document, 0, 0), String::from("office"))],
    );
    let composition = CompositionSplice {
        id: CompositionId(1),
        epoch: CompositionEpoch(0),
        base_revision: DocumentRevision(1),
        target: Some(missing),
        ranges: vec![SnapshotTextRange::new(DocumentRevision(1), missing, 0..0)],
        text: String::new(),
    };
    let styles = [style(WordBreak::Normal, 0)];
    assert_eq!(
        project_paragraph_with_composition(&source, &styles, ParagraphStyle::default(), &composition)
            .expect_err("generated text must not be projected into a missing leaf")
            .kind(),
        SceneErrorKind::InvalidComposition,
        "a matching paragraph index is insufficient without the semantic text leaf"
    );
}

#[test]
fn structure_matches_by_identity_and_leaf_order_not_text() {
    let source = ParagraphSource::new(paragraph(), 1, vec![leaf(0, "old"), leaf(1, "text")]);
    let edited = ParagraphSource::new(paragraph(), 2, vec![leaf(0, "new"), leaf(1, "words")]);
    assert!(paragraph_source_structure_matches(&source, &edited));

    let reordered = ParagraphSource::new(paragraph(), 2, vec![leaf(1, "text"), leaf(0, "old")]);
    assert!(!paragraph_source_structure_matches(&source, &reordered));
    let longer = ParagraphSource::new(paragraph(), 2, vec![leaf(0, "old"), leaf(1, "text"), leaf(2, "")]);
    assert!(!paragraph_source_structure_matches(&source, &longer));
    let elsewhere = ParagraphSource::new(ParagraphId::new(document(), 3), 1, vec![leaf(0, "old"), leaf(1, "text")]);
    assert!(!paragraph_source_structure_matches(&source, &elsewhere));
}
