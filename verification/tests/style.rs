use peniko::color::palette::css;
use peniko::Brush;
use underwood::{
    AnalysisStyle, BaseDirection, PaintSlot, PaintTable, ParagraphStyle, StyleErrorKind,
    WhitespaceCollapse, WordBreak,
};

#[test]
fn analysis_style_keeps_word_break_and_defaults_to_normal() {
    let style = AnalysisStyle::new(WordBreak::KeepAll);
    assert_eq!(style.word_break(), WordBreak::KeepAll);
    assert_eq!(AnalysisStyle::default().word_break(), WordBreak::Normal);
    assert_eq!(WordBreak::default(), WordBreak::Normal);
}

#[test]
fn paragraph_style_defaults_to_auto_direction_and_preserved_whitespace() {
    let style = ParagraphStyle::default();
    assert_eq!(style, ParagraphStyle::default_style());
    assert_eq!(style.base_direction(), BaseDirection::Auto);
    assert_eq!(style.whitespace_collapse(), WhitespaceCollapse::Preserve);
}

#[test]
fn paragraph_style_direction_and_whitespace_are_independent() {
    let style = ParagraphStyle::new(BaseDirection::Rtl);
    assert_eq!(style.base_direction(), BaseDirection::Rtl);
    assert_eq!(style.whitespace_collapse(), WhitespaceCollapse::Preserve);
    let collapsed = style.with_whitespace_collapse(WhitespaceCollapse::Collapse);
    assert_eq!(collapsed.base_direction(), BaseDirection::Rtl);
    assert_eq!(collapsed.whitespace_collapse(), WhitespaceCollapse::Collapse);
    assert_ne!(collapsed, style);
}

fn red() -> Brush {
    Brush::Solid(css::RED)
}

fn blue() -> Brush {
    Brush::Solid(css::BLUE)
}

#[test]
fn paint_table_reads_brushes_by_slot() {
    let table = PaintTable::from_brushes(vec![red(), blue()]);
    assert_eq!(table.len(), 2);
    assert!(!table.is_empty());
    assert_eq!(table.brush(PaintSlot::new(0)), Some(&red()));
    assert_eq!(table.brush(PaintSlot::new(1)), Some(&blue()));
    assert_eq!(table.brush(PaintSlot::new(2)), None);
    assert!(PaintTable::from_brushes(Vec::new()).is_empty());
}

#[test]
fn paint_table_replaces_one_slot_and_keeps_the_rest() {
    let table = PaintTable::from_brushes(vec![red(), red(), red()]);
    let replaced = table
        .with_brush(PaintSlot::new(1), blue())
        .expect("slot one is present");
    assert_eq!(replaced.len(), 3);
    assert_eq!(replaced.brush(PaintSlot::new(0)), Some(&red()));
    assert_eq!(replaced.brush(PaintSlot::new(1)), Some(&blue()));
    assert_eq!(replaced.brush(PaintSlot::new(2)), Some(&red()));
    assert_eq!(table.brush(PaintSlot::new(1)), Some(&red()));
}

#[test]
fn paint_table_rejects_an_absent_slot() {
    let table = PaintTable::from_brushes(vec![red()]);
    let error = table
        .with_brush(PaintSlot::new(1), blue())
        .expect_err("slot one is absent");
    assert_eq!(error.kind(), StyleErrorKind::AbsentPaintSlot);
    assert_eq!(error.paint(), Some(PaintSlot::new(1)));
}

#[test]
fn paint_slots_are_equal_exactly_when_their_indexes_are() {
    assert_eq!(PaintSlot::new(4), PaintSlot::new(4));
    assert_ne!(PaintSlot::new(4), PaintSlot::new(5));
}

#[test]
fn a_later_whitespace_setting_overrides_an_earlier_one() {
    let style = ParagraphStyle::new(BaseDirection::Ltr);
    let twice = style
        .with_whitespace_collapse(WhitespaceCollapse::Collapse)
        .with_whitespace_collapse(WhitespaceCollapse::Preserve);
    assert_eq!(twice, style.with_whitespace_collapse(WhitespaceCollapse::Preserve));
    assert_eq!(twice, style);
    assert_eq!(ParagraphStyle::new(BaseDirection::Auto), ParagraphStyle::default());
}
