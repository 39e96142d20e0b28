//! Computed style partitions and the paint table.
//!
//! Styles are split by the stage that consumes them: Unicode analysis,
//! paragraph-level formation, and paint. Paint slots index a table of
//! renderer-neutral brushes that can be replaced without repeating text
//! physics.

use vstd::prelude::*;


verus! {

/// Word-breaking policy supplied to Unicode analysis.
#[derive(Clone, Copy, Debug, PartialEq, Eq, Hash, Structural)]
pub enum WordBreak {
    /// Break words at the language's customary opportunities.
    Normal,
    /// Allow breaks between any two typographic letter units.
    BreakAll,
    /// Suppress breaks between letters of CJK text.
    KeepAll,
}

impl Default for WordBreak {
    fn default() -> (w: Self)
        ensures
            w == WordBreak::Normal,
    {
        WordBreak::Normal
    }
}

/// Paragraph base direction.
#[derive(Clone, Copy, Debug, PartialEq, Eq, Hash, Structural)]
pub enum BaseDirection {
    /// Inferred from the paragraph's first strong character.
    Auto,
    /// Left to right.
    Ltr,
    /// Right to left.
    Rtl,
}

/// Paragraph-stream whitespace processing.
#[derive(Clone, Copy, Debug, PartialEq, Eq, Hash, Structural)]
pub enum WhitespaceCollapse {
    /// Runs of collapsible whitespace become one space.
    Collapse,
    /// Whitespace is kept as authored.
    Preserve,
}

/// Dense caller-defined index into a [`PaintTable`].
#[derive(Clone, Copy, Debug, PartialEq, Eq, Hash, Structural)]
pub struct PaintSlot(pub(crate) u32);

impl PaintSlot {
    /// The table index named by this slot.
    pub closed spec fn spec_index(self) -> u32 {
        self.0
    }

    /// Creates a paint slot. Its presence is checked against a paint table
    /// at use time.
    pub fn new(index: u32) -> (slot: Self)
        ensures
            slot.spec_index() == index,
    {
        PaintSlot(index)
    }

    /// Two slots are the same slot exactly when they name the same index.
    pub proof fn lemma_index_identifies(a: PaintSlot, b: PaintSlot)
        ensures
            a == b <==> a.spec_index() == b.spec_index(),
    {
    }

    /// Returns the table index named by this slot.
    #[verifier::when_used_as_spec(spec_index)]
    pub(crate) fn index(self) -> (index: u32)
        ensures
            index == self.spec_index(),
    {
        self.0
    }
}

/// Basis used to resolve a line height.
#[derive(Clone, Copy, Debug, PartialEq, Eq, Hash, Structural)]
pub enum LineHeightBasis {
    /// Scale the selected font's preferred ascent, descent, and leading.
    Metrics,
    /// Scale the computed font size.
    FontSize,
    /// Use an absolute height in scene units.
    Absolute,
}

/// Complete computed values consumed by Unicode analysis.
#[derive(Clone, Copy, Debug, PartialEq, Eq, Hash, Structural)]
pub struct AnalysisStyle {
    word_break: WordBreak,
}

impl AnalysisStyle {
    /// The word-breaking policy of this style.
    pub closed spec fn spec_word_break(self) -> WordBreak {
        self.word_break
    }

    /// Analysis styles are equal exactly when their word breaking agrees.
    pub proof fn lemma_word_break_identifies(a: AnalysisStyle, b: AnalysisStyle)
        ensures
            a == b <==> a.spec_word_break() == b.spec_word_break(),
    {
    }

    /// Creates analysis values from authored word-breaking policy.
    pub fn new(word_break: WordBreak) -> (style: Self)
        ensures
            style.word_break() == word_break,
    {
        AnalysisStyle { word_break }
    }

    /// Returns the word-breaking policy supplied to Unicode analysis.
    #[verifier::when_used_as_spec(spec_word_break)]
    pub fn word_break(self) -> (word_break: WordBreak)
        ensures
            word_break == self.spec_word_break(),
    {
        self.word_break
    }
}

impl Default for AnalysisStyle {
    fn default() -> (style: Self)
        ensures
            style.word_break() == WordBreak::Normal,
    {
        AnalysisStyle { word_break: WordBreak::Normal }
    }
}

/// Complete computed values that apply to one paragraph as a whole.
///
/// Paragraph values are kept apart from inline shaping values because they
/// affect analysis and line formation rather than font shaping.
#[derive(Clone, Copy, Debug, PartialEq, Eq, Hash, Structural)]
pub struct ParagraphStyle {
    base_direction: BaseDirection,
    whitespace_collapse: WhitespaceCollapse,
}

impl ParagraphStyle {
    /// The paragraph base direction.
    pub closed spec fn spec_base_direction(self) -> BaseDirection {
        self.base_direction
    }

    /// The paragraph-stream whitespace processing.
    pub closed spec fn spec_whitespace_collapse(self) -> WhitespaceCollapse {
        self.whitespace_collapse
    }

    /// Automatically inferred paragraph direction and otherwise default
    /// paragraph behavior.
    pub closed spec fn spec_default_style() -> Self {
        ParagraphStyle {
            base_direction: BaseDirection::Auto,
            whitespace_collapse: WhitespaceCollapse::Preserve,
        }
    }

    /// Automatically inferred paragraph direction and otherwise default
    /// paragraph behavior.
    #[verifier::when_used_as_spec(spec_default_style)]
    pub fn default_style() -> (style: Self)
        ensures
            style == Self::spec_default_style(),
    {
        ParagraphStyle {
            base_direction: BaseDirection::Auto,
            whitespace_collapse: WhitespaceCollapse::Preserve,
        }
    }

    /// Paragraph styles are equal exactly when their base direction and
    /// whitespace processing agree.
    pub proof fn lemma_accessors_identify(a: ParagraphStyle, b: ParagraphStyle)
        ensures
            a == b <==> (a.spec_base_direction() == b.spec_base_direction()
                && a.spec_whitespace_collapse() == b.spec_whitespace_collapse()),
    {
    }

    /// The default style infers its direction and preserves whitespace.
    pub proof fn lemma_default_values()
        ensures
            ParagraphStyle::spec_default_style().spec_base_direction() == BaseDirection::Auto,
            ParagraphStyle::spec_default_style().spec_whitespace_collapse() == WhitespaceCollapse::Preserve,
    {
    }

    /// Creates paragraph values with an explicit or inferred base direction.
    pub fn new(base_direction: BaseDirection) -> (style: Self)
        ensures
            style.base_direction() == base_direction,
            style.whitespace_collapse() == WhitespaceCollapse::Preserve,
            base_direction == BaseDirection::Auto ==> style == ParagraphStyle::spec_default_style(),
    {
        ParagraphStyle { base_direction, whitespace_collapse: WhitespaceCollapse::Preserve }
    }

    /// Returns the paragraph base direction used during Unicode analysis.
    #[verifier::when_used_as_spec(spec_base_direction)]
    pub fn base_direction(self) -> (direction: BaseDirection)
        ensures
            direction == self.spec_base_direction(),
    {
        self.base_direction
    }

    /// This style with its whitespace processing replaced.
    pub closed spec fn spec_with_whitespace_collapse(self, policy: WhitespaceCollapse) -> Self {
        ParagraphStyle { whitespace_collapse: policy, ..self }
    }

    /// Replacing whitespace processing keeps the direction, and a later
    /// replacement overrides an earlier one.
    pub proof fn lemma_whitespace_collapse_overrides(
        style: ParagraphStyle,
        first: WhitespaceCollapse,
        second: WhitespaceCollapse,
    )
        ensures
            style.spec_with_whitespace_collapse(first).spec_base_direction()
                == style.spec_base_direction(),
            style.spec_with_whitespace_collapse(first).spec_whitespace_collapse() == first,
            style.spec_with_whitespace_collapse(first).spec_with_whitespace_collapse(second)
                == style.spec_with_whitespace_collapse(second),
            style.spec_with_whitespace_collapse(style.spec_whitespace_collapse()) == style,
    {
    }

    /// Returns a copy with paragraph-stream whitespace processing.
    ///
    /// Collapse state crosses inline style and semantic boundaries.
    #[verifier::when_used_as_spec(spec_with_whitespace_collapse)]
    pub fn with_whitespace_collapse(self, policy: WhitespaceCollapse) -> (style: Self)
        ensures
            style == self.spec_with_whitespace_collapse(policy),
            style.base_direction() == self.base_direction(),
            style.whitespace_collapse() == policy,
    {
        ParagraphStyle { base_direction: self.base_direction, whitespace_collapse: policy }
    }

    /// Returns paragraph-stream whitespace processing.
    #[verifier::when_used_as_spec(spec_whitespace_collapse)]
    pub fn whitespace_collapse(self) -> (policy: WhitespaceCollapse)
        ensures
            policy == self.spec_whitespace_collapse(),
    {
        self.whitespace_collapse
    }
}

impl Default for ParagraphStyle {
    fn default() -> (style: Self)
        ensures
            style == ParagraphStyle::spec_default_style(),
            style.base_direction() == BaseDirection::Auto,
            style.whitespace_collapse() == WhitespaceCollapse::Preserve,
    {
        ParagraphStyle::default_style()
    }
}

} // verus!
