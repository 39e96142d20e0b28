//! Scene and style error values.

use vstd::prelude::*;

use crate::ids::{DocumentId, ParagraphId};
use crate::style::PaintSlot;

verus! {

/// Why scene preparation or a scene query failed.
#[derive(Clone, Copy, Debug, PartialEq, Eq, Hash, Structural)]
pub enum SceneErrorKind {
    /// Retained source provenance does not cover the requested text.
    SourceCoverage,
    /// A computed style is invalid or incomplete for the document.
    InvalidStyle,
    /// A capability override names a paragraph outside the document.
    InvalidFeatures,
    /// Region flow state is inconsistent.
    Flow,
    /// A constrained width is not finite and strictly positive.
    InvalidWidth,
    /// A composition does not name a valid target or replacement in the paragraph.
    InvalidComposition,
}

/// A scene error and the location it concerns.
#[derive(Clone, Debug, PartialEq, Eq)]
pub struct SceneError {
    kind: SceneErrorKind,
    document: Option<DocumentId>,
    paragraph: Option<ParagraphId>,
    source: Option<core::ops::Range<u32>>,
}

impl SceneError {
    pub closed spec fn spec_kind(&self) -> SceneErrorKind {
        self.kind
    }

    pub closed spec fn spec_document(&self) -> Option<DocumentId> {
        self.document
    }

    pub closed spec fn spec_paragraph(&self) -> Option<ParagraphId> {
        self.paragraph
    }

    pub closed spec fn spec_source(&self) -> Option<core::ops::Range<u32>> {
        self.source
    }

    /// The error of `kind` that concerns `paragraph`.
    pub closed spec fn spec_for_paragraph(kind: SceneErrorKind, paragraph: ParagraphId) -> Self {
        Self { kind, document: Some(paragraph.document), paragraph: Some(paragraph), source: None }
    }

    /// The error of `kind` that concerns `source` in `paragraph`.
    pub closed spec fn spec_for_source(
        kind: SceneErrorKind,
        paragraph: ParagraphId,
        source: core::ops::Range<u32>,
    ) -> Self {
        Self {
            kind,
            document: Some(paragraph.document),
            paragraph: Some(paragraph),
            source: Some(source),
        }
    }

    /// What the located errors report.
    pub broadcast proof fn lemma_located_observations(
        kind: SceneErrorKind,
        paragraph: ParagraphId,
        source: core::ops::Range<u32>,
    )
        ensures
            #[trigger] Self::spec_for_paragraph(kind, paragraph).kind() == kind,
            Self::spec_for_paragraph(kind, paragraph).paragraph() == Some(paragraph),
            Self::spec_for_paragraph(kind, paragraph).document() == Some(paragraph.document),
            Self::spec_for_paragraph(kind, paragraph).source() is None,
            #[trigger] Self::spec_for_source(kind, paragraph, source).kind() == kind,
            Self::spec_for_source(kind, paragraph, source).paragraph() == Some(paragraph),
            Self::spec_for_source(kind, paragraph, source).document() == Some(paragraph.document),
            Self::spec_for_source(kind, paragraph, source).source() == Some(source),
    {
    }

    /// Scene errors are equal exactly when their kind and location agree.
    pub proof fn lemma_accessors_identify(a: SceneError, b: SceneError)
        ensures
            a == b <==> (a.spec_kind() == b.spec_kind() && a.spec_document() == b.spec_document()
                && a.spec_paragraph() == b.spec_paragraph() && a.spec_source() == b.spec_source()),
    {
    }

    /// Creates an error that concerns no particular location.
    pub fn new(kind: SceneErrorKind) -> (e: Self)
        ensures
            e.kind() == kind,
            e.document() is None,
            e.paragraph() is None,
            e.source() is None,
    {
        Self { kind, document: None, paragraph: None, source: None }
    }

    /// Creates an error that concerns one document.
    pub fn for_document(kind: SceneErrorKind, document: DocumentId) -> (e: Self)
        ensures
            e.kind() == kind,
            e.document() == Some(document),
            e.paragraph() is None,
            e.source() is None,
    {
        Self { kind, document: Some(document), paragraph: None, source: None }
    }

    /// Creates an error that concerns one paragraph.
    pub fn for_paragraph(kind: SceneErrorKind, paragraph: ParagraphId) -> (e: Self)
        ensures
            e == Self::spec_for_paragraph(kind, paragraph),
            e.kind() == kind,
            e.document() == Some(paragraph.document),
            e.paragraph() == Some(paragraph),
            e.source() is None,
    {
        Self { kind, document: Some(paragraph.document), paragraph: Some(paragraph), source: None }
    }

    /// Creates an error that concerns one projected range of a paragraph.
    pub fn for_source(kind: SceneErrorKind, paragraph: ParagraphId, source: core::ops::Range<u32>) -> (e: Self)
        ensures
            e == Self::spec_for_source(kind, paragraph, source),
            e.kind() == kind,
            e.document() == Some(paragraph.document),
            e.paragraph() == Some(paragraph),
            e.source() == Some(source),
    {
        Self { kind, document: Some(paragraph.document), paragraph: Some(paragraph), source: Some(source) }
    }

    /// Returns why the operation failed.
    #[verifier::when_used_as_spec(spec_kind)]
    pub fn kind(&self) -> (kind: SceneErrorKind)
        ensures
            kind == self.spec_kind(),
    {
        self.kind
    }

    /// Returns the concerned document, if any.
    #[verifier::when_used_as_spec(spec_document)]
    pub fn document(&self) -> (document: Option<DocumentId>)
        ensures
            document == self.spec_document(),
    {
        self.document
    }

    /// Returns the concerned paragraph, if any.
    #[verifier::when_used_as_spec(spec_paragraph)]
    pub fn paragraph(&self) -> (paragraph: Option<ParagraphId>)
        ensures
            paragraph == self.spec_paragraph(),
    {
        self.paragraph
    }

    /// Returns the concerned projected range, if any.
    #[verifier::when_used_as_spec(spec_source)]
    pub fn source(&self) -> (source: Option<core::ops::Range<u32>>)
        ensures
            source == self.spec_source(),
    {
        match &self.source {
            Some(range) => Some(range.start..range.end),
            None => None,
        }
    }
}

/// Why a style value was rejected.
#[derive(Clone, Copy, Debug, PartialEq, Eq, Hash, Structural)]
pub enum StyleErrorKind {
    /// A number is not finite or lies outside its valid range.
    InvalidNumber,
    /// A font family request is empty, blank, or repeats a name.
    InvalidFontFamily,
    /// A paint slot is absent from its paint table.
    AbsentPaintSlot,
}

/// A rejected style value.
#[derive(Clone, Copy, Debug, PartialEq, Eq, Hash, Structural)]
pub struct StyleError {
    kind: StyleErrorKind,
    paint: Option<PaintSlot>,
}

impl StyleError {
    pub closed spec fn spec_kind(&self) -> StyleErrorKind {
        self.kind
    }

    pub closed spec fn spec_paint(&self) -> Option<PaintSlot> {
        self.paint
    }

    /// Creates a style error.
    pub fn new(kind: StyleErrorKind) -> (e: Self)
        ensures
            e.kind() == kind,
            e.paint() is None,
    {
        Self { kind, paint: None }
    }

    /// Creates an error concerning one paint slot.
    pub fn for_paint(kind: StyleErrorKind, slot: PaintSlot) -> (e: Self)
        ensures
            e.kind() == kind,
            e.paint() == Some(slot),
    {
        Self { kind, paint: Some(slot) }
    }

    /// Returns why the value was rejected.
    #[verifier::when_used_as_spec(spec_kind)]
    pub fn kind(&self) -> (kind: StyleErrorKind)
        ensures
            kind == self.spec_kind(),
    {
        self.kind
    }

    /// Returns the concerned paint slot, if any.
    #[verifier::when_used_as_spec(spec_paint)]
    pub fn paint(&self) -> (paint: Option<PaintSlot>)
        ensures
            paint == self.spec_paint(),
    {
        self.paint
    }
}

/// Why a selection request was rejected.
#[derive(Clone, Copy, Debug, PartialEq, Eq, Hash, Structural)]
pub enum SelectionErrorKind {
    /// Two independent selections overlap or share a caret.
    OverlappingSelections,
    /// A position or selection belongs to another document or revision.
    WrongSnapshot,
    /// A position names text the scene does not hold.
    UnknownPosition,
    /// Movement cannot connect two positions of one selection.
    DisconnectedMovement,
}

/// A rejected selection request.
#[derive(Clone, Copy, Debug, PartialEq, Eq, Hash, Structural)]
pub struct SelectionError {
    kind: SelectionErrorKind,
}

impl SelectionError {
    pub closed spec fn spec_kind(&self) -> SelectionErrorKind {
        self.kind
    }

    /// Creates a selection error.
    pub fn new(kind: SelectionErrorKind) -> (e: Self)
        ensures
            e.kind() == kind,
    {
        Self { kind }
    }

    /// Returns why the request was rejected.
    #[verifier::when_used_as_spec(spec_kind)]
    pub fn kind(&self) -> (kind: SelectionErrorKind)
        ensures
            kind == self.spec_kind(),
    {
        self.kind
    }
}

} // verus!
