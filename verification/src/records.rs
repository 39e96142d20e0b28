//! Renderer-neutral identities and geometry records of a prepared scene.

use vstd::prelude::*;

use peniko::kurbo::Rect;

use crate::selection::SnapshotTextPosition;

verus! {

#[verifier::external_type_specification]
#[verifier::external_body]
pub struct ExRect(Rect);

/// `Rect::clone`: a rectangle is `Copy`, and its derived clone is the same
/// rectangle.
pub assume_specification[ <Rect as Clone>::clone ](rect: &Rect) -> (copy: Rect)
    ensures
        copy == *rect,
;

/// Opaque identity of a fragment within the current retained engine context.
#[derive(Clone, Copy, Debug, PartialEq, Eq, Hash, Structural)]
pub struct SceneFragmentId(pub(crate) u64);

/// Opaque identity of one shaped glyph instance in a prepared scene.
///
/// A glyph can occur in more than one paint fragment when style boundaries
/// divide its visible area; those observations share one identity.
#[derive(Clone, Copy, Debug, PartialEq, Eq, Hash, Structural)]
pub struct SceneGlyphInstanceId {
    pub(crate) geometry: usize,
    pub(crate) glyph: usize,
}

/// Exact scene-space caret for one position.
#[derive(Clone, Copy, Debug)]
pub struct SceneCaret<Position = SnapshotTextPosition> {
    /// Revision- or epoch-bound position the caret represents.
    pub position: Position,
    /// Scene-space caret bounds.
    pub bounds: Rect,
}

/// One visual highlight rectangle owned by a selection and logical range.
#[derive(Clone, Copy, Debug, PartialEq)]
pub struct SceneSelectionRect {
    /// Selection index within the requested selection set.
    pub selection: usize,
    /// Logical-range index within the owning selection.
    pub range: usize,
    /// Visual line index within the scene.
    pub line: usize,
    /// Scene-space highlight bounds.
    pub bounds: Rect,
    /// Bidi level of the covered visual run.
    pub bidi_level: u8,
}

/// One visual highlight rectangle for selected generated preedit text.
#[derive(Clone, Copy, Debug, PartialEq)]
pub struct SceneCompositionRect {
    /// Visual line index within the transient scene.
    pub line: usize,
    /// Scene-space highlight bounds.
    pub bounds: Rect,
    /// Bidi level of the covered visual run.
    pub bidi_level: u8,
}

} // verus!
