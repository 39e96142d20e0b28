//! Revision-bound text positions, ranges, interaction units, and selections.

use vstd::prelude::*;

use crate::ids::{DocumentId, DocumentRevision, TextAffinity, TextId};

verus! {

/// Whether a selection extension follows document order or visual caret order.
#[derive(Clone, Copy, Debug, PartialEq, Eq, Hash, Structural)]
pub enum TextSelectionMode {
    /// Select one contiguous document interval.
    Logical,
    /// Select the interaction units crossed in visual caret order.
    Visual,
}

/// One interaction-unit cursor movement.
#[derive(Clone, Copy, Debug, PartialEq, Eq, Hash, Structural)]
pub enum TextMovement {
    /// Move to the preceding caret stop in visual order.
    PreviousVisual,
    /// Move to the following caret stop in visual order.
    NextVisual,
    /// Move across the preceding interaction unit in logical order.
    PreviousLogical,
    /// Move across the following interaction unit in logical order.
    NextLogical,
}

/// Collapsed text position valid only for one immutable snapshot revision.
#[derive(Clone, Copy, Debug, PartialEq, Eq, Hash, Structural)]
pub struct SnapshotTextPosition {
    revision: DocumentRevision,
    text: TextId,
    byte: u32,
    affinity: TextAffinity,
}

impl SnapshotTextPosition {
    pub closed spec fn spec_revision(self) -> DocumentRevision {
        self.revision
    }

    pub closed spec fn spec_text(self) -> TextId {
        self.text
    }

    pub closed spec fn spec_byte(self) -> u32 {
        self.byte
    }

    pub closed spec fn spec_affinity(self) -> TextAffinity {
        self.affinity
    }

    /// The position with the given observations.
    pub closed spec fn new_spec(revision: DocumentRevision, text: TextId, byte: u32, affinity: TextAffinity) -> Self {
        Self { revision, text, byte, affinity }
    }

    /// Creates a position in one snapshot revision.
    pub fn new(revision: DocumentRevision, text: TextId, byte: u32, affinity: TextAffinity) -> (p:
        Self)
        ensures
            p == Self::new_spec(revision, text, byte, affinity),
            p.revision() == revision,
            p.text() == text,
            p.byte() == byte,
            p.affinity() == affinity,
    {
        Self { revision, text, byte, affinity }
    }

    /// Returns the exact snapshot revision.
    #[verifier::when_used_as_spec(spec_revision)]
    pub fn revision(self) -> (r: DocumentRevision)
        ensures
            r == self.spec_revision(),
    {
        self.revision
    }

    /// Returns the semantic text leaf containing the position.
    #[verifier::when_used_as_spec(spec_text)]
    pub fn text(self) -> (t: TextId)
        ensures
            t == self.spec_text(),
    {
        self.text
    }

    /// Returns the UTF-8 byte boundary within the text leaf.
    #[verifier::when_used_as_spec(spec_byte)]
    pub fn byte(self) -> (b: u32)
        ensures
            b == self.spec_byte(),
    {
        self.byte
    }

    /// Returns which logical side owns the position.
    #[verifier::when_used_as_spec(spec_affinity)]
    pub fn affinity(self) -> (a: TextAffinity)
        ensures
            a == self.spec_affinity(),
    {
        self.affinity
    }

    /// Two positions with the same observations are the same position.
    pub proof fn lemma_observation_equality(self, other: Self)
        requires
            self.revision() == other.revision(),
            self.text() == other.text(),
            self.byte() == other.byte(),
            self.affinity() == other.affinity(),
        ensures
            self == other,
    {
    }
}

/// Dense source range valid only for one exact immutable snapshot revision.
#[derive(Clone, Copy, Debug, PartialEq, Eq, Structural)]
pub struct SnapshotTextRange {
    revision: DocumentRevision,
    text: TextId,
    start: u32,
    end: u32,
}

impl SnapshotTextRange {
    pub closed spec fn spec_revision(&self) -> DocumentRevision {
        self.revision
    }

    pub closed spec fn spec_text(&self) -> TextId {
        self.text
    }

    /// First byte of the range.
    pub closed spec fn start(&self) -> u32 {
        self.start
    }

    /// Byte just past the range.
    pub closed spec fn end(&self) -> u32 {
        self.end
    }

    /// The range with the given observations.
    pub closed spec fn new_spec(revision: DocumentRevision, text: TextId, bytes: core::ops::Range<u32>) -> Self {
        Self { revision, text, start: bytes.start, end: bytes.end }
    }

    /// Creates a leaf-local byte range in one snapshot revision.
    pub fn new(revision: DocumentRevision, text: TextId, bytes: core::ops::Range<u32>) -> (r: Self)
        ensures
            r == Self::new_spec(revision, text, bytes),
            r.revision() == revision,
            r.text() == text,
            r.start() == bytes.start,
            r.end() == bytes.end,
    {
        Self { revision, text, start: bytes.start, end: bytes.end }
    }

    /// Returns the exact snapshot revision.
    #[verifier::when_used_as_spec(spec_revision)]
    pub fn revision(&self) -> (r: DocumentRevision)
        ensures
            r == self.spec_revision(),
    {
        self.revision
    }

    /// Returns the text leaf identity.
    #[verifier::when_used_as_spec(spec_text)]
    pub fn text(&self) -> (t: TextId)
        ensures
            t == self.spec_text(),
    {
        self.text
    }

    /// Returns the UTF-8 byte range within the text leaf.
    pub fn bytes(&self) -> (b: core::ops::Range<u32>)
        ensures
            b.start == self.start(),
            b.end == self.end(),
    {
        self.start..self.end
    }

    /// Returns whether the range selects no byte.
    pub fn is_empty(&self) -> (empty: bool)
        ensures
            empty == !(self.start() < self.end()),
    {
        !(self.start < self.end)
    }

    /// A range built from observations shows them back.
    pub broadcast proof fn lemma_new_spec_observations(
        revision: DocumentRevision,
        text: TextId,
        bytes: core::ops::Range<u32>,
    )
        ensures
            ({
                let r = #[trigger] Self::new_spec(revision, text, bytes);
                &&& r.revision() == revision
                &&& r.text() == text
                &&& r.start() == bytes.start
                &&& r.end() == bytes.end
            }),
    {
    }

    /// Two ranges with the same observations are the same range.
    pub proof fn lemma_observation_equality(self, other: Self)
        requires
            self.revision() == other.revision(),
            self.text() == other.text(),
            self.start() == other.start(),
            self.end() == other.end(),
        ensures
            self == other,
    {
    }
}

/// Source-complete interaction unit in one immutable snapshot revision.
///
/// One extended grapheme can cross semantic text-leaf boundaries. Each member
/// retains its exact [`TextId`] and leaf-local UTF-8 bytes while the ordered
/// collection remains one atomic movement, selection, and replacement unit.
#[derive(Clone, Debug, PartialEq, Eq)]
pub struct SnapshotTextUnit {
    sources: Vec<SnapshotTextRange>,
}

impl View for SnapshotTextUnit {
    type V = Seq<SnapshotTextRange>;

    closed spec fn view(&self) -> Seq<SnapshotTextRange> {
        self.sources@
    }
}

impl SnapshotTextUnit {
    /// Creates a unit from its ordered leaf-local ranges.
    pub fn new(sources: Vec<SnapshotTextRange>) -> (u: Self)
        ensures
            u@ == sources@,
    {
        Self { sources }
    }

    /// Returns the ordered leaf-local ranges comprising this interaction unit.
    pub fn sources(&self) -> (s: &[SnapshotTextRange])
        ensures
            s@ == self@,
    {
        self.sources.as_slice()
    }
}

/// One revision-bound insertion point and its selected logical source ranges.
///
/// A visual selection can contain several noncontiguous logical ranges across
/// bidi boundaries. Those ranges still form one insertion point. Independent
/// carets are represented by separate members of [`SnapshotTextSelectionSet`].
#[derive(Clone, Debug, PartialEq, Eq)]
pub struct SnapshotTextSelection {
    anchor: SnapshotTextPosition,
    extent: SnapshotTextPosition,
    mode: TextSelectionMode,
    ranges: Vec<SnapshotTextRange>,
}

impl SnapshotTextSelection {
    pub closed spec fn spec_anchor(&self) -> SnapshotTextPosition {
        self.anchor
    }

    pub closed spec fn spec_extent(&self) -> SnapshotTextPosition {
        self.extent
    }

    pub closed spec fn spec_mode(&self) -> TextSelectionMode {
        self.mode
    }

    /// The logically ordered ranges of this insertion point.
    pub closed spec fn range_seq(&self) -> Seq<SnapshotTextRange> {
        self.ranges@
    }

    /// Whether every selected range is empty.
    pub open spec fn collapsed_spec(&self) -> bool {
        forall|i: int| 0 <= i < self.range_seq().len() ==> !(#[trigger] self.range_seq()[i].start()
            < self.range_seq()[i].end())
    }

    /// Creates a selection from its edges, interpretation, and ranges.
    pub fn new(
        anchor: SnapshotTextPosition,
        extent: SnapshotTextPosition,
        mode: TextSelectionMode,
        ranges: Vec<SnapshotTextRange>,
    ) -> (s: Self)
        ensures
            s.anchor() == anchor,
            s.extent() == extent,
            s.mode() == mode,
            s.range_seq() == ranges@,
    {
        Self { anchor, extent, mode, ranges }
    }

    /// Returns the fixed edge retained while extending the selection.
    #[verifier::when_used_as_spec(spec_anchor)]
    pub fn anchor(&self) -> (a: SnapshotTextPosition)
        ensures
            a == self.spec_anchor(),
    {
        self.anchor
    }

    /// Returns the moving edge of the selection.
    #[verifier::when_used_as_spec(spec_extent)]
    pub fn extent(&self) -> (e: SnapshotTextPosition)
        ensures
            e == self.spec_extent(),
    {
        self.extent
    }

    /// Returns how the anchor-to-extent interval was interpreted.
    #[verifier::when_used_as_spec(spec_mode)]
    pub fn mode(&self) -> (m: TextSelectionMode)
        ensures
            m == self.spec_mode(),
    {
        self.mode
    }

    /// Returns logically ordered leaf-local ranges for this insertion point.
    pub fn ranges(&self) -> (r: &[SnapshotTextRange])
        ensures
            r@ == self.range_seq(),
    {
        self.ranges.as_slice()
    }

    /// Returns whether this selection is a collapsed caret.
    pub fn is_collapsed(&self) -> (collapsed: bool)
        ensures
            collapsed == self.collapsed_spec(),
    {
        let mut index: usize = 0;
        while index < self.ranges.len()
            invariant
                0 <= index <= self.ranges@.len(),
                forall|i: int| 0 <= i < index ==> !(#[trigger] self.ranges@[i].start()
                    < self.ranges@[i].end()),
            decreases self.ranges@.len() - index,
        {
            if !self.ranges[index].is_empty() {
                assert(self.range_seq()[index as int].start() < self.range_seq()[index as int].end());
                return false;
            }
            index += 1;
        }
        true
    }
}

/// A revision-bound ordered set of independent text selections.
///
/// The first member is the primary selection. An empty set has no primary
/// selection but still names the scene revision it belongs to.
#[derive(Clone, Debug, PartialEq, Eq)]
pub struct SnapshotTextSelectionSet {
    document: DocumentId,
    revision: DocumentRevision,
    selections: Vec<SnapshotTextSelection>,
}

impl SnapshotTextSelectionSet {
    pub closed spec fn spec_document(&self) -> DocumentId {
        self.document
    }

    pub closed spec fn spec_revision(&self) -> DocumentRevision {
        self.revision
    }

    /// The selections in stable application order.
    pub closed spec fn selection_seq(&self) -> Seq<SnapshotTextSelection> {
        self.selections@
    }

    /// Creates an ordered selection set for one document revision.
    pub fn new(
        document: DocumentId,
        revision: DocumentRevision,
        selections: Vec<SnapshotTextSelection>,
    ) -> (s: Self)
        ensures
            s.document() == document,
            s.revision() == revision,
            s.selection_seq() == selections@,
    {
        Self { document, revision, selections }
    }

    /// Returns the owning document identity.
    #[verifier::when_used_as_spec(spec_document)]
    pub fn document(&self) -> (d: DocumentId)
        ensures
            d == self.spec_document(),
    {
        self.document
    }

    /// Returns the exact snapshot revision.
    #[verifier::when_used_as_spec(spec_revision)]
    pub fn revision(&self) -> (r: DocumentRevision)
        ensures
            r == self.spec_revision(),
    {
        self.revision
    }

    /// Returns independent selections in stable application order.
    pub fn selections(&self) -> (s: &[SnapshotTextSelection])
        ensures
            s@ == self.selection_seq(),
    {
        self.selections.as_slice()
    }

    /// Returns the primary selection when the set is nonempty.
    pub fn primary(&self) -> (p: Option<&SnapshotTextSelection>)
        ensures
            self.selection_seq().len() == 0 ==> p.is_none(),
            self.selection_seq().len() > 0 ==> p == Some(&self.selection_seq()[0]),
    {
        if self.selections.len() == 0 {
            None
        } else {
            Some(&self.selections[0])
        }
    }

    /// Returns whether the set contains no selections.
    pub fn is_empty(&self) -> (empty: bool)
        ensures
            empty == (self.selection_seq().len() == 0),
    {
        self.selections.len() == 0
    }
}

} // verus!
