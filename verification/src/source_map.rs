//! Paragraph-local source provenance without per-observation range vectors.
//!
//! This module owns the authoritative projection-to-leaf relation retained by
//! one paragraph scene. Geometry records keep compact projected spans and
//! positions; borrowed ranges materialize leaf-local observations only at the
//! public boundary.

use vstd::prelude::*;

use crate::accounting::{saturate, saturating_mul, table_charge, vec_capacity};
use crate::error::{SceneError, SceneErrorKind};
use crate::ids::{CompositionEpoch, CompositionId, ParagraphId, TextAffinity, TextId};
use crate::seq_search::{first_from, last_before, lemma_first_from, lemma_first_from_at, lemma_last_before};
use crate::text_projection::{
    all_identity, lemma_identity_lengths, lemma_segment_bounds, segments_linked, segments_wf,
    ProjectionKind, ProjectionSegment, TextProjection,
};

verus! {

/// One compact range in projected (or authored) paragraph UTF-8 coordinates.
#[derive(Clone, Copy, Debug, PartialEq, Eq, Hash, Structural)]
pub struct SourceSpan {
    /// First byte.
    pub start: u32,
    /// Byte just past the range.
    pub end: u32,
}

impl SourceSpan {
    /// Creates a span.
    pub fn new(start: u32, end: u32) -> (span: Self)
        ensures
            span.start == start,
            span.end == end,
    {
        Self { start, end }
    }

    /// Returns whether the span is collapsed.
    pub fn is_empty(self) -> (empty: bool)
        ensures
            empty == (self.start == self.end),
    {
        self.start == self.end
    }
}

impl From<core::ops::Range<u32>> for SourceSpan {
    fn from(range: core::ops::Range<u32>) -> (span: Self) {
        Self::new(range.start, range.end)
    }
}

impl vstd::std_specs::convert::FromSpecImpl<core::ops::Range<u32>> for SourceSpan {
    open spec fn obeys_from_spec() -> bool {
        true
    }

    open spec fn from_spec(range: core::ops::Range<u32>) -> Self {
        SourceSpan { start: range.start, end: range.end }
    }
}

/// One compact position in projected paragraph UTF-8 coordinates.
#[derive(Clone, Copy, Debug, PartialEq, Eq, Hash, Structural)]
pub struct SourcePosition {
    /// Projected offset.
    pub offset: u32,
    /// Owning logical side.
    pub affinity: TextAffinity,
}

impl SourcePosition {
    /// Creates a position.
    pub fn new(offset: u32, affinity: TextAffinity) -> (position: Self)
        ensures
            position.offset == offset,
            position.affinity == affinity,
    {
        Self { offset, affinity }
    }
}

/// Source represented by a retained record.
#[derive(Clone, Copy, Debug, PartialEq, Eq, Hash, Structural)]
pub enum SourceReference {
    /// One projected paragraph interval mapped through the relation runs.
    Projected(SourceSpan),
    /// One complete semantic leaf stored in the source map.
    Leaf(u32),
}

/// A leaf-local source range.
#[derive(Debug, PartialEq, Eq)]
pub enum LocalRange {
    /// Bytes of a committed snapshot leaf.
    Snapshot {
        /// Leaf identity.
        text: TextId,
        /// Leaf-local UTF-8 bytes.
        bytes: core::ops::Range<u32>,
    },
    /// Bytes of transient composition text.
    Composition {
        /// Composition session.
        id: CompositionId,
        /// Composition update epoch.
        epoch: CompositionEpoch,
        /// Composition-local UTF-8 bytes.
        bytes: core::ops::Range<u32>,
    },
}

impl Clone for LocalRange {
    fn clone(&self) -> (copy: Self)
        ensures
            copy == *self,
    {
        match self {
            LocalRange::Snapshot { text, bytes } => LocalRange::Snapshot {
                text: *text,
                bytes: bytes.start..bytes.end,
            },
            LocalRange::Composition { id, epoch, bytes } => LocalRange::Composition {
                id: *id,
                epoch: *epoch,
                bytes: bytes.start..bytes.end,
            },
        }
    }
}

/// A leaf-local source position.
#[derive(Clone, Copy, Debug, PartialEq, Eq, Structural)]
pub enum LocalPosition {
    /// A position in a committed snapshot leaf.
    Snapshot {
        /// Leaf identity.
        text: TextId,
        /// Leaf-local UTF-8 boundary.
        byte: u32,
        /// Owning logical side.
        affinity: TextAffinity,
    },
    /// A position in transient composition text.
    Composition {
        /// Composition session.
        id: CompositionId,
        /// Composition update epoch.
        epoch: CompositionEpoch,
        /// Composition-local UTF-8 boundary.
        byte: u32,
        /// Owning logical side.
        affinity: TextAffinity,
    },
}

/// Where one leaf's paragraph span comes from.
#[derive(Clone, Copy, Debug, PartialEq, Eq, Structural)]
pub enum LeafSpanSource {
    /// A committed leaf, starting at a leaf-local byte.
    Snapshot {
        /// Leaf-local first byte.
        start: u32,
    },
    /// Composition text, starting at a composition-local byte.
    Composition {
        /// Composition session.
        id: CompositionId,
        /// Composition update epoch.
        epoch: CompositionEpoch,
        /// Composition-local first byte.
        start: u32,
    },
}

/// One semantic leaf's contribution to a paragraph's authored source.
#[derive(Clone, Copy, Debug, PartialEq, Eq, Structural)]
pub struct LeafSpan {
    /// First authored paragraph byte.
    pub paragraph_start: u32,
    /// Authored paragraph byte just past the leaf.
    pub paragraph_end: u32,
    /// Leaf identity.
    pub text: TextId,
    /// Leaf-local origin of the span.
    pub source: LeafSpanSource,
    /// Full length of the leaf text.
    pub leaf_len: u32,
}

/// One relation run between authored and projected paragraph text.
#[derive(Clone, Copy, Debug, PartialEq, Eq, Structural)]
pub struct SourceRelation {
    /// How the run relates its two spans.
    pub kind: ProjectionKind,
    /// Authored span.
    pub source: SourceSpan,
    /// Projected span.
    pub projected: SourceSpan,
}

/// One leaf retained by a source map.
#[derive(Clone, Copy, Debug, PartialEq, Eq, Structural)]
pub struct SourceLeaf {
    /// Authored paragraph span of the leaf.
    pub paragraph: SourceSpan,
    /// Leaf identity.
    pub text: TextId,
    /// Leaf-local origin.
    pub source: LeafSpanSource,
}

// ---------------------------------------------------------------------------
// Model.
// ---------------------------------------------------------------------------

/// The leaf-local byte where a leaf's paragraph span begins.
pub open spec fn leaf_local_start(leaf: SourceLeaf) -> u32 {
    match leaf.source {
        LeafSpanSource::Snapshot { start } => start,
        LeafSpanSource::Composition { start, .. } => start,
    }
}

/// Leaf-local range of a paragraph span inside `leaf`.
pub open spec fn local_range_spec(leaf: SourceLeaf, span: SourceSpan) -> LocalRange {
    let rel_start = if span.start >= leaf.paragraph.start {
        span.start - leaf.paragraph.start
    } else {
        0
    };
    let rel_end = if span.end >= leaf.paragraph.start {
        span.end - leaf.paragraph.start
    } else {
        0
    };
    let start = leaf_local_start(leaf);
    let bytes = ((start + rel_start) as u32)..((start + rel_end) as u32);
    match leaf.source {
        LeafSpanSource::Snapshot { .. } => LocalRange::Snapshot { text: leaf.text, bytes },
        LeafSpanSource::Composition { id, epoch, .. } => LocalRange::Composition { id, epoch, bytes },
    }
}

/// Leaf-local position of a paragraph offset inside `leaf`.
pub open spec fn local_position_spec(leaf: SourceLeaf, source: u32, affinity: TextAffinity) -> LocalPosition {
    let relative = if source >= leaf.paragraph.start {
        source - leaf.paragraph.start
    } else {
        0
    };
    let byte = (leaf_local_start(leaf) + relative) as u32;
    match leaf.source {
        LeafSpanSource::Snapshot { .. } => LocalPosition::Snapshot { text: leaf.text, byte, affinity },
        LeafSpanSource::Composition { id, epoch, .. } => LocalPosition::Composition {
            id,
            epoch,
            byte,
            affinity,
        },
    }
}

/// Leaves partition `0..source_len` in order and their local ends fit `u32`.
pub open spec fn leaves_wf(leaves: Seq<SourceLeaf>, source_len: u32) -> bool {
    &&& leaves.len() == 0 ==> source_len == 0
    &&& leaves.len() > 0 ==> leaves[0].paragraph.start == 0 && leaves.last().paragraph.end
        == source_len
    &&& forall|i: int|
        0 <= i < leaves.len() ==> (#[trigger] leaves[i]).paragraph.start <= leaves[i].paragraph.end
            && leaf_local_start(leaves[i]) + (leaves[i].paragraph.end - leaves[i].paragraph.start)
            <= u32::MAX
    &&& forall|i: int| 0 <= i < leaves.len() - 1 ==> #[trigger] leaves_linked(leaves, i)
}

/// Leaf `i` ends where leaf `i + 1` starts.
pub open spec fn leaves_linked(leaves: Seq<SourceLeaf>, i: int) -> bool {
    leaves[i].paragraph.end == leaves[i + 1].paragraph.start
}

/// A relation run that mirrors a projection segment.
pub open spec fn relation_of(segment: ProjectionSegment) -> SourceRelation {
    SourceRelation {
        kind: segment.kind,
        source: SourceSpan { start: segment.source_start, end: segment.source_end },
        projected: SourceSpan { start: segment.projected_start, end: segment.projected_end },
    }
}

/// Relation runs partition both texts in order and stay within them.
pub open spec fn relations_wf(relations: Seq<SourceRelation>, source_len: u32, projected_len: u32) -> bool {
    &&& forall|i: int|
        0 <= i < relations.len() ==> {
            let r = #[trigger] relations[i];
            &&& r.source.start <= r.source.end <= source_len
            &&& r.projected.start <= r.projected.end <= projected_len
            &&& r.kind == ProjectionKind::Identity ==> r.source.end - r.source.start
                == r.projected.end - r.projected.start
            &&& r.kind == ProjectionKind::Omitted ==> r.projected.start == r.projected.end
        }
}

/// A relation run strictly contains the projected offset.
pub open spec fn relation_interior(p: u32) -> spec_fn(SourceRelation) -> bool {
    |r: SourceRelation| r.projected.start < p && p < r.projected.end
}

/// A nonempty relation run ends at or before the projected offset.
pub open spec fn relation_ends_by(p: u32) -> spec_fn(SourceRelation) -> bool {
    |r: SourceRelation| r.projected.start != r.projected.end && r.projected.end <= p
}

/// A nonempty relation run starts at or after the projected offset.
pub open spec fn relation_starts_from(p: u32) -> spec_fn(SourceRelation) -> bool {
    |r: SourceRelation| r.projected.start != r.projected.end && r.projected.start >= p
}

/// Authored offset of a projected offset.
pub open spec fn source_position_spec(
    identity: bool,
    relations: Seq<SourceRelation>,
    source_len: u32,
    projected: u32,
    affinity: TextAffinity,
) -> u32 {
    if identity {
        projected
    } else if let Some(i) = first_from(relations, relation_interior(projected), 0) {
        let r = relations[i];
        match r.kind {
            ProjectionKind::Identity => (r.source.start + (projected - r.projected.start)) as u32,
            ProjectionKind::Replacement | ProjectionKind::Collapsed => match affinity {
                TextAffinity::Upstream => r.source.end,
                TextAffinity::Downstream => r.source.start,
            },
            ProjectionKind::Inserted => r.source.start,
            ProjectionKind::Omitted => r.source.start,
        }
    } else {
        match affinity {
            TextAffinity::Upstream => match last_before(
                relations,
                relation_ends_by(projected),
                relations.len() as int,
            ) {
                Some(i) => relations[i].source.end,
                None => 0,
            },
            TextAffinity::Downstream => match first_from(relations, relation_starts_from(projected), 0) {
                Some(i) => relations[i].source.start,
                None => source_len,
            },
        }
    }
}

/// The leaf owns the authored offset with the given affinity.
pub open spec fn leaf_owns(source: u32, affinity: TextAffinity) -> spec_fn(SourceLeaf) -> bool {
    |leaf: SourceLeaf|
        match affinity {
            TextAffinity::Upstream => (leaf.paragraph.start < source && source <= leaf.paragraph.end)
                || (leaf.paragraph.start == leaf.paragraph.end && leaf.paragraph.end == source),
            TextAffinity::Downstream => (leaf.paragraph.start <= source && source
                < leaf.paragraph.end) || (leaf.paragraph.start == leaf.paragraph.end
                && leaf.paragraph.start == source),
        }
}

/// The leaf's span touches the authored offset.
pub open spec fn leaf_touches(source: u32) -> spec_fn(SourceLeaf) -> bool {
    |leaf: SourceLeaf| leaf.paragraph.start <= source && source <= leaf.paragraph.end
}

/// Index of the leaf owning an authored offset: the last owner upstream, the
/// first owner downstream, otherwise the first leaf touching the offset.
pub open spec fn leaf_for_position_spec(leaves: Seq<SourceLeaf>, source: u32, affinity: TextAffinity)
    -> Option<int> {
    let owner = match affinity {
        TextAffinity::Upstream => last_before(leaves, leaf_owns(source, affinity), leaves.len() as int),
        TextAffinity::Downstream => first_from(leaves, leaf_owns(source, affinity), 0),
    };
    if owner is Some {
        owner
    } else {
        first_from(leaves, leaf_touches(source), 0)
    }
}

/// A leaf lies beyond the start of an authored span.
pub open spec fn leaf_reaches(start: u32) -> spec_fn(SourceLeaf) -> bool {
    |leaf: SourceLeaf| !(leaf.paragraph.end <= start)
}

/// A leaf starts at or beyond the end of an authored span.
pub open spec fn leaf_starts_from(end: u32) -> spec_fn(SourceLeaf) -> bool {
    |leaf: SourceLeaf| !(leaf.paragraph.start < end)
}

/// Leaf indices overlapping an authored span.
pub open spec fn leaf_indices_spec(leaves: Seq<SourceLeaf>, source: SourceSpan) -> (int, int) {
    if source.start == source.end {
        let index = match leaf_for_position_spec(leaves, source.start, TextAffinity::Upstream) {
            Some(i) => Some(i),
            None => leaf_for_position_spec(leaves, source.start, TextAffinity::Downstream),
        };
        match index {
            Some(i) => (i, i + 1),
            None => (0, 0),
        }
    } else {
        let front = match first_from(leaves, leaf_reaches(source.start), 0) {
            Some(i) => i,
            None => leaves.len() as int,
        };
        let back = match first_from(leaves, leaf_starts_from(source.end), 0) {
            Some(i) => i,
            None => leaves.len() as int,
        };
        (front, back)
    }
}

/// Leaf `index`'s part of an authored span, as a leaf-local range.
pub open spec fn clipped_range_spec(leaves: Seq<SourceLeaf>, source: SourceSpan, index: int) -> LocalRange {
    let leaf = leaves[index];
    let start = if source.start >= leaf.paragraph.start {
        source.start
    } else {
        leaf.paragraph.start
    };
    let end = if source.end <= leaf.paragraph.end {
        source.end
    } else {
        leaf.paragraph.end
    };
    local_range_spec(leaf, SourceSpan { start, end })
}

/// The ranges of leaves `front..back` clipped to an authored span.
pub open spec fn clipped_ranges_spec(leaves: Seq<SourceLeaf>, source: SourceSpan, front: int, back: int)
    -> Seq<LocalRange> {
    Seq::new((back - front) as nat, |k: int| clipped_range_spec(leaves, source, front + k))
}

// ---------------------------------------------------------------------------
// The source map.
// ---------------------------------------------------------------------------

/// Authoritative projection-to-leaf relation of one paragraph.
#[derive(Debug)]
pub struct ParagraphSourceMap {
    source_len: u32,
    projected_len: u32,
    identity: bool,
    relations: Vec<SourceRelation>,
    leaves: Vec<SourceLeaf>,
}

impl ParagraphSourceMap {
    /// Authored paragraph length.
    pub closed spec fn source_len_spec(&self) -> u32 {
        self.source_len
    }

    /// Projected paragraph length.
    pub closed spec fn projected_len_spec(&self) -> u32 {
        self.projected_len
    }

    /// Whether projected offsets equal authored offsets.
    pub closed spec fn identity_spec(&self) -> bool {
        self.identity
    }

    /// Relation runs in order.
    pub closed spec fn relation_seq(&self) -> Seq<SourceRelation> {
        self.relations@
    }

    /// Retained leaves in order.
    pub closed spec fn leaf_seq(&self) -> Seq<SourceLeaf> {
        self.leaves@
    }

    #[verifier::type_invariant]
    pub open spec fn wf(&self) -> bool {
        &&& leaves_wf(self.leaf_seq(), self.source_len_spec())
        &&& relations_wf(self.relation_seq(), self.source_len_spec(), self.projected_len_spec())
        &&& self.identity_spec() ==> self.source_len_spec() == self.projected_len_spec()
        &&& self.leaf_seq().len() <= usize::MAX
    }

    /// Authored offset of a projected offset.
    pub open spec fn source_position_of(&self, projected: u32, affinity: TextAffinity) -> u32 {
        source_position_spec(
            self.identity_spec(),
            self.relation_seq(),
            self.source_len_spec(),
            projected,
            affinity,
        )
    }

    /// Authored span of a projected span.
    pub open spec fn source_range_of(&self, projected: SourceSpan) -> SourceSpan {
        if projected.start == projected.end {
            let source = self.source_position_of(projected.start, TextAffinity::Upstream);
            SourceSpan { start: source, end: source }
        } else {
            let start = self.source_position_of(projected.start, TextAffinity::Downstream);
            let end = self.source_position_of(projected.end, TextAffinity::Upstream);
            SourceSpan {
                start: if start <= end {
                    start
                } else {
                    end
                },
                end: if start <= end {
                    end
                } else {
                    start
                },
            }
        }
    }

    /// Leaf-local ranges of a projected span.
    pub open spec fn ranges_for_span_spec(&self, span: SourceSpan) -> Seq<LocalRange> {
        let source = self.source_range_of(span);
        let (front, back) = leaf_indices_spec(self.leaf_seq(), source);
        clipped_ranges_spec(self.leaf_seq(), source, front, back)
    }

    /// Leaf-local ranges of one whole leaf.
    pub open spec fn ranges_for_leaf_spec(&self, index: u32) -> Seq<LocalRange> {
        if index < self.leaf_seq().len() {
            clipped_ranges_spec(self.leaf_seq(), self.leaf_seq()[index as int].paragraph, index as int, index + 1)
        } else {
            Seq::empty()
        }
    }

    /// Leaf-local ranges a reference denotes.
    pub open spec fn ranges_spec(&self, reference: SourceReference) -> Seq<LocalRange> {
        match reference {
            SourceReference::Projected(span) => self.ranges_for_span_spec(span),
            SourceReference::Leaf(index) => self.ranges_for_leaf_spec(index),
        }
    }

    /// Leaf-local position of a projected position.
    pub open spec fn materialize_position_spec(&self, position: SourcePosition) -> LocalPosition {
        let source = self.source_position_of(position.offset, position.affinity);
        let index = leaf_for_position_spec(self.leaf_seq(), source, position.affinity)->0;
        local_position_spec(self.leaf_seq()[index], source, position.affinity)
    }

    /// A map with one committed leaf whose text is projected unchanged.
    pub fn snapshot_leaf(text: TextId, len: u32) -> (map: Self)
        ensures
            map.source_len_spec() == len,
            map.projected_len_spec() == len,
            map.identity_spec(),
            map.relation_seq().len() == 0,
            map.leaf_seq() == seq![
                SourceLeaf {
                    paragraph: SourceSpan { start: 0, end: len },
                    text,
                    source: LeafSpanSource::Snapshot { start: 0 },
                },
            ],
    {
        let mut leaves = Vec::new();
        leaves.push(
            SourceLeaf {
                paragraph: SourceSpan::new(0, len),
                text,
                source: LeafSpanSource::Snapshot { start: 0 },
            },
        );
        let map = Self { source_len: len, projected_len: len, identity: true, relations: Vec::new(), leaves };
        assert(map.leaf_seq() =~= seq![
                SourceLeaf {
                    paragraph: SourceSpan { start: 0, end: len },
                    text,
                    source: LeafSpanSource::Snapshot { start: 0 },
                },
            ]);
        map
    }
}


// ---------------------------------------------------------------------------
// Lemmas.
// ---------------------------------------------------------------------------

/// Leaves are ordered: an earlier leaf ends no later than a later one starts.
proof fn lemma_leaves_sorted(leaves: Seq<SourceLeaf>, source_len: u32, i: int, j: int)
    requires
        leaves_wf(leaves, source_len),
        0 <= i < j < leaves.len(),
    ensures
        leaves[i].paragraph.end <= leaves[j].paragraph.start,
    decreases j - i,
{
    assert(leaves_linked(leaves, i));
    if i + 1 < j {
        assert(leaves[i + 1].paragraph.start <= leaves[i + 1].paragraph.end);
        lemma_leaves_sorted(leaves, source_len, i + 1, j);
    }
}

/// Every leaf lies inside the authored paragraph.
proof fn lemma_leaf_bounds(leaves: Seq<SourceLeaf>, source_len: u32, i: int)
    requires
        leaves_wf(leaves, source_len),
        0 <= i < leaves.len(),
    ensures
        leaves[i].paragraph.end <= source_len,
    decreases leaves.len() - i,
{
    if i < leaves.len() - 1 {
        assert(leaves_linked(leaves, i));
        assert(leaves[i + 1].paragraph.start <= leaves[i + 1].paragraph.end);
        lemma_leaf_bounds(leaves, source_len, i + 1);
    }
}

/// Some leaf touches every offset of the authored paragraph.
proof fn lemma_touching_leaf(leaves: Seq<SourceLeaf>, source_len: u32, source: u32, i: int)
    requires
        leaves_wf(leaves, source_len),
        leaves.len() > 0,
        0 <= i < leaves.len(),
        leaves[i].paragraph.start <= source <= source_len,
    ensures
        first_from(leaves, leaf_touches(source), 0) is Some,
    decreases leaves.len() - i,
{
    if source <= leaves[i].paragraph.end {
        lemma_first_from(leaves, leaf_touches(source), 0);
        assert(leaf_touches(source)(leaves[i]));
    } else {
        if i == leaves.len() - 1 {
            assert(false);
        } else {
            assert(leaves_linked(leaves, i));
            lemma_touching_leaf(leaves, source_len, source, i + 1);
        }
    }
}

/// The authored offset of any projected offset lies inside the authored text.
proof fn lemma_source_position_bounded(map: &ParagraphSourceMap, projected: u32, affinity: TextAffinity)
    requires
        map.wf(),
        map.identity_spec() ==> projected <= map.projected_len_spec(),
    ensures
        map.source_position_of(projected, affinity) <= map.source_len_spec(),
{
    let rels = map.relation_seq();
    lemma_first_from(rels, relation_interior(projected), 0);
    lemma_last_before(rels, relation_ends_by(projected), rels.len() as int);
    lemma_first_from(rels, relation_starts_from(projected), 0);
}

// ---------------------------------------------------------------------------
// Executable provenance.
// ---------------------------------------------------------------------------

impl SourceLeaf {
    /// Returns the leaf-local range of a paragraph span inside this leaf.
    pub fn local_range(&self, source: SourceSpan) -> (range: LocalRange)
        requires
            source.start <= self.paragraph.end,
            source.end <= self.paragraph.end,
            self.paragraph.start <= self.paragraph.end,
            leaf_local_start(*self) + (self.paragraph.end - self.paragraph.start) <= u32::MAX,
        ensures
            range == local_range_spec(*self, source),
    {
        let relative_start = source.start.saturating_sub(self.paragraph.start);
        let relative_end = source.end.saturating_sub(self.paragraph.start);
        match self.source {
            LeafSpanSource::Snapshot { start } => LocalRange::Snapshot {
                text: self.text,
                bytes: (start + relative_start)..(start + relative_end),
            },
            LeafSpanSource::Composition { id, epoch, start } => LocalRange::Composition {
                id,
                epoch,
                bytes: (start + relative_start)..(start + relative_end),
            },
        }
    }

    /// Returns the leaf-local position of a paragraph offset inside this leaf.
    pub fn local_position(&self, source: u32, affinity: TextAffinity) -> (position: LocalPosition)
        requires
            source <= self.paragraph.end,
            self.paragraph.start <= self.paragraph.end,
            leaf_local_start(*self) + (self.paragraph.end - self.paragraph.start) <= u32::MAX,
        ensures
            position == local_position_spec(*self, source, affinity),
    {
        let relative = source.saturating_sub(self.paragraph.start);
        match self.source {
            LeafSpanSource::Snapshot { start } => LocalPosition::Snapshot {
                text: self.text,
                byte: start + relative,
                affinity,
            },
            LeafSpanSource::Composition { id, epoch, start } => LocalPosition::Composition {
                id,
                epoch,
                byte: start + relative,
                affinity,
            },
        }
    }
}

/// Last leaf owning an authored offset upstream.
fn last_owner(leaves: &Vec<SourceLeaf>, source: u32) -> (index: Option<usize>)
    ensures
        index matches Some(i) ==> last_before(leaves@, leaf_owns(source, TextAffinity::Upstream), leaves@.len() as int)
            == Some(i as int),
        index is None ==> last_before(leaves@, leaf_owns(source, TextAffinity::Upstream), leaves@.len() as int) is None,
{
    let mut back: usize = leaves.len();
    while back > 0
        invariant
            0 <= back <= leaves@.len(),
            last_before(leaves@, leaf_owns(source, TextAffinity::Upstream), leaves@.len() as int)
                == last_before(leaves@, leaf_owns(source, TextAffinity::Upstream), back as int),
        decreases back,
    {
        let leaf = leaves[back - 1];
        if (leaf.paragraph.start < source && source <= leaf.paragraph.end) || (leaf.paragraph.start
            == leaf.paragraph.end && leaf.paragraph.end == source) {
            assert(last_before(leaves@, leaf_owns(source, TextAffinity::Upstream), back as int) == Some(back - 1));
            return Some(back - 1);
        }
        back -= 1;
    }
    None
}

/// First leaf owning an authored offset downstream.
fn first_owner(leaves: &Vec<SourceLeaf>, source: u32) -> (index: Option<usize>)
    ensures
        index matches Some(i) ==> first_from(leaves@, leaf_owns(source, TextAffinity::Downstream), 0)
            == Some(i as int),
        index is None ==> first_from(leaves@, leaf_owns(source, TextAffinity::Downstream), 0) is None,
{
    let mut front: usize = 0;
    while front < leaves.len()
        invariant
            0 <= front <= leaves@.len(),
            first_from(leaves@, leaf_owns(source, TextAffinity::Downstream), 0) == first_from(
                leaves@,
                leaf_owns(source, TextAffinity::Downstream),
                front as int,
            ),
        decreases leaves@.len() - front,
    {
        let leaf = leaves[front];
        if (leaf.paragraph.start <= source && source < leaf.paragraph.end) || (leaf.paragraph.start
            == leaf.paragraph.end && leaf.paragraph.start == source) {
            assert(first_from(leaves@, leaf_owns(source, TextAffinity::Downstream), front as int) == Some(front as int));
            return Some(front);
        }
        front += 1;
    }
    None
}

/// First leaf index whose span reaches past `start`.
fn partition_reaches(leaves: &Vec<SourceLeaf>, source_len: u32, start: u32) -> (index: usize)
    requires
        leaves_wf(leaves@, source_len),
    ensures
        index as int == (match first_from(leaves@, leaf_reaches(start), 0) {
            Some(i) => i,
            None => leaves@.len() as int,
        }),
{
    let mut lo: usize = 0;
    let mut hi: usize = leaves.len();
    while lo < hi
        invariant
            0 <= lo <= hi <= leaves@.len(),
            leaves_wf(leaves@, source_len),
            forall|i: int| 0 <= i < lo ==> !leaf_reaches(start)(#[trigger] leaves@[i]),
            forall|i: int| hi <= i < leaves@.len() ==> leaf_reaches(start)(#[trigger] leaves@[i]),
        decreases hi - lo,
    {
        let middle = lo + (hi - lo) / 2;
        if leaves[middle].paragraph.end <= start {
            proof {
                assert forall|i: int| 0 <= i <= middle implies !leaf_reaches(start)(#[trigger] leaves@[i]) by {
                    if i < middle {
                        lemma_leaves_sorted(leaves@, source_len, i, middle as int);
                        assert(leaves@[middle as int].paragraph.start <= leaves@[middle as int].paragraph.end);
                    }
                }
            }
            lo = middle + 1;
        } else {
            proof {
                assert forall|i: int| middle <= i < leaves@.len() implies leaf_reaches(start)(#[trigger] leaves@[i]) by {
                    if i > middle {
                        lemma_leaves_sorted(leaves@, source_len, middle as int, i);
                        assert(leaves@[i].paragraph.start <= leaves@[i].paragraph.end);
                    }
                }
            }
            hi = middle;
        }
    }
    proof {
        lemma_first_from_at(leaves@, leaf_reaches(start), 0, lo as int);
    }
    lo
}

/// First leaf index whose span starts at or after `end`.
fn partition_starts_from(leaves: &Vec<SourceLeaf>, source_len: u32, end: u32) -> (index: usize)
    requires
        leaves_wf(leaves@, source_len),
    ensures
        index as int == (match first_from(leaves@, leaf_starts_from(end), 0) {
            Some(i) => i,
            None => leaves@.len() as int,
        }),
{
    let mut lo: usize = 0;
    let mut hi: usize = leaves.len();
    while lo < hi
        invariant
            0 <= lo <= hi <= leaves@.len(),
            leaves_wf(leaves@, source_len),
            forall|i: int| 0 <= i < lo ==> !leaf_starts_from(end)(#[trigger] leaves@[i]),
            forall|i: int| hi <= i < leaves@.len() ==> leaf_starts_from(end)(#[trigger] leaves@[i]),
        decreases hi - lo,
    {
        let middle = lo + (hi - lo) / 2;
        if leaves[middle].paragraph.start < end {
            proof {
                assert forall|i: int| 0 <= i <= middle implies !leaf_starts_from(end)(#[trigger] leaves@[i]) by {
                    if i < middle {
                        lemma_leaves_sorted(leaves@, source_len, i, middle as int);
                        assert(leaves@[i].paragraph.start <= leaves@[i].paragraph.end);
                    }
                }
            }
            lo = middle + 1;
        } else {
            proof {
                assert forall|i: int| middle <= i < leaves@.len() implies leaf_starts_from(end)(#[trigger] leaves@[i]) by {
                    if i > middle {
                        lemma_leaves_sorted(leaves@, source_len, middle as int, i);
                        assert(leaves@[middle as int].paragraph.start <= leaves@[middle as int].paragraph.end);
                    }
                }
            }
            hi = middle;
        }
    }
    proof {
        lemma_first_from_at(leaves@, leaf_starts_from(end), 0, lo as int);
    }
    lo
}

impl ParagraphSourceMap {
    /// Validates a projected range against the projected text.
    pub fn span(&self, range: core::ops::Range<u32>, paragraph: ParagraphId) -> (span: Result<SourceSpan, SceneError>)
        ensures
            span matches Ok(s) ==> s.start == range.start && s.end == range.end,
            span is Ok <==> range.start <= range.end && range.end <= self.projected_len_spec(),
            span matches Err(e) ==> e.kind() == SceneErrorKind::SourceCoverage && e.paragraph() == Some(
                paragraph,
            ) && e.source() == Some(range),
    {
        if range.start > range.end || range.end > self.projected_len {
            return Err(SceneError::for_source(SceneErrorKind::SourceCoverage, paragraph, range));
        }
        Ok(SourceSpan::new(range.start, range.end))
    }

    /// Returns the authored offset of a projected offset.
    #[verifier::loop_isolation(false)]
    pub fn source_position(&self, projected: u32, affinity: TextAffinity) -> (source: u32)
        ensures
            source == self.source_position_of(projected, affinity),
    {
        proof {
            use_type_invariant(self);
        }
        if self.identity {
            return projected;
        }
        let rels = &self.relations;
        let mut index: usize = 0;
        while index < rels.len()
            invariant
                0 <= index <= rels@.len(),
                rels@ == self.relation_seq(),
                relations_wf(rels@, self.source_len, self.projected_len),
                first_from(rels@, relation_interior(projected), 0) == first_from(
                    rels@,
                    relation_interior(projected),
                    index as int,
                ),
            decreases rels@.len() - index,
        {
            let relation = rels[index];
            if relation.projected.start < projected && projected < relation.projected.end {
                assert(first_from(rels@, relation_interior(projected), index as int) == Some(index as int));
                return match relation.kind {
                    ProjectionKind::Identity => relation.source.start + (projected
                        - relation.projected.start),
                    ProjectionKind::Replacement | ProjectionKind::Collapsed => match affinity {
                        TextAffinity::Upstream => relation.source.end,
                        TextAffinity::Downstream => relation.source.start,
                    },
                    ProjectionKind::Inserted => relation.source.start,
                    ProjectionKind::Omitted => relation.source.start,
                };
            }
            index += 1;
        }
        match affinity {
            TextAffinity::Upstream => {
                let mut back: usize = rels.len();
                while back > 0
                    invariant
                        0 <= back <= rels@.len(),
                        rels@ == self.relation_seq(),
                        !self.identity,
                        first_from(rels@, relation_interior(projected), 0) is None,
                        last_before(rels@, relation_ends_by(projected), rels@.len() as int)
                            == last_before(rels@, relation_ends_by(projected), back as int),
                    decreases back,
                {
                    let relation = rels[back - 1];
                    if relation.projected.start != relation.projected.end && relation.projected.end
                        <= projected {
                        assert(last_before(rels@, relation_ends_by(projected), back as int) == Some(back - 1));
                        return relation.source.end;
                    }
                    back -= 1;
                }
                0
            },
            TextAffinity::Downstream => {
                let mut front: usize = 0;
                while front < rels.len()
                    invariant
                        0 <= front <= rels@.len(),
                        rels@ == self.relation_seq(),
                        !self.identity,
                        first_from(rels@, relation_interior(projected), 0) is None,
                        first_from(rels@, relation_starts_from(projected), 0) == first_from(
                            rels@,
                            relation_starts_from(projected),
                            front as int,
                        ),
                    decreases rels@.len() - front,
                {
                    let relation = rels[front];
                    if relation.projected.start != relation.projected.end
                        && relation.projected.start >= projected {
                        assert(first_from(rels@, relation_starts_from(projected), front as int) == Some(front as int));
                        return relation.source.start;
                    }
                    front += 1;
                }
                self.source_len
            },
        }
    }

    /// Returns the authored span of a projected span.
    pub fn source_range(&self, projected: SourceSpan) -> (source: SourceSpan)
        ensures
            source == self.source_range_of(projected),
    {
        if projected.is_empty() {
            let source = self.source_position(projected.start, TextAffinity::Upstream);
            return SourceSpan::new(source, source);
        }
        let start = self.source_position(projected.start, TextAffinity::Downstream);
        let end = self.source_position(projected.end, TextAffinity::Upstream);
        SourceSpan::new(
            if start <= end {
                start
            } else {
                end
            },
            if start <= end {
                end
            } else {
                start
            },
        )
    }

    /// Returns the index of the leaf owning an authored offset.
    #[verifier::loop_isolation(false)]
    pub fn leaf_for_position(&self, source: u32, affinity: TextAffinity) -> (index: Option<usize>)
        ensures
            index matches Some(i) ==> leaf_for_position_spec(self.leaf_seq(), source, affinity)
                == Some(i as int),
            index is None ==> leaf_for_position_spec(self.leaf_seq(), source, affinity) is None,
    {
        let leaves = &self.leaves;
        let owner = match affinity {
            TextAffinity::Upstream => last_owner(leaves, source),
            TextAffinity::Downstream => first_owner(leaves, source),
        };
        if owner.is_some() {
            return owner;
        }
        let mut front: usize = 0;
        while front < leaves.len()
            invariant
                0 <= front <= leaves@.len(),
                first_from(leaves@, leaf_touches(source), 0) == first_from(
                    leaves@,
                    leaf_touches(source),
                    front as int,
                ),
            decreases leaves@.len() - front,
        {
            let leaf = leaves[front];
            if leaf.paragraph.start <= source && source <= leaf.paragraph.end {
                assert(first_from(leaves@, leaf_touches(source), front as int) == Some(front as int));
                return Some(front);
            }
            front += 1;
        }
        None
    }
}


/// A leaf carries the given identity.
pub open spec fn leaf_has_text(text: TextId) -> spec_fn(SourceLeaf) -> bool {
    |leaf: SourceLeaf| leaf.text == text
}

/// A leaf rebound to the current composition epoch.
pub open spec fn rebind_leaf(leaf: SourceLeaf, id: CompositionId, epoch: CompositionEpoch) -> SourceLeaf {
    match leaf.source {
        LeafSpanSource::Composition { start, .. } => SourceLeaf {
            source: LeafSpanSource::Composition { id, epoch, start },
            ..leaf
        },
        LeafSpanSource::Snapshot { .. } => leaf,
    }
}

/// The retained leaf of a leaf span.
pub open spec fn leaf_of(span: LeafSpan) -> SourceLeaf {
    SourceLeaf {
        paragraph: SourceSpan { start: span.paragraph_start, end: span.paragraph_end },
        text: span.text,
        source: span.source,
    }
}

/// Leaf spans cover `0..source_len` in order, each inside its leaf.
pub open spec fn spans_cover(spans: Seq<LeafSpan>, source_len: u32) -> bool {
    &&& leaves_wf(spans.map_values(|span: LeafSpan| leaf_of(span)), source_len)
    &&& forall|i: int|
        0 <= i < spans.len() ==> leaf_local_start(leaf_of(#[trigger] spans[i])) + (
        spans[i].paragraph_end - spans[i].paragraph_start) <= spans[i].leaf_len
}

/// An owning or touching leaf lies inside the map and touches the offset.
pub proof fn lemma_leaf_for_position(leaves: Seq<SourceLeaf>, source: u32, affinity: TextAffinity)
    ensures
        leaf_for_position_spec(leaves, source, affinity) matches Some(i) ==> 0 <= i < leaves.len()
            && leaves[i].paragraph.start <= source <= leaves[i].paragraph.end,
{
    lemma_last_before(leaves, leaf_owns(source, affinity), leaves.len() as int);
    lemma_first_from(leaves, leaf_owns(source, affinity), 0);
    lemma_first_from(leaves, leaf_touches(source), 0);
}

/// A map whose leaves are all committed text yields only committed ranges.
pub proof fn lemma_ranges_committed(map: &ParagraphSourceMap, span: SourceSpan)
    requires
        map.wf(),
        forall|i: int| 0 <= i < map.leaf_seq().len() ==> (#[trigger] map.leaf_seq()[i]).source is Snapshot,
    ensures
        forall|i: int|
            0 <= i < map.ranges_for_span_spec(span).len() ==> (#[trigger] map.ranges_for_span_spec(span)[i]) is Snapshot,
{
    let source = map.source_range_of(span);
    let (front, back) = leaf_indices_spec(map.leaf_seq(), source);
    lemma_leaf_for_position(map.leaf_seq(), source.start, TextAffinity::Upstream);
    lemma_leaf_for_position(map.leaf_seq(), source.start, TextAffinity::Downstream);
    lemma_first_from(map.leaf_seq(), leaf_reaches(source.start), 0);
    lemma_first_from(map.leaf_seq(), leaf_starts_from(source.end), 0);
    let leaves = map.leaf_seq();
    if source.start != source.end && back < front {
        assert(leaves[back].paragraph.start <= leaves[back].paragraph.end);
        assert(leaf_reaches(source.start)(leaves[back]));
    }
    assert forall|i: int| 0 <= i < map.ranges_for_span_spec(span).len() implies (#[trigger] map.ranges_for_span_spec(span)[i]) is Snapshot by {
        assert(map.leaf_seq()[front + i].source is Snapshot);
    }
}

/// Borrowed exact-size sequence of leaf-local ranges for one observation.
#[derive(Clone, Copy, Debug)]
pub struct LocalRanges<'a> {
    map: &'a ParagraphSourceMap,
    source: SourceSpan,
    front: usize,
    back: usize,
}

impl<'a> View for LocalRanges<'a> {
    type V = Seq<LocalRange>;

    closed spec fn view(&self) -> Seq<LocalRange> {
        clipped_ranges_spec(self.map.leaf_seq(), self.source, self.front as int, self.back as int)
    }
}

impl<'a> LocalRanges<'a> {
    #[verifier::type_invariant]
    closed spec fn inv(&self) -> bool {
        &&& self.front <= self.back <= self.map.leaf_seq().len()
        &&& forall|i: int|
            self.front <= i < self.back ==> self.source.start <= (
            #[trigger] self.map.leaf_seq()[i]).paragraph.end
    }

    fn new(map: &'a ParagraphSourceMap, source: SourceSpan, front: usize, back: usize) -> (ranges: Self)
        requires
            front <= back <= map.leaf_seq().len(),
            forall|i: int| front <= i < back ==> source.start <= (#[trigger] map.leaf_seq()[i]).paragraph.end,
        ensures
            ranges@ == clipped_ranges_spec(map.leaf_seq(), source, front as int, back as int),
    {
        Self { map, source, front, back }
    }

    fn range_for(&self, index: usize) -> (range: LocalRange)
        requires
            self.front <= index < self.back,
        ensures
            range == clipped_range_spec(self.map.leaf_seq(), self.source, index as int),
    {
        proof {
            use_type_invariant(self);
            use_type_invariant(self.map);
        }
        let leaf = &self.map.leaves[index];
        assert(leaf.paragraph.start <= leaf.paragraph.end);
        let start = if self.source.start >= leaf.paragraph.start {
            self.source.start
        } else {
            leaf.paragraph.start
        };
        let end = if self.source.end <= leaf.paragraph.end {
            self.source.end
        } else {
            leaf.paragraph.end
        };
        leaf.local_range(SourceSpan::new(start, end))
    }

    /// Returns how many ranges remain.
    pub fn len(&self) -> (len: usize)
        ensures
            len == self@.len(),
    {
        proof {
            use_type_invariant(self);
        }
        self.back - self.front
    }

    /// Removes and returns the first remaining range.
    pub fn next(&mut self) -> (range: Option<LocalRange>)
        ensures
            old(self)@.len() == 0 ==> range is None && final(self)@ == old(self)@,
            old(self)@.len() > 0 ==> range == Some(old(self)@[0]) && final(self)@ == old(self)@.drop_first(),
    {
        proof {
            use_type_invariant(&*self);
        }
        if self.front == self.back {
            return None;
        }
        let index = self.front;
        let range = self.range_for(index);
        self.front = self.front + 1;
        assert(self@ =~= old(self)@.drop_first());
        Some(range)
    }

    /// Removes and returns the last remaining range.
    pub fn next_back(&mut self) -> (range: Option<LocalRange>)
        ensures
            old(self)@.len() == 0 ==> range is None && final(self)@ == old(self)@,
            old(self)@.len() > 0 ==> range == Some(old(self)@.last()) && final(self)@ == old(self)@.drop_last(),
    {
        proof {
            use_type_invariant(&*self);
        }
        if self.front == self.back {
            return None;
        }
        let index = self.back - 1;
        let range = self.range_for(index);
        self.back = index;
        assert(self@ =~= old(self)@.drop_last());
        Some(range)
    }
}

impl ParagraphSourceMap {
    /// Returns the leaf indices overlapping an authored span.
    pub fn leaf_indices_for_source(&self, source: SourceSpan) -> (indices: core::ops::Range<usize>)
        requires
            source.start <= source.end,
        ensures
            (indices.start as int, indices.end as int) == leaf_indices_spec(self.leaf_seq(), source),
            indices.start <= indices.end <= self.leaf_seq().len(),
            forall|i: int| indices.start <= i < indices.end ==> source.start <= (
            #[trigger] self.leaf_seq()[i]).paragraph.end,
    {
        proof {
            use_type_invariant(self);
            lemma_leaf_for_position(self.leaf_seq(), source.start, TextAffinity::Upstream);
            lemma_leaf_for_position(self.leaf_seq(), source.start, TextAffinity::Downstream);
        }
        if source.is_empty() {
            let index = match self.leaf_for_position(source.start, TextAffinity::Upstream) {
                Some(index) => Some(index),
                None => self.leaf_for_position(source.start, TextAffinity::Downstream),
            };
            return match index {
                Some(index) => index..index + 1,
                None => 0..0,
            };
        }
        let front = partition_reaches(&self.leaves, self.source_len, source.start);
        let back = partition_starts_from(&self.leaves, self.source_len, source.end);
        proof {
            let leaves = self.leaf_seq();
            lemma_first_from(leaves, leaf_reaches(source.start), 0);
            lemma_first_from(leaves, leaf_starts_from(source.end), 0);
            if back < front {
                assert(leaves[back as int].paragraph.start <= leaves[back as int].paragraph.end);
                assert(leaf_reaches(source.start)(leaves[back as int]));
            }
            assert forall|i: int| front <= i < back implies source.start <= (
            #[trigger] leaves[i]).paragraph.end by {
                if i > front {
                    lemma_leaves_sorted(leaves, self.source_len, front as int, i);
                    assert(leaves[front as int].paragraph.start <= leaves[front as int].paragraph.end);
                    assert(leaves[i].paragraph.start <= leaves[i].paragraph.end);
                }
            }
        }
        front..back
    }

    /// Returns the leaf indices overlapping a projected span.
    pub fn leaf_indices_for_span(&self, span: SourceSpan) -> (indices: core::ops::Range<usize>)
        ensures
            (indices.start as int, indices.end as int) == leaf_indices_spec(
                self.leaf_seq(),
                self.source_range_of(span),
            ),
    {
        let source = self.source_range(span);
        self.leaf_indices_for_source(source)
    }

    /// Returns the leaf-local ranges of a projected span.
    pub fn ranges_for_span(&self, span: SourceSpan) -> (ranges: LocalRanges<'_>)
        ensures
            ranges@ == self.ranges_for_span_spec(span),
    {
        let source = self.source_range(span);
        let indices = self.leaf_indices_for_source(source);
        LocalRanges::new(self, source, indices.start, indices.end)
    }

    /// Returns the leaf-local range of one whole leaf, or nothing when the
    /// index names no leaf.
    pub fn ranges_for_leaf(&self, index: u32) -> (ranges: LocalRanges<'_>)
        ensures
            ranges@ == self.ranges_for_leaf_spec(index),
    {
        proof {
            use_type_invariant(self);
        }
        let position = index as usize;
        if position >= self.leaves.len() {
            return LocalRanges::new(self, SourceSpan::new(0, 0), 0, 0);
        }
        let leaf = self.leaves[position];
        assert(leaf.paragraph.start <= leaf.paragraph.end);
        LocalRanges::new(self, leaf.paragraph, position, position + 1)
    }

    /// Returns the leaf-local ranges a source reference denotes.
    pub fn ranges(&self, reference: SourceReference) -> (ranges: LocalRanges<'_>)
        ensures
            ranges@ == self.ranges_spec(reference),
    {
        match reference {
            SourceReference::Projected(span) => self.ranges_for_span(span),
            SourceReference::Leaf(index) => self.ranges_for_leaf(index),
        }
    }

    /// Returns the leaf-local position of a projected position.
    pub fn materialize_position(&self, position: SourcePosition) -> (local: LocalPosition)
        requires
            self.leaf_seq().len() > 0,
            position.offset <= self.projected_len_spec(),
        ensures
            leaf_for_position_spec(
                self.leaf_seq(),
                self.source_position_of(position.offset, position.affinity),
                position.affinity,
            ) is Some,
            local == self.materialize_position_spec(position),
    {
        proof {
            use_type_invariant(self);
        }
        let source = self.source_position(position.offset, position.affinity);
        proof {
            lemma_source_position_bounded(self, position.offset, position.affinity);
            lemma_touching_leaf(self.leaf_seq(), self.source_len, source, 0);
            lemma_leaf_for_position(self.leaf_seq(), source, position.affinity);
        }
        let index = self.leaf_for_position(source, position.affinity).unwrap();
        let leaf = &self.leaves[index];
        leaf.local_position(source, position.affinity)
    }

    /// Returns the number of retained leaves.
    pub fn leaf_count(&self) -> (count: usize)
        ensures
            count == self.leaf_seq().len(),
    {
        self.leaves.len()
    }

    /// Returns the index of the first leaf with the given identity.
    pub fn leaf_index_for_text(&self, text: TextId) -> (index: Option<usize>)
        ensures
            index matches Some(i) ==> first_from(self.leaf_seq(), leaf_has_text(text), 0) == Some(i as int),
            index is None ==> first_from(self.leaf_seq(), leaf_has_text(text), 0) is None,
    {
        let mut front: usize = 0;
        while front < self.leaves.len()
            invariant
                0 <= front <= self.leaves@.len(),
                first_from(self.leaves@, leaf_has_text(text), 0) == first_from(
                    self.leaves@,
                    leaf_has_text(text),
                    front as int,
                ),
            decreases self.leaves@.len() - front,
        {
            if self.leaves[front].text == text {
                assert(first_from(self.leaves@, leaf_has_text(text), front as int) == Some(front as int));
                return Some(front);
            }
            front += 1;
        }
        None
    }

    /// Returns the leaf-local range of one whole leaf.
    pub fn leaf_range(&self, index: usize) -> (range: Option<LocalRange>)
        ensures
            index < self.leaf_seq().len() ==> range == Some(
                local_range_spec(self.leaf_seq()[index as int], self.leaf_seq()[index as int].paragraph),
            ),
            index >= self.leaf_seq().len() ==> range is None,
    {
        proof {
            use_type_invariant(self);
        }
        if index < self.leaves.len() {
            let leaf = &self.leaves[index];
            assert(leaf.paragraph.start <= leaf.paragraph.end);
            Some(leaf.local_range(leaf.paragraph))
        } else {
            None
        }
    }

    /// Rebinds every composition leaf to a new composition identity and epoch.
    pub fn rebind_composition(&mut self, id: CompositionId, epoch: CompositionEpoch)
        ensures
            final(self).leaf_seq() == old(self).leaf_seq().map_values(
                |leaf: SourceLeaf| rebind_leaf(leaf, id, epoch),
            ),
            final(self).relation_seq() == old(self).relation_seq(),
            final(self).source_len_spec() == old(self).source_len_spec(),
            final(self).projected_len_spec() == old(self).projected_len_spec(),
            final(self).identity_spec() == old(self).identity_spec(),
    {
        proof {
            use_type_invariant(&*self);
        }
        let mut rebound: Vec<SourceLeaf> = Vec::new();
        let mut index: usize = 0;
        while index < self.leaves.len()
            invariant
                0 <= index <= self.leaves@.len(),
                rebound@ =~= self.leaves@.subrange(0, index as int).map_values(
                    |leaf: SourceLeaf| rebind_leaf(leaf, id, epoch),
                ),
            decreases self.leaves@.len() - index,
        {
            let leaf = self.leaves[index];
            let next = match leaf.source {
                LeafSpanSource::Composition { start, .. } => SourceLeaf {
                    paragraph: leaf.paragraph,
                    text: leaf.text,
                    source: LeafSpanSource::Composition { id, epoch, start },
                },
                LeafSpanSource::Snapshot { .. } => leaf,
            };
            rebound.push(next);
            proof {
                assert(self.leaves@.subrange(0, index + 1) =~= self.leaves@.subrange(0, index as int).push(
                    self.leaves@[index as int],
                ));
            }
            index += 1;
        }
        proof {
            assert(self.leaves@.subrange(0, self.leaves@.len() as int) =~= self.leaves@);
            let old_leaves = self.leaves@;
            let new_leaves = rebound@;
            assert forall|i: int| 0 <= i < new_leaves.len() implies (#[trigger] new_leaves[i]).paragraph
                == old_leaves[i].paragraph && leaf_local_start(new_leaves[i]) == leaf_local_start(
                old_leaves[i],
            ) by {}
            assert forall|i: int| 0 <= i < new_leaves.len() - 1 implies #[trigger] leaves_linked(new_leaves, i) by {
                assert(leaves_linked(old_leaves, i));
            }
        }
        self.leaves = rebound;
    }

    /// Returns the deterministic capacity charge of the retained tables.
    pub fn accounted_owned_bytes(&self) -> (bytes: usize)
        ensures
            exists|relation_capacity: int, leaf_capacity: int|
                relation_capacity >= self.relation_seq().len() && leaf_capacity >= self.leaf_seq().len()
                    && bytes == saturate(
                    #[trigger] table_charge(vstd::layout::size_of::<SourceRelation>(), relation_capacity)
                        + #[trigger] table_charge(vstd::layout::size_of::<SourceLeaf>(), leaf_capacity),
                ),
    {
        let relation_capacity = vec_capacity(&self.relations);
        let leaf_capacity = vec_capacity(&self.leaves);
        let relations = saturating_mul(core::mem::size_of::<SourceRelation>(), relation_capacity);
        let leaves = saturating_mul(core::mem::size_of::<SourceLeaf>(), leaf_capacity);
        let bytes = relations.saturating_add(leaves);
        assert(bytes == saturate(
            table_charge(vstd::layout::size_of::<SourceRelation>(), relation_capacity as int)
                + table_charge(vstd::layout::size_of::<SourceLeaf>(), leaf_capacity as int),
        ));
        bytes
    }

    /// Builds a source map from a paragraph's text projection and the spans
    /// its semantic leaves contribute to the authored source.
    ///
    /// Fails with a source-coverage error unless the spans cover the authored
    /// text contiguously from its start, each inside its leaf.
    pub fn from_projection(mapping: &TextProjection, spans: &[LeafSpan], paragraph: ParagraphId) -> (map:
        Result<Self, SceneError>)
        ensures
            map is Ok <==> spans_cover(spans@, mapping.source_len_spec()),
            map matches Ok(m) ==> {
                &&& m.source_len_spec() == mapping.source_len_spec()
                &&& m.projected_len_spec() == mapping.projected_len_spec()
                &&& m.identity_spec() == all_identity(mapping.segment_seq())
                &&& m.relation_seq() == if all_identity(mapping.segment_seq()) {
                    Seq::<SourceRelation>::empty()
                } else {
                    mapping.segment_seq().map_values(|segment: ProjectionSegment| relation_of(segment))
                }
                &&& m.leaf_seq() == spans@.map_values(|span: LeafSpan| leaf_of(span))
            },
            map matches Err(e) ==> e.kind() == SceneErrorKind::SourceCoverage && e.paragraph() == Some(
                paragraph,
            ),
    {
        let source_len = mapping.source_len();
        let projected_len = mapping.projected_len();
        let identity = mapping.is_identity();
        let segments = mapping.segments();
        let mut relations: Vec<SourceRelation> = Vec::new();
        if !identity {
            let mut index: usize = 0;
            while index < segments.len()
                invariant
                    0 <= index <= segments@.len(),
                    segments_wf(segments@, source_len, projected_len),
                    relations@ =~= segments@.subrange(0, index as int).map_values(
                        |segment: ProjectionSegment| relation_of(segment),
                    ),
                decreases segments@.len() - index,
            {
                let segment = segments[index];
                relations.push(
                    SourceRelation {
                        kind: segment.kind,
                        source: SourceSpan::new(segment.source_start, segment.source_end),
                        projected: SourceSpan::new(segment.projected_start, segment.projected_end),
                    },
                );
                proof {
                    assert(segments@.subrange(0, index + 1) =~= segments@.subrange(0, index as int).push(
                        segments@[index as int],
                    ));
                }
                index += 1;
            }
            proof {
                assert(segments@.subrange(0, segments@.len() as int) =~= segments@);
            }
        }
        proof {
            assert forall|i: int| 0 <= i < relations@.len() implies {
                let r = #[trigger] relations@[i];
                &&& r.source.start <= r.source.end <= source_len
                &&& r.projected.start <= r.projected.end <= projected_len
                &&& r.kind == ProjectionKind::Identity ==> r.source.end - r.source.start
                    == r.projected.end - r.projected.start
                &&& r.kind == ProjectionKind::Omitted ==> r.projected.start == r.projected.end
            } by {
                assert(segments@[i].wf());
                lemma_segment_bounds(segments@, source_len, projected_len, i);
            }
            if identity {
                lemma_identity_lengths(segments@, source_len, projected_len);
            }
        }
        let ghost model = spans@.map_values(|span: LeafSpan| leaf_of(span));
        let mut covered: u32 = 0;
        let mut leaves: Vec<SourceLeaf> = Vec::new();
        let mut index: usize = 0;
        while index < spans.len()
            invariant
                0 <= index <= spans@.len(),
                model == spans@.map_values(|span: LeafSpan| leaf_of(span)),
                leaves@ =~= model.subrange(0, index as int),
                index == 0 ==> covered == 0,
                index > 0 ==> covered == spans@[index - 1].paragraph_end,
                forall|i: int|
                    0 <= i < index ==> (#[trigger] model[i]).paragraph.start <= model[i].paragraph.end
                        && leaf_local_start(model[i]) + (spans@[i].paragraph_end
                        - spans@[i].paragraph_start) <= spans@[i].leaf_len,
                index > 0 ==> model[0].paragraph.start == 0,
                forall|i: int| 0 <= i < index - 1 ==> #[trigger] leaves_linked(model, i),
            decreases spans@.len() - index,
        {
            let span = spans[index];
            if span.paragraph_start != covered || span.paragraph_end < span.paragraph_start {
                proof {
                    if span.paragraph_start != covered {
                        if index > 0 {
                            assert(!leaves_linked(model, index - 1));
                        } else {
                            assert(model[0].paragraph.start != 0);
                        }
                    } else {
                        assert(!(model[index as int].paragraph.start <= model[index as int].paragraph.end));
                    }
                }
                return Err(SceneError::for_paragraph(SceneErrorKind::SourceCoverage, paragraph));
            }
            let local_start = match span.source {
                LeafSpanSource::Snapshot { start } => start,
                LeafSpanSource::Composition { start, .. } => start,
            };
            if span.paragraph_end - span.paragraph_start > span.leaf_len || local_start > span.leaf_len
                - (span.paragraph_end - span.paragraph_start) {
                proof {
                    assert(!(leaf_local_start(leaf_of(spans@[index as int])) + (
                    spans@[index as int].paragraph_end - spans@[index as int].paragraph_start)
                        <= spans@[index as int].leaf_len));
                }
                return Err(SceneError::for_paragraph(SceneErrorKind::SourceCoverage, paragraph));
            }
            leaves.push(
                SourceLeaf {
                    paragraph: SourceSpan::new(span.paragraph_start, span.paragraph_end),
                    text: span.text,
                    source: span.source,
                },
            );
            proof {
                assert(model.subrange(0, index + 1) =~= model.subrange(0, index as int).push(
                    model[index as int],
                ));
            }
            covered = span.paragraph_end;
            index += 1;
        }
        if covered != source_len || leaves.len() == 0 && source_len != 0 {
            return Err(SceneError::for_paragraph(SceneErrorKind::SourceCoverage, paragraph));
        }
        proof {
            assert(model.subrange(0, spans@.len() as int) =~= model);
            assert(leaves_wf(model, source_len));
            assert forall|i: int| 0 <= i < spans@.len() implies leaf_local_start(leaf_of(#[trigger] spans@[i])) + (
                spans@[i].paragraph_end - spans@[i].paragraph_start) <= spans@[i].leaf_len by {
                assert(model[i] == leaf_of(spans@[i]));
            }
        }
        Ok(Self { source_len, projected_len, identity, relations, leaves })
    }
}

/// Each relation run ends, in both texts, where the next one starts.
pub open spec fn relations_linked(relations: Seq<SourceRelation>) -> bool {
    forall|i: int, j: int|
        0 <= i && j == i + 1 && j < relations.len() ==> (#[trigger] relations[i]).source.end == (
        #[trigger] relations[j]).source.start && relations[i].projected.end == relations[j].projected.start
}

/// The relation runs of a text projection are linked.
pub proof fn lemma_projection_relations_linked(mapping: &TextProjection)
    requires
        mapping.inv(),
    ensures
        relations_linked(
            mapping.segment_seq().map_values(|segment: ProjectionSegment| relation_of(segment)),
        ),
{
    let segments = mapping.segment_seq();
    let relations = segments.map_values(|segment: ProjectionSegment| relation_of(segment));
    assert forall|i: int, j: int|
        0 <= i && j == i + 1 && j < relations.len() implies (#[trigger] relations[i]).source.end == (
        #[trigger] relations[j]).source.start && relations[i].projected.end == relations[j].projected.start by {
        assert(segments_linked(segments, i));
    }
}

/// Linked runs come in order: an earlier run ends, in both texts, no later
/// than a later one starts.
proof fn lemma_linked_runs_ordered(relations: Seq<SourceRelation>, source_len: u32, projected_len: u32, i: int, j: int)
    requires
        relations_wf(relations, source_len, projected_len),
        relations_linked(relations),
        0 <= i < j < relations.len(),
    ensures
        relations[i].source.end <= relations[j].source.start,
        relations[i].projected.end <= relations[j].projected.start,
    decreases j - i,
{
    let next = relations[i + 1];
    assert(relations[i].source.end == next.source.start);
    if i + 1 < j {
        lemma_linked_runs_ordered(relations, source_len, projected_len, i + 1, j);
        assert(next.source.start <= next.source.end);
        assert(next.projected.start <= next.projected.end);
    }
}

/// Where a nonempty run begins in the projection, the downstream authored
/// position is where the run begins in the authored text.
proof fn lemma_downstream_at_run_start(rels: Seq<SourceRelation>, slen: u32, plen: u32, k: int)
    requires
        relations_wf(rels, slen, plen),
        relations_linked(rels),
        0 <= k < rels.len(),
        rels[k].projected.start < rels[k].projected.end,
    ensures
        source_position_spec(false, rels, slen, rels[k].projected.start, TextAffinity::Downstream)
            == rels[k].source.start,
{
    let s0 = rels[k].projected.start;
    assert forall|j: int| 0 <= j < rels.len() implies !(#[trigger] relation_interior(s0)(rels[j])) by {
        if j < k {
            lemma_linked_runs_ordered(rels, slen, plen, j, k);
        } else if j > k {
            lemma_linked_runs_ordered(rels, slen, plen, k, j);
        }
    }
    lemma_first_from_at(rels, relation_interior(s0), 0, rels.len() as int);
    assert forall|j: int| 0 <= j < k implies !(#[trigger] relation_starts_from(s0)(rels[j])) by {
        lemma_linked_runs_ordered(rels, slen, plen, j, k);
    }
    assert(relation_starts_from(s0)(rels[k]));
    lemma_first_from_at(rels, relation_starts_from(s0), 0, k);
}

/// Past the start of a nonempty run, the upstream authored position is no
/// earlier than where the run begins in the authored text.
proof fn lemma_upstream_after_run_start(rels: Seq<SourceRelation>, slen: u32, plen: u32, k: int, e0: u32)
    requires
        relations_wf(rels, slen, plen),
        relations_linked(rels),
        0 <= k < rels.len(),
        rels[k].projected.start < rels[k].projected.end,
        rels[k].projected.start < e0,
    ensures
        source_position_spec(false, rels, slen, e0, TextAffinity::Upstream) >= rels[k].source.start,
{
    let rk = rels[k];
    lemma_first_from(rels, relation_interior(e0), 0);
    match first_from(rels, relation_interior(e0), 0) {
        Some(i) => {
            if i < k {
                lemma_linked_runs_ordered(rels, slen, plen, i, k);
            } else if i > k {
                lemma_linked_runs_ordered(rels, slen, plen, k, i);
            }
            assert(rels[i].source.start <= rels[i].source.end);
        },
        None => {
            assert(!relation_interior(e0)(rk));
            assert(relation_ends_by(e0)(rk));
            lemma_last_before(rels, relation_ends_by(e0), rels.len() as int);
            let i = last_before(rels, relation_ends_by(e0), rels.len() as int)->0;
            if i > k {
                lemma_linked_runs_ordered(rels, slen, plen, k, i);
            }
            assert(rels[i].source.start <= rels[i].source.end);
        },
    }
}

/// A projected span that begins where a nonempty relation run begins maps
/// to authored text beginning where that run's authored text begins: the
/// span takes in no authored byte of the runs before it, such as bytes
/// whose projection is omitted just before the span.
pub proof fn lemma_source_range_starts_at_its_run(map: &ParagraphSourceMap, span: SourceSpan, k: int)
    requires
        map.wf(),
        !map.identity_spec(),
        relations_linked(map.relation_seq()),
        0 <= k < map.relation_seq().len(),
        map.relation_seq()[k].projected.start == span.start,
        span.start < map.relation_seq()[k].projected.end,
        span.start < span.end,
    ensures
        map.source_range_of(span).start == map.relation_seq()[k].source.start,
{
    lemma_downstream_at_run_start(map.relation_seq(), map.source_len_spec(), map.projected_len_spec(), k);
    lemma_upstream_after_run_start(
        map.relation_seq(),
        map.source_len_spec(),
        map.projected_len_spec(),
        k,
        span.end,
    );
}

/// Where a nonempty run ends in the projection, the upstream authored
/// position is where the run ends in the authored text.
proof fn lemma_upstream_at_run_end(rels: Seq<SourceRelation>, slen: u32, plen: u32, k: int)
    requires
        relations_wf(rels, slen, plen),
        relations_linked(rels),
        0 <= k < rels.len(),
        rels[k].projected.start < rels[k].projected.end,
    ensures
        source_position_spec(false, rels, slen, rels[k].projected.end, TextAffinity::Upstream)
            == rels[k].source.end,
{
    let e0 = rels[k].projected.end;
    assert forall|j: int| 0 <= j < rels.len() implies !(#[trigger] relation_interior(e0)(rels[j])) by {
        if j < k {
            lemma_linked_runs_ordered(rels, slen, plen, j, k);
        } else if j > k {
            lemma_linked_runs_ordered(rels, slen, plen, k, j);
        }
    }
    lemma_first_from_at(rels, relation_interior(e0), 0, rels.len() as int);
    assert(relation_ends_by(e0)(rels[k]));
    lemma_last_before(rels, relation_ends_by(e0), rels.len() as int);
    let i = last_before(rels, relation_ends_by(e0), rels.len() as int)->0;
    if i > k {
        lemma_linked_runs_ordered(rels, slen, plen, k, i);
    }
}

/// Before the end of a nonempty run, the downstream authored position is no
/// later than where the run ends in the authored text.
proof fn lemma_downstream_before_run_end(rels: Seq<SourceRelation>, slen: u32, plen: u32, k: int, s0: u32)
    requires
        relations_wf(rels, slen, plen),
        relations_linked(rels),
        0 <= k < rels.len(),
        rels[k].projected.start < rels[k].projected.end,
        s0 < rels[k].projected.end,
    ensures
        source_position_spec(false, rels, slen, s0, TextAffinity::Downstream) <= rels[k].source.end,
{
    let rk = rels[k];
    lemma_first_from(rels, relation_interior(s0), 0);
    match first_from(rels, relation_interior(s0), 0) {
        Some(i) => {
            if i < k {
                lemma_linked_runs_ordered(rels, slen, plen, i, k);
            } else if i > k {
                lemma_linked_runs_ordered(rels, slen, plen, k, i);
            }
            assert(rels[i].source.start <= rels[i].source.end);
        },
        None => {
            assert(!relation_interior(s0)(rk));
            assert(relation_starts_from(s0)(rk));
            lemma_first_from(rels, relation_starts_from(s0), 0);
            let i = first_from(rels, relation_starts_from(s0), 0)->0;
            if i < k {
                lemma_linked_runs_ordered(rels, slen, plen, i, k);
            }
            assert(rels[i].source.start <= rels[i].source.end);
        },
    }
}

/// A projected span that ends where a nonempty relation run ends maps to
/// authored text ending where that run's authored text ends: the span takes
/// in no authored byte of the runs after it.
pub proof fn lemma_source_range_ends_at_its_run(map: &ParagraphSourceMap, span: SourceSpan, k: int)
    requires
        map.wf(),
        !map.identity_spec(),
        relations_linked(map.relation_seq()),
        0 <= k < map.relation_seq().len(),
        map.relation_seq()[k].projected.end == span.end,
        map.relation_seq()[k].projected.start < span.end,
        span.start < span.end,
    ensures
        map.source_range_of(span).end == map.relation_seq()[k].source.end,
{
    lemma_upstream_at_run_end(map.relation_seq(), map.source_len_spec(), map.projected_len_spec(), k);
    lemma_downstream_before_run_end(
        map.relation_seq(),
        map.source_len_spec(),
        map.projected_len_spec(),
        k,
        span.start,
    );
}

/// Strictly inside a run, the authored position is the run's own: for an
/// identity run, the same distance from the run's authored start.
proof fn lemma_position_inside_run(rels: Seq<SourceRelation>, slen: u32, plen: u32, k: int, x: u32, affinity: TextAffinity)
    requires
        relations_wf(rels, slen, plen),
        relations_linked(rels),
        0 <= k < rels.len(),
        rels[k].kind == ProjectionKind::Identity,
        rels[k].projected.start < x < rels[k].projected.end,
    ensures
        source_position_spec(false, rels, slen, x, affinity) == rels[k].source.start + (x
            - rels[k].projected.start),
{
    assert forall|j: int| 0 <= j < k implies !(#[trigger] relation_interior(x)(rels[j])) by {
        lemma_linked_runs_ordered(rels, slen, plen, j, k);
    }
    lemma_first_from_at(rels, relation_interior(x), 0, k);
}

/// A projected span inside one identity run maps to the authored span at
/// the same distances from the run's authored start.
pub proof fn lemma_source_range_inside_identity_run(map: &ParagraphSourceMap, span: SourceSpan, k: int)
    requires
        map.wf(),
        !map.identity_spec(),
        relations_linked(map.relation_seq()),
        0 <= k < map.relation_seq().len(),
        map.relation_seq()[k].kind == ProjectionKind::Identity,
        map.relation_seq()[k].projected.start <= span.start < span.end <= map.relation_seq()[k].projected.end,
    ensures
        map.source_range_of(span) == (SourceSpan {
            start: (map.relation_seq()[k].source.start + (span.start
                - map.relation_seq()[k].projected.start)) as u32,
            end: (map.relation_seq()[k].source.start + (span.end
                - map.relation_seq()[k].projected.start)) as u32,
        }),
{
    let rels = map.relation_seq();
    let slen = map.source_len_spec();
    let plen = map.projected_len_spec();
    let rk = rels[k];
    if span.start == rk.projected.start {
        lemma_downstream_at_run_start(rels, slen, plen, k);
    } else {
        lemma_position_inside_run(rels, slen, plen, k, span.start, TextAffinity::Downstream);
    }
    if span.end == rk.projected.end {
        lemma_upstream_at_run_end(rels, slen, plen, k);
    } else {
        lemma_position_inside_run(rels, slen, plen, k, span.end, TextAffinity::Upstream);
    }
}

} // verus!
