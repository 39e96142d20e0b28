//! Relation between authored paragraph source and presentation text.
//!
//! Whitespace processing and generated content turn the authored paragraph
//! source into the projected text given to shaping. The relation is a
//! sequence of segments that partition both texts in order.

use vstd::prelude::*;

verus! {

/// How one projected segment relates to its authored source.
#[derive(Clone, Copy, Debug, PartialEq, Eq, Hash, Structural)]
pub enum ProjectionKind {
    /// Projected bytes equal the source bytes.
    Identity,
    /// Projected bytes replace the source bytes.
    Replacement,
    /// A source run was collapsed to shorter projected text.
    Collapsed,
    /// Projected bytes were generated at one source position.
    Inserted,
    /// Source bytes have no projected text.
    Omitted,
}

/// One segment of a text projection.
#[derive(Clone, Copy, Debug, PartialEq, Eq, Hash, Structural)]
pub struct ProjectionSegment {
    /// How the segment relates its two ranges.
    pub kind: ProjectionKind,
    /// First source byte.
    pub source_start: u32,
    /// Source byte just past the segment.
    pub source_end: u32,
    /// First projected byte.
    pub projected_start: u32,
    /// Projected byte just past the segment.
    pub projected_end: u32,
}

impl ProjectionSegment {
    /// Returns the segment's relation kind.
    pub fn kind(&self) -> (kind: ProjectionKind)
        ensures
            kind == self.kind,
    {
        self.kind
    }

    /// Returns the authored source range.
    pub fn source(&self) -> (source: core::ops::Range<u32>)
        ensures
            source.start == self.source_start,
            source.end == self.source_end,
    {
        self.source_start..self.source_end
    }

    /// Returns the projected range.
    pub fn projected(&self) -> (projected: core::ops::Range<u32>)
        ensures
            projected.start == self.projected_start,
            projected.end == self.projected_end,
    {
        self.projected_start..self.projected_end
    }

    /// Whether the segment is internally consistent.
    pub open spec fn wf(self) -> bool {
        &&& self.source_start <= self.source_end
        &&& self.projected_start <= self.projected_end
        &&& self.kind == ProjectionKind::Identity ==> self.source_end - self.source_start
            == self.projected_end - self.projected_start
        &&& self.kind == ProjectionKind::Omitted ==> self.projected_start == self.projected_end
    }
}

/// The segments partition `0..source_len` and `0..projected_len` in order.
pub open spec fn segments_wf(segments: Seq<ProjectionSegment>, source_len: u32, projected_len: u32) -> bool {
    &&& forall|i: int| 0 <= i < segments.len() ==> (#[trigger] segments[i]).wf()
    &&& segments.len() == 0 ==> source_len == 0 && projected_len == 0
    &&& segments.len() > 0 ==> segments[0].source_start == 0 && segments[0].projected_start == 0
    &&& segments.len() > 0 ==> segments.last().source_end == source_len
        && segments.last().projected_end == projected_len
    &&& forall|i: int| 0 <= i < segments.len() - 1 ==> #[trigger] segments_linked(segments, i)
}

/// Segment `i` ends where segment `i + 1` starts, in both texts.
pub open spec fn segments_linked(segments: Seq<ProjectionSegment>, i: int) -> bool {
    segments[i].source_end == segments[i + 1].source_start && segments[i].projected_end
        == segments[i + 1].projected_start
}

/// Whether every segment is an identity relation.
pub open spec fn all_identity(segments: Seq<ProjectionSegment>) -> bool {
    forall|i: int| 0 <= i < segments.len() ==> (#[trigger] segments[i]).kind
        == ProjectionKind::Identity
}

/// Every segment lies inside both texts.
pub proof fn lemma_segment_bounds(segments: Seq<ProjectionSegment>, source_len: u32, projected_len: u32, i: int)
    requires
        segments_wf(segments, source_len, projected_len),
        0 <= i < segments.len(),
    ensures
        segments[i].source_end <= source_len,
        segments[i].projected_end <= projected_len,
    decreases segments.len() - i,
{
    if i < segments.len() - 1 {
        assert(segments_linked(segments, i));
        assert(segments[i + 1].wf());
        lemma_segment_bounds(segments, source_len, projected_len, i + 1);
    }
}

/// Identity segments preserve offsets, so an all-identity projection keeps the
/// text length.
pub proof fn lemma_identity_offsets(segments: Seq<ProjectionSegment>, source_len: u32, projected_len: u32, i: int)
    requires
        segments_wf(segments, source_len, projected_len),
        all_identity(segments),
        0 <= i < segments.len(),
    ensures
        segments[i].source_start == segments[i].projected_start,
        segments[i].source_end == segments[i].projected_end,
    decreases i,
{
    assert(segments[i].wf());
    if i > 0 {
        lemma_identity_offsets(segments, source_len, projected_len, i - 1);
        assert(segments_linked(segments, i - 1));
    }
}

/// An all-identity projection has equal source and projected lengths.
pub proof fn lemma_identity_lengths(segments: Seq<ProjectionSegment>, source_len: u32, projected_len: u32)
    requires
        segments_wf(segments, source_len, projected_len),
        all_identity(segments),
    ensures
        source_len == projected_len,
{
    if segments.len() > 0 {
        lemma_identity_offsets(segments, source_len, projected_len, segments.len() - 1);
    }
}

/// Validated relation between one paragraph's source and projected text.
#[derive(Debug)]
pub struct TextProjection {
    source_len: u32,
    projected_len: u32,
    segments: Vec<ProjectionSegment>,
}

impl TextProjection {
    /// Authored source length in UTF-8 bytes.
    pub closed spec fn source_len_spec(&self) -> u32 {
        self.source_len
    }

    /// Projected text length in UTF-8 bytes.
    pub closed spec fn projected_len_spec(&self) -> u32 {
        self.projected_len
    }

    /// Segments in order.
    pub closed spec fn segment_seq(&self) -> Seq<ProjectionSegment> {
        self.segments@
    }

    #[verifier::type_invariant]
    pub open spec fn inv(&self) -> bool {
        segments_wf(self.segment_seq(), self.source_len_spec(), self.projected_len_spec())
    }

    /// Validates a projection from its ordered segments.
    ///
    /// Returns `None` unless the segments partition both texts in order,
    /// identity segments keep their length, and omitted segments project to
    /// nothing.
    pub fn try_new(source_len: u32, projected_len: u32, segments: Vec<ProjectionSegment>) -> (
        projection: Option<Self>)
        ensures
            projection matches Some(p) ==> {
                &&& p.source_len_spec() == source_len
                &&& p.projected_len_spec() == projected_len
                &&& p.segment_seq() == segments@
            },
            projection is None ==> !segments_wf(segments@, source_len, projected_len),
    {
        let n = segments.len();
        if n == 0 {
            if source_len == 0 && projected_len == 0 {
                return Some(Self { source_len, projected_len, segments });
            }
            return None;
        }
        if segments[0].source_start != 0 || segments[0].projected_start != 0 {
            return None;
        }
        if segments[n - 1].source_end != source_len || segments[n - 1].projected_end
            != projected_len {
            return None;
        }
        let mut index: usize = 0;
        while index < n
            invariant
                0 <= index <= n,
                n == segments@.len(),
                forall|i: int| 0 <= i < index ==> (#[trigger] segments@[i]).wf(),
                forall|i: int| 0 <= i < index && i < n - 1 ==> #[trigger] segments_linked(segments@, i),
            decreases n - index,
        {
            let segment = &segments[index];
            if !(segment.source_start <= segment.source_end && segment.projected_start
                <= segment.projected_end) {
                return None;
            }
            match segment.kind {
                ProjectionKind::Identity => {
                    if segment.source_end - segment.source_start != segment.projected_end
                        - segment.projected_start {
                        return None;
                    }
                },
                ProjectionKind::Omitted => {
                    if segment.projected_start != segment.projected_end {
                        return None;
                    }
                },
                _ => {},
            }
            if index + 1 < n {
                let next = &segments[index + 1];
                if segment.source_end != next.source_start || segment.projected_end
                    != next.projected_start {
                    assert(!segments_linked(segments@, index as int));
                    return None;
                }
            }
            index += 1;
        }
        Some(Self { source_len, projected_len, segments })
    }

    /// Returns the authored source length.
    pub fn source_len(&self) -> (len: u32)
        ensures
            len == self.source_len_spec(),
    {
        self.source_len
    }

    /// Returns the projected text length.
    pub fn projected_len(&self) -> (len: u32)
        ensures
            len == self.projected_len_spec(),
    {
        self.projected_len
    }

    /// Returns the ordered segments.
    pub fn segments(&self) -> (segments: &[ProjectionSegment])
        ensures
            segments@ == self.segment_seq(),
            segments_wf(self.segment_seq(), self.source_len_spec(), self.projected_len_spec()),
    {
        proof {
            use_type_invariant(self);
        }
        self.segments.as_slice()
    }

    /// Returns whether the projected text equals the source text.
    pub fn is_identity(&self) -> (identity: bool)
        ensures
            identity == all_identity(self.segment_seq()),
    {
        let mut index: usize = 0;
        while index < self.segments.len()
            invariant
                0 <= index <= self.segments@.len(),
                forall|i: int| 0 <= i < index ==> (#[trigger] self.segments@[i]).kind
                    == ProjectionKind::Identity,
            decreases self.segments@.len() - index,
        {
            if self.segments[index].kind != ProjectionKind::Identity {
                return false;
            }
            index += 1;
        }
        true
    }
}

} // verus!
