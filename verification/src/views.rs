//! Borrowed, allocation-free views of scene provenance.
//!
//! A view keeps the paragraph source map and the scene revision; leaf-local
//! ranges are resolved lazily and stamped with the revision when observed.

use vstd::prelude::*;

use core::marker::PhantomData;

use crate::composition::{ProjectedTextRange, ProjectedTextSource};
use crate::geometry::{
    is_committed, materialize_projected_source, materialize_range, projected_source_spec,
    snapshot_range_spec,
};
use crate::ids::DocumentRevision;
use crate::selection::{SnapshotTextRange, SnapshotTextUnit};
use crate::source_map::{LocalRange, LocalRanges, ParagraphSourceMap, SourceReference, SourceSpan};

verus! {

/// Typed sequence of the leaf-local ranges of one source reference, consumed
/// from either end.
#[derive(Debug)]
pub struct TextSources<'a, T> {
    revision: DocumentRevision,
    ranges: LocalRanges<'a>,
    every: LocalRanges<'a>,
    source: PhantomData<T>,
}

impl<'a, T> Clone for TextSources<'a, T> {
    fn clone(&self) -> (sources: Self)
        ensures
            sources@ == self@,
            sources.spec_every() == self.spec_every(),
            sources.spec_revision() == self.spec_revision(),
    {
        TextSources { revision: self.revision, ranges: self.ranges, every: self.every, source: PhantomData }
    }
}

impl<'a, T> View for TextSources<'a, T> {
    type V = Seq<LocalRange>;

    closed spec fn view(&self) -> Seq<LocalRange> {
        self.ranges@
    }
}

impl<'a, T> TextSources<'a, T> {
    /// The revision stamped on every observed range.
    pub closed spec fn spec_revision(&self) -> DocumentRevision {
        self.revision
    }

    /// Every range of the source reference, whether consumed or not.
    pub closed spec fn spec_every(&self) -> Seq<LocalRange> {
        self.every@
    }

    /// Creates the sequence of one source reference's ranges.
    pub fn new(revision: DocumentRevision, map: &'a ParagraphSourceMap, source: SourceReference) -> (sources: Self)
        ensures
            sources@ == map.ranges_spec(source),
            sources.spec_every() == map.ranges_spec(source),
            sources.spec_revision() == revision,
    {
        let ranges = map.ranges(source);
        TextSources { revision, ranges, every: ranges, source: PhantomData }
    }

    /// Returns a fresh sequence over every range of the source reference,
    /// however far this one has been consumed.
    pub fn iter(&self) -> (sources: Self)
        ensures
            sources@ == self.spec_every(),
            sources.spec_every() == self.spec_every(),
            sources.spec_revision() == self.spec_revision(),
    {
        TextSources { revision: self.revision, ranges: self.every, every: self.every, source: PhantomData }
    }

    /// Returns how many ranges remain.
    pub fn len(&self) -> (len: usize)
        ensures
            len == self@.len(),
    {
        self.ranges.len()
    }
}

/// Committed ranges stamped with a scene revision.
pub type SnapshotSources<'a> = TextSources<'a, SnapshotTextRange>;

/// Authored and generated ranges stamped with a scene revision.
pub type ProjectedSources<'a> = TextSources<'a, ProjectedTextSource>;

/// Every remaining range is committed text.
pub open spec fn all_snapshot(ranges: Seq<LocalRange>) -> bool {
    forall|i: int| 0 <= i < ranges.len() ==> (#[trigger] ranges[i]) is Snapshot
}

impl<'a> TextSources<'a, SnapshotTextRange> {
    /// Removes and returns the first remaining committed range.
    pub fn next(&mut self) -> (range: Option<SnapshotTextRange>)
        requires
            all_snapshot(old(self)@),
        ensures
            final(self).spec_revision() == old(self).spec_revision(),
            final(self).spec_every() == old(self).spec_every(),
            old(self)@.len() == 0 ==> range is None && final(self)@ == old(self)@,
            old(self)@.len() > 0 ==> range == Some(snapshot_range_spec(old(self)@[0], old(self).spec_revision()))
                && final(self)@ == old(self)@.drop_first(),
    {
        match self.ranges.next() {
            Some(range) => Some(materialize_range(range, self.revision)),
            None => None,
        }
    }

    /// Removes and returns the last remaining committed range.
    pub fn next_back(&mut self) -> (range: Option<SnapshotTextRange>)
        requires
            all_snapshot(old(self)@),
        ensures
            final(self).spec_revision() == old(self).spec_revision(),
            final(self).spec_every() == old(self).spec_every(),
            old(self)@.len() == 0 ==> range is None && final(self)@ == old(self)@,
            old(self)@.len() > 0 ==> range == Some(snapshot_range_spec(old(self)@.last(), old(self).spec_revision()))
                && final(self)@ == old(self)@.drop_last(),
    {
        match self.ranges.next_back() {
            Some(range) => Some(materialize_range(range, self.revision)),
            None => None,
        }
    }
}

impl<'a> TextSources<'a, ProjectedTextSource> {
    /// Removes and returns the first remaining source slice.
    pub fn next(&mut self) -> (range: Option<ProjectedTextSource>)
        ensures
            final(self).spec_revision() == old(self).spec_revision(),
            final(self).spec_every() == old(self).spec_every(),
            old(self)@.len() == 0 ==> range is None && final(self)@ == old(self)@,
            old(self)@.len() > 0 ==> range == Some(projected_source_spec(old(self)@[0], old(self).spec_revision()))
                && final(self)@ == old(self)@.drop_first(),
    {
        match self.ranges.next() {
            Some(range) => Some(materialize_projected_source(range, self.revision)),
            None => None,
        }
    }

    /// Removes and returns the last remaining source slice.
    pub fn next_back(&mut self) -> (range: Option<ProjectedTextSource>)
        ensures
            final(self).spec_revision() == old(self).spec_revision(),
            final(self).spec_every() == old(self).spec_every(),
            old(self)@.len() == 0 ==> range is None && final(self)@ == old(self)@,
            old(self)@.len() > 0 ==> range == Some(projected_source_spec(old(self)@.last(), old(self).spec_revision()))
                && final(self)@ == old(self)@.drop_last(),
    {
        match self.ranges.next_back() {
            Some(range) => Some(materialize_projected_source(range, self.revision)),
            None => None,
        }
    }
}

/// Borrowed source-complete interaction unit.
///
/// The view retains no per-hit allocation; its sources resolve the paragraph
/// relation map lazily.
#[derive(Debug)]
pub struct TextUnitView<'a, T> {
    revision: DocumentRevision,
    source_map: &'a ParagraphSourceMap,
    source: SourceSpan,
    output: PhantomData<T>,
}

impl<T> Copy for TextUnitView<'_, T> {}

impl<'a, T> Clone for TextUnitView<'a, T> {
    fn clone(&self) -> (view: Self)
        ensures
            view == *self,
    {
        *self
    }
}

impl<'a, T> TextUnitView<'a, T> {
    /// The scene revision of the view.
    pub closed spec fn spec_revision(&self) -> DocumentRevision {
        self.revision
    }

    /// The paragraph source map the view reads.
    pub closed spec fn spec_source_map(&self) -> &'a ParagraphSourceMap {
        self.source_map
    }

    /// The projected span of the interaction unit.
    pub closed spec fn spec_source(&self) -> SourceSpan {
        self.source
    }

    /// Creates a view of one projected span.
    pub fn new(revision: DocumentRevision, source_map: &'a ParagraphSourceMap, source: SourceSpan) -> (view: Self)
        ensures
            view.spec_revision() == revision,
            view.spec_source_map() == source_map,
            view.spec_source() == source,
    {
        TextUnitView { revision, source_map, source, output: PhantomData }
    }
}

/// Borrowed interaction unit in one immutable snapshot.
pub type SnapshotTextUnitView<'a> = TextUnitView<'a, SnapshotTextRange>;

/// Borrowed interaction unit in a composition scene.
pub type ProjectedTextUnitView<'a> = TextUnitView<'a, ProjectedTextSource>;

impl<'a> TextUnitView<'a, SnapshotTextRange> {
    /// Iterates every ordered leaf-local source range without allocating.
    pub fn sources(self) -> (sources: SnapshotSources<'a>)
        requires
            is_committed(self.spec_source_map()),
        ensures
            sources@ == self.spec_source_map().ranges_for_span_spec(self.spec_source()),
            sources.spec_every() == sources@,
            all_snapshot(sources@),
            sources.spec_revision() == self.spec_revision(),
    {
        proof {
            use_type_invariant(self.source_map);
            crate::source_map::lemma_ranges_committed(self.source_map, self.source);
        }
        TextSources::new(self.revision, self.source_map, SourceReference::Projected(self.source))
    }

    /// Materializes an owned interaction unit for storage beyond the scene.
    pub fn to_owned(self) -> (unit: SnapshotTextUnit)
        requires
            is_committed(self.spec_source_map()),
        ensures
            unit@ == self.spec_source_map().ranges_for_span_spec(self.spec_source()).map_values(
                |range: LocalRange| snapshot_range_spec(range, self.spec_revision()),
            ),
    {
        let mut sources = self.sources();
        let ghost all = sources@;
        let mut collected: Vec<SnapshotTextRange> = Vec::new();
        while sources.len() > 0
            invariant
                all == self.spec_source_map().ranges_for_span_spec(self.spec_source()),
                all_snapshot(all),
                sources.spec_revision() == self.spec_revision(),
                all.len() == collected@.len() + sources@.len(),
                sources@ == all.subrange(collected@.len() as int, all.len() as int),
                collected@ =~= all.subrange(0, collected@.len() as int).map_values(
                    |range: LocalRange| snapshot_range_spec(range, self.spec_revision()),
                ),
            decreases sources@.len(),
        {
            proof {
                assert forall|i: int| 0 <= i < sources@.len() implies (#[trigger] sources@[i]) is Snapshot by {
                    assert(sources@[i] == all[collected@.len() + i]);
                }
            }
            let range = sources.next().unwrap();
            collected.push(range);
            proof {
                assert(all.subrange(0, collected@.len() as int) =~= all.subrange(0, collected@.len() - 1).push(
                    all[collected@.len() - 1],
                ));
                assert(sources@ =~= all.subrange(collected@.len() as int, all.len() as int));
            }
        }
        SnapshotTextUnit::new(collected)
    }
}

impl<'a> TextUnitView<'a, ProjectedTextSource> {
    /// Iterates ordered authored and generated provenance without
    /// allocating.
    pub fn sources(self) -> (sources: ProjectedSources<'a>)
        ensures
            sources@ == self.spec_source_map().ranges_for_span_spec(self.spec_source()),
            sources.spec_every() == sources@,
            sources.spec_revision() == self.spec_revision(),
    {
        TextSources::new(self.revision, self.source_map, SourceReference::Projected(self.source))
    }

    /// Materializes an owned projected range for storage beyond the scene.
    pub fn to_owned(self) -> (range: ProjectedTextRange)
        ensures
            range@ == self.spec_source_map().ranges_for_span_spec(self.spec_source()).map_values(
                |r: LocalRange| projected_source_spec(r, self.spec_revision()),
            ),
    {
        let mut sources = self.sources();
        let ghost all = sources@;
        let mut collected: Vec<ProjectedTextSource> = Vec::new();
        while sources.len() > 0
            invariant
                all == self.spec_source_map().ranges_for_span_spec(self.spec_source()),
                sources.spec_revision() == self.spec_revision(),
                all.len() == collected@.len() + sources@.len(),
                sources@ == all.subrange(collected@.len() as int, all.len() as int),
                collected@ =~= all.subrange(0, collected@.len() as int).map_values(
                    |r: LocalRange| projected_source_spec(r, self.spec_revision()),
                ),
            decreases sources@.len(),
        {
            let range = sources.next().unwrap();
            collected.push(range);
            proof {
                assert(all.subrange(0, collected@.len() as int) =~= all.subrange(0, collected@.len() - 1).push(
                    all[collected@.len() - 1],
                ));
                assert(sources@ =~= all.subrange(collected@.len() as int, all.len() as int));
            }
        }
        ProjectedTextRange::new(collected)
    }
}

} // verus!
