//! Selection policy over revision-bound ranges: logical ordering keys,
//! overlap and conflict rules, canonical range sets, and independence of
//! multiple selections.

use vstd::prelude::*;

use crate::composition::{ProjectedTextRange, ProjectedTextSource};
use crate::error::{SelectionError, SelectionErrorKind};
use crate::ids::{DocumentRevision, TextId};
use crate::selection::{
    SnapshotTextPosition, SnapshotTextRange, SnapshotTextSelection, TextMovement, TextSelectionMode,
};
use crate::source_map::LocalRange;

verus! {

/// Document-order key of a leaf-local byte.
pub open spec fn logical_text_key_spec(text: TextId, byte: u32) -> (u32, u32, u32) {
    (text.paragraph, text.index, byte)
}

/// Returns the document-order key of a leaf-local byte.
pub fn logical_text_key(text: TextId, byte: u32) -> (key: (u32, u32, u32))
    ensures
        key == logical_text_key_spec(text, byte),
{
    (text.paragraph, text.index, byte)
}

/// Returns the document-order key of a position.
pub fn logical_position_key(position: &SnapshotTextPosition) -> (key: (u32, u32, u32))
    ensures
        key == logical_text_key_spec(position.text(), position.byte()),
{
    logical_text_key(position.text(), position.byte())
}

/// The selection interpretation a movement extends with.
pub open spec fn movement_mode_spec(movement: TextMovement) -> TextSelectionMode {
    match movement {
        TextMovement::PreviousVisual | TextMovement::NextVisual => TextSelectionMode::Visual,
        TextMovement::PreviousLogical | TextMovement::NextLogical => TextSelectionMode::Logical,
    }
}

/// Returns the selection interpretation a movement extends with.
pub fn movement_mode(movement: TextMovement) -> (mode: TextSelectionMode)
    ensures
        mode == movement_mode_spec(movement),
{
    match movement {
        TextMovement::PreviousVisual | TextMovement::NextVisual => TextSelectionMode::Visual,
        TextMovement::PreviousLogical | TextMovement::NextLogical => TextSelectionMode::Logical,
    }
}

/// Two ranges of the same leaf share at least one byte.
pub open spec fn ranges_overlap_spec(first: SnapshotTextRange, second: SnapshotTextRange) -> bool {
    first.text() == second.text() && first.start() < second.end() && second.start() < first.end()
}

/// Two ranges of the same leaf cannot belong to independent selections: they
/// share a byte, or a caret lies inside or at an edge of the other range, or
/// two carets coincide.
pub open spec fn ranges_conflict_spec(first: SnapshotTextRange, second: SnapshotTextRange) -> bool {
    let first_empty = !(first.start() < first.end());
    let second_empty = !(second.start() < second.end());
    first.text() == second.text() && if first_empty && second_empty {
        first.start() == second.start()
    } else if first_empty {
        second.start() <= first.start() && first.start() <= second.end()
    } else if second_empty {
        first.start() <= second.start() && second.start() <= first.end()
    } else {
        first.start() < second.end() && second.start() < first.end()
    }
}

/// Returns whether two ranges share at least one byte.
pub fn ranges_overlap(first: &SnapshotTextRange, second: &SnapshotTextRange) -> (overlap: bool)
    ensures
        overlap == ranges_overlap_spec(*first, *second),
{
    if first.text() != second.text() {
        return false;
    }
    let first = first.bytes();
    let second = second.bytes();
    first.start < second.end && second.start < first.end
}

/// Returns whether two ranges conflict between independent selections.
pub fn ranges_conflict(first: &SnapshotTextRange, second: &SnapshotTextRange) -> (conflict: bool)
    ensures
        conflict == ranges_conflict_spec(*first, *second),
{
    if first.text() != second.text() {
        return false;
    }
    let first_empty = first.is_empty();
    let second_empty = second.is_empty();
    let first = first.bytes();
    let second = second.bytes();
    if first_empty && second_empty {
        first.start == second.start
    } else if first_empty {
        second.start <= first.start && first.start <= second.end
    } else if second_empty {
        first.start <= second.start && second.start <= first.end
    } else {
        first.start < second.end && second.start < first.end
    }
}

/// Some range of `later` conflicts with some range of `earlier`.
pub open spec fn selections_conflict(earlier: SnapshotTextSelection, later: SnapshotTextSelection) -> bool {
    exists|a: int, b: int|
        0 <= a < later.range_seq().len() && 0 <= b < earlier.range_seq().len()
            && #[trigger] ranges_conflict_spec(later.range_seq()[a], earlier.range_seq()[b])
}

/// No two selections of the set conflict.
pub open spec fn independent_spec(selections: Seq<SnapshotTextSelection>) -> bool {
    forall|i: int, j: int|
        0 <= j < i < selections.len() ==> !selections_conflict(#[trigger] selections[j], #[trigger] selections[i])
}

/// Two selections conflict the same way whichever comes first.
proof fn lemma_selections_conflict_symmetric(x: SnapshotTextSelection, y: SnapshotTextSelection)
    ensures
        selections_conflict(x, y) == selections_conflict(y, x),
{
    if selections_conflict(x, y) {
        let (a, b) = choose|a: int, b: int|
            0 <= a < y.range_seq().len() && 0 <= b < x.range_seq().len()
                && #[trigger] ranges_conflict_spec(y.range_seq()[a], x.range_seq()[b]);
        lemma_ranges_conflict_symmetric(y.range_seq()[a], x.range_seq()[b]);
        assert(ranges_conflict_spec(x.range_seq()[b], y.range_seq()[a]));
    }
    if selections_conflict(y, x) {
        let (a, b) = choose|a: int, b: int|
            0 <= a < x.range_seq().len() && 0 <= b < y.range_seq().len()
                && #[trigger] ranges_conflict_spec(x.range_seq()[a], y.range_seq()[b]);
        lemma_ranges_conflict_symmetric(x.range_seq()[a], y.range_seq()[b]);
        assert(ranges_conflict_spec(y.range_seq()[b], x.range_seq()[a]));
    }
}

/// A set of selections is independent exactly when no selection conflicts
/// with any other one of the set, in either order, wherever the two stand.
pub proof fn lemma_independent_means_no_pair_conflicts(selections: Seq<SnapshotTextSelection>)
    ensures
        independent_spec(selections) <==> forall|i: int, j: int|
            0 <= i < selections.len() && 0 <= j < selections.len() && i != j ==> !selections_conflict(
                #[trigger] selections[i],
                #[trigger] selections[j],
            ),
{
    if independent_spec(selections) {
        assert forall|i: int, j: int|
            0 <= i < selections.len() && 0 <= j < selections.len() && i != j implies !selections_conflict(
                #[trigger] selections[i],
                #[trigger] selections[j],
            ) by {
            lemma_selections_conflict_symmetric(selections[i], selections[j]);
            if j < i {
                assert(!selections_conflict(selections[j], selections[i]));
            } else {
                assert(!selections_conflict(selections[i], selections[j]));
            }
        }
    }
}

/// Checks that independent selections neither overlap nor share a caret.
#[verifier::loop_isolation(false)]
pub fn validate_independent_selections(selections: &[SnapshotTextSelection]) -> (result: Result<
    (),
    SelectionError,
>)
    ensures
        result is Ok <==> independent_spec(selections@),
        result matches Err(e) ==> e.kind() == SelectionErrorKind::OverlappingSelections,
{
    let mut index: usize = 0;
    while index < selections.len()
        invariant
            0 <= index <= selections@.len(),
            forall|i: int, j: int|
                0 <= j < i < index ==> !selections_conflict(#[trigger] selections@[j], #[trigger] selections@[i]),
        decreases selections@.len() - index,
    {
        let selection = &selections[index];
        let mut other_index: usize = 0;
        while other_index < index
            invariant
                0 <= other_index <= index < selections@.len(),
                *selection == selections@[index as int],
                forall|i: int, j: int|
                    0 <= j < i < index ==> !selections_conflict(#[trigger] selections@[j], #[trigger] selections@[i]),
                forall|j: int| 0 <= j < other_index ==> !selections_conflict(#[trigger] selections@[j], *selection),
            decreases index - other_index,
        {
            let other = &selections[other_index];
            let ranges = selection.ranges();
            let other_ranges = other.ranges();
            let mut a: usize = 0;
            while a < ranges.len()
                invariant
                    0 <= a <= ranges@.len(),
                    ranges@ == selection.range_seq(),
                    other_ranges@ == other.range_seq(),
                    forall|x: int, y: int|
                        0 <= x < a && 0 <= y < other_ranges@.len() ==> !ranges_conflict_spec(
                            #[trigger] ranges@[x],
                            #[trigger] other_ranges@[y],
                        ),
                decreases ranges@.len() - a,
            {
                let mut b: usize = 0;
                while b < other_ranges.len()
                    invariant
                        0 <= a < ranges@.len(),
                        0 <= b <= other_ranges@.len(),
                        forall|x: int, y: int|
                            0 <= x < a && 0 <= y < other_ranges@.len() ==> !ranges_conflict_spec(
                                #[trigger] ranges@[x],
                                #[trigger] other_ranges@[y],
                            ),
                        forall|y: int| 0 <= y < b ==> !ranges_conflict_spec(ranges@[a as int], #[trigger] other_ranges@[y]),
                    decreases other_ranges@.len() - b,
                {
                    if ranges_conflict(&ranges[a], &other_ranges[b]) {
                        proof {
                            assert(ranges_conflict_spec(ranges@[a as int], other_ranges@[b as int]));
                            assert(selections_conflict(selections@[other_index as int], selections@[index as int]));
                        }
                        return Err(SelectionError::new(SelectionErrorKind::OverlappingSelections));
                    }
                    b += 1;
                }
                a += 1;
            }
            other_index += 1;
        }
        index += 1;
    }
    Ok(())
}

/// A leaf-local range shares a byte with one source of a projected range in
/// the same revision or composition epoch.
pub open spec fn local_overlaps_source(local: LocalRange, source: ProjectedTextSource, revision: DocumentRevision) -> bool {
    match (local, source) {
        (LocalRange::Snapshot { text, bytes }, ProjectedTextSource::Snapshot(projected)) => projected.revision()
            == revision && projected.text() == text && bytes.start < projected.end() && projected.start()
            < bytes.end,
        (LocalRange::Composition { id, epoch, bytes }, ProjectedTextSource::Composition(projected)) => projected.id()
            == id && projected.epoch() == epoch && bytes.start < projected.end() && projected.start()
            < bytes.end,
        _ => false,
    }
}

/// Returns whether a leaf-local range overlaps any source of a projected range.
pub fn local_range_overlaps_projected(
    local: &LocalRange,
    projected: &ProjectedTextRange,
    revision: DocumentRevision,
) -> (overlap: bool)
    ensures
        overlap == exists|i: int|
            0 <= i < projected@.len() && local_overlaps_source(*local, #[trigger] projected@[i], revision),
{
    let sources = projected.sources();
    let mut index: usize = 0;
    while index < sources.len()
        invariant
            0 <= index <= sources@.len(),
            sources@ == projected@,
            forall|i: int| 0 <= i < index ==> !local_overlaps_source(*local, #[trigger] sources@[i], revision),
        decreases sources@.len() - index,
    {
        let hit = match (local, &sources[index]) {
            (LocalRange::Snapshot { text, bytes }, ProjectedTextSource::Snapshot(source)) => {
                let range = source.bytes();
                source.revision() == revision && source.text() == *text && bytes.start < range.end
                    && range.start < bytes.end
            },
            (LocalRange::Composition { id, epoch, bytes }, ProjectedTextSource::Composition(source)) => {
                let range = source.bytes();
                source.id() == *id && source.epoch() == *epoch && bytes.start < range.end && range.start
                    < bytes.end
            },
            _ => false,
        };
        if hit {
            return true;
        }
        index += 1;
    }
    false
}

/// Conflict between ranges is symmetric, so checking each pair once in
/// either order decides independence.
pub proof fn lemma_ranges_conflict_symmetric(first: SnapshotTextRange, second: SnapshotTextRange)
    ensures
        ranges_conflict_spec(first, second) == ranges_conflict_spec(second, first),
        ranges_overlap_spec(first, second) == ranges_overlap_spec(second, first),
{
}

/// Overlapping ranges conflict.
pub proof fn lemma_overlap_conflicts(first: SnapshotTextRange, second: SnapshotTextRange)
    requires
        ranges_overlap_spec(first, second),
    ensures
        ranges_conflict_spec(first, second),
{
}

/// No two leaves of a scene hold the same text.
pub open spec fn distinct_texts(texts: Seq<SnapshotTextRange>) -> bool {
    forall|i: int, j: int| 0 <= i < texts.len() && 0 <= j < texts.len() && i != j ==> (#[trigger] texts[i]).text() != (#[trigger] texts[j]).text()
}

/// The rank of `text` among the scene's leaves, if it is one of them.
pub open spec fn text_rank_spec(texts: Seq<SnapshotTextRange>, text: TextId) -> Option<int> {
    if exists|i: int| 0 <= i < texts.len() && (#[trigger] texts[i]).text() == text {
        Some(choose|i: int| 0 <= i < texts.len() && (#[trigger] texts[i]).text() == text)
    } else {
        None
    }
}

/// The part of leaf `index` that a selection from `start` (in leaf rank
/// `first`) to `end` (in leaf rank `last`) covers: from the start position
/// to the end position within one leaf; from the start position to the leaf
/// end in the first leaf; from the leaf start to the end position in the
/// last; the whole leaf between them.
pub open spec fn covered_part(
    revision: DocumentRevision,
    texts: Seq<SnapshotTextRange>,
    start: SnapshotTextPosition,
    first: int,
    end: SnapshotTextPosition,
    last: int,
    index: int,
) -> SnapshotTextRange {
    let leaf = texts[index];
    let bytes = if first == last {
        start.byte()..end.byte()
    } else if index == first {
        start.byte()..leaf.end()
    } else if index == last {
        0..end.byte()
    } else {
        leaf.start()..leaf.end()
    };
    SnapshotTextRange::new_spec(revision, leaf.text(), bytes)
}

/// The nonempty covered parts of the leaves from rank `first` up to, not
/// including, `upto`, in leaf order.
pub open spec fn covered_parts(
    revision: DocumentRevision,
    texts: Seq<SnapshotTextRange>,
    start: SnapshotTextPosition,
    first: int,
    end: SnapshotTextPosition,
    last: int,
    upto: int,
) -> Seq<SnapshotTextRange>
    decreases upto - first,
{
    if upto <= first {
        Seq::empty()
    } else {
        let before = covered_parts(revision, texts, start, first, end, last, upto - 1);
        let part = covered_part(revision, texts, start, first, end, last, upto - 1);
        if part.start() < part.end() {
            before.push(part)
        } else {
            before
        }
    }
}

/// The ranges a logical selection between two positions covers: the
/// nonempty part of every leaf from the earlier position to the later one,
/// in leaf order; a collapsed caret at the extent when the positions
/// coincide or nothing is covered. A position outside the scene's leaves
/// is unknown.
pub open spec fn logical_ranges_spec(
    revision: DocumentRevision,
    texts: Seq<SnapshotTextRange>,
    anchor: SnapshotTextPosition,
    extent: SnapshotTextPosition,
) -> Option<Seq<SnapshotTextRange>> {
    match (text_rank_spec(texts, anchor.text()), text_rank_spec(texts, extent.text())) {
        (Some(a), Some(e)) => {
            let reversed = a > e || (a == e && anchor.byte() > extent.byte());
            let (start, first, end, last) = if reversed {
                (extent, e, anchor, a)
            } else {
                (anchor, a, extent, e)
            };
            let caret = SnapshotTextRange::new_spec(revision, extent.text(), extent.byte()..extent.byte());
            let parts = covered_parts(revision, texts, start, first, end, last, last + 1);
            if (first == last && start.byte() == end.byte()) || parts.len() == 0 {
                Some(seq![caret])
            } else {
                Some(parts)
            }
        },
        _ => None,
    }
}

fn text_rank(texts: &[SnapshotTextRange], text: TextId) -> (rank: Option<usize>)
    requires
        distinct_texts(texts@),
    ensures
        match rank {
            Some(r) => text_rank_spec(texts@, text) == Some(r as int),
            None => text_rank_spec(texts@, text) is None,
        },
{
    let mut i: usize = 0;
    while i < texts.len()
        invariant
            i <= texts@.len(),
            distinct_texts(texts@),
            forall|k: int| 0 <= k < i ==> (#[trigger] texts@[k]).text() != text,
        decreases texts@.len() - i,
    {
        if texts[i].text() == text {
            proof {
                assert(texts@[i as int].text() == text);
                let c = choose|k: int| 0 <= k < texts@.len() && (#[trigger] texts@[k]).text() == text;
                if c != i as int {
                    assert(texts@[c].text() != texts@[i as int].text());
                }
            }
            return Some(i);
        }
        i += 1;
    }
    None
}

/// Returns the ranges a logical selection between `anchor` and `extent`
/// covers over the scene's leaves, `texts` holding each leaf's committed
/// range in leaf order: the nonempty part of every leaf from the earlier
/// position to the later one, or a collapsed caret at the extent when the
/// positions coincide or nothing is covered. A position outside the
/// leaves is an unknown position.
pub fn logical_ranges(
    revision: DocumentRevision,
    texts: &[SnapshotTextRange],
    anchor: SnapshotTextPosition,
    extent: SnapshotTextPosition,
) -> (ranges: Result<Vec<SnapshotTextRange>, SelectionError>)
    requires
        distinct_texts(texts@),
    ensures
        match (ranges, logical_ranges_spec(revision, texts@, anchor, extent)) {
            (Ok(v), Some(expected)) => v@ == expected,
            (Err(e), None) => e.kind() == SelectionErrorKind::UnknownPosition,
            _ => false,
        },
{
    let a = match text_rank(texts, anchor.text()) {
        Some(a) => a,
        None => {
            return Err(SelectionError::new(SelectionErrorKind::UnknownPosition));
        },
    };
    let e = match text_rank(texts, extent.text()) {
        Some(e) => e,
        None => {
            return Err(SelectionError::new(SelectionErrorKind::UnknownPosition));
        },
    };
    let reversed = a > e || (a == e && anchor.byte() > extent.byte());
    let (start, first, end, last) = if reversed {
        (extent, e, anchor, a)
    } else {
        (anchor, a, extent, e)
    };
    let caret = SnapshotTextRange::new(revision, extent.text(), extent.byte()..extent.byte());
    if first == last && start.byte() == end.byte() {
        return Ok(vec![caret]);
    }
    let ghost t = texts@;
    let mut ranges: Vec<SnapshotTextRange> = Vec::new();
    let mut index: usize = first;
    while index <= last
        invariant
            t == texts@,
            first <= index <= last + 1,
            last < t.len(),
            ranges@ == covered_parts(revision, t, start, first as int, end, last as int, index as int),
        decreases last + 1 - index,
    {
        let leaf = &texts[index];
        let bytes = if first == last {
            start.byte()..end.byte()
        } else if index == first {
            start.byte()..leaf.bytes().end
        } else if index == last {
            0..end.byte()
        } else {
            leaf.bytes()
        };
        let (from, to) = (bytes.start, bytes.end);
        let part = SnapshotTextRange::new(revision, leaf.text(), bytes);
        proof {
            assert(part == covered_part(revision, t, start, first as int, end, last as int, index as int));
        }
        if from < to {
            ranges.push(part);
        }
        index += 1;
    }
    if ranges.len() == 0 {
        return Ok(vec![caret]);
    }
    Ok(ranges)
}

} // verus!
