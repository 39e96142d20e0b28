//! Optional retained sidecars and source-aware materialization of scene
//! observations.
//!
//! Retained geometry keeps compact projected spans and positions; these
//! functions stamp them with a scene revision and resolve them to leaf-local
//! provenance only when a caller observes them.

use vstd::prelude::*;
use vstd::string::StringSliceAdditionalSpecFns;

use crate::composition::{
    CompositionTextPosition, CompositionTextRange, ProjectedTextPosition, ProjectedTextSource,
};
use crate::adapter::{PreparedClusterSide, PreparedParagraphFacts};
use crate::cursor::DerivedCursorStep;
use crate::ids::TextAffinity;
use crate::ids::{DocumentRevision, ParagraphId};
use crate::selection::{SnapshotTextPosition, SnapshotTextRange, SnapshotTextUnit};
use crate::shared::share;
use crate::source_map::{
    LocalPosition, LocalRange, ParagraphSourceMap, SourcePosition, SourceReference, SourceSpan,
};

verus! {

/// Optional retained table of per-record facts.
///
/// A sidecar that was not requested retains nothing and reads as empty.
#[derive(Debug)]
pub struct CachedSidecar<T> {
    records: Option<std::sync::Arc<Vec<T>>>,
}

impl<T> CachedSidecar<T> {
    /// The retained records, if any.
    pub closed spec fn retained(&self) -> Option<Seq<T>> {
        match self.records {
            Some(records) => Some((*records)@),
            None => None,
        }
    }

    /// Creates a sidecar that retains `records` only when `retain` is set.
    ///
    /// A discarded sidecar must not have been built.
    pub fn new(retain: bool, records: Vec<T>) -> (sidecar: Self)
        requires
            retain || records@.len() == 0,
        ensures
            sidecar.retained() == if retain {
                Some(records@)
            } else {
                None::<Seq<T>>
            },
    {
        if retain {
            Self { records: Some(std::sync::Arc::new(records)) }
        } else {
            Self { records: None }
        }
    }

    /// Creates a sidecar that retains `records`.
    pub fn from_records(records: Vec<T>) -> (sidecar: Self)
        ensures
            sidecar.retained() == Some(records@),
    {
        Self { records: Some(std::sync::Arc::new(records)) }
    }

    /// Returns the allocated record capacity, zero when nothing is retained.
    pub fn capacity(&self) -> (capacity: usize)
        ensures
            self.retained() is None ==> capacity == 0,
            self.retained() matches Some(records) ==> capacity >= records.len(),
    {
        match &self.records {
            Some(records) => crate::accounting::vec_capacity(&**records),
            None => 0,
        }
    }

    /// Shares another sidecar's records when this one retains none.
    pub fn retain_from(&mut self, retained: &Self)
        ensures
            old(self).retained() is None ==> final(self).retained() == retained.retained(),
            old(self).retained() is Some ==> final(self).retained() == old(self).retained(),
    {
        if self.records.is_none() {
            self.records = match &retained.records {
                Some(records) => Some(share(records)),
                None => None,
            };
        }
    }

    /// Returns the retained records, or an empty slice.
    pub fn as_slice(&self) -> (records: &[T])
        ensures
            records@ == match self.retained() {
                Some(r) => r,
                None => Seq::<T>::empty(),
            },
    {
        match &self.records {
            Some(records) => (&**records).as_slice(),
            None => &[],
        }
    }
}

// ---------------------------------------------------------------------------
// Fragment identity.
// ---------------------------------------------------------------------------

/// FNV-1a offset basis.
pub open spec fn fnv_offset() -> u64 {
    0xcbf2_9ce4_8422_2325u64
}

/// FNV-1a prime.
pub open spec fn fnv_prime() -> u64 {
    0x0000_0100_0000_01b3u64
}

/// One FNV-1a step.
pub open spec fn fnv_step(hash: u64, byte: u8) -> u64 {
    vstd::wrapping::u64_specs::wrapping_mul(hash ^ (byte as u64), fnv_prime())
}

/// FNV-1a of `bytes` continuing from `hash`.
pub open spec fn fnv_fold(hash: u64, bytes: Seq<u8>) -> u64
    decreases bytes.len(),
{
    if bytes.len() == 0 {
        hash
    } else {
        fnv_fold(fnv_step(hash, bytes[0]), bytes.drop_first())
    }
}

/// The `count` little-endian bytes of `value`.
pub open spec fn le_bytes(value: u64, count: nat) -> Seq<u8> {
    Seq::new(count, |k: int| ((value >> ((8 * k) as u64)) & 0xff) as u8)
}

proof fn lemma_fnv_fold_push(hash: u64, bytes: Seq<u8>, byte: u8)
    ensures
        fnv_fold(hash, bytes.push(byte)) == fnv_step(fnv_fold(hash, bytes), byte),
    decreases bytes.len(),
{
    if bytes.len() > 0 {
        assert(bytes.push(byte).drop_first() =~= bytes.drop_first().push(byte));
        lemma_fnv_fold_push(fnv_step(hash, bytes[0]), bytes.drop_first(), byte);
    } else {
        assert(bytes.push(byte).drop_first() =~= Seq::<u8>::empty());
        assert(fnv_fold(fnv_step(hash, byte), Seq::<u8>::empty()) == fnv_step(hash, byte));
    }
}

proof fn lemma_fnv_fold_append(hash: u64, a: Seq<u8>, b: Seq<u8>)
    ensures
        fnv_fold(hash, a + b) == fnv_fold(fnv_fold(hash, a), b),
    decreases a.len(),
{
    if a.len() > 0 {
        assert((a + b).drop_first() =~= a.drop_first() + b);
        lemma_fnv_fold_append(fnv_step(hash, a[0]), a.drop_first(), b);
    } else {
        assert(a + b =~= b);
    }
}

/// Continues an FNV-1a hash over the `count` little-endian bytes of `value`.
fn fnv_le(hash: u64, value: u64, count: usize) -> (result: u64)
    requires
        count <= 8,
    ensures
        result == fnv_fold(hash, le_bytes(value, count as nat)),
{
    let mut result = hash;
    let mut k: usize = 0;
    while k < count
        invariant
            0 <= k <= count <= 8,
            result == fnv_fold(hash, le_bytes(value, k as nat)),
        decreases count - k,
    {
        let byte = ((value >> (8 * (k as u64))) & 0xff) as u8;
        proof {
            assert(le_bytes(value, (k + 1) as nat) =~= le_bytes(value, k as nat).push(byte));
            lemma_fnv_fold_push(hash, le_bytes(value, k as nat), byte);
        }
        result = (result ^ (byte as u64)).wrapping_mul(0x0000_0100_0000_01b3);
        k += 1;
    }
    result
}

/// Stable identity of one paragraph fragment: FNV-1a over the document bytes,
/// the little-endian paragraph index, and the little-endian fragment index.
pub fn fragment_identity(paragraph: ParagraphId, fragment: usize) -> (identity: u64)
    ensures
        identity == fnv_fold(
            fnv_offset(),
            paragraph.document.bytes_spec() + le_bytes(paragraph.index as u64, 4) + le_bytes(
                fragment as u64,
                8,
            ),
        ),
{
    let bytes = paragraph.document.opaque_bytes();
    let mut identity: u64 = 0xcbf2_9ce4_8422_2325;
    let mut index: usize = 0;
    while index < 16
        invariant
            0 <= index <= 16,
            bytes@.len() == 16,
            identity == fnv_fold(fnv_offset(), bytes@.subrange(0, index as int)),
        decreases 16 - index,
    {
        proof {
            assert(bytes@.subrange(0, index + 1) =~= bytes@.subrange(0, index as int).push(
                bytes@[index as int],
            ));
            lemma_fnv_fold_push(fnv_offset(), bytes@.subrange(0, index as int), bytes@[index as int]);
        }
        identity = (identity ^ (bytes[index] as u64)).wrapping_mul(0x0000_0100_0000_01b3);
        index += 1;
    }
    assert(bytes@.subrange(0, 16) =~= bytes@);
    let identity = fnv_le(identity, paragraph.index as u64, 4);
    let identity = fnv_le(identity, fragment as u64, 8);
    proof {
        let d = paragraph.document.bytes_spec();
        lemma_fnv_fold_append(fnv_offset(), d, le_bytes(paragraph.index as u64, 4));
        lemma_fnv_fold_append(
            fnv_offset(),
            d + le_bytes(paragraph.index as u64, 4),
            le_bytes(fragment as u64, 8),
        );
    }
    identity
}

/// FNV-1a fingerprint of a text's UTF-8 bytes, used to bucket shared
/// preparation by projected text.
pub fn text_fingerprint(text: &str) -> (fingerprint: u64)
    ensures
        fingerprint == fnv_fold(fnv_offset(), text.spec_bytes()),
{
    let bytes = text.as_bytes();
    let mut hash: u64 = 0xcbf2_9ce4_8422_2325;
    let mut index: usize = 0;
    while index < bytes.len()
        invariant
            index <= bytes@.len(),
            bytes@ == text.spec_bytes(),
            hash == fnv_fold(fnv_offset(), bytes@.subrange(0, index as int)),
        decreases bytes@.len() - index,
    {
        proof {
            assert(bytes@.subrange(0, index + 1) =~= bytes@.subrange(0, index as int).push(
                bytes@[index as int],
            ));
            lemma_fnv_fold_push(fnv_offset(), bytes@.subrange(0, index as int), bytes@[index as int]);
        }
        hash = (hash ^ (bytes[index] as u64)).wrapping_mul(0x0000_0100_0000_01b3);
        index += 1;
    }
    assert(bytes@.subrange(0, bytes@.len() as int) =~= bytes@);
    hash
}

// ---------------------------------------------------------------------------
// Materialization.
// ---------------------------------------------------------------------------

/// One cursor movement observed in a committed scene.
#[derive(Clone, Debug, PartialEq, Eq)]
pub struct SceneCursorStep {
    /// Caret stop reached.
    pub target: SnapshotTextPosition,
    /// Interaction unit crossed, if any.
    pub source: Option<SnapshotTextUnit>,
}

/// A committed-scene range of a leaf-local range.
pub open spec fn snapshot_range_spec(range: LocalRange, revision: DocumentRevision) -> SnapshotTextRange
    recommends
        range is Snapshot,
{
    match range {
        LocalRange::Snapshot { text, bytes } => SnapshotTextRange::new_spec(revision, text, bytes),
        LocalRange::Composition { bytes, .. } => SnapshotTextRange::new_spec(
            revision,
            arbitrary(),
            bytes,
        ),
    }
}

/// A transient-scene source of a leaf-local range.
pub open spec fn projected_source_spec(range: LocalRange, revision: DocumentRevision) -> ProjectedTextSource {
    match range {
        LocalRange::Snapshot { text, bytes } => ProjectedTextSource::Snapshot(
            SnapshotTextRange::new_spec(revision, text, bytes),
        ),
        LocalRange::Composition { id, epoch, bytes } => ProjectedTextSource::Composition(
            CompositionTextRange::new_spec(id, epoch, bytes),
        ),
    }
}

/// Stamps a leaf-local range with a scene revision.
pub fn materialize_projected_source(range: LocalRange, revision: DocumentRevision) -> (source:
    ProjectedTextSource)
    ensures
        source == projected_source_spec(range, revision),
{
    match range {
        LocalRange::Snapshot { text, bytes } => ProjectedTextSource::Snapshot(
            SnapshotTextRange::new(revision, text, bytes),
        ),
        LocalRange::Composition { id, epoch, bytes } => ProjectedTextSource::Composition(
            CompositionTextRange::new(id, epoch, bytes),
        ),
    }
}

/// Stamps a committed leaf-local range with a scene revision.
pub fn materialize_range(range: LocalRange, revision: DocumentRevision) -> (snapshot: SnapshotTextRange)
    requires
        range is Snapshot,
    ensures
        snapshot == snapshot_range_spec(range, revision),
{
    match range {
        LocalRange::Snapshot { text, bytes } => SnapshotTextRange::new(revision, text, bytes),
        LocalRange::Composition { .. } => vstd::pervasive::unreached(),
    }
}

/// The transient-scene position of a leaf-local position.
pub open spec fn projected_position_spec(local: LocalPosition, revision: DocumentRevision) -> ProjectedTextPosition {
    match local {
        LocalPosition::Snapshot { text, byte, affinity } => ProjectedTextPosition::Snapshot(
            SnapshotTextPosition::new_spec(revision, text, byte, affinity),
        ),
        LocalPosition::Composition { id, epoch, byte, affinity } => ProjectedTextPosition::Composition(
            CompositionTextPosition::new_spec(id, epoch, byte, affinity),
        ),
    }
}

/// Materializes a retained projected position in a transient scene.
pub fn projected_position(
    source_map: &ParagraphSourceMap,
    position: SourcePosition,
    revision: DocumentRevision,
) -> (projected: ProjectedTextPosition)
    requires
        source_map.leaf_seq().len() > 0,
        position.offset <= source_map.projected_len_spec(),
    ensures
        projected == projected_position_spec(source_map.materialize_position_spec(position), revision),
{
    match source_map.materialize_position(position) {
        LocalPosition::Snapshot { text, byte, affinity } => ProjectedTextPosition::Snapshot(
            SnapshotTextPosition::new(revision, text, byte, affinity),
        ),
        LocalPosition::Composition { id, epoch, byte, affinity } => ProjectedTextPosition::Composition(
            CompositionTextPosition::new(id, epoch, byte, affinity),
        ),
    }
}

/// Materializes a reference that denotes exactly one committed range.
pub fn materialize_optional_snapshot_range(
    source_map: &ParagraphSourceMap,
    reference: SourceReference,
    revision: DocumentRevision,
) -> (range: Option<SnapshotTextRange>)
    ensures
        ({
            let ranges = source_map.ranges_spec(reference);
            range == if ranges.len() == 1 && ranges[0] is Snapshot {
                Some(snapshot_range_spec(ranges[0], revision))
            } else {
                None
            }
        }),
{
    let mut ranges = source_map.ranges(reference);
    let first = match ranges.next() {
        Some(first) => first,
        None => return None,
    };
    let (text, bytes) = match first {
        LocalRange::Snapshot { text, bytes } => (text, bytes),
        LocalRange::Composition { .. } => return None,
    };
    if ranges.next().is_some() {
        return None;
    }
    Some(SnapshotTextRange::new(revision, text, bytes))
}

/// Whether every leaf of the map is committed snapshot text.
pub open spec fn is_committed(source_map: &ParagraphSourceMap) -> bool {
    forall|i: int|
        0 <= i < source_map.leaf_seq().len() ==> (#[trigger] source_map.leaf_seq()[i]).source is Snapshot
}

/// The committed-scene position of a leaf-local position.
pub open spec fn snapshot_position_spec(local: LocalPosition, revision: DocumentRevision) -> SnapshotTextPosition {
    match local {
        LocalPosition::Snapshot { text, byte, affinity } => SnapshotTextPosition::new_spec(
            revision,
            text,
            byte,
            affinity,
        ),
        LocalPosition::Composition { byte, affinity, .. } => SnapshotTextPosition::new_spec(
            revision,
            arbitrary(),
            byte,
            affinity,
        ),
    }
}

/// Materializes a retained position in a committed scene.
pub fn materialize_position(
    source_map: &ParagraphSourceMap,
    position: SourcePosition,
    revision: DocumentRevision,
) -> (snapshot: SnapshotTextPosition)
    requires
        source_map.leaf_seq().len() > 0,
        position.offset <= source_map.projected_len_spec(),
        is_committed(source_map),
    ensures
        snapshot == snapshot_position_spec(source_map.materialize_position_spec(position), revision),
        source_map.materialize_position_spec(position) is Snapshot,
{
    let local = source_map.materialize_position(position);
    proof {
        let source = source_map.source_position_of(position.offset, position.affinity);
        let index = crate::source_map::leaf_for_position_spec(source_map.leaf_seq(), source, position.affinity)->0;
        crate::source_map::lemma_leaf_for_position(source_map.leaf_seq(), source, position.affinity);
        assert(source_map.leaf_seq()[index].source is Snapshot);
    }
    match local {
        LocalPosition::Snapshot { text, byte, affinity } => SnapshotTextPosition::new(
            revision,
            text,
            byte,
            affinity,
        ),
        LocalPosition::Composition { .. } => vstd::pervasive::unreached(),
    }
}

/// Materializes the interaction unit of a projected span in a committed scene.
pub fn materialize_snapshot_unit(
    source_map: &ParagraphSourceMap,
    span: SourceSpan,
    revision: DocumentRevision,
) -> (unit: SnapshotTextUnit)
    requires
        is_committed(source_map),
    ensures
        unit@ == source_map.ranges_for_span_spec(span).map_values(
            |range: LocalRange| snapshot_range_spec(range, revision),
        ),
{
    let mut ranges = source_map.ranges_for_span(span);
    let ghost all = ranges@;
    proof {
        use_type_invariant(source_map);
        crate::source_map::lemma_ranges_committed(source_map, span);
    }
    let mut collected: Vec<SnapshotTextRange> = Vec::new();
    while ranges.len() > 0
        invariant
            all == source_map.ranges_for_span_spec(span),
            forall|i: int| 0 <= i < all.len() ==> (#[trigger] all[i]) is Snapshot,
            all.len() == collected@.len() + ranges@.len(),
            ranges@ == all.subrange(collected@.len() as int, all.len() as int),
            collected@ =~= all.subrange(0, collected@.len() as int).map_values(
                |range: LocalRange| snapshot_range_spec(range, revision),
            ),
        decreases ranges@.len(),
    {
        let range = ranges.next().unwrap();
        proof {
            assert(range == all[collected@.len() as int]);
        }
        collected.push(materialize_range(range, revision));
        proof {
            assert(all.subrange(0, collected@.len() as int) =~= all.subrange(0, collected@.len() - 1).push(
                all[collected@.len() - 1],
            ));
            assert(ranges@ =~= all.subrange(collected@.len() as int, all.len() as int));
        }
    }
    proof {
        assert(all.subrange(0, all.len() as int) =~= all);
    }
    SnapshotTextUnit::new(collected)
}

/// Materializes a prepared cursor step in a committed scene.
pub fn materialize_cursor_step(
    source_map: &ParagraphSourceMap,
    step: Option<DerivedCursorStep>,
    revision: DocumentRevision,
) -> (scene: Option<SceneCursorStep>)
    requires
        source_map.leaf_seq().len() > 0,
        is_committed(source_map),
        step matches Some(s) ==> s.target.offset <= source_map.projected_len_spec(),
    ensures
        step is None ==> scene is None,
        step matches Some(s) ==> scene matches Some(c) && c.target == snapshot_position_spec(
            source_map.materialize_position_spec(SourcePosition { offset: s.target.offset, affinity: s.target.affinity }),
            revision,
        ) && (s.source is None ==> c.source is None) && (s.source matches Some(r) ==> c.source matches Some(u)
            && u@ == source_map.ranges_for_span_spec(SourceSpan { start: r.start, end: r.end }).map_values(
            |range: LocalRange| snapshot_range_spec(range, revision),
        )),
{
    match step {
        None => None,
        Some(step) => {
            let target = materialize_position(
                source_map,
                SourcePosition::new(step.target.offset, step.target.affinity),
                revision,
            );
            let source = match step.source {
                Some(range) => Some(
                    materialize_snapshot_unit(source_map, SourceSpan::new(range.start, range.end), revision),
                ),
                None => None,
            };
            Some(SceneCursorStep { target, source })
        },
    }
}

/// Unit index of a hit placement that stands for an empty line rather than
/// a prepared unit.
pub const SYNTHETIC_HIT_UNIT: u32 = 0xffff_ffffu32;

/// The source facts of the unit under a hit placement.
#[derive(Clone, Copy, Debug, PartialEq, Eq, Structural)]
pub struct HitUnit {
    /// Start of the projected source of the unit, or of its line when no
    /// unit is there.
    pub source_start: u32,
    /// End of that projected source.
    pub source_end: u32,
    /// Caret stop at the unit's visual left edge.
    pub left: PreparedClusterSide,
    /// Caret stop at the unit's visual right edge.
    pub right: PreparedClusterSide,
    /// Bidi embedding level of the unit; zero when no unit is there.
    pub bidi_level: u8,
    /// Whether a prepared unit lies under the placement.
    pub prepared: bool,
}

/// The unit a placement names, when it names one that exists.
pub open spec fn placed_unit_spec(facts: &PreparedParagraphFacts, line: u32, unit: u32) -> Option<
    crate::adapter::PreparedInteractionUnit,
> {
    if unit != SYNTHETIC_HIT_UNIT && line < facts.line_seq().len() && unit
        < facts.line_seq()[line as int].units@.len() {
        Some(facts.line_seq()[line as int].units@[unit as int])
    } else {
        None
    }
}

/// The source facts of a hit placement: those of the unit it names, or,
/// when it names none, a collapsed caret at the start of its line (the
/// paragraph start when the line does not exist), with the line's source.
pub open spec fn hit_unit_spec(facts: &PreparedParagraphFacts, line: u32, unit: u32) -> HitUnit {
    match placed_unit_spec(facts, line, unit) {
        Some(u) => HitUnit {
            source_start: u.source_start,
            source_end: u.source_end,
            left: u.left,
            right: u.right,
            bidi_level: u.bidi_level,
            prepared: true,
        },
        None => {
            let exists = line < facts.line_seq().len();
            let start: u32 = if exists {
                facts.line_seq()[line as int].source_start
            } else {
                0
            };
            let end: u32 = if exists {
                facts.line_seq()[line as int].source_end
            } else {
                0
            };
            let caret = PreparedClusterSide {
                offset: start,
                affinity: if start == 0 {
                    TextAffinity::Downstream
                } else {
                    TextAffinity::Upstream
                },
            };
            HitUnit { source_start: start, source_end: end, left: caret, right: caret, bidi_level: 0, prepared: false }
        },
    }
}

/// Resolves a hit placement (a line and a visual unit index, or the
/// synthetic index of an empty line) to the source facts it stands for.
pub fn hit_unit(facts: &PreparedParagraphFacts, line: u32, unit: u32) -> (hit: HitUnit)
    ensures
        hit == hit_unit_spec(facts, line, unit),
{
    let lines = facts.lines();
    let line_index = line as usize;
    if line_index < lines.len() {
        let units = lines[line_index].units();
        if unit != SYNTHETIC_HIT_UNIT && (unit as usize) < units.len() {
            let u = &units[unit as usize];
            return HitUnit {
                source_start: u.source_start,
            source_end: u.source_end,
                left: u.left,
                right: u.right,
                bidi_level: u.bidi_level,
                prepared: true,
            };
        }
        let start = lines[line_index].source_start;
        let caret = PreparedClusterSide {
            offset: start,
            affinity: if start == 0 {
                TextAffinity::Downstream
            } else {
                TextAffinity::Upstream
            },
        };
        return HitUnit {
            source_start: start,
            source_end: lines[line_index].source_end,
            left: caret,
            right: caret,
            bidi_level: 0,
            prepared: false,
        };
    }
    let caret = PreparedClusterSide { offset: 0, affinity: TextAffinity::Downstream };
    HitUnit { source_start: 0, source_end: 0, left: caret, right: caret, bidi_level: 0, prepared: false }
}

} // verus!
