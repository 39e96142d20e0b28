//! Style runs of one paragraph and their projection onto presentation text.
//!
//! Every style partition of a paragraph is a sequence of runs: byte ranges of
//! paragraph text that carry one style key. A key is an index into the
//! paragraph's interned styles of that partition, or a paint slot index.
//! Appending a range that continues the last run with the same key extends
//! that run, so equal neighbours never split.

use vstd::prelude::*;

use crate::error::{SceneError, SceneErrorKind};
use crate::ids::{CompositionEpoch, CompositionId, ParagraphId, TextAffinity};
use crate::source_map::{LeafSpan, LeafSpanSource};
use crate::seq_search::{first_from, last_before, lemma_first_from, lemma_first_from_at, lemma_last_before};
use crate::style::{AnalysisStyle, PaintSlot};
use crate::text_projection::{all_identity, ProjectionKind, ProjectionSegment, TextProjection, segments_wf};

verus! {

/// A byte range of paragraph text carrying one style key.
#[derive(Clone, Copy, Debug, PartialEq, Eq, Hash, Structural)]
pub struct StyleRun {
    /// First byte of the run.
    pub start: u32,
    /// Byte just past the run.
    pub end: u32,
    /// Interned style index or paint slot index.
    pub key: u32,
}

impl StyleRun {
    /// Creates a run.
    pub fn new(bytes: core::ops::Range<u32>, key: u32) -> (run: Self)
        ensures
            run.start == bytes.start,
            run.end == bytes.end,
            run.key == key,
    {
        StyleRun { start: bytes.start, end: bytes.end, key }
    }

    /// Returns the run's byte range.
    pub fn bytes(&self) -> (bytes: core::ops::Range<u32>)
        ensures
            bytes.start == self.start,
            bytes.end == self.end,
    {
        self.start..self.end
    }

    /// Returns the run's style key.
    pub fn key(&self) -> (key: u32)
        ensures
            key == self.key,
    {
        self.key
    }
}

/// The runs after appending `start..end` with `key`: the last run grows when
/// it ends at `start` with the same key, and a new run follows otherwise.
pub open spec fn appended(runs: Seq<StyleRun>, start: u32, end: u32, key: u32) -> Seq<StyleRun> {
    if runs.len() > 0 && runs.last().end == start && runs.last().key == key {
        runs.update(runs.len() - 1, StyleRun { start: runs.last().start, end, key })
    } else {
        runs.push(StyleRun { start, end, key })
    }
}

/// Appends a byte range with one style key, extending the last run when the
/// range continues it with the same key.
pub fn append_run(runs: &mut Vec<StyleRun>, bytes: core::ops::Range<u32>, key: u32)
    ensures
        final(runs)@ == appended(old(runs)@, bytes.start, bytes.end, key),
{
    let n = runs.len();
    if n > 0 && runs[n - 1].end == bytes.start && runs[n - 1].key == key {
        let start = runs[n - 1].start;
        runs.set(n - 1, StyleRun { start, end: bytes.end, key });
    } else {
        runs.push(StyleRun { start: bytes.start, end: bytes.end, key });
    }
}

/// Appends a byte range painted with `slot`.
pub fn append_paint_run(runs: &mut Vec<StyleRun>, bytes: core::ops::Range<u32>, slot: PaintSlot)
    ensures
        final(runs)@ == appended(old(runs)@, bytes.start, bytes.end, slot.spec_index() as u32),
{
    append_run(runs, bytes, slot.index());
}

/// Run `i` ends where run `i + 1` starts, and the two carry different keys.
pub open spec fn runs_linked(runs: Seq<StyleRun>, i: int) -> bool {
    runs[i].end == runs[i + 1].start && runs[i].key != runs[i + 1].key
}

/// The runs are nonempty, cover `0..len` in order without gaps, and no two
/// neighbours carry the same key.
pub open spec fn runs_tile(runs: Seq<StyleRun>, len: u32) -> bool {
    &&& runs.len() == 0 ==> len == 0
    &&& runs.len() > 0 ==> runs[0].start == 0 && runs.last().end == len
    &&& forall|i: int| 0 <= i < runs.len() ==> (#[trigger] runs[i]).start < runs[i].end
    &&& forall|i: int| 0 <= i < runs.len() - 1 ==> #[trigger] runs_linked(runs, i)
}

/// Appending a nonempty range right after tiling runs keeps them tiling the
/// longer text: runs stay maximal, so a paragraph's partition has exactly one
/// run per change of key.
pub proof fn lemma_append_keeps_tiling(runs: Seq<StyleRun>, len: u32, end: u32, key: u32)
    requires
        runs_tile(runs, len),
        len < end,
    ensures
        runs_tile(appended(runs, len, end, key), end),
{
    let next = appended(runs, len, end, key);
    if runs.len() > 0 && runs.last().end == len && runs.last().key == key {
        assert forall|i: int| 0 <= i < next.len() - 1 implies #[trigger] runs_linked(next, i) by {
            assert(runs_linked(runs, i));
        }
    } else {
        assert forall|i: int| 0 <= i < next.len() - 1 implies #[trigger] runs_linked(next, i) by {
            if i < runs.len() - 1 {
                assert(runs_linked(runs, i));
            }
        }
    }
}

/// Largest number of distinct interned styles of one partition in a
/// paragraph: keys are 16-bit.
pub open spec fn max_interned_styles() -> int {
    0x1_0000
}

/// Whether a style equals `style`.
pub open spec fn is_style(style: AnalysisStyle) -> spec_fn(AnalysisStyle) -> bool {
    |candidate: AnalysisStyle| candidate == style
}

/// The key that interning `style` gives: the first equal entry, or a new
/// entry at the end.
pub open spec fn interned_key(styles: Seq<AnalysisStyle>, style: AnalysisStyle) -> int {
    match first_from(styles, is_style(style), 0) {
        Some(i) => i,
        None => styles.len() as int,
    }
}

/// The interned styles after interning `style`.
pub open spec fn interned(styles: Seq<AnalysisStyle>, style: AnalysisStyle) -> Seq<AnalysisStyle> {
    match first_from(styles, is_style(style), 0) {
        Some(i) => styles,
        None => styles.push(style),
    }
}

/// Interns an analysis style and appends its run.
///
/// The style's key is the index of the first equal interned style, or a new
/// index when no interned style equals it. A key that does not fit in 16 bits
/// is an invalid style for the paragraph, and then nothing changes.
#[verifier::loop_isolation(false)]
pub fn append_analysis_run(
    styles: &mut Vec<AnalysisStyle>,
    runs: &mut Vec<StyleRun>,
    bytes: core::ops::Range<u32>,
    style: AnalysisStyle,
    paragraph: ParagraphId,
) -> (result: Result<(), SceneError>)
    ensures
        ({
            let key = interned_key(old(styles)@, style);
            match result {
                Ok(()) => {
                    &&& key < max_interned_styles()
                    &&& final(styles)@ == interned(old(styles)@, style)
                    &&& final(runs)@ == appended(old(runs)@, bytes.start, bytes.end, key as u32)
                },
                Err(e) => {
                    &&& key >= max_interned_styles()
                    &&& e == SceneError::spec_for_paragraph(SceneErrorKind::InvalidStyle, paragraph)
                    &&& e.kind() == SceneErrorKind::InvalidStyle
                    &&& e.paragraph() == Some(paragraph)
                    &&& e.document() == Some(paragraph.document)
                    &&& e.source() is None
                    &&& final(styles)@ == old(styles)@
                    &&& final(runs)@ == old(runs)@
                },
            }
        }),
{
    let mut index: usize = 0;
    while index < styles.len()
        invariant
            index <= styles@.len(),
            forall|j: int| 0 <= j < index ==> styles@[j] != style,
        decreases styles@.len() - index,
    {
        if styles[index] == style {
            break;
        }
        index += 1;
    }
    proof {
        if index < styles@.len() {
            assert(is_style(style)(styles@[index as int]));
        }
        assert forall|j: int| 0 <= j < index implies !is_style(style)(#[trigger] styles@[j]) by {}
        lemma_first_from_at(styles@, is_style(style), 0, index as int);
    }
    if index > 0xffff {
        return Err(SceneError::for_paragraph(SceneErrorKind::InvalidStyle, paragraph));
    }
    if index == styles.len() {
        styles.push(style);
    }
    append_run(runs, bytes, index as u32);
    Ok(())
}

/// The smaller of two offsets.
pub open spec fn min_u32(a: u32, b: u32) -> u32 {
    if a <= b {
        a
    } else {
        b
    }
}

/// The larger of two offsets.
pub open spec fn max_u32(a: u32, b: u32) -> u32 {
    if a >= b {
        a
    } else {
        b
    }
}

/// Folds the runs from index `i` on through an identity segment: each run's
/// part inside the segment's source is appended at the matching projected
/// offset.
pub open spec fn identity_runs_from(
    acc: Seq<StyleRun>,
    segment: ProjectionSegment,
    runs: Seq<StyleRun>,
    i: int,
) -> Seq<StyleRun>
    decreases runs.len() - i,
{
    if i < 0 || i >= runs.len() {
        acc
    } else {
        let run = runs[i];
        let start = max_u32(segment.source_start, run.start);
        let end = min_u32(segment.source_end, run.end);
        let next = if start < end {
            let projected_start = (segment.projected_start + (start - segment.source_start)) as u32;
            appended(acc, projected_start, (projected_start + (end - start)) as u32, run.key)
        } else {
            acc
        };
        identity_runs_from(next, segment, runs, i + 1)
    }
}

/// Appends the parts of `source_runs` inside an identity segment, moved to
/// the segment's projected offsets.
fn project_identity_runs(
    segment: &ProjectionSegment,
    source_runs: &[StyleRun],
    projected: &mut Vec<StyleRun>,
)
    requires
        segment.wf(),
        segment.kind == ProjectionKind::Identity,
    ensures
        final(projected)@ == identity_runs_from(old(projected)@, *segment, source_runs@, 0),
{
    let mut index: usize = 0;
    while index < source_runs.len()
        invariant
            segment.wf(),
            segment.kind == ProjectionKind::Identity,
            index <= source_runs@.len(),
            identity_runs_from(projected@, *segment, source_runs@, index as int)
                == identity_runs_from(old(projected)@, *segment, source_runs@, 0),
        decreases source_runs@.len() - index,
    {
        let run = source_runs[index];
        let start = if segment.source_start >= run.start {
            segment.source_start
        } else {
            run.start
        };
        let end = if segment.source_end <= run.end {
            segment.source_end
        } else {
            run.end
        };
        if start < end {
            let projected_start = segment.projected_start + (start - segment.source_start);
            append_run(projected, projected_start..projected_start + (end - start), run.key);
        }
        index += 1;
    }
}

/// Whether a run covers `position` from inside.
pub open spec fn run_covers(position: u32) -> spec_fn(StyleRun) -> bool {
    |run: StyleRun| run.start <= position && position < run.end
}

/// Whether a run ends exactly at `position`.
pub open spec fn run_ends_at(position: u32) -> spec_fn(StyleRun) -> bool {
    |run: StyleRun| run.end == position
}

/// The run that owns `position`: the first that covers it, or else the last
/// that ends at it.
pub open spec fn run_for_position_spec(runs: Seq<StyleRun>, position: u32) -> Option<int> {
    match first_from(runs, run_covers(position), 0) {
        Some(i) => Some(i),
        None => last_before(runs, run_ends_at(position), runs.len() as int),
    }
}

/// Returns the run that owns `position`: the first that covers it, or else
/// the last that ends at it.
#[verifier::loop_isolation(false)]
pub fn run_for_position(runs: &[StyleRun], position: u32) -> (found: Option<usize>)
    ensures
        match run_for_position_spec(runs@, position) {
            Some(i) => found == Some(i as usize),
            None => found is None,
        },
{
    let mut index: usize = 0;
    while index < runs.len()
        invariant
            index <= runs@.len(),
            forall|j: int| 0 <= j < index ==> !run_covers(position)(#[trigger] runs@[j]),
        decreases runs@.len() - index,
    {
        if runs[index].start <= position && position < runs[index].end {
            proof {
                lemma_first_from_at(runs@, run_covers(position), 0, index as int);
            }
            return Some(index);
        }
        index += 1;
    }
    proof {
        lemma_first_from_at(runs@, run_covers(position), 0, runs@.len() as int);
    }
    let mut back: usize = runs.len();
    while back > 0
        invariant
            back <= runs@.len(),
            last_before(runs@, run_ends_at(position), runs@.len() as int) == last_before(
                runs@,
                run_ends_at(position),
                back as int,
            ),
        decreases back,
    {
        if runs[back - 1].end == position {
            return Some(back - 1);
        }
        back -= 1;
    }
    None
}

/// Folds the segments from index `i` on. Identity segments carry the runs
/// inside them across; replaced, collapsed, and inserted text takes the key
/// of the run that owns the segment's source start; omitted text has no runs.
/// `Err(j)` names a segment whose source start no run owns.
pub open spec fn projected_runs_from(
    acc: Seq<StyleRun>,
    segments: Seq<ProjectionSegment>,
    runs: Seq<StyleRun>,
    i: int,
) -> Result<Seq<StyleRun>, int>
    decreases segments.len() - i,
{
    if i < 0 || i >= segments.len() {
        Ok(acc)
    } else {
        let segment = segments[i];
        match segment.kind {
            ProjectionKind::Identity => projected_runs_from(
                identity_runs_from(acc, segment, runs, 0),
                segments,
                runs,
                i + 1,
            ),
            ProjectionKind::Omitted => projected_runs_from(acc, segments, runs, i + 1),
            _ => match run_for_position_spec(runs, segment.source_start) {
                Some(k) => projected_runs_from(
                    appended(acc, segment.projected_start, segment.projected_end, runs[k].key),
                    segments,
                    runs,
                    i + 1,
                ),
                None => Err(i),
            },
        }
    }
}

/// The runs of one partition projected through all segments.
pub open spec fn projected_runs(mapping: Seq<ProjectionSegment>, runs: Seq<StyleRun>) -> Result<
    Seq<StyleRun>,
    int,
> {
    projected_runs_from(Seq::empty(), mapping, runs, 0)
}

/// Whether `e` reports missing source coverage of `segment` in `paragraph`.
pub open spec fn is_coverage_error(e: SceneError, paragraph: ParagraphId, segment: ProjectionSegment) -> bool {
    &&& e.kind() == SceneErrorKind::SourceCoverage
    &&& e.paragraph() == Some(paragraph)
    &&& e.document() == Some(paragraph.document)
    &&& e.source() matches Some(r) && r.start == segment.source_start && r.end
        == segment.source_end
}

/// Whether a projection result agrees with the projected runs.
pub open spec fn projects_to(
    result: Result<Vec<StyleRun>, SceneError>,
    paragraph: ParagraphId,
    mapping: Seq<ProjectionSegment>,
    runs: Seq<StyleRun>,
) -> bool {
    match projected_runs(mapping, runs) {
        Ok(projected) => result matches Ok(v) && v@ == projected,
        Err(j) => result matches Err(e) && is_coverage_error(e, paragraph, mapping[j]),
    }
}

/// Projects the runs of one style partition onto presentation text.
pub fn project_runs(paragraph: ParagraphId, mapping: &TextProjection, source_runs: &[StyleRun]) -> (result: Result<Vec<StyleRun>, SceneError>)
    ensures
        projects_to(result, paragraph, mapping.segment_seq(), source_runs@),
{
    let segments = mapping.segments();
    let ghost segs = segments@;
    let mut projected: Vec<StyleRun> = Vec::new();
    let mut index: usize = 0;
    while index < segments.len()
        invariant
            segs == segments@,
            segs == mapping.segment_seq(),
            segments_wf(segs, mapping.source_len_spec(), mapping.projected_len_spec()),
            index <= segs.len(),
            projected_runs_from(projected@, segs, source_runs@, index as int) == projected_runs(
                segs,
                source_runs@,
            ),
        decreases segs.len() - index,
    {
        let segment = &segments[index];
        assert(segs[index as int].wf());
        match segment.kind() {
            ProjectionKind::Identity => {
                project_identity_runs(segment, source_runs, &mut projected);
            },
            ProjectionKind::Omitted => {},
            _ => {
                let owner = segment.source().start;
                match run_for_position(source_runs, owner) {
                    Some(k) => {
                        proof {
                            lemma_first_from(source_runs@, run_covers(owner), 0);
                            lemma_last_before(source_runs@, run_ends_at(owner), source_runs@.len() as int);
                        }
                        append_run(&mut projected, segment.projected(), source_runs[k].key);
                    },
                    None => {
                        return Err(
                            SceneError::for_source(
                                SceneErrorKind::SourceCoverage,
                                paragraph,
                                segment.source(),
                            ),
                        );
                    },
                }
            },
        }
        index += 1;
    }
    Ok(projected)
}

/// Whether one partition was replaced by its projection, or, when the
/// projection failed, left as it was with `result` reporting the failure.
pub open spec fn replaced_by_projection(
    before: Seq<StyleRun>,
    after: Seq<StyleRun>,
    result: Result<(), SceneError>,
    paragraph: ParagraphId,
    mapping: Seq<ProjectionSegment>,
) -> bool {
    match projected_runs(mapping, before) {
        Ok(projected) => after == projected,
        Err(j) => {
            &&& after == before
            &&& result matches Err(e) && is_coverage_error(e, paragraph, mapping[j])
        },
    }
}

/// Projects all four style partitions of a paragraph onto presentation text.
///
/// An identity projection leaves the runs as they are. Otherwise the
/// partitions are projected in order (analysis, shaping, inline flow, paint);
/// the first that fails stops the work, and the partitions after it keep
/// their source runs.
pub fn project_style_runs(
    paragraph: ParagraphId,
    mapping: &TextProjection,
    analysis: &mut Vec<StyleRun>,
    shaping: &mut Vec<StyleRun>,
    inline_flow: &mut Vec<StyleRun>,
    paint: &mut Vec<StyleRun>,
) -> (result: Result<(), SceneError>)
    ensures
        ({
            let m = mapping.segment_seq();
            if all_identity(m) {
                &&& result is Ok
                &&& final(analysis)@ == old(analysis)@
                &&& final(shaping)@ == old(shaping)@
                &&& final(inline_flow)@ == old(inline_flow)@
                &&& final(paint)@ == old(paint)@
            } else {
                let a_ok = projected_runs(m, old(analysis)@) is Ok;
                let s_ok = a_ok && projected_runs(m, old(shaping)@) is Ok;
                let i_ok = s_ok && projected_runs(m, old(inline_flow)@) is Ok;
                let p_ok = i_ok && projected_runs(m, old(paint)@) is Ok;
                &&& replaced_by_projection(old(analysis)@, final(analysis)@, result, paragraph, m)
                &&& a_ok ==> replaced_by_projection(old(shaping)@, final(shaping)@, result, paragraph, m)
                &&& !a_ok ==> final(shaping)@ == old(shaping)@
                &&& s_ok ==> replaced_by_projection(old(inline_flow)@, final(inline_flow)@, result, paragraph, m)
                &&& !s_ok ==> final(inline_flow)@ == old(inline_flow)@
                &&& i_ok ==> replaced_by_projection(old(paint)@, final(paint)@, result, paragraph, m)
                &&& !i_ok ==> final(paint)@ == old(paint)@
                &&& result is Ok <==> p_ok
            }
        }),
{
    if mapping.is_identity() {
        return Ok(());
    }
    match project_runs(paragraph, mapping, analysis.as_slice()) {
        Ok(projected) => {
            *analysis = projected;
        },
        Err(e) => {
            return Err(e);
        },
    }
    match project_runs(paragraph, mapping, shaping.as_slice()) {
        Ok(projected) => {
            *shaping = projected;
        },
        Err(e) => {
            return Err(e);
        },
    }
    match project_runs(paragraph, mapping, inline_flow.as_slice()) {
        Ok(projected) => {
            *inline_flow = projected;
        },
        Err(e) => {
            return Err(e);
        },
    }
    match project_runs(paragraph, mapping, paint.as_slice()) {
        Ok(projected) => {
            *paint = projected;
        },
        Err(e) => {
            return Err(e);
        },
    }
    Ok(())
}

/// Whether a span owns `offset` with upstream affinity: the offset lies in
/// its interior or at its end, or the span is empty and ends there.
pub open spec fn span_owns_upstream(offset: u32) -> spec_fn(LeafSpan) -> bool {
    |span: LeafSpan|
        (span.paragraph_start < offset && offset <= span.paragraph_end) || (span.paragraph_start
            == span.paragraph_end && span.paragraph_end == offset)
}

/// Whether a span owns `offset` with downstream affinity: the offset lies at
/// its start or in its interior, or the span is empty and starts there.
pub open spec fn span_owns_downstream(offset: u32) -> spec_fn(LeafSpan) -> bool {
    |span: LeafSpan|
        (span.paragraph_start <= offset && offset < span.paragraph_end) || (span.paragraph_start
            == span.paragraph_end && span.paragraph_start == offset)
}

/// Whether `offset` lies inside a span or at one of its boundaries.
pub open spec fn span_touches(offset: u32) -> spec_fn(LeafSpan) -> bool {
    |span: LeafSpan| span.paragraph_start <= offset && offset <= span.paragraph_end
}

/// The span that owns `offset` with `affinity`: the last upstream owner or the
/// first downstream owner, and otherwise the first span that touches it.
pub open spec fn span_for_position_spec(spans: Seq<LeafSpan>, offset: u32, affinity: TextAffinity) -> Option<int> {
    let owner = match affinity {
        TextAffinity::Upstream => last_before(spans, span_owns_upstream(offset), spans.len() as int),
        TextAffinity::Downstream => first_from(spans, span_owns_downstream(offset), 0),
    };
    match owner {
        Some(i) => Some(i),
        None => first_from(spans, span_touches(offset), 0),
    }
}

/// Returns the index of the span that owns a paragraph offset with an
/// affinity.
#[verifier::loop_isolation(false)]
pub fn span_for_position(spans: &[LeafSpan], paragraph_offset: u32, affinity: TextAffinity) -> (found: Option<usize>)
    ensures
        match span_for_position_spec(spans@, paragraph_offset, affinity) {
            Some(i) => found == Some(i as usize),
            None => found is None,
        },
{
    let n = spans.len();
    match affinity {
        TextAffinity::Upstream => {
            let mut back: usize = n;
            while back > 0
                invariant
                    back <= n,
                    n == spans@.len(),
                    last_before(spans@, span_owns_upstream(paragraph_offset), n as int) == last_before(
                        spans@,
                        span_owns_upstream(paragraph_offset),
                        back as int,
                    ),
                decreases back,
            {
                let span = &spans[back - 1];
                if (span.paragraph_start < paragraph_offset && paragraph_offset <= span.paragraph_end)
                    || (span.paragraph_start == span.paragraph_end && span.paragraph_end
                    == paragraph_offset) {
                    return Some(back - 1);
                }
                back -= 1;
            }
        },
        TextAffinity::Downstream => {
            let mut index: usize = 0;
            while index < n
                invariant
                    index <= n,
                    n == spans@.len(),
                    forall|j: int|
                        0 <= j < index ==> !span_owns_downstream(paragraph_offset)(
                            #[trigger] spans@[j],
                        ),
                decreases n - index,
            {
                let span = &spans[index];
                if (span.paragraph_start <= paragraph_offset && paragraph_offset < span.paragraph_end)
                    || (span.paragraph_start == span.paragraph_end && span.paragraph_start
                    == paragraph_offset) {
                    proof {
                        lemma_first_from_at(spans@, span_owns_downstream(paragraph_offset), 0, index as int);
                    }
                    return Some(index);
                }
                index += 1;
            }
            proof {
                lemma_first_from_at(spans@, span_owns_downstream(paragraph_offset), 0, n as int);
            }
        },
    }
    let mut index: usize = 0;
    while index < n
        invariant
            index <= n,
            n == spans@.len(),
            forall|j: int| 0 <= j < index ==> !span_touches(paragraph_offset)(#[trigger] spans@[j]),
        decreases n - index,
    {
        if spans[index].paragraph_start <= paragraph_offset && paragraph_offset
            <= spans[index].paragraph_end {
            proof {
                lemma_first_from_at(spans@, span_touches(paragraph_offset), 0, index as int);
            }
            return Some(index);
        }
        index += 1;
    }
    proof {
        lemma_first_from_at(spans@, span_touches(paragraph_offset), 0, n as int);
    }
    None
}

/// Whether a run shares at least one byte with `start..end`.
pub open spec fn run_overlaps(start: u32, end: u32) -> spec_fn(StyleRun) -> bool {
    |run: StyleRun| run.start < end && start < run.end
}

/// The paint slot index of `start..end` when exactly one paint run overlaps it and
/// that run contains the whole range.
pub open spec fn whole_paint_slot_spec(runs: Seq<StyleRun>, start: u32, end: u32) -> Option<u32> {
    match first_from(runs, run_overlaps(start, end), 0) {
        Some(i) => if first_from(runs, run_overlaps(start, end), i + 1) is None && runs[i].start
            <= start && runs[i].end >= end {
            Some(runs[i].key)
        } else {
            None
        },
        None => None,
    }
}

/// Returns the one paint slot that paints all of `source`, if exactly one
/// paint run overlaps it and contains it.
#[verifier::loop_isolation(false)]
pub fn whole_paint_slot(paint_runs: &[StyleRun], source: core::ops::Range<u32>) -> (slot: Option<PaintSlot>)
    ensures
        match whole_paint_slot_spec(paint_runs@, source.start, source.end) {
            Some(index) => slot matches Some(s) && s.spec_index() == index,
            None => slot is None,
        },
{
    let n = paint_runs.len();
    let ghost overlaps = run_overlaps(source.start, source.end);
    let mut index: usize = 0;
    while index < n
        invariant
            index <= n,
            n == paint_runs@.len(),
            forall|j: int| 0 <= j < index ==> !overlaps(#[trigger] paint_runs@[j]),
        decreases n - index,
    {
        if paint_runs[index].start < source.end && source.start < paint_runs[index].end {
            break;
        }
        index += 1;
    }
    proof {
        lemma_first_from_at(paint_runs@, overlaps, 0, index as int);
    }
    if index == n {
        return None;
    }
    let found = index;
    let mut other: usize = found + 1;
    while other < n
        invariant
            found < other <= n,
            n == paint_runs@.len(),
            forall|j: int| found < j < other ==> !overlaps(#[trigger] paint_runs@[j]),
        decreases n - other,
    {
        if paint_runs[other].start < source.end && source.start < paint_runs[other].end {
            break;
        }
        other += 1;
    }
    proof {
        lemma_first_from_at(paint_runs@, overlaps, found + 1, other as int);
    }
    if other == n && paint_runs[found].start <= source.start && paint_runs[found].end >= source.end {
        Some(PaintSlot::new(paint_runs[found].key))
    } else {
        None
    }
}

/// The composition that the first composition span belongs to.
pub open spec fn composition_identity_spec(spans: Seq<LeafSpan>) -> Option<(CompositionId, CompositionEpoch)> {
    match first_from(spans, is_composition_span(), 0) {
        Some(i) => match spans[i].source {
            LeafSpanSource::Composition { id, epoch, .. } => Some((id, epoch)),
            LeafSpanSource::Snapshot { .. } => None,
        },
        None => None,
    }
}

/// Whether a span holds composition text.
pub open spec fn is_composition_span() -> spec_fn(LeafSpan) -> bool {
    |span: LeafSpan| span.source is Composition
}

/// Returns the composition session and epoch of the first composition span.
#[verifier::loop_isolation(false)]
pub fn composition_identity(spans: &[LeafSpan]) -> (identity: Option<(CompositionId, CompositionEpoch)>)
    ensures
        identity == composition_identity_spec(spans@),
{
    let n = spans.len();
    let mut index: usize = 0;
    while index < n
        invariant
            index <= n,
            n == spans@.len(),
            forall|j: int| 0 <= j < index ==> !is_composition_span()(#[trigger] spans@[j]),
        decreases n - index,
    {
        match spans[index].source {
            LeafSpanSource::Composition { id, epoch, .. } => {
                proof {
                    lemma_first_from_at(spans@, is_composition_span(), 0, index as int);
                }
                return Some((id, epoch));
            },
            LeafSpanSource::Snapshot { .. } => {},
        }
        index += 1;
    }
    proof {
        lemma_first_from_at(spans@, is_composition_span(), 0, n as int);
    }
    None
}

} // verus!
