//! Semantic paragraph leaves and their projection into one paragraph text.
//!
//! Projection concatenates the leaves' text in reading order, records the
//! provenance of every projected piece as a leaf span, and appends each
//! nonempty piece's analysis and paint runs. A composition replaces byte
//! ranges of its target leaf: the first replacement receives the composed
//! text and the retained bytes around the replacements stay committed.

use vstd::prelude::*;
use vstd::string::StringSliceAdditionalSpecFns;
use vstd::utf8::{encode_utf8, encode_utf8_valid_utf8, is_char_boundary};

use crate::error::{SceneError, SceneErrorKind};
use crate::ids::{CompositionEpoch, CompositionId, DocumentRevision, ParagraphId, TextId};
use crate::ids::TextAffinity;
use crate::projection::{
    append_analysis_run, append_paint_run, appended, interned, interned_key,
    lemma_append_keeps_tiling, max_interned_styles, runs_tile, span_for_position,
    span_for_position_spec, StyleRun,
};
use crate::seq_search::lemma_first_from;
use crate::selection::SnapshotTextRange;
use crate::source_map::{LeafSpan, LeafSpanSource};
use crate::style::{AnalysisStyle, PaintSlot, ParagraphStyle};
use crate::text_utf8::{byte_len, clear_text, lemma_encode_concat, push_text, slice_text};

verus! {

broadcast use encode_utf8_valid_utf8;

/// One semantic text leaf of a paragraph.
#[derive(Clone, Debug)]
pub struct LeafSource {
    /// Leaf identity.
    pub id: TextId,
    /// Committed leaf text.
    pub text: String,
}

impl LeafSource {
    /// A leaf with identity `id` and text `text`.
    pub fn new(id: TextId, text: String) -> (leaf: Self)
        ensures
            leaf.id == id,
            leaf.text@ == text@,
    {
        LeafSource { id, text }
    }

    /// Returns the leaf identity.
    pub fn id(&self) -> (id: TextId)
        ensures
            id == self.id,
    {
        self.id
    }

    /// Returns the committed leaf text.
    pub fn text(&self) -> (text: &str)
        ensures
            text@ == self.text@,
    {
        self.text.as_str()
    }
}

/// UTF-8 bytes of a leaf's text.
pub open spec fn leaf_bytes(leaf: LeafSource) -> Seq<u8> {
    encode_utf8(leaf.text@)
}

/// A paragraph's identity, version and leaves in reading order.
#[derive(Clone, Debug)]
pub struct ParagraphSource {
    /// Paragraph identity.
    pub id: ParagraphId,
    /// Committed paragraph version.
    pub version: u64,
    /// Leaves in reading order.
    pub leaves: Vec<LeafSource>,
}

/// The characters of `leaves` in reading order.
pub open spec fn leaves_text(leaves: Seq<LeafSource>) -> Seq<char>
    decreases leaves.len(),
{
    if leaves.len() == 0 {
        Seq::empty()
    } else {
        leaves_text(leaves.drop_last()) + leaves.last().text@
    }
}

impl ParagraphSource {
    /// A paragraph source.
    pub fn new(id: ParagraphId, version: u64, leaves: Vec<LeafSource>) -> (source: Self)
        ensures
            source.id == id,
            source.version == version,
            source.leaves@ == leaves@,
    {
        ParagraphSource { id, version, leaves }
    }

    /// Returns the paragraph identity.
    pub fn id(&self) -> (id: ParagraphId)
        ensures
            id == self.id,
    {
        self.id
    }

    /// Returns the committed paragraph version.
    pub fn version(&self) -> (version: u64)
        ensures
            version == self.version,
    {
        self.version
    }

    /// Returns the leaves in reading order.
    pub fn leaves(&self) -> (leaves: &[LeafSource])
        ensures
            leaves@ == self.leaves@,
    {
        self.leaves.as_slice()
    }

    /// Returns the number of leaves.
    pub fn leaf_count(&self) -> (count: usize)
        ensures
            count == self.leaves@.len(),
    {
        self.leaves.len()
    }

    /// Returns whether every leaf's text is empty.
    pub fn is_empty(&self) -> (empty: bool)
        ensures
            empty == forall|i: int| 0 <= i < self.leaves@.len() ==> (#[trigger] self.leaves@[i]).text@.len() == 0,
    {
        let mut index: usize = 0;
        while index < self.leaves.len()
            invariant
                index <= self.leaves@.len(),
                forall|i: int| 0 <= i < index ==> (#[trigger] self.leaves@[i]).text@.len() == 0,
            decreases self.leaves@.len() - index,
        {
            if !self.leaves[index].text.as_str().is_empty() {
                return false;
            }
            index += 1;
        }
        true
    }

    /// Replaces `text` with the leaves' text in reading order.
    pub fn project_text_into(&self, text: &mut String)
        ensures
            final(text)@ == leaves_text(self.leaves@),
    {
        clear_text(text);
        let mut index: usize = 0;
        while index < self.leaves.len()
            invariant
                index <= self.leaves@.len(),
                text@ == leaves_text(self.leaves@.take(index as int)),
            decreases self.leaves@.len() - index,
        {
            proof {
                assert(self.leaves@.take(index + 1).drop_last() =~= self.leaves@.take(index as int));
            }
            push_text(text, self.leaves[index].text.as_str());
            index += 1;
        }
        proof {
            assert(self.leaves@.take(self.leaves@.len() as int) =~= self.leaves@);
        }
    }
}

/// The parts of a leaf's computed inline style that projection records.
#[derive(Clone, Copy, Debug, PartialEq, Eq, Structural)]
pub struct LeafStyle {
    /// Values consumed by Unicode analysis.
    pub analysis: AnalysisStyle,
    /// Paint slot of the leaf's glyphs.
    pub paint: PaintSlot,
}

/// An input-method composition that replaces byte ranges of one leaf.
#[derive(Clone, Debug)]
pub struct CompositionSplice {
    /// Composition session.
    pub id: CompositionId,
    /// Composition update epoch.
    pub epoch: CompositionEpoch,
    /// Revision the replacement ranges were taken in.
    pub base_revision: DocumentRevision,
    /// Leaf the composition edits, if it names one.
    pub target: Option<TextId>,
    /// Leaf-local byte ranges the composition replaces, in order.
    pub ranges: Vec<SnapshotTextRange>,
    /// Composed text.
    pub text: String,
}

/// Paragraph text projected from leaves, with provenance and style runs.
#[derive(Clone, Debug)]
pub struct ProjectedLeaves {
    /// The projected paragraph.
    pub paragraph: ParagraphId,
    /// Paragraph-level values the paragraph is formed with.
    pub paragraph_style: ParagraphStyle,
    /// Projected paragraph text.
    pub text: String,
    /// Provenance of every projected piece, in text order.
    pub spans: Vec<LeafSpan>,
    /// Interned analysis styles.
    pub analysis_styles: Vec<AnalysisStyle>,
    /// Analysis runs keyed by interned style.
    pub analysis_runs: Vec<StyleRun>,
    /// Paint runs keyed by paint slot.
    pub paint_runs: Vec<StyleRun>,
}

/// The abstract content of a projection: text bytes, spans and runs.
pub struct ProjectionState {
    /// UTF-8 bytes of the projected text.
    pub text: Seq<u8>,
    /// Provenance of every projected piece.
    pub spans: Seq<LeafSpan>,
    /// Interned analysis styles.
    pub analysis_styles: Seq<AnalysisStyle>,
    /// Analysis runs.
    pub analysis_runs: Seq<StyleRun>,
    /// Paint runs.
    pub paint_runs: Seq<StyleRun>,
}

impl ProjectedLeaves {
    /// The projection's abstract content.
    pub open spec fn state(&self) -> ProjectionState {
        ProjectionState {
            text: encode_utf8(self.text@),
            spans: self.spans@,
            analysis_styles: self.analysis_styles@,
            analysis_runs: self.analysis_runs@,
            paint_runs: self.paint_runs@,
        }
    }
}

/// The content of a projection that has not started.
pub open spec fn empty_projection() -> ProjectionState {
    ProjectionState {
        text: Seq::empty(),
        spans: Seq::empty(),
        analysis_styles: Seq::empty(),
        analysis_runs: Seq::empty(),
        paint_runs: Seq::empty(),
    }
}

/// The projection after appending `bytes` taken from leaf `leaf` of
/// `leaf_len` bytes, or the error that stops it: offsets and the leaf length
/// must fit in 32 bits, and a nonempty piece interns its analysis style.
pub open spec fn apply_piece(
    paragraph: ParagraphId,
    state: ProjectionState,
    bytes: Seq<u8>,
    leaf: TextId,
    leaf_len: int,
    source: LeafSpanSource,
    style: LeafStyle,
) -> Result<ProjectionState, SceneError> {
    let start = state.text.len() as int;
    let end = start + bytes.len();
    if start > u32::MAX || end > u32::MAX || leaf_len > u32::MAX {
        Err(SceneError::spec_for_paragraph(SceneErrorKind::SourceCoverage, paragraph))
    } else {
        let span = LeafSpan {
            paragraph_start: start as u32,
            paragraph_end: end as u32,
            text: leaf,
            source,
            leaf_len: leaf_len as u32,
        };
        let text = state.text + bytes;
        let spans = state.spans.push(span);
        if start == end {
            Ok(ProjectionState { text, spans, ..state })
        } else if interned_key(state.analysis_styles, style.analysis) >= max_interned_styles() {
            Err(SceneError::spec_for_paragraph(SceneErrorKind::InvalidStyle, paragraph))
        } else {
            Ok(
                ProjectionState {
                    text,
                    spans,
                    analysis_styles: interned(state.analysis_styles, style.analysis),
                    analysis_runs: appended(
                        state.analysis_runs,
                        start as u32,
                        end as u32,
                        interned_key(state.analysis_styles, style.analysis) as u32,
                    ),
                    paint_runs: appended(
                        state.paint_runs,
                        start as u32,
                        end as u32,
                        style.paint.spec_index(),
                    ),
                },
            )
        }
    }
}

/// Appends `value`, a piece of `leaf` with provenance `source`, to the
/// projection: its span, and for a nonempty piece its analysis and paint
/// runs. Offsets past 32 bits are a coverage error and an analysis style
/// past the key limit is an invalid style.
pub fn append_projection_span(
    paragraph: ParagraphId,
    projection: &mut ProjectedLeaves,
    leaf: &LeafSource,
    value: &str,
    source: LeafSpanSource,
    style: LeafStyle,
) -> (result: Result<(), SceneError>)
    ensures
        match apply_piece(
            paragraph,
            old(projection).state(),
            value.spec_bytes(),
            leaf.id,
            leaf_bytes(*leaf).len() as int,
            source,
            style,
        ) {
            Ok(next) => result is Ok && final(projection).state() == next,
            Err(e) => result == Err::<(), SceneError>(e),
        },
{
    let start_len = byte_len(projection.text.as_str());
    if start_len > 0xffff_ffff {
        return Err(SceneError::for_paragraph(SceneErrorKind::SourceCoverage, paragraph));
    }
    let start = start_len as u32;
    let ghost before = projection.text@;
    push_text(&mut projection.text, value);
    proof {
        lemma_encode_concat(before, value@);
    }
    let end_len = byte_len(projection.text.as_str());
    if end_len > 0xffff_ffff {
        return Err(SceneError::for_paragraph(SceneErrorKind::SourceCoverage, paragraph));
    }
    let end = end_len as u32;
    let leaf_len = byte_len(leaf.text.as_str());
    if leaf_len > 0xffff_ffff {
        return Err(SceneError::for_paragraph(SceneErrorKind::SourceCoverage, paragraph));
    }
    projection.spans.push(
        LeafSpan {
            paragraph_start: start,
            paragraph_end: end,
            text: leaf.id,
            source,
            leaf_len: leaf_len as u32,
        },
    );
    if start != end {
        match append_analysis_run(
            &mut projection.analysis_styles,
            &mut projection.analysis_runs,
            start..end,
            style.analysis,
            paragraph,
        ) {
            Ok(()) => {},
            Err(e) => {
                return Err(e);
            },
        }
        append_paint_run(&mut projection.paint_runs, start..end, style.paint);
    }
    Ok(())
}

/// One step of a projection: a piece to append, or the error that stops it.
pub enum ProjectionStep {
    /// Bytes of a leaf, or of composed text, with their provenance.
    Piece {
        /// UTF-8 bytes of the piece.
        bytes: Seq<u8>,
        /// Leaf the piece belongs to.
        leaf: TextId,
        /// UTF-8 length of that leaf's committed text.
        leaf_len: int,
        /// Where the piece comes from.
        source: LeafSpanSource,
        /// Style of the leaf.
        style: LeafStyle,
    },
    /// The projection fails with `error`.
    Fail { error: SceneError },
}

/// The piece `bytes` of `leaf` with provenance `source`.
pub open spec fn piece_of(
    leaf: LeafSource,
    bytes: Seq<u8>,
    source: LeafSpanSource,
    style: LeafStyle,
) -> ProjectionStep {
    ProjectionStep::Piece { bytes, leaf: leaf.id, leaf_len: leaf_bytes(leaf).len() as int, source, style }
}

/// The committed bytes `start..end` of `leaf`.
pub open spec fn retained_piece(leaf: LeafSource, style: LeafStyle, start: int, end: int) -> ProjectionStep {
    piece_of(
        leaf,
        leaf_bytes(leaf).subrange(start, end),
        LeafSpanSource::Snapshot { start: start as u32 },
        style,
    )
}

/// A replacement range lies at or after `cursor` and selects whole
/// characters of `bytes`.
pub open spec fn replacement_fits(bytes: Seq<u8>, cursor: int, range: SnapshotTextRange) -> bool {
    &&& cursor <= range.start()
    &&& range.start() <= range.end()
    &&& is_char_boundary(bytes, range.start() as int)
    &&& is_char_boundary(bytes, range.end() as int)
}

/// Steps of the composition's target leaf from replacement `k` on, with
/// committed bytes before `cursor` already projected: the bytes kept before
/// each replacement, the composed text at the first replacement, and the
/// bytes after the last.
pub open spec fn target_steps(
    paragraph: ParagraphId,
    leaf: LeafSource,
    style: LeafStyle,
    composition: CompositionSplice,
    k: int,
    cursor: int,
) -> Seq<ProjectionStep>
    decreases composition.ranges@.len() - k,
{
    let bytes = leaf_bytes(leaf);
    if k < composition.ranges@.len() {
        let range = composition.ranges@[k];
        if !replacement_fits(bytes, cursor, range) {
            seq![
                ProjectionStep::Fail {
                    error: SceneError::spec_for_source(
                        SceneErrorKind::InvalidComposition,
                        paragraph,
                        range.start()..range.end(),
                    ),
                },
            ]
        } else {
            let retained = if cursor < range.start() {
                seq![retained_piece(leaf, style, cursor, range.start() as int)]
            } else {
                Seq::empty()
            };
            let inserted = if k == 0 {
                seq![
                    piece_of(
                        leaf,
                        encode_utf8(composition.text@),
                        LeafSpanSource::Composition {
                            id: composition.id,
                            epoch: composition.epoch,
                            start: 0,
                        },
                        style,
                    ),
                ]
            } else {
                Seq::empty()
            };
            retained + inserted + target_steps(
                paragraph,
                leaf,
                style,
                composition,
                k + 1,
                range.end() as int,
            )
        }
    } else if bytes.len() > u32::MAX {
        seq![
            ProjectionStep::Fail {
                error: SceneError::spec_for_paragraph(SceneErrorKind::SourceCoverage, paragraph),
            },
        ]
    } else if cursor < bytes.len() {
        seq![retained_piece(leaf, style, cursor, bytes.len() as int)]
    } else {
        Seq::empty()
    }
}

/// Whether `composition` edits `leaf`.
pub open spec fn is_target(composition: Option<CompositionSplice>, leaf: LeafSource) -> bool {
    composition is Some && composition->0.target == Some(leaf.id)
}

/// Steps of one leaf: the whole leaf, or the target leaf's splice.
pub open spec fn leaf_steps(
    paragraph: ParagraphId,
    leaf: LeafSource,
    style: LeafStyle,
    composition: Option<CompositionSplice>,
) -> Seq<ProjectionStep> {
    if is_target(composition, leaf) {
        target_steps(paragraph, leaf, style, composition->0, 0, 0)
    } else {
        seq![piece_of(leaf, leaf_bytes(leaf), LeafSpanSource::Snapshot { start: 0 }, style)]
    }
}

/// Steps of the leaves from index `i` on.
pub open spec fn steps_from(
    paragraph: ParagraphId,
    leaves: Seq<LeafSource>,
    styles: Seq<LeafStyle>,
    composition: Option<CompositionSplice>,
    i: int,
) -> Seq<ProjectionStep>
    decreases leaves.len() - i,
{
    if 0 <= i < leaves.len() {
        leaf_steps(paragraph, leaves[i], styles[i], composition) + steps_from(
            paragraph,
            leaves,
            styles,
            composition,
            i + 1,
        )
    } else {
        Seq::empty()
    }
}

/// Runs `steps` from `state`: the final projection, or the first error.
pub open spec fn run_steps(
    paragraph: ParagraphId,
    state: ProjectionState,
    steps: Seq<ProjectionStep>,
) -> Result<ProjectionState, SceneError>
    decreases steps.len(),
{
    if steps.len() == 0 {
        Ok(state)
    } else {
        match steps[0] {
            ProjectionStep::Fail { error } => Err(error),
            ProjectionStep::Piece { bytes, leaf, leaf_len, source, style } => match apply_piece(
                paragraph,
                state,
                bytes,
                leaf,
                leaf_len,
                source,
                style,
            ) {
                Ok(next) => run_steps(paragraph, next, steps.drop_first()),
                Err(e) => Err(e),
            },
        }
    }
}

/// The composition names a leaf of the paragraph and at least one
/// replacement, each taken from that leaf in the base revision.
pub open spec fn composition_accepted(paragraph: ParagraphId, composition: CompositionSplice) -> bool {
    &&& composition.target matches Some(target) && target.paragraph == paragraph.index
    &&& composition.ranges@.len() > 0
    &&& forall|k: int|
        0 <= k < composition.ranges@.len() ==> {
            &&& (#[trigger] composition.ranges@[k]).revision() == composition.base_revision
            &&& Some(composition.ranges@[k].text()) == composition.target
        }
}

/// Some leaf is the composition's target.
pub open spec fn target_present(leaves: Seq<LeafSource>, composition: CompositionSplice) -> bool {
    exists|i: int| 0 <= i < leaves.len() && Some((#[trigger] leaves[i]).id) == composition.target
}

/// The projection of `leaves` styled by `styles`, with `composition`
/// spliced into its target leaf, or the first error.
pub open spec fn projected_leaves(
    paragraph: ParagraphId,
    leaves: Seq<LeafSource>,
    styles: Seq<LeafStyle>,
    composition: Option<CompositionSplice>,
) -> Result<ProjectionState, SceneError> {
    if composition is Some && !composition_accepted(paragraph, composition->0) {
        Err(SceneError::spec_for_paragraph(SceneErrorKind::InvalidComposition, paragraph))
    } else {
        match run_steps(
            paragraph,
            empty_projection(),
            steps_from(paragraph, leaves, styles, composition, 0),
        ) {
            Err(e) => Err(e),
            Ok(state) => if composition is Some && !target_present(leaves, composition->0) {
                Err(SceneError::spec_for_paragraph(SceneErrorKind::InvalidComposition, paragraph))
            } else {
                Ok(state)
            },
        }
    }
}

/// The projection result matches its specification.
pub open spec fn projection_matches(
    result: Result<ProjectedLeaves, SceneError>,
    expected: Result<ProjectionState, SceneError>,
) -> bool {
    match (result, expected) {
        (Ok(projected), Ok(state)) => projected.state() == state,
        (Err(e), Err(f)) => e == f,
        _ => false,
    }
}

/// The composition a reference denotes.
pub open spec fn splice_of(composition: Option<&CompositionSplice>) -> Option<CompositionSplice> {
    match composition {
        Some(c) => Some(*c),
        None => None,
    }
}

/// Running a concatenation runs its parts in turn.
proof fn lemma_run_concat(
    paragraph: ParagraphId,
    state: ProjectionState,
    a: Seq<ProjectionStep>,
    b: Seq<ProjectionStep>,
)
    ensures
        run_steps(paragraph, state, a + b) == match run_steps(paragraph, state, a) {
            Ok(next) => run_steps(paragraph, next, b),
            Err(e) => Err(e),
        },
    decreases a.len(),
{
    if a.len() == 0 {
        assert(a + b =~= b);
    } else {
        assert((a + b)[0] == a[0]);
        assert((a + b).drop_first() =~= a.drop_first() + b);
        match a[0] {
            ProjectionStep::Fail { error } => {},
            ProjectionStep::Piece { bytes, leaf, leaf_len, source, style } => {
                match apply_piece(paragraph, state, bytes, leaf, leaf_len, source, style) {
                    Ok(next) => {
                        lemma_run_concat(paragraph, next, a.drop_first(), b);
                    },
                    Err(e) => {},
                }
            },
        }
    }
}

/// Running one step applies it.
proof fn lemma_run_single(paragraph: ParagraphId, state: ProjectionState, step: ProjectionStep)
    ensures
        run_steps(paragraph, state, seq![step]) == match step {
            ProjectionStep::Fail { error } => Err(error),
            ProjectionStep::Piece { bytes, leaf, leaf_len, source, style } => apply_piece(
                paragraph,
                state,
                bytes,
                leaf,
                leaf_len,
                source,
                style,
            ),
        },
{
    assert(seq![step].drop_first() =~= Seq::<ProjectionStep>::empty());
    reveal_with_fuel(run_steps, 2);
}

fn accept_composition(paragraph: ParagraphId, composition: &CompositionSplice) -> (accepted: bool)
    ensures
        accepted == composition_accepted(paragraph, *composition),
{
    let target = match composition.target {
        Some(target) => target,
        None => {
            return false;
        },
    };
    if target.paragraph != paragraph.index || composition.ranges.len() == 0 {
        return false;
    }
    let mut k: usize = 0;
    while k < composition.ranges.len()
        invariant
            k <= composition.ranges@.len(),
            composition.target == Some(target),
            forall|j: int|
                0 <= j < k ==> {
                    &&& (#[trigger] composition.ranges@[j]).revision() == composition.base_revision
                    &&& Some(composition.ranges@[j].text()) == composition.target
                },
        decreases composition.ranges@.len() - k,
    {
        let range = &composition.ranges[k];
        if range.revision() != composition.base_revision || range.text() != target {
            return false;
        }
        k += 1;
    }
    true
}

fn edits_leaf(composition: &CompositionSplice, leaf: &LeafSource) -> (edits: bool)
    ensures
        edits == (composition.target == Some(leaf.id)),
{
    match composition.target {
        Some(target) => target == leaf.id,
        None => false,
    }
}

fn project_target_leaf(
    paragraph: ParagraphId,
    projection: &mut ProjectedLeaves,
    leaf: &LeafSource,
    style: LeafStyle,
    composition: &CompositionSplice,
) -> (result: Result<(), SceneError>)
    ensures
        match result {
            Ok(()) => run_steps(
                paragraph,
                old(projection).state(),
                target_steps(paragraph, *leaf, style, *composition, 0, 0),
            ) == Ok::<ProjectionState, SceneError>(final(projection).state()),
            Err(e) => run_steps(
                paragraph,
                old(projection).state(),
                target_steps(paragraph, *leaf, style, *composition, 0, 0),
            ) == Err::<ProjectionState, SceneError>(e),
        },
{
    let text = leaf.text.as_str();
    let ghost bytes = leaf_bytes(*leaf);
    let ghost goal = run_steps(
        paragraph,
        projection.state(),
        target_steps(paragraph, *leaf, style, *composition, 0, 0),
    );
    let mut cursor: u32 = 0;
    let mut k: usize = 0;
    while k < composition.ranges.len()
        invariant
            k <= composition.ranges@.len(),
            text.spec_bytes() == bytes,
            bytes == leaf_bytes(*leaf),
            is_char_boundary(bytes, cursor as int),
            goal == run_steps(
                paragraph,
                old(projection).state(),
                target_steps(paragraph, *leaf, style, *composition, 0, 0),
            ),
            goal == run_steps(
                paragraph,
                projection.state(),
                target_steps(paragraph, *leaf, style, *composition, k as int, cursor as int),
            ),
        decreases composition.ranges@.len() - k,
    {
        let range = composition.ranges[k];
        let replaced = range.bytes();
        if replaced.start < cursor || !(replaced.start <= replaced.end && text.is_char_boundary(
            replaced.start as usize,
        ) && text.is_char_boundary(replaced.end as usize)) {
            let error = SceneError::for_source(SceneErrorKind::InvalidComposition, paragraph, replaced);
            proof {
                lemma_run_single(paragraph, projection.state(), ProjectionStep::Fail { error });
            }
            return Err(error);
        }
        let ghost rest = target_steps(
            paragraph,
            *leaf,
            style,
            *composition,
            k + 1,
            replaced.end as int,
        );
        let ghost retained = if cursor < replaced.start {
            seq![retained_piece(*leaf, style, cursor as int, replaced.start as int)]
        } else {
            Seq::<ProjectionStep>::empty()
        };
        let ghost inserted = if k == 0 {
            seq![
                piece_of(
                    *leaf,
                    encode_utf8(composition.text@),
                    LeafSpanSource::Composition {
                        id: composition.id,
                        epoch: composition.epoch,
                        start: 0,
                    },
                    style,
                ),
            ]
        } else {
            Seq::<ProjectionStep>::empty()
        };
        proof {
            assert(target_steps(paragraph, *leaf, style, *composition, k as int, cursor as int)
                == retained + inserted + rest);
            lemma_run_concat(paragraph, projection.state(), retained + inserted, rest);
            lemma_run_concat(paragraph, projection.state(), retained, inserted);
        }
        let ghost before_retained = projection.state();
        if cursor < replaced.start {
            let kept = slice_text(text, cursor as usize, replaced.start as usize);
            proof {
                lemma_run_single(paragraph, projection.state(), retained[0]);
            }
            match append_projection_span(
                paragraph,
                projection,
                leaf,
                kept,
                LeafSpanSource::Snapshot { start: cursor },
                style,
            ) {
                Ok(()) => {},
                Err(e) => {
                    return Err(e);
                },
            }
        } else {
            assert(run_steps(paragraph, before_retained, retained) == Ok::<
                ProjectionState,
                SceneError,
            >(before_retained));
        }
        let ghost before_inserted = projection.state();
        if k == 0 {
            proof {
                lemma_run_single(paragraph, projection.state(), inserted[0]);
            }
            match append_projection_span(
                paragraph,
                projection,
                leaf,
                composition.text.as_str(),
                LeafSpanSource::Composition { id: composition.id, epoch: composition.epoch, start: 0 },
                style,
            ) {
                Ok(()) => {},
                Err(e) => {
                    return Err(e);
                },
            }
        } else {
            assert(run_steps(paragraph, before_inserted, inserted) == Ok::<
                ProjectionState,
                SceneError,
            >(before_inserted));
        }
        cursor = replaced.end;
        k += 1;
    }
    let text_len = byte_len(text);
    if text_len > 0xffff_ffff {
        let error = SceneError::for_paragraph(SceneErrorKind::SourceCoverage, paragraph);
        proof {
            lemma_run_single(paragraph, projection.state(), ProjectionStep::Fail { error });
        }
        return Err(error);
    }
    if (cursor as usize) < text_len {
        proof {
            vstd::utf8::is_char_boundary_start_end_of_seq(bytes);
            lemma_run_single(
                paragraph,
                projection.state(),
                retained_piece(*leaf, style, cursor as int, bytes.len() as int),
            );
        }
        let kept = slice_text(text, cursor as usize, text_len);
        return append_projection_span(
            paragraph,
            projection,
            leaf,
            kept,
            LeafSpanSource::Snapshot { start: cursor },
            style,
        );
    }
    Ok(())
}

fn project_leaves(
    source: &ParagraphSource,
    styles: &[LeafStyle],
    paragraph_style: ParagraphStyle,
    composition: Option<&CompositionSplice>,
) -> (result: Result<ProjectedLeaves, SceneError>)
    requires
        styles@.len() == source.leaves@.len(),
    ensures
        projection_matches(
            result,
            projected_leaves(source.id, source.leaves@, styles@, splice_of(composition)),
        ),
        result matches Ok(p) ==> p.paragraph == source.id && p.paragraph_style == paragraph_style,
{
    let paragraph = source.id;
    let ghost splice = splice_of(composition);
    if let Some(c) = composition {
        if !accept_composition(paragraph, c) {
            return Err(SceneError::for_paragraph(SceneErrorKind::InvalidComposition, paragraph));
        }
    }
    let mut projection = ProjectedLeaves {
        paragraph,
        paragraph_style,
        text: String::new(),
        spans: Vec::new(),
        analysis_styles: Vec::new(),
        analysis_runs: Vec::new(),
        paint_runs: Vec::new(),
    };
    let ghost goal = run_steps(
        paragraph,
        empty_projection(),
        steps_from(paragraph, source.leaves@, styles@, splice, 0),
    );
    proof {
        assert(projection.state() == empty_projection());
    }
    let mut target_found = false;
    let mut i: usize = 0;
    while i < source.leaves.len()
        invariant
            i <= source.leaves@.len(),
            styles@.len() == source.leaves@.len(),
            paragraph == source.id,
            splice == splice_of(composition),
            goal == run_steps(
                paragraph,
                empty_projection(),
                steps_from(paragraph, source.leaves@, styles@, splice, 0),
            ),
            goal == run_steps(
                paragraph,
                projection.state(),
                steps_from(paragraph, source.leaves@, styles@, splice, i as int),
            ),
            splice is Some ==> composition_accepted(paragraph, splice->0),
            splice is Some ==> (target_found <==> exists|j: int|
                0 <= j < i && Some((#[trigger] source.leaves@[j]).id) == splice->0.target),
        decreases source.leaves@.len() - i,
    {
        let leaf = &source.leaves[i];
        let style = styles[i];
        let ghost steps = leaf_steps(paragraph, *leaf, style, splice);
        let ghost rest = steps_from(paragraph, source.leaves@, styles@, splice, i + 1);
        let ghost before = projection.state();
        proof {
            assert(steps_from(paragraph, source.leaves@, styles@, splice, i as int) == steps + rest);
            lemma_run_concat(paragraph, before, steps, rest);
        }
        let edited = match composition {
            Some(c) => if edits_leaf(c, leaf) {
                Some(c)
            } else {
                None
            },
            None => None,
        };
        match edited {
            Some(c) => {
                target_found = true;
                match project_target_leaf(paragraph, &mut projection, leaf, style, c) {
                    Ok(()) => {},
                    Err(e) => {
                        return Err(e);
                    },
                }
            },
            None => {
                proof {
                    lemma_run_single(
                        paragraph,
                        before,
                        piece_of(*leaf, leaf_bytes(*leaf), LeafSpanSource::Snapshot { start: 0 }, style),
                    );
                }
                match append_projection_span(
                    paragraph,
                    &mut projection,
                    leaf,
                    leaf.text.as_str(),
                    LeafSpanSource::Snapshot { start: 0 },
                    style,
                ) {
                    Ok(()) => {},
                    Err(e) => {
                        return Err(e);
                    },
                }
            },
        }
        proof {
            assert(splice is Some ==> (target_found <==> exists|j: int|
                0 <= j < i + 1 && Some((#[trigger] source.leaves@[j]).id) == splice->0.target)) by {
                if splice is Some && Some(source.leaves@[i as int].id) == splice->0.target {
                    assert(0 <= i < i + 1);
                }
            }
        }
        i += 1;
    }
    proof {
        assert(steps_from(paragraph, source.leaves@, styles@, splice, i as int) =~= Seq::<
            ProjectionStep,
        >::empty());
    }
    if let Some(c) = composition {
        if !target_found {
            return Err(SceneError::for_paragraph(SceneErrorKind::InvalidComposition, paragraph));
        }
    }
    Ok(ProjectedLeaves { paragraph, paragraph_style, ..projection })
}

/// Projects a committed paragraph: every leaf's text in reading order, a
/// snapshot span per leaf, and analysis and paint runs per nonempty leaf,
/// styled by the leaf's entry in `styles`. The result names the paragraph
/// and carries the paragraph-level style it is to be formed with.
pub fn project_paragraph(
    source: &ParagraphSource,
    styles: &[LeafStyle],
    paragraph_style: ParagraphStyle,
) -> (result: Result<ProjectedLeaves, SceneError>)
    requires
        styles@.len() == source.leaves@.len(),
    ensures
        projection_matches(
            result,
            projected_leaves(source.id, source.leaves@, styles@, None),
        ),
        result matches Ok(p) ==> p.paragraph == source.id && p.paragraph_style == paragraph_style,
{
    project_leaves(source, styles, paragraph_style, None)
}

/// Projects a paragraph with a composition spliced into its target leaf.
///
/// The composition must name a leaf of this paragraph and at least one
/// replacement taken from that leaf in its base revision; replacements must
/// follow each other and select whole characters, and the target must be
/// among the leaves. Otherwise the composition is invalid.
pub fn project_paragraph_with_composition(
    source: &ParagraphSource,
    styles: &[LeafStyle],
    paragraph_style: ParagraphStyle,
    composition: &CompositionSplice,
) -> (result: Result<ProjectedLeaves, SceneError>)
    requires
        styles@.len() == source.leaves@.len(),
    ensures
        projection_matches(
            result,
            projected_leaves(source.id, source.leaves@, styles@, Some(*composition)),
        ),
        result matches Ok(p) ==> p.paragraph == source.id && p.paragraph_style == paragraph_style,
{
    project_leaves(source, styles, paragraph_style, Some(composition))
}

/// Spans lie end to end from the start of the text to its end.
pub open spec fn spans_tile(spans: Seq<LeafSpan>, len: int) -> bool {
    &&& spans.len() == 0 ==> len == 0
    &&& spans.len() > 0 ==> spans[0].paragraph_start == 0 && spans.last().paragraph_end == len
    &&& forall|i: int|
        0 <= i < spans.len() ==> (#[trigger] spans[i]).paragraph_start <= spans[i].paragraph_end
    &&& forall|i: int|
        0 <= i < spans.len() - 1 ==> (#[trigger] spans[i]).paragraph_end == spans[i
            + 1].paragraph_start
}

/// A projection's provenance and runs partition its text, and every
/// analysis run names an interned style.
pub open spec fn projection_tiles(state: ProjectionState) -> bool {
    &&& state.text.len() <= u32::MAX
    &&& spans_tile(state.spans, state.text.len() as int)
    &&& runs_tile(state.analysis_runs, state.text.len() as u32)
    &&& runs_tile(state.paint_runs, state.text.len() as u32)
    &&& forall|i: int|
        0 <= i < state.analysis_runs.len() ==> (#[trigger] state.analysis_runs[i]).key
            < state.analysis_styles.len()
}

proof fn lemma_apply_keeps_tiling(
    paragraph: ParagraphId,
    state: ProjectionState,
    bytes: Seq<u8>,
    leaf: TextId,
    leaf_len: int,
    source: LeafSpanSource,
    style: LeafStyle,
)
    requires
        projection_tiles(state),
        apply_piece(paragraph, state, bytes, leaf, leaf_len, source, style) is Ok,
    ensures
        projection_tiles(
            apply_piece(paragraph, state, bytes, leaf, leaf_len, source, style)->Ok_0,
        ),
{
    let next = apply_piece(paragraph, state, bytes, leaf, leaf_len, source, style)->Ok_0;
    let start = state.text.len() as int;
    let end = start + bytes.len();
    assert(next.text.len() == end);
    assert(next.spans.drop_last() =~= state.spans);
    assert(spans_tile(next.spans, end)) by {
        assert forall|i: int| 0 <= i < next.spans.len() - 1 implies (#[trigger] next.spans[i]).paragraph_end
            == next.spans[i + 1].paragraph_start by {
            if i < state.spans.len() - 1 {
                assert(next.spans[i] == state.spans[i]);
                assert(next.spans[i + 1] == state.spans[i + 1]);
            }
        }
        assert forall|i: int| 0 <= i < next.spans.len() implies (#[trigger] next.spans[i]).paragraph_start
            <= next.spans[i].paragraph_end by {
            if i < state.spans.len() {
                assert(next.spans[i] == state.spans[i]);
            }
        }
    }
    if start != end {
        let key = interned_key(state.analysis_styles, style.analysis);
        lemma_append_keeps_tiling(state.analysis_runs, start as u32, end as u32, key as u32);
        lemma_append_keeps_tiling(
            state.paint_runs,
            start as u32,
            end as u32,
            style.paint.spec_index(),
        );
        lemma_first_from(
            state.analysis_styles,
            crate::projection::is_style(style.analysis),
            0,
        );
        assert(key < next.analysis_styles.len());
        assert(state.analysis_styles.len() <= next.analysis_styles.len());
        let runs = state.analysis_runs;
        assert forall|i: int| 0 <= i < next.analysis_runs.len() implies (#[trigger] next.analysis_runs[i]).key
            < next.analysis_styles.len() by {
            if i < runs.len() && !(i == runs.len() - 1 && runs.last().end == start as u32
                && runs.last().key == key as u32) {
                assert(next.analysis_runs[i] == runs[i]);
            }
        }
    }
}

proof fn lemma_run_keeps_tiling(
    paragraph: ParagraphId,
    state: ProjectionState,
    steps: Seq<ProjectionStep>,
)
    requires
        projection_tiles(state),
        run_steps(paragraph, state, steps) is Ok,
    ensures
        projection_tiles(run_steps(paragraph, state, steps)->Ok_0),
    decreases steps.len(),
{
    if steps.len() > 0 {
        match steps[0] {
            ProjectionStep::Fail { error } => {},
            ProjectionStep::Piece { bytes, leaf, leaf_len, source, style } => {
                lemma_apply_keeps_tiling(paragraph, state, bytes, leaf, leaf_len, source, style);
                let next = apply_piece(paragraph, state, bytes, leaf, leaf_len, source, style)->Ok_0;
                lemma_run_keeps_tiling(paragraph, next, steps.drop_first());
            },
        }
    }
}

/// Every projection, with or without a composition, partitions its text:
/// the leaf spans lie end to end from its start to its end, the analysis
/// and paint runs cover it without gaps and never split equal neighbours,
/// and every analysis run names an interned style.
pub proof fn lemma_projection_tiles(
    paragraph: ParagraphId,
    leaves: Seq<LeafSource>,
    styles: Seq<LeafStyle>,
    composition: Option<CompositionSplice>,
)
    requires
        projected_leaves(paragraph, leaves, styles, composition) is Ok,
    ensures
        projection_tiles(projected_leaves(paragraph, leaves, styles, composition)->Ok_0),
{
    assert(projection_tiles(empty_projection()));
    lemma_run_keeps_tiling(
        paragraph,
        empty_projection(),
        steps_from(paragraph, leaves, styles, composition, 0),
    );
}

/// Bytes of the leaves from index `i` on.
pub open spec fn leaf_bytes_from(leaves: Seq<LeafSource>, i: int) -> Seq<u8>
    decreases leaves.len() - i,
{
    if 0 <= i < leaves.len() {
        leaf_bytes(leaves[i]) + leaf_bytes_from(leaves, i + 1)
    } else {
        Seq::empty()
    }
}

proof fn lemma_committed_text(
    paragraph: ParagraphId,
    state: ProjectionState,
    leaves: Seq<LeafSource>,
    styles: Seq<LeafStyle>,
    i: int,
)
    requires
        0 <= i <= leaves.len(),
        run_steps(paragraph, state, steps_from(paragraph, leaves, styles, None, i)) is Ok,
    ensures
        run_steps(paragraph, state, steps_from(paragraph, leaves, styles, None, i))->Ok_0.text
            == state.text + leaf_bytes_from(leaves, i),
    decreases leaves.len() - i,
{
    if i == leaves.len() {
        assert(state.text + leaf_bytes_from(leaves, i) =~= state.text);
    } else {
        let piece = piece_of(
            leaves[i],
            leaf_bytes(leaves[i]),
            LeafSpanSource::Snapshot { start: 0 },
            styles[i],
        );
        let rest = steps_from(paragraph, leaves, styles, None, i + 1);
        lemma_run_concat(paragraph, state, seq![piece], rest);
        lemma_run_single(paragraph, state, piece);
        let next = apply_piece(
            paragraph,
            state,
            leaf_bytes(leaves[i]),
            leaves[i].id,
            leaf_bytes(leaves[i]).len() as int,
            LeafSpanSource::Snapshot { start: 0 },
            styles[i],
        )->Ok_0;
        lemma_committed_text(paragraph, next, leaves, styles, i + 1);
        assert(state.text + leaf_bytes_from(leaves, i) =~= (state.text + leaf_bytes(leaves[i]))
            + leaf_bytes_from(leaves, i + 1));
    }
}

proof fn lemma_leaf_bytes_from_text(leaves: Seq<LeafSource>)
    ensures
        leaf_bytes_from(leaves, 0) == encode_utf8(leaves_text(leaves)),
    decreases leaves.len(),
{
    if leaves.len() > 0 {
        let init = leaves.drop_last();
        lemma_leaf_bytes_from_text(init);
        crate::text_utf8::lemma_encode_concat(leaves_text(init), leaves.last().text@);
        lemma_leaf_bytes_split(leaves, 0);
    }
}

proof fn lemma_leaf_bytes_split(leaves: Seq<LeafSource>, i: int)
    requires
        leaves.len() > 0,
        0 <= i < leaves.len(),
    ensures
        leaf_bytes_from(leaves, i) == leaf_bytes_from(leaves.drop_last(), i) + leaf_bytes(
            leaves.last(),
        ),
    decreases leaves.len() - i,
{
    if i == leaves.len() - 1 {
        assert(leaf_bytes_from(leaves.drop_last(), i) =~= Seq::<u8>::empty());
        assert(leaf_bytes_from(leaves, i + 1) =~= Seq::<u8>::empty());
        assert(leaf_bytes_from(leaves, i) =~= leaf_bytes(leaves.last()));
    } else {
        lemma_leaf_bytes_split(leaves, i + 1);
        assert(leaves.drop_last()[i] == leaves[i]);
        assert(leaf_bytes_from(leaves, i) =~= leaf_bytes_from(leaves.drop_last(), i) + leaf_bytes(
            leaves.last(),
        ));
    }
}

/// A committed paragraph projects to exactly the text that
/// `project_text_into` writes: its leaves' text in reading order.
pub proof fn lemma_committed_projection_text(
    paragraph: ParagraphId,
    leaves: Seq<LeafSource>,
    styles: Seq<LeafStyle>,
)
    requires
        projected_leaves(paragraph, leaves, styles, None) is Ok,
    ensures
        projected_leaves(paragraph, leaves, styles, None)->Ok_0.text == encode_utf8(
            leaves_text(leaves),
        ),
{
    lemma_committed_text(paragraph, empty_projection(), leaves, styles, 0);
    lemma_leaf_bytes_from_text(leaves);
    assert(empty_projection().text + leaf_bytes_from(leaves, 0) =~= leaf_bytes_from(leaves, 0));
}

/// Where the walk over spans from index `i` has covered `start..end` up to
/// `covered`, or `None` when a span leaves a gap before it.
pub open spec fn coverage_from(
    spans: Seq<LeafSpan>,
    start: u32,
    end: u32,
    i: int,
    covered: u32,
) -> Option<u32>
    decreases spans.len() - i,
{
    if i < 0 || i >= spans.len() {
        Some(covered)
    } else {
        let low = if start >= spans[i].paragraph_start {
            start
        } else {
            spans[i].paragraph_start
        };
        let high = if end <= spans[i].paragraph_end {
            end
        } else {
            spans[i].paragraph_end
        };
        if low >= high {
            coverage_from(spans, start, end, i + 1, covered)
        } else if low != covered {
            None
        } else {
            coverage_from(spans, start, end, i + 1, high)
        }
    }
}

/// The spans account for the authored range `start..end`: an empty range
/// needs an upstream owning span, and a nonempty one must be covered by
/// span pieces that follow each other without gaps.
pub open spec fn spans_cover(spans: Seq<LeafSpan>, start: u32, end: u32) -> bool {
    if start >= end {
        span_for_position_spec(spans, start, TextAffinity::Upstream) is Some
    } else {
        coverage_from(spans, start, end, 0, start) == Some(end)
    }
}

/// Checks that the spans of a projection account for the authored range
/// `source`, which the projected range `requested` maps to; a gap is a
/// coverage error for `requested`.
pub fn validate_source_range(
    paragraph: ParagraphId,
    spans: &[LeafSpan],
    requested: core::ops::Range<u32>,
    source: core::ops::Range<u32>,
) -> (result: Result<(), SceneError>)
    ensures
        result is Ok <==> spans_cover(spans@, source.start, source.end),
        result matches Err(e) ==> e == SceneError::spec_for_source(
            SceneErrorKind::SourceCoverage,
            paragraph,
            requested,
        ),
{
    if source.start >= source.end {
        return match span_for_position(spans, source.start, TextAffinity::Upstream) {
            Some(_) => Ok(()),
            None => Err(SceneError::for_source(SceneErrorKind::SourceCoverage, paragraph, requested)),
        };
    }
    let mut covered = source.start;
    let mut index: usize = 0;
    while index < spans.len()
        invariant
            index <= spans@.len(),
            source.start < source.end,
            coverage_from(spans@, source.start, source.end, 0, source.start) == coverage_from(
                spans@,
                source.start,
                source.end,
                index as int,
                covered,
            ),
        decreases spans@.len() - index,
    {
        let span = &spans[index];
        let low = if source.start >= span.paragraph_start {
            source.start
        } else {
            span.paragraph_start
        };
        let high = if source.end <= span.paragraph_end {
            source.end
        } else {
            span.paragraph_end
        };
        if low < high {
            if low != covered {
                return Err(SceneError::for_source(SceneErrorKind::SourceCoverage, paragraph, requested));
            }
            covered = high;
        }
        index += 1;
    }
    if covered != source.end {
        return Err(SceneError::for_source(SceneErrorKind::SourceCoverage, paragraph, requested));
    }
    Ok(())
}

/// Where tiling spans have covered `start..end` on reaching span `i`.
spec fn covered_at(spans: Seq<LeafSpan>, len: int, start: u32, end: u32, i: int) -> u32 {
    let boundary = if i < spans.len() {
        spans[i].paragraph_start as int
    } else {
        len
    };
    let reached = if boundary > start {
        boundary
    } else {
        start as int
    };
    (if reached < end {
        reached
    } else {
        end as int
    }) as u32
}

proof fn lemma_tiling_walk(spans: Seq<LeafSpan>, len: int, start: u32, end: u32, i: int)
    requires
        spans_tile(spans, len),
        start < end <= len,
        0 <= i <= spans.len(),
    ensures
        coverage_from(spans, start, end, i, covered_at(spans, len, start, end, i)) == Some(end),
    decreases spans.len() - i,
{
    if i < spans.len() {
        lemma_tiling_walk(spans, len, start, end, i + 1);
        if i + 1 < spans.len() {
            assert(spans[i].paragraph_end == spans[i + 1].paragraph_start);
        } else {
            assert(spans[i] == spans.last());
        }
    }
}

/// Spans that tile a text account for every nonempty range inside it, so a
/// successful projection validates every such range of its text.
pub proof fn lemma_tiling_spans_cover(spans: Seq<LeafSpan>, len: int, start: u32, end: u32)
    requires
        spans_tile(spans, len),
        start < end <= len,
    ensures
        spans_cover(spans, start, end),
{
    lemma_tiling_walk(spans, len, start, end, 0);
    if spans.len() == 0 {
        assert(len == 0);
    } else {
        assert(covered_at(spans, len, start, end, 0) == start);
    }
}

/// Two paragraph sources have the same structure: one identity and the
/// same leaves, by identity, in the same order.
pub open spec fn same_structure(previous: ParagraphSource, current: ParagraphSource) -> bool {
    &&& previous.id == current.id
    &&& previous.leaves@.len() == current.leaves@.len()
    &&& forall|i: int|
        0 <= i < previous.leaves@.len() ==> (#[trigger] previous.leaves@[i]).id
            == current.leaves@[i].id
}

/// Returns whether two sources of a paragraph have the same identity and
/// the same leaves in the same order, whatever their text.
pub fn paragraph_source_structure_matches(
    previous: &ParagraphSource,
    current: &ParagraphSource,
) -> (matches: bool)
    ensures
        matches == same_structure(*previous, *current),
{
    if previous.id != current.id || previous.leaves.len() != current.leaves.len() {
        return false;
    }
    let mut index: usize = 0;
    while index < previous.leaves.len()
        invariant
            index <= previous.leaves@.len(),
            previous.leaves@.len() == current.leaves@.len(),
            forall|i: int|
                0 <= i < index ==> (#[trigger] previous.leaves@[i]).id == current.leaves@[i].id,
        decreases previous.leaves@.len() - index,
    {
        if previous.leaves[index].id != current.leaves[index].id {
            return false;
        }
        index += 1;
    }
    true
}

} // verus!
