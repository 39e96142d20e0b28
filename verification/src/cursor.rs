//! Allocation-free cursor derivation over retained interaction units.
//!
//! This module owns navigation policy over prepared paragraph facts: which
//! caret stops exist, which units lie visually on either side of a caret, and
//! where each visual or logical movement lands.

use vstd::prelude::*;

use crate::adapter::{
    LineBreakReason, PreparedClusterSide, PreparedInteractionUnit, PreparedLine,
    PreparedParagraphFacts,
};
use crate::ids::TextAffinity;

verus! {

/// One interaction unit addressed by line and visual index.
#[derive(Clone, Copy, Debug, PartialEq, Eq, Hash, Structural)]
pub struct CursorCluster {
    /// Line index.
    pub line: usize,
    /// Visual unit index within the line.
    pub unit: usize,
}

/// Where a caret is drawn relative to the prepared units.
#[derive(Clone, Copy, Debug, PartialEq, Eq, Structural)]
pub enum CursorCaretAnchor {
    /// At one visual edge of a unit.
    Unit {
        /// The anchoring unit.
        cluster: CursorCluster,
        /// Whether the caret sits at the unit's visual right edge.
        at_end: bool,
    },
    /// At the start of the last line.
    LastLineStart,
}

/// One movement result: its caret stop and the unit it crossed, if any.
#[derive(Clone, Debug, PartialEq, Eq)]
pub struct DerivedCursorStep {
    /// Caret stop reached by the movement.
    pub target: PreparedClusterSide,
    /// Projected source of the interaction unit crossed.
    pub source: Option<core::ops::Range<u32>>,
}

// ---------------------------------------------------------------------------
// Mathematical model of the navigation queries.
// ---------------------------------------------------------------------------

/// The cluster addresses an existing unit.
pub open spec fn valid_cluster(facts: &PreparedParagraphFacts, c: CursorCluster) -> bool {
    &&& c.line < facts.line_seq().len()
    &&& c.unit < facts.line_seq()[c.line as int].units@.len()
}

/// The unit a valid cluster addresses.
pub open spec fn cluster_unit(facts: &PreparedParagraphFacts, c: CursorCluster)
    -> PreparedInteractionUnit {
    facts.line_seq()[c.line as int].units@[c.unit as int]
}

/// The unit owns the offset when the offset is taken with upstream affinity.
pub open spec fn upstream_contains(u: PreparedInteractionUnit, offset: u32) -> bool {
    u.source_start < offset <= u.source_end
}

/// The unit owns the offset when the offset is taken with downstream affinity.
pub open spec fn downstream_contains(u: PreparedInteractionUnit, offset: u32) -> bool {
    u.source_start <= offset < u.source_end
}

/// The unit that owns `offset` upstream, if any.
pub open spec fn upstream_cluster_spec(facts: &PreparedParagraphFacts, offset: u32) -> Option<
    CursorCluster,
> {
    if exists|c: CursorCluster|
        valid_cluster(facts, c) && upstream_contains(#[trigger] cluster_unit(facts, c), offset) {
        Some(
            choose|c: CursorCluster|
                valid_cluster(facts, c) && upstream_contains(#[trigger] cluster_unit(facts, c), offset),
        )
    } else {
        None
    }
}

/// The unit that owns `offset` downstream, if any.
pub open spec fn downstream_cluster_spec(facts: &PreparedParagraphFacts, offset: u32) -> Option<
    CursorCluster,
> {
    if exists|c: CursorCluster|
        valid_cluster(facts, c) && downstream_contains(#[trigger] cluster_unit(facts, c), offset) {
        Some(
            choose|c: CursorCluster|
                valid_cluster(facts, c) && downstream_contains(
                    #[trigger] cluster_unit(facts, c),
                    offset,
                ),
        )
    } else {
        None
    }
}

/// Whether a line holds at least one unit.
pub open spec fn line_nonempty(facts: &PreparedParagraphFacts, line: int) -> bool {
    facts.line_seq()[line].units@.len() > 0
}

/// First line at or after `line` that holds a unit.
pub open spec fn first_nonempty_from(facts: &PreparedParagraphFacts, line: int) -> Option<int>
    decreases facts.line_seq().len() - line,
{
    if line < 0 || line >= facts.line_seq().len() {
        None
    } else if line_nonempty(facts, line) {
        Some(line)
    } else {
        first_nonempty_from(facts, line + 1)
    }
}

/// Last line before `line` that holds a unit.
pub open spec fn last_nonempty_before(facts: &PreparedParagraphFacts, line: int) -> Option<int>
    decreases line,
{
    if line <= 0 || line > facts.line_seq().len() {
        None
    } else if line_nonempty(facts, line - 1) {
        Some(line - 1)
    } else {
        last_nonempty_before(facts, line - 1)
    }
}

/// The visually last unit of a nonempty line.
pub open spec fn line_last_cluster(facts: &PreparedParagraphFacts, line: int) -> CursorCluster {
    CursorCluster {
        line: line as usize,
        unit: (facts.line_seq()[line].units@.len() - 1) as usize,
    }
}

/// The visually first unit of the paragraph.
pub open spec fn first_cluster_spec(facts: &PreparedParagraphFacts) -> Option<CursorCluster> {
    match first_nonempty_from(facts, 0) {
        Some(line) => Some(CursorCluster { line: line as usize, unit: 0 }),
        None => None,
    }
}

/// The visually last unit of the paragraph.
pub open spec fn last_cluster_spec(facts: &PreparedParagraphFacts) -> Option<CursorCluster> {
    match last_nonempty_before(facts, facts.line_seq().len() as int) {
        Some(line) => Some(line_last_cluster(facts, line)),
        None => None,
    }
}

/// The unit visually before `c` in line order.
pub open spec fn previous_cluster_spec(facts: &PreparedParagraphFacts, c: CursorCluster) -> Option<
    CursorCluster,
> {
    if c.unit > 0 {
        Some(CursorCluster { line: c.line, unit: (c.unit - 1) as usize })
    } else {
        match last_nonempty_before(facts, c.line as int) {
            Some(line) => Some(line_last_cluster(facts, line)),
            None => None,
        }
    }
}

/// The unit visually after `c` in line order.
pub open spec fn next_cluster_spec(facts: &PreparedParagraphFacts, c: CursorCluster) -> Option<
    CursorCluster,
> {
    if c.line >= facts.line_seq().len() {
        None
    } else if c.unit + 1 < facts.line_seq()[c.line as int].units@.len() {
        Some(CursorCluster { line: c.line, unit: (c.unit + 1) as usize })
    } else {
        match first_nonempty_from(facts, c.line + 1) {
            Some(line) => Some(CursorCluster { line: line as usize, unit: 0 }),
            None => None,
        }
    }
}

/// Whether the unit has an odd (right-to-left) bidi level.
pub open spec fn is_rtl_spec(facts: &PreparedParagraphFacts, c: CursorCluster) -> bool {
    valid_cluster(facts, c) && cluster_unit(facts, c).bidi_level % 2 == 1
}

/// Whether the unit is visually last on its line.
pub open spec fn is_end_of_line_spec(facts: &PreparedParagraphFacts, c: CursorCluster) -> bool {
    c.line < facts.line_seq().len() && c.unit + 1 == facts.line_seq()[c.line as int].units@.len()
}

/// Whether the unit ends a softly wrapped line.
pub open spec fn is_soft_line_end_spec(facts: &PreparedParagraphFacts, c: CursorCluster) -> bool {
    is_end_of_line_spec(facts, c) && facts.line_seq()[c.line as int].break_reason
        == LineBreakReason::Regular
}

/// Whether the unit ends a line at a mandatory break.
pub open spec fn is_hard_line_end_spec(facts: &PreparedParagraphFacts, c: CursorCluster) -> bool {
    is_end_of_line_spec(facts, c) && facts.line_seq()[c.line as int].break_reason
        == LineBreakReason::Mandatory
}

/// The canonical caret stop for an offset and affinity.
///
/// Offsets beyond the text map to an impossible stop; text without units has
/// one stop at its end; an offset inside a unit snaps to that unit's start;
/// anything else snaps to the end of the text.
pub open spec fn normalize_spec(facts: &PreparedParagraphFacts, offset: u32, affinity: TextAffinity)
    -> PreparedClusterSide {
    let len = facts.text_len_spec();
    if offset > len {
        PreparedClusterSide { offset: u32::MAX, affinity }
    } else if first_cluster_spec(facts) is None {
        PreparedClusterSide {
            offset: len,
            affinity: if len == 0 {
                TextAffinity::Downstream
            } else {
                TextAffinity::Upstream
            },
        }
    } else if let Some(c) = downstream_cluster_spec(facts, offset) {
        let start = cluster_unit(facts, c).source_start;
        PreparedClusterSide {
            offset: start,
            affinity: if start == 0 {
                TextAffinity::Downstream
            } else {
                affinity
            },
        }
    } else {
        PreparedClusterSide { offset: len, affinity: TextAffinity::Upstream }
    }
}

/// A position is a caret stop when it is its own canonical stop.
pub open spec fn is_caret_stop(facts: &PreparedParagraphFacts, position: PreparedClusterSide) -> bool {
    facts.selection_spec() && normalize_spec(facts, position.offset, position.affinity) == position
}

/// The units visually left and right of a caret.
pub open spec fn visual_clusters_spec(facts: &PreparedParagraphFacts, p: PreparedClusterSide) -> (
    Option<CursorCluster>,
    Option<CursorCluster>,
) {
    let upstream = upstream_cluster_spec(facts, p.offset);
    let downstream = downstream_cluster_spec(facts, p.offset);
    if p.affinity == TextAffinity::Upstream {
        if let Some(c) = upstream {
            if is_rtl_spec(facts, c) {
                (previous_cluster_spec(facts, c), Some(c))
            } else {
                (Some(c), next_cluster_spec(facts, c))
            }
        } else if let Some(c) = downstream {
            if is_rtl_spec(facts, c) {
                (None, Some(c))
            } else {
                (Some(c), None)
            }
        } else {
            (None, None)
        }
    } else if let Some(c) = downstream {
        if is_rtl_spec(facts, c) {
            (Some(c), next_cluster_spec(facts, c))
        } else {
            (previous_cluster_spec(facts, c), Some(c))
        }
    } else if let Some(c) = upstream {
        if is_rtl_spec(facts, c) {
            (None, Some(c))
        } else {
            (Some(c), None)
        }
    } else {
        (None, None)
    }
}

/// Affinity of a caret stop reached by crossing a unit in one visual direction.
pub open spec fn affinity_for_visual_direction_spec(rtl: bool, moving_right: bool) -> TextAffinity {
    if rtl == moving_right {
        TextAffinity::Downstream
    } else {
        TextAffinity::Upstream
    }
}

/// Whether the affinity of a caret faces the unit on its left: upstream
/// for a left-to-right unit, downstream for a right-to-left one.
pub open spec fn faces_left_unit(facts: &PreparedParagraphFacts, l: CursorCluster, affinity: TextAffinity) -> bool {
    if is_rtl_spec(facts, l) {
        affinity == TextAffinity::Downstream
    } else {
        affinity == TextAffinity::Upstream
    }
}

/// Whether a caret between two units is drawn at the end of the left one:
/// always inside a line; after a soft line end only when its affinity faces
/// that unit; never after a mandatory break.
pub open spec fn anchors_left(facts: &PreparedParagraphFacts, l: CursorCluster, affinity: TextAffinity) -> bool {
    !is_end_of_line_spec(facts, l) || (is_soft_line_end_spec(facts, l) && faces_left_unit(facts, l, affinity))
}

/// Where the caret is drawn: at the end of the unit on its left when it
/// anchors there, otherwise at the start of the unit on its right; after a
/// final mandatory break, or with no unit at all, at the start of the last
/// line.
pub open spec fn caret_anchor_spec(facts: &PreparedParagraphFacts, p: PreparedClusterSide)
    -> CursorCaretAnchor {
    match visual_clusters_spec(facts, p) {
        (Some(l), Some(r)) => if anchors_left(facts, l, p.affinity) {
            CursorCaretAnchor::Unit { cluster: l, at_end: true }
        } else {
            CursorCaretAnchor::Unit { cluster: r, at_end: false }
        },
        (Some(l), None) => if is_hard_line_end_spec(facts, l) {
            CursorCaretAnchor::LastLineStart
        } else {
            CursorCaretAnchor::Unit { cluster: l, at_end: true }
        },
        (None, Some(r)) => CursorCaretAnchor::Unit { cluster: r, at_end: false },
        (None, None) => CursorCaretAnchor::LastLineStart,
    }
}

/// A movement that crossed the unit `c`, landing on `offset`.
pub open spec fn crossed_step(
    facts: &PreparedParagraphFacts,
    c: CursorCluster,
    offset: u32,
    affinity: TextAffinity,
) -> DerivedCursorStep {
    let u = cluster_unit(facts, c);
    DerivedCursorStep {
        target: normalize_spec(facts, offset, affinity),
        source: Some(u.source_start..u.source_end),
    }
}

/// A movement across a soft line end that crosses no unit.
pub open spec fn wrap_step(facts: &PreparedParagraphFacts, offset: u32, affinity: TextAffinity)
    -> DerivedCursorStep {
    DerivedCursorStep { target: normalize_spec(facts, offset, affinity), source: None }
}

/// The step that crosses `c` moving visually right.
pub open spec fn step_after_visual_spec(facts: &PreparedParagraphFacts, c: CursorCluster) -> Option<
    DerivedCursorStep,
> {
    if !valid_cluster(facts, c) {
        None
    } else {
        let u = cluster_unit(facts, c);
        let rtl = is_rtl_spec(facts, c);
        Some(
            crossed_step(
                facts,
                c,
                if rtl {
                    u.source_start
                } else {
                    u.source_end
                },
                affinity_for_visual_direction_spec(rtl, true),
            ),
        )
    }
}

/// Visual start or end of the unit to the right of a wrapped line end.
pub open spec fn wrapped_right_offset(facts: &PreparedParagraphFacts, r: CursorCluster) -> u32 {
    let u = cluster_unit(facts, r);
    if is_rtl_spec(facts, r) {
        u.source_end
    } else {
        u.source_start
    }
}

/// Result of moving one caret stop left.
pub open spec fn previous_visual_spec(facts: &PreparedParagraphFacts, p: PreparedClusterSide)
    -> Option<DerivedCursorStep> {
    let (left, right) = visual_clusters_spec(facts, p);
    if left is Some && right is Some && is_soft_line_end_spec(facts, left->0) && ((is_rtl_spec(
        facts,
        left->0,
    ) && p.affinity == TextAffinity::Upstream) || (!is_rtl_spec(facts, left->0) && p.affinity
        == TextAffinity::Downstream)) {
        let l = left->0;
        let r = right->0;
        if is_rtl_spec(facts, l) {
            // Crossing from a right-to-left wrapped line end.
            if !valid_cluster(facts, l) {
                None
            } else {
                let ul = cluster_unit(facts, l);
                Some(
                    wrap_step(
                        facts,
                        if is_rtl_spec(facts, r) {
                            ul.source_start
                        } else {
                            ul.source_end
                        },
                        TextAffinity::Downstream,
                    ),
                )
            }
        } else if !valid_cluster(facts, r) {
            None
        } else {
            Some(wrap_step(facts, wrapped_right_offset(facts, r), TextAffinity::Upstream))
        }
    } else if let Some(l) = left {
        if !valid_cluster(facts, l) {
            None
        } else {
            let u = cluster_unit(facts, l);
            let rtl = is_rtl_spec(facts, l);
            Some(
                crossed_step(
                    facts,
                    l,
                    if rtl {
                        u.source_end
                    } else {
                        u.source_start
                    },
                    affinity_for_visual_direction_spec(rtl, false),
                ),
            )
        }
    } else {
        None
    }
}

/// Result of moving one caret stop right.
pub open spec fn next_visual_spec(facts: &PreparedParagraphFacts, p: PreparedClusterSide) -> Option<
    DerivedCursorStep,
> {
    let (left, right) = visual_clusters_spec(facts, p);
    if left is Some && right is Some {
        let l = left->0;
        let r = right->0;
        if is_soft_line_end_spec(facts, l) && ((is_rtl_spec(facts, l) && p.affinity
            == TextAffinity::Downstream) || (!is_rtl_spec(facts, l) && p.affinity
            == TextAffinity::Upstream)) {
            if !valid_cluster(facts, r) {
                None
            } else {
                Some(
                    wrap_step(
                        facts,
                        wrapped_right_offset(facts, r),
                        if is_rtl_spec(facts, l) {
                            TextAffinity::Upstream
                        } else {
                            TextAffinity::Downstream
                        },
                    ),
                )
            }
        } else {
            step_after_visual_spec(facts, r)
        }
    } else if let Some(r) = right {
        step_after_visual_spec(facts, r)
    } else {
        None
    }
}

/// Result of moving across the preceding unit in logical order.
pub open spec fn previous_logical_spec(facts: &PreparedParagraphFacts, p: PreparedClusterSide)
    -> Option<DerivedCursorStep> {
    match upstream_cluster_spec(facts, p.offset) {
        Some(c) => Some(
            crossed_step(facts, c, cluster_unit(facts, c).source_start, TextAffinity::Downstream),
        ),
        None => None,
    }
}

/// Result of moving across the following unit in logical order.
pub open spec fn next_logical_spec(facts: &PreparedParagraphFacts, p: PreparedClusterSide) -> Option<
    DerivedCursorStep,
> {
    match downstream_cluster_spec(facts, p.offset) {
        Some(c) => Some(
            crossed_step(facts, c, cluster_unit(facts, c).source_end, TextAffinity::Upstream),
        ),
        None => None,
    }
}


/// Whether the unit owns the offset in the given direction.
pub open spec fn contains_dir(u: PreparedInteractionUnit, offset: u32, upstream: bool) -> bool {
    if upstream {
        upstream_contains(u, offset)
    } else {
        downstream_contains(u, offset)
    }
}

/// Whether a source span ends before the offset in the given direction.
pub open spec fn ends_before(end: u32, offset: u32, upstream: bool) -> bool {
    if upstream {
        end < offset
    } else {
        end <= offset
    }
}

// ---------------------------------------------------------------------------
// Structural lemmas.
// ---------------------------------------------------------------------------

proof fn lemma_rank_of(line: PreparedLine, text_len: u32, visual: int) -> (rank: int)
    requires
        line.wf(text_len),
        0 <= visual < line.units@.len(),
    ensures
        0 <= rank < line.units@.len(),
        line.source_order@[rank] == visual,
        line.rank_unit(rank) == line.units@[visual],
{
    assert(line.has_rank(visual));
    choose|r: int| 0 <= r < line.source_order@.len() && #[trigger] line.source_order@[r] == visual
}

/// A unit lies inside its line's source.
proof fn lemma_unit_in_line(facts: &PreparedParagraphFacts, c: CursorCluster)
    requires
        facts.wf(),
        valid_cluster(facts, c),
    ensures
        facts.line_seq()[c.line as int].source_start <= cluster_unit(facts, c).source_start
            < cluster_unit(facts, c).source_end <= facts.line_seq()[c.line as int].source_end,
{
    let line = facts.line_seq()[c.line as int];
    assert(line.wf(facts.text_len_spec()));
    let r = lemma_rank_of(line, facts.text_len_spec(), c.unit as int);
    assert(line.rank_unit(r) == cluster_unit(facts, c));
}

/// At most one unit owns an offset in either direction.
proof fn lemma_owner_unique(
    facts: &PreparedParagraphFacts,
    c1: CursorCluster,
    c2: CursorCluster,
    offset: u32,
    upstream: bool,
)
    requires
        facts.wf(),
        valid_cluster(facts, c1),
        valid_cluster(facts, c2),
        contains_dir(cluster_unit(facts, c1), offset, upstream),
        contains_dir(cluster_unit(facts, c2), offset, upstream),
    ensures
        c1 == c2,
{
    let lines = facts.line_seq();
    lemma_unit_in_line(facts, c1);
    lemma_unit_in_line(facts, c2);
    if c1.line < c2.line {
        assert(lines[c1.line as int].source_end <= lines[c2.line as int].source_start);
    } else if c2.line < c1.line {
        assert(lines[c2.line as int].source_end <= lines[c1.line as int].source_start);
    } else {
        let line = lines[c1.line as int];
        assert(line.wf(facts.text_len_spec()));
        let r1 = lemma_rank_of(line, facts.text_len_spec(), c1.unit as int);
        let r2 = lemma_rank_of(line, facts.text_len_spec(), c2.unit as int);
        if r1 < r2 {
            assert(line.rank_unit(r1).source_end <= line.rank_unit(r2).source_start);
        } else if r2 < r1 {
            assert(line.rank_unit(r2).source_end <= line.rank_unit(r1).source_start);
        }
    }
}

/// A found owner is the owner the model chooses.
proof fn lemma_owner_is_model(facts: &PreparedParagraphFacts, c: CursorCluster, offset: u32, upstream: bool)
    requires
        facts.wf(),
        valid_cluster(facts, c),
        contains_dir(cluster_unit(facts, c), offset, upstream),
    ensures
        upstream ==> upstream_cluster_spec(facts, offset) == Some(c),
        !upstream ==> downstream_cluster_spec(facts, offset) == Some(c),
{
    if upstream {
        let other = choose|o: CursorCluster|
            valid_cluster(facts, o) && upstream_contains(#[trigger] cluster_unit(facts, o), offset);
        lemma_owner_unique(facts, c, other, offset, true);
    } else {
        let other = choose|o: CursorCluster|
            valid_cluster(facts, o) && downstream_contains(#[trigger] cluster_unit(facts, o), offset);
        lemma_owner_unique(facts, c, other, offset, false);
    }
}

/// The first nonempty line found from `line` is a nonempty line at or after it.
proof fn lemma_first_nonempty_from(facts: &PreparedParagraphFacts, line: int)
    ensures
        first_nonempty_from(facts, line) matches Some(k) ==> line <= k < facts.line_seq().len()
            && line_nonempty(facts, k),
    decreases facts.line_seq().len() - line,
{
    if !(line < 0 || line >= facts.line_seq().len()) && !line_nonempty(facts, line) {
        lemma_first_nonempty_from(facts, line + 1);
    }
}

/// The last nonempty line found before `line` is a nonempty line before it.
proof fn lemma_last_nonempty_before(facts: &PreparedParagraphFacts, line: int)
    ensures
        last_nonempty_before(facts, line) matches Some(k) ==> 0 <= k < line && k
            < facts.line_seq().len() && line_nonempty(facts, k),
    decreases line,
{
    if !(line <= 0 || line > facts.line_seq().len()) && !line_nonempty(facts, line - 1) {
        lemma_last_nonempty_before(facts, line - 1);
    }
}

proof fn lemma_odd_bit(x: u8)
    ensures
        (x & 1 == 1) == (x % 2 == 1),
{
    assert((x & 1 == 1) == (x % 2 == 1)) by (bit_vector);
}

/// A nonempty line at or after `line` makes the search from `line` succeed.
proof fn lemma_first_nonempty_found(facts: &PreparedParagraphFacts, line: int, k: int)
    requires
        0 <= line <= k < facts.line_seq().len(),
        line_nonempty(facts, k),
    ensures
        first_nonempty_from(facts, line) is Some,
    decreases k - line,
{
    if !line_nonempty(facts, line) {
        lemma_first_nonempty_found(facts, line + 1, k);
    }
}

/// Two units of the paragraph are equal or do not overlap.
proof fn lemma_units_apart(facts: &PreparedParagraphFacts, c: CursorCluster, d: CursorCluster)
    requires
        facts.wf(),
        valid_cluster(facts, c),
        valid_cluster(facts, d),
        c != d,
    ensures
        cluster_unit(facts, c).source_end <= cluster_unit(facts, d).source_start
            || cluster_unit(facts, d).source_end <= cluster_unit(facts, c).source_start,
{
    let uc = cluster_unit(facts, c);
    let ud = cluster_unit(facts, d);
    lemma_unit_in_line(facts, c);
    lemma_unit_in_line(facts, d);
    if uc.source_start <= ud.source_start && ud.source_start < uc.source_end {
        lemma_owner_unique(facts, c, d, ud.source_start, false);
    } else if ud.source_start <= uc.source_start && uc.source_start < ud.source_end {
        lemma_owner_unique(facts, c, d, uc.source_start, false);
    }
}

/// Where a caret lands after crossing unit `c` forward: at the unit's end,
/// with upstream affinity, when that end is the end of the text or the start
/// of another unit.
proof fn lemma_landing_after(facts: &PreparedParagraphFacts, c: CursorCluster)
    requires
        facts.wf(),
        valid_cluster(facts, c),
        cluster_unit(facts, c).source_end == facts.text_len_spec() || exists|d: CursorCluster|
            valid_cluster(facts, d) && (#[trigger] cluster_unit(facts, d)).source_start
                == cluster_unit(facts, c).source_end,
    ensures
        normalize_spec(facts, cluster_unit(facts, c).source_end, TextAffinity::Upstream)
            == (PreparedClusterSide {
            offset: cluster_unit(facts, c).source_end,
            affinity: TextAffinity::Upstream,
        }),
{
    let u = cluster_unit(facts, c);
    let lines = facts.line_seq();
    lemma_unit_in_line(facts, c);
    assert(lines[c.line as int].wf(facts.text_len_spec()));
    assert(line_nonempty(facts, c.line as int));
    lemma_first_nonempty_found(facts, 0, c.line as int);
    match downstream_cluster_spec(facts, u.source_end) {
        Some(d) => {
            let ud = cluster_unit(facts, d);
            lemma_unit_in_line(facts, d);
            if d == c {
            } else {
                lemma_units_apart(facts, c, d);
            }
        },
        None => {
            if u.source_end != facts.text_len_spec() {
                let d = choose|d: CursorCluster|
                    valid_cluster(facts, d) && (#[trigger] cluster_unit(facts, d)).source_start
                        == u.source_end;
                lemma_unit_in_line(facts, d);
                assert(downstream_contains(cluster_unit(facts, d), u.source_end));
            }
        },
    }
}

/// The unit ends the text, or another unit starts where it ends.
pub open spec fn followed_or_final(facts: &PreparedParagraphFacts, c: CursorCluster) -> bool {
    cluster_unit(facts, c).source_end == facts.text_len_spec() || exists|d: CursorCluster|
        valid_cluster(facts, d) && (#[trigger] cluster_unit(facts, d)).source_start
            == cluster_unit(facts, c).source_end
}

/// Crossing one unit forward and then back restores the caret and crosses
/// the same unit, wherever the crossed unit ends the text or is followed
/// directly by another unit.
pub proof fn lemma_logical_round_trip(facts: &PreparedParagraphFacts, p: PreparedClusterSide)
    requires
        facts.wf(),
        is_caret_stop(facts, p),
        p.affinity == TextAffinity::Downstream,
        next_logical_spec(facts, p) is Some,
        followed_or_final(facts, downstream_cluster_spec(facts, p.offset)->0),
    ensures
        next_logical_spec(facts, p) matches Some(s) && s.source is Some && previous_logical_spec(
            facts,
            s.target,
        ) == Some(DerivedCursorStep { target: p, source: s.source }),
{
    let c = downstream_cluster_spec(facts, p.offset)->0;
    let u = cluster_unit(facts, c);
    let lines = facts.line_seq();
    lemma_unit_in_line(facts, c);
    assert(lines[c.line as int].wf(facts.text_len_spec()));
    assert(line_nonempty(facts, c.line as int));
    lemma_first_nonempty_found(facts, 0, c.line as int);
    assert(p.offset == u.source_start);
    lemma_landing_after(facts, c);
    assert(upstream_contains(u, u.source_end));
    lemma_owner_is_model(facts, c, u.source_end, true);
}

// ---------------------------------------------------------------------------
// Executable navigation.
// ---------------------------------------------------------------------------

/// Allocation-free navigation over one paragraph's prepared facts.
#[derive(Clone, Copy, Debug)]
pub struct ParagraphCursor<'a> {
    facts: &'a PreparedParagraphFacts,
}

/// A caret stop of one paragraph together with its navigation context.
#[derive(Clone, Copy, Debug)]
pub struct CursorMovement<'a> {
    cursor: ParagraphCursor<'a>,
    position: PreparedClusterSide,
}

/// First line index in `lines` whose end does not lie before `offset`.
fn partition_lines(lines: &[PreparedLine], offset: u32, upstream: bool) -> (index: usize)
    requires
        forall|l: int| 0 <= l < lines@.len() ==> (#[trigger] lines@[l]).source_start
            <= lines@[l].source_end,
        forall|l1: int, l2: int|
            0 <= l1 < l2 < lines@.len() ==> (#[trigger] lines@[l1]).source_end <= (
            #[trigger] lines@[l2]).source_start,
    ensures
        index <= lines@.len(),
        forall|l: int| 0 <= l < index ==> ends_before(#[trigger] lines@[l].source_end, offset, upstream),
        index < lines@.len() ==> !ends_before(lines@[index as int].source_end, offset, upstream),
{
    let mut start: usize = 0;
    let mut end: usize = lines.len();
    while start < end
        invariant
            0 <= start <= end <= lines@.len(),
            forall|l: int| 0 <= l < lines@.len() ==> (#[trigger] lines@[l]).source_start
                <= lines@[l].source_end,
            forall|l1: int, l2: int|
                0 <= l1 < l2 < lines@.len() ==> (#[trigger] lines@[l1]).source_end <= (
                #[trigger] lines@[l2]).source_start,
            forall|l: int| 0 <= l < start ==> ends_before(#[trigger] lines@[l].source_end, offset, upstream),
            forall|l: int| end <= l < lines@.len() ==> !ends_before(#[trigger] lines@[l].source_end, offset, upstream),
        decreases end - start,
    {
        let middle = start + (end - start) / 2;
        let line_end = lines[middle].source_end;
        let before = if upstream {
            line_end < offset
        } else {
            line_end <= offset
        };
        if before {
            proof {
                assert forall|l: int| 0 <= l <= middle implies ends_before(#[trigger] lines@[l].source_end, offset, upstream) by {
                    if l < middle {
                        assert(lines@[l].source_end <= lines@[middle as int].source_start);
                    }
                }
            }
            start = middle + 1;
        } else {
            proof {
                assert forall|l: int| middle <= l < lines@.len() implies !ends_before(#[trigger] lines@[l].source_end, offset, upstream) by {
                    if l > middle {
                        assert(lines@[middle as int].source_end <= lines@[l].source_start);
                    }
                }
            }
            end = middle;
        }
    }
    start
}

impl<'a> ParagraphCursor<'a> {
    /// The navigated facts.
    pub closed spec fn facts(self) -> &'a PreparedParagraphFacts {
        self.facts
    }

    /// Creates a cursor over one paragraph's prepared facts.
    pub fn new(facts: &'a PreparedParagraphFacts) -> (cursor: Self)
        ensures
            cursor.facts() == facts,
    {
        Self { facts }
    }

    /// Returns the number of caret stops.
    ///
    /// A paragraph without selection capability has none; one without units
    /// has exactly one; otherwise every unit contributes two sides.
    pub fn count(self) -> (count: usize)
        ensures
            ({
                let lines = self.facts().line_seq();
                let total = units_before_all(lines);
                count == if !self.facts().selection_spec() {
                    0
                } else if total == 0 {
                    1
                } else if 2 * total > usize::MAX {
                    usize::MAX as int
                } else {
                    2 * total
                }
            }),
    {
        if !self.facts.has_selection() {
            return 0;
        }
        let lines = self.facts.lines();
        let mut units: usize = 0;
        let mut index: usize = 0;
        while index < lines.len()
            invariant
                0 <= index <= lines@.len(),
                lines@ == self.facts().line_seq(),
                self.facts().wf(),
                units == crate::adapter::units_before(lines@, index as int),
            decreases lines@.len() - index,
        {
            proof {
                crate::adapter::lemma_units_before_monotonic(lines@, index as int + 1, lines@.len() as int);
            }
            units = units + lines[index].units.len();
            index += 1;
        }
        if units == 0 {
            1
        } else {
            match units.checked_mul(2) {
                Some(doubled) => doubled,
                None => usize::MAX,
            }
        }
    }

    /// Returns the movement context for a caret stop, or `None` when the
    /// position is not a canonical caret stop.
    pub fn get(self, position: PreparedClusterSide) -> (movement: Option<CursorMovement<'a>>)
        ensures
            movement is Some <==> is_caret_stop(self.facts(), position),
            movement matches Some(m) ==> m.cursor() == self && m.position() == position,
    {
        if !self.facts.has_selection() || self.normalize(position.offset, position.affinity)
            != position {
            return None;
        }
        Some(CursorMovement { cursor: self, position })
    }

    /// Returns the logical start stop.
    pub fn start(self) -> (movement: Option<CursorMovement<'a>>)
        ensures
            ({
                let p = PreparedClusterSide { offset: 0, affinity: TextAffinity::Downstream };
                &&& movement is Some <==> is_caret_stop(self.facts(), p)
                &&& movement matches Some(m) ==> m.cursor() == self && m.position() == p
            }),
    {
        self.get(PreparedClusterSide::new(0, TextAffinity::Downstream))
    }

    /// Returns the logical end stop.
    pub fn end(self) -> (movement: Option<CursorMovement<'a>>)
        ensures
            ({
                let p = if first_cluster_spec(self.facts()) is None {
                    PreparedClusterSide { offset: 0, affinity: TextAffinity::Downstream }
                } else {
                    PreparedClusterSide {
                        offset: self.facts().text_len_spec(),
                        affinity: TextAffinity::Upstream,
                    }
                };
                &&& movement is Some <==> is_caret_stop(self.facts(), p)
                &&& movement matches Some(m) ==> m.cursor() == self && m.position() == p
            }),
    {
        if self.first_cluster().is_none() {
            return self.start();
        }
        self.get(PreparedClusterSide::new(self.facts.text_len(), TextAffinity::Upstream))
    }

    /// Returns the visually leftmost stop.
    pub fn first_visual(self) -> (movement: Option<CursorMovement<'a>>)
        ensures
            ({
                let p = match first_cluster_spec(self.facts()) {
                    Some(c) => cluster_unit(self.facts(), c).left,
                    None => PreparedClusterSide { offset: 0, affinity: TextAffinity::Downstream },
                };
                &&& movement is Some <==> is_caret_stop(self.facts(), p)
                &&& movement matches Some(m) ==> m.cursor() == self && m.position() == p
            }),
    {
        proof {
            use_type_invariant(self.facts);
            lemma_first_nonempty_from(self.facts(), 0);
        }
        let position = match self.first_cluster() {
            Some(cluster) => match self.unit(cluster) {
                Some(unit) => unit.left(),
                None => PreparedClusterSide::new(0, TextAffinity::Downstream),
            },
            None => PreparedClusterSide::new(0, TextAffinity::Downstream),
        };
        self.get(position)
    }

    /// Returns the visually rightmost stop.
    pub fn last_visual(self) -> (movement: Option<CursorMovement<'a>>)
        ensures
            ({
                let p = match last_cluster_spec(self.facts()) {
                    Some(c) => cluster_unit(self.facts(), c).right,
                    None => PreparedClusterSide {
                        offset: self.facts().text_len_spec(),
                        affinity: TextAffinity::Upstream,
                    },
                };
                &&& movement is Some <==> is_caret_stop(self.facts(), p)
                &&& movement matches Some(m) ==> m.cursor() == self && m.position() == p
            }),
    {
        proof {
            use_type_invariant(self.facts);
            lemma_last_nonempty_before(self.facts(), self.facts().line_seq().len() as int);
        }
        let position = match self.last_cluster() {
            Some(cluster) => match self.unit(cluster) {
                Some(unit) => unit.right(),
                None => PreparedClusterSide::new(self.facts.text_len(), TextAffinity::Upstream),
            },
            None => PreparedClusterSide::new(self.facts.text_len(), TextAffinity::Upstream),
        };
        self.get(position)
    }

    /// Snaps an offset to its canonical caret stop.
    pub fn normalize(self, offset: u32, affinity: TextAffinity) -> (side: PreparedClusterSide)
        ensures
            side == normalize_spec(self.facts(), offset, affinity),
    {
        let text_len = self.facts.text_len();
        if offset > text_len {
            return PreparedClusterSide::new(u32::MAX, affinity);
        }
        if self.first_cluster().is_none() {
            return PreparedClusterSide::new(
                text_len,
                if text_len == 0 {
                    TextAffinity::Downstream
                } else {
                    TextAffinity::Upstream
                },
            );
        }
        if let Some(cluster) = self.downstream_cluster(offset) {
            if let Some(unit) = self.unit(cluster) {
                let start = unit.source_start;
                return PreparedClusterSide::new(
                    start,
                    if start == 0 {
                        TextAffinity::Downstream
                    } else {
                        affinity
                    },
                );
            }
        }
        PreparedClusterSide::new(text_len, TextAffinity::Upstream)
    }

    /// Returns the units visually left and right of a caret.
    pub fn visual_clusters(self, position: PreparedClusterSide) -> (clusters: (
        Option<CursorCluster>,
        Option<CursorCluster>,
    ))
        ensures
            clusters == visual_clusters_spec(self.facts(), position),
    {
        let upstream = self.upstream_cluster(position.offset);
        let downstream = self.downstream_cluster(position.offset);
        if position.affinity == TextAffinity::Upstream {
            if let Some(cluster) = upstream {
                if self.is_rtl(cluster) {
                    (self.previous_cluster(cluster), Some(cluster))
                } else {
                    (Some(cluster), self.next_cluster(cluster))
                }
            } else if let Some(cluster) = downstream {
                if self.is_rtl(cluster) {
                    (None, Some(cluster))
                } else {
                    (Some(cluster), None)
                }
            } else {
                (None, None)
            }
        } else if let Some(cluster) = downstream {
            if self.is_rtl(cluster) {
                (Some(cluster), self.next_cluster(cluster))
            } else {
                (self.previous_cluster(cluster), Some(cluster))
            }
        } else if let Some(cluster) = upstream {
            if self.is_rtl(cluster) {
                (None, Some(cluster))
            } else {
                (Some(cluster), None)
            }
        } else {
            (None, None)
        }
    }

    /// Returns the unit owning `offset` with upstream affinity.
    pub fn upstream_cluster(self, offset: u32) -> (cluster: Option<CursorCluster>)
        ensures
            cluster == upstream_cluster_spec(self.facts(), offset),
            cluster matches Some(c) ==> valid_cluster(self.facts(), c),
    {
        self.owner_cluster(offset, true)
    }

    /// Returns the unit owning `offset` with downstream affinity.
    pub fn downstream_cluster(self, offset: u32) -> (cluster: Option<CursorCluster>)
        ensures
            cluster == downstream_cluster_spec(self.facts(), offset),
            cluster matches Some(c) ==> valid_cluster(self.facts(), c),
    {
        self.owner_cluster(offset, false)
    }

    fn owner_cluster(self, offset: u32, upstream: bool) -> (cluster: Option<CursorCluster>)
        ensures
            upstream ==> cluster == upstream_cluster_spec(self.facts(), offset),
            !upstream ==> cluster == downstream_cluster_spec(self.facts(), offset),
            cluster matches Some(c) ==> valid_cluster(self.facts(), c),
    {
        let lines = self.facts.lines();
        proof {
            assert forall|l: int| 0 <= l < lines@.len() implies (#[trigger] lines@[l]).source_start
                <= lines@[l].source_end by {
                assert(lines@[l].wf(self.facts().text_len_spec()));
            }
        }
        let line_index = partition_lines(lines, offset, upstream);
        let found = if line_index < lines.len() {
            let line = &lines[line_index];
            let inside = if upstream {
                line.source_start < offset && offset <= line.source_end
            } else {
                line.source_start <= offset && offset < line.source_end
            };
            if inside {
                self.find_unit(line, line_index, offset, upstream)
            } else {
                None
            }
        } else {
            None
        };
        proof {
            let facts = self.facts();
            match found {
                Some(c) => {
                    lemma_owner_is_model(facts, c, offset, upstream);
                },
                None => {
                    assert forall|c: CursorCluster|
                        valid_cluster(facts, c) implies !contains_dir(
                        #[trigger] cluster_unit(facts, c),
                        offset,
                        upstream,
                    ) by {
                        if contains_dir(cluster_unit(facts, c), offset, upstream) {
                            lemma_unit_in_line(facts, c);
                            if (c.line as int) < line_index {
                                assert(ends_before(lines@[c.line as int].source_end, offset, upstream));
                            } else if (c.line as int) > line_index {
                                assert(lines@[line_index as int].source_end
                                    <= lines@[c.line as int].source_start);
                            }
                        }
                    }
                },
            }
        }
        found
    }

    /// Binary search over one line's units in logical order.
    fn find_unit(self, line: &PreparedLine, line_index: usize, offset: u32, upstream: bool) -> (cluster:
        Option<CursorCluster>)
        requires
            self.facts().wf(),
            line_index < self.facts().line_seq().len(),
            *line == self.facts().line_seq()[line_index as int],
        ensures
            cluster matches Some(c) ==> {
                &&& c.line == line_index
                &&& valid_cluster(self.facts(), c)
                &&& contains_dir(cluster_unit(self.facts(), c), offset, upstream)
            },
            cluster is None ==> forall|v: int|
                0 <= v < line.units@.len() ==> !contains_dir(#[trigger] line.units@[v], offset, upstream),
    {
        let ghost text_len = self.facts().text_len_spec();
        assert(line.wf(text_len));
        let n = line.units.len();
        let mut start: usize = 0;
        let mut end: usize = n;
        while start < end
            invariant
                0 <= start <= end <= n,
                n == line.units@.len(),
                line.wf(text_len),
                forall|r: int| 0 <= r < start ==> ends_before(#[trigger] line.rank_unit(r).source_end, offset, upstream),
                forall|r: int| end <= r < n ==> !ends_before(#[trigger] line.rank_unit(r).source_end, offset, upstream),
            decreases end - start,
        {
            let middle = start + (end - start) / 2;
            let (_, unit) = match line.unit_at_source_rank(middle) {
                Some(found) => found,
                None => return None,
            };
            let before = if upstream {
                unit.source_end < offset
            } else {
                unit.source_end <= offset
            };
            if before {
                proof {
                    assert forall|r: int| 0 <= r <= middle implies ends_before(#[trigger] line.rank_unit(r).source_end, offset, upstream) by {
                        if r < middle {
                            assert(line.rank_unit(r).source_end <= line.rank_unit(middle as int).source_start);
                        }
                    }
                }
                start = middle + 1;
            } else {
                proof {
                    assert forall|r: int| middle <= r < n implies !ends_before(#[trigger] line.rank_unit(r).source_end, offset, upstream) by {
                        if r > middle {
                            assert(line.rank_unit(middle as int).source_end <= line.rank_unit(r).source_start);
                        }
                    }
                }
                end = middle;
            }
        }
        let (visual, unit) = match line.unit_at_source_rank(start) {
            Some(found) => found,
            None => {
                proof {
                    assert forall|v: int| 0 <= v < line.units@.len() implies !contains_dir(#[trigger] line.units@[v], offset, upstream) by {
                        let r = lemma_rank_of(*line, text_len, v);
                    }
                }
                return None;
            },
        };
        let contains = if upstream {
            unit.source_start < offset && offset <= unit.source_end
        } else {
            unit.source_start <= offset && offset < unit.source_end
        };
        if !contains {
            proof {
                assert forall|v: int| 0 <= v < line.units@.len() implies !contains_dir(#[trigger] line.units@[v], offset, upstream) by {
                    let r = lemma_rank_of(*line, text_len, v);
                    if r > start {
                        assert(line.rank_unit(start as int).source_end <= line.rank_unit(r).source_start);
                    }
                }
            }
            return None;
        }
        Some(CursorCluster { line: line_index, unit: visual })
    }

    /// Returns the visually first unit of the paragraph.
    pub fn first_cluster(self) -> (cluster: Option<CursorCluster>)
        ensures
            cluster == first_cluster_spec(self.facts()),
    {
        let lines = self.facts.lines();
        let mut index: usize = 0;
        while index < lines.len()
            invariant
                0 <= index <= lines@.len(),
                lines@ == self.facts().line_seq(),
                first_nonempty_from(self.facts(), 0) == first_nonempty_from(self.facts(), index as int),
            decreases lines@.len() - index,
        {
            if lines[index].units.len() != 0 {
                return Some(CursorCluster { line: index, unit: 0 });
            }
            index += 1;
        }
        None
    }

    /// Returns the visually last unit of the paragraph.
    pub fn last_cluster(self) -> (cluster: Option<CursorCluster>)
        ensures
            cluster == last_cluster_spec(self.facts()),
    {
        let lines = self.facts.lines();
        self.last_cluster_before(lines.len())
    }

    /// Returns the visually last unit on a line before `line`.
    fn last_cluster_before(self, line: usize) -> (cluster: Option<CursorCluster>)
        requires
            line <= self.facts().line_seq().len(),
        ensures
            cluster == (match last_nonempty_before(self.facts(), line as int) {
                Some(l) => Some(line_last_cluster(self.facts(), l)),
                None => None,
            }),
    {
        let lines = self.facts.lines();
        let mut index: usize = line;
        while index > 0
            invariant
                0 <= index <= line <= lines@.len(),
                lines@ == self.facts().line_seq(),
                last_nonempty_before(self.facts(), line as int) == last_nonempty_before(self.facts(), index as int),
            decreases index,
        {
            let len = lines[index - 1].units.len();
            if len != 0 {
                return Some(CursorCluster { line: index - 1, unit: len - 1 });
            }
            index -= 1;
        }
        None
    }

    /// Returns the unit visually before `cluster`.
    pub fn previous_cluster(self, cluster: CursorCluster) -> (previous: Option<CursorCluster>)
        requires
            cluster.line <= self.facts().line_seq().len(),
        ensures
            previous == previous_cluster_spec(self.facts(), cluster),
    {
        if cluster.unit > 0 {
            return Some(CursorCluster { line: cluster.line, unit: cluster.unit - 1 });
        }
        self.last_cluster_before(cluster.line)
    }

    /// Returns the unit visually after `cluster`.
    pub fn next_cluster(self, cluster: CursorCluster) -> (next: Option<CursorCluster>)
        ensures
            next == next_cluster_spec(self.facts(), cluster),
    {
        let lines = self.facts.lines();
        if cluster.line >= lines.len() {
            return None;
        }
        let len = lines[cluster.line].units.len();
        if len > 0 && cluster.unit < len - 1 {
            return Some(CursorCluster { line: cluster.line, unit: cluster.unit + 1 });
        }
        let mut index: usize = cluster.line + 1;
        while index < lines.len()
            invariant
                cluster.line < lines@.len(),
                !(cluster.unit + 1 < lines@[cluster.line as int].units@.len()),
                cluster.line + 1 <= index <= lines@.len(),
                lines@ == self.facts().line_seq(),
                first_nonempty_from(self.facts(), cluster.line + 1) == first_nonempty_from(self.facts(), index as int),
            decreases lines@.len() - index,
        {
            if lines[index].units.len() != 0 {
                assert(first_nonempty_from(self.facts(), index as int) == Some(index as int));
                return Some(CursorCluster { line: index, unit: 0 });
            }
            index += 1;
        }
        None
    }

    /// Returns the unit a cluster addresses.
    pub fn unit(self, cluster: CursorCluster) -> (unit: Option<&'a PreparedInteractionUnit>)
        ensures
            unit is Some <==> valid_cluster(self.facts(), cluster),
            unit matches Some(u) ==> *u == cluster_unit(self.facts(), cluster),
    {
        let lines = self.facts.lines();
        if cluster.line < lines.len() && cluster.unit < lines[cluster.line].units.len() {
            Some(&lines[cluster.line].units[cluster.unit])
        } else {
            None
        }
    }

    /// Returns whether the unit runs right to left.
    pub fn is_rtl(self, cluster: CursorCluster) -> (rtl: bool)
        ensures
            rtl == is_rtl_spec(self.facts(), cluster),
    {
        match self.unit(cluster) {
            Some(unit) => {
                proof {
                    lemma_odd_bit(unit.bidi_level);
                }
                unit.bidi_level & 1 == 1
            },
            None => false,
        }
    }

    /// Returns whether the unit is visually last on its line.
    pub fn is_end_of_line(self, cluster: CursorCluster) -> (end: bool)
        ensures
            end == is_end_of_line_spec(self.facts(), cluster),
    {
        let lines = self.facts.lines();
        cluster.line < lines.len() && lines[cluster.line].units.len() > 0 && cluster.unit
            == lines[cluster.line].units.len() - 1
    }

    /// Returns whether the unit ends a softly wrapped line.
    pub fn is_soft_line_end(self, cluster: CursorCluster) -> (soft: bool)
        ensures
            soft == is_soft_line_end_spec(self.facts(), cluster),
    {
        self.is_end_of_line(cluster) && self.facts.lines()[cluster.line].break_reason
            == LineBreakReason::Regular
    }

    /// Returns whether the unit ends a line at a mandatory break.
    pub fn is_hard_line_end(self, cluster: CursorCluster) -> (hard: bool)
        ensures
            hard == is_hard_line_end_spec(self.facts(), cluster),
    {
        self.is_end_of_line(cluster) && self.facts.lines()[cluster.line].break_reason
            == LineBreakReason::Mandatory
    }
}

/// Affinity of the caret stop reached after crossing a unit in one visual
/// direction.
pub fn affinity_for_visual_direction(rtl: bool, moving_right: bool) -> (affinity: TextAffinity)
    ensures
        affinity == affinity_for_visual_direction_spec(rtl, moving_right),
{
    match (rtl, moving_right) {
        (true, true) | (false, false) => TextAffinity::Downstream,
        _ => TextAffinity::Upstream,
    }
}

impl<'a> CursorMovement<'a> {
    /// The navigation context.
    pub closed spec fn cursor(self) -> ParagraphCursor<'a> {
        self.cursor
    }

    pub closed spec fn spec_position(self) -> PreparedClusterSide {
        self.position
    }

    /// Returns the caret stop.
    #[verifier::when_used_as_spec(spec_position)]
    pub fn position(self) -> (position: PreparedClusterSide)
        ensures
            position == self.spec_position(),
    {
        self.position
    }

    /// Returns where the caret is drawn.
    pub fn caret_anchor(self) -> (anchor: CursorCaretAnchor)
        ensures
            anchor == caret_anchor_spec(self.cursor().facts(), self.position()),
    {
        let cursor = self.cursor;
        let (left, right) = cursor.visual_clusters(self.position);
        match (left, right) {
            (Some(left), Some(right)) => {
                if cursor.is_end_of_line(left) {
                    if cursor.is_soft_line_end(left) {
                        if cursor.is_rtl(left) && self.position.affinity == TextAffinity::Downstream
                            || !cursor.is_rtl(left) && self.position.affinity
                            == TextAffinity::Upstream {
                            CursorCaretAnchor::Unit { cluster: left, at_end: true }
                        } else {
                            CursorCaretAnchor::Unit { cluster: right, at_end: false }
                        }
                    } else {
                        CursorCaretAnchor::Unit { cluster: right, at_end: false }
                    }
                } else {
                    CursorCaretAnchor::Unit { cluster: left, at_end: true }
                }
            },
            (Some(left), None) => {
                if cursor.is_hard_line_end(left) {
                    CursorCaretAnchor::LastLineStart
                } else {
                    CursorCaretAnchor::Unit { cluster: left, at_end: true }
                }
            },
            (None, Some(right)) => CursorCaretAnchor::Unit { cluster: right, at_end: false },
            (None, None) => CursorCaretAnchor::LastLineStart,
        }
    }

    /// Moves one caret stop to the left.
    pub fn previous_visual(self) -> (step: Option<DerivedCursorStep>)
        ensures
            step == previous_visual_spec(self.cursor().facts(), self.position()),
    {
        let cursor = self.cursor;
        let (left, right) = cursor.visual_clusters(self.position);
        if let (Some(left), Some(right)) = (left, right) {
            if cursor.is_soft_line_end(left) {
                if cursor.is_rtl(left) && self.position.affinity == TextAffinity::Upstream {
                    let unit = match cursor.unit(left) {
                        Some(unit) => unit,
                        None => return None,
                    };
                    let index = if cursor.is_rtl(right) {
                        unit.source_start
                    } else {
                        unit.source_end
                    };
                    return Some(
                        DerivedCursorStep {
                            target: cursor.normalize(index, TextAffinity::Downstream),
                            source: None,
                        },
                    );
                } else if !cursor.is_rtl(left) && self.position.affinity
                    == TextAffinity::Downstream {
                    let unit = match cursor.unit(right) {
                        Some(unit) => unit,
                        None => return None,
                    };
                    let index = if cursor.is_rtl(right) {
                        unit.source_end
                    } else {
                        unit.source_start
                    };
                    return Some(
                        DerivedCursorStep {
                            target: cursor.normalize(index, TextAffinity::Upstream),
                            source: None,
                        },
                    );
                }
            }
        }
        let left = match left {
            Some(left) => left,
            None => return None,
        };
        let unit = match cursor.unit(left) {
            Some(unit) => unit,
            None => return None,
        };
        let source = unit.source();
        let rtl = cursor.is_rtl(left);
        let index = if rtl {
            source.end
        } else {
            source.start
        };
        Some(
            DerivedCursorStep {
                target: cursor.normalize(index, affinity_for_visual_direction(rtl, false)),
                source: Some(source),
            },
        )
    }

    /// Moves one caret stop to the right.
    pub fn next_visual(self) -> (step: Option<DerivedCursorStep>)
        ensures
            step == next_visual_spec(self.cursor().facts(), self.position()),
    {
        let cursor = self.cursor;
        let (left, right) = cursor.visual_clusters(self.position);
        if let (Some(left), Some(right)) = (left, right) {
            if cursor.is_soft_line_end(left) {
                if cursor.is_rtl(left) && self.position.affinity == TextAffinity::Downstream {
                    let unit = match cursor.unit(right) {
                        Some(unit) => unit,
                        None => return None,
                    };
                    let index = if cursor.is_rtl(right) {
                        unit.source_end
                    } else {
                        unit.source_start
                    };
                    return Some(
                        DerivedCursorStep {
                            target: cursor.normalize(index, TextAffinity::Upstream),
                            source: None,
                        },
                    );
                } else if !cursor.is_rtl(left) && self.position.affinity
                    == TextAffinity::Upstream {
                    let unit = match cursor.unit(right) {
                        Some(unit) => unit,
                        None => return None,
                    };
                    let index = if cursor.is_rtl(right) {
                        unit.source_end
                    } else {
                        unit.source_start
                    };
                    return Some(
                        DerivedCursorStep {
                            target: cursor.normalize(index, TextAffinity::Downstream),
                            source: None,
                        },
                    );
                }
            }
            return self.step_after_visual(right);
        }
        match right {
            Some(right) => self.step_after_visual(right),
            None => None,
        }
    }

    /// Moves across the preceding unit in logical order.
    pub fn previous_logical(self) -> (step: Option<DerivedCursorStep>)
        ensures
            step == previous_logical_spec(self.cursor().facts(), self.position()),
    {
        let cursor = self.cursor;
        let cluster = match cursor.upstream_cluster(self.position.offset) {
            Some(cluster) => cluster,
            None => return None,
        };
        let source = match cursor.unit(cluster) {
            Some(unit) => unit.source(),
            None => return None,
        };
        Some(
            DerivedCursorStep {
                target: cursor.normalize(source.start, TextAffinity::Downstream),
                source: Some(source),
            },
        )
    }

    /// Moves across the following unit in logical order.
    pub fn next_logical(self) -> (step: Option<DerivedCursorStep>)
        ensures
            step == next_logical_spec(self.cursor().facts(), self.position()),
    {
        let cursor = self.cursor;
        let cluster = match cursor.downstream_cluster(self.position.offset) {
            Some(cluster) => cluster,
            None => return None,
        };
        let source = match cursor.unit(cluster) {
            Some(unit) => unit.source(),
            None => return None,
        };
        Some(
            DerivedCursorStep {
                target: cursor.normalize(source.end, TextAffinity::Upstream),
                source: Some(source),
            },
        )
    }

    fn step_after_visual(self, cluster: CursorCluster) -> (step: Option<DerivedCursorStep>)
        ensures
            step == step_after_visual_spec(self.cursor().facts(), cluster),
    {
        let cursor = self.cursor;
        let unit = match cursor.unit(cluster) {
            Some(unit) => unit,
            None => return None,
        };
        let source = unit.source();
        let rtl = cursor.is_rtl(cluster);
        let offset = if rtl {
            source.start
        } else {
            source.end
        };
        Some(
            DerivedCursorStep {
                target: cursor.normalize(offset, affinity_for_visual_direction(rtl, true)),
                source: Some(source),
            },
        )
    }
}

// ---------------------------------------------------------------------------
// Navigation laws.
// ---------------------------------------------------------------------------

/// Distinct units occupy disjoint source.
proof fn lemma_units_disjoint(facts: &PreparedParagraphFacts, c1: CursorCluster, c2: CursorCluster)
    requires
        facts.wf(),
        valid_cluster(facts, c1),
        valid_cluster(facts, c2),
        c1 != c2,
    ensures
        cluster_unit(facts, c1).source_end <= cluster_unit(facts, c2).source_start
            || cluster_unit(facts, c2).source_end <= cluster_unit(facts, c1).source_start,
{
    let lines = facts.line_seq();
    lemma_unit_in_line(facts, c1);
    lemma_unit_in_line(facts, c2);
    if c1.line < c2.line {
        assert(lines[c1.line as int].source_end <= lines[c2.line as int].source_start);
    } else if c2.line < c1.line {
        assert(lines[c2.line as int].source_end <= lines[c1.line as int].source_start);
    } else {
        let line = lines[c1.line as int];
        assert(line.wf(facts.text_len_spec()));
        let r1 = lemma_rank_of(line, facts.text_len_spec(), c1.unit as int);
        let r2 = lemma_rank_of(line, facts.text_len_spec(), c2.unit as int);
        if r1 < r2 {
            assert(line.rank_unit(r1).source_end <= line.rank_unit(r2).source_start);
        } else if r2 < r1 {
            assert(line.rank_unit(r2).source_end <= line.rank_unit(r1).source_start);
        }
    }
}

/// A paragraph with any unit has a first unit.
proof fn lemma_first_exists(facts: &PreparedParagraphFacts, line: int, c: CursorCluster)
    requires
        facts.wf(),
        valid_cluster(facts, c),
        0 <= line <= c.line,
    ensures
        first_nonempty_from(facts, line) is Some,
    decreases c.line - line,
{
    if line < c.line && !line_nonempty(facts, line) {
        lemma_first_exists(facts, line + 1, c);
    }
}

/// Snapping a caret stop again leaves it unchanged.
pub proof fn lemma_normalize_idempotent(facts: &PreparedParagraphFacts, offset: u32, affinity: TextAffinity)
    requires
        facts.wf(),
    ensures
        ({
            let p = normalize_spec(facts, offset, affinity);
            normalize_spec(facts, p.offset, p.affinity) == p
        }),
{
    let len = facts.text_len_spec();
    if offset > len {
    } else if first_cluster_spec(facts) is None {
    } else if let Some(c) = downstream_cluster_spec(facts, offset) {
        lemma_unit_in_line(facts, c);
        assert(facts.line_seq()[c.line as int].wf(len));
        lemma_owner_is_model(facts, c, cluster_unit(facts, c).source_start, false);
    } else {
        if let Some(c2) = downstream_cluster_spec(facts, len) {
            lemma_unit_in_line(facts, c2);
            assert(facts.line_seq()[c2.line as int].wf(len));
        }
    }
}

/// Moving right from a caret at the upstream side of a left-to-right unit
/// that ends a softly wrapped line crosses no unit: the caret wraps to the
/// start of the next line. When the next line begins with a left-to-right
/// unit, the caret lands at that unit's start with downstream affinity; for
/// contiguous lines that is the offset the caret left from.
pub proof fn lemma_next_visual_wraps_at_soft_line_end(
    facts: &PreparedParagraphFacts,
    p: PreparedClusterSide,
    l: CursorCluster,
    r: CursorCluster,
)
    requires
        facts.wf(),
        visual_clusters_spec(facts, p) == (Some(l), Some(r)),
        valid_cluster(facts, r),
        is_soft_line_end_spec(facts, l),
        !is_rtl_spec(facts, l),
        p.affinity == TextAffinity::Upstream,
    ensures
        next_visual_spec(facts, p) matches Some(s) && s.source is None && (!is_rtl_spec(facts, r)
            ==> s.target == PreparedClusterSide {
            offset: cluster_unit(facts, r).source_start,
            affinity: TextAffinity::Downstream,
        }),
{
    let u = cluster_unit(facts, r);
    lemma_unit_in_line(facts, r);
    assert(facts.line_seq()[r.line as int].wf(facts.text_len_spec()));
    lemma_first_exists(facts, 0, r);
    lemma_owner_is_model(facts, r, u.source_start, false);
    assert(faces_left_unit(facts, l, p.affinity));
    assert(next_visual_spec(facts, p) == Some(
        wrap_step(facts, wrapped_right_offset(facts, r), TextAffinity::Downstream),
    ));
}

/// Moving left from a caret at the downstream side of the start of a line
/// that follows a softly wrapped left-to-right unit crosses no unit: the
/// caret wraps to the end of the previous line, with upstream affinity at
/// the same offset when the line begins with a left-to-right unit.
pub proof fn lemma_previous_visual_wraps_at_soft_line_end(
    facts: &PreparedParagraphFacts,
    p: PreparedClusterSide,
    l: CursorCluster,
    r: CursorCluster,
)
    requires
        facts.wf(),
        visual_clusters_spec(facts, p) == (Some(l), Some(r)),
        valid_cluster(facts, r),
        is_soft_line_end_spec(facts, l),
        !is_rtl_spec(facts, l),
        p.affinity == TextAffinity::Downstream,
    ensures
        previous_visual_spec(facts, p) matches Some(s) && s.source is None && (!is_rtl_spec(facts, r)
            && cluster_unit(facts, r).source_start > 0 ==> s.target == PreparedClusterSide {
            offset: cluster_unit(facts, r).source_start,
            affinity: TextAffinity::Upstream,
        }),
{
    let u = cluster_unit(facts, r);
    lemma_unit_in_line(facts, r);
    assert(facts.line_seq()[r.line as int].wf(facts.text_len_spec()));
    lemma_first_exists(facts, 0, r);
    lemma_owner_is_model(facts, r, u.source_start, false);
    assert(previous_visual_spec(facts, p) == Some(
        wrap_step(facts, wrapped_right_offset(facts, r), TextAffinity::Upstream),
    ));
}

/// Every movement lands on a caret stop accepted by
/// [`ParagraphCursor::get`].
pub proof fn lemma_steps_land_on_caret_stops(facts: &PreparedParagraphFacts, p: PreparedClusterSide)
    requires
        facts.wf(),
        facts.selection_spec(),
    ensures
        previous_visual_spec(facts, p) matches Some(s) ==> is_caret_stop(facts, s.target),
        next_visual_spec(facts, p) matches Some(s) ==> is_caret_stop(facts, s.target),
        previous_logical_spec(facts, p) matches Some(s) ==> is_caret_stop(facts, s.target),
        next_logical_spec(facts, p) matches Some(s) ==> is_caret_stop(facts, s.target),
{
    assert forall|o: u32, a: TextAffinity| is_caret_stop(facts, #[trigger] normalize_spec(facts, o, a)) by {
        lemma_normalize_idempotent(facts, o, a);
    }
}

/// Logical movement crosses exactly one unit and strictly progresses: moving
/// backward lands before the caret, moving forward lands after it.
pub proof fn lemma_logical_steps_progress(facts: &PreparedParagraphFacts, p: PreparedClusterSide)
    requires
        facts.wf(),
    ensures
        previous_logical_spec(facts, p) matches Some(s) ==> s.target.offset < p.offset,
        next_logical_spec(facts, p) matches Some(s) ==> s.target.offset > p.offset,
{
    let len = facts.text_len_spec();
    if let Some(c) = upstream_cluster_spec(facts, p.offset) {
        lemma_unit_in_line(facts, c);
        assert(facts.line_seq()[c.line as int].wf(len));
        lemma_first_exists(facts, 0, c);
        lemma_owner_is_model(facts, c, cluster_unit(facts, c).source_start, false);
    }
    if let Some(c) = downstream_cluster_spec(facts, p.offset) {
        lemma_unit_in_line(facts, c);
        assert(facts.line_seq()[c.line as int].wf(len));
        lemma_first_exists(facts, 0, c);
        let e = cluster_unit(facts, c).source_end;
        if let Some(c2) = downstream_cluster_spec(facts, e) {
            if c2 != c {
                lemma_units_disjoint(facts, c, c2);
            }
        }
    }
}

/// Total number of units of all lines.
pub open spec fn units_before_all(lines: Seq<PreparedLine>) -> int {
    crate::adapter::units_before(lines, lines.len() as int)
}

} // verus!
