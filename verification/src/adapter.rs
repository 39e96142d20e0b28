//! Prepared paragraph facts consumed by cursor navigation.
//!
//! A paragraph backend reports its formed lines in visual order. Each line
//! holds its interaction units in visual order together with the permutation
//! that lists them in logical source order. These facts are validated once on
//! construction so that navigation can rely on their ordering.

use vstd::prelude::*;

use crate::ids::TextAffinity;

verus! {

/// Why a prepared line ended.
#[derive(Clone, Copy, Debug, PartialEq, Eq, Hash, Structural)]
pub enum LineBreakReason {
    /// A soft wrap chosen by line formation.
    Regular,
    /// A mandatory break such as a hard line separator.
    Mandatory,
    /// The end of the paragraph.
    End,
}

/// One side of an interaction unit in projected paragraph coordinates.
#[derive(Clone, Copy, Debug, PartialEq, Eq, Hash, Structural)]
pub struct PreparedClusterSide {
    /// Projected UTF-8 offset.
    pub offset: u32,
    /// Which logical side owns the offset.
    pub affinity: TextAffinity,
}

impl PreparedClusterSide {
    /// Creates a cluster side.
    pub fn new(offset: u32, affinity: TextAffinity) -> (side: Self)
        ensures
            side.offset == offset,
            side.affinity == affinity,
    {
        Self { offset, affinity }
    }

    /// Returns the projected UTF-8 offset.
    pub fn offset(self) -> (offset: u32)
        ensures
            offset == self.offset,
    {
        self.offset
    }

    /// Returns the owning logical side.
    pub fn affinity(self) -> (affinity: TextAffinity)
        ensures
            affinity == self.affinity,
    {
        self.affinity
    }
}

/// One atomic caret, selection, and hit-testing unit.
#[derive(Clone, Copy, Debug, PartialEq, Eq, Structural)]
pub struct PreparedInteractionUnit {
    /// First projected byte covered by the unit.
    pub source_start: u32,
    /// Projected byte just past the unit.
    pub source_end: u32,
    /// Resolved bidi embedding level; odd levels are right-to-left.
    pub bidi_level: u8,
    /// Caret stop at the unit's visual left edge.
    pub left: PreparedClusterSide,
    /// Caret stop at the unit's visual right edge.
    pub right: PreparedClusterSide,
}

impl PreparedInteractionUnit {
    /// Returns the projected source range covered by the unit.
    pub fn source(&self) -> (source: core::ops::Range<u32>)
        ensures
            source.start == self.source_start,
            source.end == self.source_end,
    {
        self.source_start..self.source_end
    }

    /// Returns the caret stop at the unit's visual left edge.
    pub fn left(&self) -> (side: PreparedClusterSide)
        ensures
            side == self.left,
    {
        self.left
    }

    /// Returns the caret stop at the unit's visual right edge.
    pub fn right(&self) -> (side: PreparedClusterSide)
        ensures
            side == self.right,
    {
        self.right
    }

    /// Returns the resolved bidi embedding level.
    pub fn bidi_level(&self) -> (level: u8)
        ensures
            level == self.bidi_level,
    {
        self.bidi_level
    }
}

/// One formed line with its interaction units.
#[derive(Clone, Debug)]
pub struct PreparedLine {
    /// First projected byte of the line.
    pub source_start: u32,
    /// Projected byte just past the line.
    pub source_end: u32,
    /// Why the line ended.
    pub break_reason: LineBreakReason,
    /// Interaction units in visual order.
    pub units: Vec<PreparedInteractionUnit>,
    /// Visual indices of the units listed in logical source order.
    pub source_order: Vec<usize>,
}

impl PreparedLine {
    /// The unit at logical source rank `rank`.
    pub open spec fn rank_unit(&self, rank: int) -> PreparedInteractionUnit {
        self.units@[self.source_order@[rank] as int]
    }

    /// Whether the line's units partition part of its source in logical order.
    pub open spec fn wf(&self, text_len: u32) -> bool {
        let n = self.units@.len();
        &&& self.source_start <= self.source_end <= text_len
        &&& self.source_order@.len() == n
        &&& forall|r: int| 0 <= r < n ==> #[trigger] self.source_order@[r] < n
        &&& forall|r: int|
            0 <= r < n ==> self.source_start <= (#[trigger] self.rank_unit(r)).source_start
                < self.rank_unit(r).source_end <= self.source_end
        &&& forall|r1: int, r2: int|
            0 <= r1 < r2 < n ==> (#[trigger] self.rank_unit(r1)).source_end <= (
            #[trigger] self.rank_unit(r2)).source_start
        &&& forall|i: int| 0 <= i < n ==> #[trigger] self.has_rank(i)
    }

    /// Whether visual unit `visual` appears in the source order.
    pub open spec fn has_rank(&self, visual: int) -> bool {
        exists|r: int| 0 <= r < self.source_order@.len() && #[trigger] self.source_order@[r] == visual
    }

    /// Returns the projected source range of the line.
    pub fn source(&self) -> (source: core::ops::Range<u32>)
        ensures
            source.start == self.source_start,
            source.end == self.source_end,
    {
        self.source_start..self.source_end
    }

    /// Returns the units in visual order.
    pub fn units(&self) -> (units: &[PreparedInteractionUnit])
        ensures
            units@ == self.units@,
    {
        self.units.as_slice()
    }

    /// Returns why the line ended.
    pub fn break_reason(&self) -> (reason: LineBreakReason)
        ensures
            reason == self.break_reason,
    {
        self.break_reason
    }

    /// Returns the visual index and unit at one logical source rank.
    pub fn unit_at_source_rank(&self, rank: usize) -> (found: Option<(usize, &PreparedInteractionUnit)>)
        ensures
            found matches Some((visual, unit)) ==> {
                &&& rank < self.source_order@.len()
                &&& visual == self.source_order@[rank as int]
                &&& visual < self.units@.len()
                &&& *unit == self.units@[visual as int]
            },
            found is None ==> !(rank < self.source_order@.len() && self.source_order@[rank as int]
                < self.units@.len()),
    {
        if rank < self.source_order.len() {
            let visual = self.source_order[rank];
            if visual < self.units.len() {
                return Some((visual, &self.units[visual]));
            }
        }
        None
    }
}

/// Sum of the unit counts of the first `n` lines.
pub open spec fn units_before(lines: Seq<PreparedLine>, n: int) -> int
    decreases n,
{
    if n <= 0 {
        0
    } else {
        units_before(lines, n - 1) + lines[n - 1].units@.len()
    }
}

/// Every line is well formed, lines follow logical order, and the total unit
/// count fits in memory indices.
pub open spec fn facts_wf(text_len: u32, lines: Seq<PreparedLine>) -> bool {
    &&& forall|l: int| 0 <= l < lines.len() ==> (#[trigger] lines[l]).wf(text_len)
    &&& forall|l1: int, l2: int|
        0 <= l1 < l2 < lines.len() ==> (#[trigger] lines[l1]).source_end <= (
        #[trigger] lines[l2]).source_start
    &&& units_before(lines, lines.len() as int) <= usize::MAX
    &&& lines.len() <= usize::MAX
}

/// Validated prepared facts of one paragraph.
#[derive(Debug)]
pub struct PreparedParagraphFacts {
    text_len: u32,
    has_selection: bool,
    lines: Vec<PreparedLine>,
}

impl PreparedParagraphFacts {
    /// Projected text length in UTF-8 bytes.
    pub closed spec fn text_len_spec(&self) -> u32 {
        self.text_len
    }

    /// Whether selection capability is resident.
    pub closed spec fn selection_spec(&self) -> bool {
        self.has_selection
    }

    /// The formed lines in order.
    pub closed spec fn line_seq(&self) -> Seq<PreparedLine> {
        self.lines@
    }

    /// The facts satisfy [`facts_wf`].
    pub open spec fn wf(&self) -> bool {
        facts_wf(self.text_len_spec(), self.line_seq())
    }

    /// Returns the projected text length in UTF-8 bytes.
    pub fn text_len(&self) -> (len: u32)
        ensures
            len == self.text_len_spec(),
    {
        self.text_len
    }

    /// Returns whether selection capability is resident.
    pub fn has_selection(&self) -> (selection: bool)
        ensures
            selection == self.selection_spec(),
    {
        self.has_selection
    }

    /// Returns the formed lines in order.
    pub fn lines(&self) -> (lines: &[PreparedLine])
        ensures
            lines@ == self.line_seq(),
            self.wf(),
    {
        proof {
            use_type_invariant(self);
        }
        self.lines.as_slice()
    }

    #[verifier::type_invariant]
    pub open spec fn inv(&self) -> bool {
        self.wf()
    }

    /// Validates and retains a paragraph's prepared line facts.
    ///
    /// Returns `None` when a line lies outside the text, lines overlap or run
    /// out of order, a unit is empty or leaves its line, units overlap in
    /// logical order, or a line's source order is not a permutation of its
    /// units.
    pub fn try_new(text_len: u32, has_selection: bool, lines: Vec<PreparedLine>) -> (facts: Option<
        Self,
    >)
        ensures
            facts matches Some(f) ==> {
                &&& f.text_len_spec() == text_len
                &&& f.selection_spec() == has_selection
                &&& f.line_seq() == lines@
            },
            facts is None ==> !facts_wf(text_len, lines@),
    {
        if validate_lines(text_len, &lines) {
            Some(Self { text_len, has_selection, lines })
        } else {
            None
        }
    }
}

fn validate_lines(text_len: u32, lines: &Vec<PreparedLine>) -> (valid: bool)
    ensures
        valid == facts_wf(text_len, lines@),
{
        let mut index: usize = 0;
        let mut total: usize = 0;
        while index < lines.len()
            invariant
                0 <= index <= lines@.len(),
                forall|l: int| 0 <= l < index ==> (#[trigger] lines@[l]).wf(text_len),
                forall|l1: int, l2: int|
                    0 <= l1 < l2 < index ==> (#[trigger] lines@[l1]).source_end <= (
                    #[trigger] lines@[l2]).source_start,
                total == units_before(lines@, index as int),
                index > 0 ==> forall|l: int|
                    0 <= l < index ==> (#[trigger] lines@[l]).source_end
                        <= lines@[index - 1].source_end,
            decreases lines@.len() - index,
        {
            let line = &lines[index];
            if !validate_line(line, text_len) {
                return false;
            }
            if index > 0 && lines[index - 1].source_end > line.source_start {
                assert(!(lines@[index - 1].source_end <= lines@[index as int].source_start));
                return false;
            }
            if line.units.len() > usize::MAX - total {
                proof {
                    lemma_units_before_monotonic(lines@, index as int + 1, lines@.len() as int);
                }
                return false;
            }
            total = total + line.units.len();
            index += 1;
        }
    true
}

/// Unit counts only grow with more lines.
pub proof fn lemma_units_before_monotonic(lines: Seq<PreparedLine>, a: int, b: int)
    requires
        0 <= a <= b <= lines.len(),
    ensures
        units_before(lines, a) <= units_before(lines, b),
    decreases b - a,
{
    if a < b {
        lemma_units_before_monotonic(lines, a, b - 1);
    }
}

fn validate_line(line: &PreparedLine, text_len: u32) -> (valid: bool)
    ensures
        valid == line.wf(text_len),
{
    if !(line.source_start <= line.source_end && line.source_end <= text_len) {
        return false;
    }
    let n = line.units.len();
    if line.source_order.len() != n {
        return false;
    }
    // Inverse of the source-order permutation; `n` marks an unseen unit.
    let mut rank_of: Vec<usize> = Vec::new();
    let mut fill: usize = 0;
    while fill < n
        invariant
            0 <= fill <= n,
            n == line.units@.len(),
            rank_of@.len() == fill,
            forall|i: int| 0 <= i < fill ==> rank_of@[i] == n,
        decreases n - fill,
    {
        rank_of.push(n);
        fill += 1;
    }
    let mut rank: usize = 0;
    while rank < n
        invariant
            0 <= rank <= n,
            n == line.units@.len(),
            n == line.source_order@.len(),
            line.source_start <= line.source_end <= text_len,
            rank_of@.len() == n,
            forall|r: int| 0 <= r < rank ==> #[trigger] line.source_order@[r] < n,
            forall|r: int|
                0 <= r < rank ==> line.source_start <= (#[trigger] line.rank_unit(r)).source_start
                    < line.rank_unit(r).source_end <= line.source_end,
            forall|r1: int, r2: int|
                0 <= r1 < r2 < rank ==> (#[trigger] line.rank_unit(r1)).source_end <= (
                #[trigger] line.rank_unit(r2)).source_start,
            forall|i: int|
                0 <= i < n && rank_of@[i] != n ==> rank_of@[i] < rank && line.source_order@[rank_of@[i] as int]
                    == i,
            forall|r: int| 0 <= r < rank ==> rank_of@[#[trigger] line.source_order@[r] as int] != n,
        decreases n - rank,
    {
        let visual = line.source_order[rank];
        if visual >= n {
            return false;
        }
        let unit = &line.units[visual];
        if !(line.source_start <= unit.source_start && unit.source_start < unit.source_end
            && unit.source_end <= line.source_end) {
            assert(!(line.source_start <= line.rank_unit(rank as int).source_start
                < line.rank_unit(rank as int).source_end <= line.source_end));
            return false;
        }
        if rank > 0 {
            let previous = &line.units[line.source_order[rank - 1]];
            if previous.source_end > unit.source_start {
                assert(!(line.rank_unit(rank - 1).source_end <= line.rank_unit(rank as int).source_start));
                return false;
            }
        }
        rank_of.set(visual, rank);
        proof {
            assert forall|r1: int, r2: int|
                0 <= r1 < r2 < rank + 1 implies (#[trigger] line.rank_unit(r1)).source_end <= (
                #[trigger] line.rank_unit(r2)).source_start by {
                if r2 == rank && r1 < rank - 1 {
                    assert(line.rank_unit(r1).source_end <= line.rank_unit(rank - 1).source_start);
                }
            }
        }
        rank += 1;
    }
    let mut check: usize = 0;
    while check < n
        invariant
            0 <= check <= n,
            n == line.units@.len(),
            n == line.source_order@.len(),
            rank_of@.len() == n,
            forall|i: int|
                0 <= i < n && rank_of@[i] != n ==> rank_of@[i] < n && line.source_order@[rank_of@[i] as int]
                    == i,
            forall|r: int| 0 <= r < n ==> #[trigger] line.source_order@[r] < n,
            forall|r: int| 0 <= r < n ==> rank_of@[#[trigger] line.source_order@[r] as int] != n,
            forall|i: int| 0 <= i < check ==> #[trigger] line.has_rank(i),
        decreases n - check,
    {
        if rank_of[check] == n {
            proof {
                assert forall|r: int| 0 <= r < n implies line.source_order@[r] != check by {
                    if line.source_order@[r] == check {
                        assert(rank_of@[line.source_order@[r] as int] != n);
                    }
                }
                assert(!line.has_rank(check as int));
            }
            return false;
        }
        assert(line.source_order@[rank_of@[check as int] as int] == check);
        check += 1;
    }
    true
}

} // verus!
