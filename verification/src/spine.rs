//! Persistent document-scale scene structure.
//!
//! A prepared scene is a balanced tree over its paragraph segments. Every
//! node carries the record counts of its subtree, so a paragraph, line,
//! fragment, movement, or text record is found by descending from the root,
//! and replacing or appending segments shares every untouched subtree with
//! the previous scene.

use vstd::prelude::*;

use std::sync::Arc;

use crate::accounting::{accounted_node_bytes, saturate, saturating_mul, tree_node_count};
use crate::shared::share;

use vstd::arithmetic::power2::{lemma2_to64, lemma_pow2_strictly_increases, lemma_pow2_unfold, pow2};

verus! {

/// Record counts of one paragraph segment or of a subtree of segments.
#[derive(Clone, Copy, Debug, PartialEq, Eq, Structural)]
pub struct SegmentCounts {
    /// Paragraph segments.
    pub paragraphs: usize,
    /// Formed lines.
    pub lines: usize,
    /// Paint fragments.
    pub fragments: usize,
    /// Caret movement stops.
    pub movements: usize,
    /// Semantic text leaves.
    pub texts: usize,
    /// Region attempts recorded by exact region flow.
    pub region_attempts: usize,
    /// Region attempts rejected for their height.
    pub region_height_rejections: usize,
}

/// Which records a positioned lookup counts.
#[derive(Clone, Copy, Debug, PartialEq, Eq, Structural)]
pub enum RecordKind {
    /// Paragraph segments.
    Paragraphs,
    /// Formed lines.
    Lines,
    /// Paint fragments.
    Fragments,
    /// Caret movement stops.
    Movements,
    /// Semantic text leaves.
    Texts,
}

/// Saturating sum of two counts.
pub open spec fn sat(a: usize, b: usize) -> usize {
    saturate(a + b) as usize
}

/// Field-wise saturating sum of two count sets.
pub open spec fn combined(a: SegmentCounts, b: SegmentCounts) -> SegmentCounts {
    SegmentCounts {
        paragraphs: sat(a.paragraphs, b.paragraphs),
        lines: sat(a.lines, b.lines),
        fragments: sat(a.fragments, b.fragments),
        movements: sat(a.movements, b.movements),
        texts: sat(a.texts, b.texts),
        region_attempts: sat(a.region_attempts, b.region_attempts),
        region_height_rejections: sat(a.region_height_rejections, b.region_height_rejections),
    }
}

/// Counts with nothing in them.
pub open spec fn no_counts() -> SegmentCounts {
    SegmentCounts {
        paragraphs: 0,
        lines: 0,
        fragments: 0,
        movements: 0,
        texts: 0,
        region_attempts: 0,
        region_height_rejections: 0,
    }
}

/// The count of one kind of record.
pub open spec fn count_of(c: SegmentCounts, kind: RecordKind) -> usize {
    match kind {
        RecordKind::Paragraphs => c.paragraphs,
        RecordKind::Lines => c.lines,
        RecordKind::Fragments => c.fragments,
        RecordKind::Movements => c.movements,
        RecordKind::Texts => c.texts,
    }
}

impl SegmentCounts {
    /// Counts of one paragraph segment.
    pub fn for_segment(
        lines: usize,
        fragments: usize,
        movements: usize,
        texts: usize,
        region_attempts: usize,
        region_height_rejections: usize,
    ) -> (counts: Self)
        ensures
            counts == (SegmentCounts {
                paragraphs: 1,
                lines,
                fragments,
                movements,
                texts,
                region_attempts,
                region_height_rejections,
            }),
    {
        SegmentCounts {
            paragraphs: 1,
            lines,
            fragments,
            movements,
            texts,
            region_attempts,
            region_height_rejections,
        }
    }

    /// Field-wise saturating sum of two count sets.
    pub fn combine(left: Self, right: Self) -> (counts: Self)
        ensures
            counts == combined(left, right),
    {
        SegmentCounts {
            paragraphs: left.paragraphs.saturating_add(right.paragraphs),
            lines: left.lines.saturating_add(right.lines),
            fragments: left.fragments.saturating_add(right.fragments),
            movements: left.movements.saturating_add(right.movements),
            texts: left.texts.saturating_add(right.texts),
            region_attempts: left.region_attempts.saturating_add(right.region_attempts),
            region_height_rejections: left.region_height_rejections.saturating_add(
                right.region_height_rejections,
            ),
        }
    }

    /// Returns the count of one kind of record.
    pub fn count(self, kind: RecordKind) -> (count: usize)
        ensures
            count == count_of(self, kind),
    {
        match kind {
            RecordKind::Paragraphs => self.paragraphs,
            RecordKind::Lines => self.lines,
            RecordKind::Fragments => self.fragments,
            RecordKind::Movements => self.movements,
            RecordKind::Texts => self.texts,
        }
    }
}

/// Combining is associative.
proof fn lemma_combined_associative(a: SegmentCounts, b: SegmentCounts, c: SegmentCounts)
    ensures
        combined(combined(a, b), c) == combined(a, combined(b, c)),
{
}

/// The counts of a sequence of segments, combined from the left.
pub open spec fn total<T>(s: Seq<(SegmentCounts, T)>) -> SegmentCounts
    decreases s.len(),
{
    if s.len() == 0 {
        no_counts()
    } else {
        combined(total(s.drop_last()), s.last().0)
    }
}

/// Counts of concatenated sequences combine.
proof fn lemma_total_append<T>(a: Seq<(SegmentCounts, T)>, b: Seq<(SegmentCounts, T)>)
    ensures
        total(a + b) == combined(total(a), total(b)),
    decreases b.len(),
{
    if b.len() == 0 {
        assert(a + b =~= a);
    } else {
        assert((a + b).drop_last() =~= a + b.drop_last());
        lemma_total_append(a, b.drop_last());
        lemma_combined_associative(total(a), total(b.drop_last()), b.last().0);
    }
}

/// Each segment counts one paragraph.
pub open spec fn one_paragraph_each<T>(s: Seq<(SegmentCounts, T)>) -> bool {
    forall|i: int| 0 <= i < s.len() ==> (#[trigger] s[i]).0.paragraphs == 1
}

/// With one paragraph per segment, the paragraph count is the length.
proof fn lemma_total_paragraphs<T>(s: Seq<(SegmentCounts, T)>)
    requires
        one_paragraph_each(s),
        s.len() <= usize::MAX,
    ensures
        total(s).paragraphs == s.len(),
    decreases s.len(),
{
    if s.len() > 0 {
        assert(one_paragraph_each(s.drop_last())) by {
            assert forall|i: int| 0 <= i < s.drop_last().len() implies (#[trigger] s.drop_last()[i]).0.paragraphs == 1 by {
                assert(s.drop_last()[i] == s[i]);
            }
        }
        lemma_total_paragraphs(s.drop_last());
        assert(s[s.len() - 1] == s.last());
    }
}

/// One node of a scene tree.
#[derive(Debug)]
pub enum SceneNode<T> {
    /// One paragraph segment.
    Leaf {
        /// The segment's counts.
        counts: SegmentCounts,
        /// The segment.
        segment: Arc<T>,
    },
    /// Two subtrees in paragraph order.
    Branch {
        /// The counts of both subtrees.
        counts: SegmentCounts,
        /// Levels in the subtree, saturating.
        height: u8,
        /// Earlier paragraphs.
        left: Arc<SceneNode<T>>,
        /// Later paragraphs.
        right: Arc<SceneNode<T>>,
    },
}

/// The counts a node records.
pub open spec fn node_counts<T>(node: SceneNode<T>) -> SegmentCounts {
    match node {
        SceneNode::Leaf { counts, .. } => counts,
        SceneNode::Branch { counts, .. } => counts,
    }
}

/// The height a node records; a leaf has height one.
pub open spec fn node_height<T>(node: SceneNode<T>) -> u8 {
    match node {
        SceneNode::Leaf { .. } => 1,
        SceneNode::Branch { height, .. } => height,
    }
}

/// The height of a branch over two subtrees.
pub open spec fn branch_height(left: u8, right: u8) -> u8 {
    let top = if left >= right {
        left
    } else {
        right
    };
    if top == 255 {
        255
    } else {
        (top + 1) as u8
    }
}

/// The segments under a node, in paragraph order.
pub open spec fn leaves<T>(node: SceneNode<T>) -> Seq<(SegmentCounts, T)>
    decreases node,
{
    match node {
        SceneNode::Leaf { counts, segment } => seq![(counts, *segment)],
        SceneNode::Branch { left, right, .. } => leaves(*left) + leaves(*right),
    }
}

/// The segments under a shared node.
pub open spec fn shared_leaves<T>(node: &Arc<SceneNode<T>>) -> Seq<(SegmentCounts, T)> {
    leaves(**node)
}

/// Every node records the counts and height of its subtree, holds at least
/// one segment, and every segment counts one paragraph.
pub open spec fn node_wf<T>(node: SceneNode<T>) -> bool
    decreases node,
{
    &&& node_counts(node) == total(leaves(node))
    &&& one_paragraph_each(leaves(node))
    &&& leaves(node).len() >= 1
    &&& node_height(node) >= 1
    &&& match node {
        SceneNode::Leaf { counts, .. } => counts.paragraphs == 1,
        SceneNode::Branch { counts, height, left, right } => {
            &&& node_wf(*left)
            &&& node_wf(*right)
            &&& height == branch_height(node_height(*left), node_height(*right))
        },
    }
}

/// Levels in a subtree.
pub open spec fn depth<T>(node: SceneNode<T>) -> nat
    decreases node,
{
    match node {
        SceneNode::Leaf { .. } => 1,
        SceneNode::Branch { left, right, .. } => {
            let (l, r) = (depth(*left), depth(*right));
            1 + if l >= r {
                l
            } else {
                r
            }
        },
    }
}

/// Levels in a shared subtree.
pub open spec fn shared_depth<T>(node: &Arc<SceneNode<T>>) -> nat {
    depth(**node)
}

/// Every branch's subtrees differ in depth by at most one level.
pub open spec fn balanced<T>(node: SceneNode<T>) -> bool
    decreases node,
{
    match node {
        SceneNode::Leaf { .. } => true,
        SceneNode::Branch { left, right, .. } => {
            &&& balanced(*left)
            &&& balanced(*right)
            &&& depth(*left) <= depth(*right) + 1
            &&& depth(*right) <= depth(*left) + 1
        },
    }
}

/// Depth of the tree that halving builds over `n` segments.
pub open spec fn halving_depth(n: nat) -> nat
    decreases n,
{
    if n <= 1 {
        1
    } else {
        1 + halving_depth((n - n / 2) as nat)
    }
}

/// A recorded height is the depth, saturated at the largest `u8`.
proof fn lemma_height_is_depth<T>(node: &SceneNode<T>)
    requires
        node_wf(*node),
    ensures
        node_height(*node) == if depth(*node) >= 255 {
            255
        } else {
            depth(*node)
        },
    decreases *node,
{
    if let SceneNode::Branch { left, right, .. } = node {
        reveal_with_fuel(node_wf, 2);
        lemma_height_is_depth(&**left);
        lemma_height_is_depth(&**right);
    }
}

proof fn lemma_halving_depth_monotone(a: nat, b: nat)
    requires
        1 <= a <= b,
    ensures
        halving_depth(a) <= halving_depth(b),
    decreases b,
{
    if a > 1 {
        lemma_halving_depth_monotone((a - a / 2) as nat, (b - b / 2) as nat);
    }
}

proof fn lemma_halving_depth_step(m: nat)
    requires
        1 <= m,
    ensures
        halving_depth(m + 1) <= halving_depth(m) + 1,
    decreases m,
{
    if m > 1 {
        let up = (m + 1 - (m + 1) / 2) as nat;
        let down = (m - m / 2) as nat;
        if up != down {
            assert(up == down + 1);
            lemma_halving_depth_step(down);
        }
    }
}

/// A balanced tree of depth `d` holds at least `2^((d - 1) / 2)` segments.
proof fn lemma_balanced_holds_many<T>(node: &SceneNode<T>)
    requires
        balanced(*node),
    ensures
        pow2(((depth(*node) - 1) / 2) as nat) <= leaves(*node).len(),
    decreases *node,
{
    vstd::arithmetic::power2::lemma_pow2_pos(0);
    reveal(vstd::arithmetic::power::pow);
    assert(pow2(0) == 1) by {
        lemma2_to64();
    }
    lemma_leaves_nonempty(node);
    if let SceneNode::Branch { left, right, .. } = node {
        lemma_balanced_holds_many(&**left);
        lemma_balanced_holds_many(&**right);
        let d = depth(*node);
        if d >= 3 {
            let k = ((d - 1) / 2) as nat;
            let low = ((d - 3) / 2) as nat;
            assert(k == low + 1);
            lemma_pow2_unfold(k);
            let (dl, dr) = (shared_depth(left), shared_depth(right));
            if ((dl - 1) / 2) as nat > low {
                lemma_pow2_strictly_increases(low, ((dl - 1) / 2) as nat);
            }
            if ((dr - 1) / 2) as nat > low {
                lemma_pow2_strictly_increases(low, ((dr - 1) / 2) as nat);
            }
        }
    }
}

proof fn lemma_leaves_nonempty<T>(node: &SceneNode<T>)
    ensures
        leaves(*node).len() >= 1,
    decreases *node,
{
    if let SceneNode::Branch { left, right, .. } = node {
        lemma_leaves_nonempty(&**left);
        lemma_leaves_nonempty(&**right);
    }
}

/// A balanced tree over at most `usize::MAX` segments is at most 129 levels
/// deep.
proof fn lemma_balanced_depth_bound<T>(node: &SceneNode<T>)
    requires
        balanced(*node),
        leaves(*node).len() <= usize::MAX,
    ensures
        depth(*node) <= 129,
{
    lemma_balanced_holds_many(node);
    if depth(*node) > 129 {
        lemma2_to64();
        if ((depth(*node) - 1) / 2) as nat > 64 {
            lemma_pow2_strictly_increases(64, ((depth(*node) - 1) / 2) as nat);
        }
    }
}

impl<T> SceneNode<T> {
    /// Returns the counts of the subtree.
    pub fn counts(&self) -> (counts: SegmentCounts)
        ensures
            counts == node_counts(*self),
    {
        match self {
            SceneNode::Leaf { counts, .. } => *counts,
            SceneNode::Branch { counts, .. } => *counts,
        }
    }

    /// Returns the height of the subtree.
    pub fn height(&self) -> (height: u8)
        ensures
            height == node_height(*self),
    {
        match self {
            SceneNode::Leaf { .. } => 1,
            SceneNode::Branch { height, .. } => *height,
        }
    }
}

/// A leaf for one segment.
fn leaf<T>(counts: SegmentCounts, segment: Arc<T>) -> (node: Arc<SceneNode<T>>)
    requires
        counts.paragraphs == 1,
    ensures
        node_wf(*node),
        leaves(*node) == seq![(counts, *segment)],
        depth(*node) == 1,
        balanced(*node),
{
    let node = SceneNode::Leaf { counts, segment };
    proof {
        let s = leaves(node);
        assert(s.drop_last() =~= Seq::<(SegmentCounts, T)>::empty());
        assert(total(s.drop_last()) == no_counts());
        assert(total(s) == combined(no_counts(), counts));
        assert(one_paragraph_each(s));
    }
    Arc::new(node)
}

/// A branch over two well-formed subtrees.
fn branch<T>(left: Arc<SceneNode<T>>, right: Arc<SceneNode<T>>) -> (node: Arc<SceneNode<T>>)
    requires
        node_wf(*left),
        node_wf(*right),
    ensures
        node_wf(*node),
        leaves(*node) == leaves(*left) + leaves(*right),
        *node is Branch,
        depth(*node) == 1 + if depth(*left) >= depth(*right) {
            depth(*left)
        } else {
            depth(*right)
        },
        balanced(*node) == (balanced(*left) && balanced(*right) && depth(*left) <= depth(*right)
            + 1 && depth(*right) <= depth(*left) + 1),
{
    let counts = SegmentCounts::combine(left.counts(), right.counts());
    let left_height = left.height();
    let right_height = right.height();
    let top = if left_height >= right_height {
        left_height
    } else {
        right_height
    };
    let height = top.saturating_add(1);
    proof {
        let l = shared_leaves(&left);
        let r = shared_leaves(&right);
        lemma_total_append(l, r);
        let s = l + r;
        assert forall|i: int| 0 <= i < s.len() implies (#[trigger] s[i]).0.paragraphs == 1 by {
            if i < l.len() {
                assert(s[i] == l[i]);
            } else {
                assert(s[i] == r[i - l.len()]);
            }
        }
    }
    Arc::new(SceneNode::Branch { counts, height, left, right })
}

/// The segments of a slice, each with its counts.
pub open spec fn segment_view<T>(s: Seq<(SegmentCounts, Arc<T>)>) -> Seq<(SegmentCounts, T)> {
    s.map_values(|p: (SegmentCounts, Arc<T>)| (p.0, *p.1))
}

/// A balanced tree over `segments[lo..hi]`.
fn build_balanced<T>(segments: &[(SegmentCounts, Arc<T>)], lo: usize, hi: usize) -> (node: Arc<
    SceneNode<T>,
>)
    requires
        lo < hi <= segments@.len(),
        forall|i: int| lo <= i < hi ==> (#[trigger] segments@[i]).0.paragraphs == 1,
    ensures
        node_wf(*node),
        leaves(*node) == segment_view(segments@).subrange(lo as int, hi as int),
        balanced(*node),
        depth(*node) == halving_depth((hi - lo) as nat),
    decreases hi - lo,
{
    if hi - lo == 1 {
        let node = leaf(segments[lo].0, share(&segments[lo].1));
        proof {
            assert(segment_view(segments@).subrange(lo as int, hi as int) =~= seq![
                (segments@[lo as int].0, *segments@[lo as int].1),
            ]);
        }
        return node;
    }
    let middle = lo + (hi - lo) / 2;
    let left = build_balanced(segments, lo, middle);
    let right = build_balanced(segments, middle, hi);
    proof {
        let n = (hi - lo) as nat;
        let small = (middle - lo) as nat;
        let large = (hi - middle) as nat;
        assert(large == n - n / 2 && (large == small || large == small + 1));
        lemma_halving_depth_monotone(small, large);
        if large == small + 1 {
            lemma_halving_depth_step(small);
        }
    }
    let node = branch(left, right);
    proof {
        let v = segment_view(segments@);
        assert(v.subrange(lo as int, hi as int) =~= v.subrange(lo as int, middle as int) + v.subrange(
            middle as int,
            hi as int,
        ));
    }
    node
}

/// The subtree with the segment at `index` replaced, sharing every other
/// subtree; `None` when no segment has that index.
fn replace_node<T>(node: &Arc<SceneNode<T>>, index: usize, counts: SegmentCounts, segment: Arc<T>) -> (result: Option<Arc<SceneNode<T>>>)
    requires
        node_wf(**node),
        counts.paragraphs == 1,
        leaves(**node).len() <= usize::MAX,
    ensures
        match result {
            Some(n) => {
                &&& index < leaves(**node).len()
                &&& node_wf(*n)
                &&& leaves(*n) == leaves(**node).update(index as int, (counts, *segment))
                &&& depth(*n) == depth(**node)
                &&& balanced(**node) ==> balanced(*n)
            },
            None => index >= leaves(**node).len(),
        },
    decreases leaves(**node).len(),
{
    match &**node {
        SceneNode::Leaf { .. } => {
            if index == 0 {
                let replacement = leaf(counts, segment);
                proof {
                    assert(leaves(**node).update(0, (counts, *segment)) =~= seq![(counts, *segment)]);
                }
                Some(replacement)
            } else {
                None
            }
        },
        SceneNode::Branch { left, right, .. } => {
            let ghost l = shared_leaves(left);
            let ghost r = shared_leaves(right);
            proof {
                reveal_with_fuel(node_wf, 2);
                assert(node_wf(**left) && node_wf(**right));
                lemma_total_paragraphs(l);
            }
            let left_count = left.counts().paragraphs;
            if index < left_count {
                match replace_node(left, index, counts, segment) {
                    Some(replacement) => {
                        proof {
                            assert((l + r).update(index as int, (counts, *segment)) =~= l.update(
                                index as int,
                                (counts, *segment),
                            ) + r);
                        }
                        Some(branch(replacement, share(right)))
                    },
                    None => None,
                }
            } else {
                match replace_node(right, index - left_count, counts, segment) {
                    Some(replacement) => {
                        proof {
                            assert((l + r).update(index as int, (counts, *segment)) =~= l + r.update(
                                index - left_count,
                                (counts, *segment),
                            ));
                        }
                        Some(branch(share(left), replacement))
                    },
                    None => None,
                }
            }
        },
    }
}

/// A branch over `left` and `right` that stays balanced when `right` has
/// grown by one level: it rotates left once, or twice when the right
/// subtree leans inward.
/// `left` over `middle` and then `outer`: one left rotation.
fn rotate_once<T>(left: Arc<SceneNode<T>>, middle: Arc<SceneNode<T>>, outer: Arc<SceneNode<T>>) -> (node: Arc<SceneNode<T>>)
    requires
        node_wf(*left),
        node_wf(*middle),
        node_wf(*outer),
        balanced(*left),
        balanced(*middle),
        balanced(*outer),
        depth(*left) <= depth(*middle) <= depth(*left) + 1,
        depth(*outer) == depth(*left) + 1,
    ensures
        node_wf(*node),
        leaves(*node) == leaves(*left) + (leaves(*middle) + leaves(*outer)),
        balanced(*node),
        depth(*left) + 2 <= depth(*node) <= depth(*left) + 3,
{
    let ghost (lv, mv, ov) = (shared_leaves(&left), shared_leaves(&middle), shared_leaves(&outer));
    let inner = branch(left, middle);
    let node = branch(inner, outer);
    proof {
        assert(lv + (mv + ov) =~= (lv + mv) + ov);
    }
    node
}

/// `left` and the left half of the middle subtree, over its right half and
/// `outer`: a right rotation inside, then a left rotation.
fn rotate_twice<T>(
    left: Arc<SceneNode<T>>,
    middle_left: Arc<SceneNode<T>>,
    middle_right: Arc<SceneNode<T>>,
    outer: Arc<SceneNode<T>>,
) -> (node: Arc<SceneNode<T>>)
    requires
        node_wf(*left),
        node_wf(*middle_left),
        node_wf(*middle_right),
        node_wf(*outer),
        balanced(*left),
        balanced(*middle_left),
        balanced(*middle_right),
        balanced(*outer),
        depth(*left) <= depth(*middle_left) + 1,
        depth(*middle_left) <= depth(*left),
        depth(*left) <= depth(*middle_right) + 1,
        depth(*middle_right) <= depth(*left),
        depth(*outer) == depth(*left),
    ensures
        node_wf(*node),
        leaves(*node) == leaves(*left) + ((leaves(*middle_left) + leaves(*middle_right)) + leaves(
            *outer,
        )),
        balanced(*node),
        depth(*node) == depth(*left) + 2,
{
    let ghost (lv, mlv, mrv, ov) = (
        shared_leaves(&left),
        shared_leaves(&middle_left),
        shared_leaves(&middle_right),
        shared_leaves(&outer),
    );
    let first = branch(left, middle_left);
    let second = branch(middle_right, outer);
    let node = branch(first, second);
    proof {
        assert(lv + ((mlv + mrv) + ov) =~= (lv + mlv) + (mrv + ov));
    }
    node
}

/// A branch over `left` and `right` that stays balanced when `right` has
/// grown by one level: it rotates left once, or twice when the right
/// subtree leans inward.
fn balance_right<T>(left: Arc<SceneNode<T>>, right: Arc<SceneNode<T>>) -> (node: Arc<SceneNode<T>>)
    requires
        node_wf(*left),
        node_wf(*right),
        balanced(*left),
        balanced(*right),
        depth(*left) <= depth(*right) + 1,
        depth(*right) <= depth(*left) + 2,
        depth(*right) < 250,
    ensures
        node_wf(*node),
        leaves(*node) == leaves(*left) + leaves(*right),
        balanced(*node),
        depth(*right) <= depth(*left) + 1 ==> depth(*node) == 1 + if depth(*left) >= depth(
            *right,
        ) {
            depth(*left)
        } else {
            depth(*right)
        },
        depth(*right) == depth(*left) + 2 ==> depth(*right) <= depth(*node) <= depth(*right) + 1,
{
    proof {
        lemma_height_is_depth(&*left);
        lemma_height_is_depth(&*right);
    }
    if right.height() <= left.height().saturating_add(1) {
        return branch(left, right);
    }
    match &*right {
        SceneNode::Branch { left: middle, right: outer, .. } => {
            proof {
                reveal_with_fuel(node_wf, 2);
                lemma_height_is_depth(&**middle);
                lemma_height_is_depth(&**outer);
            }
            if outer.height() >= middle.height() {
                rotate_once(left, share(middle), share(outer))
            } else {
                match &**middle {
                    SceneNode::Branch { left: middle_left, right: middle_right, .. } => {
                        proof {
                            assert(node_wf(**middle_left) && node_wf(**middle_right));
                            assert(balanced(**middle));
                            assert(balanced(**middle_left) && balanced(**middle_right));
                        }
                        rotate_twice(left, share(middle_left), share(middle_right), share(outer))
                    },
                    SceneNode::Leaf { .. } => vstd::pervasive::unreached(),
                }
            }
        },
        SceneNode::Leaf { .. } => vstd::pervasive::unreached(),
    }
}

/// The subtree with `leaf` appended after its last segment.
fn append_node<T>(node: &Arc<SceneNode<T>>, leaf: Arc<SceneNode<T>>) -> (result: Arc<SceneNode<T>>)
    requires
        node_wf(**node),
        node_wf(*leaf),
        balanced(**node),
        depth(*leaf) == 1,
        balanced(*leaf),
        depth(**node) < 249,
    ensures
        node_wf(*result),
        leaves(*result) == leaves(**node) + leaves(*leaf),
        balanced(*result),
        depth(**node) <= depth(*result) <= depth(**node) + 1,
    decreases leaves(**node).len(),
{
    match &**node {
        SceneNode::Leaf { .. } => branch(share(node), leaf),
        SceneNode::Branch { left, right, .. } => {
            proof {
                reveal_with_fuel(node_wf, 2);
                assert(node_wf(**left) && node_wf(**right));
            }
            let ghost l = shared_leaves(left);
            let ghost r = shared_leaves(right);
            let appended = append_node(right, leaf);
            let result = balance_right(share(left), appended);
            proof {
                assert(l + (r + leaves(*leaf)) =~= (l + r) + leaves(*leaf));
            }
            result
        },
    }
}

/// The leaves with `k` segments from `index` on replaced by `replacement`.
pub open spec fn spliced<T>(old: Seq<(SegmentCounts, T)>, index: int, replacement: Seq<(SegmentCounts, T)>) -> Seq<
    (SegmentCounts, T),
> {
    old.subrange(0, index) + replacement + old.subrange(index + replacement.len(), old.len() as int)
}

/// Splicing past the left part splices the right part.
proof fn lemma_splice_right<T>(l: Seq<(SegmentCounts, T)>, r: Seq<(SegmentCounts, T)>, index: int, rep: Seq<(SegmentCounts, T)>)
    requires
        l.len() <= index,
        index + rep.len() <= l.len() + r.len(),
    ensures
        spliced(l + r, index, rep) == l + spliced(r, index - l.len(), rep),
{
    assert(spliced(l + r, index, rep) =~= l + spliced(r, index - l.len(), rep));
}

/// Splicing inside the left part leaves the right part.
proof fn lemma_splice_left<T>(l: Seq<(SegmentCounts, T)>, r: Seq<(SegmentCounts, T)>, index: int, rep: Seq<(SegmentCounts, T)>)
    requires
        0 <= index,
        index + rep.len() <= l.len(),
    ensures
        spliced(l + r, index, rep) == spliced(l, index, rep) + r,
{
    assert(spliced(l + r, index, rep) =~= spliced(l, index, rep) + r);
}

/// Splicing across the boundary splices the tail of the left part and the
/// head of the right part.
proof fn lemma_splice_across<T>(
    l: Seq<(SegmentCounts, T)>,
    r: Seq<(SegmentCounts, T)>,
    index: int,
    first: Seq<(SegmentCounts, T)>,
    second: Seq<(SegmentCounts, T)>,
)
    requires
        0 <= index,
        index + first.len() == l.len(),
        second.len() <= r.len(),
    ensures
        spliced(l + r, index, first + second) == spliced(l, index, first) + spliced(r, 0, second),
{
    assert(spliced(l + r, index, first + second) =~= spliced(l, index, first) + spliced(r, 0, second));
}

/// The subtree with the segments from `index` on replaced by
/// `segments[lo..hi]`, sharing every untouched subtree; `None` when the
/// replaced segments run past the subtree.
#[verifier::rlimit(40)]
fn replace_node_range<T>(
    node: &Arc<SceneNode<T>>,
    index: usize,
    segments: &[(SegmentCounts, Arc<T>)],
    lo: usize,
    hi: usize,
) -> (result: Option<Arc<SceneNode<T>>>)
    requires
        node_wf(**node),
        leaves(**node).len() <= usize::MAX,
        lo < hi <= segments@.len(),
        forall|i: int| lo <= i < hi ==> (#[trigger] segments@[i]).0.paragraphs == 1,
    ensures
        match result {
            Some(n) => {
                &&& index + (hi - lo) <= leaves(**node).len()
                &&& node_wf(*n)
                &&& leaves(*n) == spliced(
                    leaves(**node),
                    index as int,
                    segment_view(segments@).subrange(lo as int, hi as int),
                )
                &&& depth(*n) == depth(**node)
                &&& balanced(**node) ==> balanced(*n)
            },
            None => index + (hi - lo) > leaves(**node).len(),
        },
    decreases leaves(**node).len(),
{
    let ghost view = segment_view(segments@);
    match &**node {
        SceneNode::Leaf { .. } => {
            if index == 0 && hi - lo == 1 {
                let replacement = leaf(segments[lo].0, share(&segments[lo].1));
                proof {
                    assert(spliced(leaves(**node), 0, view.subrange(lo as int, hi as int)) =~= seq![
                        (segments@[lo as int].0, *segments@[lo as int].1),
                    ]);
                }
                Some(replacement)
            } else {
                None
            }
        },
        SceneNode::Branch { left, right, .. } => {
            let ghost l = shared_leaves(left);
            let ghost r = shared_leaves(right);
            proof {
                reveal_with_fuel(node_wf, 2);
                assert(node_wf(**left) && node_wf(**right));
                assert(leaves(**node) == l + r);
                lemma_total_paragraphs(l);
            }
            let left_count = left.counts().paragraphs;
            if index >= left_count {
                match replace_node_range(right, index - left_count, segments, lo, hi) {
                    Some(replacement) => {
                        proof {
                            lemma_splice_right(l, r, index as int, view.subrange(lo as int, hi as int));
                        }
                        Some(branch(share(left), replacement))
                    },
                    None => None,
                }
            } else {
                let room = left_count - index;
                let left_replacements = if hi - lo <= room {
                    hi - lo
                } else {
                    room
                };
                let split = lo + left_replacements;
                let new_left = match replace_node_range(left, index, segments, lo, split) {
                    Some(node) => node,
                    None => return None,
                };
                if split == hi {
                    proof {
                        lemma_splice_left(l, r, index as int, view.subrange(lo as int, hi as int));
                    }
                    Some(branch(new_left, share(right)))
                } else {
                    match replace_node_range(right, 0, segments, split, hi) {
                        Some(new_right) => {
                            proof {
                                let first = view.subrange(lo as int, split as int);
                                let second = view.subrange(split as int, hi as int);
                                assert(view.subrange(lo as int, hi as int) =~= first + second);
                                lemma_splice_across(l, r, index as int, first, second);
                            }
                            Some(branch(new_left, new_right))
                        },
                        None => None,
                    }
                }
            }
        },
    }
}

/// Where the records of one segment start among the records of the whole
/// spine.
#[derive(Clone, Copy, Debug, PartialEq, Eq, Structural)]
pub struct SegmentPosition {
    /// Paragraph segments before this one.
    pub paragraph_base: usize,
    /// Lines before this segment.
    pub line_base: usize,
    /// Fragments before this segment.
    pub fragment_base: usize,
    /// Movement stops before this segment.
    pub movement_base: usize,
    /// Text leaves before this segment.
    pub text_base: usize,
}

/// The position after segments with the given combined counts.
pub open spec fn position_after(c: SegmentCounts) -> SegmentPosition {
    SegmentPosition {
        paragraph_base: c.paragraphs,
        line_base: c.lines,
        fragment_base: c.fragments,
        movement_base: c.movements,
        text_base: c.texts,
    }
}

impl SegmentPosition {
    /// The position of the first segment.
    pub fn start() -> (position: Self)
        ensures
            position == position_after(no_counts()),
    {
        SegmentPosition { paragraph_base: 0, line_base: 0, fragment_base: 0, movement_base: 0, text_base: 0 }
    }

    /// Moves past segments with the given counts, saturating.
    pub fn advance(&mut self, counts: SegmentCounts)
        ensures
            *final(self) == (SegmentPosition {
                paragraph_base: sat(old(self).paragraph_base, counts.paragraphs),
                line_base: sat(old(self).line_base, counts.lines),
                fragment_base: sat(old(self).fragment_base, counts.fragments),
                movement_base: sat(old(self).movement_base, counts.movements),
                text_base: sat(old(self).text_base, counts.texts),
            }),
    {
        self.paragraph_base = self.paragraph_base.saturating_add(counts.paragraphs);
        self.line_base = self.line_base.saturating_add(counts.lines);
        self.fragment_base = self.fragment_base.saturating_add(counts.fragments);
        self.movement_base = self.movement_base.saturating_add(counts.movements);
        self.text_base = self.text_base.saturating_add(counts.texts);
    }
}

/// The exact number of records of one kind in the segments.
pub open spec fn count_sum<T>(s: Seq<(SegmentCounts, T)>, kind: RecordKind) -> int
    decreases s.len(),
{
    if s.len() == 0 {
        0
    } else {
        count_of(s[0].0, kind) + count_sum(s.drop_first(), kind)
    }
}

/// The segment holding record `index` of one kind, and the record's index
/// within that segment.
pub open spec fn locate<T>(s: Seq<(SegmentCounts, T)>, kind: RecordKind, index: int) -> Option<(int, int)>
    decreases s.len(),
{
    if s.len() == 0 {
        None
    } else if index < count_of(s[0].0, kind) {
        Some((0int, index))
    } else {
        match locate(s.drop_first(), kind, index - count_of(s[0].0, kind)) {
            Some(found) => Some((found.0 + 1, found.1)),
            None => None,
        }
    }
}

/// A location moved past `n` earlier segments.
pub open spec fn shifted(found: Option<(int, int)>, n: int) -> Option<(int, int)> {
    match found {
        Some(p) => Some((p.0 + n, p.1)),
        None => None,
    }
}

proof fn lemma_count_sum_nonnegative<T>(s: Seq<(SegmentCounts, T)>, kind: RecordKind)
    ensures
        count_sum(s, kind) >= 0,
    decreases s.len(),
{
    if s.len() > 0 {
        lemma_count_sum_nonnegative(s.drop_first(), kind);
    }
}

proof fn lemma_count_sum_append<T>(a: Seq<(SegmentCounts, T)>, b: Seq<(SegmentCounts, T)>, kind: RecordKind)
    ensures
        count_sum(a + b, kind) == count_sum(a, kind) + count_sum(b, kind),
    decreases a.len(),
{
    if a.len() == 0 {
        assert(a + b =~= b);
    } else {
        assert((a + b).drop_first() =~= a.drop_first() + b);
        lemma_count_sum_append(a.drop_first(), b, kind);
    }
}

/// Records in concatenated segments are found in the first part, or past
/// it in the second.
proof fn lemma_locate_append<T>(a: Seq<(SegmentCounts, T)>, b: Seq<(SegmentCounts, T)>, kind: RecordKind, index: int)
    requires
        0 <= index,
    ensures
        locate(a + b, kind, index) == if index < count_sum(a, kind) {
            locate(a, kind, index)
        } else {
            shifted(locate(b, kind, index - count_sum(a, kind)), a.len() as int)
        },
    decreases a.len(),
{
    if a.len() == 0 {
        assert(a + b =~= b);
        assert(shifted(locate(b, kind, index), 0) == locate(b, kind, index));
    } else {
        assert((a + b).drop_first() =~= a.drop_first() + b);
        assert((a + b)[0] == a[0]);
        lemma_count_sum_nonnegative(a.drop_first(), kind);
        if index >= count_of(a[0].0, kind) {
            lemma_locate_append(a.drop_first(), b, kind, index - count_of(a[0].0, kind));
        }
    }
}

/// The combined count of a kind is the exact count, saturated.
proof fn lemma_total_count<T>(s: Seq<(SegmentCounts, T)>, kind: RecordKind)
    ensures
        count_of(total(s), kind) == saturate(count_sum(s, kind)),
        count_sum(s, kind) >= 0,
    decreases s.len(),
{
    if s.len() > 0 {
        lemma_total_count(s.drop_last(), kind);
        lemma_count_sum_append(s.drop_last(), seq![s.last()], kind);
        assert(s.drop_last() + seq![s.last()] =~= s);
        assert(seq![s.last()].drop_first() =~= Seq::<(SegmentCounts, T)>::empty());
        assert(count_sum(seq![s.last()].drop_first(), kind) == 0);
        assert(count_sum(seq![s.last()], kind) == count_of(s.last().0, kind));
        lemma_count_sum_nonnegative(s, kind);
    }
}

/// Whether two shared nodes are one allocation.
///
/// Calls `Arc::ptr_eq`, which the standard library documents as true when
/// both point to the same allocation; nodes in one allocation are one value.
/// Only that direction is stated: equal nodes in different allocations
/// compare false, and which of them share an allocation is not stated.
#[verifier::external_body]
fn same_node<T>(a: &Arc<SceneNode<T>>, b: &Arc<SceneNode<T>>) -> (same: bool)
    ensures
        same ==> **a == **b,
{
    Arc::ptr_eq(a, b)
}

/// The nodes of `current` whose value differs from the node at the same
/// place in `previous`: nothing where the two subtrees are equal, matching
/// branches compared side by side, and every node of a subtree whose shape
/// differs from the previous one there.
pub open spec fn differing_nodes<T>(current: SceneNode<T>, previous: SceneNode<T>) -> int
    decreases current,
{
    if current == previous {
        0
    } else {
        match (current, previous) {
            (
                SceneNode::Branch { left: current_left, right: current_right, .. },
                SceneNode::Branch { left: previous_left, right: previous_right, .. },
            ) => 1 + differing_nodes(*current_left, *previous_left) + differing_nodes(
                *current_right,
                *previous_right,
            ),
            (SceneNode::Leaf { .. }, SceneNode::Leaf { .. }) => 1,
            _ => 2 * leaves(current).len() - 1,
        }
    }
}

/// The differing nodes of two shared subtrees.
pub open spec fn shared_differing<T>(current: &Arc<SceneNode<T>>, previous: &Arc<SceneNode<T>>) -> int {
    differing_nodes(**current, **previous)
}

/// A count held below the largest `usize`, as saturating node counts are.
pub open spec fn capped_count(count: int) -> int {
    if count > usize::MAX - 1 {
        usize::MAX - 1
    } else {
        count
    }
}

/// Counts the nodes of `current` that `previous` does not share: a shared
/// subtree counts nothing, matching branches are compared side by side, and
/// a subtree whose shape differs counts all its nodes. The count never
/// exceeds the nodes of `current`.
fn unshared_node_count<T>(current: &Arc<SceneNode<T>>, previous: &Arc<SceneNode<T>>) -> (count: usize)
    requires
        node_wf(**current),
        leaves(**current).len() <= usize::MAX,
    ensures
        count <= 2 * leaves(**current).len() - 1,
        count >= capped_count(differing_nodes(**current, **previous)),
    decreases leaves(**current).len(),
{
    if same_node(current, previous) {
        return 0;
    }
    proof {
        lemma_total_paragraphs(shared_leaves(current));
    }
    match (&**current, &**previous) {
        (
            SceneNode::Branch { left: current_left, right: current_right, .. },
            SceneNode::Branch { left: previous_left, right: previous_right, .. },
        ) => {
            proof {
                reveal_with_fuel(node_wf, 2);
                assert(node_wf(**current_left) && node_wf(**current_right));
                lemma_leaves_nonempty(&**current_left);
                lemma_leaves_nonempty(&**current_right);
            }
            let left = unshared_node_count(current_left, previous_left);
            let right = unshared_node_count(current_right, previous_right);
            1usize.saturating_add(left).saturating_add(right)
        },
        (SceneNode::Leaf { .. }, SceneNode::Leaf { .. }) => 1,
        _ => {
            proof {
                reveal_with_fuel(node_wf, 1);
            }
            let paragraphs = current.counts().paragraphs;
            saturating_mul(paragraphs, 2).saturating_sub(1)
        },
    }
}

/// The root of a scene spine.
#[derive(Debug)]
enum SpineRoot<T> {
    Empty,
    Single(SegmentCounts, Arc<T>),
    Tree(Arc<SceneNode<T>>),
}

/// Persistent balanced scene structure over paragraph segments.
#[derive(Debug)]
pub struct SceneSpine<T> {
    root: SpineRoot<T>,
    normal_flow: bool,
}

impl<T> SceneSpine<T> {
    /// The segments in paragraph order, each with its counts.
    pub closed spec fn segment_seq(&self) -> Seq<(SegmentCounts, T)> {
        match self.root {
            SpineRoot::Empty => Seq::empty(),
            SpineRoot::Single(counts, segment) => seq![(counts, *segment)],
            SpineRoot::Tree(root) => leaves(*root),
        }
    }

    /// Whether later paragraphs are placed after earlier ones.
    pub closed spec fn spec_normal_flow(&self) -> bool {
        self.normal_flow
    }

    /// The tree records its counts, and each segment counts one paragraph.
    pub closed spec fn wf(&self) -> bool {
        &&& self.segment_seq().len() <= usize::MAX
        &&& one_paragraph_each(self.segment_seq())
        &&& match self.root {
            SpineRoot::Tree(root) => node_wf(*root) && balanced(*root),
            _ => true,
        }
    }

    /// Levels of the spine's tree: none when empty, one for a single
    /// segment.
    pub closed spec fn spec_depth(&self) -> nat {
        match self.root {
            SpineRoot::Empty => 0,
            SpineRoot::Single(..) => 1,
            SpineRoot::Tree(root) => depth(*root),
        }
    }

    /// A spine with no segments.
    pub fn empty(normal_flow: bool) -> (spine: Self)
        ensures
            spine.wf(),
            spine.segment_seq() == Seq::<(SegmentCounts, T)>::empty(),
            spine.spec_normal_flow() == normal_flow,
    {
        SceneSpine { root: SpineRoot::Empty, normal_flow }
    }

    /// A balanced spine over segments in paragraph order.
    pub fn from_segments(segments: &[(SegmentCounts, Arc<T>)], normal_flow: bool) -> (spine: Self)
        requires
            forall|i: int| 0 <= i < segments@.len() ==> (#[trigger] segments@[i]).0.paragraphs == 1,
        ensures
            spine.wf(),
            spine.segment_seq() == segment_view(segments@),
            spine.spec_normal_flow() == normal_flow,
    {
        let n = segments.len();
        let root = if n == 0 {
            proof {
                assert(segment_view(segments@) =~= Seq::<(SegmentCounts, T)>::empty());
            }
            SpineRoot::Empty
        } else if n == 1 {
            proof {
                assert(segment_view(segments@) =~= seq![(segments@[0].0, *segments@[0].1)]);
            }
            SpineRoot::Single(segments[0].0, share(&segments[0].1))
        } else {
            let node = build_balanced(segments, 0, n);
            proof {
                assert(segment_view(segments@).subrange(0, n as int) =~= segment_view(segments@));
            }
            SpineRoot::Tree(node)
        };
        let spine = SceneSpine { root, normal_flow };
        proof {
            assert(one_paragraph_each(spine.segment_seq())) by {
                assert forall|i: int| 0 <= i < spine.segment_seq().len() implies (#[trigger] spine.segment_seq()[i]).0.paragraphs == 1 by {
                    assert(spine.segment_seq()[i].0 == segments@[i].0);
                }
            }
        }
        spine
    }

    /// Returns whether later paragraphs are placed after earlier ones.
    pub fn is_normal_flow(&self) -> (normal_flow: bool)
        ensures
            normal_flow == self.spec_normal_flow(),
    {
        self.normal_flow
    }

    /// Returns the counts of every segment combined.
    pub fn summary(&self) -> (counts: SegmentCounts)
        requires
            self.wf(),
        ensures
            counts == total(self.segment_seq()),
    {
        match &self.root {
            SpineRoot::Empty => SegmentCounts {
                paragraphs: 0,
                lines: 0,
                fragments: 0,
                movements: 0,
                texts: 0,
                region_attempts: 0,
                region_height_rejections: 0,
            },
            SpineRoot::Single(counts, _) => {
                proof {
                    let s = self.segment_seq();
                    assert(s.drop_last() =~= Seq::<(SegmentCounts, T)>::empty());
                    assert(total(s.drop_last()) == no_counts());
                }
                *counts
            },
            SpineRoot::Tree(root) => root.counts(),
        }
    }

    /// Returns the number of paragraph segments.
    pub fn paragraph_count(&self) -> (count: usize)
        requires
            self.wf(),
        ensures
            count == self.segment_seq().len(),
    {
        match &self.root {
            SpineRoot::Empty => 0,
            SpineRoot::Single(..) => 1,
            SpineRoot::Tree(root) => {
                proof {
                    lemma_total_paragraphs(self.segment_seq());
                }
                root.counts().paragraphs
            },
        }
    }

    /// Returns the segment at a paragraph index.
    pub fn segment(&self, index: usize) -> (segment: Option<&Arc<T>>)
        requires
            self.wf(),
        ensures
            match segment {
                Some(s) => index < self.segment_seq().len() && **s == self.segment_seq()[index as int].1,
                None => index >= self.segment_seq().len(),
            },
    {
        match &self.root {
            SpineRoot::Empty => None,
            SpineRoot::Single(_, segment) => if index == 0 {
                Some(segment)
            } else {
                None
            },
            SpineRoot::Tree(root) => {
                let ghost all = self.segment_seq();
                let mut node: &SceneNode<T> = &**root;
                let mut local = index;
                loop
                    invariant
                        all == self.segment_seq(),
                        node_wf(*node),
                        leaves(*node).len() <= all.len() <= usize::MAX,
                        (local < leaves(*node).len()) <==> (index < all.len()),
                        index < all.len() ==> leaves(*node)[local as int] == all[index as int],
                    decreases leaves(*node).len(),
                {
                    match node {
                        SceneNode::Leaf { segment, .. } => {
                            assert(leaves(*node).len() == 1);
                            assert(leaves(*node)[0].1 == **segment);
                            if local == 0 {
                                return Some(segment);
                            }
                            return None;
                        },
                        SceneNode::Branch { left, right, .. } => {
                            let ghost l = shared_leaves(left);
                            let ghost r = shared_leaves(right);
                            proof {
                                reveal_with_fuel(node_wf, 2);
                                assert(node_wf(**left) && node_wf(**right));
                                assert(leaves(*node) == l + r);
                                lemma_total_paragraphs(l);
                                if index < all.len() {
                                    if local as int >= l.len() {
                                        assert(leaves(*node)[local as int] == r[local - l.len()]);
                                    } else {
                                        assert(leaves(*node)[local as int] == l[local as int]);
                                    }
                                }
                            }
                            let left_count = left.counts().paragraphs;
                            if local < left_count {
                                node = &**left;
                            } else {
                                local = local - left_count;
                                node = &**right;
                            }
                        },
                    }
                }
            },
        }
    }

    /// A spine with the segment at `index` replaced, sharing every other
    /// subtree; `None` when no segment has that index.
    pub fn replace(&self, index: usize, counts: SegmentCounts, segment: Arc<T>) -> (spine: Option<Self>)
        requires
            self.wf(),
            counts.paragraphs == 1,
        ensures
            match spine {
                Some(s) => {
                    &&& index < self.segment_seq().len()
                    &&& s.wf()
                    &&& s.segment_seq() == self.segment_seq().update(index as int, (counts, *segment))
                    &&& s.spec_normal_flow() == self.spec_normal_flow()
                },
                None => index >= self.segment_seq().len(),
            },
    {
        let root = match &self.root {
            SpineRoot::Empty => return None,
            SpineRoot::Single(..) => {
                if index != 0 {
                    return None;
                }
                proof {
                    assert(self.segment_seq().update(0, (counts, *segment)) =~= seq![(counts, *segment)]);
                }
                SpineRoot::Single(counts, segment)
            },
            SpineRoot::Tree(root) => match replace_node(root, index, counts, segment) {
                Some(node) => SpineRoot::Tree(node),
                None => return None,
            },
        };
        let spine = SceneSpine { root, normal_flow: self.normal_flow };
        proof {
            assert forall|i: int| 0 <= i < spine.segment_seq().len() implies (#[trigger] spine.segment_seq()[i]).0.paragraphs == 1 by {
                if i != index {
                    assert(spine.segment_seq()[i] == self.segment_seq()[i]);
                }
            }
        }
        Some(spine)
    }

    /// A spine with one more segment after the last, sharing the untouched
    /// subtrees and rebalancing along the right edge.
    pub fn append(&self, counts: SegmentCounts, segment: Arc<T>) -> (spine: Self)
        requires
            self.wf(),
            counts.paragraphs == 1,
            self.segment_seq().len() < usize::MAX,
        ensures
            spine.wf(),
            spine.segment_seq() == self.segment_seq().push((counts, *segment)),
            spine.spec_normal_flow() == self.spec_normal_flow(),
    {
        let root = match &self.root {
            SpineRoot::Empty => {
                proof {
                    assert(self.segment_seq().push((counts, *segment)) =~= seq![(counts, *segment)]);
                }
                SpineRoot::Single(counts, segment)
            },
            SpineRoot::Single(existing_counts, existing) => {
                proof {
                    assert(self.segment_seq()[0].0 == *existing_counts);
                }
                let first = leaf(*existing_counts, share(existing));
                let second = leaf(counts, segment);
                let node = branch(first, second);
                proof {
                    assert(leaves(*node) =~= self.segment_seq().push((counts, *segment)));
                }
                SpineRoot::Tree(node)
            },
            SpineRoot::Tree(root) => {
                let last = leaf(counts, segment);
                proof {
                    lemma_balanced_depth_bound(&**root);
                }
                let node = append_node(root, last);
                proof {
                    assert(leaves(*node) =~= self.segment_seq().push((counts, *segment)));
                }
                SpineRoot::Tree(node)
            },
        };
        let spine = SceneSpine { root, normal_flow: self.normal_flow };
        proof {
            assert forall|i: int| 0 <= i < spine.segment_seq().len() implies (#[trigger] spine.segment_seq()[i]).0.paragraphs == 1 by {
                if i < self.segment_seq().len() {
                    assert(spine.segment_seq()[i] == self.segment_seq()[i]);
                }
            }
        }
        spine
    }

    /// A spine with the segments from `start` on replaced by `segments`,
    /// sharing every untouched subtree; `None` when the replaced segments
    /// run past the last segment.
    pub fn replace_range(&self, start: usize, segments: &[(SegmentCounts, Arc<T>)]) -> (spine: Option<Self>)
        requires
            self.wf(),
            forall|i: int| 0 <= i < segments@.len() ==> (#[trigger] segments@[i]).0.paragraphs == 1,
        ensures
            match spine {
                Some(s) => {
                    &&& start + segments@.len() <= self.segment_seq().len()
                    &&& s.wf()
                    &&& s.segment_seq() == spliced(self.segment_seq(), start as int, segment_view(segments@))
                    &&& s.spec_normal_flow() == self.spec_normal_flow()
                },
                None => start + segments@.len() > self.segment_seq().len(),
            },
    {
        let n = segments.len();
        proof {
            lemma_total_paragraphs(self.segment_seq());
        }
        if n == 0 {
            if start <= self.paragraph_count() {
                proof {
                    assert(spliced(self.segment_seq(), start as int, segment_view(segments@)) =~= self.segment_seq());
                }
                return Some(self.clone());
            }
            return None;
        }
        let end = match start.checked_add(n) {
            Some(end) => end,
            None => return None,
        };
        if end > self.paragraph_count() {
            return None;
        }
        let root = match &self.root {
            SpineRoot::Empty => return None,
            SpineRoot::Single(..) => {
                if start == 0 && n == 1 {
                    proof {
                        assert(spliced(self.segment_seq(), 0, segment_view(segments@)) =~= seq![
                            (segments@[0].0, *segments@[0].1),
                        ]);
                    }
                    SpineRoot::Single(segments[0].0, share(&segments[0].1))
                } else {
                    return None;
                }
            },
            SpineRoot::Tree(root) => match replace_node_range(root, start, segments, 0, n) {
                Some(node) => {
                    proof {
                        assert(segment_view(segments@).subrange(0, n as int) =~= segment_view(segments@));
                    }
                    SpineRoot::Tree(node)
                },
                None => return None,
            },
        };
        let spine = SceneSpine { root, normal_flow: self.normal_flow };
        proof {
            let old = self.segment_seq();
            let new = spine.segment_seq();
            let view = segment_view(segments@);
            assert forall|i: int| 0 <= i < new.len() implies (#[trigger] new[i]).0.paragraphs == 1 by {
                if i < start {
                    assert(new[i] == old[i]);
                } else if i < start + n {
                    assert(new[i] == view[i - start]);
                    assert(view[i - start].0 == segments@[i - start].0);
                } else {
                    assert(new[i] == old[i]);
                }
            }
        }
        Some(spine)
    }

    /// Returns the segment holding record `index` of one kind, where the
    /// segment's records start, and the record's index within it.
    ///
    /// The answer is exact whenever the records of that kind can be counted
    /// in a `usize`.
    pub fn positioned_record(&self, index: usize, kind: RecordKind) -> (found: Option<(&Arc<T>, SegmentPosition, usize)>)
        requires
            self.wf(),
        ensures
            count_sum(self.segment_seq(), kind) <= usize::MAX ==> match locate(
                self.segment_seq(),
                kind,
                index as int,
            ) {
                Some(p) => found matches Some(f) && **f.0 == self.segment_seq()[p.0].1 && f.1
                    == position_after(total(self.segment_seq().subrange(0, p.0))) && f.2 == p.1,
                None => found is None,
            },
    {
        match &self.root {
            SpineRoot::Empty => None,
            SpineRoot::Single(counts, segment) => {
                proof {
                    let all = self.segment_seq();
                    assert(all.drop_first() =~= Seq::<(SegmentCounts, T)>::empty());
                    assert(locate(all.drop_first(), kind, index - count_of(*counts, kind)) is None);
                    assert(all.subrange(0, 0) =~= Seq::<(SegmentCounts, T)>::empty());
                    assert(total(all.subrange(0, 0)) == no_counts());
                }
                if index < counts.count(kind) {
                    Some((segment, SegmentPosition::start(), index))
                } else {
                    None
                }
            },
            SpineRoot::Tree(root) => {
                let ghost all = self.segment_seq();
                let ghost exact = count_sum(all, kind) <= usize::MAX;
                let mut node: &SceneNode<T> = &**root;
                let mut local = index;
                let mut position = SegmentPosition::start();
                let ghost mut offset: int = 0;
                proof {
                    assert(all.subrange(0, 0) =~= Seq::<(SegmentCounts, T)>::empty());
                    assert(total(all.subrange(0, 0)) == no_counts());
                    assert(all.subrange(0, all.len() as int) =~= all);
                    assert(shifted(locate(all, kind, index as int), 0) == locate(all, kind, index as int));
                }
                loop
                    invariant
                        all == self.segment_seq(),
                        node_wf(*node),
                        0 <= offset,
                        offset + leaves(*node).len() <= all.len(),
                        leaves(*node) == all.subrange(offset, offset + leaves(*node).len()),
                        position == position_after(total(all.subrange(0, offset))),
                        exact == (count_sum(all, kind) <= usize::MAX),
                        exact ==> count_sum(leaves(*node), kind) <= count_sum(all, kind),
                        exact ==> locate(all, kind, index as int) == shifted(
                            locate(leaves(*node), kind, local as int),
                            offset,
                        ),
                    decreases leaves(*node).len(),
                {
                    match node {
                        SceneNode::Leaf { counts, segment } => {
                            proof {
                                let s = leaves(*node);
                                assert(s.drop_first() =~= Seq::<(SegmentCounts, T)>::empty());
                                assert(s[0] == (*counts, **segment));
                                assert(all[offset] == s[0]);
                                assert(locate(s.drop_first(), kind, local - count_of(*counts, kind)) is None);
                            }
                            if local < counts.count(kind) {
                                return Some((segment, position, local));
                            }
                            return None;
                        },
                        SceneNode::Branch { left, right, .. } => {
                            let ghost l = shared_leaves(left);
                            let ghost r = shared_leaves(right);
                            proof {
                                reveal_with_fuel(node_wf, 2);
                                assert(node_wf(**left) && node_wf(**right));
                                assert(leaves(*node) == l + r);
                                lemma_total_count(l, kind);
                                lemma_count_sum_append(l, r, kind);
                                lemma_count_sum_nonnegative(l, kind);
                                lemma_count_sum_nonnegative(r, kind);
                                lemma_locate_append(l, r, kind, local as int);
                                lemma_total_append(all.subrange(0, offset), l);
                                assert(l =~= all.subrange(offset, offset + l.len()));
                                assert forall|i: int| 0 <= i < r.len() implies r[i] == all[offset + l.len() + i] by {
                                    assert(r[i] == leaves(*node)[l.len() + i]);
                                }
                                assert(r =~= all.subrange(offset + l.len(), offset + l.len() + r.len()));
                                assert(all.subrange(0, offset) + l =~= all.subrange(0, offset + l.len()));
                            }
                            let before = left.counts();
                            let left_count = before.count(kind);
                            if local < left_count {
                                node = &**left;
                            } else {
                                local = local - left_count;
                                position.advance(before);
                                proof {
                                    offset = offset + l.len();
                                }
                                node = &**right;
                            }
                        },
                    }
                }
            },
        }
    }

    /// Returns the deterministic charge of the tree's nodes; a spine of one
    /// segment or none has no nodes.
    pub fn accounted_node_bytes(&self) -> (bytes: usize)
        requires
            self.wf(),
        ensures
            bytes == if self.has_tree() {
                saturate(vstd::layout::size_of::<SceneNode<T>>() * tree_node_count(self.segment_seq().len() as usize))
            } else {
                0
            },
    {
        match &self.root {
            SpineRoot::Tree(root) => {
                proof {
                    lemma_total_paragraphs(self.segment_seq());
                }
                accounted_node_bytes::<SceneNode<T>>(root.counts().paragraphs)
            },
            _ => 0,
        }
    }

    /// Returns the node charge of this spine that `previous` does not
    /// already hold: the whole charge without a previous spine of the same
    /// flow or when the previous spine has no tree, nothing without a tree
    /// of its own, and otherwise the charge of the nodes it does not share
    /// with the previous tree, which never exceeds the whole charge.
    pub fn unshared_node_bytes_from(&self, previous: Option<&Self>) -> (bytes: usize)
        requires
            self.wf(),
        ensures
            !self.has_tree() ==> bytes == 0,
            self.has_tree() && (previous matches Some(p) ==> p.spec_normal_flow()
                != self.spec_normal_flow() || !p.has_tree()) ==> bytes == saturate(
                vstd::layout::size_of::<SceneNode<T>>() * tree_node_count(self.segment_seq().len() as usize),
            ),
            self.has_tree() ==> bytes <= saturate(
                vstd::layout::size_of::<SceneNode<T>>() * (2 * self.segment_seq().len() - 1),
            ),
            self.has_tree() && 2 * self.segment_seq().len() <= usize::MAX ==> bytes <= saturate(
                vstd::layout::size_of::<SceneNode<T>>() * tree_node_count(self.segment_seq().len() as usize),
            ),
            previous matches Some(p) ==> (p.spec_normal_flow() == self.spec_normal_flow()
                && self.has_tree() && p.has_tree() ==> bytes >= saturate(
                vstd::layout::size_of::<SceneNode<T>>() * capped_count(
                    differing_nodes(self.spec_tree(), p.spec_tree()),
                ),
            )),
    {
        let current = match &self.root {
            SpineRoot::Tree(root) => root,
            _ => {
                return 0;
            },
        };
        proof {
            lemma_leaves_nonempty(&**current);
        }
        let whole = self.accounted_node_bytes();
        let previous_root = match previous {
            Some(p) => if p.normal_flow == self.normal_flow {
                match &p.root {
                    SpineRoot::Tree(root) => Some(root),
                    _ => None,
                }
            } else {
                None
            },
            None => None,
        };
        match previous_root {
            None => {
                proof {
                    let n = self.segment_seq().len();
                    let size = vstd::layout::size_of::<SceneNode<T>>();
                    assert(tree_node_count(n as usize) <= 2 * n - 1);
                    assert(size * tree_node_count(n as usize) <= size * (2 * n - 1)) by (nonlinear_arith)
                        requires
                            tree_node_count(n as usize) <= 2 * n - 1,
                            size >= 0,
                    ;
                }
                whole
            },
            Some(previous_root) => {
                let count = unshared_node_count(current, previous_root);
                let size = core::mem::size_of::<SceneNode<T>>();
                let bytes = saturating_mul(size, count);
                proof {
                    let n = self.segment_seq().len();
                    let tn = tree_node_count(n as usize);
                    assert(size * count <= size * (2 * n - 1)) by (nonlinear_arith)
                        requires
                            count <= 2 * n - 1,
                            size >= 0,
                    ;
                    let d = capped_count(shared_differing(current, previous_root));
                    assert(size * count >= size * d) by (nonlinear_arith)
                        requires
                            count >= d,
                            size >= 0,
                    ;
                    if 2 * n <= usize::MAX {
                        assert(tn == 2 * n - 1);
                    }
                }
                bytes
            },
        }
    }

    /// The root node of the spine's tree, when it has one.
    pub closed spec fn spec_tree(&self) -> SceneNode<T>
        recommends
            self.has_tree(),
    {
        match self.root {
            SpineRoot::Tree(root) => *root,
            _ => arbitrary(),
        }
    }

    /// Whether the spine holds its segments in a tree of nodes.
    pub closed spec fn has_tree(&self) -> bool {
        self.root is Tree
    }

    /// Returns the number of levels of the spine's tree.
    pub fn depth(&self) -> (depth: u8)
        requires
            self.wf(),
        ensures
            depth == self.spec_depth(),
    {
        match &self.root {
            SpineRoot::Empty => 0,
            SpineRoot::Single(..) => 1,
            SpineRoot::Tree(root) => {
                proof {
                    lemma_height_is_depth(&**root);
                    lemma_balanced_depth_bound(&**root);
                }
                root.height()
            },
        }
    }
}

/// Every spine stays shallow: its tree is balanced, so a spine `d` levels
/// deep holds at least `2^((d - 1) / 2)` paragraphs, and no spine is more
/// than 129 levels deep.
pub proof fn lemma_spine_stays_shallow<T>(spine: &SceneSpine<T>)
    requires
        spine.wf(),
    ensures
        spine.spec_depth() > 0 ==> pow2(((spine.spec_depth() - 1) / 2) as nat)
            <= spine.segment_seq().len(),
        spine.spec_depth() <= 129,
{
    lemma2_to64();
    match &spine.root {
        SpineRoot::Empty => {},
        SpineRoot::Single(..) => {},
        SpineRoot::Tree(root) => {
            lemma_balanced_holds_many(&**root);
            lemma_balanced_depth_bound(&**root);
        },
    }
}

/// Paragraph records are the segments themselves: paragraph record `i` is
/// segment `i`, found exactly.
pub proof fn lemma_paragraph_records<T>(s: Seq<(SegmentCounts, T)>, i: int)
    requires
        one_paragraph_each(s),
        0 <= i,
    ensures
        count_sum(s, RecordKind::Paragraphs) == s.len(),
        locate(s, RecordKind::Paragraphs, i) == if i < s.len() {
            Some((i, 0int))
        } else {
            None::<(int, int)>
        },
    decreases s.len(),
{
    if s.len() > 0 {
        let rest = s.drop_first();
        assert(one_paragraph_each(rest)) by {
            assert forall|k: int| 0 <= k < rest.len() implies (#[trigger] rest[k]).0.paragraphs == 1 by {
                assert(rest[k] == s[k + 1]);
            }
        }
        assert(s[0].0.paragraphs == 1);
        if i >= 1 {
            lemma_paragraph_records(rest, i - 1);
        } else {
            lemma_paragraph_records(rest, 0);
        }
    }
}

impl<T> Clone for SceneSpine<T> {
    fn clone(&self) -> (spine: Self)
        ensures
            spine == *self,
    {
        let root = match &self.root {
            SpineRoot::Empty => SpineRoot::Empty,
            SpineRoot::Single(counts, segment) => SpineRoot::Single(*counts, share(segment)),
            SpineRoot::Tree(root) => SpineRoot::Tree(share(root)),
        };
        SceneSpine { root, normal_flow: self.normal_flow }
    }
}

} // verus!
