//! Canonical range sets of a selection.
//!
//! A selection's ranges are sorted by document order and ranges of the same
//! leaf that overlap or touch are merged. The merged set selects exactly the
//! bytes that the original ranges select.

use vstd::prelude::*;

use crate::ids::TextId;
use crate::interaction::logical_text_key_spec;
use crate::selection::SnapshotTextRange;

verus! {

broadcast use SnapshotTextRange::lemma_new_spec_observations;

/// Lexicographic order on document-order keys.
pub open spec fn key_le(a: (u32, u32, u32), b: (u32, u32, u32)) -> bool {
    a.0 < b.0 || (a.0 == b.0 && (a.1 < b.1 || (a.1 == b.1 && a.2 <= b.2)))
}

/// The sort key of a range: its leaf's paragraph and index, then its start.
pub open spec fn range_key(r: SnapshotTextRange) -> (u32, u32, u32) {
    logical_text_key_spec(r.text(), r.start())
}

/// The ranges are in non-decreasing key order.
pub open spec fn sorted_by_key(s: Seq<SnapshotTextRange>) -> bool {
    forall|i: int, j: int| 0 <= i < j < s.len() ==> key_le(range_key(#[trigger] s[i]), range_key(#[trigger] s[j]))
}

/// `p` maps each position of `sorted` to the position of `original` it came
/// from, and `q` is its inverse: a bijection under which `sorted` is in key order and ranges with
/// equal keys keep their original relative order.
pub open spec fn stable_sort_witness(
    original: Seq<SnapshotTextRange>,
    sorted: Seq<SnapshotTextRange>,
    p: spec_fn(int) -> int,
    q: spec_fn(int) -> int,
) -> bool {
    &&& sorted.len() == original.len()
    &&& forall|i: int| 0 <= i < sorted.len() ==> 0 <= #[trigger] p(i) < original.len() && sorted[i] == original[p(i)]
    &&& forall|k: int| 0 <= k < original.len() ==> 0 <= #[trigger] q(k) < sorted.len() && p(q(k)) == k
    &&& sorted_by_key(sorted)
    &&& forall|i: int, j: int|
        0 <= i < j < sorted.len() && range_key(#[trigger] sorted[i]) == range_key(#[trigger] sorted[j])
            ==> p(i) < p(j)
}

/// `sorted` is the stable sort of `original` by range key.
pub open spec fn is_stable_sort(original: Seq<SnapshotTextRange>, sorted: Seq<SnapshotTextRange>) -> bool {
    exists|p: spec_fn(int) -> int, q: spec_fn(int) -> int| stable_sort_witness(original, sorted, p, q)
}

/// Returns the sort key of a range.
fn range_sort_key(range: &SnapshotTextRange) -> (key: (u32, u32, u32))
    ensures
        key == range_key(*range),
{
    (range.text().paragraph, range.text().index, range.bytes().start)
}

/// Sorts ranges by key.
///
/// Calls `slice::sort_by_key` with `range_sort_key`. The standard library
/// documents that sort as stable and orders tuples lexicographically, so the
/// result is the stable sort of the input by key.
#[verifier::external_body]
fn sort_ranges_by_key(ranges: &mut Vec<SnapshotTextRange>)
    ensures
        is_stable_sort(old(ranges)@, final(ranges)@),
{
    ranges.sort_by_key(range_sort_key);
}

/// The later end of two ranges.
pub open spec fn max_end(a: u32, b: u32) -> u32 {
    if a >= b {
        a
    } else {
        b
    }
}

/// Adds `r` after the canonical ranges `acc`: it extends the last range when
/// both belong to one leaf and the last range reaches `r`'s start; otherwise
/// it follows as a range of its own.
pub open spec fn merge_step(acc: Seq<SnapshotTextRange>, r: SnapshotTextRange) -> Seq<SnapshotTextRange> {
    if acc.len() > 0 && acc.last().text() == r.text() && acc.last().end() >= r.start() {
        let last = acc.last();
        acc.update(
            acc.len() - 1,
            SnapshotTextRange::new_spec(
                last.revision(),
                last.text(),
                core::ops::Range { start: last.start(), end: max_end(last.end(), r.end()) },
            ),
        )
    } else {
        acc.push(r)
    }
}

/// The canonical ranges of sorted ranges.
pub open spec fn merged(s: Seq<SnapshotTextRange>) -> Seq<SnapshotTextRange>
    decreases s.len(),
{
    if s.len() == 0 {
        Seq::empty()
    } else {
        merge_step(merged(s.drop_last()), s.last())
    }
}

/// `ranges` became the canonical form of `original`: the stable key sort of
/// `original`, with overlapping or touching ranges of one leaf merged.
pub open spec fn is_canonical_form_of(original: Seq<SnapshotTextRange>, ranges: Seq<SnapshotTextRange>) -> bool {
    exists|sorted: Seq<SnapshotTextRange>| is_stable_sort(original, sorted) && ranges == #[trigger] merged(sorted)
}

/// Sorts ranges into document order and merges overlapping or touching
/// ranges of one leaf. A merged range keeps the revision of its first range.
pub fn canonicalize_ranges(ranges: &mut Vec<SnapshotTextRange>)
    ensures
        is_canonical_form_of(old(ranges)@, final(ranges)@),
{
    sort_ranges_by_key(ranges);
    let ghost sorted = ranges@;
    let mut canonical: Vec<SnapshotTextRange> = Vec::with_capacity(ranges.len());
    let mut index: usize = 0;
    while index < ranges.len()
        invariant
            ranges@ == sorted,
            index <= sorted.len(),
            canonical@ == merged(sorted.subrange(0, index as int)),
        decreases sorted.len() - index,
    {
        let range = ranges[index];
        let n = canonical.len();
        if n > 0 && canonical[n - 1].text() == range.text() && canonical[n - 1].bytes().end
            >= range.bytes().start {
            let previous = canonical[n - 1];
            let start = previous.bytes().start;
            let end = if previous.bytes().end >= range.bytes().end {
                previous.bytes().end
            } else {
                range.bytes().end
            };
            canonical.set(n - 1, SnapshotTextRange::new(previous.revision(), previous.text(), start..end));
        } else {
            canonical.push(range);
        }
        proof {
            let prefix = sorted.subrange(0, index as int + 1);
            assert(prefix.drop_last() =~= sorted.subrange(0, index as int));
        }
        index += 1;
    }
    proof {
        assert(sorted.subrange(0, sorted.len() as int) =~= sorted);
    }
    *ranges = canonical;
}

/// Some range of `s` has the leaf and start of `o`.
pub open spec fn has_origin(s: Seq<SnapshotTextRange>, o: SnapshotTextRange) -> bool {
    exists|k: int| 0 <= k < s.len() && (#[trigger] s[k]).text() == o.text() && s[k].start() == o.start()
}

/// Some range of `out` contains all of `r`, in `r`'s leaf.
pub open spec fn contained_in(out: Seq<SnapshotTextRange>, r: SnapshotTextRange) -> bool {
    exists|j: int|
        0 <= j < out.len() && (#[trigger] out[j]).text() == r.text() && out[j].start() <= r.start()
            && r.end() <= out[j].end()
}

/// Some range of `s` in leaf `text` selects byte `x`.
pub open spec fn byte_selected(s: Seq<SnapshotTextRange>, text: TextId, x: int) -> bool {
    exists|k: int| 0 <= k < s.len() && (#[trigger] s[k]).text() == text && s[k].start() <= x < s[k].end()
}

/// Merging keeps each range's leaf and start from some input range, and
/// never lengthens the sequence.
proof fn lemma_merged_origin(s: Seq<SnapshotTextRange>)
    ensures
        merged(s).len() <= s.len(),
        s.len() > 0 ==> merged(s).len() > 0,
        forall|j: int| 0 <= j < merged(s).len() ==> has_origin(s, #[trigger] merged(s)[j]),
    decreases s.len(),
{
    if s.len() > 0 {
        let prefix = s.drop_last();
        lemma_merged_origin(prefix);
        let acc = merged(prefix);
        let out = merged(s);
        assert forall|j: int| 0 <= j < out.len() implies has_origin(s, #[trigger] out[j]) by {
            if j < acc.len() {
                assert(has_origin(prefix, acc[j]));
                let k = choose|k: int| 0 <= k < prefix.len() && (#[trigger] prefix[k]).text() == acc[j].text() && prefix[k].start() == acc[j].start();
                assert(s[k] == prefix[k]);
            } else {
                assert(s[s.len() - 1] == s.last());
            }
        }
    }
}

/// Keys of the ranges with one leaf compare by start.
proof fn lemma_same_text_key(a: SnapshotTextRange, b: SnapshotTextRange)
    requires
        a.text() == b.text(),
    ensures
        key_le(range_key(a), range_key(b)) <==> a.start() <= b.start(),
{
}

/// Every input range lies inside one canonical range of its leaf.
proof fn lemma_merged_contains(s: Seq<SnapshotTextRange>, i: int)
    requires
        sorted_by_key(s),
        0 <= i < s.len(),
    ensures
        contained_in(merged(s), s[i]),
    decreases s.len(),
{
    let prefix = s.drop_last();
    let acc = merged(prefix);
    let out = merged(s);
    let r = s.last();
    assert(sorted_by_key(prefix)) by {
        assert forall|a: int, b: int| 0 <= a < b < prefix.len() implies key_le(range_key(#[trigger] prefix[a]), range_key(#[trigger] prefix[b])) by {
            assert(prefix[a] == s[a] && prefix[b] == s[b]);
        }
    }
    if i < s.len() - 1 {
        lemma_merged_contains(prefix, i);
        assert(s[i] == prefix[i]);
        let j = choose|j: int| 0 <= j < acc.len() && (#[trigger] acc[j]).text() == s[i].text() && acc[j].start() <= s[i].start() && s[i].end() <= acc[j].end();
        assert(out[j].text() == s[i].text() && out[j].start() <= s[i].start() && s[i].end() <= out[j].end());
    } else {
        if acc.len() > 0 && acc.last().text() == r.text() && acc.last().end() >= r.start() {
            lemma_merged_origin(prefix);
            let last = acc.len() - 1;
            assert(has_origin(prefix, acc[last]));
            let k = choose|k: int| 0 <= k < prefix.len() && (#[trigger] prefix[k]).text() == acc[last].text() && prefix[k].start() == acc[last].start();
            assert(s[k] == prefix[k]);
            assert(key_le(range_key(s[k]), range_key(s[s.len() - 1])));
            lemma_same_text_key(s[k], r);
            assert(out[last].text() == r.text() && out[last].start() <= r.start() && r.end() <= out[last].end());
        } else {
            assert(out[out.len() - 1] == r);
        }
    }
}

/// Every byte a canonical range selects is selected by an input range of
/// the same leaf.
proof fn lemma_merged_covered(s: Seq<SnapshotTextRange>, j: int, x: int)
    requires
        0 <= j < merged(s).len(),
        merged(s)[j].start() <= x < merged(s)[j].end(),
    ensures
        byte_selected(s, merged(s)[j].text(), x),
    decreases s.len(),
{
    let prefix = s.drop_last();
    let acc = merged(prefix);
    let out = merged(s);
    let r = s.last();
    lemma_merged_origin(s);
    if j < acc.len() && (j < acc.len() - 1 || x < acc[j].end()) {
        lemma_merged_covered(prefix, j, x);
        let k = choose|k: int| 0 <= k < prefix.len() && (#[trigger] prefix[k]).text() == acc[j].text() && prefix[k].start() <= x < prefix[k].end();
        assert(s[k] == prefix[k]);
    } else {
        assert(s[s.len() - 1] == r);
    }
}

/// Ranges with one document and one leaf are ordered by start, and ranges
/// of different leaves by leaf.
pub open spec fn same_document(s: Seq<SnapshotTextRange>) -> bool {
    forall|i: int, j: int| 0 <= i < s.len() && 0 <= j < s.len() ==> (#[trigger] s[i]).text().document == (#[trigger] s[j]).text().document
}

/// Two canonical ranges of one leaf are apart: the earlier ends before the
/// later starts.
pub open spec fn separated(out: Seq<SnapshotTextRange>) -> bool {
    forall|i: int, j: int|
        0 <= i < j < out.len() && (#[trigger] out[i]).text() == (#[trigger] out[j]).text() ==> out[i].end()
            < out[j].start()
}

/// Canonical ranges of one document's sorted ranges are in key order and
/// apart within each leaf.
proof fn lemma_merged_separated(s: Seq<SnapshotTextRange>)
    requires
        sorted_by_key(s),
        same_document(s),
    ensures
        sorted_by_key(merged(s)),
        separated(merged(s)),
        forall|j: int| 0 <= j < merged(s).len() ==> (#[trigger] merged(s)[j]).text().document == s[0].text().document,
    decreases s.len(),
{
    if s.len() > 0 {
        let prefix = s.drop_last();
        let acc = merged(prefix);
        let out = merged(s);
        let r = s.last();
        assert(sorted_by_key(prefix)) by {
            assert forall|a: int, b: int| 0 <= a < b < prefix.len() implies key_le(range_key(#[trigger] prefix[a]), range_key(#[trigger] prefix[b])) by {
                assert(prefix[a] == s[a] && prefix[b] == s[b]);
            }
        }
        assert(same_document(prefix)) by {
            assert forall|a: int, b: int| 0 <= a < prefix.len() && 0 <= b < prefix.len() implies (#[trigger] prefix[a]).text().document == (#[trigger] prefix[b]).text().document by {
                assert(prefix[a] == s[a] && prefix[b] == s[b]);
            }
        }
        lemma_merged_separated(prefix);
        lemma_merged_origin(prefix);
        assert(s[s.len() - 1] == r);
        if prefix.len() > 0 {
            assert(prefix[0] == s[0]);
        }
        // Every canonical range so far starts no later than `r` in key order.
        assert forall|j: int| 0 <= j < acc.len() implies key_le(range_key(#[trigger] acc[j]), range_key(r)) by {
            assert(has_origin(prefix, acc[j]));
            let k = choose|k: int| 0 <= k < prefix.len() && (#[trigger] prefix[k]).text() == acc[j].text() && prefix[k].start() == acc[j].start();
            assert(s[k] == prefix[k]);
            assert(key_le(range_key(s[k]), range_key(s[s.len() - 1])));
        }
        if acc.len() > 0 && acc.last().text() == r.text() && acc.last().end() >= r.start() {
            let last = acc.len() - 1;
            assert forall|a: int, b: int| 0 <= a < b < out.len() implies key_le(range_key(#[trigger] out[a]), range_key(#[trigger] out[b])) by {
                assert(key_le(range_key(acc[a]), range_key(acc[b])));
            }
            assert forall|a: int, b: int| 0 <= a < b < out.len() && (#[trigger] out[a]).text() == (#[trigger] out[b]).text() implies out[a].end() < out[b].start() by {
                assert(acc[a].text() == acc[b].text());
            }
        } else {
            assert forall|a: int, b: int| 0 <= a < b < out.len() implies key_le(range_key(#[trigger] out[a]), range_key(#[trigger] out[b])) by {
                if b < acc.len() {
                    assert(key_le(range_key(acc[a]), range_key(acc[b])));
                }
            }
            assert forall|a: int, b: int| 0 <= a < b < out.len() && (#[trigger] out[a]).text() == (#[trigger] out[b]).text() implies out[a].end() < out[b].start() by {
                if b < acc.len() {
                    assert(acc[a].text() == acc[b].text());
                } else {
                    // `r` follows: the last canonical range is of another leaf, or
                    // ends before `r` starts.
                    let last = acc.len() - 1;
                    assert(key_le(range_key(acc[a]), range_key(acc[last])));
                    assert(key_le(range_key(acc[last]), range_key(r)));
                    if acc[last].text() == r.text() {
                        if a < last {
                            assert(acc[a].text() == acc[last].text());
                        }
                    } else {
                        assert(acc[last].text().document == r.text().document);
                    }
                }
            }
        }
    }
}

/// Canonicalization keeps every selected range: each original range lies
/// inside one canonical range of its leaf.
pub proof fn lemma_canonical_contains_original(
    original: Seq<SnapshotTextRange>,
    ranges: Seq<SnapshotTextRange>,
    i: int,
)
    requires
        is_canonical_form_of(original, ranges),
        0 <= i < original.len(),
    ensures
        contained_in(ranges, original[i]),
{
    let sorted = choose|sorted: Seq<SnapshotTextRange>| is_stable_sort(original, sorted) && ranges == #[trigger] merged(sorted);
    let (p, q) = choose|p: spec_fn(int) -> int, q: spec_fn(int) -> int| stable_sort_witness(original, sorted, p, q);
    let k = q(i);
    assert(sorted[k] == original[p(k)]);
    lemma_merged_contains(sorted, k);
}

/// Canonicalization adds no byte: each byte of a canonical range is selected
/// by an original range of the same leaf.
pub proof fn lemma_canonical_selects_only_original(
    original: Seq<SnapshotTextRange>,
    ranges: Seq<SnapshotTextRange>,
    j: int,
    x: int,
)
    requires
        is_canonical_form_of(original, ranges),
        0 <= j < ranges.len(),
        ranges[j].start() <= x < ranges[j].end(),
    ensures
        byte_selected(original, ranges[j].text(), x),
{
    let sorted = choose|sorted: Seq<SnapshotTextRange>| is_stable_sort(original, sorted) && ranges == #[trigger] merged(sorted);
    let (p, q) = choose|p: spec_fn(int) -> int, q: spec_fn(int) -> int| stable_sort_witness(original, sorted, p, q);
    lemma_merged_covered(sorted, j, x);
    let k = choose|k: int| 0 <= k < sorted.len() && (#[trigger] sorted[k]).text() == ranges[j].text() && sorted[k].start() <= x < sorted[k].end();
    assert(sorted[k] == original[p(k)]);
}

/// The canonical ranges of one document's selection are in document order,
/// and two ranges of one leaf are apart: the earlier ends before the later
/// starts, so no two of them overlap or touch.
pub proof fn lemma_canonical_ordered_and_apart(original: Seq<SnapshotTextRange>, ranges: Seq<SnapshotTextRange>)
    requires
        is_canonical_form_of(original, ranges),
        same_document(original),
    ensures
        sorted_by_key(ranges),
        separated(ranges),
{
    let sorted = choose|sorted: Seq<SnapshotTextRange>| is_stable_sort(original, sorted) && ranges == #[trigger] merged(sorted);
    let (p, q) = choose|p: spec_fn(int) -> int, q: spec_fn(int) -> int| stable_sort_witness(original, sorted, p, q);
    assert(same_document(sorted)) by {
        assert forall|a: int, b: int| 0 <= a < sorted.len() && 0 <= b < sorted.len() implies (#[trigger] sorted[a]).text().document == (#[trigger] sorted[b]).text().document by {
            assert(sorted[a] == original[p(a)] && sorted[b] == original[p(b)]);
        }
    }
    lemma_merged_separated(sorted);
}

/// Neighbouring ranges of one leaf are apart: the earlier ends before the
/// later starts.
pub open spec fn adjacent_apart(s: Seq<SnapshotTextRange>) -> bool {
    forall|i: int, j: int|
        0 <= i && j == i + 1 && j < s.len() && (#[trigger] s[i]).text() == (#[trigger] s[j]).text()
            ==> s[i].end() < s[j].start()
}

/// Merging sorted ranges keeps them sorted and leaves neighbouring ranges of
/// one leaf apart.
proof fn lemma_merged_sorted_apart(s: Seq<SnapshotTextRange>)
    requires
        sorted_by_key(s),
    ensures
        sorted_by_key(merged(s)),
        adjacent_apart(merged(s)),
    decreases s.len(),
{
    if s.len() > 0 {
        let prefix = s.drop_last();
        let acc = merged(prefix);
        let out = merged(s);
        let r = s.last();
        assert(sorted_by_key(prefix)) by {
            assert forall|a: int, b: int| 0 <= a < b < prefix.len() implies key_le(range_key(#[trigger] prefix[a]), range_key(#[trigger] prefix[b])) by {
                assert(prefix[a] == s[a] && prefix[b] == s[b]);
            }
        }
        lemma_merged_sorted_apart(prefix);
        lemma_merged_origin(prefix);
        assert(s[s.len() - 1] == r);
        assert forall|j: int| 0 <= j < acc.len() implies key_le(range_key(#[trigger] acc[j]), range_key(r)) by {
            assert(has_origin(prefix, acc[j]));
            let k = choose|k: int| 0 <= k < prefix.len() && (#[trigger] prefix[k]).text() == acc[j].text() && prefix[k].start() == acc[j].start();
            assert(s[k] == prefix[k]);
            assert(key_le(range_key(s[k]), range_key(s[s.len() - 1])));
        }
        if acc.len() > 0 && acc.last().text() == r.text() && acc.last().end() >= r.start() {
            let last = acc.len() - 1;
            assert(range_key(out[last]) == range_key(acc[last]));
            assert forall|a: int, b: int| 0 <= a < b < out.len() implies key_le(range_key(#[trigger] out[a]), range_key(#[trigger] out[b])) by {
                assert(key_le(range_key(acc[a]), range_key(acc[b])));
            }
            assert forall|i: int, j: int|
                0 <= i && j == i + 1 && j < out.len() && (#[trigger] out[i]).text() == (#[trigger] out[j]).text() implies out[i].end() < out[j].start() by {
                assert(acc[i].text() == acc[j].text());
            }
        } else {
            assert forall|a: int, b: int| 0 <= a < b < out.len() implies key_le(range_key(#[trigger] out[a]), range_key(#[trigger] out[b])) by {
                if b < acc.len() {
                    assert(key_le(range_key(acc[a]), range_key(acc[b])));
                }
            }
            assert forall|i: int, j: int|
                0 <= i && j == i + 1 && j < out.len() && (#[trigger] out[i]).text() == (#[trigger] out[j]).text() implies out[i].end() < out[j].start() by {
                if j < acc.len() {
                    assert(acc[i].text() == acc[j].text());
                }
            }
        }
    }
}

/// Ranges whose neighbours of one leaf are apart are their own merge.
proof fn lemma_merged_fixed(s: Seq<SnapshotTextRange>)
    requires
        adjacent_apart(s),
    ensures
        merged(s) == s,
    decreases s.len(),
{
    if s.len() > 0 {
        let prefix = s.drop_last();
        assert(adjacent_apart(prefix)) by {
            assert forall|i: int, j: int|
                0 <= i && j == i + 1 && j < prefix.len() && (#[trigger] prefix[i]).text() == (#[trigger] prefix[j]).text() implies prefix[i].end() < prefix[j].start() by {
                assert(prefix[i] == s[i] && prefix[j] == s[j]);
            }
        }
        lemma_merged_fixed(prefix);
        if prefix.len() > 0 {
            let i = prefix.len() - 1;
            assert(prefix.last() == s[i]);
            assert(s.last() == s[i + 1]);
        }
        assert(prefix.push(s.last()) =~= s);
    }
}

/// An index map that increases strictly from `0..n` into `0..n` is the
/// identity.
proof fn lemma_strictly_increasing_is_identity(q: spec_fn(int) -> int, n: int, k: int)
    requires
        forall|a: int| 0 <= a < n ==> 0 <= #[trigger] q(a) < n,
        forall|a: int, b: int| 0 <= a < b < n ==> #[trigger] q(a) < #[trigger] q(b),
        0 <= k < n,
    ensures
        q(k) == k,
{
    assert forall|a: int| 0 <= a < n implies #[trigger] q(a) >= a by {
        lemma_increasing_at_least(q, n, a);
    }
    assert forall|a: int| 0 <= a < n implies #[trigger] q(a) <= a by {
        lemma_increasing_at_most(q, n, a);
    }
}

proof fn lemma_increasing_at_least(q: spec_fn(int) -> int, n: int, k: int)
    requires
        forall|a: int| 0 <= a < n ==> 0 <= #[trigger] q(a) < n,
        forall|a: int, b: int| 0 <= a < b < n ==> #[trigger] q(a) < #[trigger] q(b),
        0 <= k < n,
    ensures
        q(k) >= k,
    decreases k,
{
    if k > 0 {
        lemma_increasing_at_least(q, n, k - 1);
        assert(q(k - 1) < q(k));
    }
}

proof fn lemma_increasing_at_most(q: spec_fn(int) -> int, n: int, k: int)
    requires
        forall|a: int| 0 <= a < n ==> 0 <= #[trigger] q(a) < n,
        forall|a: int, b: int| 0 <= a < b < n ==> #[trigger] q(a) < #[trigger] q(b),
        0 <= k < n,
    ensures
        q(k) <= k,
    decreases n - k,
{
    if k < n - 1 {
        lemma_increasing_at_most(q, n, k + 1);
        assert(q(k) < q(k + 1));
    }
}

/// The stable sort of ranges already in key order is the ranges themselves.
proof fn lemma_stable_sort_of_sorted(s: Seq<SnapshotTextRange>, sorted: Seq<SnapshotTextRange>)
    requires
        sorted_by_key(s),
        is_stable_sort(s, sorted),
    ensures
        sorted == s,
{
    let (p, q) = choose|p: spec_fn(int) -> int, q: spec_fn(int) -> int| stable_sort_witness(s, sorted, p, q);
    let n = s.len() as int;
    assert forall|a: int, b: int| 0 <= a < b < n implies #[trigger] q(a) < #[trigger] q(b) by {
        assert(p(q(a)) == a && p(q(b)) == b);
        if q(b) < q(a) {
            assert(sorted[q(b)] == s[b] && sorted[q(a)] == s[a]);
            assert(key_le(range_key(sorted[q(b)]), range_key(sorted[q(a)])));
            assert(key_le(range_key(s[a]), range_key(s[b])));
            assert(range_key(sorted[q(b)]) == range_key(sorted[q(a)]));
        }
    }
    assert forall|k: int| 0 <= k < n implies sorted[k] == s[k] by {
        lemma_strictly_increasing_is_identity(q, n, k);
        assert(p(q(k)) == k);
    }
    assert(sorted =~= s);
}

/// Canonicalization never lengthens the range list.
pub proof fn lemma_canonical_not_longer(original: Seq<SnapshotTextRange>, ranges: Seq<SnapshotTextRange>)
    requires
        is_canonical_form_of(original, ranges),
    ensures
        ranges.len() <= original.len(),
{
    let sorted = choose|sorted: Seq<SnapshotTextRange>| is_stable_sort(original, sorted) && ranges == #[trigger] merged(sorted);
    let (p, q) = choose|p: spec_fn(int) -> int, q: spec_fn(int) -> int| stable_sort_witness(original, sorted, p, q);
    lemma_merged_origin(sorted);
}

/// Canonicalizing a canonical range list changes nothing.
pub proof fn lemma_canonical_idempotent(
    original: Seq<SnapshotTextRange>,
    ranges: Seq<SnapshotTextRange>,
    again: Seq<SnapshotTextRange>,
)
    requires
        is_canonical_form_of(original, ranges),
        is_canonical_form_of(ranges, again),
    ensures
        again == ranges,
{
    let sorted = choose|sorted: Seq<SnapshotTextRange>| is_stable_sort(original, sorted) && ranges == #[trigger] merged(sorted);
    let (p, q) = choose|p: spec_fn(int) -> int, q: spec_fn(int) -> int| stable_sort_witness(original, sorted, p, q);
    lemma_merged_sorted_apart(sorted);
    let resorted = choose|resorted: Seq<SnapshotTextRange>| is_stable_sort(ranges, resorted) && again == #[trigger] merged(resorted);
    lemma_stable_sort_of_sorted(ranges, resorted);
    lemma_merged_fixed(ranges);
}

/// Every range starts no later than it ends.
pub open spec fn starts_before_ends(s: Seq<SnapshotTextRange>) -> bool {
    forall|i: int| 0 <= i < s.len() ==> (#[trigger] s[i]).start() <= s[i].end()
}

/// Keys increase strictly along the sequence.
pub open spec fn strictly_sorted_by_key(s: Seq<SnapshotTextRange>) -> bool {
    forall|i: int, j: int|
        0 <= i < j < s.len() ==> key_le(range_key(#[trigger] s[i]), range_key(#[trigger] s[j]))
            && range_key(s[i]) != range_key(s[j])
}

/// Merging keeps ranges that start no later than they end.
proof fn lemma_merged_starts_before_ends(s: Seq<SnapshotTextRange>)
    requires
        starts_before_ends(s),
    ensures
        starts_before_ends(merged(s)),
    decreases s.len(),
{
    if s.len() > 0 {
        let prefix = s.drop_last();
        assert(starts_before_ends(prefix)) by {
            assert forall|i: int| 0 <= i < prefix.len() implies (#[trigger] prefix[i]).start() <= prefix[i].end() by {
                assert(prefix[i] == s[i]);
            }
        }
        lemma_merged_starts_before_ends(prefix);
        assert(s[s.len() - 1] == s.last());
    }
}

/// The canonical ranges of one document's selection, whose ranges each
/// start no later than they end, are strictly ordered by leaf paragraph,
/// leaf index and start: no two share a key, so every leaf's ranges come in
/// one run, leaves in document order, and each range begins after the one
/// before it in its leaf. All of them belong to the selection's document.
pub proof fn lemma_canonical_strictly_ordered(
    original: Seq<SnapshotTextRange>,
    ranges: Seq<SnapshotTextRange>,
)
    requires
        is_canonical_form_of(original, ranges),
        same_document(original),
        starts_before_ends(original),
    ensures
        strictly_sorted_by_key(ranges),
        same_document(ranges),
        starts_before_ends(ranges),
        original.len() > 0 ==> forall|j: int|
            0 <= j < ranges.len() ==> (#[trigger] ranges[j]).text().document == original[0].text().document,
{
    let sorted = choose|sorted: Seq<SnapshotTextRange>| is_stable_sort(original, sorted) && ranges == #[trigger] merged(sorted);
    let (p, q) = choose|p: spec_fn(int) -> int, q: spec_fn(int) -> int| stable_sort_witness(original, sorted, p, q);
    assert(same_document(sorted)) by {
        assert forall|a: int, b: int| 0 <= a < sorted.len() && 0 <= b < sorted.len() implies (#[trigger] sorted[a]).text().document == (#[trigger] sorted[b]).text().document by {
            assert(sorted[a] == original[p(a)] && sorted[b] == original[p(b)]);
        }
    }
    assert(starts_before_ends(sorted)) by {
        assert forall|a: int| 0 <= a < sorted.len() implies (#[trigger] sorted[a]).start() <= sorted[a].end() by {
            assert(sorted[a] == original[p(a)]);
        }
    }
    lemma_merged_separated(sorted);
    lemma_merged_starts_before_ends(sorted);
    if original.len() > 0 {
        let k = q(0);
        assert(sorted[k] == original[0]);
        assert(sorted[0].text().document == sorted[k].text().document);
    }
    assert(strictly_sorted_by_key(ranges)) by {
        assert forall|i: int, j: int| 0 <= i < j < ranges.len() implies key_le(range_key(#[trigger] ranges[i]), range_key(#[trigger] ranges[j]))
            && range_key(ranges[i]) != range_key(ranges[j]) by {
            if range_key(ranges[i]) == range_key(ranges[j]) {
                assert(ranges[i].text().document == ranges[j].text().document);
                assert(ranges[i].text() == ranges[j].text());
            }
        }
    }
}

} // verus!
