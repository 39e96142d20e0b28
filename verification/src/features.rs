//! OpenType settings and their canonical form.
//!
//! Feature settings and variation coordinates are owned and canonicalized by
//! OpenType tag: when the same tag is supplied more than once the last value
//! wins, and the result is ordered by tag.

use vstd::prelude::*;

verus! {

/// A four-byte OpenType tag, ordered as its big-endian bytes.
#[derive(Clone, Copy, Debug, PartialEq, Eq, Hash, Structural)]
pub struct Tag(pub u32);

/// The big-endian value of four tag bytes.
pub open spec fn tag_value(bytes: Seq<u8>) -> u32 {
    ((bytes[0] as u32) << 24u32) | ((bytes[1] as u32) << 16u32) | ((bytes[2] as u32) << 8u32) | (
    bytes[3] as u32)
}

impl Tag {
    /// Creates a tag from its four bytes.
    pub fn new(bytes: &[u8; 4]) -> (tag: Self)
        ensures
            tag.0 == tag_value(bytes@),
    {
        Tag(
            ((bytes[0] as u32) << 24u32) | ((bytes[1] as u32) << 16u32) | ((bytes[2] as u32) << 8u32)
                | (bytes[3] as u32),
        )
    }
}

/// One OpenType setting: a tag and its value.
#[derive(Clone, Copy, Debug, PartialEq, Eq, Hash)]
pub struct FontSetting<V> {
    /// Setting tag.
    pub tag: Tag,
    /// Setting value.
    pub value: V,
}

/// One OpenType feature setting; zero disables a boolean feature.
pub type FontFeature = FontSetting<u16>;

impl<V> FontSetting<V> {
    /// Creates a setting.
    pub fn new(tag: Tag, value: V) -> (feature: Self)
        ensures
            feature.tag == tag,
            feature.value == value,
    {
        FontSetting { tag, value }
    }
}

/// The settings are in strictly increasing tag order, so no tag repeats.
pub open spec fn strictly_by_tag<V>(s: Seq<FontSetting<V>>) -> bool {
    forall|i: int, j: int| 0 <= i < j < s.len() ==> (#[trigger] s[i]).tag.0 < (#[trigger] s[j]).tag.0
}

/// `f` is a setting of `input` at or after `from`, and no later setting has
/// its tag.
pub open spec fn is_last_setting<V>(input: Seq<FontSetting<V>>, from: int, f: FontSetting<V>) -> bool {
    exists|j: int|
        from <= j < input.len() && #[trigger] input[j] == f && forall|k: int|
            j < k < input.len() ==> (#[trigger] input[k]).tag != f.tag
}

/// Some setting of `out` has `tag`.
pub open spec fn has_tag<V>(out: Seq<FontSetting<V>>, tag: Tag) -> bool {
    exists|i: int| 0 <= i < out.len() && (#[trigger] out[i]).tag == tag
}

/// Each setting of `out` is the last setting of its tag in `input` at or
/// after `from`.
pub open spec fn all_last_wins<V>(input: Seq<FontSetting<V>>, from: int, out: Seq<FontSetting<V>>) -> bool {
    forall|i: int| 0 <= i < out.len() ==> is_last_setting(input, from, #[trigger] out[i])
}

/// Every tag of `input` at or after `from` has a setting in `out`.
pub open spec fn all_tags_kept<V>(input: Seq<FontSetting<V>>, from: int, out: Seq<FontSetting<V>>) -> bool {
    forall|j: int| from <= j < input.len() ==> has_tag(out, (#[trigger] input[j]).tag)
}

/// `out` is the canonical form of `input`: one setting per tag, the last
/// one supplied, in increasing tag order.
pub open spec fn is_canonical_features<V>(input: Seq<FontSetting<V>>, out: Seq<FontSetting<V>>) -> bool {
    &&& strictly_by_tag(out)
    &&& all_last_wins(input, 0, out)
    &&& all_tags_kept(input, 0, out)
}

/// `out` is the canonical form of the settings of `input` at or after
/// `from`.
pub open spec fn canonical_from<V>(input: Seq<FontSetting<V>>, from: int, out: Seq<FontSetting<V>>) -> bool {
    &&& strictly_by_tag(out)
    &&& all_last_wins(input, from, out)
    &&& all_tags_kept(input, from, out)
}

/// A setting that wins from `from + 1` on also wins from `from` on.
proof fn lemma_last_setting_widen<V>(input: Seq<FontSetting<V>>, from: int, f: FontSetting<V>)
    requires
        is_last_setting(input, from + 1, f),
    ensures
        is_last_setting(input, from, f),
{
    let j = choose|j: int|
        from + 1 <= j < input.len() && #[trigger] input[j] == f && forall|k: int|
            j < k < input.len() ==> (#[trigger] input[k]).tag != f.tag;
    assert(from <= j < input.len() && input[j] == f);
}

/// A setting whose tag is already present adds nothing to the canonical form
/// of the later settings: a later setting of its tag wins.
proof fn lemma_skip_shadowed<V>(input: Seq<FontSetting<V>>, index: int, out: Seq<FontSetting<V>>, position: int)
    requires
        0 <= index < input.len(),
        canonical_from(input, index + 1, out),
        0 <= position < out.len(),
        out[position].tag == input[index].tag,
    ensures
        canonical_from(input, index, out),
{
    assert forall|j: int| index <= j < input.len() implies has_tag(out, (#[trigger] input[j]).tag) by {
        if j == index {
            assert(out[position].tag == input[j].tag);
        }
    }
    assert forall|i: int| 0 <= i < out.len() implies is_last_setting(input, index, #[trigger] out[i]) by {
        lemma_last_setting_widen(input, index, out[i]);
    }
}

/// Inserting a setting of a new tag at its sorted position keeps the order.
proof fn lemma_insert_sorted<V>(before: Seq<FontSetting<V>>, position: int, feature: FontSetting<V>)
    requires
        strictly_by_tag(before),
        0 <= position <= before.len(),
        forall|i: int| 0 <= i < position ==> (#[trigger] before[i]).tag.0 < feature.tag.0,
        position < before.len() ==> before[position].tag.0 > feature.tag.0,
    ensures
        strictly_by_tag(before.insert(position, feature)),
{
    let after = before.insert(position, feature);
    assert forall|a: int, b: int| 0 <= a < b < after.len() implies (#[trigger] after[a]).tag.0 < (#[trigger] after[b]).tag.0 by {
        if b < position {
            assert(after[a] == before[a] && after[b] == before[b]);
        } else if b == position {
            assert(after[a] == before[a]);
        } else if a < position {
            assert(after[a] == before[a] && after[b] == before[b - 1]);
            if b - 1 > position {
                assert(before[position].tag.0 < before[b - 1].tag.0);
            }
        } else if a == position {
            assert(after[b] == before[b - 1]);
            if b - 1 > position {
                assert(before[position].tag.0 < before[b - 1].tag.0);
            }
        } else {
            assert(after[a] == before[a - 1] && after[b] == before[b - 1]);
        }
    }
}

/// A setting of a tag absent from the canonical form of the later settings
/// is the last of its tag, and inserting it at its sorted position gives the
/// canonical form from its own position.
proof fn lemma_insert_new_tag<V>(input: Seq<FontSetting<V>>, index: int, before: Seq<FontSetting<V>>, position: int)
    requires
        0 <= index < input.len(),
        canonical_from(input, index + 1, before),
        0 <= position <= before.len(),
        forall|i: int| 0 <= i < position ==> (#[trigger] before[i]).tag.0 < input[index].tag.0,
        position < before.len() ==> before[position].tag.0 > input[index].tag.0,
    ensures
        canonical_from(input, index, before.insert(position, input[index])),
{
    let feature = input[index];
    let after = before.insert(position, feature);
    lemma_insert_sorted(before, position, feature);
    assert forall|k: int| index < k < input.len() implies (#[trigger] input[k]).tag != feature.tag by {
        if input[k].tag == feature.tag {
            assert(has_tag(before, input[k].tag));
            let i = choose|i: int| 0 <= i < before.len() && (#[trigger] before[i]).tag == input[k].tag;
            if i > position {
                assert(before[position].tag.0 < before[i].tag.0);
            }
        }
    }
    assert(is_last_setting(input, index, feature));
    assert forall|i: int| 0 <= i < after.len() implies is_last_setting(input, index, #[trigger] after[i]) by {
        if i != position {
            let bi = if i < position {
                i
            } else {
                i - 1
            };
            assert(after[i] == before[bi]);
            lemma_last_setting_widen(input, index, before[bi]);
        }
    }
    assert forall|j: int| index <= j < input.len() implies has_tag(after, (#[trigger] input[j]).tag) by {
        if j == index {
            assert(after[position].tag == input[j].tag);
        } else {
            assert(has_tag(before, input[j].tag));
            let i = choose|i: int| 0 <= i < before.len() && (#[trigger] before[i]).tag == input[j].tag;
            if i < position {
                assert(after[i] == before[i]);
            } else {
                assert(after[i + 1] == before[i]);
            }
        }
    }
}

/// Returns the canonical form of settings: one setting per tag, the last one
/// supplied, in increasing tag order.
pub fn canonical_features<V: Copy>(features: Vec<FontSetting<V>>) -> (canonical: Vec<FontSetting<V>>)
    ensures
        is_canonical_features(features@, canonical@),
{
    let input = features;
    let mut canonical: Vec<FontSetting<V>> = Vec::with_capacity(input.len());
    let mut index: usize = input.len();
    while index > 0
        invariant
            index <= input@.len(),
            canonical_from(input@, index as int, canonical@),
        decreases index,
    {
        index -= 1;
        let feature = input[index];
        let mut position: usize = 0;
        while position < canonical.len() && canonical[position].tag.0 < feature.tag.0
            invariant
                position <= canonical@.len(),
                forall|i: int| 0 <= i < position ==> (#[trigger] canonical@[i]).tag.0 < feature.tag.0,
            decreases canonical@.len() - position,
        {
            position += 1;
        }
        if position < canonical.len() && canonical[position].tag.0 == feature.tag.0 {
            proof {
                lemma_skip_shadowed(input@, index as int, canonical@, position as int);
            }
        } else {
            proof {
                lemma_insert_new_tag(input@, index as int, canonical@, position as int);
            }
            canonical.insert(position, feature);
        }
    }
    canonical
}

/// Strictly tag-ordered settings with the same members are the same
/// sequence.
proof fn lemma_sorted_same_members<V>(a: Seq<FontSetting<V>>, b: Seq<FontSetting<V>>)
    requires
        strictly_by_tag(a),
        strictly_by_tag(b),
        forall|x: FontSetting<V>| a.contains(x) <==> b.contains(x),
    ensures
        a == b,
    decreases a.len(),
{
    if a.len() == 0 {
        if b.len() > 0 {
            assert(b.contains(b[0]));
            assert(a.contains(b[0]));
        }
        assert(a =~= b);
    } else {
        assert(a.contains(a[0]));
        assert(b.contains(a[0]));
        let k = choose|k: int| 0 <= k < b.len() && b[k] == a[0];
        assert(b.contains(b[0]));
        let m = choose|m: int| 0 <= m < a.len() && a[m] == b[0];
        if k > 0 {
            assert(b[0].tag.0 < b[k].tag.0);
            if m > 0 {
                assert(a[0].tag.0 < a[m].tag.0);
            }
            assert(false);
        }
        let ra = a.drop_first();
        let rb = b.drop_first();
        assert(strictly_by_tag(ra)) by {
            assert forall|i: int, j: int| 0 <= i < j < ra.len() implies (#[trigger] ra[i]).tag.0 < (#[trigger] ra[j]).tag.0 by {
                assert(ra[i] == a[i + 1] && ra[j] == a[j + 1]);
            }
        }
        assert(strictly_by_tag(rb)) by {
            assert forall|i: int, j: int| 0 <= i < j < rb.len() implies (#[trigger] rb[i]).tag.0 < (#[trigger] rb[j]).tag.0 by {
                assert(rb[i] == b[i + 1] && rb[j] == b[j + 1]);
            }
        }
        assert forall|x: FontSetting<V>| ra.contains(x) <==> rb.contains(x) by {
            if ra.contains(x) {
                let i = choose|i: int| 0 <= i < ra.len() && ra[i] == x;
                assert(a[i + 1] == x);
                assert(b.contains(x));
                let j = choose|j: int| 0 <= j < b.len() && b[j] == x;
                if j == 0 {
                    assert(a[0].tag.0 < a[i + 1].tag.0);
                }
                assert(rb[j - 1] == x);
            }
            if rb.contains(x) {
                let j = choose|j: int| 0 <= j < rb.len() && rb[j] == x;
                assert(b[j + 1] == x);
                assert(a.contains(x));
                let i = choose|i: int| 0 <= i < a.len() && a[i] == x;
                if i == 0 {
                    assert(b[0].tag.0 < b[j + 1].tag.0);
                }
                assert(ra[i - 1] == x);
            }
        }
        lemma_sorted_same_members(ra, rb);
        assert(a =~= seq![a[0]] + ra);
        assert(b =~= seq![b[0]] + rb);
    }
}

/// A member of a canonical form is the last setting of its tag, and the
/// last setting of each tag is a member.
proof fn lemma_canonical_members<V>(input: Seq<FontSetting<V>>, out: Seq<FontSetting<V>>, x: FontSetting<V>)
    requires
        is_canonical_features(input, out),
    ensures
        out.contains(x) <==> is_last_setting(input, 0, x),
{
    if out.contains(x) {
        let i = choose|i: int| 0 <= i < out.len() && out[i] == x;
        assert(is_last_setting(input, 0, out[i]));
    }
    if is_last_setting(input, 0, x) {
        let j = choose|j: int|
            0 <= j < input.len() && #[trigger] input[j] == x && forall|k: int|
                j < k < input.len() ==> (#[trigger] input[k]).tag != x.tag;
        assert(has_tag(out, input[j].tag));
        let i = choose|i: int| 0 <= i < out.len() && (#[trigger] out[i]).tag == input[j].tag;
        assert(is_last_setting(input, 0, out[i]));
        let j2 = choose|j2: int|
            0 <= j2 < input.len() && #[trigger] input[j2] == out[i] && forall|k: int|
                j2 < k < input.len() ==> (#[trigger] input[k]).tag != out[i].tag;
        if j2 < j {
            assert(input[j].tag == out[i].tag);
        } else if j < j2 {
            assert(input[j2].tag == x.tag);
        }
        assert(out[i] == x);
    }
}

/// The canonical form of settings is unique: one setting per tag, the last
/// supplied, in tag order leaves no choice.
pub proof fn lemma_canonical_features_unique<V>(input: Seq<FontSetting<V>>, a: Seq<FontSetting<V>>, b: Seq<FontSetting<V>>)
    requires
        is_canonical_features(input, a),
        is_canonical_features(input, b),
    ensures
        a == b,
{
    assert forall|x: FontSetting<V>| a.contains(x) <==> b.contains(x) by {
        lemma_canonical_members(input, a, x);
        lemma_canonical_members(input, b, x);
    }
    lemma_sorted_same_members(a, b);
}

/// Canonicalizing canonical settings changes nothing.
pub proof fn lemma_canonical_features_idempotent<V>(input: Seq<FontSetting<V>>, out: Seq<FontSetting<V>>, again: Seq<FontSetting<V>>)
    requires
        is_canonical_features(input, out),
        is_canonical_features(out, again),
    ensures
        again == out,
{
    assert(is_canonical_features(out, out)) by {
        assert forall|i: int| 0 <= i < out.len() implies is_last_setting(out, 0, #[trigger] out[i]) by {
            assert forall|k: int| i < k < out.len() implies (#[trigger] out[k]).tag != out[i].tag by {
                assert(out[i].tag.0 < out[k].tag.0);
            }
            assert(out[i] == out[i]);
        }
        assert forall|j: int| 0 <= j < out.len() implies has_tag(out, (#[trigger] out[j]).tag) by {}
    }
    lemma_canonical_features_unique(out, out, again);
}

} // verus!
