//! Deterministic residency accounting for prepared scenes.
//!
//! Charges cover owned table capacities and immutable packed storage. They
//! exclude allocator metadata, shared font bytes, paint-table values, and
//! caller or renderer resources. Every sum saturates at the largest `usize`.

use vstd::prelude::*;

use crate::accounting::saturate;

verus! {

/// Deterministic byte charges for one prepared-scene representation.
#[derive(Clone, Copy, Debug, PartialEq, Eq, Structural)]
pub struct SceneResidencyBytes {
    /// Persistent scene-spine and publication structure bytes.
    pub structure: usize,
    /// Source-independent line, glyph, and flow-layout bytes.
    pub layout: usize,
    /// Renderer-facing paint topology bytes.
    pub paint: usize,
    /// Paragraph-local authored and generated provenance bytes.
    pub sources: usize,
    /// Semantic structure and geometry bytes.
    pub semantics: usize,
    /// Point-hit cluster and visual-slice bytes.
    pub hit_testing: usize,
    /// Caret and selection-geometry bytes.
    pub selection: usize,
    /// Logical and visual movement-graph bytes.
    pub navigation: usize,
    /// Bytes unique to native text-input queries.
    pub native_text_input: usize,
}

/// Saturating sum of two charges.
pub open spec fn sat_add(a: usize, b: usize) -> usize {
    saturate(a + b) as usize
}

/// The category-wise saturating sum of two charge sets.
pub open spec fn sum_bytes(a: SceneResidencyBytes, b: SceneResidencyBytes) -> SceneResidencyBytes {
    SceneResidencyBytes {
        structure: sat_add(a.structure, b.structure),
        layout: sat_add(a.layout, b.layout),
        paint: sat_add(a.paint, b.paint),
        sources: sat_add(a.sources, b.sources),
        semantics: sat_add(a.semantics, b.semantics),
        hit_testing: sat_add(a.hit_testing, b.hit_testing),
        selection: sat_add(a.selection, b.selection),
        navigation: sat_add(a.navigation, b.navigation),
        native_text_input: sat_add(a.native_text_input, b.native_text_input),
    }
}

/// The exact, unbounded sum of every category.
pub open spec fn category_sum(b: SceneResidencyBytes) -> int {
    b.structure + b.layout + b.paint + b.sources + b.semantics + b.hit_testing + b.selection
        + b.navigation + b.native_text_input
}

/// Charges with no bytes in any category.
pub open spec fn zero_bytes() -> SceneResidencyBytes {
    SceneResidencyBytes {
        structure: 0,
        layout: 0,
        paint: 0,
        sources: 0,
        semantics: 0,
        hit_testing: 0,
        selection: 0,
        navigation: 0,
        native_text_input: 0,
    }
}

/// Saturating a partial sum before adding a nonnegative term saturates the
/// same way as adding first.
proof fn lemma_saturate_step(partial: int, term: int)
    requires
        partial >= 0,
        term >= 0,
    ensures
        saturate(saturate(partial) + term) == saturate(partial + term),
{
}

impl SceneResidencyBytes {
    /// Charges for the scene-output categories, with no structure bytes.
    pub fn from_categories(
        layout: usize,
        paint: usize,
        sources: usize,
        semantics: usize,
        hit_testing: usize,
        selection: usize,
        navigation: usize,
        native_text_input: usize,
    ) -> (bytes: Self)
        ensures
            bytes == (SceneResidencyBytes {
                structure: 0,
                layout,
                paint,
                sources,
                semantics,
                hit_testing,
                selection,
                navigation,
                native_text_input,
            }),
    {
        SceneResidencyBytes {
            structure: 0,
            layout,
            paint,
            sources,
            semantics,
            hit_testing,
            selection,
            navigation,
            native_text_input,
        }
    }

    /// Adds persistent structure bytes, saturating.
    pub fn add_structure(&mut self, bytes: usize)
        ensures
            *final(self) == (SceneResidencyBytes {
                structure: sat_add(old(self).structure, bytes),
                ..*old(self)
            }),
    {
        self.structure = self.structure.saturating_add(bytes);
    }

    /// Adds every category of `other`, saturating each.
    pub fn add_assign(&mut self, other: Self)
        ensures
            *final(self) == sum_bytes(*old(self), other),
    {
        self.structure = self.structure.saturating_add(other.structure);
        self.layout = self.layout.saturating_add(other.layout);
        self.paint = self.paint.saturating_add(other.paint);
        self.sources = self.sources.saturating_add(other.sources);
        self.semantics = self.semantics.saturating_add(other.semantics);
        self.hit_testing = self.hit_testing.saturating_add(other.hit_testing);
        self.selection = self.selection.saturating_add(other.selection);
        self.navigation = self.navigation.saturating_add(other.navigation);
        self.native_text_input = self.native_text_input.saturating_add(other.native_text_input);
    }

    /// Returns the saturating sum of every reported category.
    pub fn total(self) -> (total: usize)
        ensures
            total == saturate(category_sum(self)),
    {
        let t = self.structure.saturating_add(self.layout);
        let t = t.saturating_add(self.paint);
        proof {
            lemma_saturate_step(self.structure + self.layout, self.paint as int);
        }
        let t = t.saturating_add(self.sources);
        proof {
            lemma_saturate_step(self.structure + self.layout + self.paint, self.sources as int);
        }
        let t = t.saturating_add(self.semantics);
        proof {
            lemma_saturate_step(
                self.structure + self.layout + self.paint + self.sources,
                self.semantics as int,
            );
        }
        let t = t.saturating_add(self.hit_testing);
        proof {
            lemma_saturate_step(
                self.structure + self.layout + self.paint + self.sources + self.semantics,
                self.hit_testing as int,
            );
        }
        let t = t.saturating_add(self.selection);
        proof {
            lemma_saturate_step(
                self.structure + self.layout + self.paint + self.sources + self.semantics
                    + self.hit_testing,
                self.selection as int,
            );
        }
        let t = t.saturating_add(self.navigation);
        proof {
            lemma_saturate_step(
                self.structure + self.layout + self.paint + self.sources + self.semantics
                    + self.hit_testing + self.selection,
                self.navigation as int,
            );
        }
        let t = t.saturating_add(self.native_text_input);
        proof {
            lemma_saturate_step(
                self.structure + self.layout + self.paint + self.sources + self.semantics
                    + self.hit_testing + self.selection + self.navigation,
                self.native_text_input as int,
            );
        }
        t
    }
}

impl Default for SceneResidencyBytes {
    fn default() -> (bytes: Self)
        ensures
            bytes == zero_bytes(),
    {
        SceneResidencyBytes {
            structure: 0,
            layout: 0,
            paint: 0,
            sources: 0,
            semantics: 0,
            hit_testing: 0,
            selection: 0,
            navigation: 0,
            native_text_input: 0,
        }
    }
}

/// Adding charges never lowers the total: each category only grows, and the
/// total saturates at the same bound.
pub proof fn lemma_total_monotone(a: SceneResidencyBytes, b: SceneResidencyBytes)
    ensures
        saturate(category_sum(sum_bytes(a, b))) >= saturate(category_sum(a)),
{
}

/// The category-wise sum of charge sets, folded from the left.
pub open spec fn summed_bytes(start: SceneResidencyBytes, segments: Seq<SceneResidencyBytes>) -> SceneResidencyBytes
    decreases segments.len(),
{
    if segments.len() == 0 {
        start
    } else {
        sum_bytes(summed_bytes(start, segments.drop_last()), segments.last())
    }
}

/// Aggregate deterministic residency for one immutable prepared scene.
#[derive(Clone, Copy, Debug, PartialEq, Eq, Structural)]
pub struct SceneResidency {
    /// Paragraph segments in the scene.
    pub paragraphs: usize,
    /// Aggregate category charges.
    pub bytes: SceneResidencyBytes,
}

impl SceneResidency {
    /// Aggregates a scene from its spine's node bytes and the charges of each
    /// paragraph segment.
    pub fn from_segments(paragraphs: usize, node_bytes: usize, segments: &[SceneResidencyBytes]) -> (residency: Self)
        ensures
            residency.paragraphs == paragraphs,
            residency.bytes == summed_bytes(
                SceneResidencyBytes { structure: node_bytes, ..zero_bytes() },
                segments@,
            ),
    {
        let mut bytes = SceneResidencyBytes::default();
        bytes.add_structure(node_bytes);
        let ghost start = bytes;
        let mut index: usize = 0;
        while index < segments.len()
            invariant
                index <= segments@.len(),
                start == (SceneResidencyBytes { structure: node_bytes, ..zero_bytes() }),
                bytes == summed_bytes(start, segments@.subrange(0, index as int)),
            decreases segments@.len() - index,
        {
            bytes.add_assign(segments[index]);
            proof {
                assert(segments@.subrange(0, index as int + 1).drop_last() == segments@.subrange(
                    0,
                    index as int,
                ));
            }
            index += 1;
        }
        proof {
            assert(segments@.subrange(0, segments@.len() as int) == segments@);
        }
        SceneResidency { paragraphs, bytes }
    }
}

impl Default for SceneResidency {
    fn default() -> (residency: Self)
        ensures
            residency.paragraphs == 0,
            residency.bytes == zero_bytes(),
    {
        SceneResidency { paragraphs: 0, bytes: SceneResidencyBytes::default() }
    }
}

} // verus!
