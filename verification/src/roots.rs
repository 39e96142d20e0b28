//! Published scene roots and the geometry lanes they pin.
//!
//! A published document, block or composition scene names the retained
//! paragraph segments it was built from. Eviction ranks a retained entry by
//! the later of its own use and the use of the roots that name it, and an
//! eviction drops the roots that can no longer be answered exactly.

use vstd::prelude::*;

use crate::ids::ParagraphId;

verus! {

/// The retained-geometry lane of an entry.
#[derive(Clone, Copy, Debug, PartialEq, Eq, Structural)]
pub enum CacheKind {
    /// Geometry of committed paragraph text.
    Committed,
    /// Geometry of a paragraph under an input-method composition.
    Composition,
}

/// A published composition scene: the paragraph it edits and its last use.
#[derive(Clone, Copy, Debug, PartialEq, Eq, Structural)]
pub struct CompositionRoot {
    /// The composition's target paragraph.
    pub target: ParagraphId,
    /// Last use of the composition scene.
    pub last_used: u64,
}

/// The published roots of one document, as their last uses.
#[derive(Clone, Copy, Debug, PartialEq, Eq, Structural)]
pub struct PublishedRoots {
    /// Last use of the published document scene, if one is published.
    pub document: Option<u64>,
    /// Last use of the published block scene, if one is published.
    pub block: Option<u64>,
    /// The target paragraph and last use of the published composition
    /// scene, if one is published.
    pub composition: Option<CompositionRoot>,
}

/// Which roots an eviction drops.
#[derive(Clone, Copy, Debug, PartialEq, Eq, Structural)]
pub struct DroppedRoots {
    /// The published document scene is dropped.
    pub document: bool,
    /// The published block scene is dropped.
    pub block: bool,
    /// The published composition scene is dropped.
    pub composition: bool,
}

/// The later of two uses.
pub open spec fn later(a: u64, b: u64) -> u64 {
    if a >= b {
        a
    } else {
        b
    }
}

/// The last use of the roots that pin `paragraph` in lane `kind`.
///
/// Committed entries are pinned by the document and block scenes and by a
/// composition scene whose target is another paragraph; a composition entry
/// only by the composition scene that targets it.
pub open spec fn root_use_spec(kind: CacheKind, paragraph: ParagraphId, roots: PublishedRoots) -> u64 {
    let document: u64 = match roots.document {
        Some(used) => used,
        None => 0,
    };
    let committed: u64 = match roots.block {
        Some(used) => later(document, used),
        None => document,
    };
    match kind {
        CacheKind::Committed => match roots.composition {
            Some(root) => if root.target != paragraph {
                later(committed, root.last_used)
            } else {
                committed
            },
            None => committed,
        },
        CacheKind::Composition => match roots.composition {
            Some(root) => if root.target == paragraph {
                root.last_used
            } else {
                0
            },
            None => 0,
        },
    }
}

fn later_use(a: u64, b: u64) -> (used: u64)
    ensures
        used == later(a, b),
{
    if a >= b {
        a
    } else {
        b
    }
}

/// Returns the last use of the published roots that pin `paragraph` in
/// lane `kind`; zero when none does.
pub fn root_use_for(kind: CacheKind, paragraph: ParagraphId, roots: PublishedRoots) -> (used: u64)
    ensures
        used == root_use_spec(kind, paragraph, roots),
{
    let document = match roots.document {
        Some(used) => used,
        None => 0,
    };
    let committed = match roots.block {
        Some(used) => later_use(document, used),
        None => document,
    };
    match kind {
        CacheKind::Committed => match roots.composition {
            Some(root) => if root.target != paragraph {
                later_use(committed, root.last_used)
            } else {
                committed
            },
            None => committed,
        },
        CacheKind::Composition => match roots.composition {
            Some(root) => if root.target == paragraph {
                root.last_used
            } else {
                0
            },
            None => 0,
        },
    }
}

/// The eviction rank of a retained entry: the later of its own last use and
/// the use of the roots that pin it.
pub fn eviction_rank(kind: CacheKind, paragraph: ParagraphId, last_used: u64, roots: PublishedRoots) -> (rank: u64)
    ensures
        rank == later(last_used, root_use_spec(kind, paragraph, roots)),
{
    later_use(last_used, root_use_for(kind, paragraph, roots))
}

/// The roots dropped by evicting `paragraph` from lane `kind`.
pub open spec fn dropped_roots_spec(kind: CacheKind, paragraph: ParagraphId, roots: PublishedRoots) -> DroppedRoots {
    match kind {
        CacheKind::Committed => DroppedRoots {
            document: true,
            block: true,
            composition: roots.composition matches Some(root) && root.target != paragraph,
        },
        CacheKind::Composition => DroppedRoots { document: false, block: false, composition: true },
    }
}

/// Decides which published roots an eviction drops. A committed eviction
/// drops the document and block scenes and a composition scene that shares
/// committed siblings with it; evicting a composition target drops only the
/// composition scene, never the independent committed root.
pub fn dropped_roots(kind: CacheKind, paragraph: ParagraphId, roots: PublishedRoots) -> (dropped: DroppedRoots)
    ensures
        dropped == dropped_roots_spec(kind, paragraph, roots),
{
    match kind {
        CacheKind::Committed => {
            let composition = match roots.composition {
                Some(root) => root.target != paragraph,
                None => false,
            };
            DroppedRoots { document: true, block: true, composition }
        },
        CacheKind::Composition => DroppedRoots { document: false, block: false, composition: true },
    }
}

/// A root that survives an eviction keeps the evicted entry's lane answerable:
/// evicting a composition target never drops a committed root, and a
/// committed eviction never drops the composition scene that targets the
/// evicted paragraph itself.
pub proof fn lemma_dropped_roots_spare_the_other_lane(paragraph: ParagraphId, roots: PublishedRoots)
    ensures
        !dropped_roots_spec(CacheKind::Composition, paragraph, roots).document,
        !dropped_roots_spec(CacheKind::Composition, paragraph, roots).block,
        roots.composition matches Some(root) && root.target == paragraph
            ==> !dropped_roots_spec(CacheKind::Committed, paragraph, roots).composition,
{
}

} // verus!
