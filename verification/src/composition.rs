//! Revision-free text sources of transient input compositions.

use vstd::prelude::*;

use crate::ids::{CompositionEpoch, CompositionId, TextAffinity};
use crate::selection::{SnapshotTextPosition, SnapshotTextRange};

verus! {

/// UTF-8 range of composition text in one composition epoch.
#[derive(Clone, Copy, Debug, PartialEq, Eq, Structural)]
pub struct CompositionTextRange {
    id: CompositionId,
    epoch: CompositionEpoch,
    start: u32,
    end: u32,
}

impl CompositionTextRange {
    pub closed spec fn spec_id(&self) -> CompositionId {
        self.id
    }

    pub closed spec fn spec_epoch(&self) -> CompositionEpoch {
        self.epoch
    }

    /// First byte.
    pub closed spec fn start(&self) -> u32 {
        self.start
    }

    /// Byte just past the range.
    pub closed spec fn end(&self) -> u32 {
        self.end
    }

    /// The range with the given observations.
    pub closed spec fn new_spec(id: CompositionId, epoch: CompositionEpoch, bytes: core::ops::Range<u32>) -> Self {
        Self { id, epoch, start: bytes.start, end: bytes.end }
    }

    /// Creates a composition range.
    pub fn new(id: CompositionId, epoch: CompositionEpoch, bytes: core::ops::Range<u32>) -> (r: Self)
        ensures
            r == Self::new_spec(id, epoch, bytes),
            r.id() == id,
            r.epoch() == epoch,
            r.start() == bytes.start,
            r.end() == bytes.end,
    {
        Self { id, epoch, start: bytes.start, end: bytes.end }
    }

    /// Returns the composition session.
    #[verifier::when_used_as_spec(spec_id)]
    pub fn id(&self) -> (id: CompositionId)
        ensures
            id == self.spec_id(),
    {
        self.id
    }

    /// Returns the composition epoch.
    #[verifier::when_used_as_spec(spec_epoch)]
    pub fn epoch(&self) -> (epoch: CompositionEpoch)
        ensures
            epoch == self.spec_epoch(),
    {
        self.epoch
    }

    /// Returns the composition-local bytes.
    pub fn bytes(&self) -> (bytes: core::ops::Range<u32>)
        ensures
            bytes.start == self.start(),
            bytes.end == self.end(),
    {
        self.start..self.end
    }
}

/// Position in composition text in one composition epoch.
#[derive(Clone, Copy, Debug, PartialEq, Eq, Structural)]
pub struct CompositionTextPosition {
    id: CompositionId,
    epoch: CompositionEpoch,
    byte: u32,
    affinity: TextAffinity,
}

impl CompositionTextPosition {
    pub closed spec fn spec_id(&self) -> CompositionId {
        self.id
    }

    pub closed spec fn spec_epoch(&self) -> CompositionEpoch {
        self.epoch
    }

    pub closed spec fn spec_byte(&self) -> u32 {
        self.byte
    }

    pub closed spec fn spec_affinity(&self) -> TextAffinity {
        self.affinity
    }

    /// The position with the given observations.
    pub closed spec fn new_spec(id: CompositionId, epoch: CompositionEpoch, byte: u32, affinity: TextAffinity) -> Self {
        Self { id, epoch, byte, affinity }
    }

    /// Creates a composition position.
    pub fn new(id: CompositionId, epoch: CompositionEpoch, byte: u32, affinity: TextAffinity) -> (p: Self)
        ensures
            p == Self::new_spec(id, epoch, byte, affinity),
            p.id() == id,
            p.epoch() == epoch,
            p.byte() == byte,
            p.affinity() == affinity,
    {
        Self { id, epoch, byte, affinity }
    }

    /// Returns the composition session.
    #[verifier::when_used_as_spec(spec_id)]
    pub fn id(&self) -> (id: CompositionId)
        ensures
            id == self.spec_id(),
    {
        self.id
    }

    /// Returns the composition epoch.
    #[verifier::when_used_as_spec(spec_epoch)]
    pub fn epoch(&self) -> (epoch: CompositionEpoch)
        ensures
            epoch == self.spec_epoch(),
    {
        self.epoch
    }

    /// Returns the composition-local byte.
    #[verifier::when_used_as_spec(spec_byte)]
    pub fn byte(&self) -> (byte: u32)
        ensures
            byte == self.spec_byte(),
    {
        self.byte
    }

    /// Returns the owning logical side.
    #[verifier::when_used_as_spec(spec_affinity)]
    pub fn affinity(&self) -> (affinity: TextAffinity)
        ensures
            affinity == self.spec_affinity(),
    {
        self.affinity
    }
}

/// One source slice of a transient scene: authored or generated.
#[derive(Clone, Copy, Debug, PartialEq, Eq, Structural)]
pub enum ProjectedTextSource {
    /// Committed snapshot text.
    Snapshot(SnapshotTextRange),
    /// Transient composition text.
    Composition(CompositionTextRange),
}

/// One position of a transient scene: authored or generated.
#[derive(Clone, Copy, Debug, PartialEq, Eq, Structural)]
pub enum ProjectedTextPosition {
    /// Position in committed snapshot text.
    Snapshot(SnapshotTextPosition),
    /// Position in transient composition text.
    Composition(CompositionTextPosition),
}

/// Ordered authored and generated source slices of one projected range.
#[derive(Clone, Debug, PartialEq, Eq)]
pub struct ProjectedTextRange {
    sources: Vec<ProjectedTextSource>,
}

impl View for ProjectedTextRange {
    type V = Seq<ProjectedTextSource>;

    closed spec fn view(&self) -> Seq<ProjectedTextSource> {
        self.sources@
    }
}

impl ProjectedTextRange {
    /// Creates a projected range from its ordered sources.
    pub fn new(sources: Vec<ProjectedTextSource>) -> (r: Self)
        ensures
            r@ == sources@,
    {
        Self { sources }
    }

    /// Returns the ordered sources.
    pub fn sources(&self) -> (sources: &[ProjectedTextSource])
        ensures
            sources@ == self@,
    {
        self.sources.as_slice()
    }
}

} // verus!
