//! The paint table: paint slots mapped to renderer-neutral brushes.

use vstd::prelude::*;

use crate::error::{StyleError, StyleErrorKind};
use crate::style::PaintSlot;

verus! {

#[verifier::external_type_specification]
#[verifier::external_body]
#[verifier::reject_recursive_types(I)]
#[verifier::reject_recursive_types(G)]
pub struct ExBrush<I, G>(peniko::Brush<I, G>);

#[verifier::external_type_specification]
#[verifier::external_body]
#[verifier::reject_recursive_types(D)]
pub struct ExImageBrush<D>(peniko::ImageBrush<D>);

#[verifier::external_type_specification]
#[verifier::external_body]
pub struct ExImageData(peniko::ImageData);

#[verifier::external_type_specification]
#[verifier::external_body]
pub struct ExGradient(peniko::Gradient);

/// Copies one brush.
///
/// Calls the derived `Clone` of `peniko::Brush`. Every field of a brush is
/// either copied or shared: colors and gradient stops are copied, and image
/// bytes live in a `Blob` whose clone shares the same allocation and keeps
/// its identifier. The contract claims that the copy equals the original.
#[verifier::external_body]
fn clone_brush(brush: &peniko::Brush) -> (copy: peniko::Brush)
    ensures
        copy == *brush,
{
    brush.clone()
}

/// Immutable mapping from paint slots to renderer-neutral brushes.
#[derive(Clone, Debug, PartialEq)]
pub struct PaintTable {
    values: Vec<peniko::Brush>,
}

impl View for PaintTable {
    type V = Seq<peniko::Brush>;

    closed spec fn view(&self) -> Seq<peniko::Brush> {
        self.values@
    }
}

impl PaintTable {
    /// Collects brushes in slot-index order.
    pub fn from_brushes(values: Vec<peniko::Brush>) -> (table: Self)
        ensures
            table@ == values@,
    {
        PaintTable { values }
    }

    /// Returns a copy with one slot replaced.
    ///
    /// A slot beyond the table is reported as an absent paint slot.
    pub fn with_brush(&self, slot: PaintSlot, value: peniko::Brush) -> (result: Result<
        Self,
        StyleError,
    >)
        ensures
            match result {
                Ok(table) => slot.spec_index() < self@.len() && table@ == self@.update(
                    slot.spec_index() as int,
                    value,
                ) && forall|other: PaintSlot|
                    other != slot && #[trigger] other.spec_index() < self@.len() ==> table@[other.spec_index() as int]
                        == self@[other.spec_index() as int],
                Err(e) => slot.spec_index() >= self@.len() && e.kind() == StyleErrorKind::AbsentPaintSlot
                    && e.paint() == Some(slot),
            },
    {
        let index = slot.index() as usize;
        if index >= self.values.len() {
            return Err(StyleError::for_paint(StyleErrorKind::AbsentPaintSlot, slot));
        }
        let mut values: Vec<peniko::Brush> = Vec::with_capacity(self.values.len());
        let mut position: usize = 0;
        while position < self.values.len()
            invariant
                position <= self.values@.len(),
                values@ == self.values@.subrange(0, position as int),
            decreases self.values@.len() - position,
        {
            values.push(clone_brush(&self.values[position]));
            position += 1;
        }
        values.set(index, value);
        proof {
            assert forall|other: PaintSlot|
                other != slot && #[trigger] other.spec_index() < self@.len() implies values@[other.spec_index() as int]
                    == self@[other.spec_index() as int] by {
                PaintSlot::lemma_index_identifies(other, slot);
            }
        }
        Ok(PaintTable { values })
    }

    /// Returns the brush at a slot, if present.
    pub fn brush(&self, slot: PaintSlot) -> (brush: Option<&peniko::Brush>)
        ensures
            match brush {
                Some(b) => slot.spec_index() < self@.len() && *b == self@[slot.spec_index() as int],
                None => slot.spec_index() >= self@.len(),
            },
    {
        let index = slot.index() as usize;
        if index < self.values.len() {
            Some(&self.values[index])
        } else {
            None
        }
    }

    /// Returns the number of paint slots.
    pub fn len(&self) -> (count: usize)
        ensures
            count == self@.len(),
    {
        self.values.len()
    }

    /// Returns whether the table contains no brushes.
    pub fn is_empty(&self) -> (empty: bool)
        ensures
            empty == (self@.len() == 0),
    {
        self.values.len() == 0
    }
}

} // verus!
