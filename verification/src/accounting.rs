//! Saturating byte accounting.

use vstd::prelude::*;

verus! {

/// Clamps a mathematical count to the largest `usize`.
pub open spec fn saturate(x: int) -> int {
    if x > usize::MAX {
        usize::MAX as int
    } else {
        x
    }
}

/// Saturating charge of `count` elements of `size` bytes.
pub open spec fn table_charge(size: nat, count: int) -> int {
    saturate(size * count)
}

/// Multiplies two counts, saturating at the largest `usize`.
pub fn saturating_mul(a: usize, b: usize) -> (product: usize)
    ensures
        product == saturate(a * b),
{
    match a.checked_mul(b) {
        Some(product) => product,
        None => usize::MAX,
    }
}

/// Deterministic byte charge of `capacity` elements of `T`.
pub fn vec_bytes<T>(capacity: usize) -> (bytes: usize)
    ensures
        bytes == saturate(vstd::layout::size_of::<T>() * capacity),
{
    saturating_mul(core::mem::size_of::<T>(), capacity)
}

/// Nodes of a balanced scene tree over `paragraphs` leaves: `2n - 1`,
/// saturating.
pub open spec fn tree_node_count(paragraphs: usize) -> int {
    if paragraphs == 0 {
        0
    } else if 2 * paragraphs > usize::MAX {
        usize::MAX - 1
    } else {
        2 * paragraphs - 1
    }
}

/// Deterministic byte charge of the interior and leaf nodes of a scene tree
/// with nodes of type `N` over `paragraphs` leaves.
pub fn accounted_node_bytes<N>(paragraphs: usize) -> (bytes: usize)
    ensures
        bytes == saturate(vstd::layout::size_of::<N>() * tree_node_count(paragraphs)),
{
    if paragraphs == 0 {
        return 0;
    }
    let nodes = saturating_mul(paragraphs, 2).saturating_sub(1);
    saturating_mul(core::mem::size_of::<N>(), nodes)
}

/// Returns the number of elements a vector can hold without reallocating.
///
/// Calls `Vec::capacity`; its documentation guarantees only that the
/// capacity is at least the length. The exact value depends on the
/// allocator and is not stated.
#[verifier::external_body]
pub(crate) fn vec_capacity<T>(values: &Vec<T>) -> (capacity: usize)
    ensures
        capacity >= values@.len(),
{
    values.capacity()
}

} // verus!
