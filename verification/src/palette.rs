//! The palette: which of its entries shows a material.

use vstd::prelude::*;

verus! {

/// The number of entries of the palette.
pub const PALETTE_SIZE: usize = 4;

/// The entry of the palette that shows `material`: the materials from 1 to
/// `PALETTE_SIZE` take the entries in order, starting at entry 0; no other
/// material has one.
pub open spec fn palette_slot_of(material: usize) -> Option<usize> {
    if 1 <= material <= PALETTE_SIZE {
        Some((material - 1) as usize)
    } else {
        None
    }
}

/// Finds the entry of the palette that shows `material`.
pub fn palette_slot(material: usize) -> (slot: Option<usize>)
    ensures
        slot == palette_slot_of(material),
        slot matches Some(s) ==> s < PALETTE_SIZE,
{
    if 1 <= material && material <= PALETTE_SIZE {
        Some(material - 1)
    } else {
        None
    }
}

} // verus!
