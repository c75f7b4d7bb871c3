//! Layout decisions of the screen overview: on which side of the primary
//! block a secondary screen is drawn. Drawing itself is the surrounding
//! program's concern.

use vstd::prelude::*;

verus! {

/// Where a secondary screen stands relative to the primary one on the
/// overview grid.
#[derive(Clone, Copy, Debug, PartialEq, Eq, Structural)]
pub enum GridSlot {
    LeftOf,
    RightOf,
    Above,
    Below,
    SamePlace,
}

/// The slot for a secondary screen: decided by the effective positions,
/// horizontal placement first, vertical only at equal abscissae.
pub open spec fn grid_slot_spec(secondary: (u16, u16), primary: (u16, u16)) -> GridSlot {
    if secondary.0 > primary.0 {
        GridSlot::RightOf
    } else if secondary.0 < primary.0 {
        GridSlot::LeftOf
    } else if secondary.1 < primary.1 {
        GridSlot::Above
    } else if secondary.1 > primary.1 {
        GridSlot::Below
    } else {
        GridSlot::SamePlace
    }
}

/// Decide on which side of the primary block a secondary screen is drawn.
pub fn grid_slot(secondary: (u16, u16), primary: (u16, u16)) -> (r: GridSlot)
    ensures
        r == grid_slot_spec(secondary, primary),
{
    if secondary.0 > primary.0 {
        GridSlot::RightOf
    } else if secondary.0 < primary.0 {
        GridSlot::LeftOf
    } else if secondary.1 < primary.1 {
        GridSlot::Above
    } else if secondary.1 > primary.1 {
        GridSlot::Below
    } else {
        GridSlot::SamePlace
    }
}

} // verus!
