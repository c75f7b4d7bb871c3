//! Scroll arithmetic of the help overlay. The overlay itself is rendering
//! and lives in the surrounding program.

use vstd::prelude::*;

verus! {

/// The selected row after scrolling down: it advances by one until the last
/// row that still fits the overlay block (which keeps six rows for frame and
/// padding); with no selection it lands on row one.
pub open spec fn scroll_down_spec(selected: Option<usize>, keys_len: nat, block_height: nat) -> nat {
    match selected {
        Some(i) => {
            let floor = if keys_len >= block_height - 6 {
                keys_len - (block_height - 6)
            } else {
                0
            };
            if i >= floor {
                i as nat
            } else {
                (i + 1) as nat
            }
        },
        None => 1,
    }
}

/// The selected row after scrolling up: it retreats by one down to row one,
/// and from row one to row zero; with no selection it lands on row one.
pub open spec fn scroll_up_spec(selected: Option<usize>) -> nat {
    match selected {
        Some(i) => if i > 1 {
            (i - 1) as nat
        } else {
            0
        },
        None => 1,
    }
}

/// The row selected after one scroll-down step.
pub fn scroll_down_index(selected: Option<usize>, keys_len: usize, block_height: usize) -> (r:
    usize)
    requires
        block_height >= 6,
    ensures
        r == scroll_down_spec(selected, keys_len as nat, block_height as nat),
{
    match selected {
        Some(i) => {
            let floor = if keys_len >= block_height - 6 {
                keys_len - (block_height - 6)
            } else {
                0
            };
            if i >= floor {
                i
            } else {
                i + 1
            }
        },
        None => 1,
    }
}

/// The row selected after one scroll-up step.
pub fn scroll_up_index(selected: Option<usize>) -> (r: usize)
    ensures
        r == scroll_up_spec(selected),
{
    match selected {
        Some(i) => {
            if i > 1 {
                i - 1
            } else {
                0
            }
        },
        None => 1,
    }
}

} // verus!
