//! The choice of a colour for the number on a tile.

use vstd::prelude::*;

verus! {

/// The place in a palette of the colour for a tile with `count` bombs
/// around it: the first colour for one bomb (and for none), the second for
/// two, and so on.
pub open spec fn counter_color_index(count: u8) -> int {
    if count == 0 {
        0
    } else {
        count - 1
    }
}

/// The colour of the number on a tile with `count` bombs around it: the
/// colour of `colors` at the place that belongs to `count`, and `fallback`
/// where the palette has no colour there.
pub fn bomb_counter_color<C: Copy>(colors: &Vec<C>, count: u8, fallback: C) -> (color: C)
    ensures
        color == if counter_color_index(count) < colors@.len() {
            colors@[counter_color_index(count)]
        } else {
            fallback
        },
{
    let at: usize = if count == 0 {
        0
    } else {
        (count - 1) as usize
    };
    if at < colors.len() {
        colors[at]
    } else {
        fallback
    }
}

} // verus!
