//! A picture that needs no tracing: a pattern of squares, for trying out the display.

use vstd::prelude::*;

verus! {

/// The level of the pattern at pixel (`x`, `y`): the low eight bits of the exclusive or
/// of the two coordinates.
pub open spec fn pattern_of(x: usize, y: usize) -> u8 {
    ((x ^ y) & 0xff) as u8
}

/// The test pattern.
#[derive(Clone, Copy, Debug)]
pub struct Scene;

impl Scene {
    /// The level of the pattern at the pixel whose top left corner is (`x`, `y`).
    pub fn render(&self, x: usize, y: usize) -> (level: u8)
        ensures
            level == pattern_of(x, y),
    {
        let low: usize = (x ^ y) & 0xff;
        assert(low < 256) by (bit_vector)
            requires
                low == (x ^ y) & 0xff,
        ;
        low as u8
    }
}

} // verus!
