//! The atomic unit every algorithm emits: a positioned, colored sample.

use vstd::prelude::*;

use crate::geometry::Point;

verus! {

/// A colored sample at an integer pixel position.  Immutable once produced.
#[derive(Clone, Copy, PartialEq, Eq, Structural, Debug)]
pub struct Pixel {
    pub pos: Point,
    pub red: u8,
    pub green: u8,
    pub blue: u8,
    pub intensity: u8,
}

impl Pixel {
    /// A black sample at `(x, y)` with the given intensity.
    pub fn new_black(x: i32, y: i32, intensity: u8) -> (p: Pixel)
        ensures
            p == (Pixel { pos: Point { x, y }, red: 0, green: 0, blue: 0, intensity }),
    {
        Pixel { pos: Point { x, y }, red: 0, green: 0, blue: 0, intensity }
    }

    /// A sample at `(x, y)` with the given color channels and intensity.
    pub fn new(x: i32, y: i32, rgba: (u8, u8, u8, u8)) -> (p: Pixel)
        ensures
            p == (Pixel {
                pos: Point { x, y },
                red: rgba.0,
                green: rgba.1,
                blue: rgba.2,
                intensity: rgba.3,
            }),
    {
        Pixel { pos: Point { x, y }, red: rgba.0, green: rgba.1, blue: rgba.2, intensity: rgba.3 }
    }

    /// A sample at a point with the given color channels and intensity.
    pub fn new_pos2(pos: Point, rgba: (u8, u8, u8, u8)) -> (p: Pixel)
        ensures
            p == (Pixel {
                pos,
                red: rgba.0,
                green: rgba.1,
                blue: rgba.2,
                intensity: rgba.3,
            }),
    {
        Pixel { pos, red: rgba.0, green: rgba.1, blue: rgba.2, intensity: rgba.3 }
    }

    /// A black sample at a point with the given intensity.
    pub fn from_pos_black(pos: Point, intensity: u8) -> (p: Pixel)
        ensures
            p == (Pixel { pos, red: 0, green: 0, blue: 0, intensity }),
    {
        Pixel { pos, red: 0, green: 0, blue: 0, intensity }
    }
}

} // verus!
