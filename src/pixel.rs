use vstd::prelude::*;

verus! {

/// One RGBA sample with 8-bit channels. A pixel is transparent when `a == 0`.
#[derive(Clone, Copy, Debug, PartialEq, Eq, Structural)]
pub struct Pixel {
    pub r: u8,
    pub g: u8,
    pub b: u8,
    pub a: u8,
}

impl Pixel {
    pub open spec fn is_transparent(self) -> bool {
        self.a == 0
    }

    /// Red, green or blue channel by index 0, 1 or 2.
    pub open spec fn channel(self, c: int) -> u8 {
        if c == 0 {
            self.r
        } else if c == 1 {
            self.g
        } else {
            self.b
        }
    }

    pub fn new(r: u8, g: u8, b: u8, a: u8) -> (p: Pixel)
        ensures
            p == (Pixel { r, g, b, a }),
    {
        Pixel { r, g, b, a }
    }
}

} // verus!
