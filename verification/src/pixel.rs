use vstd::prelude::*;

verus! {

/// An RGB colour with eight bits per channel.
#[derive(Clone, Copy, PartialEq, Eq, Structural, Debug)]
pub struct Pixel {
    pub r: u8,
    pub g: u8,
    pub b: u8,
}

impl Pixel {
    /// The background colour of an unlit cell.
    pub open spec fn spec_black() -> Pixel {
        Pixel { r: 1, g: 1, b: 1 }
    }

    /// Builds a pixel from its three channels.
    pub fn new(r: u8, g: u8, b: u8) -> (p: Pixel)
        ensures
            p == (Pixel { r, g, b }),
    {
        Pixel { r, g, b }
    }

    /// The background colour of an unlit cell: every channel is 1.
    #[verifier::when_used_as_spec(spec_black)]
    pub fn black() -> (p: Pixel)
        ensures
            p == Pixel::spec_black(),
    {
        Pixel { r: 1, g: 1, b: 1 }
    }
}

impl Default for Pixel {
    /// All three channels zero.
    fn default() -> (p: Pixel)
        ensures
            p == (Pixel { r: 0, g: 0, b: 0 }),
    {
        Pixel { r: 0, g: 0, b: 0 }
    }
}

} // verus!
