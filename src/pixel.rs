use vstd::prelude::*;

verus! {

/// A color with red, green and blue channels.
#[derive(Debug, Clone, Copy, PartialEq, Eq)]
pub struct Rgb(pub [u8; 3]);

/// A color with red, green, blue and alpha channels.
#[derive(Debug, Clone, Copy, PartialEq, Eq)]
pub struct Rgba(pub [u8; 4]);

/// Two pixels with the same four channels are the same pixel.
pub proof fn lemma_rgba_eq(a: Rgba, b: Rgba)
    requires
        a.0[0] == b.0[0],
        a.0[1] == b.0[1],
        a.0[2] == b.0[2],
        a.0[3] == b.0[3],
    ensures
        a == b,
{
    broadcast use vstd::array::group_array_axioms;

    assert(a.0 =~= b.0);
}

/// The opaque color with the given channels.
pub open spec fn opaque(r: u8, g: u8, b: u8) -> Rgba {
    Rgba([r, g, b, 255u8])
}

/// The same color with its alpha channel forced to opaque.
pub open spec fn opaque_of(p: Rgba) -> Rgba {
    opaque(p.0[0], p.0[1], p.0[2])
}

impl Rgb {
    /// Number of bytes of one pixel.
    pub const CHANNELS: usize = 3;

    /// Adds an opaque alpha channel.
    pub fn to_rgba(&self) -> (r: Rgba)
        ensures
            r == opaque(self.0[0], self.0[1], self.0[2]),
    {
        Rgba([self.0[0], self.0[1], self.0[2], 255])
    }

    /// Returns the pixel unchanged.
    pub fn to_rgb(&self) -> (r: Rgb)
        ensures
            r == *self,
    {
        *self
    }

    /// Keeps the color channels of an `Rgba` pixel.
    pub fn from_rgba(p: Rgba) -> (r: Rgb)
        ensures
            r.0[0] == p.0[0],
            r.0[1] == p.0[1],
            r.0[2] == p.0[2],
    {
        p.to_rgb()
    }
}

impl Rgba {
    /// Number of bytes of one pixel.
    pub const CHANNELS: usize = 4;

    /// Drops the alpha channel.
    pub fn to_rgb(&self) -> (r: Rgb)
        ensures
            r.0[0] == self.0[0],
            r.0[1] == self.0[1],
            r.0[2] == self.0[2],
    {
        Rgb([self.0[0], self.0[1], self.0[2]])
    }

    /// Returns the pixel unchanged.
    pub fn to_rgba(&self) -> (r: Rgba)
        ensures
            r == *self,
    {
        *self
    }

    /// The opaque black pixel.
    pub fn black() -> (r: Rgba)
        ensures
            r == opaque(0, 0, 0),
    {
        Rgba([0, 0, 0, 255])
    }

    /// The opaque white pixel.
    pub fn white() -> (r: Rgba)
        ensures
            r == opaque(255, 255, 255),
    {
        Rgba([255, 255, 255, 255])
    }
}

} // verus!
