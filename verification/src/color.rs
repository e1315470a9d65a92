use vstd::prelude::*;

verus! {

/// A pixel color in one of the three supported layouts.
#[derive(Clone, Copy, Debug, PartialEq, Eq, Structural)]
pub enum Color {
    /// A single-channel pixel: one byte.
    Scalar(u8),
    /// An RGB pixel: three bytes, written in (r, g, b) order.
    Vector3(u8, u8, u8),
    /// An RGBA pixel: four bytes, written in (r, g, b, a) order.
    Vector4(u8, u8, u8, u8),
}

impl Color {
    /// The number of bytes one pixel of this color occupies.
    pub open spec fn spec_bytes_per_pixel(self) -> int {
        match self {
            Color::Scalar(_) => 1,
            Color::Vector3(_, _, _) => 3,
            Color::Vector4(_, _, _, _) => 4,
        }
    }

    /// Whether two colors use the same layout; the three layouts have
    /// pairwise distinct widths, so equal widths mean equal variants.
    pub open spec fn same_variant(self, other: Color) -> bool {
        self.spec_bytes_per_pixel() == other.spec_bytes_per_pixel()
    }

    /// The byte written for channel `ch` of a pixel of this color.
    pub open spec fn spec_byte(self, ch: int) -> u8 {
        match self {
            Color::Scalar(a) => a,
            Color::Vector3(r, g, b) => if ch == 0 {
                r
            } else if ch == 1 {
                g
            } else {
                b
            },
            Color::Vector4(r, g, b, a) => if ch == 0 {
                r
            } else if ch == 1 {
                g
            } else if ch == 2 {
                b
            } else {
                a
            },
        }
    }

    /// The width of one pixel of this color, in bytes.
    pub fn bytes_per_pixel(&self) -> (r: usize)
        ensures
            r == self.spec_bytes_per_pixel(),
    {
        match self {
            Color::Scalar(_) => 1,
            Color::Vector3(_, _, _) => 3,
            Color::Vector4(_, _, _, _) => 4,
        }
    }

    /// The channel bytes of this color, in the order they are written into a
    /// pixel buffer.
    pub fn channel_bytes(&self) -> (v: Vec<u8>)
        ensures
            v@.len() == self.spec_bytes_per_pixel(),
            forall|ch: int| 0 <= ch < v@.len() ==> v@[ch] == self.spec_byte(ch),
    {
        let mut v: Vec<u8> = Vec::new();
        match self {
            Color::Scalar(a) => {
                v.push(*a);
            },
            Color::Vector3(r, g, b) => {
                v.push(*r);
                v.push(*g);
                v.push(*b);
            },
            Color::Vector4(r, g, b, a) => {
                v.push(*r);
                v.push(*g);
                v.push(*b);
                v.push(*a);
            },
        }
        v
    }
}

} // verus!
