//! The pixel grid that frames and the canvas are made of.

use vstd::prelude::*;

verus! {

/// One picture element: red, green, blue and alpha, 8 bits per channel.
///
/// Three-channel (RGB) frames are carried in the same shape with the alpha
/// channel left untouched by every operation that works on them.
#[derive(Clone, Copy, PartialEq, Eq, Structural, Debug)]
pub struct Pixel {
    pub r: u8,
    pub g: u8,
    pub b: u8,
    pub a: u8,
}

/// A bitmap: a `width` by `height` grid of pixels in row-major order.
pub struct Bitmap {
    pub width: usize,
    pub height: usize,
    pub pixels: Vec<Pixel>,
}

impl Bitmap {
    /// Well-formed: exactly one pixel per grid cell.
    pub open spec fn wf(&self) -> bool {
        self.pixels@.len() == self.width * self.height
    }

    /// Two bitmaps cover the same grid.
    pub open spec fn same_dims(&self, other: &Bitmap) -> bool {
        self.width == other.width && self.height == other.height
    }

    /// Builds a bitmap from a flat pixel row-major grid; rejects a pixel
    /// count that does not match the dimensions.
    pub fn from_pixels(width: usize, height: usize, pixels: Vec<Pixel>) -> (r: Option<Bitmap>)
        ensures
            match r {
                Some(b) => {
                    &&& b.wf()
                    &&& b.width == width
                    &&& b.height == height
                    &&& b.pixels@ == pixels@
                },
                None => pixels@.len() != width * height,
            },
    {
        let count = pixels.len();
        if height != 0 && width > usize::MAX / height {
            proof {
                let m = usize::MAX as int;
                let h = height as int;
                let w = width as int;
                vstd::arithmetic::div_mod::lemma_fundamental_div_mod(m, h);
                vstd::arithmetic::div_mod::lemma_mod_bound(m, h);
                assert(w * h > m) by (nonlinear_arith)
                    requires
                        m == h * (m / h) + m % h,
                        0 <= m % h < h,
                        w >= m / h + 1,
                        h >= 1,
                {}
            }
            return None;
        }
        proof {
            if height != 0 {
                let m = usize::MAX as int;
                let h = height as int;
                let w = width as int;
                vstd::arithmetic::div_mod::lemma_fundamental_div_mod(m, h);
                vstd::arithmetic::div_mod::lemma_mod_bound(m, h);
                let q = m / h;
                let r = m % h;
                assert(w * h <= m) by (nonlinear_arith)
                    requires
                        m == h * q + r,
                        r >= 0,
                        0 <= w <= q,
                        h >= 1,
                {}
            }
        }
        let cells: usize = width * height;
        if count == cells {
            Some(Bitmap { width, height, pixels })
        } else {
            None
        }
    }

    /// An independent copy with the same dimensions and pixels.
    pub fn duplicate(&self) -> (r: Bitmap)
        ensures
            r.width == self.width,
            r.height == self.height,
            r.pixels@ == self.pixels@,
    {
        let mut out: Vec<Pixel> = Vec::new();
        let mut i: usize = 0;
        while i < self.pixels.len()
            invariant
                i <= self.pixels@.len(),
                out@ == self.pixels@.take(i as int),
            decreases self.pixels@.len() - i,
        {
            out.push(self.pixels[i]);
            proof {
                assert(out@ =~= self.pixels@.take(i + 1));
            }
            i = i + 1;
        }
        proof {
            assert(out@ =~= self.pixels@);
        }
        Bitmap { width: self.width, height: self.height, pixels: out }
    }
}

} // verus!
