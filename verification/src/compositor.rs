//! Folding a masked frame into the accumulating canvas.

use vstd::prelude::*;

use crate::bitmap::{Bitmap, Pixel};

verus! {

/// Which of the two compositing strategies a run uses.
///
/// `Overlay` pairs with the alpha change mask: the first frame to claim a
/// pixel wins. `Accumulate` pairs with the grayscale change mask: masked
/// channel values are summed with saturation.
#[derive(Clone, Copy, PartialEq, Eq, Structural, Debug)]
pub enum Strategy {
    Overlay,
    Accumulate,
}

/// Addition of two channel values, clamped at 255; it never wraps.
pub open spec fn sat_add(a: u8, b: u8) -> u8 {
    if a + b > 255 {
        255u8
    } else {
        (a + b) as u8
    }
}

/// Overlay fold, one pixel: where the source pixel's alpha marks it
/// changed and the canvas pixel is still unclaimed (alpha below 1), the
/// source colours are copied in and the canvas pixel is made opaque;
/// everywhere else the canvas pixel is kept.
pub open spec fn overlay_pixel(canvas: Pixel, src: Pixel) -> Pixel {
    if src.a > 1 && canvas.a < 1 {
        Pixel { r: src.r, g: src.g, b: src.b, a: 255u8 }
    } else {
        canvas
    }
}

/// Accumulate fold, one pixel: colour channels are added with
/// saturation; alpha is not part of the three-channel model and stays.
pub open spec fn accumulate_pixel(canvas: Pixel, src: Pixel) -> Pixel {
    Pixel {
        r: sat_add(canvas.r, src.r),
        g: sat_add(canvas.g, src.g),
        b: sat_add(canvas.b, src.b),
        a: canvas.a,
    }
}

/// Overlay fold over a whole grid.
pub open spec fn overlay_seq(canvas: Seq<Pixel>, src: Seq<Pixel>) -> Seq<Pixel> {
    Seq::new(canvas.len(), |i: int| overlay_pixel(canvas[i], src[i]))
}

/// Accumulate fold over a whole grid.
pub open spec fn accumulate_seq(canvas: Seq<Pixel>, src: Seq<Pixel>) -> Seq<Pixel> {
    Seq::new(canvas.len(), |i: int| accumulate_pixel(canvas[i], src[i]))
}

/// A grid with every alpha forced to the given value, colours kept.
pub open spec fn with_alpha_seq(p: Seq<Pixel>, a: u8) -> Seq<Pixel> {
    Seq::new(p.len(), |i: int| Pixel { r: p[i].r, g: p[i].g, b: p[i].b, a: a })
}

/// Folds `src` into `canvas` by the overlay rule: a changed source pixel
/// claims a still-unclaimed canvas pixel; later claims are ignored.
pub fn overlay_fold(canvas: &mut Bitmap, src: &Bitmap)
    requires
        old(canvas).wf(),
        src.wf(),
        old(canvas).same_dims(src),
    ensures
        final(canvas).wf(),
        final(canvas).width == old(canvas).width,
        final(canvas).height == old(canvas).height,
        final(canvas).pixels@ == overlay_seq(old(canvas).pixels@, src.pixels@),
{
    let n = canvas.pixels.len();
    let mut i: usize = 0;
    while i < n
        invariant
            n == old(canvas).pixels@.len(),
            i <= n,
            canvas.width == old(canvas).width,
            canvas.height == old(canvas).height,
            canvas.pixels@.len() == n,
            src.pixels@.len() == n,
            forall|k: int|
                0 <= k < i ==> canvas.pixels@[k] == overlay_pixel(
                    old(canvas).pixels@[k],
                    src.pixels@[k],
                ),
            forall|k: int| i <= k < n ==> canvas.pixels@[k] == old(canvas).pixels@[k],
        decreases n - i,
    {
        let t = canvas.pixels[i];
        let s = src.pixels[i];
        if s.a > 1 && t.a < 1 {
            canvas.pixels.set(i, Pixel { r: s.r, g: s.g, b: s.b, a: 255 });
        }
        i = i + 1;
    }
    proof {
        assert(canvas.pixels@ =~= overlay_seq(old(canvas).pixels@, src.pixels@));
    }
}

/// Folds `src` into `canvas` by the accumulate rule: channel values are
/// added with saturation, so repeated change builds brightness up and
/// the sum is clamped at 255 instead of wrapping.
pub fn accumulate_fold(canvas: &mut Bitmap, src: &Bitmap)
    requires
        old(canvas).wf(),
        src.wf(),
        old(canvas).same_dims(src),
    ensures
        final(canvas).wf(),
        final(canvas).width == old(canvas).width,
        final(canvas).height == old(canvas).height,
        final(canvas).pixels@ == accumulate_seq(old(canvas).pixels@, src.pixels@),
{
    let n = canvas.pixels.len();
    let mut i: usize = 0;
    while i < n
        invariant
            n == old(canvas).pixels@.len(),
            i <= n,
            canvas.width == old(canvas).width,
            canvas.height == old(canvas).height,
            canvas.pixels@.len() == n,
            src.pixels@.len() == n,
            forall|k: int|
                0 <= k < i ==> canvas.pixels@[k] == accumulate_pixel(
                    old(canvas).pixels@[k],
                    src.pixels@[k],
                ),
            forall|k: int| i <= k < n ==> canvas.pixels@[k] == old(canvas).pixels@[k],
        decreases n - i,
    {
        let t = canvas.pixels[i];
        let s = src.pixels[i];
        let r: u8 = if 255 - t.r < s.r {
            255
        } else {
            t.r + s.r
        };
        let g: u8 = if 255 - t.g < s.g {
            255
        } else {
            t.g + s.g
        };
        let b: u8 = if 255 - t.b < s.b {
            255
        } else {
            t.b + s.b
        };
        canvas.pixels.set(i, Pixel { r, g, b, a: t.a });
        i = i + 1;
    }
    proof {
        assert(canvas.pixels@ =~= accumulate_seq(old(canvas).pixels@, src.pixels@));
    }
}

/// Forces every pixel's alpha to the given value, keeping the colours.
/// With 0 it seeds the overlay canvas (fully transparent base image);
/// with 255 it finalizes the overlay canvas (no transparency left).
pub fn set_all_alpha(canvas: &mut Bitmap, a: u8)
    requires
        old(canvas).wf(),
    ensures
        final(canvas).wf(),
        final(canvas).width == old(canvas).width,
        final(canvas).height == old(canvas).height,
        final(canvas).pixels@ == with_alpha_seq(old(canvas).pixels@, a),
{
    let n = canvas.pixels.len();
    let mut i: usize = 0;
    while i < n
        invariant
            n == old(canvas).pixels@.len(),
            i <= n,
            canvas.width == old(canvas).width,
            canvas.height == old(canvas).height,
            canvas.pixels@.len() == n,
            forall|k: int|
                0 <= k < i ==> canvas.pixels@[k] == (Pixel {
                    r: old(canvas).pixels@[k].r,
                    g: old(canvas).pixels@[k].g,
                    b: old(canvas).pixels@[k].b,
                    a: a,
                }),
            forall|k: int| i <= k < n ==> canvas.pixels@[k] == old(canvas).pixels@[k],
        decreases n - i,
    {
        let t = canvas.pixels[i];
        canvas.pixels.set(i, Pixel { r: t.r, g: t.g, b: t.b, a });
        i = i + 1;
    }
    proof {
        assert(canvas.pixels@ =~= with_alpha_seq(old(canvas).pixels@, a));
    }
}

/// Saturating addition never wraps: the sum is clamped at 255, is never
/// below either operand, and equals the exact sum whenever that fits.
pub proof fn lemma_sat_add_never_wraps(a: u8, b: u8)
    ensures
        sat_add(a, b) <= 255,
        sat_add(a, b) >= a,
        sat_add(a, b) >= b,
        a + b <= 255 ==> sat_add(a, b) == a + b,
{
}

/// The accumulate fold never darkens the canvas: every channel of every
/// folded pixel is at least what the canvas already held there.
pub proof fn lemma_accumulate_never_darkens(canvas: Seq<Pixel>, src: Seq<Pixel>)
    ensures
        forall|i: int|
            0 <= i < canvas.len() ==> (#[trigger] accumulate_seq(canvas, src)[i]).r >= canvas[i].r
                && accumulate_seq(canvas, src)[i].g >= canvas[i].g && accumulate_seq(
                canvas,
                src,
            )[i].b >= canvas[i].b,
{
}

} // verus!
