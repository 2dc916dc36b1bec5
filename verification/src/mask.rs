//! Change detection: marking the pixels of a frame that differ from a
//! reference frame by more than a threshold.

use vstd::prelude::*;

use crate::bitmap::{Bitmap, Pixel};

verus! {

/// Absolute difference of two channel values, computed without underflow.
pub open spec fn abs_diff(a: u8, b: u8) -> int {
    if a >= b {
        a - b
    } else {
        b - a
    }
}

/// The larger of two channel values.
pub open spec fn max_channel(a: u8, b: u8) -> u8 {
    if a >= b {
        a
    } else {
        b
    }
}

/// A pixel counts as changed when some colour channel moved by strictly
/// more than the threshold. Threshold 0 lets any non-zero difference
/// count; threshold 255 can never be exceeded.
pub open spec fn pixel_changed(cur: Pixel, refp: Pixel, threshold: u8) -> bool {
    ||| abs_diff(cur.r, refp.r) > threshold
    ||| abs_diff(cur.g, refp.g) > threshold
    ||| abs_diff(cur.b, refp.b) > threshold
}

/// Alpha strategy, one pixel: colours kept, alpha turned fully opaque
/// where the pixel changed and fully transparent where it did not.
pub open spec fn alpha_masked(cur: Pixel, refp: Pixel, threshold: u8) -> Pixel {
    Pixel {
        r: cur.r,
        g: cur.g,
        b: cur.b,
        a: if pixel_changed(cur, refp, threshold) {
            255u8
        } else {
            0u8
        },
    }
}

/// Grayscale strategy, one channel: full intensity where the channel
/// moved by more than the threshold, zero where it did not.
pub open spec fn channel_masked(cur: u8, refc: u8, threshold: u8) -> u8 {
    if abs_diff(cur, refc) > threshold {
        255u8
    } else {
        0u8
    }
}

/// Grayscale strategy, one pixel: each colour channel is differenced on
/// its own, then the channel-wise maximum is written back into all three
/// colour channels, leaving a gray highlight. Alpha is left as it was
/// (the grayscale strategy is the three-channel one).
pub open spec fn gray_masked(cur: Pixel, refp: Pixel, threshold: u8) -> Pixel {
    let v = max_channel(
        max_channel(
            channel_masked(cur.r, refp.r, threshold),
            channel_masked(cur.g, refp.g, threshold),
        ),
        channel_masked(cur.b, refp.b, threshold),
    );
    Pixel { r: v, g: v, b: v, a: cur.a }
}

/// The alpha mask of a whole pixel grid.
pub open spec fn alpha_mask_seq(cur: Seq<Pixel>, refr: Seq<Pixel>, threshold: u8) -> Seq<Pixel> {
    Seq::new(cur.len(), |i: int| alpha_masked(cur[i], refr[i], threshold))
}

/// The grayscale mask of a whole pixel grid.
pub open spec fn gray_mask_seq(cur: Seq<Pixel>, refr: Seq<Pixel>, threshold: u8) -> Seq<Pixel> {
    Seq::new(cur.len(), |i: int| gray_masked(cur[i], refr[i], threshold))
}

/// Turns `cur` into its own alpha change mask against `reference`:
/// colours stay, alpha becomes 255 on changed pixels and 0 elsewhere.
pub fn alpha_mask(cur: &mut Bitmap, reference: &Bitmap, threshold: u8)
    requires
        old(cur).wf(),
        reference.wf(),
        old(cur).same_dims(reference),
    ensures
        final(cur).wf(),
        final(cur).width == old(cur).width,
        final(cur).height == old(cur).height,
        final(cur).pixels@ == alpha_mask_seq(old(cur).pixels@, reference.pixels@, threshold),
{
    let n = cur.pixels.len();
    let mut i: usize = 0;
    while i < n
        invariant
            n == old(cur).pixels@.len(),
            i <= n,
            cur.width == old(cur).width,
            cur.height == old(cur).height,
            cur.pixels@.len() == n,
            reference.pixels@.len() == n,
            forall|k: int|
                0 <= k < i ==> cur.pixels@[k] == alpha_masked(
                    old(cur).pixels@[k],
                    reference.pixels@[k],
                    threshold,
                ),
            forall|k: int| i <= k < n ==> cur.pixels@[k] == old(cur).pixels@[k],
        decreases n - i,
    {
        let p = cur.pixels[i];
        let q = reference.pixels[i];
        let dr = if p.r >= q.r {
            p.r - q.r
        } else {
            q.r - p.r
        };
        let dg = if p.g >= q.g {
            p.g - q.g
        } else {
            q.g - p.g
        };
        let db = if p.b >= q.b {
            p.b - q.b
        } else {
            q.b - p.b
        };
        let changed = dr > threshold || dg > threshold || db > threshold;
        let a: u8 = if changed {
            255
        } else {
            0
        };
        cur.pixels.set(i, Pixel { r: p.r, g: p.g, b: p.b, a });
        i = i + 1;
    }
    proof {
        assert(cur.pixels@ =~= alpha_mask_seq(old(cur).pixels@, reference.pixels@, threshold));
    }
}

/// Turns `cur` into its own grayscale change mask against `reference`:
/// every colour channel becomes the channel-wise maximum of the
/// per-channel difference masks; alpha stays as it was.
pub fn gray_mask(cur: &mut Bitmap, reference: &Bitmap, threshold: u8)
    requires
        old(cur).wf(),
        reference.wf(),
        old(cur).same_dims(reference),
    ensures
        final(cur).wf(),
        final(cur).width == old(cur).width,
        final(cur).height == old(cur).height,
        final(cur).pixels@ == gray_mask_seq(old(cur).pixels@, reference.pixels@, threshold),
{
    let n = cur.pixels.len();
    let mut i: usize = 0;
    while i < n
        invariant
            n == old(cur).pixels@.len(),
            i <= n,
            cur.width == old(cur).width,
            cur.height == old(cur).height,
            cur.pixels@.len() == n,
            reference.pixels@.len() == n,
            forall|k: int|
                0 <= k < i ==> cur.pixels@[k] == gray_masked(
                    old(cur).pixels@[k],
                    reference.pixels@[k],
                    threshold,
                ),
            forall|k: int| i <= k < n ==> cur.pixels@[k] == old(cur).pixels@[k],
        decreases n - i,
    {
        let p = cur.pixels[i];
        let q = reference.pixels[i];
        let dr = if p.r >= q.r {
            p.r - q.r
        } else {
            q.r - p.r
        };
        let dg = if p.g >= q.g {
            p.g - q.g
        } else {
            q.g - p.g
        };
        let db = if p.b >= q.b {
            p.b - q.b
        } else {
            q.b - p.b
        };
        let mr: u8 = if dr > threshold {
            255
        } else {
            0
        };
        let mg: u8 = if dg > threshold {
            255
        } else {
            0
        };
        let mb: u8 = if db > threshold {
            255
        } else {
            0
        };
        let mut v: u8 = if mr >= mg {
            mr
        } else {
            mg
        };
        if mb > v {
            v = mb;
        }
        cur.pixels.set(i, Pixel { r: v, g: v, b: v, a: p.a });
        i = i + 1;
    }
    proof {
        assert(cur.pixels@ =~= gray_mask_seq(old(cur).pixels@, reference.pixels@, threshold));
    }
}

/// Two identical bitmaps produce an all-unchanged mask, whatever the
/// threshold: the alpha mask is fully transparent and the grayscale mask
/// is fully black.
pub proof fn lemma_identical_frames_unchanged(p: Seq<Pixel>, threshold: u8)
    ensures
        forall|i: int| 0 <= i < p.len() ==> (#[trigger] alpha_mask_seq(p, p, threshold)[i]).a == 0,
        forall|i: int|
            0 <= i < p.len() ==> (#[trigger] gray_mask_seq(p, p, threshold)[i]).r == 0
                && gray_mask_seq(p, p, threshold)[i].g == 0 && gray_mask_seq(p, p, threshold)[i].b
                == 0,
{
}

/// Raising the threshold can only shrink or preserve the set of pixels
/// marked changed: a pixel that clears the higher threshold clears the
/// lower one too.
pub proof fn lemma_threshold_monotone(cur: Pixel, refp: Pixel, lo: u8, hi: u8)
    requires
        lo <= hi,
    ensures
        pixel_changed(cur, refp, hi) ==> pixel_changed(cur, refp, lo),
{
}

/// The same monotonicity over whole masks: every pixel the alpha mask
/// marks changed at the higher threshold is marked changed at the lower
/// one, and likewise for the grayscale mask.
pub proof fn lemma_threshold_monotone_seq(cur: Seq<Pixel>, refr: Seq<Pixel>, lo: u8, hi: u8)
    requires
        lo <= hi,
    ensures
        forall|i: int|
            0 <= i < cur.len() && (#[trigger] alpha_mask_seq(cur, refr, hi)[i]).a == 255
                ==> alpha_mask_seq(cur, refr, lo)[i].a == 255,
        forall|i: int|
            0 <= i < cur.len() && (#[trigger] gray_mask_seq(cur, refr, hi)[i]).r == 255
                ==> gray_mask_seq(cur, refr, lo)[i].r == 255,
{
}

} // verus!
