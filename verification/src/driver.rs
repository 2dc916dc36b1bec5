//! The run itself: seed the canvas from the first frame, fold every
//! later frame in, and report each milestone.

use vstd::prelude::*;

use crate::bitmap::{Bitmap, Pixel};
use crate::compositor::{
    accumulate_fold, accumulate_seq, overlay_fold, overlay_seq, set_all_alpha, with_alpha_seq,
    Strategy,
};
use crate::frames::TraceError;
use crate::mask::{alpha_mask, alpha_mask_seq, gray_mask, gray_mask_seq};
use crate::progress::{schedule, Progress};

verus! {

/// The configuration of one run, immutable while it lasts.
#[derive(Clone, Debug)]
pub struct Settings {
    /// Where the input video lives; a run without one is refused.
    pub input_path: Option<String>,
    /// Sampling rate handed to the frame extractor, frames per second.
    pub fps: u32,
    /// Reference mode: with `true` every frame is diffed against the
    /// very first frame; with `false` against the previous frame.
    pub from_first: bool,
    /// Change threshold, 0 to 255.
    pub threshold: u32,
}

impl Settings {
    /// The values a run accepts: at least one frame per second, and a
    /// threshold that fits one 8-bit channel.
    pub open spec fn valid(&self) -> bool {
        self.fps >= 1 && self.threshold <= 255
    }
}

/// The configuration check before anything runs: starting without an
/// input file is refused.
pub fn check_input(set: &Settings) -> (r: Result<(), TraceError>)
    ensures
        match r {
            Ok(u) => set.input_path is Some,
            Err(e) => set.input_path is None && e is NoInput,
        },
{
    if set.input_path.is_some() {
        Result::Ok(())
    } else {
        Result::Err(TraceError::NoInput)
    }
}

/// Judges the frame extractor's exit: a non-zero completion status is
/// fatal and is signalled with that status code.
pub fn extraction_status(success: bool, code: i32) -> (r: Result<(), TraceError>)
    ensures
        match r {
            Ok(u) => success,
            Err(e) => !success && e == TraceError::Extraction(code),
        },
{
    if success {
        Result::Ok(())
    } else {
        Result::Err(TraceError::Extraction(code))
    }
}

/// The pixel grids of a frame sequence.
pub open spec fn frame_views(frames: Seq<Bitmap>) -> Seq<Seq<Pixel>> {
    frames.map_values(|b: Bitmap| b.pixels@)
}

/// The change mask a strategy uses: alpha for overlay, grayscale for
/// accumulate.
pub open spec fn mask_for(
    cur: Seq<Pixel>,
    refr: Seq<Pixel>,
    threshold: u8,
    strat: Strategy,
) -> Seq<Pixel> {
    match strat {
        Strategy::Overlay => alpha_mask_seq(cur, refr, threshold),
        Strategy::Accumulate => gray_mask_seq(cur, refr, threshold),
    }
}

/// The fold a strategy uses: first-write-wins for overlay, saturating
/// sum for accumulate.
pub open spec fn fold_for(canvas: Seq<Pixel>, masked: Seq<Pixel>, strat: Strategy) -> Seq<Pixel> {
    match strat {
        Strategy::Overlay => overlay_seq(canvas, masked),
        Strategy::Accumulate => accumulate_seq(canvas, masked),
    }
}

/// The canvas seed: the first frame, with its alpha cleared for the
/// overlay strategy and untouched for the accumulate strategy.
pub open spec fn seed_for(first: Seq<Pixel>, strat: Strategy) -> Seq<Pixel> {
    match strat {
        Strategy::Overlay => with_alpha_seq(first, 0),
        Strategy::Accumulate => first,
    }
}

/// The finishing touch: the overlay canvas is forced fully opaque; the
/// accumulate canvas is handed over as it stands.
pub open spec fn finish_for(canvas: Seq<Pixel>, strat: Strategy) -> Seq<Pixel> {
    match strat {
        Strategy::Overlay => with_alpha_seq(canvas, 255),
        Strategy::Accumulate => canvas,
    }
}

/// Canvas and reference after the first `k` comparisons: frame 0 seeds
/// both, then frame `j` (1 <= j <= k) is masked against the reference
/// and folded in; the reference stays frame 0 under `from_first` and
/// otherwise becomes the just-compared frame's pre-mask pixels.
pub open spec fn run_state(
    frames: Seq<Seq<Pixel>>,
    k: int,
    threshold: u8,
    from_first: bool,
    strat: Strategy,
) -> (Seq<Pixel>, Seq<Pixel>)
    decreases k,
{
    if k <= 0 {
        (seed_for(frames[0], strat), frames[0])
    } else {
        let prev = run_state(frames, k - 1, threshold, from_first, strat);
        let masked = mask_for(frames[k], prev.1, threshold, strat);
        (
            fold_for(prev.0, masked, strat),
            if from_first {
                prev.1
            } else {
                frames[k]
            },
        )
    }
}

/// The finished canvas of a whole run over these frames.
pub open spec fn composed(
    frames: Seq<Seq<Pixel>>,
    threshold: u8,
    from_first: bool,
    strat: Strategy,
) -> Seq<Pixel> {
    finish_for(run_state(frames, frames.len() - 1, threshold, from_first, strat).0, strat)
}

/// Runs the whole composite over an ordered, already decoded frame
/// sequence: seeds the canvas from the first frame, masks and folds
/// every later frame in order, finishes the canvas, and returns it
/// together with the exact milestone sequence a live run reports.
pub fn compose(frames: Vec<Bitmap>, set: &Settings, strategy: Strategy) -> (r: (
    Bitmap,
    Vec<Progress>,
))
    requires
        set.valid(),
        frames@.len() >= 2,
        forall|i: int|
            0 <= i < frames@.len() ==> (#[trigger] frames@[i]).wf() && frames@[i].width
                == frames@[0].width && frames@[i].height == frames@[0].height,
    ensures
        r.0.wf(),
        r.0.width == frames@[0].width,
        r.0.height == frames@[0].height,
        r.0.pixels@ == composed(
            frame_views(frames@),
            set.threshold as u8,
            set.from_first,
            strategy,
        ),
        r.1@ == schedule((frames@.len() - 1) as usize),
{
    let ghost fv = frame_views(frames@);
    let ghost w0 = frames@[0].width;
    let ghost h0 = frames@[0].height;
    let threshold: u8 = set.threshold as u8;
    let from_first = set.from_first;
    let total = frames.len() - 1;
    let mut events: Vec<Progress> = Vec::new();
    events.push(Progress::VideoDecode);
    proof {
        assert(events@ =~= schedule(total).take(1));
    }
    let mut rest = frames;
    let first = rest.remove(0);
    proof {
        assert(forall|k: int| 0 <= k < total ==> #[trigger] rest@[k].pixels@ == fv[k + 1]);
        assert(first.pixels@ == fv[0]);
    }
    let mut canvas = first.duplicate();
    match strategy {
        Strategy::Overlay => set_all_alpha(&mut canvas, 0),
        Strategy::Accumulate => {},
    }
    let reference_seed = first;
    let mut reference = reference_seed;
    proof {
        assert((canvas.pixels@, reference.pixels@) == run_state(
            fv,
            0,
            threshold,
            from_first,
            strategy,
        ));
    }
    let mut i: usize = 0;
    while i < total
        invariant
            i <= total,
            total + 1 == fv.len(),
            rest@.len() == total,
            forall|k: int|
                0 <= k < total ==> (#[trigger] rest@[k]).wf() && rest@[k].width == w0
                    && rest@[k].height == h0,
            forall|k: int| 0 <= k < total ==> #[trigger] rest@[k].pixels@ == fv[k + 1],
            canvas.wf(),
            canvas.width == w0,
            canvas.height == h0,
            reference.wf(),
            reference.width == w0,
            reference.height == h0,
            (canvas.pixels@, reference.pixels@) == run_state(
                fv,
                i as int,
                threshold,
                from_first,
                strategy,
            ),
            events@ == schedule(total).take(i + 1),
        decreases total - i,
    {
        events.push(Progress::Compare(i + 1, total));
        proof {
            assert(schedule(total)[i + 1] == Progress::Compare((i + 1) as usize, total));
            assert(events@ =~= schedule(total).take(i + 2));
        }
        let mut img = rest[i].duplicate();
        match strategy {
            Strategy::Overlay => alpha_mask(&mut img, &reference, threshold),
            Strategy::Accumulate => gray_mask(&mut img, &reference, threshold),
        }
        proof {
            assert(img.pixels@ == mask_for(
                fv[i + 1],
                run_state(fv, i as int, threshold, from_first, strategy).1,
                threshold,
                strategy,
            ));
        }
        match strategy {
            Strategy::Overlay => overlay_fold(&mut canvas, &img),
            Strategy::Accumulate => accumulate_fold(&mut canvas, &img),
        }
        if !from_first {
            reference = rest[i].duplicate();
        }
        proof {
            assert((canvas.pixels@, reference.pixels@) == run_state(
                fv,
                i + 1,
                threshold,
                from_first,
                strategy,
            ));
        }
        i = i + 1;
    }
    match strategy {
        Strategy::Overlay => set_all_alpha(&mut canvas, 255),
        Strategy::Accumulate => {},
    }
    events.push(Progress::Finish);
    proof {
        assert(canvas.pixels@ == composed(fv, threshold, from_first, strategy));
        assert(events@ =~= schedule(total));
    }
    (canvas, events)
}

} // verus!
