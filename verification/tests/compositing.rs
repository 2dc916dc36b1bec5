use strobe::bitmap::{Bitmap, Pixel};
use strobe::compositor::{accumulate_fold, overlay_fold, set_all_alpha, Strategy};
use strobe::driver::{check_input, compose, extraction_status, Settings};
use strobe::frames::TraceError;
use strobe::progress::Progress;

fn px(r: u8, g: u8, b: u8, a: u8) -> Pixel {
    Pixel { r, g, b, a }
}

fn gray(v: u8) -> Pixel {
    Pixel { r: v, g: v, b: v, a: 255 }
}

fn bitmap(width: usize, height: usize, pixels: Vec<Pixel>) -> Bitmap {
    assert_eq!(pixels.len(), width * height);
    Bitmap {
        width,
        height,
        pixels,
    }
}

fn settings(threshold: u32, from_first: bool) -> Settings {
    Settings {
        input_path: Some("video.mp4".to_string()),
        fps: 15,
        from_first,
        threshold,
    }
}

#[test]
fn overlay_end_to_end_first_claim_wins() {
    let black = px(0, 0, 0, 255);
    let white = px(255, 255, 255, 255);
    let frames = vec![
        bitmap(2, 1, vec![black, black]),
        bitmap(2, 1, vec![white, black]),
        bitmap(2, 1, vec![black, white]),
    ];
    let (canvas, _) = compose(frames, &settings(10, true), Strategy::Overlay);
    assert_eq!(canvas.width, 2);
    assert_eq!(canvas.height, 1);
    assert_eq!((canvas.pixels[0].r, canvas.pixels[0].g, canvas.pixels[0].b), (255, 255, 255), "pixel 0 claimed by frame 2");
    assert_eq!((canvas.pixels[1].r, canvas.pixels[1].g, canvas.pixels[1].b), (255, 255, 255), "pixel 1 claimed by frame 3");
    assert_eq!(canvas.pixels[0].a, 255, "final canvas is fully opaque");
    assert_eq!(canvas.pixels[1].a, 255, "final canvas is fully opaque");
}

#[test]
fn overlay_later_claim_at_taken_pixel_is_ignored() {
    let black = px(0, 0, 0, 255);
    let frames = vec![
        bitmap(1, 1, vec![black]),
        bitmap(1, 1, vec![px(200, 0, 0, 255)]),
        bitmap(1, 1, vec![px(0, 200, 0, 255)]),
    ];
    let (canvas, _) = compose(frames, &settings(10, true), Strategy::Overlay);
    assert_eq!((canvas.pixels[0].r, canvas.pixels[0].g, canvas.pixels[0].b), (200, 0, 0), "the first frame to claim the pixel wins");
}

#[test]
fn accumulate_unchanged_region_contributes_nothing() {
    let frames = vec![bitmap(1, 1, vec![gray(200)]), bitmap(1, 1, vec![gray(200)])];
    let (canvas, _) = compose(frames, &settings(5, true), Strategy::Accumulate);
    let p = canvas.pixels[0];
    assert_eq!((p.r, p.g, p.b), (200, 200, 200), "canvas stays equal to the first frame");
}

#[test]
fn accumulate_saturates_at_255_never_wraps() {
    let mut canvas = bitmap(1, 1, vec![gray(250)]);
    let masked = bitmap(1, 1, vec![px(255, 255, 255, 255)]);
    accumulate_fold(&mut canvas, &masked);
    let p = canvas.pixels[0];
    assert_eq!((p.r, p.g, p.b), (255, 255, 255));
    assert!(p.r >= 250, "saturating addition never drops below the old value");
}

#[test]
fn overlay_fold_respects_claim_rules() {
    let mut canvas = bitmap(2, 1, vec![px(1, 1, 1, 0), px(2, 2, 2, 255)]);
    let src = bitmap(2, 1, vec![px(9, 9, 9, 255), px(8, 8, 8, 255)]);
    overlay_fold(&mut canvas, &src);
    assert_eq!(canvas.pixels[0], px(9, 9, 9, 255), "unclaimed pixel is claimed");
    assert_eq!(canvas.pixels[1], px(2, 2, 2, 255), "claimed pixel is kept");

    let mut untouched = bitmap(1, 1, vec![px(1, 1, 1, 0)]);
    let transparent = bitmap(1, 1, vec![px(9, 9, 9, 0)]);
    overlay_fold(&mut untouched, &transparent);
    assert_eq!(untouched.pixels[0], px(1, 1, 1, 0), "an unchanged source pixel claims nothing");
}

#[test]
fn set_all_alpha_clears_and_finalizes() {
    let mut b = bitmap(2, 1, vec![px(5, 6, 7, 200), px(8, 9, 10, 0)]);
    set_all_alpha(&mut b, 0);
    assert_eq!(b.pixels[0], px(5, 6, 7, 0));
    set_all_alpha(&mut b, 255);
    assert_eq!(b.pixels[1], px(8, 9, 10, 255));
}

#[test]
fn progress_events_follow_the_exact_schedule() {
    let frames: Vec<Bitmap> = (0..4).map(|_| bitmap(1, 1, vec![gray(0)])).collect();
    let (_, events) = compose(frames, &settings(40, false), Strategy::Overlay);
    assert_eq!(
        events,
        vec![
            Progress::VideoDecode,
            Progress::Compare(1, 3),
            Progress::Compare(2, 3),
            Progress::Compare(3, 3),
            Progress::Finish,
        ]
    );
}

#[test]
fn fixed_first_and_sliding_previous_differ() {
    // Brightness creeps up in small steps: against the first frame the
    // last step clears the threshold, against the previous frame it
    // never does.
    let frames = || {
        vec![
            bitmap(1, 1, vec![gray(0)]),
            bitmap(1, 1, vec![gray(100)]),
            bitmap(1, 1, vec![gray(200)]),
        ]
    };
    let (fixed, _) = compose(frames(), &settings(150, true), Strategy::Overlay);
    assert_eq!((fixed.pixels[0].r, fixed.pixels[0].g, fixed.pixels[0].b), (200, 200, 200), "frame 3 differs from frame 1 by 200");

    let (sliding, _) = compose(frames(), &settings(150, false), Strategy::Overlay);
    assert_eq!((sliding.pixels[0].r, sliding.pixels[0].g, sliding.pixels[0].b), (0, 0, 0), "no step of 100 clears threshold 150");
    assert_eq!(sliding.pixels[0].a, 255);
}

#[test]
fn accumulate_builds_brightness_where_change_repeats() {
    // The pixel flips far enough every frame, so each of the three
    // comparisons contributes a full 255 that saturates the sum.
    let frames = vec![
        bitmap(1, 1, vec![gray(10)]),
        bitmap(1, 1, vec![gray(240)]),
        bitmap(1, 1, vec![gray(10)]),
        bitmap(1, 1, vec![gray(240)]),
    ];
    let (canvas, events) = compose(frames, &settings(100, false), Strategy::Accumulate);
    let p = canvas.pixels[0];
    assert_eq!((p.r, p.g, p.b), (255, 255, 255));
    assert_eq!(events.len(), 5, "three comparisons plus start and finish");
}

#[test]
fn configuration_and_extraction_errors() {
    let none = Settings {
        input_path: None,
        fps: 15,
        from_first: false,
        threshold: 40,
    };
    assert!(matches!(check_input(&none), Err(TraceError::NoInput)));
    assert!(check_input(&settings(40, true)).is_ok());

    assert!(extraction_status(true, 0).is_ok());
    match extraction_status(false, 1) {
        Err(TraceError::Extraction(code)) => assert_eq!(code, 1),
        other => panic!("expected an extraction error, got {other:?}"),
    }
}

#[test]
fn from_pixels_checks_the_grid() {
    let b = Bitmap::from_pixels(2, 2, vec![gray(1); 4]).unwrap();
    assert_eq!(b.width, 2);
    assert_eq!(b.pixels.len(), 4);
    assert!(Bitmap::from_pixels(2, 2, vec![gray(1); 3]).is_none());
    assert!(Bitmap::from_pixels(usize::MAX, 3, Vec::new()).is_none());
}

#[test]
fn duplicate_copies_every_pixel() {
    let b = bitmap(2, 1, vec![px(1, 2, 3, 4), px(5, 6, 7, 8)]);
    let c = b.duplicate();
    assert_eq!(c.width, 2);
    assert_eq!(c.height, 1);
    assert_eq!(c.pixels, b.pixels);
}
