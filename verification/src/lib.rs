//! Stroboscopic image compositing.
//!
//! Builds a single still image out of an ordered sequence of video frames:
//! each frame is compared pixel by pixel against a reference frame, and the
//! pixels that changed beyond a threshold are folded into an accumulating
//! canvas, either by a first-write-wins overlay or by a saturating sum.

pub mod bitmap;
pub mod compositor;
pub mod driver;
pub mod frames;
pub mod mask;
pub mod progress;
