//! The milestone events a run reports while it works.

use vstd::prelude::*;

verus! {

/// One milestone of a run, reported in strictly increasing order:
/// decoding began, then one comparison per frame after the first
/// (`Compare(i, total)` with `i` running from 1 to `total`), then the
/// run finished.
#[derive(Clone, Copy, PartialEq, Eq, Structural, Debug)]
pub enum Progress {
    VideoDecode,
    Compare(usize, usize),
    Finish,
}

/// The exact event sequence of a run that compares `total` frames:
/// `VideoDecode`, `Compare(1, total)`, ..., `Compare(total, total)`,
/// `Finish`.
pub open spec fn schedule(total: usize) -> Seq<Progress> {
    Seq::new(
        (total + 2) as nat,
        |i: int|
            if i == 0 {
                Progress::VideoDecode
            } else if i <= total {
                Progress::Compare(i as usize, total)
            } else {
                Progress::Finish
            },
    )
}

/// The shape of the schedule: `VideoDecode` opens it, the comparison
/// indices run strictly increasing from 1 to `total`, and `Finish`
/// closes it.
pub proof fn lemma_schedule_shape(total: usize)
    ensures
        schedule(total).len() == total + 2,
        schedule(total)[0] == Progress::VideoDecode,
        forall|i: int|
            1 <= i <= total ==> schedule(total)[i] == Progress::Compare(i as usize, total),
        schedule(total)[total + 1] == Progress::Finish,
{
}

} // verus!
