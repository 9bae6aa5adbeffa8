//! Which of the generated frames are rendered.
use vstd::prelude::*;

verus! {

/// The frames `start..end` that are rendered out of `n_frames` generated
/// ones: both bounds are clamped to the last frame, and `end` is never before
/// `start`.
pub open spec fn spec_frame_range(start: usize, end: usize, n_frames: usize) -> (usize, usize) {
    let last = (n_frames - 1) as usize;
    let s = if start < last { start } else { last };
    let e = if end < last { end } else { last };
    (s, if e < s { s } else { e })
}

/// Clamps a requested frame range to the frames that exist.
pub fn frame_range(start: usize, end: usize, n_frames: usize) -> (r: (usize, usize))
    requires
        n_frames >= 1,
    ensures
        r == spec_frame_range(start, end, n_frames),
        r.0 <= r.1 < n_frames,
{
    let last = n_frames - 1;
    let s = if start < last { start } else { last };
    let e = if end < last { end } else { last };
    (s, if e < s { s } else { e })
}

} // verus!
