//! Node-local time.
use vstd::prelude::*;

verus! {

/// Node-local frame and duration.
#[derive(Debug, Clone, Copy, PartialEq, Eq)]
pub struct NodeTimeCtx {
    /// Node-local frame before clamping; may be negative or past the duration.
    pub local_frame_i64: i64,
    /// Node duration in frames.
    pub duration_frames: u32,
}

impl NodeTimeCtx {
    /// Whether the local frame lies in `0..duration_frames`.
    pub fn is_in_range(self) -> (r: bool)
        ensures
            r == (0 <= self.local_frame_i64 < self.duration_frames),
    {
        self.local_frame_i64 >= 0 && self.local_frame_i64 < self.duration_frames as i64
    }

    /// Duration in frames.
    pub fn duration_frames_u64(self) -> (r: u64)
        ensures
            r == self.duration_frames,
    {
        self.duration_frames as u64
    }

    /// `time.frame` for expressions: the local frame clamped to `[0, duration]` (inclusive).
    pub fn time_frame_u64(self) -> (r: u64)
        ensures
            r == if self.local_frame_i64 < 0 { 0 } else if self.local_frame_i64 > self.duration_frames { self.duration_frames as int } else { self.local_frame_i64 as int },
    {
        let dur = self.duration_frames as i64;
        if self.local_frame_i64 < 0 {
            0
        } else if self.local_frame_i64 > dur {
            dur as u64
        } else {
            self.local_frame_i64 as u64
        }
    }

    /// Sampling frame for animations: the local frame clamped to `[0, duration - 1]`
    /// (`0` for an empty duration).
    pub fn sample_frame_u64(self) -> (r: u64)
        ensures
            self.duration_frames == 0 ==> r == 0,
            self.duration_frames > 0 ==> r == if self.local_frame_i64 < 0 { 0 } else if self.local_frame_i64 > self.duration_frames - 1 {
                self.duration_frames - 1
            } else {
                self.local_frame_i64 as int
            },
    {
        let dur = self.duration_frames_u64();
        if dur == 0 {
            return 0;
        }
        let max = (dur - 1) as i64;
        if self.local_frame_i64 < 0 {
            0
        } else if self.local_frame_i64 > max {
            max as u64
        } else {
            self.local_frame_i64 as u64
        }
    }
}

/// Inside the node's range the sampling frame and the expression frame are both the local frame;
/// and the sampling frame never exceeds the expression frame.
pub proof fn law_time_frames_agree_in_range(t: NodeTimeCtx, tf: int, sf: int)
    requires
        tf == (if t.local_frame_i64 < 0 { 0 } else if t.local_frame_i64 > t.duration_frames { t.duration_frames as int } else { t.local_frame_i64 as int }),
        sf == (if t.duration_frames == 0 { 0 } else if t.local_frame_i64 < 0 { 0 } else if t.local_frame_i64 > t.duration_frames - 1 { t.duration_frames - 1 } else { t.local_frame_i64 as int }),
    ensures
        sf <= tf,
        0 <= t.local_frame_i64 < t.duration_frames ==> sf == t.local_frame_i64 && tf == t.local_frame_i64,
{
}

} // verus!
