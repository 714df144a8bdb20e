//! Core timeline value types.
use vstd::prelude::*;
use crate::error::WavyteError;

verus! {

/// Rational frames-per-second `num / den`.
#[derive(Debug, Clone, Copy, PartialEq, Eq)]
pub struct Fps {
    /// Numerator.
    pub num: u32,
    /// Denominator.
    pub den: u32,
}

/// Index of a frame on the composition timeline.
#[derive(Debug, Clone, Copy, PartialEq, Eq)]
pub struct FrameIndex(pub u64);

/// Half-open frame range `start..end`.
#[derive(Debug, Clone, Copy, PartialEq, Eq)]
pub struct FrameRange {
    /// First frame.
    pub start: FrameIndex,
    /// One past the last frame.
    pub end: FrameIndex,
}

impl FrameRange {
    /// The range `start..end`; an error when `start > end`.
    pub fn new(start: FrameIndex, end: FrameIndex) -> (r: Result<FrameRange, WavyteError>)
        ensures
            r is Ok <==> start.0 <= end.0,
            r matches Ok(fr) ==> fr.start == start && fr.end == end,
            r matches Err(e) ==> e is Validation,
    {
        if start.0 > end.0 {
            return Err(WavyteError::validation("frame range start must be <= end"));
        }
        Ok(FrameRange { start, end })
    }

    /// Number of frames in the range (`0` when `end <= start`).
    pub fn len_frames(&self) -> (r: u64)
        ensures
            r == if self.end.0 >= self.start.0 { self.end.0 - self.start.0 } else { 0 },
    {
        self.end.0.saturating_sub(self.start.0)
    }

    /// Whether the range holds no frame.
    pub fn is_empty(&self) -> (r: bool)
        ensures
            r == (self.end.0 <= self.start.0),
    {
        self.end.0 <= self.start.0
    }
}

} // verus!
