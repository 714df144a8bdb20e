//! Timeline-to-sample conversion for the audio mix.
use vstd::prelude::*;
use crate::timeline::Fps;

verus! {

/// Nearest sample index of a frame delta: `round(frame_delta * sample_rate * den / num)`,
/// rounding halves up, reduced modulo `2^64`.
pub open spec fn spec_frame_to_sample(frame_delta: u64, fps: Fps, sample_rate: u32) -> u64 {
    (((frame_delta as int * sample_rate as int * fps.den as int + fps.num as int / 2) / fps.num as int)
        % 0x1_0000_0000_0000_0000) as u64
}

/// Convert a frame delta to the nearest sample index at `sample_rate` (rational FPS aware).
pub fn frame_to_sample(frame_delta: u64, fps: Fps, sample_rate: u32) -> (r: u64)
    requires
        fps.num > 0,
    ensures
        r == spec_frame_to_sample(frame_delta, fps, sample_rate),
{
    let a = frame_delta as u128;
    let b = sample_rate as u128;
    let c = fps.den as u128;
    proof {
        assert(a * b <= 0xffff_ffff_ffff_ffffu128 * 0xffff_ffffu128) by (nonlinear_arith)
            requires a <= 0xffff_ffff_ffff_ffffu128, b <= 0xffff_ffffu128;
        assert(a * b * c <= 0xffff_ffff_ffff_ffffu128 * 0xffff_ffffu128 * 0xffff_ffffu128) by (nonlinear_arith)
            requires a * b <= 0xffff_ffff_ffff_ffffu128 * 0xffff_ffffu128, c <= 0xffff_ffffu128;
    }
    let num = a * b * c;
    let den = fps.num as u128;
    let q = (num + den / 2) / den;
    assert(q as u64 == (q % 0x1_0000_0000_0000_0000u128) as u64) by (bit_vector);
    q as u64
}

} // verus!
