//! Locating a frame among an animation's keyframes.
use vstd::prelude::*;

verus! {

/// Key frames in non-decreasing order.
pub open spec fn sorted(fs: Seq<u64>) -> bool {
    forall|i: int, j: int| 0 <= i <= j < fs.len() ==> fs[i] <= fs[j]
}

/// Where a frame falls among the keys.
#[derive(Debug, Clone, Copy, PartialEq, Eq)]
pub enum KeyPos {
    /// There are no keys.
    NoKeys,
    /// The value of this key holds (before the first key, after the last, or on a segment
    /// of zero frames).
    At(usize),
    /// Between keys `a` and `a + 1`: `offset` frames after key `a` on a segment of `denom > 0`
    /// frames, with `offset < denom`.
    Between { a: usize, offset: u64, denom: u64 },
}

/// The number of keys at or before `frame` (keys sorted).
pub open spec fn keys_at_or_before(fs: Seq<u64>, frame: u64, idx: int) -> bool {
    &&& 0 <= idx <= fs.len()
    &&& forall|i: int| 0 <= i < idx ==> fs[i] <= frame
    &&& forall|i: int| idx <= i < fs.len() ==> fs[i] > frame
}

/// The position of `frame` given the number `idx` of keys at or before it.
pub open spec fn key_pos(fs: Seq<u64>, frame: u64, idx: int) -> KeyPos {
    if fs.len() == 0 {
        KeyPos::NoKeys
    } else if idx == 0 {
        KeyPos::At(0)
    } else if idx >= fs.len() {
        KeyPos::At((fs.len() - 1) as usize)
    } else {
        let a = idx - 1;
        let denom = fs[idx] - fs[a];
        if denom == 0 {
            KeyPos::At(a as usize)
        } else {
            KeyPos::Between { a: a as usize, offset: (frame - fs[a]) as u64, denom: denom as u64 }
        }
    }
}

/// Locate `frame` among sorted key frames: before the first key the first key holds, after the
/// last key the last key holds, otherwise the segment around it (interpolated by the caller at
/// `offset / denom`).
pub fn keyframe_position(frames: &[u64], frame: u64) -> (r: KeyPos)
    requires
        sorted(frames@),
    ensures
        exists|idx: int| keys_at_or_before(frames@, frame, idx) && r == key_pos(frames@, frame, idx),
        r matches KeyPos::Between { a, offset, denom } ==> offset < denom && a + 1 < frames@.len(),
        r matches KeyPos::At(k) ==> k < frames@.len(),
        r is NoKeys <==> frames@.len() == 0,
{
    let n = frames.len();
    let mut lo: usize = 0;
    let mut hi: usize = n;
    while lo < hi
        invariant
            0 <= lo <= hi <= n,
            n == frames@.len(),
            sorted(frames@),
            forall|i: int| 0 <= i < lo ==> frames@[i] <= frame,
            forall|i: int| hi <= i < n ==> frames@[i] > frame,
        decreases hi - lo,
    {
        let mid = lo + (hi - lo) / 2;
        if frames[mid] <= frame {
            lo = mid + 1;
        } else {
            hi = mid;
        }
    }
    let idx = lo;
    assert(keys_at_or_before(frames@, frame, idx as int));
    if n == 0 {
        return KeyPos::NoKeys;
    }
    if idx == 0 {
        return KeyPos::At(0);
    }
    if idx >= n {
        return KeyPos::At(n - 1);
    }
    let a = idx - 1;
    let denom = frames[idx] - frames[a];
    if denom == 0 {
        return KeyPos::At(a);
    }
    KeyPos::Between { a, offset: frame - frames[a], denom }
}

} // verus!
