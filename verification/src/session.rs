//! Decisions of a rendering session: request validation, chunk sizing, static-frame elision,
//! statistics, and in-order delivery of frames that complete out of order.
//!
//! The session's driver (threads, channels, the rasterizer and the sink) performs the work;
//! these functions decide what it does.
use vstd::prelude::*;
use std::collections::HashMap;
use crate::error::{WavyteError, WavyteResult};
use crate::fingerprint::FrameFingerprint;
use crate::timeline::{FrameIndex, FrameRange};

verus! {

broadcast use vstd::std_specs::hash::group_hash_axioms;

/// Upper bound on the bytes of frames a chunk may hold while they wait to be delivered in order.
pub const MAX_REORDER_BUFFER_BYTES: u64 = 134217728;

/// Options controlling range rendering.
#[derive(Debug, Clone, Copy)]
pub struct RenderSessionOpts {
    /// Render frames of a chunk in parallel.
    pub parallel: bool,
    /// Frames per chunk of the render-to-encode pipeline.
    pub chunk_size: usize,
    /// Worker thread count; `None` uses the pool's default.
    pub threads: Option<usize>,
    /// Render each distinct evaluated frame of a chunk once.
    pub static_frame_elision: bool,
    /// Capacity of the channel between workers and the encoder.
    pub channel_capacity: usize,
    /// Mix and attach audio.
    pub enable_audio: bool,
}

impl Default for RenderSessionOpts {
    fn default() -> (r: Self)
        ensures
            !r.parallel,
            r.chunk_size == 64,
            r.threads is None,
            !r.static_frame_elision,
            r.channel_capacity == 4,
            r.enable_audio,
    {
        RenderSessionOpts {
            parallel: false,
            chunk_size: 64,
            threads: None,
            static_frame_elision: false,
            channel_capacity: 4,
            enable_audio: true,
        }
    }
}

/// Range render statistics.
#[derive(Debug, Clone, Copy, PartialEq, Eq)]
pub struct RenderStats {
    /// Frames in the requested range.
    pub frames_total: u64,
    /// Frames actually rendered.
    pub frames_rendered: u64,
    /// Frames served from an identical earlier frame of their chunk.
    pub frames_elided: u64,
}

impl Default for RenderStats {
    fn default() -> (r: Self)
        ensures
            r.frames_total == 0 && r.frames_rendered == 0 && r.frames_elided == 0,
    {
        RenderStats { frames_total: 0, frames_rendered: 0, frames_elided: 0 }
    }
}

impl RenderStats {
    /// Add a chunk's counts to the totals (saturating).
    pub fn add_chunk(&mut self, chunk: RenderStats)
        ensures
            final(self).frames_total == sat_add(old(self).frames_total, chunk.frames_total),
            final(self).frames_rendered == sat_add(old(self).frames_rendered, chunk.frames_rendered),
            final(self).frames_elided == sat_add(old(self).frames_elided, chunk.frames_elided),
    {
        self.frames_total = self.frames_total.saturating_add(chunk.frames_total);
        self.frames_rendered = self.frames_rendered.saturating_add(chunk.frames_rendered);
        self.frames_elided = self.frames_elided.saturating_add(chunk.frames_elided);
    }
}

/// `a + b`, saturating at `u64::MAX`.
pub open spec fn sat_add(a: u64, b: u64) -> u64 {
    if a + b > u64::MAX { u64::MAX } else { (a + b) as u64 }
}

/// Check a single-frame request against the composition's duration.
pub fn check_render_frame(frame: FrameIndex, duration_frames: u64) -> (r: WavyteResult<()>)
    ensures
        r is Ok <==> frame.0 < duration_frames,
        r matches Err(e) ==> e matches WavyteError::Validation(m) && m@ == "render_frame frame must be within composition duration"@,
{
    if frame.0 >= duration_frames {
        return Err(WavyteError::validation("render_frame frame must be within composition duration"));
    }
    Ok(())
}

/// Check a range request: it must hold a frame and end within the composition.
pub fn check_render_range(range: FrameRange, duration_frames: u64) -> (r: WavyteResult<()>)
    ensures
        r is Ok <==> range.start.0 < range.end.0 && range.end.0 <= duration_frames,
        range.end.0 <= range.start.0 ==> (r matches Err(WavyteError::Validation(m))
            && m@ == "render_range range must be non-empty"@),
        range.start.0 < range.end.0 && range.end.0 > duration_frames ==> (r matches Err(WavyteError::Validation(m))
            && m@ == "render_range range must be within composition duration"@),
{
    if range.is_empty() {
        return Err(WavyteError::validation("render_range range must be non-empty"));
    }
    if range.end.0 > duration_frames {
        return Err(WavyteError::validation("render_range range must be within composition duration"));
    }
    Ok(())
}

/// Check the thread-count option.
pub fn check_threads(threads: Option<usize>) -> (r: WavyteResult<()>)
    ensures
        r is Ok <==> threads != Some(0usize),
        r matches Err(e) ==> e matches WavyteError::Validation(m) && m@ == "render_range 'threads' must be >= 1 when set"@,
{
    match threads {
        Some(n) => {
            if n == 0 {
                return Err(WavyteError::validation("render_range 'threads' must be >= 1 when set"));
            }
            Ok(())
        },
        None => Ok(()),
    }
}

/// Requested chunk size, with `0` read as `1`.
pub fn normalized_chunk_size(chunk_size: usize) -> (r: u64)
    ensures
        r == if chunk_size == 0 { 1 } else { chunk_size as u64 },
{
    if chunk_size == 0 { 1 } else { chunk_size as u64 }
}

/// Bytes of one RGBA8 frame (`width * height * 4`, saturating, at least `1`).
pub open spec fn frame_bytes(width: u32, height: u32) -> u64 {
    let b = width as int * height as int * 4;
    if b > u64::MAX { u64::MAX } else if b == 0 { 1 } else { b as u64 }
}

/// Chunk size used for a range: the requested size (at least `1`), no more frames than fit
/// [`MAX_REORDER_BUFFER_BYTES`] (at least one), and no more than the range holds.
pub open spec fn spec_chunk_size(requested: usize, width: u32, height: u32, range_len: u64) -> u64 {
    let by_mem = MAX_REORDER_BUFFER_BYTES / frame_bytes(width, height);
    let by_mem = if by_mem == 0 { 1 } else { by_mem };
    let c = if requested == 0 { 1 } else { requested as u64 };
    let c = if c < by_mem { c } else { by_mem };
    if c < range_len { c } else { range_len }
}

/// Chunk size for a range of `range_len` frames of `width x height` pixels.
pub fn chunk_size_for(requested: usize, width: u32, height: u32, range_len: u64) -> (r: u64)
    ensures
        r == spec_chunk_size(requested, width, height, range_len),
        range_len > 0 ==> 1 <= r <= range_len,
{
    proof {
        assert(width as int * height as int <= 0xffff_fffe_0000_0001) by (nonlinear_arith)
            requires width <= u32::MAX, height <= u32::MAX;
    }
    let wh: u64 = width as u64 * height as u64;
    let b: u64 = if wh > u64::MAX / 4 { u64::MAX } else { wh * 4 };
    let bytes_per_frame = if b < 1 { 1 } else { b };
    assert(bytes_per_frame == frame_bytes(width, height));
    let by_mem0 = MAX_REORDER_BUFFER_BYTES / bytes_per_frame;
    let by_mem = if by_mem0 < 1 { 1 } else { by_mem0 };
    let c = normalized_chunk_size(requested);
    let c = if c < by_mem { c } else { by_mem };
    if c < range_len { c } else { range_len }
}

/// Channel capacity used (at least `1`).
pub fn channel_capacity(requested: usize) -> (r: usize)
    ensures
        r == if requested == 0 { 1 } else { requested },
{
    if requested == 0 { 1 } else { requested }
}

/// End of the chunk that starts at `chunk_start`: `min(chunk_start + chunk_size, range_end)`.
pub fn chunk_end(chunk_start: u64, chunk_size: u64, range_end: u64) -> (r: u64)
    requires
        chunk_start < range_end,
    ensures
        r == if chunk_start + chunk_size < range_end { chunk_start + chunk_size } else { range_end as int },
        chunk_start < r <= range_end || chunk_size == 0,
{
    let room = range_end - chunk_start;
    if chunk_size < room { chunk_start + chunk_size } else { range_end }
}

// ---------------------------------------------------------------------------------------------
// Static-frame elision
// ---------------------------------------------------------------------------------------------

/// Frame `i` is the first of its fingerprint.
pub open spec fn is_first(fps: Seq<FrameFingerprint>, i: int) -> bool {
    forall|j: int| 0 <= j < i ==> fps[j] != fps[i]
}

/// Elision plan of a chunk: `uniq` lists the first frame of each distinct fingerprint, in
/// order; `map[i]` is the position in `uniq` of the frame whose render frame `i` reuses.
pub open spec fn elision_ok(fps: Seq<FrameFingerprint>, uniq: Seq<usize>, map: Seq<usize>) -> bool {
    &&& forall|a: int, b: int| 0 <= a < b < uniq.len() ==> uniq[a] < uniq[b]
    &&& forall|u: int| 0 <= u < uniq.len() ==> (#[trigger] uniq[u] as int) < fps.len() && is_first(fps, uniq[u] as int)
    &&& forall|i: int| 0 <= i < fps.len() && is_first(fps, i) ==> #[trigger] uniq.contains(i as usize)
    &&& map.len() == fps.len()
    &&& forall|i: int| 0 <= i < fps.len() ==> (#[trigger] map[i] as int) < uniq.len() && fps[uniq[map[i] as int] as int] == fps[i]
}

/// Plan static-frame elision for a chunk's frame fingerprints: render the first frame of each
/// distinct fingerprint, and serve every frame from the render of its fingerprint.
pub fn plan_elision(fps: &Vec<FrameFingerprint>) -> (r: (Vec<usize>, Vec<usize>))
    ensures
        elision_ok(fps@, r.0@, r.1@),
{
    let n = fps.len();
    let mut uniq: Vec<usize> = Vec::new();
    let mut map: Vec<usize> = Vec::new();
    let mut i: usize = 0;
    while i < n
        invariant
            n == fps@.len(),
            i <= n,
            forall|a: int, b: int| 0 <= a < b < uniq@.len() ==> uniq@[a] < uniq@[b],
            forall|u: int| 0 <= u < uniq@.len() ==> (#[trigger] uniq@[u] as int) < i && is_first(fps@, uniq@[u] as int),
            forall|k: int| 0 <= k < i && is_first(fps@, k) ==> #[trigger] uniq@.contains(k as usize),
            map@.len() == i,
            forall|k: int| 0 <= k < i ==> (#[trigger] map@[k] as int) < uniq@.len() && fps@[uniq@[map@[k] as int] as int] == fps@[k],
        decreases n - i,
    {
        let f = fps[i];
        let nu = uniq.len();
        let mut u: usize = 0;
        while u < nu && !(fps[uniq[u]].hi == f.hi && fps[uniq[u]].lo == f.lo)
            invariant
                nu == uniq@.len(),
                u <= nu,
                n == fps@.len(),
                i < n,
                f == fps@[i as int],
                forall|w: int| 0 <= w < uniq@.len() ==> (#[trigger] uniq@[w] as int) < i,
                forall|w: int| 0 <= w < u ==> fps@[#[trigger] uniq@[w] as int] != f,
            decreases nu - u,
        {
            u = u + 1;
        }
        if u < nu {
            map.push(u);
        } else {
            let ghost u0 = uniq@;
            proof {
                assert forall|j: int| 0 <= j < i implies fps@[j] != fps@[i as int] by {
                    if fps@[j] == fps@[i as int] {
                        lemma_first_exists(fps@, j);
                        let k = choose|k: int| 0 <= k <= j && fps@[k] == fps@[j] && is_first(fps@, k);
                        assert(uniq@.contains(k as usize));
                        let w = choose|w: int| 0 <= w < uniq@.len() && uniq@[w] == k as usize;
                        assert(fps@[uniq@[w] as int] != f);
                    }
                }
            }
            uniq.push(i);
            map.push(nu);
            proof {
                assert forall|k: int| 0 <= k < i + 1 && is_first(fps@, k) implies #[trigger] uniq@.contains(k as usize) by {
                    if k < i {
                        assert(u0.contains(k as usize));
                        let w = choose|w: int| 0 <= w < u0.len() && u0[w] == k as usize;
                        assert(uniq@[w] == k as usize);
                    } else {
                        assert(uniq@[nu as int] == i);
                    }
                }
            }
        }
        i = i + 1;
    }
    (uniq, map)
}

proof fn lemma_first_exists(fps: Seq<FrameFingerprint>, j: int)
    requires
        0 <= j < fps.len(),
    ensures
        exists|k: int| 0 <= k <= j && fps[k] == fps[j] && is_first(fps, k),
    decreases j,
{
    if !is_first(fps, j) {
        let j2 = choose|j2: int| 0 <= j2 < j && fps[j2] == fps[j];
        lemma_first_exists(fps, j2);
        let k = choose|k: int| 0 <= k <= j2 && fps[k] == fps[j2] && is_first(fps, k);
        assert(0 <= k <= j && fps[k] == fps[j] && is_first(fps, k));
    } else {
        assert(0 <= j <= j && fps[j] == fps[j] && is_first(fps, j));
    }
}

/// Statistics of a chunk of `total` frames of which `rendered` were rendered.
pub fn chunk_stats(total: u64, rendered: u64) -> (s: RenderStats)
    ensures
        s.frames_total == total,
        s.frames_rendered == rendered,
        s.frames_elided == if total >= rendered { total - rendered } else { 0 },
{
    RenderStats { frames_total: total, frames_rendered: rendered, frames_elided: total.saturating_sub(rendered) }
}

// ---------------------------------------------------------------------------------------------
// In-order delivery
// ---------------------------------------------------------------------------------------------

/// Reorders frames that arrive in any order so that they leave in increasing frame order.
pub struct ReorderBuffer<T> {
    next: u64,
    end: u64,
    pending: HashMap<u64, T>,
}

impl<T> ReorderBuffer<T> {
    /// Next frame to deliver.
    pub closed spec fn next_frame(&self) -> u64 {
        self.next
    }

    /// One past the last frame.
    pub closed spec fn end_frame(&self) -> u64 {
        self.end
    }

    /// Frames received and not yet delivered.
    pub closed spec fn waiting(&self) -> Map<u64, T> {
        self.pending@
    }

    /// A buffer for frames `start..end`, nothing received yet.
    pub fn new(start: u64, end: u64) -> (b: Self)
        ensures
            b.next_frame() == start,
            b.end_frame() == end,
            b.waiting() == Map::<u64, T>::empty(),
    {
        ReorderBuffer { next: start, end, pending: HashMap::new() }
    }

    /// Whether every frame has been delivered.
    pub fn is_done(&self) -> (r: bool)
        ensures
            r == (self.next_frame() >= self.end_frame()),
    {
        self.next >= self.end
    }

    /// Record frame `idx`; a frame already waiting under the same index is replaced.
    pub fn receive(&mut self, idx: u64, frame: T)
        ensures
            final(self).next_frame() == old(self).next_frame(),
            final(self).end_frame() == old(self).end_frame(),
            final(self).waiting() == old(self).waiting().insert(idx, frame),
    {
        self.pending.insert(idx, frame);
    }

    /// Take the next frame in order, if it has arrived and is inside the range.
    pub fn take_next(&mut self) -> (r: Option<(FrameIndex, T)>)
        ensures
            final(self).end_frame() == old(self).end_frame(),
            (old(self).next_frame() < old(self).end_frame() && old(self).waiting().contains_key(old(self).next_frame())) ==> {
                &&& r matches Some((i, f))
                &&& i.0 == old(self).next_frame()
                &&& f == old(self).waiting()[old(self).next_frame()]
                &&& final(self).next_frame() == old(self).next_frame() + 1
                &&& final(self).waiting() == old(self).waiting().remove(old(self).next_frame())
            },
            !(old(self).next_frame() < old(self).end_frame() && old(self).waiting().contains_key(old(self).next_frame())) ==> {
                &&& r is None
                &&& final(self).next_frame() == old(self).next_frame()
                &&& final(self).waiting() == old(self).waiting()
            },
    {
        if self.next >= self.end {
            return None;
        }
        let k = self.next;
        match self.pending.remove(&k) {
            Some(f) => {
                self.next = k + 1;
                Some((FrameIndex(k), f))
            },
            None => None,
        }
    }
}

} // verus!
