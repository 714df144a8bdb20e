//! Frame sinks and backend options.
use vstd::prelude::*;
use crate::error::WavyteError;
use crate::timeline::{Fps, FrameIndex};

verus! {

/// A rendered frame as premultiplied RGBA8 bytes, tightly packed, row-major.
#[derive(Clone, Debug)]
pub struct FrameRGBA {
    /// Frame width in pixels.
    pub width: u32,
    /// Frame height in pixels.
    pub height: u32,
    /// Premultiplied RGBA8 bytes.
    pub data: Vec<u8>,
}

/// Raw PCM audio input for sinks that encode audio.
#[derive(Debug, Clone)]
pub struct AudioInputConfig {
    /// Path to interleaved `f32le` PCM data.
    pub path: String,
    /// Sample rate in Hz.
    pub sample_rate: u32,
    /// Channel count.
    pub channels: u16,
}

/// Configuration handed to a sink at the start of a range render.
#[derive(Debug, Clone)]
pub struct SinkConfig {
    /// Output width in pixels.
    pub width: u32,
    /// Output height in pixels.
    pub height: u32,
    /// Output frames-per-second.
    pub fps: Fps,
    /// Optional raw PCM audio input.
    pub audio: Option<AudioInputConfig>,
}

/// Consumer of rendered frames in timeline order.
///
/// `begin` is called once before any frame, `push_frame` once per frame in strictly increasing
/// index order, and `end` once after the last frame.
pub trait FrameSink {
    /// Called once before any frame is pushed.
    fn begin(&mut self, cfg: SinkConfig) -> Result<(), WavyteError>;
    /// Push one frame in strictly increasing timeline order.
    fn push_frame(&mut self, idx: FrameIndex, frame: &FrameRGBA) -> Result<(), WavyteError>;
    /// Called once after the last frame is pushed.
    fn end(&mut self) -> Result<(), WavyteError>;
}

/// Two audio inputs name the same file with the same sample rate and channel count.
pub open spec fn same_audio(a: Option<AudioInputConfig>, b: Option<AudioInputConfig>) -> bool {
    match (a, b) {
        (Some(x), Some(y)) => x.path@ == y.path@ && x.sample_rate == y.sample_rate && x.channels == y.channels,
        (None, None) => true,
        _ => false,
    }
}

/// In-memory sink for tests and debugging.
#[derive(Debug)]
pub struct InMemorySink {
    cfg: Option<SinkConfig>,
    frames: Vec<(FrameIndex, FrameRGBA)>,
}

impl InMemorySink {
    /// Configuration captured by `begin`, if any.
    pub closed spec fn spec_config(&self) -> Option<SinkConfig> {
        self.cfg
    }

    /// Frames captured so far, in push order.
    pub closed spec fn spec_frames(&self) -> Seq<(FrameIndex, FrameRGBA)> {
        self.frames@
    }

    /// A sink with no configuration and no frames.
    pub fn new() -> (r: Self)
        ensures
            r.spec_config() is None,
            r.spec_frames().len() == 0,
    {
        InMemorySink { cfg: None, frames: Vec::new() }
    }

    /// The configuration captured by `begin`, if any.
    pub fn config(&self) -> (r: Option<SinkConfig>)
        ensures
            r is Some <==> self.spec_config() is Some,
            r matches Some(c) ==> self.spec_config() matches Some(s) && c.width == s.width && c.height == s.height && c.fps == s.fps
                && same_audio(c.audio, s.audio),
    {
        match &self.cfg {
            Some(c) => {
                let audio = match &c.audio {
                    Some(a) => Some(AudioInputConfig { path: a.path.clone(), sample_rate: a.sample_rate, channels: a.channels }),
                    None => None,
                };
                Some(SinkConfig { width: c.width, height: c.height, fps: c.fps, audio })
            },
            None => None,
        }
    }

    /// The captured frames, in push order.
    pub fn frames(&self) -> (r: &[(FrameIndex, FrameRGBA)])
        ensures
            r@ == self.spec_frames(),
    {
        self.frames.as_slice()
    }

    /// Record the configuration and drop any earlier frames.
    pub fn begin(&mut self, cfg: SinkConfig) -> (r: Result<(), WavyteError>)
        ensures
            r is Ok,
            final(self).spec_config() == Some(cfg),
            final(self).spec_frames().len() == 0,
    {
        self.cfg = Some(cfg);
        self.frames.clear();
        Ok(())
    }

    /// Append a copy of the frame.
    pub fn push_frame(&mut self, idx: FrameIndex, frame: &FrameRGBA) -> (r: Result<(), WavyteError>)
        ensures
            r is Ok,
            final(self).spec_config() == old(self).spec_config(),
            final(self).spec_frames().len() == old(self).spec_frames().len() + 1,
            forall|i: int| 0 <= i < old(self).spec_frames().len() ==> final(self).spec_frames()[i] == old(self).spec_frames()[i],
            final(self).spec_frames().last().0 == idx,
            final(self).spec_frames().last().1.width == frame.width,
            final(self).spec_frames().last().1.height == frame.height,
            final(self).spec_frames().last().1.data@ == frame.data@,
    {
        let copy = FrameRGBA { width: frame.width, height: frame.height, data: copy_vec(&frame.data) };
        self.frames.push((idx, copy));
        Ok(())
    }

    /// Finish; nothing to flush.
    pub fn end(&mut self) -> (r: Result<(), WavyteError>)
        ensures
            r is Ok,
            final(self).spec_config() == old(self).spec_config(),
            final(self).spec_frames() == old(self).spec_frames(),
    {
        Ok(())
    }
}

/// `after` is `before` with a copy of frame `frame` at index `idx` appended.
pub open spec fn pushed_one(before: Seq<(FrameIndex, FrameRGBA)>, after: Seq<(FrameIndex, FrameRGBA)>, idx: FrameIndex, frame: FrameRGBA) -> bool {
    &&& after.len() == before.len() + 1
    &&& forall|i: int| 0 <= i < before.len() ==> after[i] == before[i]
    &&& after.last().0 == idx
    &&& after.last().1.width == frame.width
    &&& after.last().1.height == frame.height
    &&& after.last().1.data@ == frame.data@
}

/// Frame `k` of `frames` is the `k`-th pushed frame: same index, size and pixels.
pub open spec fn holds_pushes(frames: Seq<(FrameIndex, FrameRGBA)>, pushes: Seq<(FrameIndex, FrameRGBA)>, j: int) -> bool {
    &&& frames.len() == j
    &&& forall|k: int| 0 <= k < j ==> (#[trigger] frames[k]).0 == pushes[k].0 && frames[k].1.width == pushes[k].1.width
        && frames[k].1.height == pushes[k].1.height && frames[k].1.data@ == pushes[k].1.data@
}

/// After `begin`, a run of `push_frame` calls leaves exactly the pushed frames, in push
/// order: `states[0]` is the sink after `begin`, `states[k + 1]` the sink after pushing
/// `pushes[k]` (a frame index and the frame).
pub proof fn law_frames_are_the_pushes_in_order(states: Seq<InMemorySink>, pushes: Seq<(FrameIndex, FrameRGBA)>)
    requires
        states.len() == pushes.len() + 1,
        states[0].spec_frames().len() == 0,
        forall|k: int| 0 <= k < pushes.len() ==>
            pushed_one(#[trigger] states[k].spec_frames(), states[k + 1].spec_frames(), pushes[k].0, pushes[k].1),
    ensures
        holds_pushes(states.last().spec_frames(), pushes, pushes.len() as int),
{
    lemma_pushes_prefix(states, pushes, pushes.len() as int);
}

proof fn lemma_pushes_prefix(states: Seq<InMemorySink>, pushes: Seq<(FrameIndex, FrameRGBA)>, j: int)
    requires
        0 <= j <= pushes.len(),
        states.len() == pushes.len() + 1,
        states[0].spec_frames().len() == 0,
        forall|k: int| 0 <= k < pushes.len() ==>
            pushed_one(#[trigger] states[k].spec_frames(), states[k + 1].spec_frames(), pushes[k].0, pushes[k].1),
    ensures
        holds_pushes(states[j].spec_frames(), pushes, j),
    decreases j,
{
    if j > 0 {
        lemma_pushes_prefix(states, pushes, j - 1);
        let before = states[j - 1].spec_frames();
        let after = states[j].spec_frames();
        assert(pushed_one(before, after, pushes[j - 1].0, pushes[j - 1].1));
        assert forall|k: int| 0 <= k < j implies (#[trigger] after[k]).0 == pushes[k].0 && after[k].1.width == pushes[k].1.width
            && after[k].1.height == pushes[k].1.height && after[k].1.data@ == pushes[k].1.data@ by {
            if k < j - 1 {
                assert(after[k] == before[k]);
            }
        }
    }
}

/// After `begin(cfg)`, any run of `push_frame` and `end` calls keeps the configuration:
/// `states[0]` is the sink after `begin`, and each later state keeps its predecessor's
/// configuration, as both calls' contracts say; `config` then returns a copy of `cfg`.
pub proof fn law_config_is_kept_after_begin(states: Seq<InMemorySink>, cfg: SinkConfig, k: int)
    requires
        states.len() > 0,
        states[0].spec_config() == Some(cfg),
        forall|j: int| 0 <= j < states.len() - 1 ==> (#[trigger] states[j + 1]).spec_config() == states[j].spec_config(),
        0 <= k < states.len(),
    ensures
        states[k].spec_config() == Some(cfg),
    decreases k,
{
    if k > 0 {
        law_config_is_kept_after_begin(states, cfg, k - 1);
        assert(states[(k - 1) + 1].spec_config() == states[k - 1].spec_config());
    }
}

impl FrameSink for InMemorySink {
    fn begin(&mut self, cfg: SinkConfig) -> (r: Result<(), WavyteError>)
        ensures
            r is Ok,
            final(self).spec_config() == Some(cfg),
            final(self).spec_frames().len() == 0,
    {
        InMemorySink::begin(self, cfg)
    }

    fn push_frame(&mut self, idx: FrameIndex, frame: &FrameRGBA) -> (r: Result<(), WavyteError>)
        ensures
            r is Ok,
            final(self).spec_config() == old(self).spec_config(),
            final(self).spec_frames().len() == old(self).spec_frames().len() + 1,
            forall|i: int| 0 <= i < old(self).spec_frames().len() ==> final(self).spec_frames()[i] == old(self).spec_frames()[i],
            final(self).spec_frames().last().0 == idx,
            final(self).spec_frames().last().1.width == frame.width,
            final(self).spec_frames().last().1.height == frame.height,
            final(self).spec_frames().last().1.data@ == frame.data@,
    {
        InMemorySink::push_frame(self, idx, frame)
    }

    fn end(&mut self) -> (r: Result<(), WavyteError>)
        ensures
            r is Ok,
            final(self).spec_config() == old(self).spec_config(),
            final(self).spec_frames() == old(self).spec_frames(),
    {
        InMemorySink::end(self)
    }
}

fn copy_vec(v: &Vec<u8>) -> (r: Vec<u8>)
    ensures
        r@ == v@,
{
    let mut out: Vec<u8> = Vec::new();
    let n = v.len();
    let mut i: usize = 0;
    while i < n
        invariant
            n == v@.len(),
            i <= n,
            out@ == v@.take(i as int),
        decreases n - i,
    {
        out.push(v[i]);
        assert(v@.take(i + 1) =~= v@.take(i as int).push(v@[i as int]));
        i = i + 1;
    }
    assert(v@.take(n as int) =~= v@);
    out
}

/// Options for the MP4 sink driven by the system `ffmpeg`.
#[derive(Clone, Debug)]
pub struct FfmpegSinkOpts {
    /// Output MP4 file path.
    pub out_path: String,
    /// Overwrite the output file if it exists.
    pub overwrite: bool,
    /// Background colour used to flatten alpha (straight RGBA8).
    pub bg_rgba: [u8; 4],
}

impl FfmpegSinkOpts {
    /// Options writing to `out_path`, overwriting, over opaque black.
    pub fn new(out_path: String) -> (r: Self)
        ensures
            r.out_path@ == out_path@,
            r.overwrite,
            r.bg_rgba@ == seq![0u8, 0u8, 0u8, 255u8],
    {
        let r = FfmpegSinkOpts { out_path, overwrite: true, bg_rgba: [0, 0, 0, 255] };
        assert(r.bg_rgba@ =~= seq![0u8, 0u8, 0u8, 255u8]);
        r
    }
}

/// Bounds of the surface pool used by the CPU backend.
#[derive(Debug, Clone, Copy, PartialEq, Eq)]
pub struct SurfacePoolOpts {
    /// Maximum bytes retained across all buckets.
    pub max_pool_bytes: usize,
    /// Maximum surfaces retained per `(width, height, format)` bucket.
    pub max_surfaces_per_bucket: usize,
}

impl SurfacePoolOpts {
    /// 256 MiB across all buckets, 8 surfaces per bucket.
    pub fn default_opts() -> (r: Self)
        ensures
            r.max_pool_bytes == 256 * 1024 * 1024,
            r.max_surfaces_per_bucket == 8,
    {
        SurfacePoolOpts { max_pool_bytes: 256 * 1024 * 1024, max_surfaces_per_bucket: 8 }
    }
}

/// Options for the CPU backend.
#[derive(Debug, Clone, Copy, PartialEq, Eq)]
pub struct CpuBackendOpts {
    /// Surface pool bounds.
    pub pool: SurfacePoolOpts,
    /// Clear colour of the final output surface, if any.
    pub clear_rgba: Option<[u8; 4]>,
}

impl CpuBackendOpts {
    /// Default pool bounds and no clear colour.
    pub fn default_opts() -> (r: Self)
        ensures
            r.pool.max_pool_bytes == 256 * 1024 * 1024,
            r.pool.max_surfaces_per_bucket == 8,
            r.clear_rgba is None,
    {
        CpuBackendOpts { pool: SurfacePoolOpts::default_opts(), clear_rgba: None }
    }

    /// The same options with the given clear colour for the final output surface.
    pub fn with_clear_rgba(self, clear: Option<[u8; 4]>) -> (r: Self)
        ensures
            r.pool == self.pool,
            r.clear_rgba == clear,
    {
        CpuBackendOpts { pool: self.pool, clear_rgba: clear }
    }
}

} // verus!
