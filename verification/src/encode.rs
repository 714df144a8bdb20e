//! Decisions of the MP4 encoder sink: which configurations and frames it accepts, and the
//! exact `ffmpeg` command line it runs.
use vstd::prelude::*;
use crate::error::{WavyteError, WavyteResult};
use crate::sink::{AudioInputConfig, FrameRGBA, SinkConfig};
use crate::text::{decimal, push_decimal, push_str};
use crate::timeline::FrameIndex;

verus! {

/// A sink configuration the encoder accepts: non-zero fps, non-zero even dimensions.
pub fn check_sink_config(cfg: &SinkConfig) -> (r: WavyteResult<()>)
    ensures
        (cfg.fps.num == 0 || cfg.fps.den == 0) ==> (r matches Err(WavyteError::Validation(m)) && m@ == "fps must be non-zero"@),
        (cfg.fps.num != 0 && cfg.fps.den != 0 && (cfg.width == 0 || cfg.height == 0)) ==>
            (r matches Err(WavyteError::Validation(m)) && m@ == "ffmpeg sink width/height must be non-zero"@),
        (cfg.fps.num != 0 && cfg.fps.den != 0 && cfg.width != 0 && cfg.height != 0 && (cfg.width % 2 != 0 || cfg.height % 2 != 0)) ==>
            (r matches Err(WavyteError::Validation(m)) && m@ == "ffmpeg sink width/height must be even (required for yuv420p mp4 output)"@),
        r is Ok <==> (cfg.fps.num != 0 && cfg.fps.den != 0 && cfg.width != 0 && cfg.height != 0 && cfg.width % 2 == 0 && cfg.height % 2 == 0),
{
    if cfg.fps.num == 0 || cfg.fps.den == 0 {
        return Err(WavyteError::validation("fps must be non-zero"));
    }
    if cfg.width == 0 || cfg.height == 0 {
        return Err(WavyteError::validation("ffmpeg sink width/height must be non-zero"));
    }
    if cfg.width % 2 != 0 || cfg.height % 2 != 0 {
        return Err(WavyteError::validation("ffmpeg sink width/height must be even (required for yuv420p mp4 output)"));
    }
    Ok(())
}

/// An audio input the encoder accepts: non-zero sample rate and channel count.
pub fn check_audio_input(a: &AudioInputConfig) -> (r: WavyteResult<()>)
    ensures
        a.sample_rate == 0 ==> (r matches Err(WavyteError::Validation(m)) && m@ == "audio sample_rate must be non-zero when audio is enabled"@),
        a.sample_rate != 0 && a.channels == 0 ==> (r matches Err(WavyteError::Validation(m)) && m@ == "audio channels must be non-zero when audio is enabled"@),
        r is Ok <==> (a.sample_rate != 0 && a.channels != 0),
{
    if a.sample_rate == 0 {
        return Err(WavyteError::validation("audio sample_rate must be non-zero when audio is enabled"));
    }
    if a.channels == 0 {
        return Err(WavyteError::validation("audio channels must be non-zero when audio is enabled"));
    }
    Ok(())
}

/// The `ffmpeg` arguments for raw RGBA frames of `cfg` on standard input (plus optional raw
/// `f32le` audio), encoded as H.264 `yuv420p` MP4 into `out_path`.
pub open spec fn ffmpeg_args_spec(cfg: SinkConfig, overwrite: bool, out_path: Seq<char>) -> Seq<Seq<char>> {
    let head = seq![if overwrite { "-y"@ } else { "-n"@ }, "-loglevel"@, "error"@, "-f"@, "rawvideo"@, "-pix_fmt"@, "rgba"@,
        "-s"@, decimal(cfg.width as nat) + "x"@ + decimal(cfg.height as nat),
        "-r"@, decimal(cfg.fps.num as nat) + "/"@ + decimal(cfg.fps.den as nat),
        "-i"@, "pipe:0"@];
    let tail = match cfg.audio {
        Some(a) => seq!["-f"@, "f32le"@, "-ar"@, decimal(a.sample_rate as nat), "-ac"@, decimal(a.channels as nat), "-i"@, a.path@,
            "-c:v"@, "libx264"@, "-pix_fmt"@, "yuv420p"@, "-c:a"@, "aac"@, "-shortest"@, "-movflags"@, "+faststart"@],
        None => seq!["-an"@, "-c:v"@, "libx264"@, "-pix_fmt"@, "yuv420p"@, "-movflags"@, "+faststart"@],
    };
    head + tail + seq![out_path]
}

/// Views of a list of strings.
pub open spec fn strings_view(v: Seq<String>) -> Seq<Seq<char>> {
    Seq::new(v.len(), |i: int| v[i]@)
}

proof fn lemma_sv_push(v: Seq<String>, x: String)
    ensures
        strings_view(v.push(x)) == strings_view(v).push(x@),
{
    assert(strings_view(v.push(x)) =~= strings_view(v).push(x@));
}

fn push_one(v: &mut Vec<String>, x: String)
    ensures
        strings_view(final(v)@) == strings_view(old(v)@).push(x@),
{
    proof {
        lemma_sv_push(v@, x);
    }
    v.push(x);
}

fn lit(s: &str) -> (r: String)
    ensures
        r@ == s@,
{
    String::from_str(s)
}

fn push_all(v: &mut Vec<String>, words: &[&str])
    ensures
        strings_view(final(v)@) == strings_view(old(v)@) + Seq::new(words@.len(), |i: int| words@[i]@),
{
    let mut i: usize = 0;
    while i < words.len()
        invariant
            i <= words@.len(),
            strings_view(v@) == strings_view(old(v)@) + Seq::new(i as nat, |j: int| words@[j]@),
        decreases words@.len() - i,
    {
        push_one(v, lit(words[i]));
        i = i + 1;
        assert(strings_view(v@) =~= strings_view(old(v)@) + Seq::new(i as nat, |j: int| words@[j]@));
    }
}

fn pair_text(a: u64, sep: &str, b: u64) -> (r: String)
    ensures
        r@ == decimal(a as nat) + sep@ + decimal(b as nat),
{
    let mut s = String::new();
    push_decimal(&mut s, a);
    push_str(&mut s, sep);
    push_decimal(&mut s, b);
    assert(s@ =~= decimal(a as nat) + sep@ + decimal(b as nat));
    s
}

/// The `ffmpeg` command line for this configuration (see [`ffmpeg_args_spec`]).
pub fn ffmpeg_args(cfg: &SinkConfig, overwrite: bool, out_path: &String) -> (r: Vec<String>)
    ensures
        strings_view(r@) == ffmpeg_args_spec(*cfg, overwrite, out_path@),
{
    let mut v: Vec<String> = Vec::new();
    push_one(&mut v, lit(if overwrite { "-y" } else { "-n" }));
    push_all(&mut v, &["-loglevel", "error", "-f", "rawvideo", "-pix_fmt", "rgba", "-s"]);
    push_one(&mut v, pair_text(cfg.width as u64, "x", cfg.height as u64));
    push_one(&mut v, lit("-r"));
    push_one(&mut v, pair_text(cfg.fps.num as u64, "/", cfg.fps.den as u64));
    push_all(&mut v, &["-i", "pipe:0"]);
    proof {
        let head = seq![if overwrite { "-y"@ } else { "-n"@ }, "-loglevel"@, "error"@, "-f"@, "rawvideo"@, "-pix_fmt"@, "rgba"@,
            "-s"@, decimal(cfg.width as nat) + "x"@ + decimal(cfg.height as nat),
            "-r"@, decimal(cfg.fps.num as nat) + "/"@ + decimal(cfg.fps.den as nat),
            "-i"@, "pipe:0"@];
        assert(strings_view(v@) =~= head);
    }
    let ghost hv = strings_view(v@);
    match &cfg.audio {
        Some(a) => {
            push_all(&mut v, &["-f", "f32le", "-ar"]);
            let mut sr = String::new();
            push_decimal(&mut sr, a.sample_rate as u64);
            push_one(&mut v, sr);
            push_one(&mut v, lit("-ac"));
            let mut ch = String::new();
            push_decimal(&mut ch, a.channels as u64);
            push_one(&mut v, ch);
            push_one(&mut v, lit("-i"));
            push_one(&mut v, a.path.clone());
            push_all(&mut v, &["-c:v", "libx264", "-pix_fmt", "yuv420p", "-c:a", "aac", "-shortest", "-movflags", "+faststart"]);
            proof {
                let tail = seq!["-f"@, "f32le"@, "-ar"@, decimal(a.sample_rate as nat), "-ac"@, decimal(a.channels as nat), "-i"@, a.path@,
                    "-c:v"@, "libx264"@, "-pix_fmt"@, "yuv420p"@, "-c:a"@, "aac"@, "-shortest"@, "-movflags"@, "+faststart"@];
                assert(strings_view(v@) =~= hv + tail);
            }
        },
        None => {
            push_all(&mut v, &["-an", "-c:v", "libx264", "-pix_fmt", "yuv420p", "-movflags", "+faststart"]);
            proof {
                let tail = seq!["-an"@, "-c:v"@, "libx264"@, "-pix_fmt"@, "yuv420p"@, "-movflags"@, "+faststart"@];
                assert(strings_view(v@) =~= hv + tail);
            }
        },
    }
    push_one(&mut v, out_path.clone());
    proof {
        assert(strings_view(v@) =~= ffmpeg_args_spec(*cfg, overwrite, out_path@));
    }
    v
}

/// Frames must reach the encoder in strictly increasing index order.
#[derive(Debug, Clone, Copy)]
pub struct FrameOrderGate {
    /// Index of the last frame accepted.
    pub last: Option<FrameIndex>,
}

impl FrameOrderGate {
    /// A gate that has accepted nothing.
    pub fn new() -> (g: Self)
        ensures
            g.last is None,
    {
        FrameOrderGate { last: None }
    }

    /// Accept frame `idx` if it comes after the last accepted frame, and remember it
    /// when accepted.
    pub fn accept(&mut self, idx: FrameIndex) -> (r: WavyteResult<()>)
        ensures
            r is Ok <==> (old(self).last matches Some(l) ==> l.0 < idx.0),
            r is Ok ==> final(self).last == Some(idx),
            r matches Err(e) ==> final(self).last == old(self).last
                && (e matches WavyteError::Evaluation(m) && m@ == "ffmpeg sink received out-of-order frame index"@),
    {
        if let Some(l) = self.last {
            if idx.0 <= l.0 {
                return Err(WavyteError::evaluation("ffmpeg sink received out-of-order frame index"));
            }
        }
        self.last = Some(idx);
        Ok(())
    }
}

/// The message for a frame of the wrong size.
pub open spec fn size_mismatch_text(gw: u32, gh: u32, ew: u32, eh: u32) -> Seq<char> {
    "frame size mismatch: got "@ + decimal(gw as nat) + "x"@ + decimal(gh as nat) + ", expected "@ + decimal(ew as nat) + "x"@ + decimal(eh as nat)
}

/// A frame the encoder accepts: the configured size, with `expected_len` bytes.
pub fn check_frame_size(width: u32, height: u32, frame: &FrameRGBA, expected_len: usize) -> (r: WavyteResult<()>)
    ensures
        (frame.width != width || frame.height != height) ==>
            (r matches Err(WavyteError::Validation(m)) && m@ == size_mismatch_text(frame.width, frame.height, width, height)),
        (frame.width == width && frame.height == height && frame.data@.len() != expected_len) ==>
            (r matches Err(WavyteError::Validation(m)) && m@ == "frame.data size mismatch with width*height*4"@),
        r is Ok <==> (frame.width == width && frame.height == height && frame.data@.len() == expected_len),
{
    if frame.width != width || frame.height != height {
        let mut m = String::new();
        push_str(&mut m, "frame size mismatch: got ");
        push_decimal(&mut m, frame.width as u64);
        push_str(&mut m, "x");
        push_decimal(&mut m, frame.height as u64);
        push_str(&mut m, ", expected ");
        push_decimal(&mut m, width as u64);
        push_str(&mut m, "x");
        push_decimal(&mut m, height as u64);
        proof {
            assert(m@ =~= size_mismatch_text(frame.width, frame.height, width, height));
        }
        return Err(WavyteError::Validation(m));
    }
    if frame.data.len() != expected_len {
        return Err(WavyteError::validation("frame.data size mismatch with width*height*4"));
    }
    Ok(())
}


/// The video encoder arguments: H.264 in `yuv420p`.
pub open spec fn h264_yuv420p() -> Seq<Seq<char>> {
    seq!["-c:v"@, "libx264"@, "-pix_fmt"@, "yuv420p"@]
}

/// Whatever the audio input, the command line encodes video as H.264 `yuv420p`: the video
/// encoder arguments stand right after the inputs (the frames, then the audio if any), the
/// same with or without audio, and the output path comes last.
pub proof fn law_ffmpeg_video_is_h264_yuv420p(cfg: SinkConfig, overwrite: bool, out_path: Seq<char>)
    ensures
        ({
            let args = ffmpeg_args_spec(cfg, overwrite, out_path);
            let k: int = if cfg.audio is Some { 21 } else { 14 };
            &&& args.subrange(k, k + 4) == h264_yuv420p()
            &&& args.subrange(k - 2, k) == (if cfg.audio is Some { seq!["-i"@, cfg.audio->0.path@] } else { seq!["pipe:0"@, "-an"@] })
            &&& args.last() == out_path
        }),
        ffmpeg_args_spec(cfg, overwrite, out_path).subrange(if cfg.audio is Some { 21 } else { 14 }, if cfg.audio is Some { 25int } else { 18int })
            == ffmpeg_args_spec(SinkConfig { audio: None, ..cfg }, overwrite, out_path).subrange(14, 18),
{
    let args = ffmpeg_args_spec(cfg, overwrite, out_path);
    let k: int = if cfg.audio is Some { 21 } else { 14 };
    assert(args.subrange(k, k + 4) =~= h264_yuv420p());
    let none = ffmpeg_args_spec(SinkConfig { audio: None, ..cfg }, overwrite, out_path);
    assert(none.subrange(14, 18) =~= h264_yuv420p());
    if cfg.audio is Some {
        assert(args.subrange(k - 2, k) =~= seq!["-i"@, cfg.audio->0.path@]);
    } else {
        assert(args.subrange(k - 2, k) =~= seq!["pipe:0"@, "-an"@]);
    }
}

} // verus!
