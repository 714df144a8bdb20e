use wavyte::encode::{check_audio_input, check_frame_size, check_sink_config, ffmpeg_args, FrameOrderGate};
use wavyte::sink::{AudioInputConfig, FrameRGBA, InMemorySink, SinkConfig};
use wavyte::timeline::{Fps, FrameIndex};

fn cfg(w: u32, h: u32, num: u32, den: u32, audio: Option<AudioInputConfig>) -> SinkConfig {
    SinkConfig { width: w, height: h, fps: Fps { num, den }, audio }
}

#[test]
fn sink_config_checks_in_order() {
    assert_eq!(check_sink_config(&cfg(0, 0, 0, 1, None)).unwrap_err().message(), "fps must be non-zero");
    assert_eq!(check_sink_config(&cfg(0, 2, 30, 1, None)).unwrap_err().message(), "ffmpeg sink width/height must be non-zero");
    assert_eq!(
        check_sink_config(&cfg(3, 2, 30, 1, None)).unwrap_err().message(),
        "ffmpeg sink width/height must be even (required for yuv420p mp4 output)"
    );
    assert!(check_sink_config(&cfg(4, 2, 30000, 1001, None)).is_ok());
    let a = AudioInputConfig { path: "mix.f32le".to_string(), sample_rate: 0, channels: 2 };
    assert_eq!(check_audio_input(&a).unwrap_err().message(), "audio sample_rate must be non-zero when audio is enabled");
    let a = AudioInputConfig { path: "mix.f32le".to_string(), sample_rate: 48000, channels: 0 };
    assert_eq!(check_audio_input(&a).unwrap_err().message(), "audio channels must be non-zero when audio is enabled");
}

#[test]
fn ffmpeg_command_line() {
    let args = ffmpeg_args(&cfg(640, 360, 30000, 1001, None), true, &"out/video.mp4".to_string());
    assert_eq!(
        args,
        vec![
            "-y", "-loglevel", "error", "-f", "rawvideo", "-pix_fmt", "rgba", "-s", "640x360", "-r", "30000/1001", "-i",
            "pipe:0", "-an", "-c:v", "libx264", "-pix_fmt", "yuv420p", "-movflags", "+faststart", "out/video.mp4",
        ]
    );
    let audio = AudioInputConfig { path: "mix.f32le".to_string(), sample_rate: 48000, channels: 2 };
    let args = ffmpeg_args(&cfg(2, 2, 24, 1, Some(audio)), false, &"o.mp4".to_string());
    assert_eq!(args[0], "-n");
    assert_eq!(&args[13..21], &["-f", "f32le", "-ar", "48000", "-ac", "2", "-i", "mix.f32le"]);
    assert_eq!(args.last().unwrap(), "o.mp4");
    assert_eq!(args.len(), 31);
}

#[test]
fn frames_must_increase_and_match_size() {
    let mut g = FrameOrderGate::new();
    assert!(g.accept(FrameIndex(3)).is_ok());
    assert_eq!(g.accept(FrameIndex(3)).unwrap_err().message(), "ffmpeg sink received out-of-order frame index");
    assert!(g.accept(FrameIndex(4)).is_ok());
    let f = FrameRGBA { width: 2, height: 2, data: vec![0; 16] };
    assert!(check_frame_size(2, 2, &f, 16).is_ok());
    assert_eq!(check_frame_size(4, 2, &f, 32).unwrap_err().message(), "frame size mismatch: got 2x2, expected 4x2");
    assert_eq!(check_frame_size(2, 2, &f, 12).unwrap_err().message(), "frame.data size mismatch with width*height*4");
}

#[test]
fn in_memory_sink_keeps_the_begun_configuration_and_pushed_frames() {
    let mut sink = InMemorySink::new();
    assert!(sink.config().is_none());
    let audio = AudioInputConfig { path: "a.f32le".to_owned(), sample_rate: 48_000, channels: 2 };
    sink.begin(cfg(4, 2, 30, 1, Some(audio))).unwrap();
    let f0 = FrameRGBA { width: 4, height: 2, data: vec![1; 32] };
    let f1 = FrameRGBA { width: 4, height: 2, data: vec![2; 32] };
    sink.push_frame(FrameIndex(3), &f0).unwrap();
    sink.push_frame(FrameIndex(1), &f1).unwrap();
    sink.end().unwrap();
    let c = sink.config().unwrap();
    assert_eq!((c.width, c.height, c.fps), (4, 2, Fps { num: 30, den: 1 }));
    let a = c.audio.unwrap();
    assert_eq!((a.path.as_str(), a.sample_rate, a.channels), ("a.f32le", 48_000, 2));
    let frames = sink.frames();
    assert_eq!(frames.len(), 2);
    assert_eq!(frames[0].0, FrameIndex(3));
    assert_eq!(frames[0].1.data, vec![1; 32]);
    assert_eq!(frames[1].0, FrameIndex(1));
    assert_eq!(frames[1].1.data, vec![2; 32]);
    // A new range drops the earlier frames.
    sink.begin(cfg(4, 2, 30, 1, None)).unwrap();
    assert!(sink.frames().is_empty());
    assert!(sink.config().unwrap().audio.is_none());
}
