use wavyte::fingerprint::FrameFingerprint;
use wavyte::session::{
    channel_capacity, check_render_frame, check_render_range, check_threads, chunk_end, chunk_size_for, chunk_stats,
    normalized_chunk_size, plan_elision, RenderSessionOpts, RenderStats, ReorderBuffer, MAX_REORDER_BUFFER_BYTES,
};
use wavyte::timeline::{FrameIndex, FrameRange};

#[test]
fn session_opts_defaults() {
    let o = RenderSessionOpts::default();
    assert!(!o.parallel && !o.static_frame_elision && o.enable_audio);
    assert_eq!((o.chunk_size, o.channel_capacity), (64, 4));
    assert!(o.threads.is_none());
    assert_eq!(RenderStats::default(), RenderStats { frames_total: 0, frames_rendered: 0, frames_elided: 0 });
}

#[test]
fn range_and_frame_checks() {
    let r = |a, b| FrameRange { start: FrameIndex(a), end: FrameIndex(b) };
    assert!(check_render_range(r(0, 10), 10).is_ok());
    assert_eq!(check_render_range(r(5, 5), 10).unwrap_err().message(), "render_range range must be non-empty");
    assert_eq!(check_render_range(r(0, 11), 10).unwrap_err().message(), "render_range range must be within composition duration");
    assert!(check_render_frame(FrameIndex(9), 10).is_ok());
    assert_eq!(check_render_frame(FrameIndex(10), 10).unwrap_err().message(), "render_frame frame must be within composition duration");
    assert!(check_threads(None).is_ok() && check_threads(Some(3)).is_ok());
    assert_eq!(check_threads(Some(0)).unwrap_err().message(), "render_range 'threads' must be >= 1 when set");
}

#[test]
fn chunk_sizing() {
    assert_eq!(normalized_chunk_size(0), 1);
    assert_eq!(normalized_chunk_size(64), 64);
    // 32x32 frames: 4 KiB each, the memory bound is far away.
    assert_eq!(chunk_size_for(64, 32, 32, 1000), 64);
    assert_eq!(chunk_size_for(64, 32, 32, 10), 10);
    // 4K frames: 128 MiB / 33 MiB = 3 frames per chunk.
    assert_eq!(chunk_size_for(64, 3840, 2160, 1000), MAX_REORDER_BUFFER_BYTES / (3840 * 2160 * 4));
    // Huge frames still get one frame per chunk.
    assert_eq!(chunk_size_for(64, 100_000, 100_000, 1000), 1);
    assert_eq!(chunk_end(10, 64, 30), 30);
    assert_eq!(chunk_end(10, 4, 30), 14);
    assert_eq!(channel_capacity(0), 1);
}

fn fp(v: u64) -> FrameFingerprint {
    FrameFingerprint { hi: 0, lo: v }
}

#[test]
fn elision_renders_each_distinct_frame_once() {
    let fps = vec![fp(5), fp(5), fp(7), fp(5), fp(7), fp(9)];
    let (uniq, map) = plan_elision(&fps);
    assert_eq!(uniq, vec![0, 2, 5]);
    assert_eq!(map, vec![0, 0, 1, 0, 1, 2]);
    let s = chunk_stats(fps.len() as u64, uniq.len() as u64);
    assert_eq!(s, RenderStats { frames_total: 6, frames_rendered: 3, frames_elided: 3 });
    let mut total = RenderStats::default();
    total.add_chunk(s);
    total.add_chunk(s);
    assert_eq!(total, RenderStats { frames_total: 12, frames_rendered: 6, frames_elided: 6 });
}

#[test]
fn reorder_buffer_delivers_in_frame_order() {
    let mut b: ReorderBuffer<&str> = ReorderBuffer::new(3, 6);
    let mut out = Vec::new();
    for (idx, name) in [(5u64, "f5"), (3, "f3"), (4, "f4")] {
        b.receive(idx, name);
        while let Some((i, f)) = b.take_next() {
            out.push((i.0, f));
        }
    }
    assert_eq!(out, vec![(3, "f3"), (4, "f4"), (5, "f5")]);
    assert!(b.is_done());
    assert!(b.take_next().is_none());
}
