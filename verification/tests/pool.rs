use wavyte::plan::{PixelFormat, SurfaceDesc};
use wavyte::pool::{SurfaceKey, SurfacePool};
use wavyte::sink::SurfacePoolOpts;

fn desc(w: u32, h: u32) -> SurfaceDesc {
    SurfaceDesc { width: w, height: h, format: PixelFormat::Rgba8Premul }
}

/// Borrow from the pool, allocating a zeroed buffer when it has none (test-side allocator).
fn borrow(p: &mut SurfacePool<Vec<u8>>, d: SurfaceDesc) -> Vec<u8> {
    match p.borrow(d) {
        Some(s) => s,
        None => vec![0u8; SurfaceKey::from_desc(d).byte_len()],
    }
}

#[test]
fn pool_honors_bucket_cap() {
    let mut p = SurfacePool::new(SurfacePoolOpts { max_pool_bytes: 1 << 30, max_surfaces_per_bucket: 1 });
    let d = desc(8, 8);

    let a = borrow(&mut p, d);
    let b = borrow(&mut p, d);
    p.release(d, a);
    p.release(d, b);

    let st = p.stats();
    assert_eq!(st.retained_surfaces, 1);
}

#[test]
fn pool_honors_global_byte_cap() {
    let bytes_8x8 = SurfaceKey::from_desc(desc(8, 8)).byte_len();
    let mut p = SurfacePool::new(SurfacePoolOpts { max_pool_bytes: bytes_8x8, max_surfaces_per_bucket: 8 });
    let d = desc(8, 8);

    let a = borrow(&mut p, d);
    let b = borrow(&mut p, d);
    p.release(d, a);
    p.release(d, b);

    let st = p.stats();
    assert_eq!(st.retained_bytes, bytes_8x8);
    assert_eq!(st.retained_surfaces, 1);
    assert!(st.dropped_on_release >= 1);
}

#[test]
fn pool_reuses_released_surfaces_and_counts_allocations() {
    let mut p: SurfacePool<Vec<u8>> = SurfacePool::new(SurfacePoolOpts { max_pool_bytes: 1 << 20, max_surfaces_per_bucket: 4 });
    let d = desc(2, 2);
    let mut a = borrow(&mut p, d);
    a[0] = 7;
    p.release(d, a);
    let st = p.stats();
    assert_eq!((st.alloc_surfaces, st.alloc_bytes, st.retained_surfaces, st.retained_bytes), (1, 16, 1, 16));
    // The kept surface comes back; a different size gets none.
    let again = p.borrow(d).unwrap();
    assert_eq!(again[0], 7);
    assert!(p.borrow(desc(3, 3)).is_none());
    let st = p.stats();
    assert_eq!((st.alloc_surfaces, st.alloc_bytes, st.retained_surfaces, st.retained_bytes), (2, 52, 0, 0));
}

#[test]
fn disabled_pool_drops_everything() {
    let mut p: SurfacePool<Vec<u8>> = SurfacePool::new(SurfacePoolOpts { max_pool_bytes: 0, max_surfaces_per_bucket: 4 });
    p.release(desc(1, 1), vec![0; 4]);
    let st = p.stats();
    assert_eq!((st.retained_surfaces, st.dropped_on_release), (0, 1));
}

#[test]
fn surface_key_byte_len() {
    assert_eq!(SurfaceKey::from_desc(desc(8, 8)).byte_len(), 256);
    assert_eq!(SurfaceKey::from_desc(desc(0, 9)).byte_len(), 0);
}
