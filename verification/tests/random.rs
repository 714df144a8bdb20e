use wavyte::plan::NodeIdx;
use wavyte::property::PropertyKey;
use wavyte::random::{mixed_seed, noise_bits, Rng64};

#[test]
fn splitmix_from_zero_matches_reference_sequence() {
    let mut rng = Rng64::new(0);
    assert_eq!(rng.next_u64(), 0xE220_A839_7B1D_CDAF);
    assert_eq!(rng.next_u64(), 0x6E78_9E6A_A1B9_65F4);
    assert_eq!(rng.next_u64(), 0x06C4_5D18_8009_454F);
}

#[test]
fn same_seed_gives_same_sequence() {
    let mut a = Rng64::new(12345);
    let mut b = Rng64::new(12345);
    for _ in 0..16 {
        assert_eq!(a.next_u64(), b.next_u64());
    }
}

#[test]
fn bits53_are_the_top_bits_of_the_next_value() {
    let mut a = Rng64::new(99);
    let mut b = Rng64::new(99);
    for _ in 0..8 {
        let bits = a.next_bits53();
        assert!(bits < (1u64 << 53));
        assert_eq!(bits, b.next_u64() >> 11);
    }
}

#[test]
fn noise_bits_exact_values() {
    assert_eq!(noise_bits(7, 0), 3_511_274_219_185_729);
    assert_eq!(noise_bits(7, 3), 734_976_212_334_985);
    assert_eq!(noise_bits(0, 1), 5_901_003_261_637_615);
    assert_eq!(noise_bits(7, 3), noise_bits(7, 3));
}

#[test]
fn mixed_seed_is_fnv_over_node_and_lane() {
    let base = 0xcbf2_9ce4_8422_2325u64;
    assert_eq!(
        mixed_seed(base, NodeIdx(2), PropertyKey::TransformTranslateX),
        0x0721_8440_7c3a_4ac6
    );
    assert_ne!(
        mixed_seed(base, NodeIdx(2), PropertyKey::Opacity),
        mixed_seed(base, NodeIdx(3), PropertyKey::Opacity)
    );
}
