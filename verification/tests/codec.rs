use pleroma_core::prove_dimensional_integrity;
use pleroma_core::reconstruct_1d_to_2d;
use pleroma_core::strip_2d_to_1d;

/// A small deterministic pseudo-random sequence for domain sampling.
fn lcg_next(state: &mut u64) -> u64 {
    *state = state
        .wrapping_mul(6364136223846793005)
        .wrapping_add(1442695040888963407);
    *state
}

/// Derives the expected key directly from the stated bit mapping:
/// bit `i` of `x` at position `2*i`, bit `i` of `y` at `2*i + 1`.
fn key_from_bit_mapping(x: u32, y: u32) -> u64 {
    let mut z: u64 = 0;
    for i in 0..32 {
        z |= (((x >> i) & 1) as u64) << (2 * i);
        z |= (((y >> i) & 1) as u64) << (2 * i + 1);
    }
    z
}

#[test]
fn round_trip_small_values() {
    for x in 0u32..200 {
        for y in 0u32..200 {
            let z = strip_2d_to_1d(x, y);
            assert_eq!(reconstruct_1d_to_2d(z), (x, y));
        }
    }
    for v in 0u32..1000 {
        assert_eq!(reconstruct_1d_to_2d(strip_2d_to_1d(v, 999 - v % 1000)), (v, 999 - v % 1000));
    }
}

#[test]
fn round_trip_boundary_values() {
    let edges = [0u32, 1, 2, u32::MAX - 1, u32::MAX, 0x8000_0000, 0x7fff_ffff];
    for &x in &edges {
        for &y in &edges {
            let z = strip_2d_to_1d(x, y);
            assert_eq!(reconstruct_1d_to_2d(z), (x, y));
        }
    }
}

#[test]
fn round_trip_single_bits() {
    for i in 0..32 {
        for j in 0..32 {
            let x = 1u32 << i;
            let y = 1u32 << j;
            assert_eq!(reconstruct_1d_to_2d(strip_2d_to_1d(x, 0)), (x, 0));
            assert_eq!(reconstruct_1d_to_2d(strip_2d_to_1d(0, y)), (0, y));
            assert_eq!(reconstruct_1d_to_2d(strip_2d_to_1d(x, y)), (x, y));
        }
    }
}

#[test]
fn round_trip_random_samples() {
    let mut state = 0x1234_5678_9abc_def0u64;
    for _ in 0..5000 {
        let x = (lcg_next(&mut state) >> 32) as u32;
        let y = (lcg_next(&mut state) >> 32) as u32;
        let z = strip_2d_to_1d(x, y);
        assert_eq!(reconstruct_1d_to_2d(z), (x, y));
    }
}

#[test]
fn bit_placement() {
    for i in 0..32 {
        assert_eq!(strip_2d_to_1d(1u32 << i, 0), 1u64 << (2 * i));
        assert_eq!(strip_2d_to_1d(0, 1u32 << i), 1u64 << (2 * i + 1));
    }
}

#[test]
fn independence_law() {
    let samples = [0u32, 1, 10, 0xdead_beef, u32::MAX, 0x5555_5555, 0xaaaa_aaaa];
    for &x in &samples {
        for &y in &samples {
            assert_eq!(strip_2d_to_1d(x, 0) | strip_2d_to_1d(0, y), strip_2d_to_1d(x, y));
        }
    }
    let mut state = 0xfeed_face_cafe_beefu64;
    for _ in 0..2000 {
        let x = (lcg_next(&mut state) >> 32) as u32;
        let y = (lcg_next(&mut state) >> 32) as u32;
        assert_eq!(strip_2d_to_1d(x, 0) | strip_2d_to_1d(0, y), strip_2d_to_1d(x, y));
    }
}

#[test]
fn key_round_trip() {
    let samples = [
        0u64,
        1,
        2,
        3,
        70,
        u64::MAX,
        u64::MAX - 1,
        0x5555_5555_5555_5555,
        0xaaaa_aaaa_aaaa_aaaa,
        0x8000_0000_0000_0000,
    ];
    for &z in &samples {
        let (x, y) = reconstruct_1d_to_2d(z);
        assert_eq!(strip_2d_to_1d(x, y), z);
    }
    let mut state = 0x0123_4567_89ab_cdefu64;
    for _ in 0..5000 {
        let z = lcg_next(&mut state);
        let (x, y) = reconstruct_1d_to_2d(z);
        assert_eq!(strip_2d_to_1d(x, y), z);
    }
}

#[test]
fn concrete_example() {
    // x = 10 = 0b1010: bits 1 and 3 go to key bits 2 and 6 (4 + 64).
    // y = 1 = 0b0001: bit 0 goes to key bit 1 (2). Key = 70.
    assert_eq!(strip_2d_to_1d(10, 1), 70);
    assert_eq!(reconstruct_1d_to_2d(70), (10, 1));
    assert_eq!(key_from_bit_mapping(10, 1), 70);
}

#[test]
fn encoder_matches_bit_mapping() {
    let mut state = 0x0bad_c0de_0bad_c0deu64;
    for _ in 0..2000 {
        let x = (lcg_next(&mut state) >> 32) as u32;
        let y = (lcg_next(&mut state) >> 32) as u32;
        assert_eq!(strip_2d_to_1d(x, y), key_from_bit_mapping(x, y));
    }
    assert_eq!(strip_2d_to_1d(0, 0), 0);
    assert_eq!(strip_2d_to_1d(u32::MAX, 0), 0x5555_5555_5555_5555);
    assert_eq!(strip_2d_to_1d(0, u32::MAX), 0xaaaa_aaaa_aaaa_aaaa);
    assert_eq!(strip_2d_to_1d(u32::MAX, u32::MAX), u64::MAX);
}

#[test]
fn integrity_oracle_holds() {
    assert!(prove_dimensional_integrity(0, 0));
    assert!(prove_dimensional_integrity(u32::MAX, u32::MAX));
    assert!(prove_dimensional_integrity(10, 1));
    let mut state = 0x7777_7777_7777_7777u64;
    for _ in 0..2000 {
        let x = (lcg_next(&mut state) >> 32) as u32;
        let y = (lcg_next(&mut state) >> 32) as u32;
        assert!(prove_dimensional_integrity(x, y));
    }
}
