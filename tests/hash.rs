use ipl3_hasher::cpu::{CPUHasher, MAGIC};
use ipl3_hasher::kernel::{candidate_checksum, dispatch_step, x_round, GPUHasherResult};

fn pattern_ipl3() -> [u8; 4032] {
    let mut raw = [0u8; 4032];
    for i in 0..4032 {
        raw[i] = ((i * 37 + 11) % 256) as u8;
    }
    for i in 4024..4028 {
        raw[i] = 0;
    }
    raw
}

fn default_layout() -> Vec<u32> {
    (0..32).map(|i| (1022 - 16) * 32 + i).collect()
}

#[test]
fn sum_substitutes_a2_when_a1_is_zero() {
    assert_eq!(CPUHasher::sum(0x0000_0001, 0x0000_0000, 0x0000_0002), 0xFFFF_FFFE);
}

#[test]
fn sum_wraps_high_minus_low() {
    assert_eq!(CPUHasher::sum(0x1234_5678, 0xDEAD_BEEF, 7), 0xB9B3_F3E6);
}

#[test]
fn sum_returns_a0_when_halves_are_equal() {
    // 641 * 6700417 == 2^32 + 1: high and low halves are both 1.
    assert_eq!(CPUHasher::sum(641, 6_700_417, 9), 641);
}

#[test]
fn sum_zero_multiplier_and_zero_product() {
    assert_eq!(CPUHasher::sum(5, 0, 0), 5);
    assert_eq!(CPUHasher::sum(0, 0, 3), 0);
}

#[test]
fn rotations_wrap_the_amount() {
    assert_eq!(CPUHasher::rol(0x8000_0001, 1), 0x0000_0003);
    assert_eq!(CPUHasher::ror(0x8000_0001, 1), 0xC000_0000);
    assert_eq!(CPUHasher::rol(0x1234_5678, 32), 0x1234_5678);
    assert_eq!(CPUHasher::ror(0x1234_5678, 36), 0x8123_4567);
}

#[test]
fn wrapping_primitives() {
    assert_eq!(CPUHasher::add(0xFFFF_FFFF, 2), 1);
    assert_eq!(CPUHasher::sub(1, 2), 0xFFFF_FFFF);
    assert_eq!(CPUHasher::mul(MAGIC, 0x3F), 0x95DA_CFDB);
}

#[test]
fn initial_state_is_seeded_uniformly() {
    let mut raw = [0u8; 4032];
    raw[0] = 0x3C;
    raw[1] = 0x09;
    raw[2] = 0x34;
    raw[3] = 0x03;
    let h = CPUHasher::new(&raw, 0x3F);
    let expected = MAGIC.wrapping_mul(0x3F).wrapping_add(1) ^ 0x3C09_3403;
    assert_eq!(expected, 0xA9D3_FBDF);
    for w in h.state().iter() {
        assert_eq!(*w, 0xA9D3_FBDF);
    }
}

#[test]
fn verify_known_checksums() {
    let h = CPUHasher::new(&pattern_ipl3(), 0x3F);
    assert_eq!(h.verify(default_layout(), 0, 0), 0x55A6_0019_CF07);
    assert_eq!(h.verify(default_layout(), 0x1234_5678, 0x9ABC_DEF0), 0x1E6F_0D85_043A);
    assert_eq!(h.verify(default_layout(), 1, 0xFFFF_FFFF), 0xF4E3_DE8D_C61B);
}

#[test]
fn verify_is_deterministic() {
    let a = CPUHasher::new(&pattern_ipl3(), 0x3F);
    let b = CPUHasher::new(&pattern_ipl3(), 0x3F);
    for (y, x) in [(0u32, 0u32), (7, 99), (0xFFFF_FFFF, 0x8000_0000)] {
        assert_eq!(a.verify(default_layout(), y, x), b.verify(default_layout(), y, x));
        assert_eq!(a.verify(default_layout(), y, x), a.verify(default_layout(), y, x));
    }
}

#[test]
fn prefix_then_candidate_matches_full_hash() {
    let h = CPUHasher::new(&pattern_ipl3(), 0x3F);
    for y in [0u32, 1, 0x1234_5678, 0xFFFF_FFFF] {
        let prefix = h.y_round(default_layout(), y);
        // Word 1006 is zero in the pattern, so under the default layout it holds y.
        let data = y;
        for x in [0u32, 1, 0x9ABC_DEF0, 0xFFFF_FFFF, 0x0BAD_F00D] {
            assert_eq!(candidate_checksum(&prefix, data, x), h.verify(default_layout(), y, x));
        }
    }
}

#[test]
fn finalize_of_zero_state() {
    let s = [0u32; 16];
    // Every accumulator stays zero: the fold of zero is zero.
    assert_eq!(CPUHasher::finalize(&s), 0);
}

#[test]
fn dispatch_step_is_capped() {
    assert_eq!(dispatch_step((1, 1, 1)), 256);
    assert_eq!(dispatch_step((2, 3, 4)), 2 * 3 * 4 * 256);
    assert_eq!(dispatch_step((256, 256, 256)), 1u64 << 32);
    assert_eq!(dispatch_step((0, 5, 5)), 0);
}

#[test]
fn x_round_finds_planted_candidate() {
    let h = CPUHasher::new(&pattern_ipl3(), 0x3F);
    let prefix = h.y_round(default_layout(), 3);
    let target = candidate_checksum(&prefix, 3, 300);
    assert_eq!(x_round(target, &prefix, 3, 3, 256, (1, 1, 1)), GPUHasherResult::Found(3, 300));
    assert_eq!(x_round(target, &prefix, 3, 3, 0, (1, 1, 1)), GPUHasherResult::Continue(256));
    assert_eq!(x_round(target, &prefix, 3, 3, (1u64 << 32) - 256, (1, 1, 1)), GPUHasherResult::End);
}
