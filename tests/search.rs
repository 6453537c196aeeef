use ipl3_hasher::cpu::CPUHasher;
use ipl3_hasher::hasher::{Hasher, HasherError, HasherResult, RoundStep};
use ipl3_hasher::kernel::{candidate_checksum, GPUHasherResult};

fn pattern_ipl3() -> [u8; 4032] {
    let mut raw = [0u8; 4032];
    for i in 0..4032 {
        raw[i] = ((i * 37 + 11) % 256) as u8;
    }
    for i in 4024..4028 {
        raw[i] = 0;
    }
    raw
}

fn default_layout() -> Vec<u32> {
    (0..32).map(|i| (1022 - 16) * 32 + i).collect()
}

#[test]
fn accepted_hit_verifies_against_target() {
    let raw = pattern_ipl3();
    let target = CPUHasher::new(&raw, 0x3F).verify(default_layout(), 0x1234_5678, 0x9ABC_DEF0);
    let mut h = Hasher::new(&raw, (1, 1, 1), 0x3F, target, default_layout()).unwrap();
    h.set_y(0x1234_5678);
    let r = h.compute_round(0, GPUHasherResult::Found(0x1234_5678, 0x9ABC_DEF0)).unwrap();
    assert_eq!(r, RoundStep::Done(HasherResult::Found(0x1234_5678, 0x9ABC_DEF0)));
    assert_eq!(h.get_y(), 0x1234_5678);
}

#[test]
fn wrong_hit_is_a_verify_error() {
    let raw = pattern_ipl3();
    let mut h = Hasher::new(&raw, (1, 1, 1), 0x3F, 0xA536_C0F1_D859, default_layout()).unwrap();
    match h.compute_round(0, GPUHasherResult::Found(0, 0)) {
        Err(HasherError::VerifyError(y, x, c)) => {
            assert_eq!((y, x), (0, 0));
            assert_eq!(c, 0x55A6_0019_CF07);
        }
        other => panic!("unexpected {:?}", other),
    }
}

#[test]
fn continue_advances_the_offset() {
    let raw = pattern_ipl3();
    let mut h = Hasher::new(&raw, (1, 1, 1), 0x3F, 1, default_layout()).unwrap();
    let r = h.compute_round(512, GPUHasherResult::Continue(256)).unwrap();
    assert_eq!(r, RoundStep::Dispatch(768));
    assert_eq!(h.get_y(), 0);
}

#[test]
fn search_walks_y_upwards_then_ends() {
    let raw = pattern_ipl3();
    let layout = vec![(1022 - 16) * 32, (1022 - 16) * 32 + 5];
    let mut h = Hasher::new(&raw, (1, 1, 1), 0x3F, 1, layout).unwrap();
    assert_eq!(h.y_limit(), 3);
    h.set_y(1);
    let mut seen = vec![];
    loop {
        match h.start_round() {
            None => break,
            Some(_) => seen.push(h.get_y()),
        }
        match h.compute_round(0, GPUHasherResult::End).unwrap() {
            RoundStep::Done(HasherResult::Continue) => {}
            RoundStep::Done(HasherResult::End) => break,
            other => panic!("unexpected {:?}", other),
        }
    }
    assert_eq!(seen, vec![1, 2, 3]);
    h.set_y(4);
    assert!(h.start_round().is_none());
}

#[test]
fn start_round_gives_the_prefix_state() {
    let raw = pattern_ipl3();
    let mut h = Hasher::new(&raw, (1, 1, 1), 0x3F, 1, default_layout()).unwrap();
    h.set_y(0x1234_5678);
    let prefix = h.start_round().unwrap();
    assert_eq!(prefix, CPUHasher::new(&raw, 0x3F).y_round(default_layout(), 0x1234_5678));
    let data = h.round_data();
    assert_eq!(data, 0x1234_5678);
    assert_eq!(candidate_checksum(&prefix, data, 0x9ABC_DEF0), 0x1E6F_0D85_043A);
}

#[test]
fn invalid_layouts_are_config_errors() {
    let raw = pattern_ipl3();
    let too_wide: Vec<u32> = (0..33).map(|i| 32 + i).collect();
    assert!(matches!(Hasher::new(&raw, (1, 1, 1), 0, 0, too_wide), Err(HasherError::ConfigError)));
    assert!(matches!(Hasher::new(&raw, (1, 1, 1), 0, 0, vec![40, 40]), Err(HasherError::ConfigError)));
    assert!(matches!(Hasher::new(&raw, (1, 1, 1), 0, 0, vec![41, 40]), Err(HasherError::ConfigError)));
    assert!(matches!(Hasher::new(&raw, (1, 1, 1), 0, 0, vec![32224]), Err(HasherError::ConfigError)));
    assert!(Hasher::new(&raw, (1, 1, 1), 0, 0, vec![32223]).is_ok());
    assert!(Hasher::new(&raw, (1, 1, 1), 0, 0, vec![]).is_ok());
}

#[test]
fn empty_layout_has_a_single_y() {
    let raw = pattern_ipl3();
    let mut h = Hasher::new(&raw, (2, 3, 4), 0x3F, 7, vec![]).unwrap();
    assert_eq!(h.y_limit(), 0);
    assert_eq!(h.workgroup_configuration(), (2, 3, 4));
    assert_eq!(h.target_checksum(), 7);
    assert!(h.start_round().is_some());
    assert_eq!(h.compute_round(0, GPUHasherResult::End).unwrap(), RoundStep::Done(HasherResult::End));
}

#[test]
fn run_round_finds_planted_hit() {
    let raw = pattern_ipl3();
    let target = CPUHasher::new(&raw, 0x3F).verify(default_layout(), 5, 300);
    let mut h = Hasher::new(&raw, (1, 1, 1), 0x3F, target, default_layout()).unwrap();
    h.set_y(5);
    assert_eq!(h.run_round().unwrap(), HasherResult::Found(5, 300));
    assert_eq!(h.get_y(), 5);
}

#[test]
fn run_round_past_the_last_y_ends() {
    let raw = pattern_ipl3();
    let layout = vec![(1022 - 16) * 32, (1022 - 16) * 32 + 1];
    let mut h = Hasher::new(&raw, (1, 1, 1), 0x3F, 1, layout).unwrap();
    h.set_y(4);
    assert_eq!(h.run_round().unwrap(), HasherResult::End);
    assert_eq!(h.get_y(), 4);
}

#[test]
fn run_round_with_empty_dispatch_is_an_error() {
    let raw = pattern_ipl3();
    let mut h = Hasher::new(&raw, (0, 1, 1), 0x3F, 1, default_layout()).unwrap();
    assert!(matches!(h.run_round(), Err(HasherError::GPUHasherError(_))));
}

#[test]
fn search_stops_at_the_first_hit() {
    let raw = pattern_ipl3();
    let target = CPUHasher::new(&raw, 0x3F).verify(default_layout(), 9, 17);
    let mut h = Hasher::new(&raw, (1, 1, 1), 0x3F, target, default_layout()).unwrap();
    h.set_y(9);
    assert_eq!(h.search().unwrap(), HasherResult::Found(9, 17));
    assert_eq!(h.get_y(), 9);
}

#[test]
fn search_past_the_last_y_ends() {
    let raw = pattern_ipl3();
    let mut h = Hasher::new(&raw, (1, 1, 1), 0x3F, 1, vec![]).unwrap();
    h.set_y(1);
    assert_eq!(h.search().unwrap(), HasherResult::End);
}

#[test]
fn error_messages() {
    assert_eq!(
        HasherError::VerifyError(0x12, 0xABCDEF, 0x55A6_0019_CF07).message(),
        "GPU Hasher result is wrong: 00000012 00ABCDEF | 0x55A60019CF07"
    );
    assert_eq!(
        HasherError::VerifyError(0x1, 0xABCDEF, 0x123).message(),
        "GPU Hasher result is wrong: 00000001 00ABCDEF | 0x000000000123"
    );
    assert_eq!(
        HasherError::VerifyError(0xFFFF_FFFF, 0, 0xFFFF_FFFF_FFFF).message(),
        "GPU Hasher result is wrong: FFFFFFFF 00000000 | 0xFFFFFFFFFFFF"
    );
    assert_eq!(HasherError::GPUAdapterOutOfBounds.message(), "Selected GPU adapter doesn't exist");
    assert_eq!(HasherError::IoError("disk".to_string()).message(), "disk");
    assert_eq!(HasherError::ConfigError.message(), "invalid Y bit layout");
}

#[test]
fn continue_past_u64_is_an_error() {
    let raw = pattern_ipl3();
    let mut h = Hasher::new(&raw, (1, 1, 1), 0x3F, 1, default_layout()).unwrap();
    let r = h.compute_round(u64::MAX, GPUHasherResult::Continue(1));
    assert!(matches!(r, Err(HasherError::GPUHasherError(_))));
    assert_eq!(h.get_y(), 0);
}
