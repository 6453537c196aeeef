use ipl3_hasher::hasher::{Hasher, HasherError};

fn bit_at(rom: &[u8], b: u32) -> u32 {
    ((rom[(b / 8) as usize] >> (b % 8)) & 1) as u32
}

fn read_back(rom: &[u8], bits: &[u32]) -> u32 {
    let mut y = 0u32;
    for (i, b) in bits.iter().enumerate() {
        y |= bit_at(rom, *b) << i;
    }
    y
}

#[test]
fn sign_then_read_gives_y() {
    let bits: Vec<u32> = (0..32).map(|i| (1022 - 16) * 32 + i).collect();
    for fill in [0x00u8, 0xFF, 0x5A] {
        let mut rom = vec![fill; 8192];
        Hasher::sign_rom(&mut rom, bits.clone(), 0xDEAD_BEEF, 0x0102_0304).unwrap();
        assert_eq!(read_back(&rom, &bits), 0xDEAD_BEEF);
        assert_eq!(&rom[4092..4096], &[1, 2, 3, 4]);
        assert_eq!(rom.len(), 8192);
    }
}

#[test]
fn sign_sets_and_clears_sparse_bits() {
    let bits = vec![3u32, 9, 10, 100];
    let mut rom = vec![0xFFu8; 5000];
    Hasher::sign_rom(&mut rom, bits.clone(), 0b0101, 0).unwrap();
    assert_eq!(rom[0], 0xFF);
    assert_eq!(rom[1], 0xFF & !(1 << 1) | (1 << 2));
    assert_eq!(rom[12], 0xFF & !(1 << 4));
    assert_eq!(read_back(&rom, &bits), 0b0101);
    assert_eq!(&rom[4092..4096], &[0, 0, 0, 0]);
}

#[test]
fn short_image_is_padded_for_x() {
    let mut rom = vec![0u8; 100];
    Hasher::sign_rom(&mut rom, vec![8], 1, 0xAABB_CCDD).unwrap();
    assert_eq!(rom.len(), 4096);
    assert_eq!(rom[1], 1);
    assert_eq!(&rom[4092..4096], &[0xAA, 0xBB, 0xCC, 0xDD]);
}

#[test]
fn bit_past_the_end_is_an_io_error() {
    let mut rom = vec![7u8; 10];
    // Bit 0 of y is 0, so bit 8 (byte 1, bit 0) is cleared before bit 80 fails.
    let r = Hasher::sign_rom(&mut rom, vec![8, 80, 16], 2, 9);
    assert!(matches!(r, Err(HasherError::IoError(_))));
    let mut expected = vec![7u8; 10];
    expected[1] = 6;
    assert_eq!(rom, expected);
}
