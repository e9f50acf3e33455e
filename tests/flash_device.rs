use m2_bootloader::flash::{Flash, FlashError};
use m2_bootloader::internal::{InternalFlash, ERASE_UNSUPPORTED, PROGRAM_UNSUPPORTED};
use m2_bootloader::mock::MockFlash;

#[test]
fn mock_basic_flow() {
    let mut f = MockFlash::new(1024, 256, 128);
    assert_eq!(f.size(), 1024);

    let addr = 256;
    let data = vec![0xAAu8; 128];
    f.erase_sector(256).unwrap();
    f.program_page(addr, &data).unwrap();
    assert!(f.verify(addr, &data).is_ok());

    let bad = vec![0xFFu8; 128];
    assert!(matches!(f.program_page(addr, &bad), Err(FlashError::DeviceError(_))));
}

#[test]
fn write_region_test() {
    let mut f = MockFlash::new(2048, 256, 128);
    let payload = vec![0x55u8; 300];
    assert!(f.write_region(100, &payload).is_ok());
    assert!(f.verify(100, &payload).is_ok());
}

#[test]
fn new_device_is_erased() {
    let f = MockFlash::new(64, 16, 8);
    assert_eq!(f.size(), 64);
    assert_eq!(f.sector_size(), 16);
    assert_eq!(f.page_size(), 8);
    assert_eq!(f.read(0, 64).unwrap(), vec![0xFFu8; 64]);
}

#[test]
fn fill_sets_every_byte() {
    let mut f = MockFlash::new(32, 16, 8);
    f.fill(0x12);
    assert_eq!(f.read(0, 32).unwrap(), vec![0x12u8; 32]);
}

#[test]
fn read_out_of_bounds() {
    let f = MockFlash::new(32, 16, 8);
    assert_eq!(f.read(30, 3), Err(FlashError::OutOfBounds));
    assert_eq!(f.read(usize::MAX, 2), Err(FlashError::OutOfBounds));
    assert_eq!(f.read(32, 0).unwrap(), Vec::<u8>::new());
}

#[test]
fn erase_errors() {
    let mut f = MockFlash::new(40, 16, 8);
    assert_eq!(f.erase_sector(40), Err(FlashError::OutOfBounds));
    assert_eq!(f.erase_sector(8), Err(FlashError::AlignmentError));
    // the last sector would run past the end of a 40-byte device
    assert_eq!(f.erase_sector(32), Err(FlashError::OutOfBounds));
    assert_eq!(f.erase_sector(16), Ok(()));
}

#[test]
fn erase_twice_same_as_once() {
    let mut f = MockFlash::new(64, 16, 16);
    f.fill(0x00);
    f.erase_sector(16).unwrap();
    let once = f.read(0, 64).unwrap();
    f.erase_sector(16).unwrap();
    let twice = f.read(0, 64).unwrap();
    assert_eq!(once, twice);
    assert_eq!(&twice[16..32], &[0xFFu8; 16][..]);
    assert_eq!(&twice[0..16], &[0x00u8; 16][..]);
    assert_eq!(&twice[32..64], &[0x00u8; 32][..]);
}

#[test]
fn program_errors() {
    let mut f = MockFlash::new(64, 16, 8);
    assert_eq!(f.program_page(64, &[0u8]), Err(FlashError::OutOfBounds));
    assert_eq!(f.program_page(0, &[0u8; 9]), Err(FlashError::AlignmentError));
    assert_eq!(f.program_page(60, &[0u8; 8]), Err(FlashError::OutOfBounds));
}

#[test]
fn program_clears_bits_only() {
    let mut f = MockFlash::new(16, 16, 16);
    f.program_page(0, &[0xF0, 0x0F]).unwrap();
    // clearing more bits of an already programmed byte is allowed
    f.program_page(0, &[0x30, 0x03]).unwrap();
    assert_eq!(f.read(0, 2).unwrap(), vec![0x30, 0x03]);
}

#[test]
fn program_zero_to_one_fails_and_keeps_byte() {
    let mut f = MockFlash::new(16, 16, 16);
    f.program_page(0, &[0x00, 0x0F, 0xF0]).unwrap();
    // the first byte only clears bits, the second needs 0 -> 1
    let r = f.program_page(0, &[0x00, 0xFF, 0x00]);
    assert!(matches!(r, Err(FlashError::DeviceError(_))));
    let after = f.read(0, 3).unwrap();
    assert_eq!(after[1], 0x0F);
    assert_eq!(after[2], 0xF0);
}

#[test]
fn program_then_verify_matches_transitions() {
    // every transition 1 -> 0 or unchanged: verify succeeds
    let mut f = MockFlash::new(32, 16, 16);
    f.program_page(4, &[0xA5, 0x5A]).unwrap();
    assert_eq!(f.verify(4, &[0xA5, 0x5A]), Ok(()));
    // a transition 0 -> 1 is needed: programming fails and verify reports it
    let r = f.program_page(4, &[0xFF, 0x5A]);
    assert!(matches!(r, Err(FlashError::DeviceError(_))));
    assert_eq!(
        f.verify(4, &[0xFF, 0x5A]),
        Err(FlashError::VerificationFailed { addr: 4, expected: 0xFF, found: 0xA5 })
    );
}

#[test]
fn verify_reports_first_mismatch() {
    let mut f = MockFlash::new(32, 16, 16);
    f.program_page(8, &[1, 2, 3, 4]).unwrap();
    assert_eq!(
        f.verify(8, &[1, 2, 9, 8]),
        Err(FlashError::VerificationFailed { addr: 10, expected: 9, found: 3 })
    );
    assert_eq!(f.verify(30, &[0, 0, 0]), Err(FlashError::OutOfBounds));
}

#[test]
fn write_region_round_trip() {
    let mut f = MockFlash::new(1024, 256, 64);
    let data: Vec<u8> = (0..500u32).map(|i| (i * 7 % 251) as u8).collect();
    f.write_region(200, &data).unwrap();
    assert_eq!(f.read(200, data.len()).unwrap(), data);
}

#[test]
fn write_region_erases_covering_sectors() {
    let mut f = MockFlash::new(1024, 256, 128);
    f.fill(0x00);
    f.write_region(300, &[0x11u8; 10]).unwrap();
    let all = f.read(0, 1024).unwrap();
    assert_eq!(&all[0..256], &[0x00u8; 256][..]);
    assert_eq!(&all[256..300], &[0xFFu8; 44][..]);
    assert_eq!(&all[300..310], &[0x11u8; 10][..]);
    assert_eq!(&all[310..512], &[0xFFu8; 202][..]);
    assert_eq!(&all[512..1024], &[0x00u8; 512][..]);
}

#[test]
fn write_region_whole_device() {
    let mut f = MockFlash::new(512, 256, 128);
    let data = vec![0x3Cu8; 512];
    assert_eq!(f.write_region(0, &data), Ok(()));
    assert_eq!(f.read(0, 512).unwrap(), data);
}

#[test]
fn write_region_errors() {
    let mut f = MockFlash::new(1000, 256, 128);
    assert_eq!(f.write_region(900, &[0u8; 101]), Err(FlashError::OutOfBounds));
    // the covering sector [768, 1024) runs past the end of the device
    assert_eq!(f.write_region(900, &[0u8; 10]), Err(FlashError::OutOfBounds));
    let mut z = MockFlash::new(1024, 0, 128);
    assert!(matches!(z.write_region(0, &[0u8; 4]), Err(FlashError::DeviceError(_))));
    let mut p = MockFlash::new(1024, 256, 0);
    assert!(matches!(p.write_region(0, &[0u8; 4]), Err(FlashError::DeviceError(_))));
}

#[test]
fn write_region_empty_changes_nothing() {
    let mut f = MockFlash::new(64, 16, 8);
    f.fill(0x00);
    assert_eq!(f.write_region(0, &[]), Ok(()));
    assert_eq!(f.read(0, 64).unwrap(), vec![0x00u8; 64]);
}

#[test]
fn program_region_keeps_neighbours() {
    let mut f = MockFlash::new(64, 32, 8);
    f.program_region(0, &[0x01u8; 20]).unwrap();
    f.program_region(20, &[0x02u8; 20]).unwrap();
    let all = f.read(0, 64).unwrap();
    assert_eq!(&all[0..20], &[0x01u8; 20][..]);
    assert_eq!(&all[20..40], &[0x02u8; 20][..]);
    assert_eq!(&all[40..64], &[0xFFu8; 24][..]);
}

#[test]
fn checksum_known_value() {
    let mut f = MockFlash::new(64, 16, 16);
    f.write_region(0, b"123456789").unwrap();
    assert_eq!(f.crc32(0, 9), Ok(0xCBF4_3926));
    assert_eq!(f.crc32(0, 0), Ok(0));
    assert_eq!(f.crc32(60, 5), Err(FlashError::OutOfBounds));
}

#[test]
fn checksum_same_bytes_same_value() {
    let data = vec![0x42u8; 300];
    let mut a = MockFlash::new(1024, 256, 128);
    let mut b = MockFlash::new(1024, 256, 128);
    b.fill(0x00);
    a.write_region(100, &data).unwrap();
    b.write_region(100, &data).unwrap();
    assert_eq!(a.crc32(100, 300), b.crc32(100, 300));
    let first = a.crc32(100, 300).unwrap();
    a.write_region(100, &data).unwrap();
    assert_eq!(a.crc32(100, 300).unwrap(), first);
    assert_ne!(first, a.crc32(0, 300).unwrap());
}

#[test]
fn internal_flash_checks_arguments() {
    let mut f = InternalFlash::new(0x0800_0000, 512 * 1024, 2048, 256);
    assert_eq!(f.size(), 512 * 1024);
    assert_eq!(f.sector_size(), 2048);
    assert_eq!(f.page_size(), 256);
    assert_eq!(f.abs_addr(0x10), Ok(0x0800_0010));
    assert_eq!(f.abs_addr(512 * 1024), Err(FlashError::OutOfBounds));
    assert_eq!(f.abs_range(0x100, 0x10), Ok(0x0800_0100));
    assert_eq!(f.abs_range(512 * 1024 - 1, 2), Err(FlashError::OutOfBounds));
    assert_eq!(f.erase_sector(512 * 1024), Err(FlashError::OutOfBounds));
    assert_eq!(f.erase_sector(100), Err(FlashError::AlignmentError));
    assert_eq!(f.erase_sector(2048), Err(FlashError::DeviceError(ERASE_UNSUPPORTED)));
    assert_eq!(f.program_page(512 * 1024, &[0u8]), Err(FlashError::OutOfBounds));
    assert_eq!(f.program_page(0, &[0u8; 257]), Err(FlashError::AlignmentError));
    assert_eq!(f.program_page(0, &[0u8; 256]), Err(FlashError::DeviceError(PROGRAM_UNSUPPORTED)));
}

#[test]
fn internal_flash_address_overflow() {
    let f = InternalFlash::new(usize::MAX - 4, 16, 4, 4);
    assert_eq!(f.abs_addr(4), Ok(usize::MAX));
    assert_eq!(f.abs_addr(5), Err(FlashError::OutOfBounds));
}

#[test]
fn internal_flash_past_end() {
    let mut f = InternalFlash::new(0, 40, 16, 8);
    assert_eq!(f.erase_sector(32), Err(FlashError::OutOfBounds));
    assert_eq!(f.erase_sector(16), Err(FlashError::DeviceError(ERASE_UNSUPPORTED)));
    assert_eq!(f.program_page(36, &[0u8; 8]), Err(FlashError::OutOfBounds));
    assert_eq!(f.program_page(32, &[0u8; 8]), Err(FlashError::DeviceError(PROGRAM_UNSUPPORTED)));
}

#[test]
fn rejected_calls_leave_device_unchanged() {
    let mut f = MockFlash::new(1000, 256, 128);
    f.fill(0x00);
    assert_eq!(f.write_region(900, &[0u8; 101]), Err(FlashError::OutOfBounds));
    assert_eq!(f.program_page(990, &[0u8; 11]), Err(FlashError::OutOfBounds));
    assert_eq!(f.program_page(0, &[0u8; 129]), Err(FlashError::AlignmentError));
    assert_eq!(f.erase_sector(768), Err(FlashError::OutOfBounds));
    assert_eq!(f.read(0, 1000).unwrap(), vec![0x00u8; 1000]);
}
