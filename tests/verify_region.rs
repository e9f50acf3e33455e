use m2_bootloader::flash::{Flash, FlashError};
use m2_bootloader::mock::MockFlash;
use m2_bootloader::verify::{verify_bytes, verify_crc};

#[test]
fn test_verify_crc_and_bytes() {
    let mut mock = MockFlash::new(1024, 256, 256);
    let data = [0x55u8; 512];
    mock.write_region(0, &data).unwrap();

    let crc = mock.crc32(0, 512).unwrap();
    assert!(verify_crc(&mut mock, 0, 512, crc).unwrap());

    assert!(verify_bytes(&mut mock, 0, &data, true).unwrap());

    let wrong_data = [0xAAu8; 512];
    assert!(!verify_bytes(&mut mock, 0, &wrong_data, true).unwrap());
}

#[test]
fn verify_crc_mismatch_and_bounds() {
    let mut mock = MockFlash::new(64, 16, 16);
    mock.write_region(0, b"123456789").unwrap();
    assert_eq!(verify_crc(&mock, 0, 9, 0xCBF4_3926), Ok(true));
    assert_eq!(verify_crc(&mock, 0, 9, 0xCBF4_3927), Ok(false));
    assert_eq!(verify_crc(&mock, 60, 5, 0), Err(FlashError::OutOfBounds));
}

#[test]
fn verify_bytes_mismatch_in_later_window() {
    let mut mock = MockFlash::new(1024, 256, 256);
    let mut data = vec![0x11u8; 600];
    mock.write_region(0, &data).unwrap();
    data[599] = 0x12;
    assert_eq!(verify_bytes(&mock, 0, &data, true), Ok(false));
}

#[test]
fn verify_bytes_without_stop_reports_true() {
    let mock = MockFlash::new(1024, 256, 256);
    // the flag off only reads the region; differences are not reported
    assert_eq!(verify_bytes(&mock, 0, &[0x00u8; 300], false), Ok(true));
    assert_eq!(verify_bytes(&mock, 900, &[0x00u8; 300], false), Err(FlashError::OutOfBounds));
    assert_eq!(verify_bytes(&mock, 900, &[0xFFu8; 300], true), Err(FlashError::OutOfBounds));
    assert_eq!(verify_bytes(&mock, 0, &[], true), Ok(true));
}

#[test]
fn verify_bytes_with_stop_past_end() {
    let mock = MockFlash::new(1024, 256, 256);
    let mut reference = vec![0xFFu8; 1100];
    // no difference before the window that crosses the end: the read fails
    reference[1050] = 0x00;
    assert_eq!(verify_bytes(&mock, 0, &reference, true), Err(FlashError::OutOfBounds));
    // a difference in an earlier window is found first
    reference[10] = 0x00;
    assert_eq!(verify_bytes(&mock, 0, &reference, true), Ok(false));
}
