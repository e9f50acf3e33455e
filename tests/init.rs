use m2_bootloader::init::{init_hardware, BootHardware};

#[test]
fn test_init_hardware_success() {
    let hw = init_hardware().unwrap();
    assert!(hw.flash_ready);
    assert!(hw.peripherals_ready);
    assert_eq!(hw.clock_speed_hz, 48_000_000);
}

#[test]
fn boot_hardware_starts_unready() {
    let hw = BootHardware::new();
    assert_eq!(hw.clock_speed_hz, 0);
    assert!(!hw.flash_ready);
    assert!(!hw.peripherals_ready);
}
