//! Boot-time hardware bring-up.
//!
//! The clock, flash-interface and peripheral setup steps are hooks for a
//! particular MCU; with none supplied they succeed and the system clock reads
//! as 48 MHz.

use vstd::prelude::*;

verus! {

/// The system clock frequency reported when no MCU-specific readback is
/// supplied.
pub const DEFAULT_CLOCK_HZ: u32 = 48_000_000;

/// Errors of hardware initialization.
#[derive(Debug, PartialEq, Eq)]
pub enum InitError {
    ClockConfig,
    FlashConfig,
    PeripheralInit,
    Other(&'static str),
}

/// The result of hardware initialization.
pub type Result<T> = core::result::Result<T, InitError>;

/// The state of the hardware the bootloader runs on.
#[derive(Debug, Clone, Copy, PartialEq, Eq, Structural)]
pub struct BootHardware {
    pub clock_speed_hz: u32,
    pub flash_ready: bool,
    pub peripherals_ready: bool,
}

impl BootHardware {
    /// Hardware not yet brought up.
    pub fn new() -> (r: Self)
        ensures
            r == (BootHardware { clock_speed_hz: 0, flash_ready: false, peripherals_ready: false }),
    {
        BootHardware { clock_speed_hz: 0, flash_ready: false, peripherals_ready: false }
    }
}

/// Brings up the flash interface and the peripherals, then reports the
/// clock and readiness.
pub fn init_hardware() -> (r: Result<BootHardware>)
    ensures
        r == Ok::<BootHardware, InitError>(
            BootHardware { clock_speed_hz: DEFAULT_CLOCK_HZ, flash_ready: true, peripherals_ready: true },
        ),
{
    match flash_interface_setup() {
        Ok(()) => {},
        Err(e) => return Err(e),
    }
    match peripherals_setup() {
        Ok(()) => {},
        Err(e) => return Err(e),
    }
    Ok(BootHardware { clock_speed_hz: system_clock_hz(), flash_ready: true, peripherals_ready: true })
}

/// Flash wait states, caches or unlock sequences; none are needed here.
fn flash_interface_setup() -> (r: Result<()>)
    ensures
        r is Ok,
{
    Ok(())
}

/// Communication peripherals (UART/USB); none are needed here.
fn peripherals_setup() -> (r: Result<()>)
    ensures
        r is Ok,
{
    Ok(())
}

/// The configured system clock frequency in Hz.
fn system_clock_hz() -> (r: u32)
    ensures
        r == DEFAULT_CLOCK_HZ,
{
    DEFAULT_CLOCK_HZ
}

} // verus!
