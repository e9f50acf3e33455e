//! The memory-mapped on-chip flash: fixed base address and geometry.
//!
//! The part here is what can be decided from the geometry alone: address
//! translation and the argument checks of erase and program. Reading the
//! mapped memory is done by the platform layer on the absolute address that
//! `abs_range` hands out. The MCU-specific erase and program sequences are
//! not supplied, so those operations report a device error once their
//! arguments pass the checks.

use vstd::prelude::*;

use crate::flash::FlashError;

verus! {

/// The on-chip flash of the target, bound to a base address and geometry.
#[derive(Debug, Clone, Copy, PartialEq, Eq, Structural)]
pub struct InternalFlash {
    pub base_addr: usize,
    pub total_size: usize,
    pub sector_size: usize,
    pub page_size: usize,
}

/// The reason given by `erase_sector` when its arguments are valid.
pub const ERASE_UNSUPPORTED: &'static str =
    "InternalFlash::erase_sector not implemented - fill MCU-specific sequence";

/// The reason given by `program_page` when its arguments are valid.
pub const PROGRAM_UNSUPPORTED: &'static str =
    "InternalFlash::program_page not implemented - fill MCU-specific sequence";

impl InternalFlash {
    pub fn new(base_addr: usize, total_size: usize, sector_size: usize, page_size: usize) -> (r:
        Self)
        ensures
            r == (InternalFlash { base_addr, total_size, sector_size, page_size }),
    {
        InternalFlash { base_addr, total_size, sector_size, page_size }
    }

    pub fn size(&self) -> (r: usize)
        ensures
            r == self.total_size,
    {
        self.total_size
    }

    pub fn sector_size(&self) -> (r: usize)
        ensures
            r == self.sector_size,
    {
        self.sector_size
    }

    pub fn page_size(&self) -> (r: usize)
        ensures
            r == self.page_size,
    {
        self.page_size
    }

    /// The absolute address of the device offset `rel`.
    pub fn abs_addr(&self, rel: usize) -> (r: Result<usize, FlashError>)
        ensures
            rel < self.total_size && self.base_addr + rel <= usize::MAX ==> r == Ok::<
                usize,
                FlashError,
            >((self.base_addr + rel) as usize),
            rel >= self.total_size || self.base_addr + rel > usize::MAX ==> r == Err::<
                usize,
                FlashError,
            >(FlashError::OutOfBounds),
    {
        if rel >= self.total_size {
            return Err(FlashError::OutOfBounds);
        }
        match self.base_addr.checked_add(rel) {
            Some(a) => Ok(a),
            None => Err(FlashError::OutOfBounds),
        }
    }

    /// The absolute address at which `len` bytes at device offset `addr` may
    /// be read, if they lie within the device and the address space.
    pub fn abs_range(&self, addr: usize, len: usize) -> (r: Result<usize, FlashError>)
        ensures
            addr + len <= self.total_size && self.base_addr + addr + len <= usize::MAX ==> r
                == Ok::<usize, FlashError>((self.base_addr + addr) as usize),
            addr + len > self.total_size || self.base_addr + addr + len > usize::MAX ==> r
                == Err::<usize, FlashError>(FlashError::OutOfBounds),
    {
        let end = match addr.checked_add(len) {
            Some(e) => e,
            None => return Err(FlashError::OutOfBounds),
        };
        if end > self.total_size {
            return Err(FlashError::OutOfBounds);
        }
        match self.base_addr.checked_add(end) {
            Some(_) => Ok(self.base_addr + addr),
            None => Err(FlashError::OutOfBounds),
        }
    }

    /// Checks the arguments of a sector erase; no erase sequence is
    /// supplied, so valid arguments give a device error.
    pub fn erase_sector(&mut self, addr: usize) -> (r: Result<(), FlashError>)
        requires
            old(self).sector_size > 0,
        ensures
            *final(self) == *old(self),
            addr >= old(self).total_size ==> r == Err::<(), FlashError>(FlashError::OutOfBounds),
            addr < old(self).total_size && addr % old(self).sector_size != 0 ==> r == Err::<
                (),
                FlashError,
            >(FlashError::AlignmentError),
            addr < old(self).total_size && addr % old(self).sector_size == 0 && addr + old(
                self,
            ).sector_size > old(self).total_size ==> r == Err::<(), FlashError>(
                FlashError::OutOfBounds,
            ),
            addr % old(self).sector_size == 0 && addr + old(self).sector_size <= old(
                self,
            ).total_size ==> r == Err::<(), FlashError>(FlashError::DeviceError(ERASE_UNSUPPORTED)),
    {
        if addr >= self.total_size {
            return Err(FlashError::OutOfBounds);
        }
        if addr % self.sector_size != 0 {
            return Err(FlashError::AlignmentError);
        }
        match addr.checked_add(self.sector_size) {
            Some(end) => {
                if end > self.total_size {
                    return Err(FlashError::OutOfBounds);
                }
            },
            None => return Err(FlashError::OutOfBounds),
        }
        Err(FlashError::DeviceError(ERASE_UNSUPPORTED))
    }

    /// Checks the arguments of a page program; no program sequence is
    /// supplied, so valid arguments give a device error.
    pub fn program_page(&mut self, addr: usize, data: &[u8]) -> (r: Result<(), FlashError>)
        ensures
            *final(self) == *old(self),
            addr >= old(self).total_size ==> r == Err::<(), FlashError>(FlashError::OutOfBounds),
            addr < old(self).total_size && data@.len() > old(self).page_size ==> r == Err::<
                (),
                FlashError,
            >(FlashError::AlignmentError),
            addr < old(self).total_size && data@.len() <= old(self).page_size && addr + data@.len()
                > old(self).total_size ==> r == Err::<(), FlashError>(FlashError::OutOfBounds),
            addr < old(self).total_size && data@.len() <= old(self).page_size && addr + data@.len()
                <= old(self).total_size ==> r == Err::<(), FlashError>(
                FlashError::DeviceError(PROGRAM_UNSUPPORTED),
            ),
    {
        if addr >= self.total_size {
            return Err(FlashError::OutOfBounds);
        }
        if data.len() > self.page_size {
            return Err(FlashError::AlignmentError);
        }
        match addr.checked_add(data.len()) {
            Some(end) => {
                if end > self.total_size {
                    return Err(FlashError::OutOfBounds);
                }
            },
            None => return Err(FlashError::OutOfBounds),
        }
        Err(FlashError::DeviceError(PROGRAM_UNSUPPORTED))
    }
}

} // verus!
