//! The update session: a one-shot state machine that takes a firmware image
//! in contiguous chunks and commits it only after a whole-image checksum.

use vstd::arithmetic::div_mod::lemma_fundamental_div_mod_converse_div;
use vstd::prelude::*;

use crate::flash::{cover_end, crc32_of, erase_range, place, region, Flash, FlashError, ERASED};
use crate::verify::verify_crc;

verus! {

/// What the transport says of the incoming image.
#[derive(Debug, Clone, Copy, PartialEq, Eq, Structural)]
pub struct UpdateMetadata {
    /// Start address in flash where the image is written.
    pub target_addr: usize,
    /// Size of the image in bytes.
    pub image_size: usize,
    /// Expected CRC-32 of the whole image.
    pub expected_crc: u32,
}

/// Errors of the update session.
#[derive(Debug)]
pub enum UpdateError {
    Flash(FlashError),
    InvalidSize,
    CrcMismatch,
    TransferIncomplete,
    Other(&'static str),
}

/// The result of a step of the update session.
pub type UpdateResult<T> = core::result::Result<T, UpdateError>;

impl From<FlashError> for UpdateError {
    fn from(e: FlashError) -> (r: UpdateError)
        ensures
            r == UpdateError::Flash(e),
    {
        UpdateError::Flash(e)
    }
}

impl vstd::std_specs::convert::FromSpecImpl<FlashError> for UpdateError {
    open spec fn obeys_from_spec() -> bool {
        true
    }

    open spec fn from_spec(e: FlashError) -> UpdateError {
        UpdateError::Flash(e)
    }
}

/// The reason given when a chunk does not start where the last one ended.
pub const OFFSET_MISMATCH: &'static str = "Offset mismatch";

/// The reason given when a chunk would run past the end of the image.
pub const CHUNK_TOO_LARGE: &'static str = "Chunk exceeds image size";

/// One firmware transfer into a target region of a device it borrows
/// exclusively for its lifetime.
pub struct FirmwareUpdater<'a, F: Flash> {
    flash: &'a mut F,
    meta: UpdateMetadata,
    written: usize,
    received: Ghost<Seq<u8>>,
}

impl<'a, F: Flash> FirmwareUpdater<'a, F> {
    /// The device as the session currently sees it.
    pub closed spec fn device(&self) -> F {
        *self.flash
    }

    pub closed spec fn metadata(&self) -> UpdateMetadata {
        self.meta
    }

    /// How many bytes of the image have been written.
    pub closed spec fn bytes_written(&self) -> nat {
        self.written as nat
    }

    /// The bytes of the image accepted so far, in order.
    pub closed spec fn received(&self) -> Seq<u8> {
        self.received@
    }

    /// The session's invariant: the image lies within the device and no more
    /// than the image has been written.
    pub closed spec fn wf(&self) -> bool {
        &&& self.written <= self.meta.image_size
        &&& self.meta.target_addr + self.meta.image_size <= self.flash.bytes().len()
            <= usize::MAX
    }

    /// The target region holds exactly the chunks received so far, followed
    /// by erased bytes up to the end of the image. It holds from the start of
    /// a session and for as long as every chunk is written without a flash
    /// error.
    pub closed spec fn consistent(&self) -> bool {
        &&& self.received@.len() == self.written
        &&& region(self.flash.bytes(), self.meta.target_addr as int, self.written as int)
            == self.received@
        &&& forall|i: int|
            self.meta.target_addr + self.written <= i < self.meta.target_addr + self.meta.image_size
                ==> #[trigger] self.flash.bytes()[i] == ERASED
    }

    /// Starts a session: erases every sector of `[target_addr,
    /// target_addr + image_size)`, stepping by the sector size from
    /// `target_addr`.
    pub fn begin_update(flash: &'a mut F, meta: UpdateMetadata) -> (r: UpdateResult<Self>)
        ensures
            meta.image_size == 0 ==> r matches Err(UpdateError::InvalidSize),
            r matches Err(UpdateError::InvalidSize) ==> meta.image_size == 0,
            meta.image_size == 0 ==> *final(flash) == *old(flash),
            meta.image_size > 0 && r is Err ==> r matches Err(UpdateError::Flash(_)),
            old(flash).reliable() && meta.image_size > 0 && old(flash).sector_len() > 0
                && meta.target_addr % old(flash).sector_len() == 0 && cover_end(
                meta.target_addr as int,
                meta.image_size as int,
                old(flash).sector_len() as int,
            ) > old(flash).bytes().len() ==> r matches Err(
                UpdateError::Flash(FlashError::OutOfBounds),
            ),
            meta.image_size > 0 && old(flash).sector_len() == 0 ==> r matches Err(
                UpdateError::Flash(FlashError::DeviceError(_)),
            ),
            meta.image_size > 0 && old(flash).sector_len() > 0 && meta.target_addr >= old(
                flash,
            ).bytes().len() ==> r matches Err(UpdateError::Flash(FlashError::OutOfBounds)),
            meta.image_size > 0 && old(flash).sector_len() > 0 && meta.target_addr < old(
                flash,
            ).bytes().len() && meta.target_addr % old(flash).sector_len() != 0 ==> r matches Err(
                UpdateError::Flash(FlashError::AlignmentError),
            ),
            r matches Ok(u) ==> {
                &&& u.wf()
                &&& u.consistent()
                &&& u.metadata() == meta
                &&& u.bytes_written() == 0
                &&& u.received() == Seq::<u8>::empty()
                &&& meta.image_size > 0
                &&& meta.target_addr % old(flash).sector_len() == 0
                &&& cover_end(
                    meta.target_addr as int,
                    meta.image_size as int,
                    old(flash).sector_len() as int,
                ) <= old(flash).bytes().len()
                &&& u.device().bytes() == erase_range(
                    old(flash).bytes(),
                    meta.target_addr as int,
                    cover_end(
                        meta.target_addr as int,
                        meta.image_size as int,
                        old(flash).sector_len() as int,
                    ),
                )
                &&& u.device().sector_len() == old(flash).sector_len()
                &&& u.device().page_len() == old(flash).page_len()
                &&& u.device().reliable() == old(flash).reliable()
            },
            old(flash).reliable() ==> (r is Ok <==> {
                &&& meta.image_size > 0
                &&& old(flash).sector_len() > 0
                &&& meta.target_addr % old(flash).sector_len() == 0
                &&& cover_end(
                    meta.target_addr as int,
                    meta.image_size as int,
                    old(flash).sector_len() as int,
                ) <= old(flash).bytes().len()
            }),
    {
        if meta.image_size == 0 {
            return Err(UpdateError::InvalidSize);
        }
        let size = flash.size();
        let sector = flash.sector_size();
        if sector == 0 {
            return Err(UpdateError::Flash(FlashError::DeviceError("invalid sector size")));
        }
        let target = meta.target_addr;
        let end = match target.checked_add(meta.image_size) {
            Some(e) => e,
            None => {
                if target >= size {
                    proof {
                        if target % sector == 0 {
                            lemma_cover_end_bounds(
                                target as int,
                                meta.image_size as int,
                                sector as int,
                            );
                        }
                    }
                    return Err(UpdateError::Flash(FlashError::OutOfBounds));
                }
                if target % sector != 0 {
                    return Err(UpdateError::Flash(FlashError::AlignmentError));
                }
                proof {
                    lemma_cover_end_bounds(target as int, meta.image_size as int, sector as int);
                }
                return Err(UpdateError::Flash(FlashError::OutOfBounds));
            },
        };
        let ghost before = flash.bytes();
        let ghost reliable0 = flash.reliable();
        let ghost page0 = flash.page_len();
        let ghost mut steps: int = 0;
        let mut addr: usize = target;
        while addr < end
            invariant
                size == flash.bytes().len() == before.len(),
                sector == flash.sector_len() > 0,
                flash.page_len() == page0,
                flash.reliable() == reliable0,
                before == old(flash).bytes(),
                sector == old(flash).sector_len(),
                page0 == old(flash).page_len(),
                reliable0 == old(flash).reliable(),
                end == target + meta.image_size,
                meta.image_size > 0,
                target == meta.target_addr,
                0 <= steps,
                addr == target + steps * sector,
                steps > 0 ==> target % sector == 0 && addr <= size && (steps - 1) * sector
                    < meta.image_size,
                flash.bytes() == erase_range(before, target as int, addr as int),
                addr < end + sector,
            decreases end + sector - addr,
        {
            proof {
                assert((steps + 1) * sector == steps * sector + sector) by (nonlinear_arith);
                if reliable0 && target % sector == 0 && cover_end(
                    target as int,
                    meta.image_size as int,
                    sector as int,
                ) <= size {
                    lemma_step_within_cover(
                        target as int,
                        meta.image_size as int,
                        sector as int,
                        steps,
                    );
                }
                if steps == 0 {
                    assert(addr == target);
                } else {
                    lemma_aligned_step(target as int, sector as int, steps);
                }
            }
            match flash.erase_sector(addr) {
                Ok(()) => {},
                Err(e) => {
                    proof {
                        if reliable0 && target % sector == 0 {
                            lemma_cover_end_bounds(
                                target as int,
                                meta.image_size as int,
                                sector as int,
                            );
                            assert(e == FlashError::OutOfBounds);
                        }
                    }
                    return Err(UpdateError::Flash(e));
                },
            }
            assert(flash.bytes() =~= erase_range(before, target as int, addr + sector));
            addr = addr + sector;
            proof {
                steps = steps + 1;
            }
        }
        proof {
            lemma_cover_end_exact(target as int, meta.image_size as int, sector as int, steps);
            lemma_cover_end_bounds(target as int, meta.image_size as int, sector as int);
            assert(region(flash.bytes(), target as int, 0) =~= Seq::<u8>::empty());
        }
        Ok(FirmwareUpdater { flash, meta, written: 0, received: Ghost(Seq::empty()) })
    }

    /// Writes the next chunk of the image. A chunk must start where the
    /// previous one ended and must not run past the end of the image. The
    /// region was erased when the session began, so the chunk is programmed
    /// and verified page by page without erasing again.
    pub fn write_chunk(&mut self, offset: usize, data: &[u8]) -> (r: UpdateResult<()>)
        requires
            old(self).wf(),
        ensures
            final(self).wf(),
            final(self).metadata() == old(self).metadata(),
            final(self).device().bytes().len() == old(self).device().bytes().len(),
            final(self).device().sector_len() == old(self).device().sector_len(),
            final(self).device().page_len() == old(self).device().page_len(),
            final(self).device().reliable() == old(self).device().reliable(),
            offset != old(self).bytes_written() ==> r == Err::<(), UpdateError>(
                UpdateError::Other(OFFSET_MISMATCH),
            ),
            r == Err::<(), UpdateError>(UpdateError::Other(OFFSET_MISMATCH)) ==> offset != old(
                self,
            ).bytes_written(),
            r == Err::<(), UpdateError>(UpdateError::Other(CHUNK_TOO_LARGE)) ==> offset == old(
                self,
            ).bytes_written() && offset + data@.len() > old(self).metadata().image_size,
            offset == old(self).bytes_written() && offset + data@.len() <= old(
                self,
            ).metadata().image_size && r is Err ==> r matches Err(UpdateError::Flash(_)),
            offset == old(self).bytes_written() && offset + data@.len() > old(
                self,
            ).metadata().image_size ==> r == Err::<(), UpdateError>(
                UpdateError::Other(CHUNK_TOO_LARGE),
            ),
            r matches Err(UpdateError::Other(_)) ==> *final(self) == *old(self),
            r is Err ==> final(self).bytes_written() == old(self).bytes_written(),
            r is Err ==> r matches Err(UpdateError::Other(_)) || r matches Err(
                UpdateError::Flash(_),
            ),
            r is Ok ==> {
                &&& final(self).bytes_written() == old(self).bytes_written() + data@.len()
                &&& final(self).received() == old(self).received() + data@
                &&& final(self).device().bytes() == place(
                    old(self).device().bytes(),
                    old(self).metadata().target_addr + offset,
                    data@,
                )
            },
            old(self).consistent() && r is Ok ==> final(self).consistent(),
            old(self).consistent() && old(self).device().reliable() && offset == old(
                self,
            ).bytes_written() && offset + data@.len() <= old(self).metadata().image_size ==> (r is Ok
                <==> (data@.len() == 0 || old(self).device().page_len() > 0)),
    {
        if offset != self.written {
            return Err(UpdateError::Other(OFFSET_MISMATCH));
        }
        if data.len() > self.meta.image_size - offset {
            return Err(UpdateError::Other(CHUNK_TOO_LARGE));
        }
        let abs_addr = self.meta.target_addr + offset;
        proof {
            if self.consistent() {
                assert forall|i: int| 0 <= i < data@.len() implies #[trigger] data@[i]
                    & self.flash.bytes()[abs_addr + i] == data@[i] by {
                    assert(self.flash.bytes()[abs_addr + i] == ERASED);
                    let d = data@[i];
                    assert(d & 0xFF == d) by (bit_vector);
                }
            }
        }
        let ghost was_consistent = self.consistent();
        let ghost before = self.flash.bytes();
        match self.flash.program_region(abs_addr, data) {
            Ok(()) => {},
            Err(e) => return Err(UpdateError::Flash(e)),
        }
        self.written = self.written + data.len();
        proof {
            let prev = self.received@;
            self.received = Ghost(prev + data@);
            if was_consistent {
                assert(region(self.flash.bytes(), self.meta.target_addr as int, self.written as int)
                    =~= self.received@) by {
                    assert forall|i: int| 0 <= i < offset implies self.flash.bytes()[
                        self.meta.target_addr + i] == #[trigger] prev[i] by {
                        assert(region(before, self.meta.target_addr as int, offset as int)[i]
                            == prev[i]);
                    }
                }
            }
        }
        Ok(())
    }

    /// Ends the session: the image counts as committed only if every byte
    /// was written and the region's CRC-32 equals the expected one.
    pub fn finalize_update(self) -> (r: UpdateResult<()>)
        requires
            self.wf(),
        ensures
            self.bytes_written() != self.metadata().image_size ==> r matches Err(
                UpdateError::TransferIncomplete,
            ),
            self.consistent() && self.bytes_written() == self.metadata().image_size ==> region(
                self.device().bytes(),
                self.metadata().target_addr as int,
                self.metadata().image_size as int,
            ) == self.received(),
            r is Ok ==> {
                &&& self.bytes_written() == self.metadata().image_size
                &&& crc32_of(
                    region(
                        self.device().bytes(),
                        self.metadata().target_addr as int,
                        self.metadata().image_size as int,
                    ),
                ) == self.metadata().expected_crc
            },
            r matches Err(UpdateError::CrcMismatch) ==> crc32_of(
                region(
                    self.device().bytes(),
                    self.metadata().target_addr as int,
                    self.metadata().image_size as int,
                ),
            ) != self.metadata().expected_crc,
            r is Err ==> r matches Err(UpdateError::TransferIncomplete) || r matches Err(
                UpdateError::CrcMismatch,
            ) || r matches Err(UpdateError::Flash(_)),
            self.device().reliable() && self.bytes_written() == self.metadata().image_size ==> (
            r is Ok <==> crc32_of(
                region(
                    self.device().bytes(),
                    self.metadata().target_addr as int,
                    self.metadata().image_size as int,
                ),
            ) == self.metadata().expected_crc) && (r is Err ==> r matches Err(
                UpdateError::CrcMismatch,
            )),
    {
        if self.written != self.meta.image_size {
            return Err(UpdateError::TransferIncomplete);
        }
        let ok = match verify_crc(
            &*self.flash,
            self.meta.target_addr,
            self.meta.image_size,
            self.meta.expected_crc,
        ) {
            Ok(b) => b,
            Err(e) => return Err(UpdateError::Flash(e)),
        };
        if !ok {
            return Err(UpdateError::CrcMismatch);
        }
        Ok(())
    }
}

/// The sectors that cover `[start, start + len)` end no earlier than the
/// range, and by less than one sector after it.
proof fn lemma_cover_end_bounds(start: int, len: int, sector: int)
    requires
        0 <= start,
        0 < len,
        0 < sector,
        start % sector == 0,
    ensures
        start + len <= cover_end(start, len, sector) < start + len + sector,
        cover_end(start, len, sector) >= start + sector,
{
    let x = start + len - 1;
    let q = x / sector;
    vstd::arithmetic::div_mod::lemma_fundamental_div_mod(x, sector);
    vstd::arithmetic::div_mod::lemma_mod_bound(x, sector);
    vstd::arithmetic::div_mod::lemma_fundamental_div_mod(start, sector);
    let qs = start / sector;
    assert(x == sector * q + x % sector);
    assert(start == sector * qs);
    assert(qs <= q) by {
        vstd::arithmetic::div_mod::lemma_div_is_ordered(start, x, sector);
    }
    assert((q + 1) * sector == sector * q + sector) by (nonlinear_arith);
    assert(sector * qs + sector <= sector * q + sector) by (nonlinear_arith)
        requires
            qs <= q,
            0 < sector,
    ;
}

/// For an aligned start, the step count that reaches at least `len` lands
/// exactly on the end of the covering sectors.
proof fn lemma_cover_end_exact(start: int, len: int, sector: int, steps: int)
    requires
        0 <= start,
        0 < len,
        0 < sector,
        0 < steps,
        start % sector == 0,
        (steps - 1) * sector < len <= steps * sector,
    ensures
        cover_end(start, len, sector) == start + steps * sector,
{
    vstd::arithmetic::div_mod::lemma_fundamental_div_mod(start, sector);
    let qs = start / sector;
    assert(start == qs * sector) by (nonlinear_arith)
        requires
            start == sector * qs + 0,
    ;
    let x = start + len - 1;
    let q = qs + steps - 1;
    let rem = x - q * sector;
    assert(q * sector == qs * sector + (steps - 1) * sector) by (nonlinear_arith)
        requires
            q == qs + steps - 1,
    ;
    assert(steps * sector == (steps - 1) * sector + sector) by (nonlinear_arith);
    assert(0 <= rem < sector);
    lemma_fundamental_div_mod_converse_div(x, sector, q, rem);
    assert((q + 1) * sector == start + steps * sector) by (nonlinear_arith)
        requires
            q == qs + steps - 1,
            start == qs * sector,
    ;
}

/// Every step taken before the covering sectors are all erased stays within
/// them.
proof fn lemma_step_within_cover(start: int, len: int, sector: int, steps: int)
    requires
        0 <= start,
        0 < len,
        0 < sector,
        0 <= steps,
        start % sector == 0,
        steps * sector < len,
    ensures
        start + steps * sector + sector <= cover_end(start, len, sector),
{
    lemma_cover_end_bounds(start, len, sector);
    vstd::arithmetic::div_mod::lemma_fundamental_div_mod(start, sector);
    let qs = start / sector;
    let x = start + len - 1;
    let q = x / sector;
    vstd::arithmetic::div_mod::lemma_fundamental_div_mod(x, sector);
    vstd::arithmetic::div_mod::lemma_mod_bound(x, sector);
    assert(start + steps * sector <= x);
    assert(start + steps * sector == (qs + steps) * sector) by (nonlinear_arith)
        requires
            start == sector * qs + 0,
    ;
    assert(qs + steps <= q) by (nonlinear_arith)
        requires
            (qs + steps) * sector <= x,
            x == sector * q + x % sector,
            0 <= x % sector < sector,
            0 < sector,
    ;
    assert((qs + steps) * sector + sector <= (q + 1) * sector) by (nonlinear_arith)
        requires
            qs + steps <= q,
            0 < sector,
    ;
}

/// A start that is a multiple of the sector size stays one after whole
/// steps.
proof fn lemma_aligned_step(start: int, sector: int, steps: int)
    requires
        0 <= start,
        0 < sector,
        0 <= steps,
        start % sector == 0,
    ensures
        (start + steps * sector) % sector == 0,
{
    vstd::arithmetic::div_mod::lemma_fundamental_div_mod(start, sector);
    let qs = start / sector;
    assert(start + steps * sector == (qs + steps) * sector + 0) by (nonlinear_arith)
        requires
            start == sector * qs + start % sector,
            start % sector == 0,
    ;
    vstd::arithmetic::div_mod::lemma_fundamental_div_mod_converse_mod(
        start + steps * sector,
        sector,
        qs + steps,
        0,
    );
}

} // verus!
