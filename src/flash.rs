//! The flash device abstraction.
//!
//! A device is modelled as a sequence of bytes together with its sector and
//! page sizes. Erasing sets every byte of a sector to `0xFF`; programming can
//! only clear bits, so data is written over erased bytes.

use vstd::arithmetic::div_mod::{lemma_fundamental_div_mod, lemma_mod_bound};
use vstd::prelude::*;
use vstd::slice::slice_subrange;

verus! {

/// The page size suggested for devices that have no geometry of their own.
pub const DEFAULT_PAGE_SIZE: usize = 256;

/// The value every byte holds right after its sector was erased.
pub const ERASED: u8 = 0xFF;

/// Errors returned by flash operations.
#[derive(Debug, PartialEq, Eq)]
pub enum FlashError {
    OutOfBounds,
    AlignmentError,
    DeviceError(&'static str),
    VerificationFailed { addr: usize, expected: u8, found: u8 },
}

/// The result of a flash operation.
pub type Result<T> = core::result::Result<T, FlashError>;

/// `bytes` with every byte in `[lo, hi)` set to the erased value.
pub open spec fn erase_range(bytes: Seq<u8>, lo: int, hi: int) -> Seq<u8> {
    Seq::new(bytes.len(), |i: int| if lo <= i < hi { ERASED } else { bytes[i] })
}

/// `bytes` with `data` placed at `addr`.
pub open spec fn place(bytes: Seq<u8>, addr: int, data: Seq<u8>) -> Seq<u8> {
    Seq::new(
        bytes.len(),
        |i: int| if addr <= i < addr + data.len() { data[i - addr] } else { bytes[i] },
    )
}

/// The `len` bytes that start at `addr`.
pub open spec fn region(bytes: Seq<u8>, addr: int, len: int) -> Seq<u8> {
    bytes.subrange(addr, addr + len)
}

/// Programming `data` over the bytes at `addr` only clears bits: no bit of
/// `data` is 1 where the stored bit is 0.
pub open spec fn can_program(bytes: Seq<u8>, addr: int, data: Seq<u8>) -> bool {
    forall|i: int| 0 <= i < data.len() ==> #[trigger] data[i] & bytes[addr + i] == data[i]
}

/// What a program operation that failed may leave behind: nothing outside
/// `[addr, addr + data.len())` changes, and each byte inside either keeps its
/// value or received its data byte where that only cleared bits. A byte that
/// would need a bit set back to 1 therefore keeps its value.
pub open spec fn partially_programmed(
    before: Seq<u8>,
    after: Seq<u8>,
    addr: int,
    data: Seq<u8>,
) -> bool {
    &&& after.len() == before.len()
    &&& forall|i: int|
        0 <= i < before.len() && !(addr <= i < addr + data.len()) ==> #[trigger] after[i]
            == before[i]
    &&& forall|j: int|
        0 <= j < data.len() ==> #[trigger] after[addr + j] == before[addr + j] || (data[j]
            & before[addr + j] == data[j] && after[addr + j] == data[j])
}

/// The offset `k` is the first at which the bytes at `addr` differ from `data`.
pub open spec fn first_mismatch(bytes: Seq<u8>, addr: int, data: Seq<u8>, k: int) -> bool {
    &&& 0 <= k < data.len()
    &&& bytes[addr + k] != data[k]
    &&& forall|j: int| 0 <= j < k ==> bytes[addr + j] == #[trigger] data[j]
}

/// A program operation at `addr` of `len` bytes is within the device and
/// within one page.
pub open spec fn program_args_ok(size: int, page: int, addr: int, len: int) -> bool {
    addr < size && len <= page && addr + len <= size
}

/// First address of the sector that holds `addr`.
pub open spec fn cover_start(addr: int, sector: int) -> int {
    (addr / sector) * sector
}

/// One past the last address of the sector that holds `addr + len - 1`.
pub open spec fn cover_end(addr: int, len: int, sector: int) -> int {
    ((addr + len - 1) / sector + 1) * sector
}

/// The contents after writing `data` at `addr`: the sectors covering the
/// range are erased, then `data` is placed. Writing nothing changes nothing.
pub open spec fn region_written(before: Seq<u8>, addr: int, data: Seq<u8>, sector: int) -> Seq<
    u8,
> {
    if data.len() == 0 {
        before
    } else {
        place(
            erase_range(before, cover_start(addr, sector), cover_end(addr, data.len() as int, sector)),
            addr,
            data,
        )
    }
}

/// The CRC-32 (standard polynomial, reflected) of a byte sequence.
pub uninterp spec fn crc32_of(b: Seq<u8>) -> u32;

/// Relies on crc32fast::hash: the CRC-32 of the bytes, a function of them alone.
#[verifier::external_body]
fn crc32_hash(b: &[u8]) -> (r: u32)
    ensures
        r == crc32_of(b@),
{
    crc32fast::hash(b)
}

proof fn lemma_sector_floor(x: int, sector: int)
    requires
        0 <= x,
        0 < sector,
    ensures
        0 <= x / sector <= x,
        0 <= (x / sector) * sector <= x < (x / sector) * sector + sector,
{
    lemma_fundamental_div_mod(x, sector);
    lemma_mod_bound(x, sector);
    let q = x / sector;
    let r = x % sector;
    assert(0 <= q <= x && q * sector == sector * q) by (nonlinear_arith)
        requires
            x == sector * q + r,
            0 <= r < sector,
            0 <= x,
    ;
}

proof fn lemma_div_monotone(x: int, y: int, sector: int)
    requires
        0 <= x <= y,
        0 < sector,
    ensures
        x / sector <= y / sector,
{
    vstd::arithmetic::div_mod::lemma_div_is_ordered(x, y, sector);
}

proof fn lemma_and_erased(d: u8)
    ensures
        d & ERASED == d,
{
    assert(d & 0xFF == d) by (bit_vector);
}

/// A storage device that can be read, erased by sector and programmed by page.
pub trait Flash {
    /// The current contents of the device; its length is the capacity.
    spec fn bytes(&self) -> Seq<u8>;

    /// The erase granularity.
    spec fn sector_len(&self) -> usize;

    /// The program granularity.
    spec fn page_len(&self) -> usize;

    /// The device fails only in the ways its contracts name for the arguments
    /// given (true of an in-memory device; a hardware driver may fail for
    /// reasons of its own).
    spec fn reliable(&self) -> bool;

    fn size(&self) -> (r: usize)
        ensures
            r == self.bytes().len(),
    ;

    fn sector_size(&self) -> (r: usize)
        ensures
            r == self.sector_len(),
    ;

    fn page_size(&self) -> (r: usize)
        ensures
            r == self.page_len(),
    ;

    /// Reads the `len` bytes that start at `addr`.
    fn read(&self, addr: usize, len: usize) -> (r: Result<Vec<u8>>)
        ensures
            addr + len > self.bytes().len() ==> r == Err::<Vec<u8>, FlashError>(
                FlashError::OutOfBounds,
            ),
            r matches Ok(v) ==> v@ == region(self.bytes(), addr as int, len as int),
            !(r matches Err(FlashError::VerificationFailed { .. })),
            self.reliable() && addr + len <= self.bytes().len() ==> r is Ok,
    ;

    /// Sets every byte of the sector that starts at `addr` to `0xFF`.
    fn erase_sector(&mut self, addr: usize) -> (r: Result<()>)
        requires
            old(self).sector_len() > 0,
        ensures
            final(self).bytes().len() == old(self).bytes().len(),
            final(self).sector_len() == old(self).sector_len(),
            final(self).page_len() == old(self).page_len(),
            final(self).reliable() == old(self).reliable(),
            addr >= old(self).bytes().len() ==> r == Err::<(), FlashError>(
                FlashError::OutOfBounds,
            ),
            addr < old(self).bytes().len() && addr % old(self).sector_len() != 0 ==> r == Err::<
                (),
                FlashError,
            >(FlashError::AlignmentError),
            addr < old(self).bytes().len() && addr % old(self).sector_len() == 0 && addr + old(
                self,
            ).sector_len() > old(self).bytes().len() ==> r == Err::<(), FlashError>(
                FlashError::OutOfBounds,
            ),
            r is Err ==> final(self).bytes() == old(self).bytes(),
            r is Ok ==> {
                &&& addr % old(self).sector_len() == 0
                &&& addr + old(self).sector_len() <= old(self).bytes().len()
                &&& final(self).bytes() == erase_range(
                    old(self).bytes(),
                    addr as int,
                    addr + old(self).sector_len(),
                )
            },
            old(self).reliable() && addr % old(self).sector_len() == 0 && addr + old(
                self,
            ).sector_len() <= old(self).bytes().len() ==> r is Ok,
    ;

    /// Programs `data` at `addr`: each stored byte becomes its AND with the
    /// data byte. Fails with a device error, rather than corrupt data, where a
    /// bit would have to go from 0 back to 1.
    fn program_page(&mut self, addr: usize, data: &[u8]) -> (r: Result<()>)
        ensures
            final(self).bytes().len() == old(self).bytes().len(),
            final(self).sector_len() == old(self).sector_len(),
            final(self).page_len() == old(self).page_len(),
            final(self).reliable() == old(self).reliable(),
            addr >= old(self).bytes().len() ==> r == Err::<(), FlashError>(
                FlashError::OutOfBounds,
            ),
            addr < old(self).bytes().len() && data@.len() > old(self).page_len() ==> r == Err::<
                (),
                FlashError,
            >(FlashError::AlignmentError),
            addr < old(self).bytes().len() && data@.len() <= old(self).page_len() && addr
                + data@.len() > old(self).bytes().len() ==> r == Err::<(), FlashError>(
                FlashError::OutOfBounds,
            ),
            !program_args_ok(
                old(self).bytes().len() as int,
                old(self).page_len() as int,
                addr as int,
                data@.len() as int,
            ) ==> final(self).bytes() == old(self).bytes(),
            r is Ok ==> {
                &&& program_args_ok(
                    old(self).bytes().len() as int,
                    old(self).page_len() as int,
                    addr as int,
                    data@.len() as int,
                )
                &&& can_program(old(self).bytes(), addr as int, data@)
                &&& final(self).bytes() == place(old(self).bytes(), addr as int, data@)
            },
            r is Err ==> partially_programmed(
                old(self).bytes(),
                final(self).bytes(),
                addr as int,
                data@,
            ),
            program_args_ok(
                old(self).bytes().len() as int,
                old(self).page_len() as int,
                addr as int,
                data@.len() as int,
            ) && !can_program(old(self).bytes(), addr as int, data@) ==> r matches Err(
                FlashError::DeviceError(_),
            ),
            old(self).reliable() && program_args_ok(
                old(self).bytes().len() as int,
                old(self).page_len() as int,
                addr as int,
                data@.len() as int,
            ) && can_program(old(self).bytes(), addr as int, data@) ==> r is Ok,
    ;

    /// Reads back `data.len()` bytes at `addr` and compares them with `data`,
    /// reporting the first differing byte.
    fn verify(&self, addr: usize, data: &[u8]) -> (r: Result<()>)
        ensures
            addr + data@.len() > self.bytes().len() ==> r == Err::<(), FlashError>(
                FlashError::OutOfBounds,
            ),
            r is Ok ==> addr + data@.len() <= self.bytes().len() && region(
                self.bytes(),
                addr as int,
                data@.len() as int,
            ) == data@,
            r matches Err(FlashError::VerificationFailed { addr: a, expected, found }) ==> {
                &&& first_mismatch(self.bytes(), addr as int, data@, a - addr)
                &&& expected == data@[a - addr]
                &&& found == self.bytes()[a as int]
            },
            self.reliable() && addr + data@.len() <= self.bytes().len() ==> {
                &&& r is Ok <==> region(self.bytes(), addr as int, data@.len() as int) == data@
                &&& r is Err ==> r matches Err(FlashError::VerificationFailed { .. })
            },
    {
        let _capacity = self.size();
        let buf = match self.read(addr, data.len()) {
            Ok(b) => b,
            Err(e) => return Err(e),
        };
        let mut i: usize = 0;
        while i < data.len()
            invariant
                i <= data@.len(),
                addr + data@.len() <= self.bytes().len() <= usize::MAX,
                buf@ == region(self.bytes(), addr as int, data@.len() as int),
                forall|j: int| 0 <= j < i ==> self.bytes()[addr + j] == #[trigger] data@[j],
            decreases data@.len() - i,
        {
            if data[i] != buf[i] {
                return Err(
                    FlashError::VerificationFailed { addr: addr + i, expected: data[i], found: buf[i] },
                );
            }
            i += 1;
        }
        assert(region(self.bytes(), addr as int, data@.len() as int) =~= data@);
        Ok(())
    }

    /// Writes `data` at `addr`: erases every sector that the range touches,
    /// in ascending order, then programs the data page by page, verifying each
    /// page right after it is programmed. Stops at the first failure.
    fn write_region(&mut self, addr: usize, data: &[u8]) -> (r: Result<()>)
        ensures
            final(self).bytes().len() == old(self).bytes().len(),
            final(self).sector_len() == old(self).sector_len(),
            final(self).page_len() == old(self).page_len(),
            final(self).reliable() == old(self).reliable(),
            addr + data@.len() > old(self).bytes().len() ==> r == Err::<(), FlashError>(
                FlashError::OutOfBounds,
            ) && final(self).bytes() == old(self).bytes(),
            addr + data@.len() <= old(self).bytes().len() && data@.len() == 0 ==> r is Ok,
            r is Ok ==> {
                &&& addr + data@.len() <= old(self).bytes().len()
                &&& final(self).bytes() == region_written(
                    old(self).bytes(),
                    addr as int,
                    data@,
                    old(self).sector_len() as int,
                )
            },
            r is Ok && data@.len() > 0 ==> {
                &&& old(self).sector_len() > 0
                &&& old(self).page_len() > 0
                &&& cover_end(addr as int, data@.len() as int, old(self).sector_len() as int)
                    <= old(self).bytes().len()
            },
            addr + data@.len() <= old(self).bytes().len() && data@.len() > 0 && old(
                self,
            ).sector_len() == 0 ==> r matches Err(FlashError::DeviceError(_)),
            old(self).reliable() && addr + data@.len() <= old(self).bytes().len() ==> (r is Ok
                <==> (data@.len() == 0 || (old(self).sector_len() > 0 && old(self).page_len() > 0
                && cover_end(addr as int, data@.len() as int, old(self).sector_len() as int)
                <= old(self).bytes().len()))),
            old(self).reliable() && addr + data@.len() <= old(self).bytes().len() && data@.len() > 0
                && old(self).sector_len() > 0 && cover_end(
                addr as int,
                data@.len() as int,
                old(self).sector_len() as int,
            ) > old(self).bytes().len() ==> r == Err::<(), FlashError>(FlashError::OutOfBounds),
    {
        let size = self.size();
        match addr.checked_add(data.len()) {
            None => return Err(FlashError::OutOfBounds),
            Some(end) => {
                if end > size {
                    return Err(FlashError::OutOfBounds);
                }
            },
        }
        if data.len() == 0 {
            return Ok(());
        }
        let sector = self.sector_size();
        if sector == 0 {
            return Err(FlashError::DeviceError("invalid sector size"));
        }
        let last = addr + data.len() - 1;
        let start_sector = addr / sector;
        let end_sector = last / sector;
        proof {
            lemma_sector_floor(addr as int, sector as int);
            lemma_sector_floor(last as int, sector as int);
            lemma_div_monotone(addr as int, last as int, sector as int);
        }
        let ghost before = self.bytes();
        let ghost page0 = self.page_len();
        let ghost reliable0 = self.reliable();
        let mut k: usize = start_sector;
        while k <= end_sector
            invariant
                sector == self.sector_len() > 0,
                size == self.bytes().len() == before.len(),
                self.page_len() == page0,
                self.reliable() == reliable0,
                before == old(self).bytes(),
                page0 == old(self).page_len(),
                reliable0 == old(self).reliable(),
                sector == old(self).sector_len(),
                0 < data@.len(),
                addr + data@.len() <= size,
                last == addr + data@.len() - 1,
                start_sector <= k <= end_sector + 1,
                start_sector == addr / sector,
                end_sector == last / sector,
                end_sector * sector <= last < usize::MAX,
                k * sector <= size,
                self.bytes() == erase_range(before, start_sector * sector, k * sector),
            decreases end_sector + 1 - k,
        {
            proof {
                assert(k * sector <= end_sector * sector) by (nonlinear_arith)
                    requires
                        k <= end_sector,
                        0 < sector,
                ;
                assert((k + 1) * sector == k * sector + sector) by (nonlinear_arith);
                assert(start_sector * sector <= k * sector) by (nonlinear_arith)
                    requires
                        start_sector <= k,
                        0 < sector,
                ;
                assert(((k as int) * (sector as int)) % (sector as int) == 0) by (nonlinear_arith)
                    requires
                        0 < sector,
                ;
                if reliable0 && cover_end(addr as int, data@.len() as int, sector as int) <= size {
                    assert(cover_end(addr as int, data@.len() as int, sector as int) == (end_sector
                        + 1) * sector);
                    assert((k + 1) * sector <= (end_sector + 1) * sector) by (nonlinear_arith)
                        requires
                            k <= end_sector,
                            0 < sector,
                    ;
                    assert(k * sector + sector <= size);
                }
            }
            let sector_addr = k * sector;
            match self.erase_sector(sector_addr) {
                Ok(()) => {},
                Err(e) => {
                    proof {
                        if reliable0 {
                            assert(sector_addr < size);
                        }
                    }
                    return Err(e);
                },
            }
            assert(self.bytes() =~= erase_range(before, start_sector * sector, (k + 1) * sector));
            k += 1;
        }
        proof {
            assert((end_sector + 1) * sector == end_sector * sector + sector) by (nonlinear_arith);
        }
        let ghost erased = self.bytes();
        assert forall|i: int| 0 <= i < data@.len() implies #[trigger] data@[i] & erased[addr + i]
            == data@[i] by {
            lemma_and_erased(data@[i]);
        }
        let r = self.program_region(addr, data);
        proof {
            if r is Ok {
                assert(place(erased, addr as int, data@) =~= region_written(
                    old(self).bytes(),
                    addr as int,
                    data@,
                    sector as int,
                ));
            }
        }
        r
    }

    /// Programs `data` at `addr` page by page, in ascending order, verifying
    /// each page right after it is programmed; no sector is erased. Stops at
    /// the first failure.
    fn program_region(&mut self, addr: usize, data: &[u8]) -> (r: Result<()>)
        ensures
            final(self).bytes().len() == old(self).bytes().len(),
            final(self).sector_len() == old(self).sector_len(),
            final(self).page_len() == old(self).page_len(),
            final(self).reliable() == old(self).reliable(),
            addr + data@.len() > old(self).bytes().len() ==> r == Err::<(), FlashError>(
                FlashError::OutOfBounds,
            ) && final(self).bytes() == old(self).bytes(),
            addr + data@.len() <= old(self).bytes().len() && data@.len() == 0 ==> r is Ok,
            r is Ok ==> {
                &&& addr + data@.len() <= old(self).bytes().len()
                &&& can_program(old(self).bytes(), addr as int, data@)
                &&& final(self).bytes() == place(old(self).bytes(), addr as int, data@)
            },
            r is Ok && data@.len() > 0 ==> old(self).page_len() > 0,
            addr + data@.len() <= old(self).bytes().len() && data@.len() > 0 && old(
                self,
            ).page_len() == 0 ==> r matches Err(FlashError::DeviceError(_)),
            old(self).reliable() && addr + data@.len() <= old(self).bytes().len() ==> (r is Ok
                <==> (data@.len() == 0 || (old(self).page_len() > 0 && can_program(
                old(self).bytes(),
                addr as int,
                data@,
            )))),
    {
        let size = self.size();
        match addr.checked_add(data.len()) {
            None => return Err(FlashError::OutOfBounds),
            Some(end) => {
                if end > size {
                    return Err(FlashError::OutOfBounds);
                }
            },
        }
        if data.len() == 0 {
            assert(place(self.bytes(), addr as int, data@) =~= self.bytes());
            return Ok(());
        }
        let page = self.page_size();
        if page == 0 {
            return Err(FlashError::DeviceError("invalid page size"));
        }
        let ghost before = self.bytes();
        let ghost sector0 = self.sector_len();
        let ghost reliable0 = self.reliable();
        let mut offset: usize = 0;
        while offset < data.len()
            invariant
                offset <= data@.len(),
                addr + data@.len() <= size == self.bytes().len() <= usize::MAX,
                page == self.page_len() > 0,
                self.sector_len() == sector0,
                self.reliable() == reliable0,
                before == old(self).bytes(),
                page == old(self).page_len(),
                sector0 == old(self).sector_len(),
                reliable0 == old(self).reliable(),
                before.len() == size,
                can_program(before, addr as int, data@.subrange(0, offset as int)),
                self.bytes() == place(before, addr as int, data@.subrange(0, offset as int)),
            decreases data@.len() - offset,
        {
            let write_addr = addr + offset;
            let remain = data.len() - offset;
            let write_len = if remain < page {
                remain
            } else {
                page
            };
            let page_slice = slice_subrange(data, offset, offset + write_len);
            let ghost current = self.bytes();
            proof {
                assert forall|i: int| 0 <= i < page_slice@.len() implies current[write_addr + i]
                    == before[write_addr + i] && #[trigger] page_slice@[i] == data@[offset + i] by {}
                if reliable0 && can_program(before, addr as int, data@) {
                    assert forall|i: int| 0 <= i < page_slice@.len() implies #[trigger] page_slice@[i]
                        & current[write_addr + i] == page_slice@[i] by {
                        assert(data@[offset + i] & before[addr + (offset + i)] == data@[offset + i]);
                    }
                }
            }
            match self.program_page(write_addr, page_slice) {
                Ok(()) => {},
                Err(e) => {
                    proof {
                        if reliable0 && can_program(before, addr as int, data@) {
                            assert(can_program(current, write_addr as int, page_slice@));
                        }
                    }
                    return Err(e);
                },
            }
            assert(region(self.bytes(), write_addr as int, write_len as int) =~= page_slice@);
            match self.verify(write_addr, page_slice) {
                Ok(()) => {},
                Err(e) => return Err(e),
            }
            proof {
                let done = data@.subrange(0, (offset + write_len) as int);
                assert forall|i: int| 0 <= i < done.len() implies #[trigger] done[i] & before[addr
                    + i] == done[i] by {
                    if i < offset {
                        assert(data@.subrange(0, offset as int)[i] == done[i]);
                    } else {
                        assert(page_slice@[i - offset] & current[write_addr + (i - offset)]
                            == page_slice@[i - offset]);
                    }
                }
                assert(self.bytes() =~= place(before, addr as int, done));
            }
            offset += write_len;
        }
        assert(data@.subrange(0, data@.len() as int) =~= data@);
        Ok(())
    }

    /// The CRC-32 of the `len` bytes that start at `addr`.
    fn crc32(&self, addr: usize, len: usize) -> (r: Result<u32>)
        ensures
            addr + len > self.bytes().len() ==> r == Err::<u32, FlashError>(
                FlashError::OutOfBounds,
            ),
            r matches Ok(c) ==> c == crc32_of(region(self.bytes(), addr as int, len as int)),
            !(r matches Err(FlashError::VerificationFailed { .. })),
            self.reliable() && addr + len <= self.bytes().len() ==> r is Ok,
    {
        let size = self.size();
        match addr.checked_add(len) {
            None => return Err(FlashError::OutOfBounds),
            Some(end) => {
                if end > size {
                    return Err(FlashError::OutOfBounds);
                }
            },
        }
        let buf = match self.read(addr, len) {
            Ok(b) => b,
            Err(e) => return Err(e),
        };
        Ok(crc32_hash(buf.as_slice()))
    }
}


/// After programming `data` at `addr`, the region reads back as `data`
/// exactly when every bit the data asks for is a 1→0 transition or no change.
/// `after` is the state the program operation left: the programmed state when
/// it succeeded, otherwise what a failed program may leave. On a device whose
/// programming fails only where a bit would go back to 1, that covers every
/// outcome.
pub proof fn program_then_verify(
    before: Seq<u8>,
    after: Seq<u8>,
    addr: int,
    data: Seq<u8>,
    programmed: bool,
)
    requires
        0 <= addr,
        addr + data.len() <= before.len(),
        programmed ==> can_program(before, addr, data) && after == place(before, addr, data),
        !programmed ==> partially_programmed(before, after, addr, data),
        can_program(before, addr, data) ==> programmed,
    ensures
        region(after, addr, data.len() as int) == data <==> can_program(before, addr, data),
{
    if can_program(before, addr, data) {
        assert(region(after, addr, data.len() as int) =~= data);
    } else {
        let j = choose|j: int| 0 <= j < data.len() && #[trigger] data[j] & before[addr + j] != data[j];
        let d = data[j];
        assert(d & d == d) by (bit_vector);
        failed_program_keeps_byte(before, after, addr, data, j);
        assert(region(after, addr, data.len() as int)[j] != data[j]);
    }
}

/// A failed program leaves every byte that would need a bit set from 0 to 1
/// exactly as it was.
pub proof fn failed_program_keeps_byte(
    before: Seq<u8>,
    after: Seq<u8>,
    addr: int,
    data: Seq<u8>,
    j: int,
)
    requires
        partially_programmed(before, after, addr, data),
        0 <= j < data.len(),
        data[j] & before[addr + j] != data[j],
    ensures
        after[addr + j] == before[addr + j],
{
    assert(after[addr + j] == before[addr + j] || (data[j] & before[addr + j] == data[j]
        && after[addr + j] == data[j]));
}

/// Erasing a sector twice leaves the same contents as erasing it once: every
/// byte of it erased, every other byte as before.
pub proof fn erase_idempotent(bytes: Seq<u8>, lo: int, hi: int)
    ensures
        erase_range(erase_range(bytes, lo, hi), lo, hi) == erase_range(bytes, lo, hi),
        forall|i: int|
            0 <= i < bytes.len() && lo <= i < hi ==> #[trigger] erase_range(bytes, lo, hi)[i]
                == ERASED,
{
    assert(erase_range(erase_range(bytes, lo, hi), lo, hi) =~= erase_range(bytes, lo, hi));
}

/// Reading back a region just written yields exactly the data written.
pub proof fn write_then_read(before: Seq<u8>, addr: int, data: Seq<u8>, sector: int)
    requires
        0 <= addr,
        addr + data.len() <= before.len(),
    ensures
        region(region_written(before, addr, data, sector), addr, data.len() as int) == data,
{
    assert(region(region_written(before, addr, data, sector), addr, data.len() as int) =~= data);
}

/// The checksum of a region is a function of its bytes: two devices written
/// with the same bytes at the same place (or one device written twice) give
/// the same checksum there, whatever they held before.
pub proof fn checksum_after_same_write(
    first: Seq<u8>,
    second: Seq<u8>,
    addr: int,
    data: Seq<u8>,
    sector: int,
)
    requires
        0 <= addr,
        addr + data.len() <= first.len(),
        addr + data.len() <= second.len(),
    ensures
        crc32_of(region(region_written(first, addr, data, sector), addr, data.len() as int))
            == crc32_of(region(region_written(second, addr, data, sector), addr, data.len() as int)),
{
    write_then_read(first, addr, data, sector);
    write_then_read(second, addr, data, sector);
}

} // verus!
