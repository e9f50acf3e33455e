//! Whole-region integrity checks: by checksum and byte for byte.

use vstd::prelude::*;

use crate::flash::{crc32_of, region, Flash, FlashError};

verus! {

/// The number of bytes read and compared at a time by `verify_bytes`.
pub const COMPARE_WINDOW: usize = 256;

/// Where the first comparison window that runs past the end of a device of
/// `size` bytes starts, counted from `addr`: every window before it lies
/// within the device.
pub open spec fn first_crossing_window(size: int, addr: int) -> int {
    if addr <= size {
        ((size - addr) / (COMPARE_WINDOW as int)) * (COMPARE_WINDOW as int)
    } else {
        0
    }
}

/// Whether the CRC-32 of the `len` bytes at `addr` equals `expected_crc`.
pub fn verify_crc<F: Flash>(flash: &F, addr: usize, len: usize, expected_crc: u32) -> (r: Result<
    bool,
    FlashError,
>)
    ensures
        addr + len > flash.bytes().len() ==> r == Err::<bool, FlashError>(FlashError::OutOfBounds),
        r matches Ok(b) ==> b == (crc32_of(region(flash.bytes(), addr as int, len as int))
            == expected_crc),
        !(r matches Err(FlashError::VerificationFailed { .. })),
        flash.reliable() && addr + len <= flash.bytes().len() ==> r is Ok,
{
    let crc = match flash.crc32(addr, len) {
        Ok(c) => c,
        Err(e) => return Err(e),
    };
    Ok(crc == expected_crc)
}

/// Compares the bytes at `addr` with `reference`, reading them in windows of
/// `COMPARE_WINDOW` bytes.
///
/// With `stop_on_mismatch` the answer is whether the bytes equal `reference`,
/// and the scan stops at the first window that differs. Without it every
/// window is read but none is compared, so the answer is `true` whenever all
/// reads succeed: the flag then only asks for a full scan, not for a report
/// of the differences.
pub fn verify_bytes<F: Flash>(flash: &F, addr: usize, reference: &[u8], stop_on_mismatch: bool) -> (r:
    Result<bool, FlashError>)
    ensures
        r matches Ok(true) && stop_on_mismatch && reference@.len() > 0 ==> {
            &&& addr + reference@.len() <= flash.bytes().len()
            &&& region(flash.bytes(), addr as int, reference@.len() as int) == reference@
        },
        r matches Ok(false) ==> stop_on_mismatch && exists|j: int|
            0 <= j < reference@.len() && addr + j < flash.bytes().len() && #[trigger] reference@[j]
                != flash.bytes()[addr + j],
        !stop_on_mismatch && reference@.len() > 0 && addr + reference@.len() > flash.bytes().len()
            ==> r is Err,
        !stop_on_mismatch && r is Ok ==> r == Ok::<bool, FlashError>(true),
        flash.reliable() && addr + reference@.len() <= flash.bytes().len() ==> r == Ok::<
            bool,
            FlashError,
        >(!stop_on_mismatch || region(flash.bytes(), addr as int, reference@.len() as int)
            == reference@),
        flash.reliable() && reference@.len() > 0 && addr + reference@.len() > flash.bytes().len()
            && !stop_on_mismatch ==> r == Err::<bool, FlashError>(FlashError::OutOfBounds),
        flash.reliable() && stop_on_mismatch && reference@.len() > 0 && addr + reference@.len()
            > flash.bytes().len() ==> {
            let p = first_crossing_window(flash.bytes().len() as int, addr as int);
            &&& r is Ok ==> r == Ok::<bool, FlashError>(false)
            &&& r is Err ==> r == Err::<bool, FlashError>(FlashError::OutOfBounds)
            &&& r == Ok::<bool, FlashError>(false) <==> exists|j: int|
                0 <= j < p && #[trigger] reference@[j] != flash.bytes()[addr + j]
        },
{
    let _capacity = flash.size();
    let len = reference.len();
    let ghost p = first_crossing_window(flash.bytes().len() as int, addr as int);
    let ghost past_end = flash.reliable() && stop_on_mismatch && len > 0 && addr + len
        > flash.bytes().len();
    proof {
        if addr <= flash.bytes().len() {
            lemma_window_floor((flash.bytes().len() - addr) as int);
        }
    }
    let mut offset: usize = 0;
    while offset < len
        invariant
            p == first_crossing_window(flash.bytes().len() as int, addr as int),
            past_end == (flash.reliable() && stop_on_mismatch && len > 0 && addr + len
                > flash.bytes().len()),
            addr <= flash.bytes().len() ==> p <= flash.bytes().len() - addr < p + COMPARE_WINDOW,
            addr <= flash.bytes().len() ==> p % (COMPARE_WINDOW as int) == 0,
            offset == len || offset % COMPARE_WINDOW == 0,
            past_end ==> offset <= p,
            offset <= len == reference@.len(),
            flash.bytes().len() <= usize::MAX,
            offset > 0 ==> addr + offset <= flash.bytes().len(),
            stop_on_mismatch ==> forall|j: int|
                0 <= j < offset ==> flash.bytes()[addr + j] == #[trigger] reference@[j],
        decreases len - offset,
    {
        let chunk = if len - offset < COMPARE_WINDOW {
            len - offset
        } else {
            COMPARE_WINDOW
        };
        let window_addr = match addr.checked_add(offset) {
            Some(a) => a,
            None => return Err(FlashError::OutOfBounds),
        };
        proof {
            if past_end && offset < p {
                assert(offset + COMPARE_WINDOW <= p) by (nonlinear_arith)
                    requires
                        offset % 256 == 0,
                        p % 256 == 0,
                        offset < p,
                ;
            }
        }
        let buf = match flash.read(window_addr, chunk) {
            Ok(b) => b,
            Err(e) => {
                proof {
                    if past_end {
                        assert(offset == p);
                        assert(forall|j: int|
                            0 <= j < p ==> flash.bytes()[addr + j] == #[trigger] reference@[j]);
                    }
                }
                return Err(e);
            },
        };
        assert(window_addr + chunk <= flash.bytes().len());
        if stop_on_mismatch {
            let mut j: usize = 0;
            while j < chunk
                invariant
                    j <= chunk,
                    offset + chunk <= len == reference@.len(),
                    window_addr == addr + offset,
                    window_addr + chunk <= flash.bytes().len(),
                    stop_on_mismatch,
                    past_end ==> offset + chunk <= p,
                    past_end == (flash.reliable() && stop_on_mismatch && len > 0 && addr + len
                        > flash.bytes().len()),
                    len == reference@.len(),
                    p == first_crossing_window(flash.bytes().len() as int, addr as int),
                    buf@ == region(flash.bytes(), window_addr as int, chunk as int),
                    forall|k: int|
                        0 <= k < offset + j ==> flash.bytes()[addr + k] == #[trigger] reference@[k],
                decreases chunk - j,
            {
                if buf[j] != reference[offset + j] {
                    assert(reference@[offset + j] != flash.bytes()[addr + (offset + j)]);
                    proof {
                        if past_end {
                            assert(offset + j < p);
                        }
                    }
                    return Ok(false);
                }
                j += 1;
            }
        }
        offset += chunk;
        if stop_on_mismatch {
            assert(forall|k: int| 0 <= k < offset ==> flash.bytes()[addr + k] == #[trigger] reference@[k]);
        }
    }
    proof {
        if stop_on_mismatch && addr + len <= flash.bytes().len() {
            assert(region(flash.bytes(), addr as int, len as int) =~= reference@);
        }
    }
    Ok(true)
}

proof fn lemma_window_floor(x: int)
    requires
        0 <= x,
    ensures
        (x / 256) * 256 <= x < (x / 256) * 256 + 256,
        ((x / 256) * 256) % 256 == 0,
{
    vstd::arithmetic::div_mod::lemma_fundamental_div_mod(x, 256);
    vstd::arithmetic::div_mod::lemma_mod_bound(x, 256);
    assert(((x / 256) * 256) % 256 == 0) by (nonlinear_arith);
}

} // verus!
