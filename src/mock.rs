//! An in-memory flash device for host-side use.

use vstd::prelude::*;

use crate::flash::{can_program, erase_range, partially_programmed, place, Flash, FlashError, ERASED};

verus! {

/// A flash device backed by a byte vector. It starts fully erased.
pub struct MockFlash {
    pub storage: Vec<u8>,
    sector_size: usize,
    page_size: usize,
}

impl MockFlash {
    /// A device of `size` bytes, every byte erased.
    pub fn new(size: usize, sector_size: usize, page_size: usize) -> (r: Self)
        ensures
            r.bytes() == Seq::new(size as nat, |i: int| ERASED),
            r.sector_len() == sector_size,
            r.page_len() == page_size,
    {
        let mut storage: Vec<u8> = Vec::new();
        let mut i: usize = 0;
        while i < size
            invariant
                i <= size,
                storage@ == Seq::new(i as nat, |j: int| ERASED),
            decreases size - i,
        {
            storage.push(ERASED);
            i += 1;
        }
        MockFlash { storage, sector_size, page_size }
    }

    /// Sets every byte to `v`, bypassing the erase and program rules.
    pub fn fill(&mut self, v: u8)
        ensures
            final(self).bytes() == Seq::new(old(self).bytes().len(), |i: int| v),
            final(self).sector_len() == old(self).sector_len(),
            final(self).page_len() == old(self).page_len(),
    {
        let n = self.storage.len();
        let mut i: usize = 0;
        while i < n
            invariant
                i <= n == self.storage@.len(),
                self.sector_size == old(self).sector_size,
                self.page_size == old(self).page_size,
                forall|j: int| 0 <= j < i ==> self.storage@[j] == v,
            decreases n - i,
        {
            self.storage.set(i, v);
            i += 1;
        }
        assert(self.storage@ =~= Seq::new(n as nat, |j: int| v));
    }
}

impl Flash for MockFlash {
    closed spec fn bytes(&self) -> Seq<u8> {
        self.storage@
    }

    closed spec fn sector_len(&self) -> usize {
        self.sector_size
    }

    closed spec fn page_len(&self) -> usize {
        self.page_size
    }

    open spec fn reliable(&self) -> bool {
        true
    }

    fn size(&self) -> (r: usize) {
        self.storage.len()
    }

    fn sector_size(&self) -> (r: usize) {
        self.sector_size
    }

    fn page_size(&self) -> (r: usize) {
        self.page_size
    }

    fn read(&self, addr: usize, len: usize) -> (r: Result<Vec<u8>, FlashError>) {
        let _capacity = self.storage.len();
        let end = match addr.checked_add(len) {
            Some(e) => e,
            None => return Err(FlashError::OutOfBounds),
        };
        if end > self.storage.len() {
            return Err(FlashError::OutOfBounds);
        }
        let mut buf: Vec<u8> = Vec::new();
        let mut i: usize = addr;
        while i < end
            invariant
                addr <= i <= end <= self.storage@.len(),
                end == addr + len,
                buf@ == self.storage@.subrange(addr as int, i as int),
            decreases end - i,
        {
            buf.push(self.storage[i]);
            i += 1;
        }
        Ok(buf)
    }

    fn erase_sector(&mut self, addr: usize) -> (r: Result<(), FlashError>) {
        if addr >= self.storage.len() {
            return Err(FlashError::OutOfBounds);
        }
        if addr % self.sector_size != 0 {
            return Err(FlashError::AlignmentError);
        }
        let end = match addr.checked_add(self.sector_size) {
            Some(e) => e,
            None => return Err(FlashError::OutOfBounds),
        };
        if end > self.storage.len() {
            return Err(FlashError::OutOfBounds);
        }
        let mut i: usize = addr;
        while i < end
            invariant
                addr <= i <= end <= self.storage@.len(),
                end == addr + old(self).sector_size,
                self.storage@.len() == old(self).storage@.len(),
                self.sector_size == old(self).sector_size,
                self.page_size == old(self).page_size,
                forall|j: int|
                    0 <= j < self.storage@.len() ==> #[trigger] self.storage@[j] == if addr <= j
                        < i {
                        ERASED
                    } else {
                        old(self).storage@[j]
                    },
            decreases end - i,
        {
            self.storage.set(i, ERASED);
            i += 1;
        }
        assert(self.storage@ =~= erase_range(old(self).storage@, addr as int, end as int));
        Ok(())
    }

    fn program_page(&mut self, addr: usize, data: &[u8]) -> (r: Result<(), FlashError>) {
        if addr >= self.storage.len() {
            return Err(FlashError::OutOfBounds);
        }
        if data.len() > self.page_size {
            return Err(FlashError::AlignmentError);
        }
        let end = match addr.checked_add(data.len()) {
            Some(e) => e,
            None => return Err(FlashError::OutOfBounds),
        };
        if end > self.storage.len() {
            return Err(FlashError::OutOfBounds);
        }
        let mut i: usize = 0;
        while i < data.len()
            invariant
                i <= data@.len(),
                end == addr + data@.len() <= self.storage@.len() == old(self).storage@.len(),
                data@.len() <= self.page_size,
                self.sector_size == old(self).sector_size,
                self.page_size == old(self).page_size,
                can_program(old(self).storage@, addr as int, data@.subrange(0, i as int)),
                self.storage@ == place(old(self).storage@, addr as int, data@.subrange(0, i as int)),
            decreases data@.len() - i,
        {
            let b = data[i];
            let cur = self.storage[addr + i];
            if (b & cur) != b {
                assert(!can_program(old(self).storage@, addr as int, data@)) by {
                    assert(data@[i as int] & old(self).storage@[addr + i] != data@[i as int]);
                }
                assert(partially_programmed(old(self).storage@, self.storage@, addr as int, data@))
                    by {
                    assert forall|j: int| 0 <= j < data@.len() implies #[trigger] self.storage@[addr
                        + j] == old(self).storage@[addr + j] || (data@[j] & old(self).storage@[addr
                        + j] == data@[j] && self.storage@[addr + j] == data@[j]) by {
                        if j < i {
                            assert(data@.subrange(0, i as int)[j] == data@[j]);
                        }
                    }
                }
                return Err(FlashError::DeviceError("attempt to program 0->1"));
            }
            proof {
                assert((b & cur) == b ==> (cur & b) == b) by (bit_vector);
            }
            self.storage.set(addr + i, cur & b);
            proof {
                assert forall|j: int| 0 <= j < i + 1 implies #[trigger] data@.subrange(
                    0,
                    i + 1,
                )[j] & old(self).storage@[addr + j] == data@.subrange(0, i + 1)[j] by {
                    if j < i {
                        assert(data@.subrange(0, i as int)[j] == data@.subrange(0, i + 1)[j]);
                    }
                }
            }
            assert(self.storage@ =~= place(
                old(self).storage@,
                addr as int,
                data@.subrange(0, i + 1),
            ));
            i += 1;
        }
        assert(data@.subrange(0, data@.len() as int) =~= data@);
        Ok(())
    }
}

} // verus!
