//! The executable image: one owned byte buffer plus a read/write cursor.
//! All probes and transforms of the pipeline work through these
//! bounds-checked operations; a read past the end is an error, never a
//! panic.

use crate::bytes::{byte_of, le_u32_at};
use crate::reader::ReaderError;
use vstd::prelude::*;

verus! {

/// A randomly seekable byte buffer holding the whole executable, with a
/// cursor. The cursor may point past the end (as after a relative seek);
/// every read and write checks bounds itself.
pub struct ExecutableImage {
    pub data: Vec<u8>,
    pub pos: u64,
}

impl ExecutableImage {
    /// Wrap a loaded file, cursor at the start.
    pub fn new(data: Vec<u8>) -> (r: Self)
        ensures
            r.data == data,
            r.pos == 0,
    {
        ExecutableImage { data, pos: 0 }
    }

    /// Number of bytes in the image.
    pub fn len(&self) -> (r: usize)
        ensures
            r == self.data@.len(),
    {
        self.data.len()
    }

    /// Move the cursor to an absolute offset.
    pub fn set_pos(&mut self, p: u64)
        ensures
            final(self).data@ == old(self).data@,
            final(self).pos == p,
    {
        self.pos = p;
    }

    /// Move the cursor forward by `n` bytes.
    pub fn skip(&mut self, n: u64) -> (r: Result<(), ReaderError>)
        ensures
            final(self).data@ == old(self).data@,
            old(self).pos + n <= u64::MAX ==> r == Ok::<(), ReaderError>(()) && final(self).pos
                == old(self).pos + n,
            old(self).pos + n > u64::MAX ==> r == Err::<(), ReaderError>(ReaderError::IoFailure)
                && final(self).pos == old(self).pos,
    {
        match self.pos.checked_add(n) {
            Some(p) => {
                self.pos = p;
                Ok(())
            },
            None => Err(ReaderError::IoFailure),
        }
    }

    /// Read one byte at the cursor and advance past it.
    pub fn read_u8(&mut self) -> (r: Result<u8, ReaderError>)
        ensures
            final(self).data@ == old(self).data@,
            old(self).pos < old(self).data@.len() ==> r == Ok::<u8, ReaderError>(
                old(self).data@[old(self).pos as int],
            ) && final(self).pos == old(self).pos + 1,
            old(self).pos >= old(self).data@.len() ==> r == Err::<u8, ReaderError>(
                ReaderError::IoFailure,
            ) && final(self).pos == old(self).pos,
    {
        if self.pos < self.data.len() as u64 {
            let b: u8 = self.data[self.pos as usize];
            self.pos = self.pos + 1;
            Ok(b)
        } else {
            Err(ReaderError::IoFailure)
        }
    }

    /// Read a little-endian 32-bit word at the cursor and advance past it.
    pub fn read_u32_le(&mut self) -> (r: Result<u32, ReaderError>)
        ensures
            final(self).data@ == old(self).data@,
            old(self).pos + 4 <= old(self).data@.len() ==> r == Ok::<u32, ReaderError>(
                le_u32_at(old(self).data@, old(self).pos as int),
            ) && final(self).pos == old(self).pos + 4,
            old(self).pos + 4 > old(self).data@.len() ==> r == Err::<u32, ReaderError>(
                ReaderError::IoFailure,
            ) && final(self).pos == old(self).pos,
    {
        if self.data.len() >= 4 && self.pos <= (self.data.len() - 4) as u64 {
            let i: usize = self.pos as usize;
            let b0: u8 = self.data[i];
            let b1: u8 = self.data[i + 1];
            let b2: u8 = self.data[i + 2];
            let b3: u8 = self.data[i + 3];
            self.pos = self.pos + 4;
            Ok(b0 as u32 + b1 as u32 * 0x100 + b2 as u32 * 0x10000 + b3 as u32 * 0x1000000)
        } else {
            Err(ReaderError::IoFailure)
        }
    }

    /// Write a little-endian 32-bit word at the cursor and advance past it.
    pub fn write_u32_le(&mut self, v: u32) -> (r: Result<(), ReaderError>)
        ensures
            old(self).pos + 4 <= old(self).data@.len() ==> r == Ok::<(), ReaderError>(())
                && final(self).pos == old(self).pos + 4 && final(self).data@ == old(
                self,
            ).data@.update(old(self).pos as int, byte_of(v, 0)).update(
                old(self).pos + 1,
                byte_of(v, 1),
            ).update(old(self).pos + 2, byte_of(v, 2)).update(old(self).pos + 3, byte_of(v, 3)),
            old(self).pos + 4 > old(self).data@.len() ==> r == Err::<(), ReaderError>(
                ReaderError::IoFailure,
            ) && final(self).pos == old(self).pos && final(self).data@ == old(self).data@,
    {
        if self.data.len() >= 4 && self.pos <= (self.data.len() - 4) as u64 {
            let i: usize = self.pos as usize;
            proof {
                crate::bytes::lemma_pow256_small();
                assert(v as int / 0x1000000 < 0x100) by (nonlinear_arith)
                    requires
                        v <= 0xFFFF_FFFFu32,
                ;
            }
            self.data[i] = (v % 0x100) as u8;
            self.data[i + 1] = ((v / 0x100) % 0x100) as u8;
            self.data[i + 2] = ((v / 0x10000) % 0x100) as u8;
            self.data[i + 3] = (v / 0x1000000) as u8;
            self.pos = self.pos + 4;
            Ok(())
        } else {
            Err(ReaderError::IoFailure)
        }
    }

    /// Read `pat.len()` bytes at the cursor, advance past them, and report
    /// whether they equal `pat`.
    pub fn check_bytes(&mut self, pat: &[u8]) -> (r: Result<bool, ReaderError>)
        ensures
            final(self).data@ == old(self).data@,
            old(self).pos + pat@.len() <= old(self).data@.len() ==> final(self).pos == old(
                self,
            ).pos + pat@.len() && r == Ok::<bool, ReaderError>(
                old(self).data@.subrange(
                    old(self).pos as int,
                    old(self).pos + pat@.len(),
                ) =~= pat@,
            ),
            old(self).pos + pat@.len() > old(self).data@.len() ==> r == Err::<bool, ReaderError>(
                ReaderError::IoFailure,
            ) && final(self).pos == old(self).pos,
    {
        let n: usize = pat.len();
        if self.pos > self.data.len() as u64 || n > self.data.len() - (self.pos as usize) {
            return Err(ReaderError::IoFailure);
        }
        let start: usize = self.pos as usize;
        let mut eq: bool = true;
        let mut k: usize = 0;
        while k < n
            invariant
                0 <= k <= n,
                n == pat@.len(),
                start == self.pos,
                start + n <= self.data@.len(),
                self.data@.len() <= usize::MAX,
                eq <==> self.data@.subrange(start as int, start + k) =~= pat@.subrange(0, k as int),
            decreases n - k,
        {
            let same: bool = self.data[start + k] == pat[k];
            proof {
                let a = self.data@.subrange(start as int, start + k);
                let b = pat@.subrange(0, k as int);
                let a1 = self.data@.subrange(start as int, start + k + 1);
                let b1 = pat@.subrange(0, k + 1int);
                assert(a =~= a1.subrange(0, k as int));
                assert(b =~= b1.subrange(0, k as int));
                assert(a1[k as int] == self.data@[start + k]);
                assert(b1[k as int] == pat@[k as int]);
                if eq && same {
                    assert(a1 =~= b1);
                }
            }
            eq = eq && same;
            k = k + 1;
        }
        proof {
            assert(pat@.subrange(0, n as int) =~= pat@);
        }
        self.pos = self.pos + n as u64;
        Ok(eq)
    }
}

} // verus!
