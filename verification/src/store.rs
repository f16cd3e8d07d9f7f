//! Byte stores: an abstraction over positioned reads, and the memory-backed
//! store used by the verified pipeline.
//!
//! A store exposes a byte sequence (`contents`) and a positioned `read_at`
//! that may return short counts; `read_exact_at` is built on top of it and
//! either fills the whole buffer from `contents` or fails. Host-file stores
//! live outside the library and implement the same trait there.

use vstd::prelude::*;
use crate::error::Error;

verus! {

/// A byte store providing positioned reads.
///
/// `contents` is the full byte sequence the store exposes; `read_at` reads a
/// prefix of the buffer from it. Implementations that can block must retry
/// transient interruptions internally and surface only terminal failures.
pub trait ReadAt {
    /// The byte sequence this store exposes to readers.
    spec fn contents(&self) -> Seq<u8>;

    /// The contents are addressable by the 64-bit offsets used on disk.
    proof fn contents_bounded(&self)
        ensures
            self.contents().len() <= u64::MAX,
    ;

    /// Read up to `buf.len()` bytes at `offset` into the front of `buf`,
    /// returning how many were read. A short read is allowed; a count of
    /// zero into a non-empty buffer means the offset is at or past the end
    /// of the contents.
    fn read_at(&self, buf: &mut Vec<u8>, offset: u64) -> (r: Result<usize, Error>)
        ensures
            final(buf)@.len() == old(buf)@.len(),
            r matches Err(e) ==> e is IO,
            r matches Ok(n) ==> {
                &&& n <= old(buf)@.len()
                &&& (n > 0 ==> offset + n <= self.contents().len() && (forall|j: int|
                    0 <= j < n ==> final(buf)@[j] == self.contents()[offset + j]))
                &&& (forall|j: int| n <= j < old(buf)@.len() ==> final(buf)@[j] == old(buf)@[j])
                &&& ((n == 0 && old(buf)@.len() > 0) ==> offset >= self.contents().len())
            },
    ;

    /// Fill all of `buf` from the contents at `offset`, or fail. Reading
    /// past the end of the contents is an `IO` error (unexpected end), as is
    /// any terminal failure of `read_at`.
    fn read_exact_at(&self, buf: &mut Vec<u8>, offset: u64) -> (r: Result<(), Error>)
        ensures
            final(buf)@.len() == old(buf)@.len(),
            r matches Err(e) ==> e is IO,
            old(buf)@.len() == 0 ==> r is Ok,
            (r is Ok && old(buf)@.len() > 0) ==> offset + old(buf)@.len()
                <= self.contents().len() && final(buf)@ == self.contents().subrange(
                offset as int,
                offset + old(buf)@.len(),
            ),
    {
        let len = buf.len();
        let mut done: usize = 0;
        proof {
            self.contents_bounded();
        }
        while done < len
            invariant
                done <= len,
                len == buf@.len(),
                len == old(buf)@.len(),
                self.contents().len() <= u64::MAX,
                done > 0 ==> offset + done <= self.contents().len(),
                forall|j: int| 0 <= j < done ==> buf@[j] == self.contents()[offset + j],
            decreases len - done,
        {
            let want = len - done;
            let mut tmp: Vec<u8> = Vec::new();
            tmp.resize(want, 0u8);
            let n = match self.read_at(&mut tmp, offset + (done as u64)) {
                Ok(n) => n,
                Err(e) => {
                    return Err(e);
                },
            };
            if n == 0 {
                return Err(Error::IO("unexpected end of stream"));
            }
            let mut k: usize = 0;
            while k < n
                invariant
                    k <= n,
                    0 < n <= want,
                    done + want == len,
                    len == buf@.len(),
                    len == old(buf)@.len(),
                    tmp@.len() == want,
                    offset + done + n <= self.contents().len(),
                    forall|j: int| 0 <= j < n ==> tmp@[j] == self.contents()[offset + done + j],
                    forall|j: int| 0 <= j < done + k ==> buf@[j] == self.contents()[offset + j],
                decreases n - k,
            {
                let b = tmp[k];
                buf.set(done + k, b);
                k = k + 1;
            }
            done = done + n;
        }
        proof {
            if len > 0 {
                assert(buf@ =~= self.contents().subrange(offset as int, offset + len));
            }
        }
        Ok(())
    }
}

impl ReadAt for Vec<u8> {
    /// A memory-backed store exposes exactly its own bytes.
    open spec fn contents(&self) -> Seq<u8> {
        self@
    }

    proof fn contents_bounded(&self) {
        vstd::std_specs::vec::axiom_spec_len(self);
    }

    /// Positioned read over an owned byte buffer: reads as many of the
    /// requested bytes as lie inside the buffer, never fails.
    fn read_at(&self, buf: &mut Vec<u8>, offset: u64) -> (r: Result<usize, Error>)
        ensures
            r is Ok,
            r matches Ok(n) ==> n == if offset <= self@.len() {
                if self@.len() - offset < old(buf)@.len() {
                    self@.len() - offset
                } else {
                    old(buf)@.len() as int
                }
            } else {
                0
            },
    {
        let s_len = self.len();
        if offset >= s_len as u64 {
            return Ok(0);
        }
        let off = offset as usize;
        let avail = s_len - off;
        let sz = if buf.len() < avail {
            buf.len()
        } else {
            avail
        };
        let mut k: usize = 0;
        while k < sz
            invariant
                k <= sz,
                off + sz <= self@.len(),
                self@.len() <= usize::MAX,
                sz <= buf@.len(),
                buf@.len() == old(buf)@.len(),
                forall|j: int| 0 <= j < k ==> buf@[j] == self@[off + j],
                forall|j: int| k <= j < buf@.len() ==> buf@[j] == old(buf)@[j],
            decreases sz - k,
        {
            let b = self[off + k];
            buf.set(k, b);
            k = k + 1;
        }
        Ok(sz)
    }
}

} // verus!
