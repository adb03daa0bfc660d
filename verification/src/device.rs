//! The block device the engine runs against: a byte store of fixed size
//! addressed at explicit offsets, with direct-I/O operations that demand
//! 4096-byte alignment of both offset and length and move whole chunks or
//! nothing.

use vstd::prelude::*;

use crate::errors::StorageError;

verus! {

/// Direct I/O moves data in chunks of this many bytes, and offsets and
/// lengths must be multiples of it.
pub const CHUNK_SIZE: u64 = 4096;

/// Whether a direct transfer of `len` bytes at `offset` is permitted on a
/// device of `size` bytes: both length and offset aligned, and the range
/// within the device.
pub open spec fn direct_io_allowed(len: int, offset: int, size: int) -> bool {
    &&& len % (CHUNK_SIZE as int) == 0
    &&& offset % (CHUNK_SIZE as int) == 0
    &&& offset + len <= size
}

/// A block device of a fixed size, with its backing bytes held in memory so
/// that every operation on it is observable. The path names the device; the
/// size is discovered at construction, in 512-byte units as the kernel
/// reports them, and never changes.
pub struct BlockDevice {
    pub dev_path: String,
    pub size: u64,
    pub storage: Vec<u8>,
}

impl BlockDevice {
    /// The backing store always spans exactly the discovered size.
    pub open spec fn wf(&self) -> bool {
        self.storage@.len() == self.size
    }

    /// A device of `nr_sectors` 512-byte units, zero-initialized. Fails with
    /// `SizeDiscoveryFailure` when that many bytes cannot be represented in
    /// memory.
    pub fn new(path: &str, nr_sectors: u64) -> (r: Result<BlockDevice, StorageError>)
        ensures
            (r is Ok) <==> 512 * (nr_sectors as int) <= usize::MAX,
            r matches Ok(d) ==> {
                &&& d.wf()
                &&& d.size == 512 * nr_sectors
                &&& d.storage@ == crate::bytes::zero_bytes(512 * nr_sectors as int)
                &&& d.dev_path@ == path@
            },
            r matches Err(e) ==> e == StorageError::SizeDiscoveryFailure,
    {
        if nr_sectors > (usize::MAX as u64) / 512 {
            proof {
                assert(512 * (nr_sectors as int) > usize::MAX) by (nonlinear_arith)
                    requires
                        nr_sectors as int > (usize::MAX as int) / 512,
                {
                    vstd::arithmetic::div_mod::lemma_fundamental_div_mod(usize::MAX as int, 512);
                }
            }
            return Err(StorageError::SizeDiscoveryFailure);
        }
        proof {
            assert(512 * (nr_sectors as int) <= usize::MAX) by (nonlinear_arith)
                requires
                    nr_sectors as int <= (usize::MAX as int) / 512,
            {
                vstd::arithmetic::div_mod::lemma_fundamental_div_mod(usize::MAX as int, 512);
            }
        }
        let size: u64 = 512 * nr_sectors;
        let mut storage: Vec<u8> = Vec::new();
        crate::bytes::push_zeros(&mut storage, size as usize);
        assert(storage@ =~= crate::bytes::zero_bytes(512 * nr_sectors as int));
        Ok(BlockDevice { dev_path: path.to_owned(), size, storage })
    }

    /// The byte size discovered at construction; no I/O is performed.
    pub fn get_disk_size(&self) -> (r: u64)
        ensures
            r == self.size,
    {
        self.size
    }

    /// Buffered read: fills `buf` from `offset` with no alignment demand.
    /// Reads nothing and returns 0 when the range runs past the end.
    pub fn read_at(&self, buf: &mut Vec<u8>, offset: u64) -> (n: usize)
        requires
            self.wf(),
        ensures
            final(buf)@.len() == old(buf)@.len(),
            offset + old(buf)@.len() <= self.size ==> {
                &&& n == old(buf)@.len()
                &&& final(buf)@ == self.storage@.subrange(
                    offset as int,
                    offset + old(buf)@.len(),
                )
            },
            offset + old(buf)@.len() > self.size ==> n == 0 && final(buf)@ == old(buf)@,
    {
        let len = buf.len();
        let total = self.storage.len();
        if offset > self.size || (len as u64) > self.size - offset {
            return 0;
        }
        let off = offset as usize;
        let mut i: usize = 0;
        while i < len
            invariant
                i <= len,
                len == buf@.len(),
                off + len <= total,
                total == self.storage@.len(),
                forall|k: int| 0 <= k < i ==> buf@[k] == self.storage@[off + k],
            decreases len - i,
        {
            buf.set(i, self.storage[off + i]);
            i = i + 1;
        }
        assert(buf@ =~= self.storage@.subrange(offset as int, offset + len));
        len
    }

    /// Buffered read from the start of the device.
    pub fn read(&self, buf: &mut Vec<u8>) -> (n: usize)
        requires
            self.wf(),
        ensures
            final(buf)@.len() == old(buf)@.len(),
            old(buf)@.len() <= self.size ==> n == old(buf)@.len() && final(buf)@
                == self.storage@.subrange(0, old(buf)@.len() as int),
            old(buf)@.len() > self.size ==> n == 0 && final(buf)@ == old(buf)@,
    {
        self.read_at(buf, 0)
    }

    /// Direct (unbuffered) read: both `buf.len()` and `offset` must be
    /// multiples of the 4096-byte alignment unit, and the range must lie on
    /// the device. On any violation nothing is read and 0 is returned; this
    /// is the compatibility convention, and `try_read_direct_at` reports the
    /// violation explicitly instead.
    pub fn read_direct_at(&self, buf: &mut Vec<u8>, offset: u64) -> (n: usize)
        requires
            self.wf(),
        ensures
            final(buf)@.len() == old(buf)@.len(),
            direct_io_allowed(old(buf)@.len() as int, offset as int, self.size as int) ==> {
                &&& n == old(buf)@.len()
                &&& final(buf)@ == self.storage@.subrange(
                    offset as int,
                    offset + old(buf)@.len(),
                )
            },
            !direct_io_allowed(old(buf)@.len() as int, offset as int, self.size as int) ==> n == 0
                && final(buf)@ == old(buf)@,
    {
        let len = buf.len();
        if (len as u64) % CHUNK_SIZE != 0 {
            return 0;
        }
        if offset % CHUNK_SIZE != 0 {
            return 0;
        }
        if offset > self.size || (len as u64) > self.size - offset {
            return 0;
        }
        self.read_at(buf, offset)
    }

    /// Direct read that reports its failure: `AlignmentViolation` when the
    /// length or offset is misaligned, `IoFailure` when the range runs past
    /// the end of the device.
    pub fn try_read_direct_at(&self, buf: &mut Vec<u8>, offset: u64) -> (r: Result<
        usize,
        StorageError,
    >)
        requires
            self.wf(),
        ensures
            final(buf)@.len() == old(buf)@.len(),
            (old(buf)@.len() % (CHUNK_SIZE as nat) != 0 || offset as int % (CHUNK_SIZE as int)
                != 0) ==> r == Err::<usize, StorageError>(StorageError::AlignmentViolation)
                && final(buf)@ == old(buf)@,
            (old(buf)@.len() % (CHUNK_SIZE as nat) == 0 && offset as int % (CHUNK_SIZE as int) == 0
                && offset + old(buf)@.len() > self.size) ==> r == Err::<usize, StorageError>(
                StorageError::IoFailure,
            ) && final(buf)@ == old(buf)@,
            direct_io_allowed(old(buf)@.len() as int, offset as int, self.size as int) ==> {
                &&& r == Ok::<usize, StorageError>(old(buf)@.len() as usize)
                &&& final(buf)@ == self.storage@.subrange(
                    offset as int,
                    offset + old(buf)@.len(),
                )
            },
    {
        let len = buf.len();
        if (len as u64) % CHUNK_SIZE != 0 || offset % CHUNK_SIZE != 0 {
            return Err(StorageError::AlignmentViolation);
        }
        if offset > self.size || (len as u64) > self.size - offset {
            return Err(StorageError::IoFailure);
        }
        let n = self.read_at(buf, offset);
        Ok(n)
    }

    /// Direct (unbuffered) write: the mirror of `read_direct_at`, with the
    /// same alignment contract and the same silent-zero convention on a
    /// violation.
    pub fn write_direct_at(&mut self, buf: &Vec<u8>, offset: u64) -> (n: usize)
        requires
            old(self).wf(),
        ensures
            final(self).wf(),
            final(self).size == old(self).size,
            final(self).dev_path == old(self).dev_path,
            final(self).storage@.len() == old(self).storage@.len(),
            direct_io_allowed(buf@.len() as int, offset as int, old(self).size as int) ==> {
                &&& n == buf@.len()
                &&& forall|k: int|
                    offset <= k < offset + buf@.len() ==> final(self).storage@[k] == buf@[k
                        - offset]
                &&& forall|k: int|
                    0 <= k < old(self).storage@.len() && !(offset <= k < offset + buf@.len())
                        ==> final(self).storage@[k] == old(self).storage@[k]
            },
            !direct_io_allowed(buf@.len() as int, offset as int, old(self).size as int) ==> n == 0
                && final(self).storage@ == old(self).storage@,
    {
        let len = buf.len();
        if (len as u64) % CHUNK_SIZE != 0 {
            return 0;
        }
        if offset % CHUNK_SIZE != 0 {
            return 0;
        }
        if offset > self.size || (len as u64) > self.size - offset {
            return 0;
        }
        let total = self.storage.len();
        let off = offset as usize;
        let mut i: usize = 0;
        while i < len
            invariant
                i <= len,
                len == buf@.len(),
                off + len <= total,
                total == self.storage@.len(),
                self.storage@.len() == old(self).storage@.len(),
                self.size == old(self).size,
                self.dev_path == old(self).dev_path,
                forall|k: int| off <= k < off + i ==> self.storage@[k] == buf@[k - off],
                forall|k: int|
                    0 <= k < old(self).storage@.len() && !(off <= k < off + i) ==> self.storage@[k]
                        == old(self).storage@[k],
            decreases len - i,
        {
            self.storage.set(off + i, buf[i]);
            i = i + 1;
        }
        len
    }

    /// Direct write that reports its failure, as `try_read_direct_at` does.
    pub fn try_write_direct_at(&mut self, buf: &Vec<u8>, offset: u64) -> (r: Result<
        usize,
        StorageError,
    >)
        requires
            old(self).wf(),
        ensures
            final(self).wf(),
            final(self).size == old(self).size,
            final(self).dev_path == old(self).dev_path,
            final(self).storage@.len() == old(self).storage@.len(),
            (buf@.len() % (CHUNK_SIZE as nat) != 0 || offset as int % (CHUNK_SIZE as int) != 0)
                ==> r == Err::<usize, StorageError>(StorageError::AlignmentViolation)
                && final(self).storage@ == old(self).storage@,
            (buf@.len() % (CHUNK_SIZE as nat) == 0 && offset as int % (CHUNK_SIZE as int) == 0
                && offset + buf@.len() > old(self).size) ==> r == Err::<usize, StorageError>(
                StorageError::IoFailure,
            ) && final(self).storage@ == old(self).storage@,
            direct_io_allowed(buf@.len() as int, offset as int, old(self).size as int) ==> {
                &&& r == Ok::<usize, StorageError>(buf@.len() as usize)
                &&& forall|k: int|
                    offset <= k < offset + buf@.len() ==> final(self).storage@[k] == buf@[k
                        - offset]
                &&& forall|k: int|
                    0 <= k < old(self).storage@.len() && !(offset <= k < offset + buf@.len())
                        ==> final(self).storage@[k] == old(self).storage@[k]
            },
    {
        let len = buf.len();
        if (len as u64) % CHUNK_SIZE != 0 || offset % CHUNK_SIZE != 0 {
            return Err(StorageError::AlignmentViolation);
        }
        if offset > self.size || (len as u64) > self.size - offset {
            return Err(StorageError::IoFailure);
        }
        let n = self.write_direct_at(buf, offset);
        Ok(n)
    }
}

} // verus!
