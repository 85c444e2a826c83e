//! Disks, and one that lives in memory.

use vstd::prelude::*;
use crate::bytes::{copy_range, overwrite, overwritten};
use crate::errno::Errno;

verus! {

/// The accesses that fail on a disk: to each position and number of bytes the error that
/// comes back.
#[verifier::ext_equal]
pub struct Faults {
    /// The reads that fail.
    pub reads: Map<(int, int), Errno>,
    /// The writes that fail.
    pub writes: Map<(int, int), Errno>,
}

impl Faults {
    /// No access fails.
    pub open spec fn none() -> Faults {
        Faults { reads: Map::empty(), writes: Map::empty() }
    }
}

/// A disk: a row of bytes that can be read and written, as far as its accesses do not fail.
pub trait BlockDevice: Send + Sync {
    /// What is on the disk. A disk that is written without a specification does not say,
    /// and is taken to do what is said of the methods below.
    open spec fn contents(&self) -> Seq<u8> {
        Seq::empty()
    }

    /// The accesses that fail.
    open spec fn faults(&self) -> Faults {
        Faults::none()
    }

    /// The number of bytes on the disk.
    fn size(&self) -> (size: usize)
        ensures
            size == self.contents().len(),
    ;

    /// Reads `len` bytes at `position`.
    fn read_at(&self, position: u64, len: usize) -> (result: Result<Vec<u8>, Errno>)
        ensures
            match disk_read(self.contents(), self.faults(), position as int, len as int) {
                Ok(bytes) => result is Ok && result->Ok_0@ == bytes,
                Err(e) => result == Err::<Vec<u8>, Errno>(e),
            },
    ;

    /// Writes `bytes` at `position`.
    fn write_at(&mut self, position: u64, bytes: &Vec<u8>) -> (result: Result<(), Errno>)
        ensures
            (final(self).contents(), result) == disk_write(
                old(self).contents(),
                old(self).faults(),
                position as int,
                bytes@,
            ),
            final(self).faults() == old(self).faults(),
    ;
}

/// Something that is held by value, whatever it is.
pub struct Holder<T> {
    pub device: T,
}

/// Any disk.
pub type Disk = Holder<Box<dyn BlockDevice>>;

impl Holder<Box<dyn BlockDevice>> {
    /// What is on the disk.
    pub open spec fn contents(&self) -> Seq<u8> {
        self.device.contents()
    }

    /// The accesses that fail.
    pub open spec fn faults(&self) -> Faults {
        self.device.faults()
    }

    /// The number of bytes on the disk.
    pub fn size(&self) -> (size: usize)
        ensures
            size == self.contents().len(),
    {
        self.device.size()
    }

    /// Reads `len` bytes at `position`.
    pub fn read_at(&self, position: u64, len: usize) -> (result: Result<Vec<u8>, Errno>)
        ensures
            match disk_read(self.contents(), self.faults(), position as int, len as int) {
                Ok(bytes) => result is Ok && result->Ok_0@ == bytes,
                Err(e) => result == Err::<Vec<u8>, Errno>(e),
            },
    {
        self.device.read_at(position, len)
    }

    /// Writes `bytes` at `position`.
    pub fn write_at(&mut self, position: u64, bytes: &Vec<u8>) -> (result: Result<(), Errno>)
        ensures
            (final(self).contents(), result) == disk_write(
                old(self).contents(),
                old(self).faults(),
                position as int,
                bytes@,
            ),
            final(self).faults() == old(self).faults(),
    {
        self.device.write_at(position, bytes)
    }
}

/// A disk whose contents are held in memory.
pub struct ExfatMemoryDisk {
    data: Vec<u8>,
}

impl View for ExfatMemoryDisk {
    type V = Seq<u8>;

    closed spec fn view(&self) -> Seq<u8> {
        self.data@
    }
}

/// What a read of `len` bytes at `position` returns.
pub open spec fn disk_read(disk: Seq<u8>, faults: Faults, position: int, len: int) -> Result<
    Seq<u8>,
    Errno,
> {
    if position + len > disk.len() {
        Err(Errno::EINVAL)
    } else if faults.reads.contains_key((position, len)) {
        Err(faults.reads[(position, len)])
    } else {
        Ok(disk.subrange(position, position + len))
    }
}

/// What a write of `bytes` at `position` makes of the disk, and what it returns. A write
/// that fails leaves the disk as it is.
pub open spec fn disk_write(disk: Seq<u8>, faults: Faults, position: int, bytes: Seq<u8>) -> (
    Seq<u8>,
    Result<(), Errno>,
) {
    if position + bytes.len() > disk.len() {
        (disk, Err(Errno::EINVAL))
    } else if faults.writes.contains_key((position, bytes.len() as int)) {
        (disk, Err(faults.writes[(position, bytes.len() as int)]))
    } else {
        (overwritten(disk, position, bytes), Ok(()))
    }
}

impl ExfatMemoryDisk {
    /// A disk with the given contents.
    pub fn new(data: Vec<u8>) -> (disk: Self)
        ensures
            disk@ == data@,
    {
        ExfatMemoryDisk { data }
    }

}

impl BlockDevice for ExfatMemoryDisk {
    open spec fn contents(&self) -> Seq<u8> {
        self@
    }

    open spec fn faults(&self) -> Faults {
        Faults::none()
    }

    fn size(&self) -> (size: usize) {
        self.data.len()
    }

    fn read_at(&self, position: u64, len: usize) -> (result: Result<Vec<u8>, Errno>) {
        let size: usize = self.data.len();
        if position > size as u64 || len > size - position as usize {
            return Err(Errno::EINVAL);
        }
        let from: usize = position as usize;
        Ok(copy_range(&self.data, from, from + len))
    }

    fn write_at(&mut self, position: u64, bytes: &Vec<u8>) -> (result: Result<(), Errno>) {
        let size: usize = self.data.len();
        if position > size as u64 || bytes.len() > size - position as usize {
            return Err(Errno::EINVAL);
        }
        overwrite(&mut self.data, position as usize, bytes);
        Ok(())
    }
}

/// What lies on a disk is read, what was written is read back, and nothing else changes; what
/// does not lie on it is refused. Where an access fails its error comes back, and the disk
/// stays as it is.
pub proof fn law_disk_access(disk: Seq<u8>, faults: Faults, position: int, bytes: Seq<u8>, k: int)
    requires
        0 <= position,
        0 <= k < disk.len(),
    ensures
        ({
            let len = bytes.len() as int;
            let read = disk_read(disk, faults, position, len);
            let (after, r) = disk_write(disk, faults, position, bytes);
            let there = position + len <= disk.len();
            let read_fails = faults.reads.contains_key((position, len));
            let write_fails = faults.writes.contains_key((position, len));
            &&& !there ==> read == Err::<Seq<u8>, Errno>(Errno::EINVAL) && r == Err::<(), Errno>(
                Errno::EINVAL,
            ) && after == disk
            &&& there && read_fails ==> read == Err::<Seq<u8>, Errno>(
                faults.reads[(position, len)],
            )
            &&& there && !read_fails ==> read is Ok && read->Ok_0.len() == len && (position <= k
                < position + len ==> read->Ok_0[k - position] == disk[k])
            &&& there && write_fails ==> r == Err::<(), Errno>(faults.writes[(position, len)])
                && after == disk
            &&& there && !write_fails ==> r is Ok && after.len() == disk.len() && after[k] == (
            if position <= k < position + len {
                bytes[k - position]
            } else {
                disk[k]
            })
        }),
{
}

} // verus!
