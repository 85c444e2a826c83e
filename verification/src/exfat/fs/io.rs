//! Reading and writing files, and writing everything back.

use vstd::prelude::*;
use crate::arith::align_down;
use crate::bytes::{copy_range, overwrite};
use crate::errno::Errno;
use crate::exfat::chain::ExfatChain;
use crate::exfat::constants::PAGE_SIZE;
use crate::exfat::fs::{ExfatFS, ExfatInode, FsState};
use crate::exfat::inode::{ExfatInodeInner, InodeView};
use crate::exfat::page::{get_sector_id, read_all_pages};
use crate::exfat::volume::VolumeState;

verus! {

/// The smaller one of two numbers.
pub open spec fn lesser(a: int, b: int) -> int {
    if a <= b {
        a
    } else {
        b
    }
}

/// What reading `len` bytes of a file whose pages are in memory at `offset` returns: those
/// of them that the file has.
pub open spec fn file_read(n: InodeView, offset: int, len: int) -> Result<Seq<u8>, Errno> {
    let start = lesser(n.size as int, offset);
    let end = lesser(n.size as int, offset + len);
    if n.inode_type is Dir {
        Err(Errno::EISDIR)
    } else if end > n.pages.len() {
        Err(Errno::EINVAL)
    } else {
        Ok(n.pages.subrange(start, end))
    }
}

/// What having the pages of an inode in memory makes of the file system and returns.
pub open spec fn pages_fetched(s: FsState, i: int) -> (FsState, Result<(), Errno>) {
    let n = s.nodes[i];
    if n.loaded {
        (s, Ok(()))
    } else {
        let (v, r) = crate::exfat::page::all_pages_read(s.vol, n.start_chain, n.size as int);
        match r {
            Err(e) => (s.with_vol(v), Err(e)),
            Ok(pages) => (
                s.with_vol(v).with_node(i, InodeView { pages, loaded: true, ..n }),
                Ok(()),
            ),
        }
    }
}

/// What reading `len` bytes of a file at `offset` makes of the file system and returns.
pub open spec fn file_bytes_read(s: FsState, i: int, offset: int, len: int) -> (
    FsState,
    Result<Seq<u8>, Errno>,
) {
    if s.nodes[i].inode_type is Dir {
        (s, Err(Errno::EISDIR))
    } else {
        let (s1, r1) = pages_fetched(s, i);
        match r1 {
            Err(e) => (s1, Err(e)),
            Ok(_) => (s1, file_read(s1.nodes[i], offset, len)),
        }
    }
}

/// What making room for the first `new_size` bytes of a file makes of the file system
/// and returns.
pub open spec fn room_made(s: FsState, i: int, new_size: usize) -> (FsState, Result<(), Errno>) {
    if new_size <= s.nodes[i].size {
        (s, Ok(()))
    } else {
        let (s1, r1) = crate::exfat::fs::file::file_resized(s, i, new_size);
        match r1 {
            Err(e) => (s1, Err(e)),
            Ok(_) => (
                s1.with_node(i, InodeView { size: new_size, ..s1.nodes[i] }),
                Ok(()),
            ),
        }
    }
}

/// What writing bytes to a file at `offset` makes of the file system and returns.
pub open spec fn file_written(s: FsState, i: int, offset: int, bytes: Seq<u8>) -> (
    FsState,
    Result<usize, Errno>,
) {
    if s.nodes[i].inode_type is Dir {
        (s, Err(Errno::EISDIR))
    } else {
        let (s0, r0) = pages_fetched(s, i);
        match r0 {
            Err(e) => (s0, Err(e)),
            Ok(_) => bytes_put(s0, i, offset, bytes),
        }
    }
}

/// What writing bytes to a file whose pages are in memory at `offset` makes of the file
/// system and returns.
pub open spec fn bytes_put(s: FsState, i: int, offset: int, bytes: Seq<u8>) -> (
    FsState,
    Result<usize, Errno>,
) {
    let (s1, r1) = room_made(s, i, (offset + bytes.len()) as usize);
    match r1 {
        Err(e) => (s1, Err(e)),
        Ok(_) => if offset + bytes.len() > s1.nodes[i].pages.len() {
            (s1, Err(Errno::EINVAL))
        } else {
            (
                s1.with_node(
                    i,
                    InodeView {
                        pages: crate::bytes::overwritten(s1.nodes[i].pages, offset, bytes),
                        ..s1.nodes[i]
                    },
                ),
                Ok(bytes.len() as usize),
            )
        },
    }
}

/// What reading the sectors from `sector` up to `end` of the bytes of a chain, behind
/// those that were read before, makes of the volume and returns.
pub open spec fn sectors_read(
    v: VolumeState,
    chain: ExfatChain,
    sector: int,
    end: int,
    before: Seq<u8>,
) -> (VolumeState, Result<Seq<u8>, Errno>)
    decreases end - sector,
{
    if sector >= end {
        (v, Ok(before))
    } else {
        let (v1, r1) = crate::exfat::page::sector_of(v, chain, sector as usize);
        match r1 {
            Err(e) => (v1, Err(e)),
            Ok(at) => match crate::exfat::disk::disk_read(
                v1.disk,
                v1.faults,
                at * v1.super_block.sector_size,
                v1.super_block.sector_size as int,
            ) {
                Err(e) => (v1, Err(e)),
                Ok(bytes) => sectors_read(v1, chain, sector + 1, end, before + bytes),
            },
        }
    }
}

/// Whether a number of bytes is a number of whole sectors.
pub open spec fn sector_aligned(v: VolumeState, n: int) -> bool {
    n % (v.super_block.sector_size as int) == 0
}

/// What reading `len` bytes of a file at `offset` from the disk makes of the file
/// system and returns: the whole sectors among them that the file has.
pub open spec fn file_read_direct(s: FsState, i: int, offset: int, len: int) -> (
    FsState,
    Result<Seq<u8>, Errno>,
) {
    let n = s.nodes[i];
    let sector_size = s.vol.super_block.sector_size as int;
    let start = lesser(n.size as int, offset) / sector_size;
    let end = lesser(n.size as int, offset + len) / sector_size;
    if n.inode_type is Dir {
        (s, Err(Errno::EISDIR))
    } else if !sector_aligned(s.vol, offset) || !sector_aligned(s.vol, len) {
        (s, Err(Errno::EINVAL))
    } else {
        let (s1, r1) = if n.loaded {
            crate::exfat::fs::file::node_range_written(
                s,
                i,
                start * sector_size,
                end * sector_size,
            )
        } else {
            (s, Ok(()))
        };
        match r1 {
            Err(e) => (s1, Err(e)),
            Ok(_) => {
                let (v, r2) = sectors_read(s1.vol, n.start_chain, start, end, Seq::empty());
                (s1.with_vol(v), r2)
            },
        }
    }
}

/// What writing the bytes from `done` on to the sectors of a file from `sector` on
/// makes of the file system and returns: the sectors are written on the disk and in
/// the pages.
pub open spec fn sectors_written(
    s: FsState,
    i: int,
    sector: int,
    bytes: Seq<u8>,
    done: int,
) -> (FsState, Result<(), Errno>)
    decreases bytes.len() - done,
{
    let sector_size = s.vol.super_block.sector_size as int;
    if done + sector_size > bytes.len() || sector_size <= 0 {
        (s, Ok(()))
    } else {
        let n = s.nodes[i];
        let part = bytes.subrange(done, done + sector_size);
        let (v1, r1) = crate::exfat::page::sector_of(s.vol, n.start_chain, sector as usize);
        match r1 {
            Err(e) => (s.with_vol(v1), Err(e)),
            Ok(at) => {
                let (v2, r2) = crate::exfat::volume::bytes_written(
                    v1,
                    at * sector_size,
                    part,
                );
                match r2 {
                    Err(e) => (s.with_vol(v2), Err(e)),
                    Ok(_) => sectors_written(
                        s.with_vol(v2).with_node(
                            i,
                            InodeView {
                                pages: crate::bytes::overwritten(
                                    n.pages,
                                    sector * sector_size,
                                    part,
                                ),
                                ..n
                            },
                        ),
                        i,
                        sector + 1,
                        bytes,
                        done + sector_size,
                    ),
                }
            },
        }
    }
}

/// What making room on the disk for the first `new_size` bytes of a file makes of the
/// file system and returns.
pub open spec fn direct_room_made(s: FsState, i: int, new_size: usize) -> (
    FsState,
    Result<(), Errno>,
) {
    let n = s.nodes[i];
    if new_size <= n.size {
        (s, Ok(()))
    } else {
        let s1 = s.with_node(
            i,
            InodeView { pages: crate::exfat::fs::pages_for(n.pages, new_size as int), ..n },
        );
        let (s2, r2) = crate::exfat::fs::file::inode_resized(s1, i, new_size);
        match r2 {
            Err(e) => (s2, Err(e)),
            Ok(_) => (
                s2.with_node(i, InodeView { size: new_size, ..s2.nodes[i] }),
                Ok(()),
            ),
        }
    }
}

/// What writing bytes to a file at `offset` on the disk makes of the file system and
/// returns.
pub open spec fn file_written_direct(s: FsState, i: int, offset: int, bytes: Seq<u8>) -> (
    FsState,
    Result<usize, Errno>,
) {
    let n = s.nodes[i];
    if n.inode_type is Dir {
        (s, Err(Errno::EISDIR))
    } else if !sector_aligned(s.vol, offset) || !sector_aligned(s.vol, bytes.len() as int) {
        (s, Err(Errno::EINVAL))
    } else {
        let (s0, r0) = pages_fetched(s, i);
        match r0 {
            Err(e) => (s0, Err(e)),
            Ok(_) => sectors_put(s0, i, offset, bytes),
        }
    }
}

/// What writing bytes to a file whose pages are in memory at `offset` on the disk makes of
/// the file system and returns.
pub open spec fn sectors_put(s: FsState, i: int, offset: int, bytes: Seq<u8>) -> (
    FsState,
    Result<usize, Errno>,
) {
    let n = s.nodes[i];
    let end = offset + bytes.len();
    let (s1, r1) = crate::exfat::fs::file::node_range_written(
        s,
        i,
        lesser(offset, n.size as int),
        lesser(end, n.size as int),
    );
    match r1 {
        Err(e) => (s1, Err(e)),
        Ok(_) => {
            let (s2, r2) = direct_room_made(s1, i, end as usize);
            match r2 {
                Err(e) => (s2, Err(e)),
                Ok(_) => if end > s2.nodes[i].pages.len() {
                    (s2, Err(Errno::EINVAL))
                } else {
                    let (s3, r3) = sectors_written(
                        s2,
                        i,
                        offset / (s.vol.super_block.sector_size as int),
                        bytes,
                        0,
                    );
                    match r3 {
                        Err(e) => (s3, Err(e)),
                        Ok(_) => (s3, Ok(bytes.len() as usize)),
                    }
                },
            }
        },
    }
}

/// What writing an inode back makes of the file system and returns.
pub open spec fn inode_synced(s: FsState, i: int) -> (FsState, Result<(), Errno>) {
    let n = s.nodes[i];
    let (s1, r1) = crate::exfat::fs::file::node_range_written(
        s,
        i,
        0,
        lesser(n.ino as int, n.pages.len() as int),
    );
    match r1 {
        Err(e) => (s1, Err(e)),
        Ok(_) => crate::exfat::fs::file::inode_written(s1, i, true),
    }
}

/// What writing inodes back, from the one at `k` on, makes of the file system and
/// returns.
pub open spec fn inodes_synced(s: FsState, order: Seq<usize>, k: int) -> (
    FsState,
    Result<(), Errno>,
)
    decreases order.len() - k,
{
    if k >= order.len() {
        (s, Ok(()))
    } else {
        let (s1, r1) = inode_synced(s, order[k] as int);
        match r1 {
            Err(e) => (s1, Err(e)),
            Ok(_) => inodes_synced(s1, order, k + 1),
        }
    }
}

impl ExfatInode {
    /// Reads from the file at `offset` into the beginning of `buf`, and returns the
    /// number of bytes.
    pub fn read_at(&self, fs: &mut ExfatFS, offset: usize, buf: &mut Vec<u8>) -> (result: Result<
        usize,
        Errno,
    >)
        requires
            old(fs).wf(),
            self.of(old(fs)@),
            offset + old(buf)@.len() <= usize::MAX,
        ensures
            final(fs).wf(),
            ({
                let (s, r) = file_bytes_read(
                    old(fs)@,
                    self.id(),
                    offset as int,
                    old(buf)@.len() as int,
                );
                &&& final(fs)@ == s
                &&& match r {
                    Ok(bytes) => result == Ok::<usize, Errno>(bytes.len() as usize) && final(
                        buf)@ == crate::bytes::overwritten(old(buf)@, 0, bytes),
                    Err(e) => result == Err::<usize, Errno>(e) && final(buf)@ == old(buf)@,
                }
            }),
            final(fs)@.nodes.len() == old(fs)@.nodes.len(),
    {
        if fs.node(self.index).inode_impl.inode_type.is_directory() {
            return Err(Errno::EISDIR);
        }
        match fs.fetch_pages(self.index) {
            Err(e) => {
                return Err(e);
            },
            Ok(_) => {},
        }
        let inode: &ExfatInodeInner = fs.node(self.index);
        let size: usize = inode.inode_impl.size;
        let start: usize = if size <= offset {
            size
        } else {
            offset
        };
        let end: usize = if size <= offset + buf.len() {
            size
        } else {
            offset + buf.len()
        };
        if end > inode.page_cache.len() {
            return Err(Errno::EINVAL);
        }
        let bytes: Vec<u8> = copy_range(&inode.page_cache, start, end);
        overwrite(buf, 0, &bytes);
        Ok(end - start)
    }

    /// Writes to the file at `offset`, and returns the number of bytes.
    pub fn write_at(&self, fs: &mut ExfatFS, offset: usize, buf: &Vec<u8>) -> (result: Result<
        usize,
        Errno,
    >)
        requires
            old(fs).wf(),
            self.of(old(fs)@),
            offset + buf@.len() + PAGE_SIZE <= usize::MAX,
        ensures
            final(fs).wf(),
            (final(fs)@, result) == file_written(old(fs)@, self.id(), offset as int, buf@),
            final(fs)@.nodes.len() == old(fs)@.nodes.len(),
    {
        let i: usize = self.index;
        if fs.node(i).inode_impl.inode_type.is_directory() {
            return Err(Errno::EISDIR);
        }
        match fs.fetch_pages(i) {
            Err(e) => {
                return Err(e);
            },
            Ok(_) => {},
        }
        let ghost fetched = fs@;
        let new_size: usize = offset + buf.len();
        if new_size > fs.node(i).inode_impl.size {
            match self.resize(fs, new_size) {
                Err(e) => {
                    return Err(e);
                },
                Ok(_) => {},
            }
            let size_allocated: usize = fs.node(i).inode_impl.size_allocated;
            fs.set_sizes(i, new_size, size_allocated);
        }
        assert(room_made(fetched, self.id(), new_size).1 is Ok);
        assert(fs@ =~= room_made(fetched, self.id(), new_size).0);
        if new_size > fs.node(i).page_cache.len() {
            return Err(Errno::EINVAL);
        }
        fs.overwrite_pages(i, offset, buf);
        Ok(buf.len())
    }
}

/// The sectors that lie before a number of bytes.
proof fn lemma_whole_sectors(n: int, sector_size: int)
    requires
        0 <= n,
        0 < sector_size,
    ensures
        0 <= n / sector_size,
        (n / sector_size) * sector_size <= n,
        n % sector_size == 0 ==> (n / sector_size) * sector_size == n,
        n - n % sector_size == (n / sector_size) * sector_size,
{
    assert(0 <= n / sector_size && (n / sector_size) * sector_size <= n && n - n % sector_size == (n
        / sector_size) * sector_size) by (nonlinear_arith)
        requires
            0 <= n,
            0 < sector_size,
    ;
}

/// The end of a sector that lies before another one.
proof fn lemma_sector_before(sector: int, end: int, sector_size: int)
    requires
        0 <= sector < end,
        0 < sector_size,
    ensures
        0 <= sector * sector_size,
        (sector + 1) * sector_size == sector * sector_size + sector_size,
        (sector + 1) * sector_size <= end * sector_size,
{
    assert(0 <= sector * sector_size && (sector + 1) * sector_size == sector * sector_size
        + sector_size && (sector + 1) * sector_size <= end * sector_size) by (nonlinear_arith)
        requires
            0 <= sector < end,
            0 < sector_size,
    ;
}

impl ExfatFS {
    /// Has the pages of an inode in memory.
    fn fetch_pages(&mut self, i: usize) -> (result: Result<(), Errno>)
        requires
            old(self).wf(),
            i < old(self)@.nodes.len(),
        ensures
            final(self).wf(),
            (final(self)@, result) == pages_fetched(old(self)@, i as int),
            final(self)@.nodes.len() == old(self)@.nodes.len(),
            final(self)@.vol.super_block == old(self)@.vol.super_block,
            final(self)@.nodes[i as int].inode_type == old(self)@.nodes[i as int].inode_type,
    {
        if self.node(i).loaded {
            return Ok(());
        }
        let chain: ExfatChain = self.node(i).inode_impl.start_chain;
        let size: usize = self.node(i).inode_impl.size;
        let found: Result<Vec<u8>, Errno> = read_all_pages(&mut self.volume, &chain, size);
        assert(self@ =~= old(self)@.with_vol(self.volume@));
        match found {
            Err(e) => Err(e),
            Ok(pages) => {
                self.set_pages(i, pages);
                Ok(())
            },
        }
    }

    /// Reads the sectors from `start` up to `end` of an inode from the disk.
    fn read_sectors(&mut self, i: usize, start: usize, end: usize) -> (result: Result<
        Vec<u8>,
        Errno,
    >)
        requires
            old(self).wf(),
            i < old(self)@.nodes.len(),
            end * old(self)@.vol.super_block.sector_size <= usize::MAX,
        ensures
            final(self).wf(),
            ({
                let (v, r) = sectors_read(
                    old(self)@.vol,
                    old(self)@.nodes[i as int].start_chain,
                    start as int,
                    end as int,
                    Seq::empty(),
                );
                &&& final(self)@ == old(self)@.with_vol(v)
                &&& match r {
                    Ok(bytes) => result is Ok && result->Ok_0@ == bytes,
                    Err(e) => result == Err::<Vec<u8>, Errno>(e),
                }
            }),
            final(self)@.vol.super_block == old(self)@.vol.super_block,
            result matches Ok(bytes) ==> start <= end ==> bytes@.len() == (end - start) * old(
                self)@.vol.super_block.sector_size,
    {
        let chain: ExfatChain = self.node(i).inode_impl.start_chain;
        let sector_size: usize = self.volume.sector_size();
        let mut bytes: Vec<u8> = Vec::new();
        let mut sector: usize = start;
        let ghost total = sectors_read(
            self@.vol,
            chain,
            start as int,
            end as int,
            Seq::empty(),
        );
        while sector < end
            invariant
                self.wf(),
                self@ == old(self)@.with_vol(self@.vol),
                self@.vol.super_block == old(self)@.vol.super_block,
                sector_size == self@.vol.super_block.sector_size,
                0 < sector_size,
                end * sector_size <= usize::MAX,
                chain == old(self)@.nodes[i as int].start_chain,
                start <= sector,
                start <= end ==> sector <= end,
                bytes@.len() == (sector - start) * sector_size,
                total == sectors_read(
                    old(self)@.vol,
                    chain,
                    start as int,
                    end as int,
                    Seq::empty(),
                ),
                total == sectors_read(
                    self@.vol,
                    chain,
                    sector as int,
                    end as int,
                    bytes@,
                ),
            decreases end - sector,
        {
            proof {
                lemma_sector_before(sector as int, end as int, sector_size as int);
                lemma_sector_before(
                    sector - start,
                    end as int,
                    sector_size as int,
                );
            }
            let ghost before = self@;
            let found: Result<u64, Errno> = get_sector_id(&mut self.volume, &chain, sector);
            assert(self@ =~= before.with_vol(self.volume@));
            let at: u64 = match found {
                Err(e) => {
                    return Err(e);
                },
                Ok(at) => at,
            };
            match self.volume.read_bytes(at * (sector_size as u64), sector_size) {
                Err(e) => {
                    return Err(e);
                },
                Ok(part) => {
                    let mut part: Vec<u8> = part;
                    bytes.append(&mut part);
                },
            }
            sector = sector + 1;
        }
        Ok(bytes)
    }

    /// Writes bytes to the sectors from `start` on of an inode, on the disk and in
    /// its pages.
    fn write_sectors(&mut self, i: usize, start: usize, bytes: &Vec<u8>) -> (result: Result<
        (),
        Errno,
    >)
        requires
            old(self).wf(),
            i < old(self)@.nodes.len(),
            start * old(self)@.vol.super_block.sector_size + bytes@.len() <= old(
                self)@.nodes[i as int].pages.len(),
        ensures
            final(self).wf(),
            (final(self)@, result) == sectors_written(
                old(self)@,
                i as int,
                start as int,
                bytes@,
                0,
            ),
            final(self)@.nodes.len() == old(self)@.nodes.len(),
    {
        let sector_size: usize = self.volume.sector_size();
        let pages_len: usize = self.node(i).page_cache.len();
        let ghost total = sectors_written(self@, i as int, start as int, bytes@, 0);
        let ghost mut count: int = 0;
        let mut sector: usize = start;
        let mut done: usize = 0;
        while sector_size <= bytes.len() - done
            invariant
                self.wf(),
                i < self@.nodes.len(),
                self@.nodes.len() == old(self)@.nodes.len(),
                sector_size == self@.vol.super_block.sector_size,
                0 < sector_size,
                done <= bytes@.len(),
                count == sector - start,
                0 <= count,
                done == count * sector_size,
                start * sector_size + bytes@.len() <= pages_len,
                self@.nodes[i as int].pages.len() == pages_len,
                total == sectors_written(old(self)@, i as int, start as int, bytes@, 0),
                total == sectors_written(
                    self@,
                    i as int,
                    sector as int,
                    bytes@,
                    done as int,
                ),
            decreases bytes@.len() - done,
        {
            proof {
                assert(sector * sector_size == start * sector_size + done) by (nonlinear_arith)
                    requires
                        done == (sector - start) * sector_size,
                ;
                assert((count + 1) * sector_size == count * sector_size + sector_size)
                    by (nonlinear_arith);
                assert(sector < usize::MAX) by (nonlinear_arith)
                    requires
                        sector * sector_size + sector_size <= usize::MAX,
                        0 < sector_size,
                ;
            }
            let part: Vec<u8> = copy_range(bytes, done, done + sector_size);
            let chain: ExfatChain = self.node(i).inode_impl.start_chain;
            let ghost before = self@;
            let found: Result<u64, Errno> = get_sector_id(&mut self.volume, &chain, sector);
            assert(self@ =~= before.with_vol(self.volume@));
            let at: u64 = match found {
                Err(e) => {
                    return Err(e);
                },
                Ok(at) => at,
            };
            let r: Result<(), Errno> = self.volume.write_bytes(at * (sector_size as u64), &part);
            assert(self@ =~= before.with_vol(self.volume@));
            match r {
                Err(e) => {
                    return Err(e);
                },
                Ok(_) => {},
            }
            self.overwrite_pages(i, sector * sector_size, &part);
            sector = sector + 1;
            done = done + sector_size;
            proof {
                count = count + 1;
            }
        }
        Ok(())
    }

    /// Writes an inode back.
    fn sync_node(&mut self, i: usize) -> (result: Result<(), Errno>)
        requires
            old(self).wf(),
            i < old(self)@.nodes.len(),
        ensures
            final(self).wf(),
            (final(self)@, result) == inode_synced(old(self)@, i as int),
            final(self)@.nodes.len() == old(self)@.nodes.len(),
    {
        let ino: usize = self.node(i).inode_impl.ino;
        let pages_len: usize = self.node(i).page_cache.len();
        let end: usize = if ino <= pages_len {
            ino
        } else {
            pages_len
        };
        match self.write_node_range(i, 0, end) {
            Err(e) => Err(e),
            Ok(_) => self.write_inode(i, true),
        }
    }

    /// Writes inodes back, one after the other.
    pub fn sync_in_order(&mut self, order: &Vec<usize>) -> (result: Result<(), Errno>)
        requires
            old(self).wf(),
            forall|k: int| 0 <= k < order@.len() ==> #[trigger] order@[k] < old(self)@.nodes.len(),
        ensures
            final(self).wf(),
            (final(self)@, result) == inodes_synced(old(self)@, order@, 0),
    {
        let ghost total = inodes_synced(self@, order@, 0);
        let mut k: usize = 0;
        while k < order.len()
            invariant
                self.wf(),
                k <= order@.len(),
                self@.nodes.len() == old(self)@.nodes.len(),
                forall|j: int|
                    0 <= j < order@.len() ==> #[trigger] order@[j] < old(self)@.nodes.len(),
                total == inodes_synced(old(self)@, order@, 0),
                total == inodes_synced(self@, order@, k as int),
            decreases order@.len() - k,
        {
            match self.sync_node(order[k]) {
                Err(e) => {
                    return Err(e);
                },
                Ok(_) => {},
            }
            k = k + 1;
        }
        Ok(())
    }

    /// Writes every inode that is open back, in some order.
    pub fn sync(&mut self) -> (result: Result<(), Errno>)
        requires
            old(self).wf(),
        ensures
            final(self).wf(),
            exists|order: Seq<usize>|
                crate::exfat::inode_map::lists_values(old(self)@.opened, order) && (
                final(self)@,
                result,
                ) == #[trigger] inodes_synced(old(self)@, order, 0),
    {
        let order: Vec<usize> = self.inodes.values();
        proof {
            let keys = choose|keys: Seq<u64>|
                keys.no_duplicates() && keys.to_set() == self@.opened.dom() && #[trigger]
                crate::exfat::inode_map::values_of(self@.opened, keys) == order@;
            assert forall|k: int| 0 <= k < order@.len() implies #[trigger] order@[k]
                < self@.nodes.len() by {
                assert(keys.to_set().contains(keys[k]));
                assert(self@.opened.contains_key(keys[k]));
            }
        }
        self.sync_in_order(&order)
    }
}

impl ExfatInode {
    /// Reads whole sectors of the file at `offset` from the disk into the beginning
    /// of `buf`, and returns the number of bytes.
    pub fn read_direct_at(&self, fs: &mut ExfatFS, offset: usize, buf: &mut Vec<u8>) -> (result:
        Result<usize, Errno>)
        requires
            old(fs).wf(),
            self.of(old(fs)@),
            offset + old(buf)@.len() <= usize::MAX,
        ensures
            final(fs).wf(),
            ({
                let (s, r) = file_read_direct(
                    old(fs)@,
                    self.id(),
                    offset as int,
                    old(buf)@.len() as int,
                );
                &&& final(fs)@ == s
                &&& match r {
                    Ok(bytes) => result == Ok::<usize, Errno>(bytes.len() as usize) && final(
                        buf)@ == crate::bytes::overwritten(old(buf)@, 0, bytes),
                    Err(e) => result == Err::<usize, Errno>(e) && final(buf)@ == old(buf)@,
                }
            }),
    {
        let i: usize = self.index;
        let len: usize = buf.len();
        if fs.node(i).inode_impl.inode_type.is_directory() {
            return Err(Errno::EISDIR);
        }
        let sector_size: usize = fs.volume.sector_size();
        if offset % sector_size != 0 || len % sector_size != 0 {
            return Err(Errno::EINVAL);
        }
        let size: usize = fs.node(i).inode_impl.size;
        let start: usize = if size <= offset {
            size
        } else {
            offset
        };
        let end: usize = if size <= offset + len {
            size
        } else {
            offset + len
        };
        proof {
            lemma_whole_sectors(start as int, sector_size as int);
            lemma_whole_sectors(end as int, sector_size as int);
            vstd::arithmetic::div_mod::lemma_div_is_ordered(
                start as int,
                end as int,
                sector_size as int,
            );
        }
        let from: usize = align_down(start, sector_size);
        let to: usize = align_down(end, sector_size);
        if fs.node(i).loaded {
            match fs.write_node_range(i, from, to) {
                Err(e) => {
                    return Err(e);
                },
                Ok(_) => {},
            }
        }
        match fs.read_sectors(i, start / sector_size, end / sector_size) {
            Err(e) => Err(e),
            Ok(bytes) => {
                proof {
                    let a = start as int / sector_size as int;
                    let b = end as int / sector_size as int;
                    let q = sector_size as int;
                    assert((b - a) * q == b * q - a * q) by (nonlinear_arith);
                    assert(b * q - a * q <= len) by {
                        if size <= offset {
                            assert(start == end);
                        } else {
                            assert(a * q == offset);
                        }
                    }
                }
                overwrite(buf, 0, &bytes);
                Ok(bytes.len())
            },
        }
    }

    /// Writes whole sectors of the file at `offset` on the disk, and returns the
    /// number of bytes.
    pub fn write_direct_at(&self, fs: &mut ExfatFS, offset: usize, buf: &Vec<u8>) -> (result: Result<
        usize,
        Errno,
    >)
        requires
            old(fs).wf(),
            self.of(old(fs)@),
            offset + buf@.len() + PAGE_SIZE <= usize::MAX,
        ensures
            final(fs).wf(),
            (final(fs)@, result) == file_written_direct(
                old(fs)@,
                self.id(),
                offset as int,
                buf@,
            ),
    {
        let i: usize = self.index;
        if fs.node(i).inode_impl.inode_type.is_directory() {
            return Err(Errno::EISDIR);
        }
        let sector_size: usize = fs.volume.sector_size();
        if offset % sector_size != 0 || buf.len() % sector_size != 0 {
            return Err(Errno::EINVAL);
        }
        match fs.fetch_pages(i) {
            Err(e) => {
                return Err(e);
            },
            Ok(_) => {},
        }
        let size: usize = fs.node(i).inode_impl.size;
        let end_offset: usize = offset + buf.len();
        let start: usize = if offset <= size {
            offset
        } else {
            size
        };
        let end: usize = if end_offset <= size {
            end_offset
        } else {
            size
        };
        match fs.write_node_range(i, start, end) {
            Err(e) => {
                return Err(e);
            },
            Ok(_) => {},
        }
        match self.make_direct_room(fs, end_offset) {
            Err(e) => {
                return Err(e);
            },
            Ok(_) => {},
        }
        if end_offset > fs.node(i).page_cache.len() {
            return Err(Errno::EINVAL);
        }
        proof {
            lemma_whole_sectors(offset as int, sector_size as int);
        }
        match fs.write_sectors(i, offset / sector_size, buf) {
            Err(e) => Err(e),
            Ok(_) => Ok(buf.len()),
        }
    }

    /// Makes room on the disk for the first `new_size` bytes of the file.
    fn make_direct_room(&self, fs: &mut ExfatFS, new_size: usize) -> (result: Result<(), Errno>)
        requires
            old(fs).wf(),
            self.of(old(fs)@),
            new_size + PAGE_SIZE <= usize::MAX,
        ensures
            final(fs).wf(),
            (final(fs)@, result) == direct_room_made(old(fs)@, self.id(), new_size),
            final(fs)@.nodes.len() == old(fs)@.nodes.len(),
            final(fs)@.vol.super_block == old(fs)@.vol.super_block,
    {
        let i: usize = self.index;
        if new_size <= fs.node(i).inode_impl.size {
            return Ok(());
        }
        fs.resize_pages(i, new_size);
        match ExfatInodeInner::lock_and_resize(fs, *self, new_size) {
            Err(e) => Err(e),
            Ok(_) => {
                let size_allocated: usize = fs.node(i).inode_impl.size_allocated;
                fs.set_sizes(i, new_size, size_allocated);
                Ok(())
            },
        }
    }

    /// Writes the file back.
    pub fn sync(&self, fs: &mut ExfatFS) -> (result: Result<(), Errno>)
        requires
            old(fs).wf(),
            self.of(old(fs)@),
        ensures
            final(fs).wf(),
            (final(fs)@, result) == inode_synced(old(fs)@, self.id()),
    {
        fs.sync_node(self.index)
    }
}

} // verus!
