//! Disks on which accesses fail: the error of the disk is returned, and what the failed
//! access would have changed stays.

use vstd::prelude::*;
use crate::errno::Errno;
use crate::exfat::chain::ExfatChain;
use crate::exfat::constants::{BOOT_SECTOR_SIZE, PAGE_SIZE};
use crate::exfat::dentry::DosTimestamp;
use crate::exfat::disk::Faults;
use crate::exfat::fat::{ClusterID, FatValue, FAT_ENTRY_SIZE};
use crate::exfat::fs::io::{file_bytes_read, file_written, pages_fetched};
use crate::exfat::fs::mounting::fs_opened;
use crate::exfat::fs::FsState;
use crate::exfat::laws::dir::only_cache;
use crate::exfat::mount::MountView;
use crate::exfat::page::{page_read, page_written, pages_read, pages_written};
use crate::exfat::volume::{fat_position, fat_read, fat_write, valid_cluster, VolumeState};

verus! {

/// Whether reading `len` bytes at `position` of a disk fails, though they are there.
pub open spec fn read_fails(v: VolumeState, position: int, len: int) -> bool {
    position + len <= v.disk.len() && v.faults.reads.contains_key((position, len))
}

/// Whether writing `len` bytes at `position` of a disk fails, though they are there.
pub open spec fn write_fails(v: VolumeState, position: int, len: int) -> bool {
    position + len <= v.disk.len() && v.faults.writes.contains_key((position, len))
}

/// Where the boot sector cannot be read, the file system is not opened.
pub proof fn law_open_fault(disk: Seq<u8>, faults: Faults, mount: MountView, now: DosTimestamp)
    requires
        BOOT_SECTOR_SIZE <= disk.len(),
        faults.reads.contains_key((0, BOOT_SECTOR_SIZE as int)),
    ensures
        fs_opened(disk, faults, mount, now) == Err::<FsState, Errno>(
            faults.reads[(0, BOOT_SECTOR_SIZE as int)],
        ),
{
}

/// Where an entry of the FAT that is not kept in memory cannot be read, the error is
/// returned and nothing changes.
pub proof fn law_fat_read_fault(v: VolumeState, cluster: ClusterID)
    requires
        valid_cluster(v.super_block, cluster as int),
        crate::exfat::fat_cache::cache_value(v.cache, cluster) is None,
        read_fails(
            v,
            fat_position(v.super_block, v.super_block.fat1_start_sector, cluster),
            FAT_ENTRY_SIZE as int,
        ),
    ensures
        fat_read(v, cluster) == (
            v,
            Err::<FatValue, Errno>(
                v.faults.reads[(
                    fat_position(v.super_block, v.super_block.fat1_start_sector, cluster),
                    FAT_ENTRY_SIZE as int,
                )],
            ),
        ),
{
}

/// Where an entry of the first FAT cannot be written, the error is returned and nothing
/// changes.
pub proof fn law_fat_write_fault(v: VolumeState, cluster: ClusterID, value: FatValue)
    requires
        write_fails(
            v,
            fat_position(v.super_block, v.super_block.fat1_start_sector, cluster),
            FAT_ENTRY_SIZE as int,
        ),
    ensures
        fat_write(v, cluster, value) == (
            v,
            Err::<(), Errno>(
                v.faults.writes[(
                    fat_position(v.super_block, v.super_block.fat1_start_sector, cluster),
                    FAT_ENTRY_SIZE as int,
                )],
            ),
        ),
{
}

/// Reading pages reads some of them and then the others.
proof fn lemma_read_split(
    v: VolumeState,
    chain: ExfatChain,
    size: int,
    idx: int,
    middle: int,
    end: int,
    before: Seq<u8>,
)
    requires
        idx <= middle <= end,
        pages_read(v, chain, size, idx, middle, before).1 is Ok,
    ensures
        ({
            let (w, r) = pages_read(v, chain, size, idx, middle, before);
            pages_read(v, chain, size, idx, end, before) == pages_read(
                w,
                chain,
                size,
                middle,
                end,
                r->Ok_0,
            )
        }),
    decreases middle - idx,
{
    if idx < middle {
        let (v1, r1) = page_read(v, chain, size, idx);
        lemma_read_split(v1, chain, size, idx + 1, middle, end, before + r1->Ok_0);
    }
}

/// Where a page of a file that is not in memory cannot be read, though the pages before it
/// can, reading and writing the file return the error, and nothing changes but which FAT
/// entries are kept in memory.
pub proof fn law_page_read_fault(
    s: FsState,
    i: int,
    idx: int,
    offset: int,
    len: int,
    bytes: Seq<u8>,
)
    requires
        0 <= i < s.nodes.len(),
        s.nodes[i].inode_type is File,
        !s.nodes[i].loaded,
        0 <= idx < crate::arith::pieces(s.nodes[i].size as int, PAGE_SIZE as int),
        ({
            let n = s.nodes[i];
            let (v, r) = pages_read(
                s.vol,
                n.start_chain,
                n.size as int,
                0,
                idx,
                Seq::empty(),
            );
            r is Ok && page_read(v, n.start_chain, n.size as int, idx).1 is Err
        }),
    ensures
        ({
            let n = s.nodes[i];
            let v = pages_read(s.vol, n.start_chain, n.size as int, 0, idx, Seq::empty()).0;
            let e = page_read(v, n.start_chain, n.size as int, idx).1->Err_0;
            let t = pages_fetched(s, i).0;
            &&& t == s.with_vol(t.vol)
            &&& only_cache(s.vol, t.vol)
            &&& file_bytes_read(s, i, offset, len) == (t, Err::<Seq<u8>, Errno>(e))
            &&& file_written(s, i, offset, bytes) == (t, Err::<usize, Errno>(e))
        }),
{
    let n = s.nodes[i];
    let end = crate::arith::pieces(n.size as int, PAGE_SIZE as int);
    let none = Seq::<u8>::empty();
    lemma_read_split(s.vol, n.start_chain, n.size as int, 0, idx, end, none);
    crate::exfat::page::lemma_pages_read_frame(
        s.vol,
        n.start_chain,
        n.size as int,
        0,
        end,
        none,
    );
}

/// Where the block in which a page lies cannot be read or written, the error is returned,
/// and nothing changes but which FAT entries are kept in memory.
pub proof fn law_block_fault(v: VolumeState, chain: ExfatChain, size: int, idx: int, bytes: Seq<u8>)
    requires
        idx * PAGE_SIZE <= size,
        bytes.len() == PAGE_SIZE,
        crate::exfat::page::sector_of(
            v,
            chain,
            crate::exfat::page::page_sector(v.super_block, idx),
        ).1 is Ok,
    ensures
        ({
            let (w, r) = crate::exfat::page::sector_of(
                v,
                chain,
                crate::exfat::page::page_sector(v.super_block, idx),
            );
            let at = r->Ok_0 * v.super_block.sector_size;
            let block = (at - at % (PAGE_SIZE as int), PAGE_SIZE as int);
            &&& only_cache(v, w)
            &&& read_fails(v, block.0, block.1) ==> page_read(v, chain, size, idx) == (
                w,
                Err::<Seq<u8>, Errno>(v.faults.reads[block]),
            )
            &&& write_fails(v, block.0, block.1) ==> page_written(v, chain, idx, bytes) == (
                w,
                Err::<(), Errno>(v.faults.writes[block]),
            )
        }),
{
    crate::exfat::page::lemma_sector_of_frame(
        v,
        chain,
        crate::exfat::page::page_sector(v.super_block, idx),
    );
}

/// Where a page cannot be written, the error is returned, and the pages before it are
/// written.
pub proof fn law_page_write_fault(
    v: VolumeState,
    chain: ExfatChain,
    pages: Seq<u8>,
    idx: int,
    middle: int,
    end: int,
)
    requires
        idx <= middle < end,
        (middle + 1) * PAGE_SIZE <= pages.len(),
        pages_written(v, chain, pages, idx, middle).1 is Ok,
        page_written(
            pages_written(v, chain, pages, idx, middle).0,
            chain,
            middle,
            pages.subrange(middle * PAGE_SIZE, (middle + 1) * PAGE_SIZE),
        ).1 is Err,
    ensures
        ({
            let (w, r) = page_written(
                pages_written(v, chain, pages, idx, middle).0,
                chain,
                middle,
                pages.subrange(middle * PAGE_SIZE, (middle + 1) * PAGE_SIZE),
            );
            pages_written(v, chain, pages, idx, end) == (w, Err::<(), Errno>(r->Err_0))
        }),
    decreases middle - idx,
{
    if idx < middle {
        let v1 = page_written(
            v,
            chain,
            idx,
            pages.subrange(idx * PAGE_SIZE, (idx + 1) * PAGE_SIZE),
        ).0;
        law_page_write_fault(v1, chain, pages, idx + 1, middle, end);
    }
}

} // verus!
