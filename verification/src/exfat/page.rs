//! The pages of a file: how they are found on the disk, read and written.

use vstd::prelude::*;
use crate::bytes::copy_range;
use crate::errno::Errno;
use crate::exfat::chain::ExfatChain;
use crate::exfat::constants::{EXFAT_RESERVED_CLUSTERS, PAGE_SIZE};
use crate::exfat::fat::ClusterID;
use crate::exfat::super_block::ExfatSuperBlock;
use crate::exfat::volume::{Volume, VolumeState};

verus! {

/// The sector on the disk that holds the sector with the number `sector_id` of the
/// bytes of a chain.
pub open spec fn sector_of(v: VolumeState, chain: ExfatChain, sector_id: usize) -> (
    VolumeState,
    Result<u64, Errno>,
) {
    let sb = v.super_block;
    let (v1, r1) = crate::exfat::chain::chain_walk_to_offset(
        v,
        chain,
        (sector_id * sb.sector_size) as usize,
    );
    match r1 {
        Err(e) => (v1, Err(e)),
        Ok(_) => {
            let (v2, r2) = crate::exfat::chain::chain_cluster(
                v1,
                chain,
                (sector_id / (sb.sect_per_cluster as usize)) as u32,
            );
            match r2 {
                Err(e) => (v2, Err(e)),
                Ok(cluster) => if cluster < EXFAT_RESERVED_CLUSTERS {
                    (v2, Err(Errno::EIO))
                } else {
                    (v2, Ok(sector_in_cluster(sb, cluster, sector_id)))
                },
            }
        },
    }
}

/// The sector on the disk that is the one of a cluster in which a file has its
/// sector with the number `sector_id`.
pub open spec fn sector_in_cluster(
    sb: ExfatSuperBlock,
    cluster: ClusterID,
    sector_id: usize,
) -> u64 {
    ((cluster - EXFAT_RESERVED_CLUSTERS) * sb.sect_per_cluster + sb.data_start_sector + sector_id
        % (sb.sect_per_cluster as usize)) as u64
}

/// The number of the sector with which a page begins.
pub open spec fn page_sector(sb: ExfatSuperBlock, idx: int) -> usize {
    (idx * PAGE_SIZE / (sb.sector_size as int)) as usize
}

/// What reading a page of a file of `size` bytes makes of the volume and returns.
pub open spec fn page_read(v: VolumeState, chain: ExfatChain, size: int, idx: int) -> (
    VolumeState,
    Result<Seq<u8>, Errno>,
) {
    if size < idx * PAGE_SIZE {
        (v, Err(Errno::EINVAL))
    } else {
        let (v1, r) = sector_of(v, chain, page_sector(v.super_block, idx));
        match r {
            Err(e) => (v1, Err(e)),
            Ok(sector) => (
                v1,
                crate::exfat::volume::block_read(v1, sector * v1.super_block.sector_size),
            ),
        }
    }
}

/// What writing a page makes of the volume and returns.
pub open spec fn page_written(v: VolumeState, chain: ExfatChain, idx: int, bytes: Seq<u8>) -> (
    VolumeState,
    Result<(), Errno>,
) {
    let (v1, r) = sector_of(v, chain, page_sector(v.super_block, idx));
    match r {
        Err(e) => (v1, Err(e)),
        Ok(sector) => crate::exfat::volume::block_written(
            v1,
            sector * v1.super_block.sector_size,
            bytes,
        ),
    }
}

/// What reading the pages from `idx` up to `end` behind those that were read before
/// makes of the volume and returns.
pub open spec fn pages_read(
    v: VolumeState,
    chain: ExfatChain,
    size: int,
    idx: int,
    end: int,
    before: Seq<u8>,
) -> (VolumeState, Result<Seq<u8>, Errno>)
    decreases end - idx,
{
    if idx >= end {
        (v, Ok(before))
    } else {
        let (v1, r) = page_read(v, chain, size, idx);
        match r {
            Err(e) => (v1, Err(e)),
            Ok(bytes) => pages_read(v1, chain, size, idx + 1, end, before + bytes),
        }
    }
}

/// What writing the pages from `idx` up to `end` makes of the volume and returns.
pub open spec fn pages_written(
    v: VolumeState,
    chain: ExfatChain,
    pages: Seq<u8>,
    idx: int,
    end: int,
) -> (VolumeState, Result<(), Errno>)
    decreases end - idx,
{
    if idx >= end {
        (v, Ok(()))
    } else if (idx + 1) * PAGE_SIZE > pages.len() {
        (v, Err(Errno::EINVAL))
    } else {
        let (v1, r) = page_written(
            v,
            chain,
            idx,
            pages.subrange(idx * PAGE_SIZE, (idx + 1) * PAGE_SIZE),
        );
        match r {
            Err(e) => (v1, Err(e)),
            Ok(_) => pages_written(v1, chain, pages, idx + 1, end),
        }
    }
}

/// The pages of a file of `size` bytes.
pub open spec fn all_pages_read(v: VolumeState, chain: ExfatChain, size: int) -> (
    VolumeState,
    Result<Seq<u8>, Errno>,
) {
    pages_read(
        v,
        chain,
        size,
        0,
        crate::arith::pieces(size, PAGE_SIZE as int),
        Seq::empty(),
    )
}

/// What writing the pages that hold the bytes from `from` up to `to` makes of the
/// volume and returns.
pub open spec fn range_written(
    v: VolumeState,
    chain: ExfatChain,
    pages: Seq<u8>,
    from: int,
    to: int,
) -> (VolumeState, Result<(), Errno>) {
    pages_written(
        v,
        chain,
        pages,
        from / (PAGE_SIZE as int),
        crate::arith::pieces(to, PAGE_SIZE as int),
    )
}

/// Finding a sector changes nothing but which FAT entries are kept in memory.
pub proof fn lemma_sector_of_frame(v: VolumeState, chain: ExfatChain, sector_id: usize)
    ensures
        sector_of(v, chain, sector_id).0 == (VolumeState {
            cache: sector_of(v, chain, sector_id).0.cache,
            ..v
        }),
{
    let size = v.super_block.cluster_size as usize;
    let offset = (sector_id * v.super_block.sector_size) as usize;
    crate::exfat::chain::lemma_fat_walk_frame(
        v,
        chain.current,
        (offset / size) as u32 as nat,
    );
    let (v1, r1) = crate::exfat::chain::chain_walk_to_offset(v, chain, offset);
    crate::exfat::chain::lemma_fat_walk_frame(
        v1,
        chain.current,
        (sector_id / (v.super_block.sect_per_cluster as usize)) as u32 as nat,
    );
}

/// Reading pages changes nothing but which FAT entries are kept in memory.
pub proof fn lemma_pages_read_frame(
    v: VolumeState,
    chain: ExfatChain,
    size: int,
    idx: int,
    end: int,
    before: Seq<u8>,
)
    ensures
        pages_read(v, chain, size, idx, end, before).0 == (VolumeState {
            cache: pages_read(v, chain, size, idx, end, before).0.cache,
            ..v
        }),
    decreases end - idx,
{
    if idx < end {
        lemma_sector_of_frame(v, chain, page_sector(v.super_block, idx));
        let (v1, r) = page_read(v, chain, size, idx);
        match r {
            Err(_) => {},
            Ok(bytes) => {
                lemma_pages_read_frame(v1, chain, size, idx + 1, end, before + bytes);
            },
        }
    }
}

/// Writing pages leaves the layout and the bitmap alone.
pub proof fn lemma_pages_written_frame(
    v: VolumeState,
    chain: ExfatChain,
    pages: Seq<u8>,
    idx: int,
    end: int,
)
    ensures
        pages_written(v, chain, pages, idx, end).0.super_block == v.super_block,
        pages_written(v, chain, pages, idx, end).0.bits == v.bits,
        pages_written(v, chain, pages, idx, end).0.bitmap_start == v.bitmap_start,
        pages_written(v, chain, pages, idx, end).0.faults == v.faults,
        pages_written(v, chain, pages, idx, end).0.disk.len() == v.disk.len(),
    decreases end - idx,
{
    if idx < end && (idx + 1) * PAGE_SIZE <= pages.len() {
        lemma_sector_of_frame(v, chain, page_sector(v.super_block, idx));
        let (v1, r) = page_written(
            v,
            chain,
            idx,
            pages.subrange(idx * PAGE_SIZE, (idx + 1) * PAGE_SIZE),
        );
        if r is Ok {
            lemma_pages_written_frame(v1, chain, pages, idx + 1, end);
        }
    }
}

/// The sector on the disk that holds a sector of the bytes of a chain.
pub fn get_sector_id(volume: &mut Volume, chain: &ExfatChain, sector_id: usize) -> (result: Result<
    u64,
    Errno,
>)
    requires
        old(volume).wf(),
        sector_id * old(volume)@.super_block.sector_size <= usize::MAX,
    ensures
        final(volume).wf(),
        (final(volume)@, result) == sector_of(old(volume)@, *chain, sector_id),
        result matches Ok(sector) ==> sector * final(volume)@.super_block.sector_size <= u64::MAX,
        final(volume)@.super_block == old(volume)@.super_block,
{
    let sb: ExfatSuperBlock = volume.super_block();
    proof {
        volume.lemma_wf();
    }
    let sector_size: usize = sb.sector_size as usize;
    match chain.walk_to_cluster_at_offset(volume, sector_id * sector_size) {
        Err(e) => {
            return Err(e);
        },
        Ok(_) => {},
    }
    let sect_per_cluster: usize = sb.sect_per_cluster as usize;
    let cluster: ClusterID = match chain.cluster_at(
        volume,
        (sector_id / sect_per_cluster) as u32,
    ) {
        Err(e) => {
            return Err(e);
        },
        Ok(cluster) => cluster,
    };
    if cluster < EXFAT_RESERVED_CLUSTERS {
        return Err(Errno::EIO);
    }
    let index: u64 = (cluster - EXFAT_RESERVED_CLUSTERS) as u64;
    let width: u64 = sb.sect_per_cluster as u64;
    let within: u64 = (sector_id % sect_per_cluster) as u64;
    proof {
        lemma_sector_bound(sb, index as int, within as int);
    }
    Ok(index * width + sb.data_start_sector + within)
}

/// Sectors of clusters have small numbers.
pub proof fn lemma_sector_bound(sb: ExfatSuperBlock, index: int, within: int)
    requires
        sb.wf(),
        0 <= index <= u32::MAX,
        0 <= within < sb.sect_per_cluster,
    ensures
        0 <= index * sb.sect_per_cluster <= u32::MAX * 0x1_0000,
        (index * sb.sect_per_cluster + sb.data_start_sector + within) * sb.sector_size <= u64::MAX,
        index * sb.sect_per_cluster + sb.data_start_sector + within <= u64::MAX,
{
    let s = sb.sector_size as int;
    let w = sb.sect_per_cluster as int;
    assert(w <= 0x1_0000) by (nonlinear_arith)
        requires
            s * w <= 0x200_0000,
            512 <= s,
    ;
    assert(0 <= index * w <= u32::MAX * 0x1_0000) by (nonlinear_arith)
        requires
            0 <= index <= u32::MAX,
            0 <= w <= 0x1_0000,
    ;
    let total = index * w + sb.data_start_sector + within;
    assert(total * s <= (u32::MAX * 0x1_0000 + 0x1_ffff_ffff + 0x1_0000) * 4096)
        by (nonlinear_arith)
        requires
            0 <= total <= u32::MAX * 0x1_0000 + 0x1_ffff_ffff + 0x1_0000,
            0 <= s <= 4096,
    ;
}

/// The number of the sector with which a page begins.
fn sector_of_page(volume: &Volume, idx: usize) -> (sector_id: usize)
    requires
        volume.wf(),
        idx * PAGE_SIZE <= usize::MAX,
    ensures
        sector_id == page_sector(volume@.super_block, idx as int),
        sector_id * volume@.super_block.sector_size <= usize::MAX,
{
    let sector_size: usize = volume.sector_size();
    proof {
        let a = (idx * PAGE_SIZE) as int;
        let s = sector_size as int;
        assert((a / s) * s <= a) by (nonlinear_arith)
            requires
                0 <= a,
                0 < s,
        ;
    }
    idx * PAGE_SIZE / sector_size
}

/// Reads a page of a file of `size` bytes.
pub fn read_page(volume: &mut Volume, chain: &ExfatChain, size: usize, idx: usize) -> (result:
    Result<Vec<u8>, Errno>)
    requires
        old(volume).wf(),
        idx * PAGE_SIZE <= usize::MAX,
    ensures
        final(volume).wf(),
        ({
            let (v, r) = page_read(old(volume)@, *chain, size as int, idx as int);
            &&& final(volume)@ == v
            &&& match r {
                Ok(bytes) => result is Ok && result->Ok_0@ == bytes,
                Err(e) => result == Err::<Vec<u8>, Errno>(e),
            }
        }),
{
    if size < idx * PAGE_SIZE {
        return Err(Errno::EINVAL);
    }
    let sector_id: usize = sector_of_page(volume, idx);
    match get_sector_id(volume, chain, sector_id) {
        Err(e) => Err(e),
        Ok(sector) => {
            let sector_size: u64 = volume.super_block().sector_size as u64;
            volume.read_block(sector * sector_size)
        },
    }
}

/// Writes a page.
pub fn write_page(volume: &mut Volume, chain: &ExfatChain, idx: usize, bytes: &Vec<u8>) -> (result:
    Result<(), Errno>)
    requires
        old(volume).wf(),
        idx * PAGE_SIZE <= usize::MAX,
    ensures
        final(volume).wf(),
        (final(volume)@, result) == page_written(old(volume)@, *chain, idx as int, bytes@),
{
    let sector_id: usize = sector_of_page(volume, idx);
    match get_sector_id(volume, chain, sector_id) {
        Err(e) => Err(e),
        Ok(sector) => {
            let sector_size: u64 = volume.super_block().sector_size as u64;
            volume.write_block(sector * sector_size, bytes)
        },
    }
}

/// Reads all pages of a file of `size` bytes.
pub fn read_all_pages(volume: &mut Volume, chain: &ExfatChain, size: usize) -> (result: Result<
    Vec<u8>,
    Errno,
>)
    requires
        old(volume).wf(),
    ensures
        final(volume).wf(),
        ({
            let (v, r) = all_pages_read(old(volume)@, *chain, size as int);
            &&& final(volume)@ == v
            &&& match r {
                Ok(bytes) => result is Ok && result->Ok_0@ == bytes,
                Err(e) => result == Err::<Vec<u8>, Errno>(e),
            }
        }),
        final(volume)@.super_block == old(volume)@.super_block,
{
    proof {
        lemma_pages_read_frame(
            volume@,
            *chain,
            size as int,
            0,
            crate::arith::pieces(size as int, PAGE_SIZE as int),
            Seq::empty(),
        );
    }
    let end: usize = crate::arith::div_ceil(size, PAGE_SIZE);
    let ghost total = all_pages_read(volume@, *chain, size as int);
    let mut pages: Vec<u8> = Vec::new();
    let mut idx: usize = 0;
    while idx < end
        invariant
            volume.wf(),
            idx <= end,
            end == crate::arith::pieces(size as int, PAGE_SIZE as int),
            total == all_pages_read(old(volume)@, *chain, size as int),
            total.0.super_block == old(volume)@.super_block,
            total == pages_read(
                volume@,
                *chain,
                size as int,
                idx as int,
                end as int,
                pages@,
            ),
        decreases end - idx,
    {
        match read_page(volume, chain, size, idx) {
            Err(e) => {
                return Err(e);
            },
            Ok(bytes) => {
                let mut bytes: Vec<u8> = bytes;
                pages.append(&mut bytes);
            },
        }
        idx = idx + 1;
    }
    Ok(pages)
}

/// Writes the pages that hold the bytes from `from` up to `to`.
pub fn write_range(
    volume: &mut Volume,
    chain: &ExfatChain,
    pages: &Vec<u8>,
    from: usize,
    to: usize,
) -> (result: Result<(), Errno>)
    requires
        old(volume).wf(),
    ensures
        final(volume).wf(),
        (final(volume)@, result) == range_written(
            old(volume)@,
            *chain,
            pages@,
            from as int,
            to as int,
        ),
        final(volume)@.super_block == old(volume)@.super_block,
{
    proof {
        lemma_pages_written_frame(
            volume@,
            *chain,
            pages@,
            from as int / PAGE_SIZE as int,
            crate::arith::pieces(to as int, PAGE_SIZE as int),
        );
    }
    let end: usize = crate::arith::div_ceil(to, PAGE_SIZE);
    let len: usize = pages.len();
    let ghost total = range_written(volume@, *chain, pages@, from as int, to as int);
    let mut idx: usize = from / PAGE_SIZE;
    while idx < end
        invariant
            volume.wf(),
            len == pages@.len(),
            total == range_written(old(volume)@, *chain, pages@, from as int, to as int),
            total.0.super_block == old(volume)@.super_block,
            total == pages_written(volume@, *chain, pages@, idx as int, end as int),
        decreases end - idx,
    {
        if idx >= len / PAGE_SIZE {
            return Err(Errno::EINVAL);
        }
        let bytes: Vec<u8> = copy_range(pages, idx * PAGE_SIZE, (idx + 1) * PAGE_SIZE);
        match write_page(volume, chain, idx, &bytes) {
            Err(e) => {
                return Err(e);
            },
            Ok(_) => {},
        }
        idx = idx + 1;
    }
    Ok(())
}

/// What finding the cluster with the number `logical` of a chain, which grows where it
/// does not have it, makes of the volume and the chain and returns.
pub open spec fn cluster_got(v: VolumeState, chain: ExfatChain, logical: u32, sync: bool) -> (
    VolumeState,
    ExfatChain,
    Result<ClusterID, Errno>,
) {
    let have = chain.num_clusters;
    let missing = logical - have + 1;
    if logical < have {
        let (v1, r1) = crate::exfat::chain::chain_cluster(v, chain, logical);
        (v1, chain, r1)
    } else if missing > u32::MAX {
        (v, chain, Err(Errno::ENOSPC))
    } else {
        let (v1, chain1, r1) = crate::exfat::chain::chain_extended(
            v,
            chain,
            missing as u32,
            sync,
        );
        match r1 {
            Err(e) => (v1, chain1, Err(e)),
            Ok(_) => {
                let (v2, r2) = crate::exfat::chain::chain_cluster(v1, chain1, logical);
                (v2, chain1, r2)
            },
        }
    }
}

/// The number of the sector up to which room is made for a sector: the end of its
/// page where whole pages are made.
pub open spec fn last_sector_of(sb: ExfatSuperBlock, sector_id: usize, alloc_page: bool) -> int {
    if alloc_page {
        crate::arith::rounded_up(sector_id as int, PAGE_SIZE as int / sb.sector_size as int)
    } else {
        sector_id as int
    }
}

/// What finding the sector on the disk of a sector of a chain, which grows where it
/// does not have it, makes of the volume and the chain and returns.
pub open spec fn sector_got(
    v: VolumeState,
    chain: ExfatChain,
    sector_id: usize,
    alloc_page: bool,
) -> (VolumeState, ExfatChain, Result<u64, Errno>) {
    let sb = v.super_block;
    let last = last_sector_of(sb, sector_id, alloc_page) as u32;
    let (v1, chain1, r1) = cluster_got(v, chain, last / sb.sect_per_cluster, true);
    match r1 {
        Err(e) => (v1, chain1, Err(e)),
        Ok(_) => {
            let (v2, r2) = sector_of(v1, chain1, sector_id);
            (v2, chain1, r2)
        },
    }
}

impl ExfatChain {
    /// The cluster with the number `logical` of the chain, which grows where it does
    /// not have it.
    pub fn get_or_allocate_cluster(
        &mut self,
        volume: &mut Volume,
        logical: u32,
        sync: bool,
    ) -> (result: Result<ClusterID, Errno>)
        requires
            old(volume).wf(),
        ensures
            final(volume).wf(),
            (final(volume)@, *final(self), result) == cluster_got(
                old(volume)@,
                *old(self),
                logical,
                sync,
            ),
            final(volume)@.super_block == old(volume)@.super_block,
    {
        if logical >= self.num_clusters {
            let missing: u32 = logical - self.num_clusters;
            if missing == u32::MAX {
                return Err(Errno::ENOSPC);
            }
            match self.extend_clusters(volume, missing + 1, sync) {
                Err(e) => {
                    return Err(e);
                },
                Ok(_) => {},
            }
        }
        self.cluster_at(volume, logical)
    }

    /// The sector on the disk of a sector of the chain, which grows where it does not
    /// have it. Where `alloc_page` is set it grows up to the end of the page.
    pub fn lock_and_get_or_allocate_sector_id(
        &mut self,
        volume: &mut Volume,
        sector_id: usize,
        alloc_page: bool,
    ) -> (result: Result<u64, Errno>)
        requires
            old(volume).wf(),
            sector_id + PAGE_SIZE <= usize::MAX,
            sector_id * old(volume)@.super_block.sector_size <= usize::MAX,
        ensures
            final(volume).wf(),
            (final(volume)@, *final(self), result) == sector_got(
                old(volume)@,
                *old(self),
                sector_id,
                alloc_page,
            ),
    {
        let sb: ExfatSuperBlock = volume.super_block();
        proof {
            volume.lemma_wf();
        }
        let sector_size: usize = sb.sector_size as usize;
        let sector_per_page: usize = PAGE_SIZE / sector_size;
        proof {
            let p = sector_per_page as int;
            let q = sector_size as int;
            assert(1 <= p <= 4096) by (nonlinear_arith)
                requires
                    p == 4096int / q,
                    512 <= q <= 4096,
            ;
        }
        let last: usize = if alloc_page {
            crate::arith::align_up(sector_id, sector_per_page)
        } else {
            sector_id
        };
        match self.get_or_allocate_cluster(volume, last as u32 / sb.sect_per_cluster, true) {
            Err(e) => {
                return Err(e);
            },
            Ok(_) => {},
        }
        get_sector_id(volume, &*self, sector_id)
    }
}

} // verus!
