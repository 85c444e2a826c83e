//! The volume: the disk, its layout, its FAT and its bitmap.

use core::ops::Range;
use vstd::prelude::*;
use crate::bytes::{get_le32, push_le32};
use crate::errno::Errno;
use crate::exfat::bitmap::ExfatBitmap;
use crate::exfat::constants::{
    BOOT_SECTOR_SIZE, EXFAT_RESERVED_CLUSTERS, LRU_CACHE_SIZE, PAGE_SIZE,
};
use crate::exfat::disk::{Disk, Faults};
use crate::exfat::fat::{ClusterID, FatValue, FAT_ENTRY_SIZE};
use crate::exfat::fat_cache::FatCache;
use crate::exfat::super_block::{parse_boot_sector, ExfatSuperBlock};

verus! {

/// A disk with an exFAT volume on it.
pub struct Volume {
    block_device: Disk,
    super_block: ExfatSuperBlock,
    bitmap: ExfatBitmap,
    bitmap_start: ClusterID,
    fat_cache: FatCache,
}

/// The state of a volume.
#[verifier::ext_equal]
pub struct VolumeState {
    /// The contents of the disk.
    pub disk: Seq<u8>,
    /// The accesses to the disk that fail.
    pub faults: Faults,
    /// The layout of the volume.
    pub super_block: ExfatSuperBlock,
    /// Which clusters are in use.
    pub bits: Seq<bool>,
    /// The cluster with which the bitmap begins on the disk; zero where none was loaded.
    pub bitmap_start: ClusterID,
    /// The FAT entries that are kept in memory, the one used last first.
    pub cache: Seq<(u32, u32)>,
}

impl View for Volume {
    type V = VolumeState;

    closed spec fn view(&self) -> VolumeState {
        VolumeState {
            disk: self.block_device.contents(),
            faults: self.block_device.faults(),
            super_block: self.super_block,
            bits: self.bitmap@,
            bitmap_start: self.bitmap_start,
            cache: crate::exfat::fat_cache::fat_cache_entries(&self.fat_cache),
        }
    }
}

/// Whether a number can be that of a cluster.
pub open spec fn valid_cluster(sb: ExfatSuperBlock, cluster: int) -> bool {
    EXFAT_RESERVED_CLUSTERS <= cluster <= sb.num_clusters
}

/// Where on the disk a FAT that begins at a sector has the entry of a cluster.
pub open spec fn fat_position(sb: ExfatSuperBlock, start_sector: u64, cluster: ClusterID) -> int {
    start_sector * sb.sector_size + cluster * FAT_ENTRY_SIZE
}

/// Where on the disk a cluster begins.
pub open spec fn cluster_offset(sb: ExfatSuperBlock, cluster: int) -> int {
    ((cluster - EXFAT_RESERVED_CLUSTERS) * sb.sect_per_cluster + sb.data_start_sector)
        * sb.sector_size
}

/// What the FAT on the disk says of a cluster.
pub open spec fn disk_fat(v: VolumeState, cluster: ClusterID) -> Result<FatValue, Errno> {
    let position = fat_position(v.super_block, v.super_block.fat1_start_sector, cluster);
    if !valid_cluster(v.super_block, cluster as int) {
        Err(Errno::EIO)
    } else {
        match crate::exfat::disk::disk_read(v.disk, v.faults, position, FAT_ENTRY_SIZE as int) {
            Err(e) => Err(e),
            Ok(bytes) => Ok(crate::exfat::fat::fat_value_of(crate::bytes::le32(bytes, 0))),
        }
    }
}

/// The disk after the entry of a cluster was written to every FAT.
pub open spec fn disk_fat_written(v: VolumeState, cluster: ClusterID, value: FatValue) -> (
    Seq<u8>,
    Result<(), Errno>,
) {
    let sb = v.super_block;
    let bytes = crate::bytes::le32_bytes(crate::exfat::fat::fat_raw_of(value));
    let (disk1, r1) = crate::exfat::disk::disk_write(
        v.disk,
        v.faults,
        fat_position(sb, sb.fat1_start_sector, cluster),
        bytes,
    );
    if r1 is Err || sb.fat1_start_sector == sb.fat2_start_sector {
        (disk1, r1)
    } else {
        crate::exfat::disk::disk_write(
            disk1,
            v.faults,
            fat_position(sb, sb.fat2_start_sector, cluster),
            bytes,
        )
    }
}

/// What a read of the FAT, by way of the entries kept in memory, makes of the
/// volume and returns.
pub open spec fn fat_read(v: VolumeState, cluster: ClusterID) -> (
    VolumeState,
    Result<FatValue, Errno>,
) {
    match crate::exfat::fat_cache::cache_value(v.cache, cluster) {
        Some(raw) => (
            VolumeState {
                cache: crate::exfat::fat_cache::cache_touched(v.cache, cluster),
                ..v
            },
            Ok(crate::exfat::fat::fat_value_of(raw)),
        ),
        None => match disk_fat(v, cluster) {
            Err(e) => (v, Err(e)),
            Ok(value) => (
                VolumeState {
                    cache: crate::exfat::fat_cache::cache_put(
                        v.cache,
                        LRU_CACHE_SIZE as nat,
                        cluster,
                        crate::exfat::fat::fat_raw_of(value),
                    ),
                    ..v
                },
                Ok(value),
            ),
        },
    }
}

/// What a write to the FAT makes of the volume and returns.
pub open spec fn fat_write(v: VolumeState, cluster: ClusterID, value: FatValue) -> (
    VolumeState,
    Result<(), Errno>,
) {
    let (disk, result) = disk_fat_written(v, cluster, value);
    match result {
        Err(e) => (VolumeState { disk, ..v }, Err(e)),
        Ok(_) => (
            VolumeState {
                disk,
                cache: crate::exfat::fat_cache::cache_put(
                    v.cache,
                    LRU_CACHE_SIZE as nat,
                    cluster,
                    crate::exfat::fat::fat_raw_of(value),
                ),
                ..v
            },
            Ok(()),
        ),
    }
}

impl Volume {
    /// The layout is sound, the bitmap knows its number of free clusters, and the
    /// FAT entries in memory are limited.
    pub closed spec fn wf(&self) -> bool {
        &&& self.super_block.wf()
        &&& self.bitmap.wf()
        &&& crate::exfat::fat_cache::fat_cache_limit(&self.fat_cache) == LRU_CACHE_SIZE
    }

    /// The layout of a well-formed volume is sound.
    pub proof fn lemma_wf(&self)
        requires
            self.wf(),
        ensures
            self@.super_block.wf(),
            self@.bits.len() + EXFAT_RESERVED_CLUSTERS <= u32::MAX,
    {
        self.bitmap.lemma_wf();
    }

    /// Reads the layout of the volume on a disk.
    pub fn read_super_block(block_device: &Disk) -> (result: Result<
        ExfatSuperBlock,
        Errno,
    >)
        ensures
            result == boot_result(block_device.contents(), block_device.faults()),
            result matches Ok(sb) ==> sb.wf(),
    {
        match block_device.read_at(0, BOOT_SECTOR_SIZE) {
            Err(e) => Err(e),
            Ok(boot_sector) => parse_boot_sector(&boot_sector),
        }
    }

    /// A volume of which no FAT entry was read and no bitmap was loaded.
    pub fn new(block_device: Disk, super_block: ExfatSuperBlock) -> (volume: Self)
        requires
            super_block.wf(),
        ensures
            volume.wf(),
            volume@ == (VolumeState {
                disk: block_device.contents(),
                faults: block_device.faults(),
                super_block,
                bits: Seq::<bool>::empty(),
                bitmap_start: 0,
                cache: Seq::<(u32, u32)>::empty(),
            }),
    {
        Volume {
            block_device,
            super_block,
            bitmap: ExfatBitmap::empty(),
            bitmap_start: 0,
            fat_cache: FatCache::new(LRU_CACHE_SIZE),
        }
    }

    /// The disk.
    pub fn block_device(&self) -> (disk: &Disk)
        ensures
            disk.contents() == self@.disk,
            disk.faults() == self@.faults,
    {
        &self.block_device
    }

    /// The layout of the volume.
    pub fn super_block(&self) -> (sb: ExfatSuperBlock)
        ensures
            sb == self@.super_block,
    {
        self.super_block
    }

    /// The number of bytes in a cluster.
    pub fn cluster_size(&self) -> (size: usize)
        requires
            self.wf(),
        ensures
            size == self@.super_block.cluster_size,
            512 <= size <= 0x200_0000,
    {
        proof {
            lemma_cluster_size_positive(self.super_block);
        }
        self.super_block.cluster_size as usize
    }

    /// The number of bytes in a sector.
    pub fn sector_size(&self) -> (size: usize)
        requires
            self.wf(),
        ensures
            size == self@.super_block.sector_size,
            512 <= size <= 4096,
    {
        self.super_block.sector_size as usize
    }

    /// The number of clusters that are not in use.
    pub fn free_clusters(&self) -> (n: u32)
        requires
            self.wf(),
        ensures
            n == crate::exfat::bitmap::count_free(self@.bits),
    {
        self.bitmap.free_clusters()
    }

    /// The first cluster that is not in use.
    pub fn first_free_cluster(&self) -> (result: Option<ClusterID>)
        requires
            self.wf(),
        ensures
            match crate::exfat::bitmap::first_free_run(
                self@.bits,
                EXFAT_RESERVED_CLUSTERS as int,
                1,
            ) {
                Some(found) => result == Some(found as u32) && found == found as u32
                    && crate::exfat::bitmap::has_cluster(self@.bits, found),
                None => result is None,
            },
    {
        proof {
            crate::exfat::bitmap::lemma_first_free_run(
                self.bitmap@,
                EXFAT_RESERVED_CLUSTERS as int,
                1,
            );
            self.bitmap.lemma_wf();
        }
        match self.bitmap.find_next_free_cluster_range_fast(EXFAT_RESERVED_CLUSTERS, 1) {
            Err(_) => None,
            Ok(found) => Some(found.start),
        }
    }

    /// Whether a number can be that of a cluster.
    pub fn is_valid_cluster(&self, cluster: ClusterID) -> (result: bool)
        ensures
            result == valid_cluster(self@.super_block, cluster as int),
    {
        cluster >= EXFAT_RESERVED_CLUSTERS && cluster <= self.super_block.num_clusters
    }

    /// Where the FAT that begins at a sector has the entry of a cluster.
    fn position_in_fat(&self, start_sector: u64, cluster: ClusterID) -> (position: u64)
        requires
            self.wf(),
            start_sector <= 0x1_ffff_ffff,
        ensures
            position == fat_position(self@.super_block, start_sector, cluster),
    {
        let sector_size: u64 = self.super_block.sector_size as u64;
        assert(start_sector * sector_size <= 0x1_ffff_ffff * 4096) by (nonlinear_arith)
            requires
                start_sector <= 0x1_ffff_ffff,
                sector_size <= 4096,
        ;
        let width: u64 = FAT_ENTRY_SIZE as u64;
        assert(width == 4);
        start_sector * sector_size + (cluster as u64) * width
    }

    /// Where on the disk a cluster begins.
    pub fn cluster_to_off(&self, cluster: ClusterID) -> (offset: u64)
        requires
            self.wf(),
            EXFAT_RESERVED_CLUSTERS <= cluster,
        ensures
            offset == cluster_offset(self@.super_block, cluster as int),
    {
        let sector_size: u64 = self.super_block.sector_size as u64;
        let sect_per_cluster: u64 = self.super_block.sect_per_cluster as u64;
        let data_start: u64 = self.super_block.data_start_sector;
        let index: u64 = (cluster - EXFAT_RESERVED_CLUSTERS) as u64;
        assert(sect_per_cluster <= 0x1_0000) by (nonlinear_arith)
            requires
                sector_size * sect_per_cluster <= 0x200_0000,
                512 <= sector_size,
        ;
        assert(index * sect_per_cluster <= 0xffff_ffff * 0x1_0000) by (nonlinear_arith)
            requires
                index <= 0xffff_ffff,
                sect_per_cluster <= 0x1_0000,
        ;
        let sector: u64 = index * sect_per_cluster + data_start;
        assert(sector * sector_size <= (0xffff_ffff * 0x1_0000 + 0x1_ffff_ffff) * 4096)
            by (nonlinear_arith)
            requires
                sector <= 0xffff_ffff * 0x1_0000 + 0x1_ffff_ffff,
                sector_size <= 4096,
        ;
        sector * sector_size
    }

    /// What the FAT on the disk says of a cluster.
    pub fn read_fat_entry(&self, cluster: ClusterID) -> (result: Result<FatValue, Errno>)
        requires
            self.wf(),
        ensures
            result == disk_fat(self@, cluster),
    {
        if !self.is_valid_cluster(cluster) {
            return Err(Errno::EIO);
        }
        let position: u64 = self.position_in_fat(self.super_block.fat1_start_sector, cluster);
        match self.block_device.read_at(position, FAT_ENTRY_SIZE as usize) {
            Err(e) => Err(e),
            Ok(bytes) => Ok(FatValue::from(get_le32(&bytes, 0))),
        }
    }

    /// Writes the entry of a cluster to every FAT on the disk.
    pub fn write_fat_entry(&mut self, cluster: ClusterID, value: FatValue) -> (result: Result<
        (),
        Errno,
    >)
        requires
            old(self).wf(),
        ensures
            final(self).wf(),
            (final(self)@.disk, result) == disk_fat_written(old(self)@, cluster, value),
            final(self)@ == (VolumeState { disk: final(self)@.disk, ..old(self)@ }),
    {
        let raw: ClusterID = ClusterID::from(value);
        let mut bytes: Vec<u8> = Vec::new();
        push_le32(&mut bytes, raw);
        assert(bytes@ =~= crate::bytes::le32_bytes(raw));
        let position: u64 = self.position_in_fat(self.super_block.fat1_start_sector, cluster);
        let mirror: u64 = self.position_in_fat(self.super_block.fat2_start_sector, cluster);
        match self.block_device.write_at(position, &bytes) {
            Err(e) => {
                return Err(e);
            },
            Ok(_) => {},
        }
        if self.super_block.fat1_start_sector != self.super_block.fat2_start_sector {
            match self.block_device.write_at(mirror, &bytes) {
                Err(e) => {
                    return Err(e);
                },
                Ok(_) => {},
            }
        }
        Ok(())
    }

    /// What the FAT says of a cluster, from memory where the entry is kept there.
    pub fn read_next_fat(&mut self, cluster: ClusterID) -> (result: Result<FatValue, Errno>)
        requires
            old(self).wf(),
        ensures
            final(self).wf(),
            (final(self)@, result) == fat_read(old(self)@, cluster),
    {
        match self.fat_cache.get(cluster) {
            Some(raw) => Ok(FatValue::from(raw)),
            None => match self.read_fat_entry(cluster) {
                Err(e) => Err(e),
                Ok(value) => {
                    self.fat_cache.put(cluster, ClusterID::from(value));
                    Ok(value)
                },
            },
        }
    }

    /// Changes what the FAT says of a cluster, on the disk and in memory.
    pub fn write_next_fat(&mut self, cluster: ClusterID, value: FatValue) -> (result: Result<
        (),
        Errno,
    >)
        requires
            old(self).wf(),
        ensures
            final(self).wf(),
            (final(self)@, result) == fat_write(old(self)@, cluster, value),
    {
        match self.write_fat_entry(cluster, value) {
            Err(e) => Err(e),
            Ok(_) => {
                self.fat_cache.put(cluster, ClusterID::from(value));
                Ok(())
            },
        }
    }

    /// Reads bytes from the disk.
    pub fn read_bytes(&self, position: u64, len: usize) -> (result: Result<Vec<u8>, Errno>)
        ensures
            match crate::exfat::disk::disk_read(self@.disk, self@.faults, position as int, len as int) {
                Ok(bytes) => result is Ok && result->Ok_0@ == bytes,
                Err(e) => result == Err::<Vec<u8>, Errno>(e),
            },
    {
        self.block_device.read_at(position, len)
    }

    /// Writes bytes to the disk.
    pub fn write_bytes(&mut self, position: u64, bytes: &Vec<u8>) -> (result: Result<(), Errno>)
        requires
            old(self).wf(),
        ensures
            final(self).wf(),
            (final(self)@, result) == bytes_written(old(self)@, position as int, bytes@),
    {
        match self.block_device.write_at(position, bytes) {
            Ok(_) => Ok(()),
            Err(e) => Err(e),
        }
    }

    /// Reads the block that holds the byte with the number `offset`.
    pub fn read_block(&self, offset: u64) -> (result: Result<Vec<u8>, Errno>)
        ensures
            match block_read(self@, offset as int) {
                Ok(bytes) => result is Ok && result->Ok_0@ == bytes,
                Err(e) => result == Err::<Vec<u8>, Errno>(e),
            },
    {
        self.read_bytes(offset - offset % (PAGE_SIZE as u64), PAGE_SIZE)
    }

    /// Writes the block that holds the byte with the number `offset`.
    pub fn write_block(&mut self, offset: u64, bytes: &Vec<u8>) -> (result: Result<(), Errno>)
        requires
            old(self).wf(),
        ensures
            final(self).wf(),
            (final(self)@, result) == block_written(old(self)@, offset as int, bytes@),
    {
        self.write_bytes(offset - offset % (PAGE_SIZE as u64), bytes)
    }

    /// Takes over the bitmap that the bytes hold, which begins on the disk at a cluster.
    pub fn set_bitmap(&mut self, bytes: &Vec<u8>, n: u32, start: ClusterID)
        requires
            old(self).wf(),
            crate::arith::pieces(n as int, 8) <= bytes.len(),
            n + EXFAT_RESERVED_CLUSTERS <= u32::MAX,
        ensures
            final(self).wf(),
            final(self)@ == (VolumeState {
                bits: crate::exfat::bitmap::bits_of_bytes(bytes@, n as int),
                bitmap_start: start,
                ..old(self)@
            }),
    {
        self.bitmap = ExfatBitmap::from_bytes(bytes, n);
        self.bitmap_start = start;
    }

    /// Writes the bitmap to the disk.
    pub fn write_bitmap(&mut self) -> (result: Result<(), Errno>)
        requires
            old(self).wf(),
        ensures
            final(self).wf(),
            (final(self)@, result) == bitmap_written(old(self)@),
    {
        if self.bitmap_start < EXFAT_RESERVED_CLUSTERS {
            return Err(Errno::EIO);
        }
        let position: u64 = self.cluster_to_off(self.bitmap_start);
        let bytes: Vec<u8> = self.bitmap.to_bytes();
        self.write_bytes(position, &bytes)
    }

    /// Marks a cluster in the bitmap.
    pub fn mark_cluster(&mut self, cluster: ClusterID, used: bool) -> (result: Result<(), Errno>)
        requires
            old(self).wf(),
        ensures
            final(self).wf(),
            (final(self)@, result) == cluster_marked(old(self)@, cluster, used),
    {
        match self.bitmap.set_bit(cluster, used) {
            Ok(_) => Ok(()),
            Err(e) => Err(e),
        }
    }

    /// Marks a cluster as used, and writes the bitmap to the disk where `sync` is set.
    pub fn set_bitmap_used(&mut self, cluster: ClusterID, sync: bool) -> (result: Result<(), Errno>)
        requires
            old(self).wf(),
        ensures
            final(self).wf(),
            (final(self)@, result) == bitmap_synced(
                cluster_marked(old(self)@, cluster, true),
                sync,
            ),
    {
        let result: Result<(), Errno> = self.mark_cluster(cluster, true);
        self.sync_bitmap(result, sync)
    }

    /// Marks a cluster as free, and writes the bitmap to the disk where `sync` is set.
    pub fn set_bitmap_unused(&mut self, cluster: ClusterID, sync: bool) -> (result: Result<
        (),
        Errno,
    >)
        requires
            old(self).wf(),
        ensures
            final(self).wf(),
            (final(self)@, result) == bitmap_synced(
                cluster_marked(old(self)@, cluster, false),
                sync,
            ),
    {
        let result: Result<(), Errno> = self.mark_cluster(cluster, false);
        self.sync_bitmap(result, sync)
    }

    /// Marks the clusters of a range as used, and writes the bitmap to the disk where
    /// `sync` is set.
    pub fn set_bitmap_range_used(&mut self, clusters: Range<ClusterID>, sync: bool) -> (result:
        Result<(), Errno>)
        requires
            old(self).wf(),
        ensures
            final(self).wf(),
            (final(self)@, result) == bitmap_synced(
                range_marked(old(self)@, clusters, true),
                sync,
            ),
    {
        let result: Result<(), Errno> = self.bitmap.set_range(clusters, true);
        self.sync_bitmap(result, sync)
    }

    /// Marks the clusters of a range as free, and writes the bitmap to the disk where
    /// `sync` is set.
    pub fn set_bitmap_range_unused(&mut self, clusters: Range<ClusterID>, sync: bool) -> (result:
        Result<(), Errno>)
        requires
            old(self).wf(),
        ensures
            final(self).wf(),
            (final(self)@, result) == bitmap_synced(
                range_marked(old(self)@, clusters, false),
                sync,
            ),
    {
        let result: Result<(), Errno> = self.bitmap.set_range(clusters, false);
        self.sync_bitmap(result, sync)
    }

    /// Writes the bitmap to the disk where what was done before succeeded and `sync` is
    /// set.
    pub fn sync_bitmap(&mut self, done: Result<(), Errno>, sync: bool) -> (result: Result<
        (),
        Errno,
    >)
        requires
            old(self).wf(),
        ensures
            final(self).wf(),
            (final(self)@, result) == bitmap_synced((old(self)@, done), sync),
    {
        match done {
            Err(e) => Err(e),
            Ok(_) => if sync {
                self.write_bitmap()
            } else {
                Ok(())
            },
        }
    }

    /// The bitmap.
    pub fn bitmap(&self) -> (bitmap: &ExfatBitmap)
        requires
            self.wf(),
        ensures
            bitmap@ == self@.bits,
            bitmap.wf(),
    {
        &self.bitmap
    }
}

/// What writing the bitmap to the disk makes of the volume and returns.
pub open spec fn bitmap_written(v: VolumeState) -> (VolumeState, Result<(), Errno>) {
    if v.bitmap_start < EXFAT_RESERVED_CLUSTERS {
        (v, Err(Errno::EIO))
    } else {
        bytes_written(
            v,
            cluster_offset(v.super_block, v.bitmap_start as int),
            crate::exfat::bitmap::bytes_of_bits(v.bits),
        )
    }
}

/// What writing the bitmap to the disk where `sync` is set, behind something that
/// succeeded, makes of the volume and returns.
pub open spec fn bitmap_synced(done: (VolumeState, Result<(), Errno>), sync: bool) -> (
    VolumeState,
    Result<(), Errno>,
) {
    match done.1 {
        Err(e) => (done.0, Err(e)),
        Ok(_) => if sync {
            bitmap_written(done.0)
        } else {
            (done.0, Ok(()))
        },
    }
}

/// The bits of the bitmap that begins on the disk at a cluster.
pub open spec fn bitmap_on_disk(v: VolumeState, start: ClusterID) -> Result<Seq<bool>, Errno> {
    let n = v.super_block.num_clusters - EXFAT_RESERVED_CLUSTERS;
    if start < EXFAT_RESERVED_CLUSTERS {
        Err(Errno::EINVAL)
    } else {
        match crate::exfat::disk::disk_read(
            v.disk,
            v.faults,
            cluster_offset(v.super_block, start as int),
            crate::arith::pieces(n, 8),
        ) {
            Err(e) => Err(e),
            Ok(bytes) => Ok(crate::exfat::bitmap::bits_of_bytes(bytes, n)),
        }
    }
}

/// The bits of the bitmap that the disk holds at a cluster, whether or not they can be read.
pub open spec fn bitmap_stored(v: VolumeState, start: ClusterID) -> Result<Seq<bool>, Errno> {
    bitmap_on_disk(VolumeState { faults: Faults::none(), ..v }, start)
}

/// Whether the bitmap has a bit for every cluster of the volume.
pub open spec fn bitmap_complete(v: VolumeState) -> bool {
    v.bits.len() + EXFAT_RESERVED_CLUSTERS == v.super_block.num_clusters
}

/// The disk holds the bitmap that was written to it, and where no access fails it is read.
pub proof fn law_bitmap_written(v: VolumeState)
    requires
        bitmap_complete(v),
        bitmap_written(v).1 is Ok,
    ensures
        bitmap_stored(bitmap_written(v).0, v.bitmap_start) == Ok::<Seq<bool>, Errno>(v.bits),
        v.faults == Faults::none() ==> bitmap_on_disk(bitmap_written(v).0, v.bitmap_start) == Ok::<
            Seq<bool>,
            Errno,
        >(v.bits),
        bitmap_written(v).0 == (VolumeState { disk: bitmap_written(v).0.disk, ..v }),
{
    let bytes = crate::exfat::bitmap::bytes_of_bits(v.bits);
    let at = cluster_offset(v.super_block, v.bitmap_start as int);
    let w = bitmap_written(v).0;
    crate::exfat::bitmap::law_bitmap_roundtrip(v.bits);
    crate::arith::lemma_rounded_up(v.bits.len() as int, 8);
    assert(w.disk.subrange(at, at + bytes.len()) =~= bytes);
}

/// What reading the block that holds the byte with the number `offset` returns.
pub open spec fn block_read(v: VolumeState, offset: int) -> Result<Seq<u8>, Errno> {
    crate::exfat::disk::disk_read(v.disk, v.faults, offset - offset % (PAGE_SIZE as int), PAGE_SIZE as int)
}

/// What writing the block that holds the byte with the number `offset` makes of the
/// volume and returns.
pub open spec fn block_written(v: VolumeState, offset: int, bytes: Seq<u8>) -> (
    VolumeState,
    Result<(), Errno>,
) {
    bytes_written(v, offset - offset % (PAGE_SIZE as int), bytes)
}

/// What writing bytes to the disk makes of the volume and returns.
pub open spec fn bytes_written(v: VolumeState, position: int, bytes: Seq<u8>) -> (
    VolumeState,
    Result<(), Errno>,
) {
    let (disk, r) = crate::exfat::disk::disk_write(v.disk, v.faults, position, bytes);
    (VolumeState { disk, ..v }, r)
}

/// A cluster is not empty.
pub proof fn lemma_cluster_size_positive(sb: ExfatSuperBlock)
    requires
        sb.wf(),
    ensures
        512 <= sb.cluster_size,
{
    assert(sb.sector_size <= sb.sector_size * sb.sect_per_cluster) by (nonlinear_arith)
        requires
            1 <= sb.sect_per_cluster,
    ;
}

/// What reading the layout of a disk returns.
pub open spec fn boot_result(disk: Seq<u8>, faults: Faults) -> Result<ExfatSuperBlock, Errno> {
    match crate::exfat::disk::disk_read(disk, faults, 0, BOOT_SECTOR_SIZE as int) {
        Err(e) => Err(e),
        Ok(b) => if crate::exfat::super_block::boot_sector_valid(b) {
            Ok(crate::exfat::super_block::super_block_of(b))
        } else {
            Err(Errno::EINVAL)
        },
    }
}

/// What marking the clusters of a range makes of the volume and returns.
pub open spec fn range_marked(v: VolumeState, clusters: Range<ClusterID>, used: bool) -> (
    VolumeState,
    Result<(), Errno>,
) {
    if crate::exfat::bitmap::range_in_bitmap(v.bits, clusters) {
        (
            VolumeState { bits: crate::exfat::bitmap::with_range(v.bits, clusters, used), ..v },
            Ok(()),
        )
    } else {
        (v, Err(Errno::EINVAL))
    }
}

/// What marking a cluster makes of the volume and returns.
pub open spec fn cluster_marked(v: VolumeState, cluster: ClusterID, used: bool) -> (
    VolumeState,
    Result<(), Errno>,
) {
    if crate::exfat::bitmap::has_cluster(v.bits, cluster as int) {
        (
            VolumeState {
                bits: crate::exfat::bitmap::with_cluster(v.bits, cluster as int, used),
                ..v
            },
            Ok(()),
        )
    } else {
        (v, Err(Errno::EINVAL))
    }
}

} // verus!
