//! Opening a file system, and what is known of it.

use core::ops::Range;
use vstd::prelude::*;
use crate::errno::Errno;
use crate::exfat::chain::ExfatChain;
use crate::exfat::constants::{
    BOOT_SIGNATURE, DENTRY_SIZE, EXFAT_RESERVED_CLUSTERS, EXFAT_ROOT_INO, MAX_NAME_LENGTH,
    ROOT_INODE_HASH,
};
use crate::exfat::dentry::{
    dentry_kind, get_extent, ClusterExtent, DentryKind, DosTimestamp,
};
use crate::exfat::disk::{Disk, Faults};
use crate::exfat::fat::{ClusterID, FatChainFlags, FatTrait, FatValue, ALLOC_POSSIBLE};
use crate::exfat::fs::{ExfatFS, ExfatInode, FsState};
use crate::exfat::inode::ExfatInodeInner;
use crate::exfat::inode_map::InodeMap;
use crate::exfat::mount::{ExfatMountOptions, MountView};
use crate::exfat::super_block::ExfatSuperBlock;
use crate::exfat::volume::{Volume, VolumeState};

verus! {

/// The number of the first entry of a kind, from the number `slot` on.
pub open spec fn slot_of_kind(pages: Seq<u8>, kind: DentryKind, slot: int) -> Option<int>
    decreases pages.len() - slot * DENTRY_SIZE,
{
    if !crate::exfat::dentry::has_slot(pages, slot) {
        None
    } else if crate::exfat::dentry::slot_kind(pages, slot) == kind {
        Some(slot)
    } else {
        slot_of_kind(pages, kind, slot + 1)
    }
}

/// The clusters that the first entry of a kind names.
pub open spec fn extent_of_kind(pages: Seq<u8>, kind: DentryKind) -> Result<ClusterExtent, Errno> {
    match slot_of_kind(pages, kind, 0) {
        None => Err(Errno::EINVAL),
        Some(slot) => Ok(crate::exfat::dentry::extent_at(pages, slot * DENTRY_SIZE)),
    }
}

/// The file system on a disk.
pub open spec fn fs_opened(
    disk: Seq<u8>,
    faults: Faults,
    mount: MountView,
    now: DosTimestamp,
) -> Result<FsState, Errno> {
    match crate::exfat::volume::boot_result(disk, faults) {
        Err(e) => Err(e),
        Ok(super_block) => {
            let v = VolumeState {
                disk,
                faults,
                super_block,
                bits: Seq::<bool>::empty(),
                bitmap_start: 0,
                cache: Seq::<(u32, u32)>::empty(),
            };
            let (v1, r1) = crate::exfat::chain::chain_new(
                v,
                super_block.root_dir,
                None,
                FatChainFlags { bits: ALLOC_POSSIBLE },
            );
            match r1 {
                Err(e) => Err(e),
                Ok(chain) => fs_opened_at(v1, chain, mount, now),
            }
        },
    }
}

/// The file system on a volume with the given root directory.
pub open spec fn fs_opened_at(
    v: VolumeState,
    chain: ExfatChain,
    mount: MountView,
    now: DosTimestamp,
) -> Result<FsState, Errno> {
    let (v1, r1) = crate::exfat::inode::root_built(v, chain, now);
    match r1 {
        Err(e) => Err(e),
        Ok(root) => match extent_of_kind(root.pages, DentryKind::Upcase) {
            Err(e) => Err(e),
            Ok(upcase) => match extent_of_kind(root.pages, DentryKind::Bitmap) {
                Err(e) => Err(e),
                Ok(extent) => match crate::exfat::volume::bitmap_on_disk(
                    v1,
                    extent.start_cluster,
                ) {
                    Err(e) => Err(e),
                    Ok(bits) => Ok(
                        FsState {
                            vol: VolumeState {
                                bits,
                                bitmap_start: extent.start_cluster,
                                ..v1
                            },
                            upcase,
                            mount,
                            next_ino: (EXFAT_ROOT_INO + 1) as usize,
                            opened: Map::<u64, usize>::empty().insert(ROOT_INODE_HASH, 0usize),
                            nodes: seq![root],
                        },
                    ),
                },
            },
        },
    }
}

/// Looks for the first entry of a kind, and returns the clusters that it names.
fn find_extent(pages: &Vec<u8>, kind: DentryKind) -> (result: Result<ClusterExtent, Errno>)
    ensures
        result == extent_of_kind(pages@, kind),
{
    let len: usize = pages.len();
    let slots: usize = len / DENTRY_SIZE;
    let mut slot: usize = 0;
    while slot < slots
        invariant
            slot <= slots,
            len == pages@.len(),
            slots == len / DENTRY_SIZE,
            slot_of_kind(pages@, kind, 0) == slot_of_kind(pages@, kind, slot as int),
        decreases slots - slot,
    {
        if dentry_kind(pages[slot * DENTRY_SIZE]) == kind {
            return Ok(get_extent(pages, slot * DENTRY_SIZE));
        }
        slot = slot + 1;
    }
    Err(Errno::EINVAL)
}

/// Loads the bitmap.
fn load_bitmap(volume: &mut Volume, extent: &ClusterExtent) -> (result: Result<(), Errno>)
    requires
        old(volume).wf(),
    ensures
        final(volume).wf(),
        match crate::exfat::volume::bitmap_on_disk(old(volume)@, extent.start_cluster) {
            Err(e) => result == Err::<(), Errno>(e) && final(volume)@ == old(volume)@,
            Ok(bits) => result is Ok && final(volume)@ == (VolumeState {
                bits,
                bitmap_start: extent.start_cluster,
                ..old(volume)@
            }),
        },
{
    if extent.start_cluster < EXFAT_RESERVED_CLUSTERS {
        return Err(Errno::EINVAL);
    }
    proof {
        volume.lemma_wf();
    }
    let n: u32 = volume.super_block().num_clusters - EXFAT_RESERVED_CLUSTERS;
    let position: u64 = volume.cluster_to_off(extent.start_cluster);
    match volume.read_bytes(position, crate::arith::div_ceil(n as usize, 8)) {
        Err(e) => Err(e),
        Ok(bytes) => {
            volume.set_bitmap(&bytes, n, extent.start_cluster);
            Ok(())
        },
    }
}

/// What a file system tells of itself.
#[derive(Copy, Clone, Eq, PartialEq, Debug, Structural)]
pub struct SuperBlock {
    /// The number that stands for the kind of file system.
    pub magic: u64,
    /// The size of a block.
    pub bsize: usize,
    /// The number of bytes that a name may take.
    pub namelen: usize,
}

/// What may be done with a file system.
#[derive(Copy, Clone, Eq, PartialEq, Debug, Structural)]
pub struct FsFlags {
    pub bits: u32,
}

/// Names that were looked up are never forgotten.
pub const DENTRY_UNEVICTABLE: u32 = 2;

impl ExfatFS {
    /// Opens the file system on a disk.
    pub fn open(
        block_device: Disk,
        mount_option: ExfatMountOptions,
        now: DosTimestamp,
    ) -> (result: Result<ExfatFS, Errno>)
        ensures
            match fs_opened(
                block_device.contents(),
                block_device.faults(),
                mount_option@,
                now,
            ) {
                Ok(s) => result is Ok && result->Ok_0@ == s && result->Ok_0.wf(),
                Err(e) => result is Err && result->Err_0 == e,
            },
    {
        let super_block: ExfatSuperBlock = match Volume::read_super_block(&block_device) {
            Err(e) => {
                return Err(e);
            },
            Ok(super_block) => super_block,
        };
        let mut volume: Volume = Volume::new(block_device, super_block);
        let root_chain: ExfatChain = match ExfatChain::new(
            &mut volume,
            super_block.root_dir,
            None,
            FatChainFlags::alloc_possible(),
        ) {
            Err(e) => {
                return Err(e);
            },
            Ok(chain) => chain,
        };
        let root: ExfatInodeInner = match ExfatInodeInner::build_root_inode(
            &mut volume,
            root_chain,
            now,
        ) {
            Err(e) => {
                return Err(e);
            },
            Ok(root) => root,
        };
        let upcase_table: ClusterExtent = match find_extent(&root.page_cache, DentryKind::Upcase) {
            Err(e) => {
                return Err(e);
            },
            Ok(extent) => extent,
        };
        let extent: ClusterExtent = match find_extent(&root.page_cache, DentryKind::Bitmap) {
            Err(e) => {
                return Err(e);
            },
            Ok(extent) => extent,
        };
        match load_bitmap(&mut volume, &extent) {
            Err(e) => {
                return Err(e);
            },
            Ok(_) => {},
        }
        let mut inodes: InodeMap = InodeMap::new();
        let _ = inodes.insert(ROOT_INODE_HASH, 0);
        let mut nodes: Vec<ExfatInodeInner> = Vec::new();
        let ghost root_view = root@;
        nodes.push(root);
        assert(crate::exfat::fs::views(nodes@) =~= seq![root_view]);
        Ok(
            ExfatFS {
                volume,
                upcase_table,
                mount_option,
                highest_inode_number: EXFAT_ROOT_INO + 1,
                inodes,
                nodes,
            },
        )
    }

    /// The inode of the root directory.
    pub fn root_inode(&self) -> (inode: ExfatInode)
        requires
            self.wf(),
            self@.opened.contains_key(ROOT_INODE_HASH),
        ensures
            inode.id() == self@.opened[ROOT_INODE_HASH],
            inode.of(self@),
    {
        match self.inodes.get(ROOT_INODE_HASH) {
            Some(index) => ExfatInode { index },
            None => ExfatInode { index: 0 },
        }
    }

    /// The disk that the file system is on.
    pub fn block_device(&self) -> (disk: &Disk)
        ensures
            disk.contents() == self@.vol.disk,
            disk.faults() == self@.vol.faults,
    {
        self.volume.block_device()
    }

    /// The layout of the volume.
    pub fn super_block(&self) -> (sb: ExfatSuperBlock)
        ensures
            sb == self@.vol.super_block,
    {
        self.volume.super_block()
    }

    /// The bitmap, by way of the volume whose clusters it marks.
    pub fn bitmap(&mut self) -> (volume: &mut Volume)
        requires
            old(self).wf(),
        ensures
            volume@ == old(self)@.vol,
            volume.wf(),
            final(self)@ == old(self)@.with_vol(final(volume)@),
            final(volume).wf() ==> final(self).wf(),
    {
        &mut self.volume
    }

    /// The number of bytes in a sector.
    pub fn sector_size(&self) -> (size: usize)
        requires
            self.wf(),
        ensures
            size == self@.vol.super_block.sector_size,
    {
        self.volume.sector_size()
    }

    /// The number of bytes in a cluster.
    pub fn cluster_size(&self) -> (size: usize)
        requires
            self.wf(),
        ensures
            size == self@.vol.super_block.cluster_size,
    {
        self.volume.cluster_size()
    }

    /// The number of clusters that are not in use.
    pub fn free_clusters(&self) -> (n: u32)
        requires
            self.wf(),
        ensures
            n == crate::exfat::bitmap::count_free(self@.vol.bits),
    {
        self.volume.free_clusters()
    }

    /// Where on the disk a cluster begins.
    pub fn cluster_to_off(&self, cluster: ClusterID) -> (offset: u64)
        requires
            self.wf(),
            EXFAT_RESERVED_CLUSTERS <= cluster,
        ensures
            offset == crate::exfat::volume::cluster_offset(
                self@.vol.super_block,
                cluster as int,
            ),
    {
        self.volume.cluster_to_off(cluster)
    }

    /// Whether a number can be that of a cluster.
    pub fn is_valid_cluster(&self, cluster: ClusterID) -> (result: bool)
        ensures
            result == crate::exfat::volume::valid_cluster(
                self@.vol.super_block,
                cluster as int,
            ),
    {
        self.volume.is_valid_cluster(cluster)
    }

    /// Whether numbers can be those of clusters.
    pub fn is_cluster_range_valid(&self, clusters: Range<ClusterID>) -> (result: bool)
        ensures
            result == (EXFAT_RESERVED_CLUSTERS <= clusters.start && clusters.end
                <= self@.vol.super_block.num_clusters),
    {
        clusters.start >= EXFAT_RESERVED_CLUSTERS && clusters.end
            <= self.volume.super_block().num_clusters
    }

    /// What the FAT says of a cluster, from memory where the entry is kept there.
    pub fn read_next_fat(&mut self, cluster: ClusterID) -> (result: Result<FatValue, Errno>)
        requires
            old(self).wf(),
        ensures
            final(self).wf(),
            ({
                let (v, r) = crate::exfat::volume::fat_read(old(self)@.vol, cluster);
                &&& final(self)@ == old(self)@.with_vol(v)
                &&& result == r
            }),
    {
        let result: Result<FatValue, Errno> = self.volume.read_next_fat(cluster);
        assert(self@ =~= old(self)@.with_vol(self.volume@));
        result
    }

    /// Changes what the FAT says of a cluster, on the disk and in memory.
    pub fn write_next_fat(&mut self, cluster: ClusterID, value: FatValue) -> (result: Result<
        (),
        Errno,
    >)
        requires
            old(self).wf(),
        ensures
            final(self).wf(),
            ({
                let (v, r) = crate::exfat::volume::fat_write(old(self)@.vol, cluster, value);
                &&& final(self)@ == old(self)@.with_vol(v)
                &&& result == r
            }),
    {
        let result: Result<(), Errno> = self.volume.write_next_fat(cluster, value);
        assert(self@ =~= old(self)@.with_vol(self.volume@));
        result
    }

    /// The mount options.
    pub fn mount_option(&self) -> (options: ExfatMountOptions)
        ensures
            options@ == self@.mount,
    {
        self.mount_option.clone()
    }

    /// What the file system tells of itself.
    pub fn sb(&self) -> (sb: SuperBlock)
        requires
            self.wf(),
        ensures
            sb == (SuperBlock {
                magic: BOOT_SIGNATURE as u64,
                bsize: self@.vol.super_block.sector_size as usize,
                namelen: MAX_NAME_LENGTH,
            }),
            sb.magic == 0xaa55,
            sb.bsize == self@.vol.super_block.sector_size,
            sb.namelen == 255,
    {
        SuperBlock {
            magic: BOOT_SIGNATURE as u64,
            bsize: self.sector_size(),
            namelen: MAX_NAME_LENGTH,
        }
    }

    /// What may be done with the file system.
    pub fn flags(&self) -> (flags: FsFlags)
        ensures
            flags.bits == DENTRY_UNEVICTABLE,
            flags.bits == 0x02,
    {
        FsFlags { bits: DENTRY_UNEVICTABLE }
    }
}

impl FatTrait for ExfatFS {
    open spec fn fat_ready(&self) -> bool {
        self.wf()
    }

    open spec fn fat_entry(&self, cluster: ClusterID) -> Result<FatValue, Errno> {
        crate::exfat::volume::disk_fat(self@.vol, cluster)
    }

    open spec fn fat_keeps(&self, cluster: ClusterID, value: FatValue) -> bool {
        crate::exfat::laws::fat::entry_placed(self@.vol, cluster)
            && crate::exfat::laws::fat::storable(value)
    }

    fn read_next_fat(&self, cluster: ClusterID) -> (result: Result<FatValue, Errno>) {
        self.volume.read_fat_entry(cluster)
    }

    fn write_next_fat(&mut self, cluster: ClusterID, value: FatValue) -> (result: Result<(), Errno>)
        ensures
            ({
                let (disk, r) = crate::exfat::volume::disk_fat_written(
                    old(self)@.vol,
                    cluster,
                    value,
                );
                &&& final(self)@ == old(self)@.with_vol(
                    VolumeState { disk, ..old(self)@.vol },
                )
                &&& result == r
            }),
    {
        proof {
            if self.fat_keeps(cluster, value) {
                crate::exfat::laws::fat::law_entry_written(self@.vol, cluster, value);
            }
        }
        let result: Result<(), Errno> = self.volume.write_fat_entry(cluster, value);
        assert(self@ =~= old(self)@.with_vol(self.volume@));
        result
    }
}

} // verus!
