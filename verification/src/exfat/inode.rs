//! Inodes.

use vstd::prelude::*;
use crate::errno::Errno;
use crate::exfat::chain::{ExfatChain, ExfatChainPosition};
use crate::exfat::constants::{DENTRY_SIZE, EXFAT_ROOT_INO, ROOT_INODE_HASH};
use crate::exfat::dentry::{
    dentry_kind, DentryKind, DosTimestamp, ExfatFileDentry, ExfatStreamDentry,
};
use crate::exfat::dentry_set::{ExfatDentrySet, ATTR_DIRECTORY};
use crate::exfat::fat::{ClusterID, FatChainFlags};
use crate::exfat::mount::{ExfatMountOptions, MountView};
use crate::exfat::page::read_all_pages;
use crate::exfat::volume::{Volume, VolumeState};

verus! {

/// The number of an inode.
pub type Ino = usize;

/// The kinds of inodes.
#[derive(Copy, Clone, Eq, PartialEq, Debug, Structural)]
pub enum InodeType {
    File,
    Dir,
}

impl InodeType {
    /// Whether this is the kind of directories.
    pub fn is_directory(&self) -> (result: bool)
        ensures
            result == (*self is Dir),
    {
        matches!(self, InodeType::Dir)
    }

    /// Whether this is the kind of files.
    pub fn is_reguler_file(&self) -> (result: bool)
        ensures
            result == (*self is File),
    {
        matches!(self, InodeType::File)
    }
}

/// Permissions.
#[derive(Copy, Clone, Eq, PartialEq, Debug, Structural)]
pub struct InodeMode {
    pub bits: u16,
}

/// All permission bits.
pub const MODE_ALL: u16 = 0o7777;

/// The permission bits for writing.
pub const MODE_WRITE: u16 = 0o222;

impl InodeMode {
    /// All permissions.
    pub fn all() -> (mode: InodeMode)
        ensures
            mode.bits == MODE_ALL,
    {
        InodeMode { bits: MODE_ALL }
    }
}

/// The attributes of a file or directory.
#[derive(Copy, Clone, Eq, PartialEq, Debug, Structural)]
pub struct FatAttr {
    pub bits: u16,
}

pub const ATTR_READONLY: u16 = 0x0001;

pub const ATTR_HIDDEN: u16 = 0x0002;

pub const ATTR_SYSTEM: u16 = 0x0004;

pub const ATTR_VOLUME: u16 = 0x0008;

/// The file was changed since the last backup.
pub const ATTR_ARCHIVE: u16 = 0x0020;

/// All attribute bits.
pub const ATTR_ALL: u16 = 0x003F;

/// The permissions of an inode with the given attributes.
pub open spec fn mode_of(attr: FatAttr, mount: MountView, mode: InodeMode) -> InodeMode {
    let allowed = if attr.has(ATTR_READONLY) && !attr.has(ATTR_DIRECTORY) {
        mode.bits & !MODE_WRITE
    } else {
        mode.bits
    };
    let mask = if attr.has(ATTR_DIRECTORY) {
        mount.fs_dmask & MODE_ALL
    } else {
        mount.fs_fmask & MODE_ALL
    };
    InodeMode { bits: allowed & !mask }
}

impl FatAttr {
    /// Whether an attribute is set.
    pub open spec fn has(self, flag: u16) -> bool {
        self.bits & flag == flag
    }

    /// The attributes among the bits of a number.
    pub fn from_bits_truncate(bits: u16) -> (attr: FatAttr)
        ensures
            attr.bits == bits & ATTR_ALL,
    {
        FatAttr { bits: bits & ATTR_ALL }
    }

    /// Whether an attribute is set.
    pub fn contains(&self, flag: u16) -> (result: bool)
        ensures
            result == self.has(flag),
    {
        self.bits & flag == flag
    }

    /// Takes away from `mode` the permissions that an inode with these attributes
    /// does not have.
    pub fn make_mode(&self, mount_option: &ExfatMountOptions, mode: InodeMode) -> (result:
        InodeMode)
        ensures
            result == mode_of(*self, mount_option@, mode),
    {
        let allowed: u16 = if self.contains(ATTR_READONLY) && !self.contains(ATTR_DIRECTORY) {
            mode.bits & !MODE_WRITE
        } else {
            mode.bits
        };
        let mask: u16 = if self.contains(ATTR_DIRECTORY) {
            mount_option.fs_dmask & MODE_ALL
        } else {
            mount_option.fs_fmask & MODE_ALL
        };
        InodeMode { bits: allowed & !mask }
    }
}

/// What is known of an inode.
#[derive(Debug)]
pub struct ExfatInodeImpl_ {
    /// The number of the inode.
    pub ino: Ino,
    /// Where its entries are in the directory that holds it.
    pub dentry_set_position: ExfatChainPosition,
    /// The number of bytes that its entries take.
    pub dentry_set_size: usize,
    /// The number of its file entry.
    pub dentry_entry: u32,
    /// Whether it is a file or a directory.
    pub inode_type: InodeType,
    /// Its attributes.
    pub attr: FatAttr,
    /// Its clusters.
    pub start_chain: ExfatChain,
    /// The number of bytes that were written.
    pub size: usize,
    /// The number of bytes there is room for.
    pub size_allocated: usize,
    /// When it was read last.
    pub atime: DosTimestamp,
    /// When it was written last.
    pub mtime: DosTimestamp,
    /// When it was made.
    pub ctime: DosTimestamp,
    /// The number of files and directories in it.
    pub num_subdir: u32,
    /// Its name in UTF-16.
    pub name: Vec<u16>,
    /// The hash of the directory that holds it.
    pub parent_hash: u64,
}

/// An inode in memory.
#[derive(Debug)]
pub struct ExfatInodeInner {
    /// What is known of the inode.
    pub inode_impl: ExfatInodeImpl_,
    /// Its pages.
    pub page_cache: Vec<u8>,
    /// Whether its pages are in memory.
    pub loaded: bool,
}

/// The state of an inode.
#[verifier::ext_equal]
pub struct InodeView {
    pub ino: Ino,
    pub dentry_set_position: ExfatChainPosition,
    pub dentry_set_size: usize,
    pub dentry_entry: u32,
    pub inode_type: InodeType,
    pub attr: FatAttr,
    pub start_chain: ExfatChain,
    pub size: usize,
    pub size_allocated: usize,
    pub atime: DosTimestamp,
    pub mtime: DosTimestamp,
    pub ctime: DosTimestamp,
    pub num_subdir: u32,
    pub name: Seq<u16>,
    pub parent_hash: u64,
    pub pages: Seq<u8>,
    pub loaded: bool,
}

impl View for ExfatInodeInner {
    type V = InodeView;

    open spec fn view(&self) -> InodeView {
        InodeView {
            ino: self.inode_impl.ino,
            dentry_set_position: self.inode_impl.dentry_set_position,
            dentry_set_size: self.inode_impl.dentry_set_size,
            dentry_entry: self.inode_impl.dentry_entry,
            inode_type: self.inode_impl.inode_type,
            attr: self.inode_impl.attr,
            start_chain: self.inode_impl.start_chain,
            size: self.inode_impl.size,
            size_allocated: self.inode_impl.size_allocated,
            atime: self.inode_impl.atime,
            mtime: self.inode_impl.mtime,
            ctime: self.inode_impl.ctime,
            num_subdir: self.inode_impl.num_subdir,
            name: self.inode_impl.name@,
            parent_hash: self.inode_impl.parent_hash,
            pages: self.page_cache@,
            loaded: self.loaded,
        }
    }
}

/// A number that tells the places of directory entries apart.
pub open spec fn hash_of_place(cluster: ClusterID, offset: u32) -> u64 {
    (cluster * 0x1_0000_0000 + offset) as u64
}

/// The number of the place of directory entries.
pub open spec fn hash_of_position(position: ExfatChainPosition) -> u64 {
    hash_of_place(position.0.current, position.1 as u32)
}

/// The number by which an inode is found.
pub open spec fn inode_hash(n: InodeView) -> u64 {
    if n.ino == EXFAT_ROOT_INO {
        ROOT_INODE_HASH
    } else {
        hash_of_position(n.dentry_set_position)
    }
}

/// Two places have the same number only if they are the same.
pub proof fn law_hash_tells_places_apart(c1: ClusterID, o1: u32, c2: ClusterID, o2: u32)
    requires
        hash_of_place(c1, o1) == hash_of_place(c2, o2),
    ensures
        c1 == c2,
        o1 == o2,
{
}

/// No place within a cluster has the number of the root.
pub proof fn law_hash_of_root_is_free(cluster: ClusterID, offset: u32)
    requires
        cluster > 0,
    ensures
        hash_of_place(cluster, offset) != ROOT_INODE_HASH,
{
}

/// A number that tells the places of directory entries apart.
pub fn make_hash_index(cluster: ClusterID, offset: u32) -> (hash: u64)
    ensures
        hash == hash_of_place(cluster, offset),
{
    (cluster as u64) * 0x1_0000_0000 + (offset as u64)
}

/// The number of file entries among the entries that begin before `size`, from the
/// entry with the number `slot` on, where `seen` were counted before.
pub open spec fn files_counted(pages: Seq<u8>, size: int, slot: int, seen: nat) -> Result<
    nat,
    Errno,
>
    decreases pages.len() - slot * DENTRY_SIZE,
{
    if slot * DENTRY_SIZE >= size {
        Ok(seen)
    } else if !crate::exfat::dentry::has_slot(pages, slot) {
        Err(Errno::EIO)
    } else if crate::exfat::dentry::slot_kind(pages, slot) is File {
        files_counted(pages, size, slot + 1, seen + 1)
    } else {
        files_counted(pages, size, slot + 1, seen)
    }
}

/// The number of files and directories in a directory.
pub open spec fn subdirs_counted(v: VolumeState, n: InodeView) -> Result<u32, Errno> {
    if !crate::exfat::volume::valid_cluster(v.super_block, n.start_chain.current as int) {
        Ok(0)
    } else {
        match files_counted(n.pages, n.size as int, 0, 0) {
            Err(e) => Err(e),
            Ok(count) => Ok(count as u32),
        }
    }
}

/// What an inode says of itself before its pages are read.
pub open spec fn inode_from_set(
    v: VolumeState,
    set: Seq<u8>,
    position: ExfatChainPosition,
    entry: u32,
    parent_hash: u64,
    ino: Ino,
) -> InodeView {
    let file = crate::exfat::dentry::file_at(set, 0);
    let stream = crate::exfat::dentry::stream_at(set, DENTRY_SIZE as int);
    let attr = FatAttr { bits: file.attribute & ATTR_ALL };
    let clusters = crate::arith::pieces(
        stream.size as usize as int,
        v.super_block.cluster_size as int,
    ) as u32;
    InodeView {
        ino,
        dentry_set_position: position,
        dentry_set_size: set.len() as usize,
        dentry_entry: entry,
        inode_type: if attr.has(ATTR_DIRECTORY) {
            InodeType::Dir
        } else {
            InodeType::File
        },
        attr,
        start_chain: ExfatChain {
            current: stream.start_cluster,
            num_clusters: if crate::exfat::volume::valid_cluster(
                v.super_block,
                stream.start_cluster as int,
            ) {
                clusters
            } else {
                0
            },
            flags: FatChainFlags { bits: stream.flags & 0x03u8 },
        },
        size: stream.valid_size as usize,
        size_allocated: stream.size as usize,
        atime: DosTimestamp {
            time: file.access_time,
            date: file.access_date,
            increament_10ms: 0,
            utc_offset: file.access_utc_offset,
        },
        mtime: DosTimestamp {
            time: file.modify_time,
            date: file.modify_date,
            increament_10ms: file.modify_time_cs,
            utc_offset: file.modify_utc_offset,
        },
        ctime: DosTimestamp {
            time: file.create_time,
            date: file.create_date,
            increament_10ms: file.create_time_cs,
            utc_offset: file.create_utc_offset,
        },
        num_subdir: 0,
        name: crate::exfat::dentry_set::set_name(set),
        parent_hash,
        pages: Seq::empty(),
        loaded: false,
    }
}

/// An inode with what is known of it from the beginning: a directory has its pages and
/// the number of its entries, while the pages of a file are read when they are used.
pub open spec fn inode_loaded(v: VolumeState, n: InodeView) -> (
    VolumeState,
    Result<InodeView, Errno>,
) {
    if n.inode_type is File {
        (v, Ok(InodeView { loaded: n.size == 0, ..n }))
    } else {
        let (v1, r) = crate::exfat::page::all_pages_read(v, n.start_chain, n.size as int);
        match r {
            Err(e) => (v1, Err(e)),
            Ok(pages) => {
                let n1 = InodeView { pages, loaded: true, ..n };
                match subdirs_counted(v1, n1) {
                    Err(e) => (v1, Err(e)),
                    Ok(count) => (v1, Ok(InodeView { num_subdir: count, ..n1 })),
                }
            },
        }
    }
}

/// The inode that a set of directory entries stands for.
pub open spec fn inode_built(
    v: VolumeState,
    set: Seq<u8>,
    position: ExfatChainPosition,
    entry: u32,
    parent_hash: u64,
    ino: Ino,
) -> (VolumeState, Result<InodeView, Errno>) {
    let n = inode_from_set(v, set, position, entry, parent_hash, ino);
    if set.len() < MINIMUM_DENTRIES * DENTRY_SIZE {
        (v, Err(Errno::EINVAL))
    } else if n.inode_type is Dir && n.size != n.size_allocated {
        (v, Err(Errno::EINVAL))
    } else {
        inode_loaded(v, n)
    }
}

/// The number of entries that every file or directory has at least.
pub const MINIMUM_DENTRIES: usize = 3;

/// What the root directory is known to be before its pages are read.
pub open spec fn root_from_chain(chain: ExfatChain, size: usize, now: DosTimestamp) -> InodeView {
    InodeView {
        ino: EXFAT_ROOT_INO,
        dentry_set_position: (no_chain(), 0usize),
        dentry_set_size: 0,
        dentry_entry: 0,
        inode_type: InodeType::Dir,
        attr: FatAttr { bits: ATTR_DIRECTORY },
        start_chain: chain,
        size,
        size_allocated: size,
        atime: now,
        mtime: now,
        ctime: now,
        num_subdir: 0,
        name: Seq::empty(),
        parent_hash: 0,
        pages: Seq::empty(),
        loaded: false,
    }
}

/// The chain without clusters.
pub open spec fn no_chain() -> ExfatChain {
    ExfatChain { current: 0, num_clusters: 0, flags: FatChainFlags { bits: 0 } }
}

/// The inode of the root directory.
pub open spec fn root_built(v: VolumeState, chain: ExfatChain, now: DosTimestamp) -> (
    VolumeState,
    Result<InodeView, Errno>,
) {
    let size = chain.num_clusters * v.super_block.cluster_size;
    if size > usize::MAX {
        (v, Err(Errno::EIO))
    } else {
        inode_loaded(v, root_from_chain(chain, size as usize, now))
    }
}

impl ExfatInodeImpl_ {
    /// The number by which the inode is found.
    pub fn hash_index(&self) -> (hash: u64)
        ensures
            forall|n: InodeView|
                n.ino == self.ino && n.dentry_set_position == self.dentry_set_position ==> hash
                    == #[trigger] inode_hash(n),
    {
        if self.ino == EXFAT_ROOT_INO {
            return ROOT_INODE_HASH;
        }
        make_hash_index(self.dentry_set_position.0.cluster_id(), self.dentry_set_position.1 as u32)
    }

    /// The permissions of the inode.
    pub fn make_mode(&self, mount_option: &ExfatMountOptions) -> (mode: InodeMode)
        ensures
            mode == mode_of(self.attr, mount_option@, (InodeMode { bits: MODE_ALL })),
    {
        self.attr.make_mode(mount_option, InodeMode::all())
    }

    /// The number of clusters of the inode.
    pub fn num_clusters(&self) -> (n: u32)
        ensures
            n == self.start_chain.num_clusters,
    {
        self.start_chain.num_clusters
    }

    /// Whether every change goes to the disk at once.
    pub fn is_sync(&self) -> (result: bool)
        ensures
            result,
    {
        true
    }

    /// Whether a directory holds no entries.
    pub fn is_empty_dir(&self) -> (result: Result<bool, Errno>)
        ensures
            result == (if self.inode_type is Dir {
                Ok::<bool, Errno>(self.num_subdir == 0)
            } else {
                Err::<bool, Errno>(Errno::ENOTDIR)
            }),
    {
        if !self.inode_type.is_directory() {
            return Err(Errno::ENOTDIR);
        }
        Ok(self.num_subdir == 0)
    }
}

impl ExfatInodeInner {
    /// Counts the files and directories in the directory.
    pub fn count_num_subdir(&self, volume: &Volume) -> (result: Result<u32, Errno>)
        ensures
            result == subdirs_counted(volume@, self@),
    {
        if !self.inode_impl.start_chain.is_current_cluster_valid(volume) {
            return Ok(0);
        }
        let size: usize = self.inode_impl.size;
        let slots: usize = self.page_cache.len() / DENTRY_SIZE;
        let end: usize = crate::arith::div_ceil(size, DENTRY_SIZE);
        let ghost total = files_counted(self@.pages, size as int, 0, 0);
        let mut slot: usize = 0;
        let mut seen: usize = 0;
        while slot < end
            invariant
                slot <= end,
                seen <= slot,
                size == self.inode_impl.size,
                slots == self.page_cache@.len() / (DENTRY_SIZE as nat),
                end == crate::arith::pieces(size as int, DENTRY_SIZE as int),
                total == files_counted(self@.pages, size as int, 0, 0),
                total == files_counted(self@.pages, size as int, slot as int, seen as nat),
                crate::exfat::volume::valid_cluster(
                    volume@.super_block,
                    self.inode_impl.start_chain.current as int,
                ),
            decreases end - slot,
        {
            if slot >= slots {
                return Err(Errno::EIO);
            }
            if matches!(dentry_kind(self.page_cache[slot * DENTRY_SIZE]), DentryKind::File) {
                seen = seen + 1;
            }
            slot = slot + 1;
        }
        Ok(seen as u32)
    }

    /// Reads the pages of a directory, and counts its entries.
    fn load(self, volume: &mut Volume) -> (result: Result<ExfatInodeInner, Errno>)
        requires
            old(volume).wf(),
        ensures
            final(volume).wf(),
            ({
                let (v, r) = inode_loaded(old(volume)@, self@);
                &&& final(volume)@ == v
                &&& match r {
                    Ok(n) => result is Ok && result->Ok_0@ == n,
                    Err(e) => result == Err::<ExfatInodeInner, Errno>(e),
                }
            }),
            final(volume)@.super_block == old(volume)@.super_block,
    {
        let mut inode: ExfatInodeInner = self;
        if !inode.inode_impl.inode_type.is_directory() {
            inode.loaded = inode.inode_impl.size == 0;
            return Ok(inode);
        }
        let chain: ExfatChain = inode.inode_impl.start_chain;
        match read_all_pages(volume, &chain, inode.inode_impl.size) {
            Err(e) => {
                return Err(e);
            },
            Ok(pages) => {
                inode.page_cache = pages;
                inode.loaded = true;
            },
        }
        match inode.count_num_subdir(volume) {
            Err(e) => {
                return Err(e);
            },
            Ok(count) => {
                inode.inode_impl.num_subdir = count;
            },
        }
        Ok(inode)
    }

    /// The inode of the root directory, whose clusters are given.
    pub fn build_root_inode(volume: &mut Volume, root_chain: ExfatChain, now: DosTimestamp) -> (
        result: Result<ExfatInodeInner, Errno>)
        requires
            old(volume).wf(),
        ensures
            final(volume).wf(),
            ({
                let (v, r) = root_built(old(volume)@, root_chain, now);
                &&& final(volume)@ == v
                &&& match r {
                    Ok(n) => result is Ok && result->Ok_0@ == n,
                    Err(e) => result == Err::<ExfatInodeInner, Errno>(e),
                }
            }),
            final(volume)@.super_block == old(volume)@.super_block,
    {
        let cluster_size: usize = volume.cluster_size();
        assert(root_chain.num_clusters * cluster_size <= u32::MAX * 0x200_0000)
            by (nonlinear_arith)
            requires
                root_chain.num_clusters <= u32::MAX,
                0 <= cluster_size <= 0x200_0000,
        ;
        let size: u64 = (root_chain.num_clusters as u64) * (cluster_size as u64);
        if size > usize::MAX as u64 {
            return Err(Errno::EIO);
        }
        let nowhere: ExfatChain = ExfatChain {
            current: 0,
            num_clusters: 0,
            flags: FatChainFlags { bits: 0 },
        };
        let inode: ExfatInodeInner = ExfatInodeInner {
            inode_impl: ExfatInodeImpl_ {
                ino: EXFAT_ROOT_INO,
                dentry_set_position: (nowhere, 0),
                dentry_set_size: 0,
                dentry_entry: 0,
                inode_type: InodeType::Dir,
                attr: FatAttr { bits: ATTR_DIRECTORY },
                start_chain: root_chain,
                size: size as usize,
                size_allocated: size as usize,
                atime: now,
                mtime: now,
                ctime: now,
                num_subdir: 0,
                name: Vec::new(),
                parent_hash: 0,
            },
            page_cache: Vec::new(),
            loaded: false,
        };
        inode.load(volume)
    }

    /// The inode that a set of directory entries stands for.
    pub fn build_inode_from_dentry_set(
        volume: &mut Volume,
        dentry_set: &ExfatDentrySet,
        dentry_set_position: ExfatChainPosition,
        dentry_entry: u32,
        parent_hash: u64,
        ino: Ino,
    ) -> (result: Result<ExfatInodeInner, Errno>)
        requires
            old(volume).wf(),
            dentry_set.wf(),
        ensures
            final(volume).wf(),
            ({
                let (v, r) = inode_built(
                    old(volume)@,
                    dentry_set@,
                    dentry_set_position,
                    dentry_entry,
                    parent_hash,
                    ino,
                );
                &&& final(volume)@ == v
                &&& match r {
                    Ok(n) => result is Ok && result->Ok_0@ == n,
                    Err(e) => result == Err::<ExfatInodeInner, Errno>(e),
                }
            }),
            final(volume)@.super_block == old(volume)@.super_block,
    {
        if dentry_set.len() < MINIMUM_DENTRIES {
            return Err(Errno::EINVAL);
        }
        let dentry_set_size: usize = dentry_set.to_le_bytes().len();
        let file: ExfatFileDentry = dentry_set.get_file_dentry();
        let attr: FatAttr = FatAttr::from_bits_truncate(file.attribute);
        let inode_type: InodeType = if attr.contains(ATTR_DIRECTORY) {
            InodeType::Dir
        } else {
            InodeType::File
        };
        let ctime: DosTimestamp = DosTimestamp {
            time: file.create_time,
            date: file.create_date,
            increament_10ms: file.create_time_cs,
            utc_offset: file.create_utc_offset,
        };
        let mtime: DosTimestamp = DosTimestamp {
            time: file.modify_time,
            date: file.modify_date,
            increament_10ms: file.modify_time_cs,
            utc_offset: file.modify_utc_offset,
        };
        let atime: DosTimestamp = DosTimestamp {
            time: file.access_time,
            date: file.access_date,
            increament_10ms: 0,
            utc_offset: file.access_utc_offset,
        };
        let stream: ExfatStreamDentry = dentry_set.get_stream_dentry();
        let size: usize = stream.valid_size as usize;
        let size_allocated: usize = stream.size as usize;
        if inode_type.is_directory() && size != size_allocated {
            return Err(Errno::EINVAL);
        }
        let flags: FatChainFlags = FatChainFlags::from_bits_truncate(stream.flags);
        let cluster_size: usize = volume.cluster_size();
        let num_clusters: u32 = crate::arith::div_ceil(size_allocated, cluster_size) as u32;
        let start_chain: ExfatChain = match ExfatChain::new(
            volume,
            stream.start_cluster,
            Some(num_clusters),
            flags,
        ) {
            Err(e) => {
                return Err(e);
            },
            Ok(chain) => chain,
        };
        let inode: ExfatInodeInner = ExfatInodeInner {
            inode_impl: ExfatInodeImpl_ {
                ino,
                dentry_set_position,
                dentry_set_size,
                dentry_entry,
                inode_type,
                attr,
                start_chain,
                size,
                size_allocated,
                atime,
                mtime,
                ctime,
                num_subdir: 0,
                name: dentry_set.get_name(),
                parent_hash,
            },
            page_cache: Vec::new(),
            loaded: false,
        };
        inode.load(volume)
    }
}

} // verus!
