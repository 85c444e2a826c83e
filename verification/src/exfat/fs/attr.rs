//! What is known of an inode, and operations that are not supported.

use vstd::prelude::*;
use crate::arith::div_ceil;
use crate::errno::Errno;
use crate::exfat::dentry::DosTimestamp;
use crate::exfat::fs::{ExfatFS, ExfatInode, FsState};
use crate::exfat::inode::{Ino, InodeMode, InodeType, InodeView, MODE_ALL};

verus! {

/// What is known of an inode.
#[derive(Copy, Clone, Eq, PartialEq, Debug, Structural)]
pub struct Metadata {
    pub dev: u64,
    pub ino: Ino,
    pub size: usize,
    pub blk_size: usize,
    pub blocks: usize,
    pub atime: DosTimestamp,
    pub mtime: DosTimestamp,
    pub ctime: DosTimestamp,
    pub type_: InodeType,
    pub mode: InodeMode,
    pub nlinks: u64,
    pub uid: usize,
    pub gid: usize,
    pub rdev: u64,
}

/// What can happen to a file.
#[derive(Copy, Clone, Eq, PartialEq, Debug, Structural)]
pub struct IoEvents {
    pub bits: u32,
}

/// There is something to read.
pub const EVENT_IN: u32 = 0x0001;

/// There is room to write.
pub const EVENT_OUT: u32 = 0x0004;

/// The permissions of an inode.
pub open spec fn node_mode(s: FsState, i: int) -> InodeMode {
    crate::exfat::inode::mode_of(s.nodes[i].attr, s.mount, InodeMode { bits: MODE_ALL })
}

/// What is known of an inode.
pub open spec fn metadata_of(s: FsState, i: int) -> Metadata {
    let n = s.nodes[i];
    let sector_size = s.vol.super_block.sector_size;
    Metadata {
        dev: 0,
        ino: n.ino,
        size: n.size,
        blk_size: sector_size as usize,
        blocks: crate::arith::pieces(n.size as int, sector_size as int) as usize,
        atime: n.atime,
        mtime: n.mtime,
        ctime: n.ctime,
        type_: n.inode_type,
        mode: node_mode(s, i),
        nlinks: if n.inode_type is Dir {
            (n.num_subdir + 2) as u64
        } else {
            1
        },
        uid: s.mount.fs_uid,
        gid: s.mount.fs_gid,
        rdev: 0,
    }
}

impl ExfatInode {
    /// The number by which the inode is found.
    pub fn hash_index(&self, fs: &ExfatFS) -> (hash: u64)
        requires
            self.of(fs@),
        ensures
            hash == crate::exfat::inode::inode_hash(fs@.nodes[self.id()]),
    {
        let hash: u64 = fs.node(self.index).inode_impl.hash_index();
        assert(hash == crate::exfat::inode::inode_hash(fs@.nodes[self.id()]));
        hash
    }

    /// The directory that holds the inode, if it is open.
    pub fn get_parent_inode(&self, fs: &ExfatFS) -> (parent: Option<ExfatInode>)
        requires
            fs.wf(),
            self.of(fs@),
        ensures
            match fs@.find(fs@.nodes[self.id()].parent_hash) {
                Some(i) => parent is Some && parent->Some_0.id() == i && parent->Some_0.of(fs@),
                None => parent is None,
            },
    {
        fs.find_opened_inode(fs.node(self.index).inode_impl.parent_hash)
    }

    /// The number of the inode.
    pub fn ino(&self, fs: &ExfatFS) -> (ino: u64)
        requires
            self.of(fs@),
        ensures
            ino == fs@.nodes[self.id()].ino,
    {
        fs.node(self.index).inode_impl.ino as u64
    }

    /// How many bytes of the file `sync` writes back, counted from its beginning: as many as
    /// the number of the inode. This is not the size of the file, which `metadata` tells.
    pub fn len(&self, fs: &ExfatFS) -> (len: usize)
        requires
            self.of(fs@),
        ensures
            len == fs@.nodes[self.id()].ino,
    {
        fs.node(self.index).inode_impl.ino
    }

    /// What is known of the inode.
    pub fn metadata(&self, fs: &ExfatFS) -> (metadata: Metadata)
        requires
            fs.wf(),
            self.of(fs@),
        ensures
            metadata == metadata_of(fs@, self.id()),
            metadata.ino == fs@.nodes[self.id()].ino,
            metadata.size == fs@.nodes[self.id()].size,
            metadata.atime == fs@.nodes[self.id()].atime,
            metadata.mtime == fs@.nodes[self.id()].mtime,
            metadata.ctime == fs@.nodes[self.id()].ctime,
            metadata.type_ == fs@.nodes[self.id()].inode_type,
            metadata.uid == fs@.mount.fs_uid,
            metadata.gid == fs@.mount.fs_gid,
            fs@.nodes[self.id()].attr.bits & 0x11 == 0x01 ==> metadata.mode.bits & 0o222 == 0,
    {
        proof {
            let bits = fs@.nodes[self.id()].attr.bits;
            crate::exfat::laws::attr::law_mode(fs@, self.id());
            assert(bits & 0x11 == 0x01 ==> bits & 0x01 != 0 && bits & 0x10 == 0) by (bit_vector);
        }
        let n = &fs.node(self.index).inode_impl;
        let blk_size: usize = fs.volume.sector_size();
        let nlinks: u64 = if n.inode_type.is_directory() {
            n.num_subdir as u64 + 2
        } else {
            1
        };
        Metadata {
            dev: 0,
            ino: n.ino,
            size: n.size,
            blk_size,
            blocks: div_ceil(n.size, blk_size),
            atime: n.atime,
            mtime: n.mtime,
            ctime: n.ctime,
            type_: n.inode_type,
            mode: n.make_mode(&fs.mount_option),
            nlinks,
            uid: fs.mount_option.fs_uid,
            gid: fs.mount_option.fs_gid,
            rdev: 0,
        }
    }

    /// Whether the inode is a file or a directory.
    pub fn type_(&self, fs: &ExfatFS) -> (inode_type: InodeType)
        requires
            self.of(fs@),
        ensures
            inode_type == fs@.nodes[self.id()].inode_type,
    {
        fs.node(self.index).inode_impl.inode_type
    }

    /// The permissions of the inode.
    pub fn mode(&self, fs: &ExfatFS) -> (mode: InodeMode)
        requires
            self.of(fs@),
        ensures
            mode == node_mode(fs@, self.id()),
            fs@.nodes[self.id()].attr.bits & 0x11 == 0x01 ==> mode.bits & 0o222 == 0,
            fs@.nodes[self.id()].attr.bits & 0x10 != 0 ==> mode.bits == 0o7777
                & !fs@.mount.fs_dmask,
            fs@.nodes[self.id()].attr.bits & 0x11 == 0 ==> mode.bits == 0o7777
                & !fs@.mount.fs_fmask,
    {
        proof {
            let bits = fs@.nodes[self.id()].attr.bits;
            crate::exfat::laws::attr::law_mode(fs@, self.id());
            assert(bits & 0x11 == 0x01 ==> bits & 0x01 != 0 && bits & 0x10 == 0) by (bit_vector);
            assert(bits & 0x11 == 0 ==> bits & 0x01 == 0 && bits & 0x10 == 0) by (bit_vector);
        }
        fs.node(self.index).inode_impl.make_mode(&fs.mount_option)
    }

    /// When the inode was read last.
    pub fn atime(&self, fs: &ExfatFS) -> (time: DosTimestamp)
        requires
            self.of(fs@),
        ensures
            time == fs@.nodes[self.id()].atime,
    {
        fs.node(self.index).inode_impl.atime
    }

    /// Changes when the inode was read last.
    pub fn set_atime(&self, fs: &mut ExfatFS, time: DosTimestamp)
        requires
            old(fs).wf(),
            self.of(old(fs)@),
        ensures
            final(fs).wf(),
            final(fs)@ == old(fs)@.with_node(
                self.id(),
                InodeView { atime: time, ..old(fs)@.nodes[self.id()] },
            ),
    {
        fs.nodes[self.index].inode_impl.atime = time;
        assert(fs@ =~= old(fs)@.with_node(
            self.id(),
            InodeView { atime: time, ..old(fs)@.nodes[self.id()] },
        ));
    }

    /// When the inode was written last.
    pub fn mtime(&self, fs: &ExfatFS) -> (time: DosTimestamp)
        requires
            self.of(fs@),
        ensures
            time == fs@.nodes[self.id()].mtime,
    {
        fs.node(self.index).inode_impl.mtime
    }

    /// Changes when the inode was written last.
    pub fn set_mtime(&self, fs: &mut ExfatFS, time: DosTimestamp)
        requires
            old(fs).wf(),
            self.of(old(fs)@),
        ensures
            final(fs).wf(),
            final(fs)@ == old(fs)@.with_node(
                self.id(),
                InodeView { mtime: time, ..old(fs)@.nodes[self.id()] },
            ),
    {
        fs.nodes[self.index].inode_impl.mtime = time;
        assert(fs@ =~= old(fs)@.with_node(
            self.id(),
            InodeView { mtime: time, ..old(fs)@.nodes[self.id()] },
        ));
    }

    /// The pages of the inode.
    pub fn page_cache<'a>(&self, fs: &'a ExfatFS) -> (pages: &'a Vec<u8>)
        requires
            self.of(fs@),
        ensures
            pages@ == fs@.nodes[self.id()].pages,
    {
        &fs.node(self.index).page_cache
    }

    /// There are no device files.
    pub fn mknod(&self, name: &str, mode: InodeMode) -> (result: Result<ExfatInode, Errno>)
        ensures
            result == Err::<ExfatInode, Errno>(Errno::EINVAL),
    {
        Err(Errno::EINVAL)
    }

    /// There are no hard links.
    pub fn link(&self, old_inode: &ExfatInode, name: &str) -> (result: Result<(), Errno>)
        ensures
            result == Err::<(), Errno>(Errno::EINVAL),
    {
        Err(Errno::EINVAL)
    }

    /// There are no symbolic links.
    pub fn read_link(&self) -> (result: Result<String, Errno>)
        ensures
            result == Err::<String, Errno>(Errno::EINVAL),
    {
        Err(Errno::EINVAL)
    }

    /// There are no symbolic links.
    pub fn write_link(&self, target: &str) -> (result: Result<(), Errno>)
        ensures
            result == Err::<(), Errno>(Errno::EINVAL),
    {
        Err(Errno::EINVAL)
    }

    /// Which of the events in `mask` are there: a file can always be read and
    /// written.
    pub fn poll(&self, mask: IoEvents) -> (events: IoEvents)
        ensures
            events.bits == (EVENT_IN | EVENT_OUT) & mask.bits,
            events.bits == 0x05 & mask.bits,
    {
        assert(0x01u32 | 0x04u32 == 0x05) by (bit_vector);
        IoEvents { bits: (EVENT_IN | EVENT_OUT) & mask.bits }
    }

    /// Whether names of the inode may be kept in memory.
    pub fn is_dentry_cacheable(&self) -> (result: bool)
        ensures
            result,
    {
        true
    }
}

} // verus!
