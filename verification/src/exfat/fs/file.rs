//! Writing inodes back, and changing their sizes.

use vstd::prelude::*;
use crate::arith::div_ceil;
use crate::errno::Errno;
use crate::exfat::chain::ExfatChain;
use crate::exfat::constants::{DENTRY_SIZE, EXFAT_ROOT_INO, PAGE_SIZE};
use crate::exfat::dentry::{ExfatFileDentry, ExfatStreamDentry};
use crate::exfat::dentry_set::ExfatDentrySet;
use crate::exfat::fs::{ExfatFS, ExfatInode, FsState};
use crate::exfat::inode::{ExfatInodeInner, InodeView};
use crate::exfat::page::write_range;
use crate::exfat::volume::VolumeState;

verus! {

/// The file entry of an inode, where `f` is the one that is there.
pub open spec fn file_entry_of(f: ExfatFileDentry, n: InodeView) -> ExfatFileDentry {
    ExfatFileDentry {
        attribute: n.attr.bits,
        create_utc_offset: n.ctime.utc_offset,
        create_date: n.ctime.date,
        create_time: n.ctime.time,
        create_time_cs: n.ctime.increament_10ms,
        modify_utc_offset: n.mtime.utc_offset,
        modify_date: n.mtime.date,
        modify_time: n.mtime.time,
        modify_time_cs: n.mtime.increament_10ms,
        access_utc_offset: n.atime.utc_offset,
        access_date: n.atime.date,
        access_time: n.atime.time,
        ..f
    }
}

/// The stream entry of an inode, where `s` is the one that is there.
pub open spec fn stream_entry_of(s: ExfatStreamDentry, n: InodeView) -> ExfatStreamDentry {
    ExfatStreamDentry {
        flags: n.start_chain.flags.bits,
        valid_size: n.size as u64,
        start_cluster: n.start_chain.current,
        size: n.size_allocated as u64,
        ..s
    }
}

/// An inode of which the sizes are zero where it has no clusters.
pub open spec fn without_lost_sizes(v: VolumeState, n: InodeView) -> InodeView {
    if crate::exfat::volume::valid_cluster(v.super_block, n.start_chain.current as int) {
        n
    } else {
        InodeView { size: 0, size_allocated: 0, ..n }
    }
}

/// The entries of an inode, where `set` are those that are there.
#[verifier::opaque]
pub open spec fn entries_of(set: Seq<u8>, n: InodeView) -> Seq<u8> {
    crate::exfat::dentry_set::updated_set(
        set,
        file_entry_of(crate::exfat::dentry::file_at(set, 0), n),
        stream_entry_of(crate::exfat::dentry::stream_at(set, DENTRY_SIZE as int), n),
    )
}

/// What writing the pages of an inode that hold the bytes from `from` up to `to`
/// makes of the file system and returns.
pub open spec fn node_range_written(s: FsState, i: int, from: int, to: int) -> (
    FsState,
    Result<(), Errno>,
) {
    let (v, r) = crate::exfat::page::range_written(
        s.vol,
        s.nodes[i].start_chain,
        s.nodes[i].pages,
        from,
        to,
    );
    (s.with_vol(v), r)
}

/// What writing an inode into the directory that holds it makes of the file system
/// and returns.
#[verifier::opaque]
pub open spec fn inode_written(s: FsState, i: int, sync: bool) -> (FsState, Result<(), Errno>) {
    let n = s.nodes[i];
    if n.ino == EXFAT_ROOT_INO {
        (s, Ok(()))
    } else if !crate::exfat::volume::valid_cluster(
        s.vol.super_block,
        n.dentry_set_position.0.current as int,
    ) {
        (s, Ok(()))
    } else {
        match s.find(n.parent_hash) {
            None => (s, Err(Errno::EIO)),
            Some(p) => match crate::exfat::dentry_set::set_at(
                s.nodes[p as int].pages,
                n.dentry_entry as int,
            ) {
                Err(e) => (s, Err(e)),
                Ok(set) => {
                    let n1 = without_lost_sizes(s.vol, n);
                    let s1 = s.with_node(i, n1);
                    let at = n.dentry_entry * DENTRY_SIZE;
                    let parent = s1.nodes[p as int];
                    let s2 = s1.with_node(
                        p as int,
                        InodeView {
                            pages: crate::bytes::overwritten(parent.pages, at, entries_of(set, n1)),
                            ..parent
                        },
                    );
                    if sync {
                        node_range_written(s2, p as int, at, at + set.len())
                    } else {
                        (s2, Ok(()))
                    }
                },
            },
        }
    }
}

/// What giving an inode as many clusters as `new_size` bytes take makes of the file
/// system and returns. No more than `new_size` bytes count as written afterwards.
pub open spec fn clusters_adjusted(s: FsState, i: int, new_size: usize) -> (
    FsState,
    Result<(), Errno>,
) {
    let n = s.nodes[i];
    let have = n.start_chain.num_clusters;
    let want = crate::arith::pieces(new_size as int, s.vol.super_block.cluster_size as int) as u32;
    let (v, chain, r) = if want > have {
        crate::exfat::chain::chain_extended(s.vol, n.start_chain, (want - have) as u32, true)
    } else if want < have {
        crate::exfat::chain::chain_shortened(s.vol, n.start_chain, (have - want) as u32, true)
    } else {
        (s.vol, n.start_chain, Ok(()))
    };
    let size = if r is Ok && new_size < n.size {
        new_size
    } else {
        n.size
    };
    (s.with_vol(v).with_node(i, InodeView { start_chain: chain, size, ..n }), r)
}

/// What resizing an inode, but not its pages, makes of the file system and returns.
#[verifier::opaque]
pub open spec fn inode_resized(s: FsState, i: int, new_size: usize) -> (
    FsState,
    Result<(), Errno>,
) {
    let (s1, r1) = clusters_adjusted(s, i, new_size);
    match r1 {
        Err(e) => (s1, Err(e)),
        Ok(_) => inode_written(
            s1.with_node(i, InodeView { size_allocated: new_size, ..s1.nodes[i] }),
            i,
            true,
        ),
    }
}

/// What resizing an inode and its pages, where they are in memory, makes of the file system
/// and returns.
pub open spec fn file_resized(s: FsState, i: int, new_size: usize) -> (
    FsState,
    Result<(), Errno>,
) {
    let (s1, r1) = inode_resized(s, i, new_size);
    match r1 {
        Err(e) => (s1, Err(e)),
        Ok(_) => if s1.nodes[i].loaded {
            (
                s1.with_node(
                    i,
                    InodeView {
                        pages: crate::exfat::fs::pages_for(s1.nodes[i].pages, new_size as int),
                        ..s1.nodes[i]
                    },
                ),
                Ok(()),
            )
        } else {
            (s1, Ok(()))
        },
    }
}

impl ExfatFS {
    /// Writes the pages of an inode that hold the bytes from `from` up to `to`.
    pub(super) fn write_node_range(&mut self, i: usize, from: usize, to: usize) -> (result: Result<
        (),
        Errno,
    >)
        requires
            old(self).wf(),
            i < old(self)@.nodes.len(),
        ensures
            final(self).wf(),
            (final(self)@, result) == node_range_written(
                old(self)@,
                i as int,
                from as int,
                to as int,
            ),
            final(self)@.nodes == old(self)@.nodes,
            final(self)@.vol.super_block == old(self)@.vol.super_block,
    {
        let chain: ExfatChain = self.nodes[i].inode_impl.start_chain;
        let result: Result<(), Errno> = write_range(
            &mut self.volume,
            &chain,
            &self.nodes[i].page_cache,
            from,
            to,
        );
        assert(self@ =~= old(self)@.with_vol(self.volume@));
        result
    }

    /// Writes what is known of an inode into the directory that holds it, and to the
    /// disk where `sync` is set.
    pub(super) fn write_inode(&mut self, i: usize, sync: bool) -> (result: Result<(), Errno>)
        requires
            old(self).wf(),
            i < old(self)@.nodes.len(),
        ensures
            final(self).wf(),
            (final(self)@, result) == inode_written(old(self)@, i as int, sync),
            final(self)@.nodes.len() == old(self)@.nodes.len(),
            final(self)@.vol.super_block == old(self)@.vol.super_block,
    {
        reveal(inode_written);
        if self.node(i).inode_impl.ino == EXFAT_ROOT_INO {
            return Ok(());
        }
        if !self.node(i).inode_impl.dentry_set_position.0.is_current_cluster_valid(&self.volume) {
            return Ok(());
        }
        let parent_hash: u64 = self.node(i).inode_impl.parent_hash;
        let parent: usize = match self.inodes.get(parent_hash) {
            None => {
                return Err(Errno::EIO);
            },
            Some(parent) => parent,
        };
        let entry: usize = self.node(i).inode_impl.dentry_entry as usize;
        let pages_len: usize = self.node(parent).page_cache.len();
        let mut set: ExfatDentrySet = match ExfatDentrySet::read_from(
            &self.node(parent).page_cache,
            entry,
        ) {
            Err(e) => {
                return Err(e);
            },
            Ok(set) => set,
        };
        let ghost before = set@;
        assert(entry * DENTRY_SIZE + before.len() <= pages_len);
        if !self.node(i).inode_impl.start_chain.is_current_cluster_valid(&self.volume) {
            self.set_sizes(i, 0, 0);
        }
        let ghost n1 = without_lost_sizes(old(self)@.vol, old(self)@.nodes[i as int]);
        assert(self@ =~= old(self)@.with_node(i as int, n1));
        renew_entries(&mut set, self.node(i));
        assert(set@ == entries_of(before, n1));
        let start: usize = entry * DENTRY_SIZE;
        let len: usize = set.to_le_bytes().len();
        self.overwrite_pages(parent, start, set.to_le_bytes());
        if sync {
            return self.write_node_range(parent, start, start + len);
        }
        Ok(())
    }
}

/// Brings the entries of an inode up to date.
fn renew_entries(set: &mut ExfatDentrySet, inode: &ExfatInodeInner)
    requires
        old(set).wf(),
    ensures
        final(set)@ == entries_of(old(set)@, inode@),
        final(set).wf(),
        final(set)@.len() == old(set)@.len(),
{
    reveal(entries_of);
    let file: ExfatFileDentry = set.get_file_dentry();
    let stream: ExfatStreamDentry = set.get_stream_dentry();
    let n = &inode.inode_impl;
    let new_file: ExfatFileDentry = ExfatFileDentry {
        num_secondary: file.num_secondary,
        checksum: file.checksum,
        attribute: n.attr.bits,
        create_utc_offset: n.ctime.utc_offset,
        create_date: n.ctime.date,
        create_time: n.ctime.time,
        create_time_cs: n.ctime.increament_10ms,
        modify_utc_offset: n.mtime.utc_offset,
        modify_date: n.mtime.date,
        modify_time: n.mtime.time,
        modify_time_cs: n.mtime.increament_10ms,
        access_utc_offset: n.atime.utc_offset,
        access_date: n.atime.date,
        access_time: n.atime.time,
    };
    let new_stream: ExfatStreamDentry = ExfatStreamDentry {
        flags: n.start_chain.flags.bits,
        name_len: stream.name_len,
        name_hash: stream.name_hash,
        valid_size: n.size as u64,
        start_cluster: n.start_chain.cluster_id(),
        size: n.size_allocated as u64,
    };
    set.update(&new_file, &new_stream);
}

impl ExfatInodeInner {
    /// Resizes an inode: it gets as many clusters as `new_size` bytes take, counts no
    /// more bytes as written, and is written back.
    #[verifier::rlimit(40)]
    pub fn resize(fs: &mut ExfatFS, inode: ExfatInode, new_size: usize) -> (result: Result<
        (),
        Errno,
    >)
        requires
            old(fs).wf(),
            inode.of(old(fs)@),
        ensures
            final(fs).wf(),
            (final(fs)@, result) == inode_resized(old(fs)@, inode.id(), new_size),
            final(fs)@.nodes.len() == old(fs)@.nodes.len(),
            final(fs)@.vol.super_block == old(fs)@.vol.super_block,
    {
        reveal(inode_resized);
        let i: usize = inode.index;
        let cluster_size: usize = fs.volume.cluster_size();
        let have: u32 = fs.node(i).inode_impl.num_clusters();
        let want: u32 = div_ceil(new_size, cluster_size) as u32;
        let mut chain: ExfatChain = fs.node(i).inode_impl.start_chain;
        if want > have {
            let r: Result<(), Errno> = chain.extend_clusters(&mut fs.volume, want - have, true);
            assert(fs@ =~= old(fs)@.with_vol(fs.volume@));
            fs.set_chain(i, chain);
            match r {
                Err(e) => {
                    return Err(e);
                },
                Ok(_) => {},
            }
        } else if want < have {
            let r: Result<(), Errno> = chain.remove_clusters_from_tail(
                &mut fs.volume,
                have - want,
                true,
            );
            assert(fs@ =~= old(fs)@.with_vol(fs.volume@));
            fs.set_chain(i, chain);
            match r {
                Err(e) => {
                    return Err(e);
                },
                Ok(_) => {},
            }
        }
        if new_size < fs.node(i).inode_impl.size {
            let size_allocated: usize = fs.node(i).inode_impl.size_allocated;
            fs.set_sizes(i, new_size, size_allocated);
        }
        assert(clusters_adjusted(old(fs)@, inode.id(), new_size).1 is Ok);
        assert(fs@ =~= clusters_adjusted(old(fs)@, inode.id(), new_size).0);
        let size: usize = fs.node(i).inode_impl.size;
        fs.set_sizes(i, size, new_size);
        fs.write_inode(i, true)
    }

    /// Resizes an inode while nothing else touches the file system.
    pub fn lock_and_resize(fs: &mut ExfatFS, inode: ExfatInode, new_size: usize) -> (result: Result<
        (),
        Errno,
    >)
        requires
            old(fs).wf(),
            inode.of(old(fs)@),
        ensures
            final(fs).wf(),
            (final(fs)@, result) == inode_resized(old(fs)@, inode.id(), new_size),
            final(fs)@.nodes.len() == old(fs)@.nodes.len(),
            final(fs)@.vol.super_block == old(fs)@.vol.super_block,
    {
        ExfatInodeInner::resize(fs, inode, new_size)
    }
}

impl ExfatInode {
    /// Resizes the inode, and its pages where they are in memory.
    pub fn resize(&self, fs: &mut ExfatFS, new_size: usize) -> (result: Result<(), Errno>)
        requires
            old(fs).wf(),
            self.of(old(fs)@),
            new_size + PAGE_SIZE <= usize::MAX,
        ensures
            final(fs).wf(),
            (final(fs)@, result) == file_resized(old(fs)@, self.id(), new_size),
            final(fs)@.nodes.len() == old(fs)@.nodes.len(),
            final(fs)@.vol.super_block == old(fs)@.vol.super_block,
    {
        match ExfatInodeInner::lock_and_resize(fs, *self, new_size) {
            Err(e) => Err(e),
            Ok(_) => {
                if fs.node(self.index).loaded {
                    fs.resize_pages(self.index, new_size);
                }
                Ok(())
            },
        }
    }
}

} // verus!
