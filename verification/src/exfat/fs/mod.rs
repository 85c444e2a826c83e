//! The file system.

pub mod attr;
pub mod dir;
pub mod file;
pub mod io;
pub mod mounting;
pub mod namei;

use vstd::prelude::*;
use crate::arith::align_up;
use crate::bytes::{overwrite, resize_bytes};
use crate::exfat::chain::ExfatChain;
use crate::exfat::constants::PAGE_SIZE;
use crate::exfat::dentry::ClusterExtent;
use crate::exfat::inode::{ExfatInodeInner, Ino, InodeView};
use crate::exfat::inode_map::InodeMap;
use crate::exfat::mount::{ExfatMountOptions, MountView};
use crate::exfat::volume::{Volume, VolumeState};

verus! {

/// An exFAT file system.
pub struct ExfatFS {
    volume: Volume,
    upcase_table: ClusterExtent,
    mount_option: ExfatMountOptions,
    highest_inode_number: Ino,
    inodes: InodeMap,
    nodes: Vec<ExfatInodeInner>,
}

/// An inode of a file system.
#[derive(Copy, Clone, Eq, PartialEq, Debug, Structural)]
pub struct ExfatInode {
    index: usize,
}

/// The state of a file system.
#[verifier::ext_equal]
pub struct FsState {
    /// The volume.
    pub vol: VolumeState,
    /// Where the up-case table is.
    pub upcase: ClusterExtent,
    /// The mount options.
    pub mount: MountView,
    /// The number that the next inode gets.
    pub next_ino: Ino,
    /// The inodes that are found by their hashes.
    pub opened: Map<u64, usize>,
    /// All inodes.
    pub nodes: Seq<InodeView>,
}

/// The states of inodes.
pub open spec fn views(nodes: Seq<ExfatInodeInner>) -> Seq<InodeView> {
    Seq::new(nodes.len(), |i: int| nodes[i]@)
}

impl View for ExfatFS {
    type V = FsState;

    closed spec fn view(&self) -> FsState {
        FsState {
            vol: self.volume@,
            upcase: self.upcase_table,
            mount: self.mount_option@,
            next_ino: self.highest_inode_number,
            opened: crate::exfat::inode_map::inode_map_entries(&self.inodes),
            nodes: views(self.nodes@),
        }
    }
}

impl FsState {
    /// The state in which the inode with the number `i` is another one.
    pub open spec fn with_node(self, i: int, n: InodeView) -> FsState {
        FsState { nodes: self.nodes.update(i, n), ..self }
    }

    /// The state in which the volume is another one.
    pub open spec fn with_vol(self, vol: VolumeState) -> FsState {
        FsState { vol, ..self }
    }

    /// The inode that is found by a hash.
    pub open spec fn find(self, hash: u64) -> Option<usize> {
        if self.opened.contains_key(hash) {
            Some(self.opened[hash])
        } else {
            None
        }
    }

    /// The state in which an inode is found by its hash.
    pub open spec fn with_opened(self, i: int) -> FsState {
        FsState {
            opened: self.opened.insert(
                crate::exfat::inode::inode_hash(self.nodes[i]),
                i as usize,
            ),
            ..self
        }
    }

    /// The state in which nothing is found by a hash.
    pub open spec fn without_opened(self, hash: u64) -> FsState {
        FsState { opened: self.opened.remove(hash), ..self }
    }

    /// The state in which one more inode number was given away.
    pub open spec fn with_ino_taken(self) -> FsState {
        FsState {
            next_ino: if self.next_ino == usize::MAX {
                0
            } else {
                (self.next_ino + 1) as usize
            },
            ..self
        }
    }

    /// The state with one more inode.
    pub open spec fn with_new_node(self, n: InodeView) -> FsState {
        FsState { nodes: self.nodes.push(n), ..self }
    }

    /// Every inode that is found by a hash exists.
    pub open spec fn opened_exist(self) -> bool {
        forall|hash: u64| #[trigger]
            self.opened.contains_key(hash) ==> self.opened[hash] < self.nodes.len()
    }
}

impl ExfatInode {
    /// The number of the inode.
    pub closed spec fn id(self) -> int {
        self.index as int
    }

    /// Whether this is an inode of a file system.
    pub open spec fn of(self, s: FsState) -> bool {
        0 <= self.id() < s.nodes.len()
    }
}

impl ExfatFS {
    /// The volume is well-formed, and every inode that is found by a hash exists.
    pub closed spec fn wf(&self) -> bool {
        &&& self.volume.wf()
        &&& self@.opened_exist()
    }

    /// What holds of every well-formed file system.
    pub proof fn lemma_wf(&self)
        requires
            self.wf(),
        ensures
            self@.opened_exist(),
            self@.vol.super_block.wf(),
    {
        self.volume.lemma_wf();
    }

    /// Gives an inode number away.
    pub fn alloc_inode_number(&mut self) -> (ino: Ino)
        requires
            old(self).wf(),
        ensures
            final(self).wf(),
            final(self)@ == old(self)@.with_ino_taken(),
            ino == old(self)@.next_ino,
    {
        let ino: Ino = self.highest_inode_number;
        if ino == usize::MAX {
            self.highest_inode_number = 0;
        } else {
            self.highest_inode_number = ino + 1;
        }
        ino
    }

    /// The inode that is found by a hash.
    pub fn find_opened_inode(&self, hash: u64) -> (inode: Option<ExfatInode>)
        requires
            self.wf(),
        ensures
            match self@.find(hash) {
                Some(i) => inode is Some && inode->Some_0.id() == i && inode->Some_0.of(self@),
                None => inode is None,
            },
    {
        match self.inodes.get(hash) {
            Some(index) => Some(ExfatInode { index }),
            None => None,
        }
    }

    /// Has nothing be found by a hash.
    pub fn evict_inode(&mut self, hash: u64)
        requires
            old(self).wf(),
        ensures
            final(self).wf(),
            final(self)@ == old(self)@.without_opened(hash),
    {
        self.inodes.remove(hash);
    }

    /// Has an inode be found by its hash, and returns the one found before.
    pub fn insert_inode(&mut self, inode: ExfatInode) -> (before: Option<ExfatInode>)
        requires
            old(self).wf(),
            inode.of(old(self)@),
        ensures
            final(self).wf(),
            final(self)@ == old(self)@.with_opened(inode.id()),
            match old(self)@.find(
                crate::exfat::inode::inode_hash(old(self)@.nodes[inode.id()]),
            ) {
                Some(i) => before is Some && before->Some_0.id() == i,
                None => before is None,
            },
    {
        let hash: u64 = self.nodes[inode.index].inode_impl.hash_index();
        assert(hash == crate::exfat::inode::inode_hash(self@.nodes[inode.id()]));
        match self.inodes.insert(hash, inode.index) {
            Some(index) => Some(ExfatInode { index }),
            None => None,
        }
    }

    /// An inode.
    fn node(&self, i: usize) -> (node: &ExfatInodeInner)
        requires
            i < self@.nodes.len(),
        ensures
            node@ == self@.nodes[i as int],
    {
        &self.nodes[i]
    }

    /// Adds an inode.
    fn push_node(&mut self, node: ExfatInodeInner) -> (inode: ExfatInode)
        requires
            old(self).wf(),
        ensures
            final(self).wf(),
            final(self)@ == old(self)@.with_new_node(node@),
            inode.id() == old(self)@.nodes.len(),
            inode.of(final(self)@),
    {
        let index: usize = self.nodes.len();
        self.nodes.push(node);
        assert(self@.nodes =~= old(self)@.nodes.push(node@));
        ExfatInode { index }
    }

    /// Changes the clusters of an inode.
    fn set_chain(&mut self, i: usize, chain: ExfatChain)
        requires
            old(self).wf(),
            i < old(self)@.nodes.len(),
        ensures
            final(self).wf(),
            final(self)@ == old(self)@.with_node(
                i as int,
                InodeView { start_chain: chain, ..old(self)@.nodes[i as int] },
            ),
    {
        self.nodes[i].inode_impl.start_chain = chain;
    }

    /// Changes the sizes of an inode.
    fn set_sizes(&mut self, i: usize, size: usize, size_allocated: usize)
        requires
            old(self).wf(),
            i < old(self)@.nodes.len(),
        ensures
            final(self).wf(),
            final(self)@ == old(self)@.with_node(
                i as int,
                InodeView { size, size_allocated, ..old(self)@.nodes[i as int] },
            ),
    {
        self.nodes[i].inode_impl.size = size;
        self.nodes[i].inode_impl.size_allocated = size_allocated;
    }

    /// Changes the number of entries of a directory.
    fn set_num_subdir(&mut self, i: usize, num_subdir: u32)
        requires
            old(self).wf(),
            i < old(self)@.nodes.len(),
        ensures
            final(self).wf(),
            final(self)@ == old(self)@.with_node(
                i as int,
                InodeView { num_subdir, ..old(self)@.nodes[i as int] },
            ),
    {
        self.nodes[i].inode_impl.num_subdir = num_subdir;
    }

    /// Writes over the pages of an inode.
    fn overwrite_pages(&mut self, i: usize, at: usize, bytes: &Vec<u8>)
        requires
            old(self).wf(),
            i < old(self)@.nodes.len(),
            at + bytes@.len() <= old(self)@.nodes[i as int].pages.len(),
        ensures
            final(self).wf(),
            final(self)@ == old(self)@.with_node(
                i as int,
                InodeView {
                    pages: crate::bytes::overwritten(
                        old(self)@.nodes[i as int].pages,
                        at as int,
                        bytes@,
                    ),
                    ..old(self)@.nodes[i as int]
                },
            ),
    {
        overwrite(&mut self.nodes[i].page_cache, at, bytes);
    }

    /// Gives an inode its pages.
    fn set_pages(&mut self, i: usize, pages: Vec<u8>)
        requires
            old(self).wf(),
            i < old(self)@.nodes.len(),
        ensures
            final(self).wf(),
            final(self)@ == old(self)@.with_node(
                i as int,
                InodeView { pages: pages@, loaded: true, ..old(self)@.nodes[i as int] },
            ),
    {
        self.nodes[i].page_cache = pages;
        self.nodes[i].loaded = true;
    }

    /// Changes the number of pages of an inode so that they hold `size` bytes.
    fn resize_pages(&mut self, i: usize, size: usize)
        requires
            old(self).wf(),
            i < old(self)@.nodes.len(),
            size + PAGE_SIZE <= usize::MAX,
        ensures
            final(self).wf(),
            final(self)@ == old(self)@.with_node(
                i as int,
                InodeView {
                    pages: pages_for(old(self)@.nodes[i as int].pages, size as int),
                    ..old(self)@.nodes[i as int]
                },
            ),
    {
        resize_bytes(&mut self.nodes[i].page_cache, align_up(size, PAGE_SIZE));
    }
}

/// Pages cut or filled up with zeros so that they hold `size` bytes.
pub open spec fn pages_for(pages: Seq<u8>, size: int) -> Seq<u8> {
    crate::bytes::resized(pages, crate::arith::rounded_up(size, PAGE_SIZE as int))
}

} // verus!
