//! Directories: finding room for entries, adding, listing, finding and deleting them.

use vstd::prelude::*;
use crate::arith::div_ceil;
use crate::bytes::copy_range;
use crate::errno::Errno;
use crate::exfat::chain::{ExfatChain, ExfatChainPosition};
use crate::exfat::constants::{
    DENTRY_SIZE, EXFAT_FILE_NAME_LEN, MAX_EXFAT_DENTRIES, MAX_NAME_LENGTH, PAGE_SIZE,
};
use crate::exfat::dentry::{dentry_kind, get_extent, ClusterExtent, DentryKind, DosTimestamp};
use crate::exfat::dentry_set::ExfatDentrySet;
use crate::exfat::fat::{ClusterID, FatChainFlags, ALLOC_POSSIBLE};
use crate::exfat::fs::{ExfatFS, ExfatInode, FsState};
use crate::exfat::inode::{make_hash_index, ExfatInodeInner, Ino, InodeType, InodeView};
use crate::exfat::volume::{Volume, VolumeState};
use crate::text::{byte_len, decode_utf16, encode_utf16, text_equal};

verus! {

/// The first of `want` entries that follow each other and are not in use, among
/// those that begin before `size`; the search is at the entry with the number
/// `slot`, and the `run` entries before it are not in use.
pub open spec fn free_slots(pages: Seq<u8>, size: int, want: int, slot: int, run: int) -> Result<
    Option<int>,
    Errno,
>
    decreases pages.len() - slot * DENTRY_SIZE,
{
    if slot * DENTRY_SIZE >= size {
        Ok(None)
    } else if !crate::exfat::dentry::has_slot(pages, slot) {
        Err(Errno::EIO)
    } else {
        let run1 = if crate::exfat::dentry::slot_is_free(pages, slot) {
            run + 1
        } else {
            0
        };
        if run1 >= want {
            Ok(Some(slot - (want - 1)))
        } else {
            free_slots(pages, size, want, slot + 1, run1)
        }
    }
}

/// What giving a directory more clusters, and pages for them, makes of the file system
/// and returns.
pub open spec fn directory_grown(s: FsState, i: int, clusters: u32) -> (
    FsState,
    Result<(), Errno>,
) {
    let n = s.nodes[i];
    let new_size = n.size_allocated + s.vol.super_block.cluster_size * clusters;
    if new_size + PAGE_SIZE > usize::MAX {
        (s, Err(Errno::ENOSPC))
    } else {
        let (v, chain, r) = crate::exfat::chain::chain_extended(
            s.vol,
            n.start_chain,
            clusters,
            true,
        );
        let n1 = InodeView { start_chain: chain, ..n };
        match r {
            Err(e) => (s.with_vol(v).with_node(i, n1), Err(e)),
            Ok(_) => (
                s.with_vol(v).with_node(
                    i,
                    InodeView {
                        size: new_size as usize,
                        size_allocated: new_size as usize,
                        pages: crate::exfat::fs::pages_for(n.pages, new_size),
                        ..n1
                    },
                ),
                Ok(()),
            ),
        }
    }
}

/// What looking for `want` entries that are not in use makes of the file system and
/// returns: where there are none, the directory grows.
pub open spec fn slots_found(s: FsState, i: int, want: int) -> (FsState, Result<usize, Errno>) {
    let n = s.nodes[i];
    match free_slots(n.pages, n.size as int, want, 0, 0) {
        Err(e) => (s, Err(e)),
        Ok(Some(slot)) => (s, Ok(slot as usize)),
        Ok(None) => if n.size >= MAX_EXFAT_DENTRIES * DENTRY_SIZE {
            (s, Err(Errno::ENOSPC))
        } else {
            let clusters = crate::arith::pieces(
                want * DENTRY_SIZE,
                s.vol.super_block.cluster_size as int,
            ) as u32;
            let (s1, r1) = directory_grown(s, i, clusters);
            match r1 {
                Err(e) => (s1, Err(e)),
                Ok(_) => (
                    s1,
                    Ok(crate::arith::pieces(n.size as int, DENTRY_SIZE as int) as usize),
                ),
            }
        },
    }
}

/// What giving a directory without clusters its first one makes of the file system
/// and returns.
pub open spec fn first_cluster_taken(s: FsState, i: int) -> (FsState, Result<(), Errno>) {
    let n = s.nodes[i];
    if crate::exfat::volume::valid_cluster(s.vol.super_block, n.start_chain.current as int) {
        (s, Ok(()))
    } else {
        directory_grown(s, i, 1)
    }
}

/// One more, as far as that can be counted.
pub open spec fn one_more(n: u32) -> u32 {
    if n == u32::MAX {
        n
    } else {
        (n + 1) as u32
    }
}

/// One less, as far as that can be counted.
pub open spec fn one_less(n: u32) -> u32 {
    if n == 0 {
        n
    } else {
        (n - 1) as u32
    }
}

/// The number of entries that are looked for on behalf of a name.
pub open spec fn slots_wanted(name: Seq<char>) -> int {
    2 + crate::arith::pieces(crate::text::byte_length(name) as int, EXFAT_FILE_NAME_LEN as int)
}

/// A directory into which a set was written at the entry with the number `slot`.
pub open spec fn with_set(n: InodeView, slot: int, want: int, set: Seq<u8>) -> InodeView {
    let end = (slot + want) * DENTRY_SIZE;
    let pages = if n.pages.len() < end {
        crate::exfat::fs::pages_for(n.pages, end)
    } else {
        n.pages
    };
    InodeView {
        pages: crate::bytes::overwritten(pages, slot * DENTRY_SIZE, set),
        num_subdir: one_more(n.num_subdir),
        ..n
    }
}

/// What adding a file or directory makes of the file system and returns: the number
/// of the new inode.
#[verifier::opaque]
pub open spec fn entry_added(
    s: FsState,
    i: int,
    name: Seq<char>,
    inode_type: InodeType,
    now: DosTimestamp,
) -> (FsState, Result<usize, Errno>) {
    if crate::text::byte_length(name) > MAX_NAME_LENGTH {
        (s, Err(Errno::ENAMETOOLONG))
    } else {
        let (s1, r1) = first_cluster_taken(s, i);
        match r1 {
            Err(e) => (s1, Err(e)),
            Ok(_) => {
                let (s2, r2) = slots_found(s1, i, slots_wanted(name));
                match r2 {
                    Err(e) => (s2, Err(e)),
                    Ok(slot) => entry_added_at(s2, i, name, inode_type, now, slot),
                }
            },
        }
    }
}

/// What adding a file or directory at the entry with the number `slot` makes of the
/// file system and returns.
pub open spec fn entry_added_at(
    s: FsState,
    i: int,
    name: Seq<char>,
    inode_type: InodeType,
    now: DosTimestamp,
    slot: usize,
) -> (FsState, Result<usize, Errno>) {
    let set = crate::exfat::dentry_set::new_set(
        crate::text::utf16(name),
        inode_type is Dir,
        now,
    );
    let (v, r) = crate::exfat::chain::chain_walk_to_offset(
        s.vol,
        s.nodes[i].start_chain,
        (slot * DENTRY_SIZE) as usize,
    );
    match r {
        Err(e) => (s.with_vol(v), Err(e)),
        Ok(position) => {
            let n = with_set(s.nodes[i], slot as int, slots_wanted(name), set);
            let s1 = s.with_vol(v).with_node(i, n).with_ino_taken();
            let (v2, r2) = crate::exfat::inode::inode_built(
                v,
                set,
                position,
                slot as u32,
                crate::exfat::inode::inode_hash(n),
                s.next_ino,
            );
            match r2 {
                Err(e) => (s1.with_vol(v2), Err(e)),
                Ok(child) => (
                    s1.with_vol(v2).with_new_node(child),
                    Ok(s.nodes.len() as usize),
                ),
            }
        },
    }
}

/// An entry of a directory, as it is listed.
#[derive(Debug)]
pub struct Dirent {
    /// The name.
    pub name: String,
    /// The number of the inode.
    pub ino: u64,
    /// Whether it is a file or a directory.
    pub type_: InodeType,
    /// Where in the directory it is.
    pub offset: usize,
}

/// What an entry of a directory says.
#[verifier::ext_equal]
pub struct DirentView {
    pub name: Seq<char>,
    pub ino: u64,
    pub type_: InodeType,
    pub offset: usize,
}

impl View for Dirent {
    type V = DirentView;

    open spec fn view(&self) -> DirentView {
        DirentView {
            name: self.name@,
            ino: self.ino,
            type_: self.type_,
            offset: self.offset,
        }
    }
}

/// What entries say.
pub open spec fn dirents(entries: Seq<Dirent>) -> Seq<DirentView> {
    Seq::new(entries.len(), |i: int| entries[i]@)
}

/// The entry of an inode.
pub open spec fn dirent_of(n: InodeView, slot: int) -> DirentView {
    DirentView {
        name: crate::text::text_of_utf16(n.name),
        ino: n.ino as u64,
        type_: n.inode_type,
        offset: (slot * DENTRY_SIZE) as usize,
    }
}

/// What reading the entries at the number `slot` of the directory `d` makes of the
/// file system and returns: the number of the inode, which is made where it is not
/// open.
pub open spec fn child_read(s: FsState, d: InodeView, slot: int) -> (
    FsState,
    Result<usize, Errno>,
) {
    let (v, r) = crate::exfat::chain::chain_walk_to_offset(
        s.vol,
        d.start_chain,
        (slot * DENTRY_SIZE) as usize,
    );
    if !(d.inode_type is Dir) {
        (s, Err(Errno::ENOTDIR))
    } else {
        match r {
            Err(e) => (s.with_vol(v), Err(e)),
            Ok(position) => match s.find(crate::exfat::inode::hash_of_position(position)) {
                Some(c) => {
                    let size = s.nodes[c as int].dentry_set_size;
                    if size < DENTRY_SIZE {
                        (s.with_vol(v), Err(Errno::EIO))
                    } else if (slot + size / DENTRY_SIZE) * DENTRY_SIZE > d.pages.len() {
                        (s.with_vol(v), Err(Errno::ENOENT))
                    } else {
                        (s.with_vol(v), Ok(c))
                    }
                },
                None => child_made(s.with_vol(v), d, slot, position),
            },
        }
    }
}

/// What making the inode whose entries are at the number `slot` of the directory `d`
/// makes of the file system and returns.
pub open spec fn child_made(
    s: FsState,
    d: InodeView,
    slot: int,
    position: ExfatChainPosition,
) -> (FsState, Result<usize, Errno>) {
    let s1 = s.with_ino_taken();
    match crate::exfat::dentry_set::set_at(d.pages, slot) {
        Err(e) => (s1, Err(e)),
        Ok(set) => {
            let (v, r) = crate::exfat::inode::inode_built(
                s1.vol,
                set,
                position,
                slot as u32,
                crate::exfat::inode::inode_hash(d),
                s.next_ino,
            );
            match r {
                Err(e) => (s1.with_vol(v), Err(e)),
                Ok(child) => (
                    s1.with_vol(v).with_new_node(child).with_opened(s.nodes.len() as int),
                    Ok(s.nodes.len() as usize),
                ),
            }
        },
    }
}

/// What reading `count` files and directories of the directory `d` from the entry
/// with the number `slot` on, behind those that were read before, makes of the file
/// system and returns: the entries, and the number of the entry behind the last.
pub open spec fn children_read(
    s: FsState,
    d: InodeView,
    slot: int,
    count: nat,
    before: Seq<DirentView>,
) -> (FsState, Seq<DirentView>, Result<usize, Errno>)
    decreases d.pages.len() - slot * DENTRY_SIZE,
{
    if count == 0 {
        (s, before, Ok(slot as usize))
    } else if !crate::exfat::dentry::has_slot(d.pages, slot) {
        (s, before, Err(Errno::ENOENT))
    } else if crate::exfat::dentry::slot_kind(d.pages, slot) is File {
        let (s1, r) = child_read(s, d, slot);
        match r {
            Err(e) => (s1, before, Err(e)),
            Ok(c) => {
                let child = s1.nodes[c as int];
                let next = slot + child.dentry_set_size / DENTRY_SIZE;
                if next == slot || next * DENTRY_SIZE > d.pages.len() {
                    (s1, before, Err(Errno::EIO))
                } else {
                    children_read(
                        s1,
                        d,
                        next,
                        (count - 1) as nat,
                        before.push(dirent_of(child, slot)),
                    )
                }
            },
        }
    } else {
        children_read(s, d, slot + 1, count, before)
    }
}

/// What reading `count` files and directories of an inode from the entry with the
/// number `slot` on, behind those that were read before, makes of the file system
/// and returns.
pub open spec fn dirs_read(
    s: FsState,
    i: int,
    slot: int,
    count: nat,
    before: Seq<DirentView>,
) -> (FsState, Seq<DirentView>, Result<usize, Errno>) {
    let d = s.nodes[i];
    let offset = (slot * DENTRY_SIZE) as usize;
    if !(d.inode_type is Dir) {
        (s, before, Err(Errno::ENOTDIR))
    } else if count == 0 {
        (s, before, Ok(slot as usize))
    } else {
        let (v1, r1) = crate::exfat::chain::chain_cluster(
            s.vol,
            d.start_chain,
            (offset / (s.vol.super_block.cluster_size as usize)) as u32,
        );
        match r1 {
            Err(e) => (s.with_vol(v1), before, Err(e)),
            Ok(_) => {
                let (v2, r2) = crate::exfat::chain::chain_walk_to_offset(
                    v1,
                    d.start_chain,
                    offset,
                );
                match r2 {
                    Err(e) => (s.with_vol(v2), before, Err(e)),
                    Ok(_) => children_read(s.with_vol(v2), d, slot, count, before),
                }
            },
        }
    }
}

/// The number of the first entry with a name, from the number `k` on.
pub open spec fn named_entry(entries: Seq<DirentView>, name: Seq<char>, k: int) -> Option<int>
    decreases entries.len() - k,
{
    if k >= entries.len() {
        None
    } else if entries[k].name == name {
        Some(k)
    } else {
        named_entry(entries, name, k + 1)
    }
}

/// What looking for a name in a directory makes of the file system and returns: the
/// number of the inode, and where its entries begin and how many bytes they take.
#[verifier::opaque]
pub open spec fn name_found(s: FsState, i: int, name: Seq<char>) -> (
    FsState,
    Result<(usize, usize, usize), Errno>,
) {
    let (s1, entries, r1) = dirs_read(s, i, 0, s.nodes[i].num_subdir as nat, Seq::empty());
    match r1 {
        Err(e) => (s1, Err(e)),
        Ok(_) => match named_entry(entries, name, 0) {
            None => (s1, Err(Errno::ENOENT)),
            Some(k) => {
                let offset = entries[k].offset;
                let (v, r2) = crate::exfat::chain::chain_walk_to_offset(
                    s1.vol,
                    s1.nodes[i].start_chain,
                    offset,
                );
                match r2 {
                    Err(e) => (s1.with_vol(v), Err(e)),
                    Ok(position) => match s1.find(
                        crate::exfat::inode::hash_of_position(position),
                    ) {
                        None => (s1.with_vol(v), Err(Errno::EIO)),
                        Some(c) => (
                            s1.with_vol(v),
                            Ok((c, offset, s1.nodes[c as int].dentry_set_size)),
                        ),
                    },
                }
            },
        },
    }
}

/// What freeing the clusters that an entry other than those of a file names makes of
/// the volume and returns.
pub open spec fn secondary_freed(v: VolumeState, entry: Seq<u8>) -> (
    VolumeState,
    Result<(), Errno>,
) {
    let kind = crate::exfat::dentry::kind_of(entry[0]);
    let extent = crate::exfat::dentry::extent_at(entry, 0);
    if !(kind is VendorAlloc || kind is GenericSecondary) {
        (v, Ok(()))
    } else if !crate::exfat::volume::valid_cluster(v.super_block, extent.start_cluster as int) {
        (v, Ok(()))
    } else {
        let n = (extent.size as usize / (v.super_block.cluster_size as usize)) as u32;
        let (v1, _, r1) = crate::exfat::chain::chain_shortened(
            v,
            ExfatChain {
                current: extent.start_cluster,
                num_clusters: n,
                flags: (FatChainFlags { bits: ALLOC_POSSIBLE }),
            },
            n,
            true,
        );
        (v1, r1)
    }
}

/// What freeing the clusters that the entries from the number `k` up to `end` name
/// makes of the volume and returns.
pub open spec fn secondaries_freed(v: VolumeState, set: Seq<u8>, k: int, end: int) -> (
    VolumeState,
    Result<(), Errno>,
)
    decreases end - k,
{
    if k >= end {
        (v, Ok(()))
    } else {
        let (v1, r1) = secondary_freed(
            v,
            set.subrange(k * DENTRY_SIZE, (k + 1) * DENTRY_SIZE),
        );
        match r1 {
            Err(e) => (v1, Err(e)),
            Ok(_) => secondaries_freed(v1, set, k + 1, end),
        }
    }
}

/// Entries that are marked as deleted.
pub open spec fn deleted_set(set: Seq<u8>) -> Seq<u8> {
    Seq::new(
        set.len(),
        |i: int|
            if i % (DENTRY_SIZE as int) == 0 && i + DENTRY_SIZE <= set.len() {
                crate::exfat::dentry::deleted_type(set[i])
            } else {
                set[i]
            },
    )
}

/// What deleting the entries of `len` bytes at `offset` makes of the file system and
/// returns.
#[verifier::opaque]
pub open spec fn entries_deleted(s: FsState, i: int, offset: int, len: int) -> (
    FsState,
    Result<(), Errno>,
) {
    let n = s.nodes[i];
    if offset + len > n.pages.len() {
        (s, Err(Errno::EINVAL))
    } else {
        let set = n.pages.subrange(offset, offset + len);
        let (v, r) = secondaries_freed(s.vol, set, 0, len / (DENTRY_SIZE as int));
        match r {
            Err(e) => (s.with_vol(v), Err(e)),
            Ok(_) => (
                s.with_vol(v).with_node(
                    i,
                    InodeView {
                        pages: crate::bytes::overwritten(n.pages, offset, deleted_set(set)),
                        num_subdir: one_less(n.num_subdir),
                        ..n
                    },
                ),
                Ok(()),
            ),
        }
    }
}

/// Whether the entries up to the number `end` can be held in memory.
pub open spec fn slots_fit(n: InodeView, end: int) -> bool {
    end * DENTRY_SIZE <= n.pages.len() <= usize::MAX || end * DENTRY_SIZE <= 0x2000_0000
}

/// Where the free entries lie that a search finds.
pub proof fn lemma_free_slots_bound(pages: Seq<u8>, size: int, want: int, slot: int, run: int)
    requires
        0 < want,
        0 <= run < want,
        run <= slot,
    ensures
        free_slots(pages, size, want, slot, run) matches Ok(Some(found)) ==> 0 <= found && (found
            + want) * DENTRY_SIZE <= pages.len(),
    decreases pages.len() - slot * DENTRY_SIZE,
{
    if slot * DENTRY_SIZE < size && crate::exfat::dentry::has_slot(pages, slot) {
        let run1 = if crate::exfat::dentry::slot_is_free(pages, slot) {
            run + 1
        } else {
            0
        };
        if run1 < want {
            lemma_free_slots_bound(pages, size, want, slot + 1, run1);
        }
    }
}

impl ExfatInodeInner {
    /// Looks for `want` entries that follow each other and are not in use.
    fn find_free_slots(&self, want: usize) -> (result: Result<Option<usize>, Errno>)
        requires
            0 < want,
        ensures
            match free_slots(self@.pages, self@.size as int, want as int, 0, 0) {
                Err(e) => result == Err::<Option<usize>, Errno>(e),
                Ok(None) => result == Ok::<Option<usize>, Errno>(None),
                Ok(Some(slot)) => result is Ok && result->Ok_0 is Some && result->Ok_0->Some_0
                    == slot && (slot + want) * DENTRY_SIZE <= self@.pages.len()
                    && self@.pages.len() <= usize::MAX,
            },
    {
        let size: usize = self.inode_impl.size;
        let len: usize = self.page_cache.len();
        let slots: usize = len / DENTRY_SIZE;
        let end: usize = div_ceil(size, DENTRY_SIZE);
        let ghost total = free_slots(self@.pages, size as int, want as int, 0, 0);
        proof {
            lemma_free_slots_bound(self@.pages, size as int, want as int, 0, 0);
        }
        let mut slot: usize = 0;
        let mut run: usize = 0;
        while slot < end
            invariant
                slot <= end,
                run <= slot,
                run < want,
                len == self.page_cache@.len(),
                slots == len / DENTRY_SIZE,
                size == self.inode_impl.size,
                end == crate::arith::pieces(size as int, DENTRY_SIZE as int),
                total == free_slots(self@.pages, self@.size as int, want as int, 0, 0),
                total == free_slots(
                    self@.pages,
                    size as int,
                    want as int,
                    slot as int,
                    run as int,
                ),
                total matches Ok(Some(found)) ==> 0 <= found && (found + want) * DENTRY_SIZE
                    <= self@.pages.len(),
            decreases end - slot,
        {
            if slot >= slots {
                return Err(Errno::EIO);
            }
            match dentry_kind(self.page_cache[slot * DENTRY_SIZE]) {
                DentryKind::UnUsed | DentryKind::Deleted => {
                    run = run + 1;
                },
                _ => {
                    run = 0;
                },
            }
            if run >= want {
                return Ok(Some(slot - (want - 1)));
            }
            slot = slot + 1;
        }
        Ok(None)
    }
}

impl ExfatFS {
    /// Gives a directory more clusters, and pages for them.
    fn grow_directory(&mut self, i: usize, clusters: u32) -> (result: Result<(), Errno>)
        requires
            old(self).wf(),
            i < old(self)@.nodes.len(),
        ensures
            final(self).wf(),
            (final(self)@, result) == directory_grown(old(self)@, i as int, clusters),
            final(self)@.nodes.len() == old(self)@.nodes.len(),
            final(self)@.vol.super_block == old(self)@.vol.super_block,
    {
        let cluster_size: usize = self.volume.cluster_size();
        let size_allocated: usize = self.node(i).inode_impl.size_allocated;
        assert(0 <= cluster_size * clusters <= 0x200_0000 * u32::MAX) by (nonlinear_arith)
            requires
                0 <= cluster_size <= 0x200_0000,
                0 <= clusters <= u32::MAX,
        ;
        let more: u64 = (cluster_size as u64) * (clusters as u64);
        let room: usize = usize::MAX - size_allocated;
        if room < PAGE_SIZE || more > (room - PAGE_SIZE) as u64 {
            return Err(Errno::ENOSPC);
        }
        let new_size: usize = size_allocated + more as usize;
        let mut chain: ExfatChain = self.node(i).inode_impl.start_chain;
        let r: Result<(), Errno> = chain.extend_clusters(&mut self.volume, clusters, true);
        assert(self@ =~= old(self)@.with_vol(self.volume@));
        self.set_chain(i, chain);
        match r {
            Err(e) => Err(e),
            Ok(_) => {
                self.set_sizes(i, new_size, new_size);
                self.resize_pages(i, new_size);
                assert(self@ =~= directory_grown(old(self)@, i as int, clusters).0);
                Ok(())
            },
        }
    }

    /// Looks for `want` entries of a directory that are not in use. Where there are
    /// none, the directory grows.
    pub(super) fn find_empty_dentry(&mut self, i: usize, want: usize) -> (result: Result<
        usize,
        Errno,
    >)
        requires
            old(self).wf(),
            i < old(self)@.nodes.len(),
            0 < want <= 19,
        ensures
            final(self).wf(),
            (final(self)@, result) == slots_found(old(self)@, i as int, want as int),
            final(self)@.nodes.len() == old(self)@.nodes.len(),
            final(self)@.vol.super_block == old(self)@.vol.super_block,
            result matches Ok(slot) ==> slots_fit(final(self)@.nodes[i as int], slot + want),
    {
        match self.node(i).find_free_slots(want) {
            Err(e) => {
                return Err(e);
            },
            Ok(Some(slot)) => {
                return Ok(slot);
            },
            Ok(None) => {},
        }
        let size: usize = self.node(i).inode_impl.size;
        if size >= MAX_EXFAT_DENTRIES * DENTRY_SIZE {
            return Err(Errno::ENOSPC);
        }
        let cluster_size: usize = self.volume.cluster_size();
        let clusters: u32 = div_ceil(want * DENTRY_SIZE, cluster_size) as u32;
        match self.grow_directory(i, clusters) {
            Err(e) => Err(e),
            Ok(_) => Ok(div_ceil(size, DENTRY_SIZE)),
        }
    }

    /// Gives a directory without clusters its first one.
    fn take_first_cluster(&mut self, i: usize) -> (result: Result<(), Errno>)
        requires
            old(self).wf(),
            i < old(self)@.nodes.len(),
        ensures
            final(self).wf(),
            (final(self)@, result) == first_cluster_taken(old(self)@, i as int),
            final(self)@.nodes.len() == old(self)@.nodes.len(),
            final(self)@.vol.super_block == old(self)@.vol.super_block,
    {
        if self.node(i).inode_impl.start_chain.is_current_cluster_valid(&self.volume) {
            return Ok(());
        }
        self.grow_directory(i, 1)
    }

    /// Adds a file or directory to a directory.
    pub(super) fn add_entry(
        &mut self,
        i: usize,
        name: &str,
        inode_type: InodeType,
        now: DosTimestamp,
    ) -> (result: Result<ExfatInode, Errno>)
        requires
            old(self).wf(),
            i < old(self)@.nodes.len(),
        ensures
            final(self).wf(),
            ({
                let (s, r) = entry_added(old(self)@, i as int, name@, inode_type, now);
                &&& final(self)@ == s
                &&& match r {
                    Ok(c) => result is Ok && result->Ok_0.id() == c && result->Ok_0.of(s),
                    Err(e) => result == Err::<ExfatInode, Errno>(e),
                }
            }),
            final(self)@.nodes.len() >= old(self)@.nodes.len(),
    {
        reveal(entry_added);
        let name_len: usize = byte_len(name);
        if name_len > MAX_NAME_LENGTH {
            return Err(Errno::ENAMETOOLONG);
        }
        match self.take_first_cluster(i) {
            Err(e) => {
                return Err(e);
            },
            Ok(_) => {},
        }
        let want: usize = div_ceil(name_len, EXFAT_FILE_NAME_LEN) + 2;
        match self.find_empty_dentry(i, want) {
            Err(e) => Err(e),
            Ok(slot) => self.add_entry_at(i, name, inode_type, now, slot),
        }
    }

    /// Writes the entries of one more inode to the pages of a directory, which grow where
    /// they are too few.
    fn put_set(&mut self, i: usize, slot: usize, want: usize, set: &Vec<u8>)
        requires
            old(self).wf(),
            i < old(self)@.nodes.len(),
            set@.len() <= want * DENTRY_SIZE,
            slots_fit(old(self)@.nodes[i as int], slot + want),
        ensures
            final(self).wf(),
            final(self)@ == old(self)@.with_node(
                i as int,
                with_set(old(self)@.nodes[i as int], slot as int, want as int, set@),
            ),
    {
        let end: usize = (slot + want) * DENTRY_SIZE;
        if self.node(i).page_cache.len() < end {
            proof {
                crate::arith::lemma_rounded_up(end as int, PAGE_SIZE as int);
            }
            self.resize_pages(i, end);
        }
        self.overwrite_pages(i, slot * DENTRY_SIZE, set);
        let num_subdir: u32 = self.node(i).inode_impl.num_subdir;
        if num_subdir < u32::MAX {
            self.set_num_subdir(i, num_subdir + 1);
        }
        assert(self@ =~= old(self)@.with_node(
            i as int,
            with_set(old(self)@.nodes[i as int], slot as int, want as int, set@),
        ));
    }

    /// Adds a file or directory to a directory at the entry with the number `slot`.
    #[verifier::rlimit(30)]
    fn add_entry_at(
        &mut self,
        i: usize,
        name: &str,
        inode_type: InodeType,
        now: DosTimestamp,
        slot: usize,
    ) -> (result: Result<ExfatInode, Errno>)
        requires
            old(self).wf(),
            i < old(self)@.nodes.len(),
            crate::text::byte_length(name@) <= MAX_NAME_LENGTH,
            slots_fit(old(self)@.nodes[i as int], slot + slots_wanted(name@)),
        ensures
            final(self).wf(),
            ({
                let (s, r) = entry_added_at(
                    old(self)@,
                    i as int,
                    name@,
                    inode_type,
                    now,
                    slot,
                );
                &&& final(self)@ == s
                &&& match r {
                    Ok(c) => result is Ok && result->Ok_0.id() == c && result->Ok_0.of(s),
                    Err(e) => result == Err::<ExfatInode, Errno>(e),
                }
            }),
            final(self)@.nodes.len() >= old(self)@.nodes.len(),
    {
        let name_len: usize = byte_len(name);
        let want: usize = div_ceil(name_len, EXFAT_FILE_NAME_LEN) + 2;
        let units: Vec<u16> = encode_utf16(name);
        proof {
            crate::text::lemma_utf16_len(name@);
        }
        let set: ExfatDentrySet = ExfatDentrySet::new(&units, inode_type.is_directory(), now);
        let chain: ExfatChain = self.node(i).inode_impl.start_chain;
        let walked: Result<ExfatChainPosition, Errno> = chain.walk_to_cluster_at_offset(
            &mut self.volume,
            slot * DENTRY_SIZE,
        );
        assert(self@ =~= old(self)@.with_vol(self.volume@));
        let position: ExfatChainPosition = match walked {
            Err(e) => {
                return Err(e);
            },
            Ok(position) => position,
        };
        self.put_set(i, slot, want, set.to_le_bytes());
        let ghost n = with_set(
            old(self)@.nodes[i as int],
            slot as int,
            slots_wanted(name@),
            set@,
        );
        let parent_hash: u64 = self.node(i).inode_impl.hash_index();
        assert(parent_hash == crate::exfat::inode::inode_hash(n));
        let ino: Ino = self.alloc_inode_number();
        let ghost before = self@;
        let built: Result<ExfatInodeInner, Errno> = ExfatInodeInner::build_inode_from_dentry_set(
            &mut self.volume,
            &set,
            position,
            slot as u32,
            parent_hash,
            ino,
        );
        assert(self@ =~= before.with_vol(self.volume@));
        match built {
            Err(e) => Err(e),
            Ok(node) => {
                let inode: ExfatInode = self.push_node(node);
                Ok(inode)
            },
        }
    }
}

/// Whether the inodes of `s` are among those of `t`, unchanged and under the same
/// numbers.
pub open spec fn nodes_kept(s: FsState, t: FsState) -> bool {
    &&& s.nodes.len() <= t.nodes.len()
    &&& forall|j: int| 0 <= j < s.nodes.len() ==> #[trigger] t.nodes[j] == s.nodes[j]
}

impl ExfatFS {
    /// Reads the entries at the number `slot` of a directory, and returns the number
    /// of the inode, which is made where it is not open.
    pub fn read_single_dir(&mut self, i: usize, slot: usize) -> (result: Result<usize, Errno>)
        requires
            old(self).wf(),
            i < old(self)@.nodes.len(),
            crate::exfat::dentry::has_slot(old(self)@.nodes[i as int].pages, slot as int),
        ensures
            final(self).wf(),
            (final(self)@, result) == child_read(
                old(self)@,
                old(self)@.nodes[i as int],
                slot as int,
            ),
            nodes_kept(old(self)@, final(self)@),
            result matches Ok(c) ==> c < final(self)@.nodes.len(),
            final(self)@.vol.super_block == old(self)@.vol.super_block,
    {
        if !self.node(i).inode_impl.inode_type.is_directory() {
            return Err(Errno::ENOTDIR);
        }
        let len: usize = self.node(i).page_cache.len();
        let chain: ExfatChain = self.node(i).inode_impl.start_chain;
        let walked: Result<ExfatChainPosition, Errno> = chain.walk_to_cluster_at_offset(
            &mut self.volume,
            slot * DENTRY_SIZE,
        );
        assert(self@ =~= old(self)@.with_vol(self.volume@));
        let position: ExfatChainPosition = match walked {
            Err(e) => {
                return Err(e);
            },
            Ok(position) => position,
        };
        let hash: u64 = make_hash_index(position.0.cluster_id(), position.1 as u32);
        match self.inodes.get(hash) {
            Some(c) => {
                let child_slots: usize = self.node(c).inode_impl.dentry_set_size / DENTRY_SIZE;
                if child_slots == 0 {
                    return Err(Errno::EIO);
                }
                if child_slots > len / DENTRY_SIZE - slot {
                    return Err(Errno::ENOENT);
                }
                Ok(c)
            },
            None => self.make_child(i, slot, position),
        }
    }

    /// Makes the inode whose entries are at the number `slot` of a directory.
    fn make_child(&mut self, i: usize, slot: usize, position: ExfatChainPosition) -> (result:
        Result<usize, Errno>)
        requires
            old(self).wf(),
            i < old(self)@.nodes.len(),
        ensures
            final(self).wf(),
            (final(self)@, result) == child_made(
                old(self)@,
                old(self)@.nodes[i as int],
                slot as int,
                position,
            ),
            nodes_kept(old(self)@, final(self)@),
            result matches Ok(c) ==> c < final(self)@.nodes.len(),
            final(self)@.vol.super_block == old(self)@.vol.super_block,
    {
        let parent_hash: u64 = self.node(i).inode_impl.hash_index();
        assert(parent_hash == crate::exfat::inode::inode_hash(self@.nodes[i as int]));
        let ino: Ino = self.alloc_inode_number();
        let set: ExfatDentrySet = match ExfatDentrySet::read_from(
            &self.node(i).page_cache,
            slot,
        ) {
            Err(e) => {
                return Err(e);
            },
            Ok(set) => set,
        };
        let ghost before = self@;
        let built: Result<ExfatInodeInner, Errno> = ExfatInodeInner::build_inode_from_dentry_set(
            &mut self.volume,
            &set,
            position,
            slot as u32,
            parent_hash,
            ino,
        );
        assert(self@ =~= before.with_vol(self.volume@));
        match built {
            Err(e) => Err(e),
            Ok(node) => {
                let index: usize = self.nodes.len();
                let inode: ExfatInode = self.push_node(node);
                let _ = self.insert_inode(inode);
                Ok(index)
            },
        }
    }

    /// Reads `count` files and directories of a directory, from the entry with the
    /// number `slot` on, and returns the number of the entry behind the last.
    pub fn read_multiple_dirs(
        &mut self,
        i: usize,
        slot: usize,
        count: usize,
        entries: &mut Vec<Dirent>,
    ) -> (result: Result<usize, Errno>)
        requires
            old(self).wf(),
            i < old(self)@.nodes.len(),
            slot * DENTRY_SIZE <= usize::MAX,
        ensures
            final(self).wf(),
            (final(self)@, dirents(final(entries)@), result) == dirs_read(
                old(self)@,
                i as int,
                slot as int,
                count as nat,
                dirents(old(entries)@),
            ),
            nodes_kept(old(self)@, final(self)@),
            final(self)@.vol.super_block == old(self)@.vol.super_block,
            result matches Ok(next) ==> next * DENTRY_SIZE <= usize::MAX,
    {
        if !self.node(i).inode_impl.inode_type.is_directory() {
            return Err(Errno::ENOTDIR);
        }
        if count == 0 {
            return Ok(slot);
        }
        let cluster_size: usize = self.volume.cluster_size();
        let offset: usize = slot * DENTRY_SIZE;
        let chain: ExfatChain = self.node(i).inode_impl.start_chain;
        let r1: Result<ClusterID, Errno> = chain.cluster_at(
            &mut self.volume,
            (offset / cluster_size) as u32,
        );
        assert(self@ =~= old(self)@.with_vol(self.volume@));
        match r1 {
            Err(e) => {
                return Err(e);
            },
            Ok(_) => {},
        }
        let r2: Result<ExfatChainPosition, Errno> = chain.walk_to_cluster_at_offset(
            &mut self.volume,
            offset,
        );
        assert(self@ =~= old(self)@.with_vol(self.volume@));
        match r2 {
            Err(e) => {
                return Err(e);
            },
            Ok(_) => {},
        }
        self.read_children(i, slot, count, entries)
    }

    /// Reads `count` files and directories of a directory, from the entry with the
    /// number `slot` on.
    fn read_children(
        &mut self,
        i: usize,
        slot: usize,
        count: usize,
        entries: &mut Vec<Dirent>,
    ) -> (result: Result<usize, Errno>)
        requires
            old(self).wf(),
            i < old(self)@.nodes.len(),
            slot * DENTRY_SIZE <= usize::MAX,
        ensures
            final(self).wf(),
            (final(self)@, dirents(final(entries)@), result) == children_read(
                old(self)@,
                old(self)@.nodes[i as int],
                slot as int,
                count as nat,
                dirents(old(entries)@),
            ),
            nodes_kept(old(self)@, final(self)@),
            final(self)@.vol.super_block == old(self)@.vol.super_block,
            result matches Ok(next) ==> next * DENTRY_SIZE <= usize::MAX,
    {
        let ghost d = self@.nodes[i as int];
        let ghost total = children_read(self@, d, slot as int, count as nat, dirents(entries@));
        let len: usize = self.node(i).page_cache.len();
        let slots: usize = len / DENTRY_SIZE;
        let mut here: usize = slot;
        let mut left: usize = count;
        while left > 0
            invariant
                self.wf(),
                i < old(self)@.nodes.len(),
                d == old(self)@.nodes[i as int],
                d.pages.len() == len,
                slots == len / DENTRY_SIZE,
                here * DENTRY_SIZE <= usize::MAX,
                nodes_kept(old(self)@, self@),
                self@.vol.super_block == old(self)@.vol.super_block,
                total == children_read(
                    old(self)@,
                    d,
                    slot as int,
                    count as nat,
                    dirents(old(entries)@),
                ),
                total == children_read(self@, d, here as int, left as nat, dirents(entries@)),
            decreases len + usize::MAX - here,
        {
            if here >= slots {
                return Err(Errno::ENOENT);
            }
            assert(self@.nodes[i as int] == d);
            let kind: DentryKind = dentry_kind(self.node(i).page_cache[here * DENTRY_SIZE]);
            if matches!(kind, DentryKind::File) {
                let child: usize = match self.read_single_dir(i, here) {
                    Err(e) => {
                        return Err(e);
                    },
                    Ok(child) => child,
                };
                let inode_impl = &self.node(child).inode_impl;
                let child_slots: usize = inode_impl.dentry_set_size / DENTRY_SIZE;
                if child_slots == 0 || child_slots > slots - here {
                    return Err(Errno::EIO);
                }
                let entry: Dirent = Dirent {
                    name: decode_utf16(&inode_impl.name),
                    ino: inode_impl.ino as u64,
                    type_: inode_impl.inode_type,
                    offset: here * DENTRY_SIZE,
                };
                let ghost before = entries@;
                assert(entry@ == dirent_of(self@.nodes[child as int], here as int));
                entries.push(entry);
                assert(dirents(entries@) =~= dirents(before).push(
                    dirent_of(self@.nodes[child as int], here as int),
                ));
                here = here + child_slots;
                left = left - 1;
            } else {
                here = here + 1;
            }
        }
        Ok(here)
    }
}

/// Looks for the first entry with a name.
fn find_named(entries: &Vec<Dirent>, name: &str) -> (found: Option<usize>)
    ensures
        match named_entry(dirents(entries@), name@, 0) {
            Some(k) => found is Some && found->Some_0 == k && 0 <= k < entries@.len(),
            None => found is None,
        },
{
    let mut k: usize = 0;
    while k < entries.len()
        invariant
            k <= entries@.len(),
            named_entry(dirents(entries@), name@, 0) == named_entry(
                dirents(entries@),
                name@,
                k as int,
            ),
        decreases entries@.len() - k,
    {
        if text_equal(entries[k].name.as_str(), name) {
            return Some(k);
        }
        k = k + 1;
    }
    None
}

/// Frees the clusters that an entry other than those of a file names.
fn delete_associated_secondary_clusters(volume: &mut Volume, entry: &Vec<u8>) -> (result: Result<
    (),
    Errno,
>)
    requires
        old(volume).wf(),
        entry@.len() == DENTRY_SIZE,
    ensures
        final(volume).wf(),
        (final(volume)@, result) == secondary_freed(old(volume)@, entry@),
        final(volume)@.super_block == old(volume)@.super_block,
{
    match dentry_kind(entry[0]) {
        DentryKind::VendorAlloc | DentryKind::GenericSecondary => {
            let extent: ClusterExtent = get_extent(entry, 0);
            if !volume.is_valid_cluster(extent.start_cluster) {
                return Ok(());
            }
            let cluster_size: usize = volume.cluster_size();
            let n: u32 = (extent.size as usize / cluster_size) as u32;
            let mut chain: ExfatChain = match ExfatChain::new(
                volume,
                extent.start_cluster,
                Some(n),
                FatChainFlags::alloc_possible(),
            ) {
                Err(e) => {
                    return Err(e);
                },
                Ok(chain) => chain,
            };
            chain.remove_clusters_from_tail(volume, n, true)
        },
        _ => Ok(()),
    }
}

impl ExfatFS {
    /// Looks for a name in a directory, and returns the inode, and where its entries
    /// begin and how many bytes they take.
    pub(super) fn lookup_by_name(&mut self, i: usize, name: &str) -> (result: Result<
        (ExfatInode, usize, usize),
        Errno,
    >)
        requires
            old(self).wf(),
            i < old(self)@.nodes.len(),
        ensures
            final(self).wf(),
            ({
                let (s, r) = name_found(old(self)@, i as int, name@);
                &&& final(self)@ == s
                &&& match r {
                    Ok((c, offset, len)) => result is Ok && result->Ok_0.0.id() == c
                        && result->Ok_0.0.of(s) && result->Ok_0.1 == offset && result->Ok_0.2
                        == len,
                    Err(e) => result == Err::<(ExfatInode, usize, usize), Errno>(e),
                }
            }),
            nodes_kept(old(self)@, final(self)@),
    {
        reveal(name_found);
        let num_subdir: usize = self.node(i).inode_impl.num_subdir as usize;
        let mut entries: Vec<Dirent> = Vec::new();
        assert(dirents(entries@) =~= Seq::<DirentView>::empty());
        match self.read_multiple_dirs(i, 0, num_subdir, &mut entries) {
            Err(e) => {
                return Err(e);
            },
            Ok(_) => {},
        }
        let k: usize = match find_named(&entries, name) {
            None => {
                return Err(Errno::ENOENT);
            },
            Some(k) => k,
        };
        let offset: usize = entries[k].offset;
        let chain: ExfatChain = self.node(i).inode_impl.start_chain;
        let ghost before = self@;
        let walked: Result<ExfatChainPosition, Errno> = chain.walk_to_cluster_at_offset(
            &mut self.volume,
            offset,
        );
        assert(self@ =~= before.with_vol(self.volume@));
        let position: ExfatChainPosition = match walked {
            Err(e) => {
                return Err(e);
            },
            Ok(position) => position,
        };
        let hash: u64 = make_hash_index(position.0.cluster_id(), position.1 as u32);
        match self.find_opened_inode(hash) {
            None => Err(Errno::EIO),
            Some(inode) => {
                let len: usize = self.node(inode.index).inode_impl.dentry_set_size;
                Ok((inode, offset, len))
            },
        }
    }

    /// Deletes the entries of `len` bytes at `offset` of a directory.
    pub(super) fn delete_dentry_set(&mut self, i: usize, offset: usize, len: usize) -> (result:
        Result<(), Errno>)
        requires
            old(self).wf(),
            i < old(self)@.nodes.len(),
        ensures
            final(self).wf(),
            (final(self)@, result) == entries_deleted(
                old(self)@,
                i as int,
                offset as int,
                len as int,
            ),
            final(self)@.nodes.len() == old(self)@.nodes.len(),
    {
        reveal(entries_deleted);
        let size: usize = self.node(i).page_cache.len();
        if offset > size || len > size - offset {
            return Err(Errno::EINVAL);
        }
        let mut buf: Vec<u8> = copy_range(&self.node(i).page_cache, offset, offset + len);
        let ghost set = buf@;
        let end: usize = len / DENTRY_SIZE;
        let ghost total = secondaries_freed(self@.vol, set, 0, end as int);
        let mut k: usize = 0;
        while k < end
            invariant
                self.wf(),
                self@ == old(self)@.with_vol(self@.vol),
                i < old(self)@.nodes.len(),
                k <= end,
                end == len / DENTRY_SIZE,
                set.len() == len,
                offset + len <= old(self)@.nodes[i as int].pages.len(),
                set == old(self)@.nodes[i as int].pages.subrange(
                    offset as int,
                    offset + len,
                ),
                buf@.len() == len,
                forall|j: int|
                    0 <= j < len ==> #[trigger] buf@[j] == (if j < k * DENTRY_SIZE {
                        deleted_set(set)[j]
                    } else {
                        set[j]
                    }),
                total == secondaries_freed(old(self)@.vol, set, 0, end as int),
                total == secondaries_freed(self@.vol, set, k as int, end as int),
            decreases end - k,
        {
            let entry: Vec<u8> = copy_range(&buf, k * DENTRY_SIZE, (k + 1) * DENTRY_SIZE);
            assert(entry@ =~= set.subrange(k * DENTRY_SIZE, (k + 1) * DENTRY_SIZE));
            let ghost before = self@;
            let r: Result<(), Errno> = delete_associated_secondary_clusters(
                &mut self.volume,
                &entry,
            );
            assert(self@ =~= before.with_vol(self.volume@));
            match r {
                Err(e) => {
                    reveal(entries_deleted);
                    return Err(e);
                },
                Ok(_) => {},
            }
            let first: u8 = buf[k * DENTRY_SIZE];
            buf.set(k * DENTRY_SIZE, first & 0x7F);
            k = k + 1;
        }
        assert(buf@ =~= deleted_set(set)) by {
            assert forall|j: int| 0 <= j < len implies #[trigger] buf@[j] == deleted_set(
                set,
            )[j] by {
                assert(j >= end * DENTRY_SIZE ==> j + DENTRY_SIZE > len || j % 32 != 0);
            }
        }
        self.overwrite_pages(i, offset, &buf);
        let num_subdir: u32 = self.node(i).inode_impl.num_subdir;
        if num_subdir > 0 {
            self.set_num_subdir(i, num_subdir - 1);
        }
        assert(self@ =~= entries_deleted(old(self)@, i as int, offset as int, len as int).0);
        Ok(())
    }
}

} // verus!
