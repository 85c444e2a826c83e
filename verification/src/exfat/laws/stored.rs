//! Inodes and the entries that stand for them: what an inode is made from, and what is
//! written back of it.

use vstd::prelude::*;
use crate::bytes::{le16, le32, le64};
use crate::errno::Errno;
use crate::exfat::chain::{ExfatChain, ExfatChainPosition};
use crate::exfat::constants::{DENTRY_SIZE, PAGE_SIZE};
use crate::exfat::dentry::DosTimestamp;
use crate::exfat::dentry_set::{set_at, set_name};
use crate::exfat::fs::dir::entry_added;
use crate::exfat::fs::file::{inode_resized, inode_written};
use crate::exfat::fs::io::inode_synced;
use crate::exfat::fs::namei::{created, moved};
use crate::exfat::fs::FsState;
use crate::exfat::inode::{inode_built, root_built, InodeType, InodeView};
use crate::exfat::volume::{valid_cluster, VolumeState};

verus! {

/// Whether an inode is what the entries at `at` of some bytes say: its sizes, its first
/// cluster, its attributes, its kind, and when it was made, written and read.
pub open spec fn told_by(n: InodeView, b: Seq<u8>, at: int) -> bool {
    &&& n.size == le64(b, at + 40) as usize
    &&& n.size_allocated == le64(b, at + 56) as usize
    &&& n.start_chain.current == le32(b, at + 52)
    &&& n.start_chain.flags.bits == b[at + 33] & 0x03
    &&& n.attr.bits == le16(b, at + 4) & 0x3f
    &&& n.inode_type is Dir <==> le16(b, at + 4) & 0x10 != 0
    &&& n.ctime.time == le16(b, at + 8)
    &&& n.ctime.date == le16(b, at + 10)
    &&& n.ctime.increament_10ms == b[at + 20]
    &&& n.ctime.utc_offset == b[at + 22]
    &&& n.mtime.time == le16(b, at + 12)
    &&& n.mtime.date == le16(b, at + 14)
    &&& n.mtime.increament_10ms == b[at + 21]
    &&& n.mtime.utc_offset == b[at + 23]
    &&& n.atime.time == le16(b, at + 16)
    &&& n.atime.date == le16(b, at + 18)
    &&& n.atime.increament_10ms == 0
    &&& n.atime.utc_offset == b[at + 24]
}

/// An inode that is made from entries is what they say, stands where they stand, has their
/// name and the number that it is given, and has as many clusters as its bytes need, unless
/// it has none. The entries of a file are accepted where there are three at least; a
/// directory of which not all bytes count as written is refused.
pub proof fn law_inode_built(
    v: VolumeState,
    set: Seq<u8>,
    position: ExfatChainPosition,
    entry: u32,
    parent_hash: u64,
    ino: usize,
)
    requires
        v.super_block.wf(),
    ensures
        ({
            let (w, r) = inode_built(v, set, position, entry, parent_hash, ino);
            let directory = le16(set, 4) & 0x10 != 0;
            let z = v.super_block.cluster_size as int;
            &&& set.len() < 96 ==> r == Err::<InodeView, Errno>(Errno::EINVAL)
            &&& directory && le64(set, 40) as usize != le64(set, 56) as usize ==> r == Err::<
                InodeView,
                Errno,
            >(Errno::EINVAL)
            &&& 96 <= set.len() && !directory ==> r is Ok && w == v && r->Ok_0.num_subdir == 0
                && r->Ok_0.pages.len() == 0 && (r->Ok_0.loaded <==> r->Ok_0.size == 0)
            &&& r matches Ok(n) ==> {
                &&& told_by(n, set, 0)
                &&& n.name == set_name(set)
                &&& n.ino == ino
                &&& n.dentry_set_position == position
                &&& n.dentry_set_size == set.len() as usize
                &&& n.dentry_entry == entry
                &&& n.parent_hash == parent_hash
                &&& !valid_cluster(v.super_block, n.start_chain.current as int)
                    ==> n.start_chain.num_clusters == 0
                &&& valid_cluster(v.super_block, n.start_chain.current as int)
                    && n.size_allocated <= u32::MAX * z ==> n.size_allocated
                    <= n.start_chain.num_clusters * z < n.size_allocated + z
            }
        }),
{
    let a = le16(set, 4);
    assert((a & 0x3f) & 0x10 == 0x10 <==> a & 0x10 != 0) by (bit_vector);
    let z = v.super_block.cluster_size as int;
    let size = le64(set, 56) as usize as int;
    crate::exfat::volume::lemma_cluster_size_positive(v.super_block);
    crate::arith::lemma_rounded_up(size, z);
    let p = crate::arith::pieces(size, z);
    assert(size <= u32::MAX * z ==> p <= u32::MAX) by (nonlinear_arith)
        requires
            p * z < size + z,
            0 < z,
    ;
}

/// The root directory was made, read and written when the volume was opened, is a directory
/// by its kind and its attributes, and all bytes of its clusters count as written.
pub proof fn law_root_built(v: VolumeState, chain: ExfatChain, now: DosTimestamp)
    ensures
        root_built(v, chain, now).1 matches Ok(n) ==> {
            &&& n.ino == 1
            &&& n.inode_type is Dir
            &&& n.attr.bits == 0x10
            &&& n.start_chain == chain
            &&& n.size == chain.num_clusters * v.super_block.cluster_size
            &&& n.size_allocated == n.size
            &&& n.atime == now
            &&& n.mtime == now
            &&& n.ctime == now
            &&& n.loaded
        },
{
}

/// Whether the entries at `at` of some bytes say what an inode is: its sizes, where it has
/// clusters, its first cluster, its attributes, and when it was made, written and read.
pub open spec fn tells(v: VolumeState, b: Seq<u8>, at: int, n: InodeView) -> bool {
    &&& valid_cluster(v.super_block, n.start_chain.current as int) ==> le64(b, at + 40) == n.size
        && le64(b, at + 56) == n.size_allocated
    &&& !valid_cluster(v.super_block, n.start_chain.current as int) ==> le64(b, at + 40) == 0
        && le64(b, at + 56) == 0
    &&& le32(b, at + 52) == n.start_chain.current
    &&& b[at + 33] == n.start_chain.flags.bits
    &&& le16(b, at + 4) == n.attr.bits
    &&& le16(b, at + 8) == n.ctime.time
    &&& le16(b, at + 10) == n.ctime.date
    &&& b[at + 20] == n.ctime.increament_10ms
    &&& b[at + 22] == n.ctime.utc_offset
    &&& le16(b, at + 12) == n.mtime.time
    &&& le16(b, at + 14) == n.mtime.date
    &&& b[at + 21] == n.mtime.increament_10ms
    &&& b[at + 23] == n.mtime.utc_offset
    &&& le16(b, at + 16) == n.atime.time
    &&& le16(b, at + 18) == n.atime.date
    &&& b[at + 24] == n.atime.utc_offset
}

/// Whether an inode can be written back: it is not the root, its place is one of the
/// volume, and the directory `p` that holds it is open and has its entries.
pub open spec fn has_entries(s: FsState, i: int, p: int) -> bool {
    let n = s.nodes[i];
    &&& 0 <= i < s.nodes.len()
    &&& 0 <= p < s.nodes.len()
    &&& n.ino != 1
    &&& valid_cluster(s.vol.super_block, n.dentry_set_position.0.current as int)
    &&& s.find(n.parent_hash) == Some(p as usize)
    &&& p <= usize::MAX
    &&& set_at(s.nodes[p].pages, n.dentry_entry as int) is Ok
}

/// What writing an inode back does to its entries.
pub proof fn lemma_entries_written(s: FsState, i: int, p: int, sync: bool)
    requires
        has_entries(s, i, p),
    ensures
        ({
            let n = s.nodes[i];
            let at = n.dentry_entry * DENTRY_SIZE;
            let old = s.nodes[p].pages;
            let set = set_at(old, n.dentry_entry as int)->Ok_0;
            let new = crate::exfat::fs::file::entries_of(
                set,
                crate::exfat::fs::file::without_lost_sizes(s.vol, n),
            );
            let t = inode_written(s, i, sync).0;
            &&& t.nodes.len() == s.nodes.len()
            &&& t.nodes[p].pages == crate::bytes::overwritten(old, at, new)
            &&& 0 <= at && at + set.len() <= old.len()
            &&& 64 <= set.len()
            &&& crate::exfat::dentry_set::is_set(set)
            &&& set == old.subrange(at, at + set.len())
            &&& p != i ==> t.nodes[i] == crate::exfat::fs::file::without_lost_sizes(s.vol, n)
            &&& p == i ==> t.nodes[i] == (InodeView {
                pages: t.nodes[i].pages,
                ..crate::exfat::fs::file::without_lost_sizes(s.vol, n)
            })
            &&& forall|j: int|
                0 <= j < s.nodes.len() && j != i && j != p ==> #[trigger] t.nodes[j] == s.nodes[j]
        }),
{
    reveal(inode_written);
    let n = s.nodes[i];
    let old = s.nodes[p].pages;
    let set = set_at(old, n.dentry_entry as int)->Ok_0;
    let at = n.dentry_entry * DENTRY_SIZE;
    assert(set =~= old.subrange(at, at + set.len()));
    assert(set[0] == old[at] && set[32] == old[at + 32]);
}

/// An inode that is written back is what its entries say afterwards, in the directory that
/// holds it: the bytes that count as written, the bytes there is room for, its first cluster,
/// its attributes and its times. Its name, and everything else in the directory, stays.
pub proof fn law_written_back(s: FsState, i: int, p: int, sync: bool)
    requires
        has_entries(s, i, p),
    ensures
        ({
            let n = s.nodes[i];
            let at = n.dentry_entry * DENTRY_SIZE;
            let old = s.nodes[p].pages;
            let set = set_at(old, n.dentry_entry as int)->Ok_0;
            let t = inode_written(s, i, sync).0;
            let new = t.nodes[p].pages;
            &&& tells(s.vol, new, at, n)
            &&& new.len() == old.len()
            &&& set_at(new, n.dentry_entry as int) == Ok::<Seq<u8>, Errno>(
                new.subrange(at, at + set.len()),
            )
            &&& set_name(new.subrange(at, at + set.len())) == set_name(set)
            &&& forall|k: int|
                0 <= k < old.len() && !(at <= k < at + set.len()) ==> #[trigger] new[k] == old[k]
            &&& valid_cluster(s.vol.super_block, n.start_chain.current as int) ==> t.nodes[i].size
                == n.size && t.nodes[i].size_allocated == n.size_allocated
        }),
{
    lemma_entries_written(s, i, p, sync);
    let n = s.nodes[i];
    let n1 = crate::exfat::fs::file::without_lost_sizes(s.vol, n);
    let at = n.dentry_entry * DENTRY_SIZE;
    let old = s.nodes[p].pages;
    let set = set_at(old, n.dentry_entry as int)->Ok_0;
    let f = crate::exfat::fs::file::file_entry_of(crate::exfat::dentry::file_at(set, 0), n1);
    let st = crate::exfat::fs::file::stream_entry_of(
        crate::exfat::dentry::stream_at(set, DENTRY_SIZE as int),
        n1,
    );
    let entries = crate::exfat::fs::file::entries_of(set, n1);
    assert(entries == crate::exfat::dentry_set::updated_set(set, f, st)) by {
        reveal(crate::exfat::fs::file::entries_of);
    }
    crate::exfat::laws::entry::law_updated_set(set, f, st);
    crate::exfat::laws::entry::law_updated_set_keeps_name(set, f, st);
    let new = inode_written(s, i, sync).0.nodes[p].pages;
    assert(new.subrange(at, at + set.len()) =~= entries);
    assert forall|k: int| 0 <= k < entries.len() implies #[trigger] entries[k] == new[at + k] by {}
    assert(crate::exfat::dentry::file_at(entries, 0) == crate::exfat::dentry::file_at(new, at));
    assert(crate::exfat::dentry::stream_at(entries, 32) == crate::exfat::dentry::stream_at(
        new,
        at + 32,
    ));
    assert(new[at] == old[at]) by {
        assert(entries[0] == set[0]);
    }
    assert(new[at + 32] == old[at + 32]) by {
        assert(entries[32] == set[32]);
    }
    assert(new[at + 1] == old[at + 1]) by {
        assert(entries[1] == set[1]);
    }
}

/// An inode that was written back is found again as it was left: what is made from its
/// entries has the same sizes, attributes, clusters, times and name. Entries do not hold the
/// hundredths of a second at which an inode was read.
pub proof fn law_found_again(
    s: FsState,
    i: int,
    p: int,
    sync: bool,
    v: VolumeState,
    position: ExfatChainPosition,
    entry: u32,
    parent_hash: u64,
    ino: usize,
)
    requires
        has_entries(s, i, p),
        v.super_block.wf(),
        valid_cluster(s.vol.super_block, s.nodes[i].start_chain.current as int),
    ensures
        ({
            let n = s.nodes[i];
            let t = inode_written(s, i, sync).0;
            let old = set_at(s.nodes[p].pages, n.dentry_entry as int)->Ok_0;
            let set = set_at(t.nodes[p].pages, n.dentry_entry as int)->Ok_0;
            let r = inode_built(v, set, position, entry, parent_hash, ino).1;
            &&& set_at(t.nodes[p].pages, n.dentry_entry as int) is Ok
            &&& n.attr.bits & 0x10 == 0 && 96 <= old.len() ==> r is Ok
            &&& r matches Ok(m) ==> {
                &&& m.size == n.size
                &&& m.size_allocated == n.size_allocated
                &&& m.start_chain.current == n.start_chain.current
                &&& m.start_chain.flags.bits == n.start_chain.flags.bits & 0x03
                &&& m.attr.bits == n.attr.bits & 0x3f
                &&& m.ctime == n.ctime
                &&& m.mtime == n.mtime
                &&& m.atime == (DosTimestamp { increament_10ms: 0, ..n.atime })
                &&& m.name == set_name(old)
                &&& m.inode_type is Dir <==> n.attr.bits & 0x10 != 0
            }
        }),
{
    law_written_back(s, i, p, sync);
    let n = s.nodes[i];
    let at = n.dentry_entry * DENTRY_SIZE;
    let new = inode_written(s, i, sync).0.nodes[p].pages;
    let set = set_at(new, n.dentry_entry as int)->Ok_0;
    lemma_entries_written(s, i, p, sync);
    assert forall|k: int| 0 <= k < set.len() implies #[trigger] set[k] == new[at + k] by {}
    law_inode_built(v, set, position, entry, parent_hash, ino);
}

/// What is made from entries is what they say, whatever volume they stand on.
proof fn lemma_told_by(
    v: VolumeState,
    set: Seq<u8>,
    position: ExfatChainPosition,
    entry: u32,
    parent_hash: u64,
    ino: usize,
)
    ensures
        inode_built(v, set, position, entry, parent_hash, ino).1 matches Ok(n) ==> told_by(
            n,
            set,
            0,
        ) && n.ino == ino && n.name == set_name(set),
{
    let a = le16(set, 4);
    assert((a & 0x3f) & 0x10 == 0x10 <==> a & 0x10 != 0) by (bit_vector);
}

/// An inode that was written back as a whole is what its entries say afterwards.
pub proof fn law_synced(s: FsState, i: int, p: int)
    requires
        has_entries(s, i, p),
        inode_synced(s, i).1 is Ok,
    ensures
        ({
            let n = s.nodes[i];
            let at = n.dentry_entry * DENTRY_SIZE;
            let t = inode_synced(s, i).0;
            &&& tells(s.vol, t.nodes[p].pages, at, n)
            &&& valid_cluster(s.vol.super_block, n.start_chain.current as int) ==> t.nodes[i].size
                == n.size && t.nodes[i].size_allocated == n.size_allocated
        }),
{
    let n = s.nodes[i];
    let kept = crate::exfat::fs::io::lesser(n.ino as int, n.pages.len() as int);
    crate::exfat::page::lemma_pages_written_frame(
        s.vol,
        n.start_chain,
        n.pages,
        0int / (PAGE_SIZE as int),
        crate::arith::pieces(kept, PAGE_SIZE as int),
    );
    let s1 = crate::exfat::fs::file::node_range_written(s, i, 0, kept).0;
    assert(has_entries(s1, i, p));
    law_written_back(s1, i, p, true);
}

/// Resizing an inode leaves as many bytes of it as were written and are left, gives it room
/// for the bytes that were asked for, and says so in its entries. Where it has no clusters
/// then, it has no bytes either.
pub proof fn law_resize_told(s: FsState, i: int, p: int, new_size: usize)
    requires
        has_entries(s, i, p),
        inode_resized(s, i, new_size).1 is Ok,
    ensures
        ({
            let n = s.nodes[i];
            let at = n.dentry_entry * DENTRY_SIZE;
            let t = inode_resized(s, i, new_size).0;
            let m = t.nodes[i];
            let b = t.nodes[p].pages;
            let left = if n.size <= new_size {
                n.size
            } else {
                new_size
            };
            &&& t.vol.super_block == s.vol.super_block
            &&& le32(b, at + 52) == m.start_chain.current
            &&& if valid_cluster(s.vol.super_block, m.start_chain.current as int) {
                &&& m.size == left && m.size_allocated == new_size
                &&& le64(b, at + 40) == left && le64(b, at + 56) == new_size
            } else {
                &&& m.size == 0 && m.size_allocated == 0
                &&& le64(b, at + 40) == 0 && le64(b, at + 56) == 0
            }
            &&& m.atime == n.atime && m.mtime == n.mtime && m.ctime == n.ctime
            &&& m.attr == n.attr && m.name == n.name && m.inode_type == n.inode_type
        }),
{
    reveal(inode_resized);
    let n = s.nodes[i];
    let have = n.start_chain.num_clusters;
    let want = crate::arith::pieces(new_size as int, s.vol.super_block.cluster_size as int) as u32;
    if want > have {
        crate::exfat::chain::lemma_chain_extended_frame(
            s.vol,
            n.start_chain,
            (want - have) as u32,
            true,
        );
    } else if want < have {
        crate::exfat::chain::lemma_chain_shortened_frame(
            s.vol,
            n.start_chain,
            (have - want) as u32,
            true,
        );
    }
    let (s1, r1) = crate::exfat::fs::file::clusters_adjusted(s, i, new_size);
    let s2 = s1.with_node(i, InodeView { size_allocated: new_size, ..s1.nodes[i] });
    assert(s2.nodes[p].pages == s.nodes[p].pages);
    assert(has_entries(s2, i, p));
    law_written_back(s2, i, p, true);
    lemma_entries_written(s2, i, p, true);
    lemma_written_layout(s2, i, true);
}

/// Writing an inode back leaves the layout of the volume alone.
proof fn lemma_written_layout(s: FsState, i: int, sync: bool)
    ensures
        inode_written(s, i, sync).0.vol.super_block == s.vol.super_block,
{
    reveal(inode_written);
    let n = s.nodes[i];
    match s.find(n.parent_hash) {
        Some(p) => match set_at(s.nodes[p as int].pages, n.dentry_entry as int) {
            Ok(set) => {
                let n1 = crate::exfat::fs::file::without_lost_sizes(s.vol, n);
                let s1 = s.with_node(i, n1);
                let at = n.dentry_entry * DENTRY_SIZE;
                let parent = s1.nodes[p as int];
                let pages = crate::bytes::overwritten(
                    parent.pages,
                    at,
                    crate::exfat::fs::file::entries_of(set, n1),
                );
                let s2 = s1.with_node(p as int, InodeView { pages, ..parent });
                crate::exfat::page::lemma_pages_written_frame(
                    s2.vol,
                    s2.nodes[p as int].start_chain,
                    s2.nodes[p as int].pages,
                    at / (PAGE_SIZE as int),
                    crate::arith::pieces(at + set.len(), PAGE_SIZE as int),
                );
            },
            Err(_) => {},
        },
        None => {},
    }
}

/// Whether an inode is new: nothing was written to it, it has no clusters and no entries, it
/// was made and written now and read now, as far as entries hold that, and its attributes
/// tell nothing but whether it is a directory.
pub open spec fn is_new(n: InodeView, inode_type: InodeType, now: DosTimestamp) -> bool {
    &&& n.inode_type == inode_type
    &&& n.attr.bits == (if inode_type is Dir {
        0x10u16
    } else {
        0u16
    })
    &&& n.size == 0
    &&& n.size_allocated == 0
    &&& n.start_chain.current == 0
    &&& n.ctime == now
    &&& n.mtime == now
    &&& n.atime == (DosTimestamp { increament_10ms: 0, ..now })
}

/// What adds an entry to a directory gives it a new inode, which has the next number.
proof fn lemma_entry_is_new(
    s: FsState,
    i: int,
    name: Seq<char>,
    inode_type: InodeType,
    now: DosTimestamp,
)
    requires
        0 <= i < s.nodes.len() <= usize::MAX,
        entry_added(s, i, name, inode_type, now).1 is Ok,
    ensures
        ({
            let (t, c) = entry_added(s, i, name, inode_type, now);
            let n = t.nodes[c->Ok_0 as int];
            &&& c->Ok_0 == s.nodes.len()
            &&& t.nodes.len() == s.nodes.len() + 1
            &&& is_new(n, inode_type, now)
            &&& n.ino == s.next_ino
            &&& s.next_ino < usize::MAX ==> t.next_ino == s.next_ino + 1
            &&& forall|j: int|
                0 <= j < s.nodes.len() && j != i ==> #[trigger] t.nodes[j] == s.nodes[j]
            &&& same_but_growth(s.nodes[i], t.nodes[i])
        }),
{
    reveal(entry_added);
    let units = crate::text::utf16(name);
    crate::text::lemma_utf16_len(name);
    let (s1, r1) = crate::exfat::fs::dir::first_cluster_taken(s, i);
    let (s2, r2) = crate::exfat::fs::dir::slots_found(
        s1,
        i,
        crate::exfat::fs::dir::slots_wanted(name),
    );
    assert(s2.nodes.len() == s.nodes.len() && s2.next_ino == s.next_ino);
    let slot = r2->Ok_0;
    let set = crate::exfat::dentry_set::new_set(units, inode_type is Dir, now);
    crate::exfat::laws::format::law_new_entries(units, inode_type is Dir, now);
    let (v, r) = crate::exfat::chain::chain_walk_to_offset(
        s2.vol,
        s2.nodes[i].start_chain,
        (slot * DENTRY_SIZE) as usize,
    );
    let d = crate::exfat::fs::dir::with_set(
        s2.nodes[i],
        slot as int,
        crate::exfat::fs::dir::slots_wanted(name),
        set,
    );
    lemma_told_by(
        v,
        set,
        r->Ok_0,
        slot as u32,
        crate::exfat::inode::inode_hash(d),
        s2.next_ino,
    );
    assert(0x10u16 & 0x3f == 0x10 && 0x10u16 & 0x10 != 0 && 0u16 & 0x3f == 0 && 0u16 & 0x10 == 0)
        by (bit_vector);
}

/// Whether a directory differs from another state of it in its clusters, sizes, pages and
/// number of entries at most.
pub open spec fn same_but_growth(a: InodeView, b: InodeView) -> bool {
    b == (InodeView {
        start_chain: b.start_chain,
        size: b.size,
        size_allocated: b.size_allocated,
        pages: b.pages,
        num_subdir: b.num_subdir,
        ..a
    })
}

/// What is made in a directory is new, is of the kind that was asked for, was made now, and has
/// a number of its own, the next one.
pub proof fn law_created_is_new(
    s: FsState,
    i: int,
    name: Seq<char>,
    inode_type: InodeType,
    now: DosTimestamp,
)
    requires
        ({
            let s1 = crate::exfat::fs::dir::name_found(s, i, name).0;
            0 <= i < s1.nodes.len() <= usize::MAX
        }),
        created(s, i, name, inode_type, now).1 is Ok,
    ensures
        ({
            let s1 = crate::exfat::fs::dir::name_found(s, i, name).0;
            let (t, c) = created(s, i, name, inode_type, now);
            let n = t.nodes[c->Ok_0 as int];
            &&& is_new(n, inode_type, now)
            &&& n.ino == s1.next_ino
            &&& s1.next_ino < usize::MAX ==> t.next_ino == s1.next_ino + 1
            &&& c->Ok_0 == s1.nodes.len()
            &&& t.nodes.len() == s1.nodes.len() + 1
        }),
{
    let s1 = crate::exfat::fs::dir::name_found(s, i, name).0;
    lemma_entry_is_new(s1, i, name, inode_type, now);
}

/// An inode that is moved keeps its number, kind, attributes, clusters, sizes and contents, and
/// counts as made, written and read when it was moved. What is held by a directory that is
/// moved is held by it afterwards.
pub proof fn law_moved_inode(
    s: FsState,
    i: int,
    c: int,
    offset: int,
    len: int,
    t: int,
    new_name: Seq<char>,
    now: DosTimestamp,
)
    requires
        0 <= i < s.nodes.len(),
        0 <= t < s.nodes.len() <= usize::MAX,
        0 <= c < s.nodes.len(),
        c != i,
        c != t,
        s.nodes[c].parent_hash != crate::exfat::inode::inode_hash(s.nodes[c]),
        moved(s, i, c, offset, len, t, new_name, now).1 is Ok,
    ensures
        ({
            let n = s.nodes[c];
            let f = moved(s, i, c, offset, len, t, new_name, now).0;
            let m = f.nodes[c];
            let old_hash = crate::exfat::inode::inode_hash(n);
            &&& m.ino == n.ino && m.inode_type == n.inode_type && m.attr == n.attr
            &&& m.start_chain == n.start_chain && m.size == n.size && m.size_allocated
                == n.size_allocated && m.pages == n.pages && m.loaded == n.loaded && m.num_subdir
                == n.num_subdir
            &&& m.ctime == now
            &&& m.mtime == now
            &&& m.atime == (DosTimestamp { increament_10ms: 0, ..now })
            &&& n.inode_type is Dir ==> forall|q: int|
                0 <= q < s.nodes.len() && q != c && (#[trigger] s.nodes[q]).parent_hash == old_hash
                    ==> f.nodes[q].parent_hash == moved_hash(s, i, c, offset, len, t, new_name, now)
        }),
{
    reveal(moved);
    let n = s.nodes[c];
    lemma_entry_is_new(s, t, new_name, n.inode_type, now);
    reveal(crate::exfat::fs::dir::entries_deleted);
}

/// The hash of an inode after it was moved.
pub open spec fn moved_hash(
    s: FsState,
    i: int,
    c: int,
    offset: int,
    len: int,
    t: int,
    new_name: Seq<char>,
    now: DosTimestamp,
) -> u64 {
    crate::exfat::inode::inode_hash(moved(s, i, c, offset, len, t, new_name, now).0.nodes[c])
}

} // verus!
