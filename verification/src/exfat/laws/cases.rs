//! What is missing, out of bounds or cut short: which error comes of it, and what stays.

use vstd::prelude::*;
use crate::bytes::{le32, le64};
use crate::errno::Errno;
use crate::exfat::chain::ExfatChain;
use crate::exfat::dentry::{DentryKind, DosTimestamp};
use crate::exfat::disk::Faults;
use crate::exfat::fat::{ClusterID, FatChainFlags, FatValue};
use crate::exfat::fs::dir::DirentView;
use crate::exfat::fs::FsState;
use crate::exfat::inode::InodeView;
use crate::exfat::laws::chain::{is_chain, taken, vol_ok};
use crate::exfat::mount::MountView;
use crate::exfat::volume::VolumeState;

verus! {

/// The inode numbers follow each other, and begin again with zero behind the largest; nothing
/// else changes when one is taken.
pub proof fn law_numbers_taken(s: FsState)
    ensures
        ({
            let t = s.with_ino_taken();
            &&& s.next_ino < usize::MAX ==> t.next_ino == s.next_ino + 1
            &&& s.next_ino == usize::MAX ==> t.next_ino == 0
            &&& t.vol == s.vol && t.nodes == s.nodes && t.opened == s.opened
            &&& t.mount == s.mount && t.upcase == s.upcase
        }),
{
}

/// A chain that the FAT links has no cluster behind its last one.
pub proof fn law_chain_ends(v: VolumeState, chain: ExfatChain, cs: Seq<ClusterID>, k: u32)
    requires
        vol_ok(v),
        is_chain(v, chain, cs),
        !chain.flags.contiguous(),
        0 < cs.len() <= k,
    ensures
        crate::exfat::chain::chain_cluster(v, chain, k).1 == Err::<ClusterID, Errno>(Errno::EIO),
        crate::exfat::chain::chain_walk(v, chain, k).1 == Err::<ExfatChain, Errno>(Errno::EIO),
{
    assert forall|j: int| 0 <= j < cs.len() implies crate::exfat::laws::fat::real_cluster(
        v,
        #[trigger] cs[j] as int,
    ) by {
        assert(taken(v, cs[j]));
    }
    lemma_walk_ends(v, cs, 0, k as nat);
}

/// Following the FAT past the end of linked clusters.
proof fn lemma_walk_ends(v: VolumeState, cs: Seq<ClusterID>, from: int, steps: nat)
    requires
        vol_ok(v),
        crate::exfat::laws::chain::linked(v, cs),
        crate::exfat::laws::chain::all_real(v, cs),
        0 <= from < cs.len() <= from + steps,
    ensures
        crate::exfat::chain::fat_walk(v, cs[from], steps).1 == Err::<ClusterID, Errno>(Errno::EIO),
    decreases steps,
{
    reveal(crate::exfat::laws::chain::link);
    let c = cs[from];
    assert(crate::exfat::laws::fat::real_cluster(v, c as int));
    crate::exfat::laws::fat::law_fat_read_coherent(v, c);
    let (w, r) = crate::exfat::volume::fat_read(v, c);
    assert(crate::exfat::laws::chain::fat_of(v, c) == Ok::<FatValue, Errno>(
        crate::exfat::laws::chain::link(cs, from),
    ));
    if from + 1 < cs.len() {
        assert forall|k: int| 0 <= k < cs.len() implies crate::exfat::laws::chain::fat_of(
            w,
            #[trigger] cs[k],
        ) == crate::exfat::laws::chain::fat_of(v, cs[k]) by {}
        lemma_walk_ends(w, cs, from + 1, (steps - 1) as nat);
    }
}

/// A chain whose clusters follow each other reaches as far as cluster numbers do: behind that
/// there is nothing, it does not grow there, and its clusters cannot be counted in the FAT.
pub proof fn law_following_clusters(v: VolumeState, chain: ExfatChain, k: u32)
    requires
        chain.flags.bits & 0x03 == 0x03,
    ensures
        chain.current + k <= u32::MAX ==> crate::exfat::chain::chain_cluster(v, chain, k) == (
            v,
            Ok::<ClusterID, Errno>((chain.current + k) as u32),
        ),
        chain.current + k > u32::MAX ==> crate::exfat::chain::chain_cluster(v, chain, k) == (
            v,
            Err::<ClusterID, Errno>(Errno::EIO),
        ),
        0 < k <= crate::exfat::bitmap::count_free(v.bits) && chain.num_clusters + k <= u32::MAX
            && 0 < chain.num_clusters && 2 <= chain.current <= v.super_block.num_clusters
            && chain.current + chain.num_clusters > u32::MAX
            ==> crate::exfat::chain::chain_extended(v, chain, k, true) == (
            v,
            chain,
            Err::<(), Errno>(Errno::EIO),
        ),
        2 <= chain.current <= v.super_block.num_clusters ==> crate::exfat::chain::chain_new(
            v,
            chain.current,
            None,
            chain.flags,
        ) == (v, Err::<ExfatChain, Errno>(Errno::EIO)),
{
    reveal(crate::exfat::chain::chain_grown);
}

/// A chain does not grow by more clusters than are free, nor past what can be counted.
pub proof fn law_too_many_clusters(v: VolumeState, chain: ExfatChain, n: u32, sync: bool)
    requires
        0 < n,
        n > crate::exfat::bitmap::count_free(v.bits) || chain.num_clusters + n > u32::MAX,
    ensures
        crate::exfat::chain::chain_extended(v, chain, n, sync) == (
            v,
            chain,
            Err::<(), Errno>(Errno::ENOSPC),
        ),
{
    reveal(crate::exfat::chain::chain_grown);
}

/// The two numbers before the first cluster have no sectors.
pub proof fn law_no_sector(v: VolumeState, chain: ExfatChain, sector_id: usize)
    requires
        chain.flags.bits & 0x03 == 0x03,
        v.super_block.wf(),
        chain.current < 2,
        sector_id < v.super_block.sect_per_cluster,
    ensures
        crate::exfat::page::sector_of(v, chain, sector_id).1 is Err,
        sector_id == 0 ==> crate::exfat::page::sector_of(v, chain, sector_id) == (
            v,
            Err::<u64, Errno>(Errno::EIO),
        ),
{
    let a = sector_id as int;
    let b = v.super_block.sect_per_cluster as int;
    vstd::arithmetic::div_mod::lemma_basic_div(a, b);
    assert(0 * v.super_block.sector_size == 0) by (nonlinear_arith);
    crate::exfat::volume::lemma_cluster_size_positive(v.super_block);
    if sector_id == 0 {
        vstd::arithmetic::div_mod::lemma_div_of0(v.super_block.cluster_size as int);
    }
}

/// Pages are written only as far as there are any: where the range reaches past them, an error
/// comes back, and nothing is written where not even the first page is there.
pub proof fn law_pages_missing(
    v: VolumeState,
    chain: ExfatChain,
    pages: Seq<u8>,
    idx: int,
    end: int,
)
    requires
        0 <= idx < end,
        pages.len() < 4096 * end,
    ensures
        crate::exfat::page::pages_written(v, chain, pages, idx, end).1 is Err,
        pages.len() < 4096 * (idx + 1) ==> crate::exfat::page::pages_written(
            v,
            chain,
            pages,
            idx,
            end,
        ) == (v, Err::<(), Errno>(Errno::EINVAL)),
    decreases end - idx,
{
    if 4096 * (idx + 1) <= pages.len() {
        let (v1, r) = crate::exfat::page::page_written(
            v,
            chain,
            idx,
            pages.subrange(idx * 4096, (idx + 1) * 4096),
        );
        if r is Ok {
            law_pages_missing(v1, chain, pages, idx + 1, end);
        }
    }
}

/// No page is read that begins behind the end of what is to be read.
pub proof fn law_page_behind_the_end(v: VolumeState, chain: ExfatChain, size: int, idx: int)
    requires
        size < 4096 * idx,
    ensures
        crate::exfat::page::page_read(v, chain, size, idx) == (
            v,
            Err::<Seq<u8>, Errno>(Errno::EINVAL),
        ),
{
}

/// Where a directory has no more files or directories, asking for more fails, and what was read
/// before stays.
pub proof fn law_no_more_children(
    s: FsState,
    d: InodeView,
    slot: int,
    count: nat,
    before: Seq<DirentView>,
)
    requires
        0 <= slot,
        0 < count,
        forall|t: int| slot <= t && 32 * (t + 1) <= d.pages.len() ==> #[trigger] d.pages[t * 32]
            != 0x85,
    ensures
        crate::exfat::fs::dir::children_read(s, d, slot, count, before) == (
            s,
            before,
            Err::<usize, Errno>(Errno::ENOENT),
        ),
    decreases d.pages.len() - slot * 32,
{
    if crate::exfat::dentry::has_slot(d.pages, slot) {
        assert(d.pages[slot * 32] != 0x85);
        law_no_more_children(s, d, slot + 1, count, before);
    }
}

/// Nothing is read of what is no directory. The entries of an open inode are not read where
/// they are too short to be any, or reach past the pages of their directory.
pub proof fn law_child_out_of_bounds(s: FsState, d: InodeView, slot: int)
    ensures
        !(d.inode_type is Dir) ==> crate::exfat::fs::dir::child_read(s, d, slot) == (
            s,
            Err::<usize, Errno>(Errno::ENOTDIR),
        ),
        ({
            let (v, at) = crate::exfat::chain::chain_walk_to_offset(
                s.vol,
                d.start_chain,
                (slot * 32) as usize,
            );
            let hash = crate::exfat::inode::hash_of_position(at->Ok_0);
            let size = s.nodes[s.opened[hash] as int].dentry_set_size;
            let (t, r) = crate::exfat::fs::dir::child_read(s, d, slot);
            d.inode_type is Dir && at is Ok && s.opened.contains_key(hash) ==> {
                &&& t == (FsState { vol: v, ..s })
                &&& size < 32 ==> r == Err::<usize, Errno>(Errno::EIO)
                &&& 32 <= size && size % 32 == 0 && 32 * slot + size > d.pages.len() ==> r == Err::<
                    usize,
                    Errno,
                >(Errno::ENOENT)
                &&& 32 <= size && size % 32 == 0 && 32 * slot + size <= d.pages.len() ==> r == Ok::<
                    usize,
                    Errno,
                >(s.opened[hash])
            }
        }),
{
}

/// Entries that reach past the pages of a directory are not deleted.
pub proof fn law_deleting_out_of_bounds(s: FsState, i: int, offset: int, len: int)
    requires
        s.nodes[i].pages.len() < offset + len,
    ensures
        crate::exfat::fs::dir::entries_deleted(s, i, offset, len) == (
            s,
            Err::<(), Errno>(Errno::EINVAL),
        ),
{
    reveal(crate::exfat::fs::dir::entries_deleted);
}

/// Entries are written back for what has some: the root has none, nor has an inode without a
/// place in its directory, and then all stays as it is. Where its directory is not open, an
/// error comes back.
pub proof fn law_no_entries_to_write(s: FsState, i: int, sync: bool)
    ensures
        ({
            let n = s.nodes[i];
            let r = crate::exfat::fs::file::inode_written(s, i, sync);
            let place = n.dentry_set_position.0.current;
            let placed = 2 <= place <= s.vol.super_block.num_clusters;
            &&& n.ino == 1 || !placed ==> r == (s, Ok::<(), Errno>(()))
            &&& n.ino != 1 && placed && !s.opened.contains_key(n.parent_hash) ==> r == (
                s,
                Err::<(), Errno>(Errno::EIO),
            )
        }),
{
    reveal(crate::exfat::fs::file::inode_written);
}

/// Entries go to the disk where that is asked for; otherwise only those in memory change.
pub proof fn law_entries_kept_in_memory(s: FsState, i: int)
    ensures
        crate::exfat::fs::file::inode_written(s, i, false).0.vol == s.vol,
{
    reveal(crate::exfat::fs::file::inode_written);
}

/// A bitmap that begins before the first cluster is neither written nor read.
pub proof fn law_bitmap_nowhere(v: VolumeState, start: ClusterID)
    ensures
        v.bitmap_start < 2 ==> crate::exfat::volume::bitmap_written(v) == (
            v,
            Err::<(), Errno>(Errno::EIO),
        ),
        start < 2 ==> crate::exfat::volume::bitmap_on_disk(v, start) == Err::<Seq<bool>, Errno>(
            Errno::EINVAL,
        ),
{
}

/// A root directory that is too large to be counted in bytes is refused.
pub proof fn law_root_too_large(v: VolumeState, chain: ExfatChain, now: DosTimestamp)
    requires
        chain.num_clusters * v.super_block.cluster_size > usize::MAX,
    ensures
        crate::exfat::inode::root_built(v, chain, now) == (
            v,
            Err::<InodeView, Errno>(Errno::EIO),
        ),
{
}

/// A volume that was just opened has one inode, the root with the number one, which is open;
/// the next inode gets the number two.
pub proof fn law_just_opened(disk: Seq<u8>, faults: Faults, mount: MountView, now: DosTimestamp)
    requires
        crate::exfat::fs::mounting::fs_opened(disk, faults, mount, now) is Ok,
    ensures
        ({
            let s = crate::exfat::fs::mounting::fs_opened(disk, faults, mount, now)->Ok_0;
            &&& s.nodes.len() == 1
            &&& s.nodes[0].ino == 1
            &&& s.next_ino == 2
            &&& s.mount == mount
            &&& forall|hash: u64| #[trigger] s.opened.contains_key(hash) <==> hash == 0
            &&& s.opened[0] == 0
        }),
{
}

/// What an entry holds that belongs to a file or directory but is none of those that the format
/// knows is freed with it; an entry of another kind has nothing to free, nor has one that names
/// no cluster.
pub proof fn law_secondary_freed(v: VolumeState, entry: Seq<u8>, cs: Seq<ClusterID>)
    requires
        v.super_block.wf(),
        le64(entry, 24) <= u32::MAX,
    ensures
        ({
            let kind = entry[0];
            let frees = kind == 0xe1 || (0xc2 <= kind && kind != 0xe0);
            let first = le32(entry, 20);
            let z = v.super_block.cluster_size as int;
            let chain = ExfatChain {
                current: first,
                num_clusters: cs.len() as u32,
                flags: FatChainFlags { bits: 0x01 },
            };
            let (w, r) = crate::exfat::fs::dir::secondary_freed(v, entry);
            &&& !frees || first < 2 || v.super_block.num_clusters < first ==> w == v && r is Ok
            &&& frees && 0 < cs.len() && cs.len() * z <= le64(entry, 24) < (cs.len() + 1) * z
                && vol_ok(v) && is_chain(v, chain, cs) ==> {
                &&& r is Ok
                &&& vol_ok(w)
                &&& forall|k: int| 0 <= k < cs.len() ==> !taken(w, #[trigger] cs[k])
                &&& crate::exfat::bitmap::count_free(w.bits) == crate::exfat::bitmap::count_free(
                    v.bits,
                ) + cs.len()
            }
        }),
{
    let kind = entry[0];
    let frees = kind == 0xe1 || (0xc2 <= kind && kind != 0xe0);
    let z = v.super_block.cluster_size as int;
    let size = le64(entry, 24) as int;
    let m = cs.len() as int;
    let chain = ExfatChain {
        current: le32(entry, 20),
        num_clusters: cs.len() as u32,
        flags: FatChainFlags { bits: 0x01 },
    };
    crate::exfat::laws::format::law_kinds(kind);
    if frees && 0 < m && m * z <= size < (m + 1) * z && vol_ok(v) && is_chain(v, chain, cs) {
        crate::exfat::volume::lemma_cluster_size_positive(v.super_block);
        assert(taken(v, cs[0]));
        assert(size / z == m) by (nonlinear_arith)
            requires
                0 < z,
                m * z <= size < (m + 1) * z,
        ;
        crate::exfat::laws::chain::law_chain_shortened(v, chain, cs, m as u32, true);
    }
}

/// Nothing is read of pages that are not there, nor written to them.
pub proof fn law_no_such_pages(s: FsState, i: int, offset: int, bytes: Seq<u8>)
    requires
        0 <= offset,
        0 <= i < s.nodes.len(),
        s.nodes[i].inode_type is File,
        s.nodes[i].loaded,
        offset + bytes.len() <= s.nodes[i].size,
        s.nodes[i].pages.len() < offset + bytes.len(),
    ensures
        crate::exfat::fs::io::file_bytes_read(s, i, offset, bytes.len() as int) == (
            s,
            Err::<Seq<u8>, Errno>(Errno::EINVAL),
        ),
        crate::exfat::fs::io::file_written(s, i, offset, bytes) == (
            s,
            Err::<usize, Errno>(Errno::EINVAL),
        ),
{
}

/// A disk that does not begin with a whole boot sector, or with one that is not valid, is not
/// opened; where the boot sector cannot be read, the error is that of reading it.
pub proof fn law_not_booted(disk: Seq<u8>, faults: Faults, mount: MountView, now: DosTimestamp)
    ensures
        ({
            let r = crate::exfat::fs::mounting::fs_opened(disk, faults, mount, now);
            let fails = faults.reads.contains_key((0, 512));
            &&& disk.len() < 512 ==> r == Err::<FsState, Errno>(Errno::EINVAL)
            &&& 512 <= disk.len() && fails ==> r == Err::<FsState, Errno>(faults.reads[(0, 512)])
            &&& 512 <= disk.len() && !fails && !crate::exfat::super_block::boot_sector_valid(
                disk.subrange(0, 512),
            ) ==> r == Err::<FsState, Errno>(Errno::EINVAL)
        }),
{
}

/// A volume whose root directory has no entry of a bitmap, or none of an up-case table, is not
/// opened.
pub proof fn law_tables_missing(
    v: VolumeState,
    chain: ExfatChain,
    mount: MountView,
    now: DosTimestamp,
    first: u8,
)
    requires
        first == 0x81 || first == 0x82,
        ({
            let r = crate::exfat::inode::root_built(v, chain, now).1;
            r is Ok && forall|t: int|
                0 <= t && 32 * (t + 1) <= r->Ok_0.pages.len() ==> #[trigger] r->Ok_0.pages[t * 32]
                    != first
        }),
    ensures
        crate::exfat::fs::mounting::fs_opened_at(v, chain, mount, now) == Err::<FsState, Errno>(
            Errno::EINVAL,
        ),
{
    let pages = crate::exfat::inode::root_built(v, chain, now).1->Ok_0.pages;
    lemma_no_such_kind(pages, first, 0);
}

/// A search for an entry of a kind that is not there.
proof fn lemma_no_such_kind(pages: Seq<u8>, first: u8, slot: int)
    requires
        0 <= slot,
        forall|t: int| slot <= t && 32 * (t + 1) <= pages.len() ==> #[trigger] pages[t * 32]
            != first,
    ensures
        first == 0x81 ==> crate::exfat::fs::mounting::slot_of_kind(
            pages,
            DentryKind::Bitmap,
            slot,
        ) is None,
        first == 0x82 ==> crate::exfat::fs::mounting::slot_of_kind(
            pages,
            DentryKind::Upcase,
            slot,
        ) is None,
    decreases pages.len() - slot * 32,
{
    if crate::exfat::dentry::has_slot(pages, slot) {
        assert(pages[slot * 32] != first);
        lemma_no_such_kind(pages, first, slot + 1);
    }
}

/// Where a directory cannot be listed, nothing is found in it, removed from it or renamed, and
/// the error is that of listing it.
pub proof fn law_unreadable_directory(
    s: FsState,
    i: int,
    t: int,
    name: Seq<char>,
    other: Seq<char>,
    now: DosTimestamp,
)
    requires
        s.nodes[i].inode_type is Dir,
        s.nodes[t].inode_type is Dir,
        vstd::utf8::encode_utf8(name).len() <= 255,
        vstd::utf8::encode_utf8(other).len() <= 255,
        name != seq!['.'] && name != seq!['.', '.'],
        other != seq!['.'] && other != seq!['.', '.'],
        name != other,
        crate::exfat::fs::namei::listed(s, i, 0, Seq::empty()).2 is Err,
    ensures
        ({
            let e = crate::exfat::fs::namei::listed(s, i, 0, Seq::empty()).2->Err_0;
            &&& crate::exfat::fs::namei::looked_up(s, i, name).1 == Err::<usize, Errno>(e)
            &&& crate::exfat::fs::namei::unlinked(s, i, name).1 == Err::<(), Errno>(e)
            &&& crate::exfat::fs::namei::directory_removed(s, i, name).1 == Err::<(), Errno>(e)
            &&& crate::exfat::fs::namei::renamed(s, i, name, t, other, now).1 == Err::<(), Errno>(e)
        }),
{
    reveal(crate::exfat::fs::dir::name_found);
}

/// Where the clusters of an inode cannot be given back or taken, or its entries not be written,
/// it is neither resized nor removed nor written behind its end, and the error is the same.
pub proof fn law_resizing_fails(s: FsState, i: int, c: int, new_size: usize, bytes: Seq<u8>)
    requires
        0 <= c < s.nodes.len(),
    ensures
        ({
            let r = crate::exfat::fs::file::inode_resized(s, c, new_size).1;
            &&& r is Ok ==> crate::exfat::fs::file::file_resized(s, c, new_size).1 is Ok
            &&& r is Err ==> crate::exfat::fs::file::file_resized(s, c, new_size).1 == Err::<
                (),
                Errno,
            >(r->Err_0)
            &&& r is Err && s.nodes[c].inode_type is File && s.nodes[c].loaded && s.nodes[c].size
                < new_size && bytes.len() <= new_size ==> crate::exfat::fs::io::file_written(
                s,
                c,
                new_size - bytes.len(),
                bytes,
            ).1 == Err::<usize, Errno>(r->Err_0)
        }),
        crate::exfat::fs::file::inode_resized(s, c, 0).1 is Err
            ==> crate::exfat::fs::namei::removed(s, i, c, 0, 0)
            == crate::exfat::fs::file::inode_resized(s, c, 0),
{
}

/// Whether the entry with the number `k` of a set is one that has clusters of its own to free.
pub open spec fn frees_clusters(set: Seq<u8>, k: int) -> bool {
    set[k * 32] == 0xe1 || (0xc2 <= set[k * 32] && set[k * 32] != 0xe0)
}

/// Deleting entries frees the clusters that one of them holds besides those of the file or
/// directory itself.
pub proof fn law_deleting_frees(
    s: FsState,
    i: int,
    offset: int,
    len: int,
    q: int,
    cs: Seq<ClusterID>,
)
    requires
        vol_ok(s.vol),
        s.vol.super_block.wf(),
        0 <= offset,
        len % 32 == 0,
        offset + len <= s.nodes[i].pages.len(),
        0 <= q,
        32 * (q + 1) <= len,
        ({
            let set = s.nodes[i].pages.subrange(offset, offset + len);
            let z = s.vol.super_block.cluster_size as int;
            let chain = ExfatChain {
                current: le32(set, 32 * q + 20),
                num_clusters: cs.len() as u32,
                flags: FatChainFlags { bits: 0x01 },
            };
            &&& frees_clusters(set, q)
            &&& forall|k: int|
                0 <= k && 32 * (k + 1) <= len && k != q ==> !#[trigger] frees_clusters(set, k)
            &&& 0 < cs.len()
            &&& le64(set, 32 * q + 24) <= u32::MAX
            &&& cs.len() * z <= le64(set, 32 * q + 24) < (cs.len() + 1) * z
            &&& is_chain(s.vol, chain, cs)
        }),
    ensures
        ({
            let (t, r) = crate::exfat::fs::dir::entries_deleted(s, i, offset, len);
            &&& r is Ok
            &&& forall|k: int| 0 <= k < cs.len() ==> !taken(t.vol, #[trigger] cs[k])
            &&& crate::exfat::bitmap::count_free(t.vol.bits) == crate::exfat::bitmap::count_free(
                s.vol.bits,
            ) + cs.len()
        }),
{
    reveal(crate::exfat::fs::dir::entries_deleted);
    let set = s.nodes[i].pages.subrange(offset, offset + len);
    lemma_secondaries_freed(s.vol, set, 0, q, cs);
}

/// Freeing what the entries of a set hold, of which one holds something.
proof fn lemma_secondaries_freed(
    v: VolumeState,
    set: Seq<u8>,
    k: int,
    q: int,
    cs: Seq<ClusterID>,
)
    requires
        vol_ok(v),
        v.super_block.wf(),
        set.len() % 32 == 0,
        0 <= k <= q,
        32 * (q + 1) <= set.len(),
        frees_clusters(set, q),
        forall|j: int|
            0 <= j && 32 * (j + 1) <= set.len() && j != q ==> !#[trigger] frees_clusters(set, j),
        0 < cs.len(),
        le64(set, 32 * q + 24) <= u32::MAX,
        cs.len() * v.super_block.cluster_size <= le64(set, 32 * q + 24) < (cs.len() + 1)
            * v.super_block.cluster_size,
        is_chain(
            v,
            ExfatChain {
                current: le32(set, 32 * q + 20),
                num_clusters: cs.len() as u32,
                flags: FatChainFlags { bits: 0x01 },
            },
            cs,
        ),
    ensures
        ({
            let (w, r) = crate::exfat::fs::dir::secondaries_freed(
                v,
                set,
                k,
                set.len() as int / 32,
            );
            &&& r is Ok
            &&& forall|j: int| 0 <= j < cs.len() ==> !taken(w, #[trigger] cs[j])
            &&& crate::exfat::bitmap::count_free(w.bits) == crate::exfat::bitmap::count_free(
                v.bits,
            ) + cs.len()
        }),
    decreases q - k,
{
    let end = set.len() as int / 32;
    let entry = set.subrange(k * 32, (k + 1) * 32);
    assert(entry[0] == set[k * 32]);
    if k < q {
        assert(!frees_clusters(set, k));
        lemma_nothing_freed(v, entry);
        lemma_secondaries_freed(v, set, k + 1, q, cs);
    } else {
        assert(le32(entry, 20) == le32(set, 32 * q + 20));
        assert(le64(entry, 24) == le64(set, 32 * q + 24));
        law_secondary_freed(v, entry, cs);
        let w = crate::exfat::fs::dir::secondary_freed(v, entry).0;
        lemma_nothing_freed_from(w, set, k + 1, end);
    }
}

/// An entry that holds no clusters of its own.
proof fn lemma_nothing_freed(v: VolumeState, entry: Seq<u8>)
    requires
        !(entry[0] == 0xe1 || (0xc2 <= entry[0] && entry[0] != 0xe0)),
    ensures
        crate::exfat::fs::dir::secondary_freed(v, entry).0 == v,
        crate::exfat::fs::dir::secondary_freed(v, entry).1 is Ok,
{
    crate::exfat::laws::format::law_kinds(entry[0]);
}

/// Entries that hold no clusters of their own.
proof fn lemma_nothing_freed_from(v: VolumeState, set: Seq<u8>, k: int, end: int)
    requires
        0 <= k,
        32 * end <= set.len(),
        forall|j: int| k <= j < end ==> !#[trigger] frees_clusters(set, j),
    ensures
        crate::exfat::fs::dir::secondaries_freed(v, set, k, end).0 == v,
        crate::exfat::fs::dir::secondaries_freed(v, set, k, end).1 is Ok,
    decreases end - k,
{
    if k < end {
        assert(!frees_clusters(set, k));
        let entry = set.subrange(k * 32, (k + 1) * 32);
        assert(entry[0] == set[k * 32]);
        lemma_nothing_freed(v, entry);
        lemma_nothing_freed_from(v, set, k + 1, end);
    }
}

/// A chain that begins at no cluster has none; otherwise it has as many as it is told.
pub proof fn law_chain_made(
    v: VolumeState,
    current: ClusterID,
    count: Option<u32>,
    n: u32,
    flags: FatChainFlags,
)
    ensures
        !(2 <= current <= v.super_block.num_clusters) ==> crate::exfat::chain::chain_new(
            v,
            current,
            count,
            flags,
        ) == (v, Ok::<ExfatChain, Errno>(ExfatChain { current, num_clusters: 0, flags })),
        2 <= current <= v.super_block.num_clusters ==> crate::exfat::chain::chain_new(
            v,
            current,
            Some(n),
            flags,
        ) == (v, Ok::<ExfatChain, Errno>(ExfatChain { current, num_clusters: n, flags })),
{
}

/// A chain that begins at no cluster grows as if it had none, whatever it says of their number.
pub proof fn law_chain_begun(v: VolumeState, chain: ExfatChain, n: u32, sync: bool)
    requires
        !(2 <= chain.current <= v.super_block.num_clusters),
        0 < n,
        chain.num_clusters + n <= u32::MAX,
    ensures
        ({
            let (w, grown, r) = crate::exfat::chain::chain_extended(v, chain, n, sync);
            let (x, begun, q) = crate::exfat::chain::chain_extended(
                v,
                ExfatChain { num_clusters: 0, ..chain },
                n,
                sync,
            );
            &&& w == x && r == q
            &&& r is Ok ==> grown == begun
        }),
{
    reveal(crate::exfat::chain::chain_grown);
}

/// A directory whose pages cannot be read is not opened, and the error is that of reading them.
pub proof fn law_directory_unreadable(v: VolumeState, n: InodeView)
    requires
        n.inode_type is Dir,
    ensures
        ({
            let (w, pages) = crate::exfat::page::all_pages_read(v, n.start_chain, n.size as int);
            let (x, r) = crate::exfat::inode::inode_loaded(v, n);
            &&& x == w
            &&& pages is Err ==> r == Err::<InodeView, Errno>(pages->Err_0)
            &&& pages is Ok && r is Ok ==> r->Ok_0.pages == pages->Ok_0 && r->Ok_0.loaded
        }),
{
}

} // verus!
