//! Directories that can be read.

use vstd::prelude::*;
use crate::exfat::constants::{DENTRY_SIZE, PAGE_SIZE};
use crate::exfat::fat::ClusterID;
use crate::exfat::fs::dir::{child_read, children_read, dirs_read, name_found, DirentView};
use crate::exfat::fs::FsState;
use crate::exfat::inode::{InodeView, MINIMUM_DENTRIES};
use crate::exfat::laws::chain::{is_chain, vol_ok};
use crate::exfat::laws::dir::{between, dir_opens, is_dir, only_cache, slot_hash};
use crate::exfat::laws::layout::Held;
use crate::exfat::laws::open::{after_reading, dir_raw, more_open, opened_list, readable};
use crate::exfat::laws::page::data_ok;
use crate::exfat::volume::VolumeState;

verus! {

/// Whether the entries of an inode are sound: there are as many as there must be, and if
/// they are those of a directory, it has the clusters `xs` for all its bytes.
pub open spec fn sound_with(v: VolumeState, set: Seq<u8>, xs: Seq<ClusterID>) -> bool {
    let n = bare(v, set);
    &&& MINIMUM_DENTRIES * DENTRY_SIZE <= set.len()
    &&& n.inode_type is File || {
        &&& n.size == n.size_allocated
        &&& n.size + PAGE_SIZE <= usize::MAX
        &&& n.size <= xs.len() * v.super_block.cluster_size
        &&& is_chain(v, n.start_chain, xs)
    }
}

/// What entries say of an inode, wherever they stand.
pub open spec fn bare(v: VolumeState, set: Seq<u8>) -> InodeView {
    crate::exfat::inode::inode_from_set(
        v,
        set,
        (crate::exfat::inode::no_chain(), 0usize),
        0,
        0,
        0,
    )
}

/// Whether the entries of an inode are sound.
pub open spec fn sound_set(v: VolumeState, set: Seq<u8>) -> bool {
    exists|xs: Seq<ClusterID>| sound_with(v, set, xs)
}

/// The entries `w` of a directory.
pub open spec fn set_of(d: InodeView, w: Held) -> Seq<u8> {
    d.pages.subrange(w.slot * DENTRY_SIZE, (w.slot + w.width) * DENTRY_SIZE)
}

/// Whether all entries of a directory are sound, but for those of inodes that are open.
pub open spec fn all_sound(s: FsState, i: int, cs: Seq<ClusterID>, ws: Seq<Held>) -> bool {
    forall|x: int|
        0 <= x < ws.len() ==> s.find(
            slot_hash(s.vol.super_block, cs, (#[trigger] ws[x]).slot),
        ) is Some || sound_set(s.vol, set_of(s.nodes[i], ws[x]))
}

/// All file entries among the bytes of pages can be counted.
proof fn lemma_counted(pages: Seq<u8>, size: int, slot: int, seen: nat)
    requires
        size <= pages.len(),
        pages.len() % (PAGE_SIZE as nat) == 0,
        0 <= slot,
    ensures
        crate::exfat::inode::files_counted(pages, size, slot, seen) is Ok,
    decreases pages.len() - slot * DENTRY_SIZE,
{
    if slot * DENTRY_SIZE < size {
        assert((slot + 1) * DENTRY_SIZE <= pages.len());
        lemma_counted(pages, size, slot + 1, seen);
        lemma_counted(pages, size, slot + 1, seen + 1);
    }
}

/// An inode can be made from sound entries.
proof fn lemma_built(
    v: VolumeState,
    set: Seq<u8>,
    position: crate::exfat::chain::ExfatChainPosition,
    entry: u32,
    parent_hash: u64,
    ino: usize,
)
    requires
        vol_ok(v),
        data_ok(v),
        sound_set(v, set),
    ensures
        crate::exfat::inode::inode_built(v, set, position, entry, parent_hash, ino).1 is Ok,
{
    let xs = choose|xs: Seq<ClusterID>| sound_with(v, set, xs);
    let n = crate::exfat::inode::inode_from_set(v, set, position, entry, parent_hash, ino);
    if n.inode_type is Dir {
        let size = n.size as int;
        let end = crate::arith::pieces(size, PAGE_SIZE as int);
        crate::arith::lemma_rounded_up(size, PAGE_SIZE as int);
        crate::exfat::laws::fetch::lemma_pages_fetched(
            v,
            n.start_chain,
            xs,
            size,
            0,
            end,
            Seq::empty(),
        );
        let pages = crate::exfat::page::all_pages_read(v, n.start_chain, size).1->Ok_0;
        lemma_counted(pages, size, 0, 0);
    }
}

/// The next inode of a directory can be read.
proof fn lemma_child(s: FsState, i: int, cs: Seq<ClusterID>, ws: Seq<Held>, k: int)
    requires
        dir_raw(s, i, cs, ws, k),
        data_ok(s.vol),
        all_sound(s, i, cs, ws),
        0 <= k < ws.len(),
    ensures
        child_read(s, s.nodes[i], ws[k].slot).1 is Ok,
{
    let d = s.nodes[i];
    let slot = ws[k].slot;
    crate::exfat::laws::open::lemma_raw_places(s, i, cs, ws, k, k);
    crate::exfat::laws::dir::lemma_slot_walk(s.vol, d.start_chain, cs, slot);
    crate::exfat::laws::remove::lemma_set_at(d.pages, slot, ws[k].width);
    let (v, walked) = crate::exfat::chain::chain_walk_to_offset(
        s.vol,
        d.start_chain,
        (slot * DENTRY_SIZE) as usize,
    );
    match s.find(slot_hash(s.vol.super_block, cs, slot)) {
        Some(c) => {},
        None => {
            let set = set_of(d, ws[k]);
            assert(sound_set(s.vol, set));
            lemma_sound_cache(s.vol, v, set);
            lemma_built(
                v,
                set,
                walked->Ok_0,
                slot as u32,
                crate::exfat::inode::inode_hash(d),
                s.next_ino,
            );
        },
    }
}

/// Entries stay sound where only what is kept in memory changes.
proof fn lemma_sound_cache(v: VolumeState, w: VolumeState, set: Seq<u8>)
    requires
        sound_set(v, set),
        only_cache(v, w),
    ensures
        sound_set(w, set),
{
    let xs = choose|xs: Seq<ClusterID>| sound_with(v, set, xs);
    let n = bare(v, set);
    if n.inode_type is Dir {
        crate::exfat::laws::chain::law_chain_kept(v, w, n.start_chain, xs, Set::empty());
    }
    assert(sound_with(w, set, xs));
}

/// Entries stay sound where more is opened.
pub proof fn lemma_still_sound(
    s: FsState,
    t: FsState,
    i: int,
    cs: Seq<ClusterID>,
    ws: Seq<Held>,
)
    requires
        all_sound(s, i, cs, ws),
        more_open(s, t),
        0 <= i < s.nodes.len(),
    ensures
        all_sound(t, i, cs, ws),
{
    assert(t.nodes[i] == s.nodes[i]);
    assert forall|x: int| 0 <= x < ws.len() implies t.find(
        slot_hash(t.vol.super_block, cs, (#[trigger] ws[x]).slot),
    ) is Some || sound_set(t.vol, set_of(t.nodes[i], ws[x])) by {
        let h = slot_hash(s.vol.super_block, cs, ws[x].slot);
        if s.find(h) is Some {
            assert(t.find(h) == s.find(h));
        } else {
            lemma_sound_cache(s.vol, t.vol, set_of(s.nodes[i], ws[x]));
        }
    }
}

/// What is left of a directory can be read.
#[verifier::rlimit(40)]
pub proof fn lemma_rest(
    s: FsState,
    i: int,
    cs: Seq<ClusterID>,
    ws: Seq<Held>,
    k: int,
    slot: int,
    count: nat,
    before: Seq<DirentView>,
)
    requires
        dir_raw(s, i, cs, ws, k),
        data_ok(s.vol),
        all_sound(s, i, cs, ws),
        0 <= k,
        k + count <= ws.len(),
        between(ws, k, slot),
    ensures
        children_read(s, s.nodes[i], slot, count, before).2 is Ok,
    decreases s.nodes[i].pages.len() - slot * DENTRY_SIZE,
{
    if count > 0 {
        let d = s.nodes[i];
        crate::exfat::laws::open::lemma_entry_comes(s, i, cs, ws, k, slot);
        if crate::exfat::dentry::slot_kind(d.pages, slot) is File {
            lemma_here(s, i, cs, ws, k, slot);
            lemma_child(s, i, cs, ws, k);
            crate::exfat::laws::open::lemma_child_opened(s, i, cs, ws, k, slot);
            assert(is_dir(s, i, cs)) by {
                reveal(dir_raw);
            }
            let (t, r) = child_read(s, d, slot);
            lemma_still_sound(s, t, i, cs, ws);
            lemma_rest(
                t,
                i,
                cs,
                ws,
                k + 1,
                slot + ws[k].width,
                (count - 1) as nat,
                before.push(
                    crate::exfat::fs::dir::dirent_of(t.nodes[r->Ok_0 as int], slot),
                ),
            );
        } else {
            lemma_rest(s, i, cs, ws, k, slot + 1, count, before);
        }
    }
}

/// A file entry that is reached next is the first one of the next inode.
proof fn lemma_here(s: FsState, i: int, cs: Seq<ClusterID>, ws: Seq<Held>, k: int, slot: int)
    requires
        dir_raw(s, i, cs, ws, k),
        0 <= k < ws.len(),
        between(ws, k, slot),
        crate::exfat::dentry::has_slot(s.nodes[i].pages, slot),
        crate::exfat::dentry::slot_kind(s.nodes[i].pages, slot) is File,
    ensures
        ws[k].slot == slot,
{
    reveal(dir_raw);
    reveal(crate::exfat::laws::layout::laid_out);
    reveal(between);
    assert(crate::exfat::laws::layout::covered(ws, slot));
    let j = choose|j: int|
        0 <= j < ws.len() && (#[trigger] ws[j]).slot <= slot < ws[j].slot + ws[j].width;
    assert(j >= k);
    crate::exfat::laws::open::lemma_raw_places(s, i, cs, ws, k, k);
    if j > k {
        assert(ws[k].slot + ws[k].width <= ws[j].slot);
    }
}

/// A directory can be read where all its entries are sound.
pub proof fn law_readable(s: FsState, i: int, cs: Seq<ClusterID>, ws: Seq<Held>)
    requires
        dir_raw(s, i, cs, ws, 0),
        data_ok(s.vol),
        all_sound(s, i, cs, ws),
    ensures
        readable(s, i),
{
    assert(is_dir(s, i, cs) && s.nodes[i].num_subdir == ws.len()) by {
        reveal(dir_raw);
    }
    if ws.len() > 0 {
        crate::exfat::laws::open::lemma_first_slot(s, i, cs, ws);
        crate::exfat::laws::open::lemma_raw_places(s, i, cs, ws, 0, 0);
        let chain = s.nodes[i].start_chain;
        let z = s.vol.super_block.cluster_size as int;
        crate::exfat::volume::lemma_cluster_size_positive(s.vol.super_block);
        assert(0int / z == 0) by (nonlinear_arith)
            requires
                z > 0,
        ;
        crate::exfat::laws::dir::lemma_slot_walk(s.vol, chain, cs, 0);
        let v1 = crate::exfat::chain::chain_cluster(s.vol, chain, 0).0;
        crate::exfat::laws::dir::lemma_slot_walk(v1, chain, cs, 0);
        let v2 = crate::exfat::chain::chain_walk_to_offset(v1, chain, 0).0;
        crate::exfat::laws::open::lemma_was_open(s, v2, i, cs, ws, 0, 0);
        let s2 = s.with_vol(v2);
        lemma_still_sound(s, s2, i, cs, ws);
        lemma_rest(s2, i, cs, ws, 0, 0, ws.len(), Seq::empty());
        assert(dirs_read(s, i, 0, ws.len(), Seq::empty()) == children_read(
            s2,
            s.nodes[i],
            0,
            ws.len(),
            Seq::empty(),
        ));
    }
}

/// A directory of which nothing was read opens where all its entries are sound.
pub proof fn law_sound_opens(s: FsState, i: int, cs: Seq<ClusterID>, ws: Seq<Held>)
    requires
        dir_raw(s, i, cs, ws, 0),
        data_ok(s.vol),
        all_sound(s, i, cs, ws),
    ensures
        ({
            let t = after_reading(s, i);
            dir_opens(s, t, i, cs, opened_list(t, cs, ws))
        }),
{
    law_readable(s, i, cs, ws);
    crate::exfat::laws::open::law_reading_opens(s, i, cs, ws);
}

/// Two directories that share no cluster can be read, the one after a name was looked for in
/// the other, where all their entries are sound.
pub proof fn law_both_readable(
    o: FsState,
    i: int,
    cs: Seq<ClusterID>,
    ws: Seq<Held>,
    name: Seq<char>,
    j: int,
    ct: Seq<ClusterID>,
    wt: Seq<Held>,
)
    requires
        dir_raw(o, i, cs, ws, 0),
        dir_raw(o, j, ct, wt, 0),
        forall|q: int| 0 <= q < cs.len() ==> !ct.contains(#[trigger] cs[q]),
        o.next_ino + ws.len() + wt.len() <= usize::MAX,
        o.nodes.len() + ws.len() + wt.len() <= usize::MAX,
        data_ok(o.vol),
        all_sound(o, i, cs, ws),
        all_sound(o, j, ct, wt),
    ensures
        readable(o, i),
        readable(name_found(o, i, name).0, j),
{
    law_readable(o, i, cs, ws);
    crate::exfat::laws::open::lemma_looking_opens(o, i, cs, ws, name);
    let s1 = name_found(o, i, name).0;
    crate::exfat::laws::dir::lemma_dir_ok(
        s1,
        i,
        cs,
        crate::exfat::laws::open::opened_list(s1, cs, ws),
    );
    crate::exfat::laws::open::lemma_still_raw(o, s1, i, cs, ws, j, ct, wt);
    assert(is_dir(o, j, ct)) by {
        reveal(dir_raw);
    }
    lemma_still_sound(o, s1, j, ct, wt);
    law_readable(s1, j, ct, wt);
}

} // verus!
