//! Reading a directory: everything in it is open afterwards.

use vstd::prelude::*;
use crate::errno::Errno;
use crate::exfat::chain::{ExfatChain, ExfatChainPosition};
use crate::exfat::constants::{DENTRY_SIZE, EXFAT_ROOT_INO, PAGE_SIZE};
use crate::exfat::fat::{ClusterID, FatValue};
use crate::exfat::fs::dir::{dirs_read, name_found, DirentView};
use crate::exfat::fs::FsState;
use crate::exfat::inode::InodeView;
use crate::exfat::laws::chain::vol_ok;
use crate::exfat::laws::fat::fat_ok;
use crate::exfat::laws::dir::{
    between, dir_ok, dir_opens, held, is_dir, listing, name_of, names_differ, only_cache, slot_hash,
};
use crate::exfat::laws::layout::{covered, laid_out, set_in, Held};
use crate::exfat::volume::VolumeState;

verus! {

/// Following the FAT from anywhere changes nothing but what is kept in memory, and memory
/// and disk still agree.
pub proof fn lemma_walk_any(v: VolumeState, cluster: ClusterID, steps: nat)
    requires
        fat_ok(v),
    ensures
        only_cache(v, crate::exfat::chain::fat_walk(v, cluster, steps).0),
        fat_ok(crate::exfat::chain::fat_walk(v, cluster, steps).0),
    decreases steps,
{
    if steps > 0 {
        crate::exfat::laws::fat::law_fat_read_any(v, cluster);
        let (w, r) = crate::exfat::volume::fat_read(v, cluster);
        match r {
            Ok(FatValue::Next(next)) => {
                lemma_walk_any(w, next, (steps - 1) as nat);
            },
            _ => {},
        }
    }
}

/// Finding a sector of anything changes nothing but what is kept in memory.
pub proof fn lemma_sector_any(v: VolumeState, chain: ExfatChain, sector_id: usize)
    requires
        fat_ok(v),
    ensures
        only_cache(v, crate::exfat::page::sector_of(v, chain, sector_id).0),
        fat_ok(crate::exfat::page::sector_of(v, chain, sector_id).0),
{
    let size = v.super_block.cluster_size as usize;
    let offset = (sector_id * v.super_block.sector_size) as usize;
    lemma_walk_any(v, chain.current, (offset / size) as u32 as nat);
    let (v1, r1) = crate::exfat::chain::chain_walk_to_offset(v, chain, offset);
    lemma_walk_any(
        v1,
        chain.current,
        (sector_id / (v.super_block.sect_per_cluster as usize)) as u32 as nat,
    );
}

/// Reading pages of anything changes nothing but what is kept in memory.
pub proof fn lemma_pages_any(
    v: VolumeState,
    chain: ExfatChain,
    size: int,
    idx: int,
    end: int,
    before: Seq<u8>,
)
    requires
        fat_ok(v),
    ensures
        only_cache(v, crate::exfat::page::pages_read(v, chain, size, idx, end, before).0),
        fat_ok(crate::exfat::page::pages_read(v, chain, size, idx, end, before).0),
    decreases end - idx,
{
    if idx < end {
        lemma_sector_any(v, chain, crate::exfat::page::page_sector(v.super_block, idx));
        let (v1, r) = crate::exfat::page::page_read(v, chain, size, idx);
        match r {
            Err(_) => {},
            Ok(bytes) => {
                lemma_pages_any(v1, chain, size, idx + 1, end, before + bytes);
            },
        }
    }
}

/// Making an inode from entries changes nothing but what is kept in memory, and the inode
/// stands where the entries stand.
pub proof fn lemma_built(
    v: VolumeState,
    set: Seq<u8>,
    position: ExfatChainPosition,
    entry: u32,
    parent_hash: u64,
    ino: usize,
)
    requires
        fat_ok(v),
    ensures
        ({
            let (w, r) = crate::exfat::inode::inode_built(
                v,
                set,
                position,
                entry,
                parent_hash,
                ino,
            );
            &&& only_cache(v, w)
            &&& fat_ok(w)
            &&& r is Ok ==> {
                &&& r->Ok_0.ino == ino
                &&& r->Ok_0.dentry_set_position == position
                &&& r->Ok_0.dentry_set_size == set.len() as usize
                &&& r->Ok_0.dentry_entry == entry
                &&& r->Ok_0.parent_hash == parent_hash
                &&& r->Ok_0.name == crate::exfat::dentry_set::set_name(set)
                &&& r->Ok_0.inode_type == crate::exfat::inode::inode_from_set(
                    v,
                    set,
                    position,
                    entry,
                    parent_hash,
                    ino,
                ).inode_type
            }
        }),
{
    let n = crate::exfat::inode::inode_from_set(v, set, position, entry, parent_hash, ino);
    lemma_pages_any(
        v,
        n.start_chain,
        n.size as int,
        0,
        crate::arith::pieces(n.size as int, PAGE_SIZE as int),
        Seq::empty(),
    );
}

/// Whether the entries `w` of the directory `i` lie within its clusters, and the inode is
/// held if it is open.
pub open spec fn raw_entry(s: FsState, i: int, cs: Seq<ClusterID>, w: Held) -> bool {
    &&& (w.slot + w.width) * DENTRY_SIZE <= s.nodes[i].size
    &&& s.find(slot_hash(s.vol.super_block, cs, w.slot)) matches Some(c) ==> held(
        s,
        i,
        cs,
        (Held { inode: c as int, ..w }),
    )
}

/// Whether the inode `i` is a directory with the clusters `cs` in whose pages the entries
/// `ws` stand, and in which at least the first `k` inodes are open.
#[verifier::opaque]
pub open spec fn dir_raw(
    s: FsState,
    i: int,
    cs: Seq<ClusterID>,
    ws: Seq<Held>,
    k: int,
) -> bool {
    &&& is_dir(s, i, cs)
    &&& s.nodes[i].num_subdir == ws.len()
    &&& laid_out(s.nodes[i].pages, ws)
    &&& forall|x: int| 0 <= x < ws.len() ==> raw_entry(s, i, cs, #[trigger] ws[x])
    &&& forall|x: int|
        0 <= x < k && x < ws.len() ==> s.find(
            slot_hash(s.vol.super_block, cs, (#[trigger] ws[x]).slot),
        ) is Some
    &&& EXFAT_ROOT_INO < s.next_ino
    &&& s.next_ino + (ws.len() - k) <= usize::MAX
    &&& s.nodes.len() + (ws.len() - k) <= usize::MAX
}

/// The inodes whose entries are `ws`, as they are open.
pub open spec fn opened_list(s: FsState, cs: Seq<ClusterID>, ws: Seq<Held>) -> Seq<Held> {
    Seq::new(
        ws.len(),
        |k: int|
            Held {
                inode: s.find(slot_hash(s.vol.super_block, cs, ws[k].slot))->Some_0 as int,
                ..ws[k]
            },
    )
}

/// A directory of which all inodes are open is one in which everything is open.
proof fn lemma_all_open(s: FsState, i: int, cs: Seq<ClusterID>, ws: Seq<Held>)
    requires
        dir_raw(s, i, cs, ws, ws.len() as int),
    ensures
        dir_ok(s, i, cs, opened_list(s, cs, ws)),
{
    reveal(dir_raw);
    reveal(dir_ok);
    let es = opened_list(s, cs, ws);
    crate::exfat::laws::rename::lemma_relabelled(s.nodes[i].pages, ws, es);
    assert forall|k: int| 0 <= k < es.len() implies held(s, i, cs, #[trigger] es[k]) by {
        assert(raw_entry(s, i, cs, ws[k]));
    }
}

/// The places of entries of a directory.
pub proof fn lemma_raw_places(s: FsState, i: int, cs: Seq<ClusterID>, ws: Seq<Held>, k: int, x: int)
    requires
        dir_raw(s, i, cs, ws, k),
        0 <= x < ws.len(),
    ensures
        set_in(s.nodes[i].pages, ws[x].slot, ws[x].width),
        ws[x].slot * DENTRY_SIZE < cs.len() * s.vol.super_block.cluster_size,
        is_dir(s, i, cs),
        raw_entry(s, i, cs, ws[x]),
        forall|y: int|
            0 <= y < ws.len() && y != x ==> slot_hash(
                s.vol.super_block,
                cs,
                (#[trigger] ws[y]).slot,
            ) != slot_hash(s.vol.super_block, cs, ws[x].slot),
{
    reveal(dir_raw);
    reveal(laid_out);
    assert(raw_entry(s, i, cs, ws[x]));
    assert forall|y: int| 0 <= y < ws.len() && y != x implies slot_hash(
        s.vol.super_block,
        cs,
        (#[trigger] ws[y]).slot,
    ) != slot_hash(s.vol.super_block, cs, ws[x].slot) by {
        assert(raw_entry(s, i, cs, ws[y]));
        assert(set_in(s.nodes[i].pages, ws[y].slot, ws[y].width));
        if y < x {
            assert(ws[y].slot + ws[y].width <= ws[x].slot);
        } else {
            assert(ws[x].slot + ws[x].width <= ws[y].slot);
        }
        if slot_hash(s.vol.super_block, cs, ws[y].slot) == slot_hash(
            s.vol.super_block,
            cs,
            ws[x].slot,
        ) {
            crate::exfat::laws::dir::lemma_slot_hash(s.vol, cs, ws[y].slot, ws[x].slot);
        }
    }
}

/// A directory of which one inode more is open.
proof fn lemma_one_opened(
    s: FsState,
    t: FsState,
    i: int,
    cs: Seq<ClusterID>,
    ws: Seq<Held>,
    k: int,
)
    requires
        dir_raw(s, i, cs, ws, k),
        0 <= k < ws.len(),
        only_cache(s.vol, t.vol),
        vol_ok(t.vol),
        t.nodes.len() == s.nodes.len() + 1,
        forall|q: int| 0 <= q < s.nodes.len() ==> #[trigger] t.nodes[q] == s.nodes[q],
        t.next_ino == s.next_ino + 1,
        t.opened == s.opened.insert(
            slot_hash(s.vol.super_block, cs, ws[k].slot),
            s.nodes.len() as usize,
        ),
        ({
            let n = t.nodes[s.nodes.len() as int];
            &&& n.ino == s.next_ino
            &&& n.dentry_set_size == ws[k].width * DENTRY_SIZE
            &&& crate::exfat::inode::hash_of_position(n.dentry_set_position) == slot_hash(
                s.vol.super_block,
                cs,
                ws[k].slot,
            )
            &&& n.dentry_entry == ws[k].slot
            &&& n.parent_hash == crate::exfat::inode::inode_hash(s.nodes[i])
        }),
    ensures
        dir_raw(t, i, cs, ws, k + 1),
{
    lemma_raw_places(s, i, cs, ws, k, k);
    crate::exfat::laws::dir::lemma_own_hash(s, i, cs, ws[k].slot);
    reveal(dir_raw);
    crate::exfat::laws::chain::law_chain_kept(
        s.vol,
        t.vol,
        s.nodes[i].start_chain,
        cs,
        Set::empty(),
    );
    assert(t.opened_exist());
    assert(is_dir(t, i, cs));
    assert forall|x: int| 0 <= x < ws.len() implies raw_entry(t, i, cs, #[trigger] ws[x]) by {
        assert(raw_entry(s, i, cs, ws[x]));
        if x != k {
            let hash = slot_hash(s.vol.super_block, cs, ws[x].slot);
            assert(t.find(hash) == s.find(hash));
        }
    }
    assert forall|x: int| 0 <= x < k + 1 && x < ws.len() implies t.find(
        slot_hash(t.vol.super_block, cs, (#[trigger] ws[x]).slot),
    ) is Some by {
        if x < k {
            assert(s.find(slot_hash(s.vol.super_block, cs, ws[x].slot)) is Some);
        }
    }
}

/// A directory of which the next inode was open already.
pub proof fn lemma_was_open(
    s: FsState,
    w: VolumeState,
    i: int,
    cs: Seq<ClusterID>,
    ws: Seq<Held>,
    k: int,
    j: int,
)
    requires
        dir_raw(s, i, cs, ws, k),
        0 <= k <= j <= k + 1,
        j <= ws.len(),
        only_cache(s.vol, w),
        vol_ok(w),
        j > k ==> s.find(slot_hash(s.vol.super_block, cs, ws[k].slot)) is Some,
    ensures
        dir_raw(s.with_vol(w), i, cs, ws, j),
{
    reveal(dir_raw);
    let t = s.with_vol(w);
    crate::exfat::laws::chain::law_chain_kept(
        s.vol,
        w,
        s.nodes[i].start_chain,
        cs,
        Set::empty(),
    );
    assert forall|x: int| 0 <= x < ws.len() implies raw_entry(t, i, cs, #[trigger] ws[x]) by {
        assert(raw_entry(s, i, cs, ws[x]));
    }
}

/// Whether the state `t` is the state `s` with more inodes open, and with other FAT entries
/// kept in memory.
pub open spec fn more_open(s: FsState, t: FsState) -> bool {
    &&& only_cache(s.vol, t.vol)
    &&& t == (FsState {
        vol: t.vol,
        nodes: t.nodes,
        opened: t.opened,
        next_ino: t.next_ino,
        ..s
    })
    &&& s.nodes.len() <= t.nodes.len()
    &&& forall|q: int| 0 <= q < s.nodes.len() ==> #[trigger] t.nodes[q] == s.nodes[q]
    &&& forall|h: u64| s.find(h) is Some ==> #[trigger] t.find(h) == s.find(h)
    &&& t.next_ino - s.next_ino == t.nodes.len() - s.nodes.len()
}

/// Whether all inodes that are open in the state `t`, but not in the state `s`, are among
/// those with the entries `ws` of a directory with the clusters `cs`.
pub open spec fn only_these(s: FsState, t: FsState, cs: Seq<ClusterID>, ws: Seq<Held>) -> bool {
    forall|h: u64| #[trigger]
        t.find(h) is Some && s.find(h) is None ==> exists|x: int|
            0 <= x < ws.len() && h == slot_hash(s.vol.super_block, cs, (#[trigger] ws[x]).slot)
}

/// Opening is passed on.
pub proof fn lemma_more_open(s: FsState, t: FsState, u: FsState)
    requires
        more_open(s, t),
        more_open(t, u),
    ensures
        more_open(s, u),
{
    assert forall|q: int| 0 <= q < s.nodes.len() implies #[trigger] u.nodes[q] == s.nodes[q] by {
        assert(t.nodes[q] == s.nodes[q]);
    }
    assert forall|h: u64| s.find(h) is Some implies #[trigger] u.find(h) == s.find(h) by {
        assert(t.find(h) == s.find(h));
    }
}

/// Where the next file entry of a directory is reached and its inode is read, the inode
/// is open.
pub proof fn lemma_child_opened(
    s: FsState,
    i: int,
    cs: Seq<ClusterID>,
    ws: Seq<Held>,
    k: int,
    slot: int,
)
    requires
        dir_raw(s, i, cs, ws, k),
        0 <= k < ws.len(),
        between(ws, k, slot),
        crate::exfat::dentry::has_slot(s.nodes[i].pages, slot),
        crate::exfat::dentry::slot_kind(s.nodes[i].pages, slot) is File,
        crate::exfat::fs::dir::child_read(s, s.nodes[i], slot).1 is Ok,
    ensures
        ({
            let (t, r) = crate::exfat::fs::dir::child_read(s, s.nodes[i], slot);
            &&& ws[k].slot == slot
            &&& dir_raw(t, i, cs, ws, k + 1)
            &&& more_open(s, t)
            &&& only_these(s, t, cs, ws)
            &&& t.nodes.len() <= s.nodes.len() + 1
            &&& t.nodes[i] == s.nodes[i]
            &&& t.find(slot_hash(s.vol.super_block, cs, slot)) == Some(r->Ok_0)
            &&& r->Ok_0 < t.nodes.len()
            &&& t.nodes[r->Ok_0 as int].dentry_set_size == ws[k].width * DENTRY_SIZE
            &&& between(ws, k + 1, slot + ws[k].width)
            &&& 0 < ws[k].width
            &&& (slot + ws[k].width) * DENTRY_SIZE <= s.nodes[i].pages.len()
        }),
{
    let d = s.nodes[i];
    lemma_raw_places(s, i, cs, ws, k, k);
    assert(ws[k].slot == slot && between(ws, k + 1, slot + ws[k].width)) by {
        reveal(dir_raw);
        reveal(laid_out);
        reveal(between);
        assert(covered(ws, slot));
        let j = choose|j: int|
            0 <= j < ws.len() && (#[trigger] ws[j]).slot <= slot < ws[j].slot + ws[j].width;
        assert(j >= k);
        if j > k {
            assert(ws[k].slot + ws[k].width <= ws[j].slot);
        }
        if k + 1 < ws.len() {
            assert(ws[k].slot + ws[k].width <= ws[k + 1].slot);
        }
    }
    crate::exfat::laws::dir::lemma_slot_walk(s.vol, d.start_chain, cs, slot);
    let (v, walked) = crate::exfat::chain::chain_walk_to_offset(
        s.vol,
        d.start_chain,
        (slot * DENTRY_SIZE) as usize,
    );
    let position = walked->Ok_0;
    let (t, r) = crate::exfat::fs::dir::child_read(s, d, slot);
    match s.find(slot_hash(s.vol.super_block, cs, slot)) {
        Some(c) => {
            lemma_was_open(s, v, i, cs, ws, k, k + 1);
            assert(s.find(slot_hash(s.vol.super_block, cs, slot)) == Some(c));
            assert(held(s, i, cs, (Held { inode: c as int, ..ws[k] })));
        },
        None => {
            crate::exfat::laws::remove::lemma_set_at(d.pages, slot, ws[k].width);
            let set = d.pages.subrange(
                slot * DENTRY_SIZE,
                (slot + ws[k].width) * DENTRY_SIZE,
            );
            let s1 = s.with_vol(v).with_ino_taken();
            lemma_built(
                s1.vol,
                set,
                position,
                slot as u32,
                crate::exfat::inode::inode_hash(d),
                s.next_ino,
            );
            assert(s.next_ino < usize::MAX && EXFAT_ROOT_INO < s.next_ino) by {
                reveal(dir_raw);
            }
            lemma_one_opened(s, t, i, cs, ws, k);
            assert forall|h: u64| s.find(h) is Some implies #[trigger] t.find(h) == s.find(h) by {
                assert(h != slot_hash(s.vol.super_block, cs, slot));
            }
            assert forall|h: u64| #[trigger]
                t.find(h) is Some && s.find(h) is None implies exists|x: int|
                0 <= x < ws.len() && h == slot_hash(
                    s.vol.super_block,
                    cs,
                    (#[trigger] ws[x]).slot,
                ) by {
                assert(h == slot_hash(s.vol.super_block, cs, ws[k].slot));
            }
        },
    }
}

/// Where the next inode was not read yet, its entries still come.
pub proof fn lemma_entry_comes(
    s: FsState,
    i: int,
    cs: Seq<ClusterID>,
    ws: Seq<Held>,
    k: int,
    slot: int,
)
    requires
        dir_raw(s, i, cs, ws, k),
        0 <= k < ws.len(),
        between(ws, k, slot),
    ensures
        crate::exfat::dentry::has_slot(s.nodes[i].pages, slot),
        !(crate::exfat::dentry::slot_kind(s.nodes[i].pages, slot) is File) ==> between(
            ws,
            k,
            slot + 1,
        ),
{
    reveal(between);
    lemma_raw_places(s, i, cs, ws, k, k);
}

/// What reading inodes of a directory makes of the file system and returns.
#[verifier::opaque]
pub open spec fn rest_read(
    s: FsState,
    d: InodeView,
    slot: int,
    count: nat,
    before: Seq<DirentView>,
) -> (FsState, Seq<DirentView>, Result<usize, Errno>) {
    crate::exfat::fs::dir::children_read(s, d, slot, count, before)
}

/// Reading inodes reads the first one and then the others.
pub proof fn lemma_step(
    s: FsState,
    i: int,
    cs: Seq<ClusterID>,
    ws: Seq<Held>,
    k: int,
    slot: int,
    count: nat,
    before: Seq<DirentView>,
) -> (next: (FsState, Seq<DirentView>))
    requires
        dir_raw(s, i, cs, ws, k),
        0 <= k < ws.len(),
        0 < count,
        between(ws, k, slot),
        rest_read(s, s.nodes[i], slot, count, before).2 is Ok,
    ensures
        ({
            let d = s.nodes[i];
            let total = rest_read(s, d, slot, count, before);
            &&& (slot + 1) * DENTRY_SIZE <= d.pages.len()
            &&& if crate::exfat::dentry::slot_kind(d.pages, slot) is File {
                let after = slot + ws[k].width;
                let hash = slot_hash(s.vol.super_block, cs, slot);
                &&& slot == ws[k].slot
                &&& crate::exfat::fs::dir::child_read(s, d, slot).0 == next.0
                &&& crate::exfat::fs::dir::child_read(s, d, slot).1 is Ok
                &&& next.1 == before.push(
                    crate::exfat::fs::dir::dirent_of(
                        next.0.nodes[crate::exfat::fs::dir::child_read(s, d, slot).1->Ok_0 as int],
                        slot,
                    ),
                )
                &&& dir_raw(next.0, i, cs, ws, k + 1)
                &&& more_open(s, next.0)
                &&& only_these(s, next.0, cs, ws)
                &&& next.0.nodes.len() <= s.nodes.len() + 1
                &&& next.0.nodes[i] == d
                &&& next.0.find(hash) is Some
                &&& next.0.find(hash)->Some_0 < next.0.nodes.len()
                &&& next.1 == before.push(
                    crate::exfat::fs::dir::dirent_of(
                        next.0.nodes[next.0.find(hash)->Some_0 as int],
                        slot,
                    ),
                )
                &&& between(ws, k + 1, after)
                &&& slot < after
                &&& after * DENTRY_SIZE <= d.pages.len()
                &&& total == rest_read(next.0, d, after, (count - 1) as nat, next.1)
            } else {
                &&& between(ws, k, slot + 1)
                &&& total == rest_read(s, d, slot + 1, count, before)
            }
        }),
{
    reveal(rest_read);
    let d = s.nodes[i];
    lemma_entry_comes(s, i, cs, ws, k, slot);
    let (t, r) = crate::exfat::fs::dir::child_read(s, d, slot);
    if crate::exfat::dentry::slot_kind(d.pages, slot) is File {
        assert(r is Ok);
        lemma_child_opened(s, i, cs, ws, k, slot);
        (t, before.push(crate::exfat::fs::dir::dirent_of(t.nodes[r->Ok_0 as int], slot)))
    } else {
        (s, before)
    }
}

/// Reading inodes of a directory opens and lists them.
proof fn lemma_rest_opened(
    s: FsState,
    i: int,
    cs: Seq<ClusterID>,
    ws: Seq<Held>,
    k: int,
    slot: int,
    count: nat,
    before: Seq<DirentView>,
)
    requires
        dir_raw(s, i, cs, ws, k),
        0 <= k,
        k + count <= ws.len(),
        between(ws, k, slot),
        rest_read(s, s.nodes[i], slot, count, before).2 is Ok,
    ensures
        ({
            let (t, out, r) = rest_read(s, s.nodes[i], slot, count, before);
            &&& dir_raw(t, i, cs, ws, k + count)
            &&& more_open(s, t)
            &&& only_these(s, t, cs, ws)
            &&& t.nodes.len() <= s.nodes.len() + count
            &&& between(ws, k + count, r->Ok_0 as int)
            &&& out == before + listing(t, opened_list(t, cs, ws).subrange(k, k + count))
        }),
    decreases s.nodes[i].pages.len() - slot * DENTRY_SIZE,
{
    let (t, out, r) = rest_read(s, s.nodes[i], slot, count, before);
    if count > 0 {
        let (s1, more) = lemma_step(s, i, cs, ws, k, slot, count, before);
        if crate::exfat::dentry::slot_kind(s.nodes[i].pages, slot) is File {
            let after = slot + ws[k].width;
            lemma_rest_opened(s1, i, cs, ws, k + 1, after, (count - 1) as nat, more);
            lemma_more_open(s, s1, t);
            lemma_only_these(s, s1, t, cs, ws);
            let all = opened_list(t, cs, ws);
            let hash = slot_hash(s.vol.super_block, cs, slot);
            assert(t.find(hash) == s1.find(hash));
            let c = t.find(hash)->Some_0 as int;
            assert(t.nodes[c] == s1.nodes[c]);
            assert(all[k].inode == c);
            assert(out =~= before + listing(t, all.subrange(k, k + count)));
        } else {
            lemma_rest_opened(s, i, cs, ws, k, slot + 1, count, before);
        }
    } else {
        reveal(rest_read);
        assert(slot as usize == slot) by {
            reveal(between);
        }
        assert(out =~= before + listing(t, opened_list(t, cs, ws).subrange(k, k + count)));
    }
}

/// Reading some inodes of a directory opens and lists them.
pub proof fn lemma_some_opened(
    s: FsState,
    i: int,
    cs: Seq<ClusterID>,
    ws: Seq<Held>,
    k: int,
    slot: int,
    count: nat,
    before: Seq<DirentView>,
)
    requires
        dir_raw(s, i, cs, ws, k),
        0 <= k,
        k + count <= ws.len(),
        between(ws, k, slot),
        dirs_read(s, i, slot, count, before).2 is Ok,
    ensures
        ({
            let (t, out, r) = dirs_read(s, i, slot, count, before);
            &&& dir_raw(t, i, cs, ws, k + count)
            &&& more_open(s, t)
            &&& only_these(s, t, cs, ws)
            &&& t.nodes.len() <= s.nodes.len() + count
            &&& between(ws, k + count, r->Ok_0 as int)
            &&& out == before + listing(t, opened_list(t, cs, ws).subrange(k, k + count))
        }),
{
    assert(is_dir(s, i, cs)) by {
        reveal(dir_raw);
    }
    if count == 0 {
        assert(slot as usize == slot) by {
            reveal(between);
        }
        let (t, out, r) = dirs_read(s, i, slot, count, before);
        assert(out =~= before + listing(t, opened_list(t, cs, ws).subrange(k, k + count)));
    } else {
        lemma_raw_places(s, i, cs, ws, k, k);
        assert(0 <= slot <= ws[k].slot) by {
            reveal(between);
        }
        let chain = s.nodes[i].start_chain;
        let at = slot * DENTRY_SIZE;
        let z = s.vol.super_block.cluster_size as int;
        crate::exfat::volume::lemma_cluster_size_positive(s.vol.super_block);
        crate::exfat::laws::dir::lemma_slot_walk(s.vol, chain, cs, slot);
        let (v1, r1) = crate::exfat::chain::chain_cluster(s.vol, chain, (at / z) as u32);
        crate::exfat::laws::dir::lemma_slot_walk(v1, chain, cs, slot);
        let (v2, r2) = crate::exfat::chain::chain_walk_to_offset(v1, chain, at as usize);
        lemma_was_open(s, v2, i, cs, ws, k, k);
        reveal(rest_read);
        let s2 = s.with_vol(v2);
        lemma_rest_opened(s2, i, cs, ws, k, slot, count, before);
        lemma_more_open(s, s2, dirs_read(s, i, slot, count, before).0);
    }
}

/// The state after all of a directory was read.
pub open spec fn after_reading(s: FsState, i: int) -> FsState {
    dirs_read(s, i, 0, s.nodes[i].num_subdir as nat, Seq::empty()).0
}

/// Whether all of a directory can be read: every inode of it can be made from its entries.
pub open spec fn readable(s: FsState, i: int) -> bool {
    dirs_read(s, i, 0, s.nodes[i].num_subdir as nat, Seq::empty()).2 is Ok
}

/// Reading a directory that can be read opens everything in it, and changes nothing else
/// but which FAT entries are kept in memory.
pub proof fn law_reading_opens(s: FsState, i: int, cs: Seq<ClusterID>, ws: Seq<Held>)
    requires
        dir_raw(s, i, cs, ws, 0),
        readable(s, i),
    ensures
        ({
            let t = after_reading(s, i);
            &&& more_open(s, t)
            &&& only_these(s, t, cs, ws)
            &&& t.nodes.len() <= s.nodes.len() + ws.len()
            &&& dir_ok(t, i, cs, opened_list(t, cs, ws))
            &&& dir_opens(s, t, i, cs, opened_list(t, cs, ws))
        }),
{
    assert(is_dir(s, i, cs) && s.nodes[i].num_subdir == ws.len()) by {
        reveal(dir_raw);
    }
    lemma_first_slot(s, i, cs, ws);
    lemma_some_opened(s, i, cs, ws, 0, 0, ws.len(), Seq::empty());
    let (t, out, r) = dirs_read(s, i, 0, ws.len(), Seq::empty());
    lemma_all_open(t, i, cs, ws);
    let es = opened_list(t, cs, ws);
    crate::exfat::laws::dir::lemma_dir_ok(t, i, cs, es);
    assert(es.subrange(0, ws.len() as int) =~= es);
    assert(out =~= listing(t, es));
    assert(t =~= t.with_vol(t.vol));
    reveal(dir_opens);
}

/// Opening nothing else is passed on.
proof fn lemma_only_these(
    s: FsState,
    t: FsState,
    u: FsState,
    cs: Seq<ClusterID>,
    ws: Seq<Held>,
)
    requires
        more_open(s, t),
        only_these(s, t, cs, ws),
        only_these(t, u, cs, ws),
    ensures
        only_these(s, u, cs, ws),
{
    assert forall|h: u64| #[trigger]
        u.find(h) is Some && s.find(h) is None implies exists|x: int|
        0 <= x < ws.len() && h == slot_hash(s.vol.super_block, cs, (#[trigger] ws[x]).slot) by {
        if t.find(h) is Some {
            assert(t.find(h) is Some && s.find(h) is None);
        }
    }
}

/// Nothing stands before the first inode of a directory.
pub proof fn lemma_first_slot(s: FsState, i: int, cs: Seq<ClusterID>, ws: Seq<Held>)
    requires
        dir_raw(s, i, cs, ws, 0),
    ensures
        between(ws, 0, 0),
{
    reveal(between);
    if ws.len() > 0 {
        lemma_raw_places(s, i, cs, ws, 0, 0);
    }
}

/// Listing a directory without its first inodes lists the others, in the order in which
/// they stand, and opens everything in it, unless nothing is left to be listed.
pub proof fn law_listing_opens(
    s: FsState,
    i: int,
    cs: Seq<ClusterID>,
    ws: Seq<Held>,
    skipped: int,
    before: Seq<DirentView>,
)
    requires
        dir_raw(s, i, cs, ws, 0),
        0 <= skipped < ws.len(),
        crate::exfat::fs::namei::listed(s, i, skipped, before).2 is Ok,
    ensures
        ({
            let (t, out, r) = crate::exfat::fs::namei::listed(s, i, skipped, before);
            let es = opened_list(t, cs, ws);
            &&& more_open(s, t)
            &&& dir_ok(t, i, cs, es)
            &&& r == Ok::<usize, Errno>((ws.len() - skipped) as usize)
            &&& out == before + listing(t, es.skip(skipped))
        }),
{
    assert(s.nodes[i].num_subdir == ws.len() && is_dir(s, i, cs)) by {
        reveal(dir_raw);
    }
    let all = ws.len() as int;
    lemma_first_slot(s, i, cs, ws);
    lemma_some_opened(s, i, cs, ws, 0, 0, skipped as nat, Seq::empty());
    let (s1, _, r1) = dirs_read(s, i, 0, skipped as nat, Seq::empty());
    let slot = r1->Ok_0 as int;
    lemma_some_opened(s1, i, cs, ws, skipped, slot, (all - skipped) as nat, before);
    let (t, out, r) = dirs_read(s1, i, slot, (all - skipped) as nat, before);
    lemma_more_open(s, s1, t);
    lemma_all_open(t, i, cs, ws);
    let es = opened_list(t, cs, ws);
    assert(es.subrange(skipped, all) =~= es.skip(skipped));
}

/// Looking for a name in a directory that can be read opens everything in it.
pub proof fn lemma_looking_opens(
    s: FsState,
    i: int,
    cs: Seq<ClusterID>,
    ws: Seq<Held>,
    name: Seq<char>,
)
    requires
        dir_raw(s, i, cs, ws, 0),
        readable(s, i),
    ensures
        ({
            let t = name_found(s, i, name).0;
            let es = opened_list(t, cs, ws);
            &&& more_open(s, t)
            &&& only_these(s, t, cs, ws)
            &&& t.nodes.len() <= s.nodes.len() + ws.len()
            &&& dir_ok(t, i, cs, es)
            &&& es == opened_list(after_reading(s, i), cs, ws)
            &&& t == after_reading(s, i).with_vol(t.vol)
        }),
{
    reveal(name_found);
    assert(is_dir(s, i, cs)) by {
        reveal(dir_raw);
    }
    law_reading_opens(s, i, cs, ws);
    let (s1, entries, r1) = dirs_read(s, i, 0, s.nodes[i].num_subdir as nat, Seq::empty());
    let t = name_found(s, i, name).0;
    let es = opened_list(s1, cs, ws);
    crate::exfat::laws::dir::lemma_dir_ok(s1, i, cs, es);
    match crate::exfat::fs::dir::named_entry(entries, name, 0) {
        Some(k) => {
            let z = s1.vol.super_block.cluster_size as usize;
            lemma_walk_any(
                s1.vol,
                s1.nodes[i].start_chain.current,
                (entries[k].offset / z) as u32 as nat,
            );
        },
        None => {},
    }
    lemma_found_nodes(s, i, name);
    assert(t == s1.with_vol(t.vol));
    crate::exfat::laws::dir::lemma_dir_cache(s1, t.vol, i, cs, es);
    lemma_more_open(s, s1, t);
    assert forall|h: u64| #[trigger] t.find(h) == s1.find(h) by {}
    assert(opened_list(t, cs, ws) =~= es);
}

/// Looking a name up in a directory that can be read opens everything in it, whether the
/// name is found or not.
pub proof fn law_looking_opens(
    s: FsState,
    i: int,
    cs: Seq<ClusterID>,
    ws: Seq<Held>,
    name: Seq<char>,
)
    requires
        dir_raw(s, i, cs, ws, 0),
        readable(s, i),
        !crate::exfat::fs::namei::too_long(name),
    ensures
        ({
            let t = crate::exfat::fs::namei::looked_up(s, i, name).0;
            let es = opened_list(t, cs, ws);
            &&& more_open(s, t)
            &&& dir_ok(t, i, cs, es)
            &&& es == opened_list(after_reading(s, i), cs, ws)
            &&& t == after_reading(s, i).with_vol(t.vol)
        }),
{
    assert(is_dir(s, i, cs)) by {
        reveal(dir_raw);
    }
    lemma_looking_opens(s, i, cs, ws, name);
}

/// Whether looking for a name in the directory `i` and then reading all of the directory
/// `j`, beginning in the state `o`, opens everything in both: they then are as in the state
/// `s`, but for which FAT entries are kept in memory.
pub open spec fn both_open(
    o: FsState,
    s: FsState,
    i: int,
    cs: Seq<ClusterID>,
    es: Seq<Held>,
    name: Seq<char>,
    j: int,
    ct: Seq<ClusterID>,
    et: Seq<Held>,
) -> bool {
    &&& 0 <= j < o.nodes.len()
    &&& dir_opens(o, after_reading(o, i), i, cs, es)
    &&& dir_opens(crate::exfat::fs::dir::name_found(o, i, name).0, s, j, ct, et)
    &&& dir_ok(s, i, cs, es)
}

/// Looking for the name of an inode of a directory and then for a name in another directory.
pub proof fn lemma_both_found(
    o: FsState,
    s: FsState,
    i: int,
    cs: Seq<ClusterID>,
    es: Seq<Held>,
    k: int,
    j: int,
    ct: Seq<ClusterID>,
    et: Seq<Held>,
    new_name: Seq<char>,
)
    requires
        both_open(o, s, i, cs, es, name_of(s.nodes[es[k].inode]), j, ct, et),
        names_differ(s, es),
        names_differ(s, et),
        0 <= k < es.len(),
    ensures
        is_dir(s, i, cs),
        is_dir(s, j, ct),
        s.nodes[i].num_subdir == es.len(),
        s.nodes[j].num_subdir == et.len(),
        dir_ok(s, i, cs, es),
        dir_ok(s, j, ct, et),
        0 <= i < o.nodes.len(),
        o.nodes[i] == s.nodes[i],
        o.nodes[j] == s.nodes[j],
        ({
            let (s1, r1) = name_found(o, i, name_of(s.nodes[es[k].inode]));
            let (s2, r2) = name_found(s1, j, new_name);
            &&& r1 == Ok::<(usize, usize, usize), Errno>(
                (
                    es[k].inode as usize,
                    (es[k].slot * DENTRY_SIZE) as usize,
                    s.nodes[es[k].inode].dentry_set_size,
                ),
            )
            &&& s2 == s.with_vol(s2.vol)
            &&& only_cache(s.vol, s2.vol)
            &&& vol_ok(s2.vol)
            &&& dir_ok(s2, i, cs, es)
            &&& dir_ok(s2, j, ct, et)
            &&& forall|x: int|
                0 <= x < et.len() && name_of(s.nodes[(#[trigger] et[x]).inode]) == new_name ==> r2
                    == Ok::<(usize, usize, usize), Errno>(
                    (
                        et[x].inode as usize,
                        (et[x].slot * DENTRY_SIZE) as usize,
                        s.nodes[et[x].inode].dentry_set_size,
                    ),
                )
            &&& (forall|x: int|
                0 <= x < et.len() ==> name_of(s.nodes[(#[trigger] et[x]).inode]) != new_name) ==> r2
                == Err::<(usize, usize, usize), Errno>(Errno::ENOENT)
        }),
{
    let m = after_reading(o, i);
    let old_name = name_of(s.nodes[es[k].inode]);
    crate::exfat::laws::dir::lemma_dir_opens(o, m, i, cs, es);
    let s1 = name_found(o, i, old_name).0;
    crate::exfat::laws::dir::lemma_dir_opens(s1, s, j, ct, et);
    lemma_found_nodes(o, i, old_name);
    assert forall|x: int| 0 <= x < es.len() implies m.nodes[(#[trigger] es[x]).inode]
        == s.nodes[es[x].inode] by {
        crate::exfat::laws::dir::lemma_dir_entry(m, i, cs, es, x);
        assert(s.nodes[es[x].inode] == s1.nodes[es[x].inode]);
    }
    assert(names_differ(m, es));
    crate::exfat::laws::dir::law_name_found(o, m, i, cs, es, old_name);
    assert(m.nodes[es[k].inode] == s.nodes[es[k].inode]);
    crate::exfat::laws::dir::law_name_found(s1, s, j, ct, et, new_name);
    let s2 = name_found(s1, j, new_name).0;
    crate::exfat::laws::dir::lemma_dir_ok(s2, j, ct, et);
    crate::exfat::laws::dir::lemma_dir_ok(s, i, cs, es);
    crate::exfat::laws::dir::lemma_dir_cache(s, s2.vol, i, cs, es);
    assert(s.nodes[i] == s1.nodes[i]);
    assert(s.nodes[j] == s1.nodes[j]);
}

/// Looking for a name leaves the inodes as reading the directory leaves them.
proof fn lemma_found_nodes(o: FsState, i: int, name: Seq<char>)
    ensures
        name_found(o, i, name).0 == after_reading(o, i).with_vol(name_found(o, i, name).0.vol),
{
    reveal(name_found);
    let m = after_reading(o, i);
    assert(m =~= m.with_vol(m.vol));
}

/// Two directories in which everything is open stay as they are where a name is looked for
/// in the one and the other is read.
pub proof fn law_both_stay(
    s: FsState,
    i: int,
    cs: Seq<ClusterID>,
    es: Seq<Held>,
    name: Seq<char>,
    j: int,
    ct: Seq<ClusterID>,
    et: Seq<Held>,
)
    requires
        dir_ok(s, i, cs, es),
        names_differ(s, es),
        dir_ok(s, j, ct, et),
    ensures
        both_open(s, s, i, cs, es, name, j, ct, et),
{
    crate::exfat::laws::dir::law_open_stays(s, i, cs, es);
    crate::exfat::laws::dir::lemma_dir_ok(s, i, cs, es);
    crate::exfat::laws::dir::lemma_dir_ok(s, j, ct, et);
    crate::exfat::laws::dir::law_name_found(s, s, i, cs, es, name);
    let s1 = name_found(s, i, name).0;
    crate::exfat::laws::dir::lemma_dir_ok(s1, i, cs, es);
    crate::exfat::laws::dir::lemma_dir_cache(s, s1.vol, j, ct, et);
    crate::exfat::laws::dir::law_open_stays(s1, j, ct, et);
    let m = after_reading(s, i);
    reveal(dir_opens);
    crate::exfat::laws::dir::lemma_dir_cache(s, m.vol, i, cs, es);
    assert(listing(m, es) =~= listing(s, es));
    assert(listing(s1, et) =~= listing(s, et));
    assert(m.with_vol(m.vol) =~= m);
}

/// A directory of which nothing was read stays so where another one is opened, if they
/// share no cluster.
pub proof fn lemma_still_raw(
    s: FsState,
    t: FsState,
    i: int,
    cs: Seq<ClusterID>,
    ws: Seq<Held>,
    j: int,
    ct: Seq<ClusterID>,
    wt: Seq<Held>,
)
    requires
        dir_raw(s, i, cs, ws, 0),
        dir_raw(s, j, ct, wt, 0),
        forall|q: int| 0 <= q < cs.len() ==> !ct.contains(#[trigger] cs[q]),
        more_open(s, t),
        vol_ok(t.vol),
        t.opened_exist(),
        only_these(s, t, cs, ws),
        t.next_ino + wt.len() <= usize::MAX,
        t.nodes.len() + wt.len() <= usize::MAX,
    ensures
        dir_raw(t, j, ct, wt, 0),
{
    reveal(dir_raw);
    let sb = s.vol.super_block;
    crate::exfat::laws::chain::law_chain_kept(
        s.vol,
        t.vol,
        s.nodes[j].start_chain,
        ct,
        Set::empty(),
    );
    assert(t.nodes[j] == s.nodes[j]);
    assert(is_dir(t, j, ct));
    assert forall|y: int| 0 <= y < wt.len() implies raw_entry(t, j, ct, #[trigger] wt[y]) by {
        assert(raw_entry(s, j, ct, wt[y]));
        let h = slot_hash(sb, ct, wt[y].slot);
        if t.find(h) is Some && s.find(h) is None {
            let x = choose|x: int|
                0 <= x < ws.len() && h == slot_hash(sb, cs, (#[trigger] ws[x]).slot);
            lemma_raw_places(s, i, cs, ws, 0, x);
            lemma_raw_places(s, j, ct, wt, 0, y);
            let z = sb.cluster_size as int;
            let a = ws[x].slot * DENTRY_SIZE;
            let b = wt[y].slot * DENTRY_SIZE;
            crate::exfat::laws::dir::lemma_slot_walk(s.vol, s.nodes[i].start_chain, cs, ws[x].slot);
            crate::exfat::laws::dir::lemma_slot_walk(s.vol, s.nodes[j].start_chain, ct, wt[y].slot);
            crate::exfat::inode::law_hash_tells_places_apart(
                cs[a / z],
                (a % z) as u32,
                ct[b / z],
                (b % z) as u32,
            );
            assert(ct.contains(cs[a / z]));
        } else if t.find(h) is Some {
            assert(t.find(h) == s.find(h));
            let c = s.find(h)->Some_0 as int;
            assert(t.nodes[c] == s.nodes[c]);
        }
    }
}

/// A directory in which everything is open holds what it held where more is opened.
proof fn lemma_still_open(s: FsState, t: FsState, i: int, cs: Seq<ClusterID>, es: Seq<Held>)
    requires
        dir_ok(s, i, cs, es),
        more_open(s, t),
        vol_ok(t.vol),
        t.opened_exist(),
        t.nodes.len() <= usize::MAX,
    ensures
        dir_ok(t, i, cs, es),
{
    crate::exfat::laws::dir::lemma_dir_ok(s, i, cs, es);
    crate::exfat::laws::chain::law_chain_kept(
        s.vol,
        t.vol,
        s.nodes[i].start_chain,
        cs,
        Set::empty(),
    );
    assert(laid_out(s.nodes[i].pages, es)) by {
        reveal(dir_ok);
    }
    assert forall|k: int| 0 <= k < es.len() implies crate::exfat::laws::dir::same_place(
        t.nodes[(#[trigger] es[k]).inode],
        s.nodes[es[k].inode],
    ) && t.find(slot_hash(s.vol.super_block, cs, es[k].slot)) == s.find(
        slot_hash(s.vol.super_block, cs, es[k].slot),
    ) by {
        crate::exfat::laws::dir::lemma_dir_entry(s, i, cs, es, k);
        assert(t.nodes[es[k].inode] == s.nodes[es[k].inode]);
    }
    assert(t.nodes[i] == s.nodes[i]);
    assert(t.find(crate::exfat::inode::inode_hash(s.nodes[i])) == s.find(
        crate::exfat::inode::inode_hash(s.nodes[i]),
    ));
    crate::exfat::laws::dir::lemma_dir_frame(s, t, i, cs, es);
}

/// Two directories that share no cluster and can be read are opened where a name is looked
/// for in the one and the other is read.
pub proof fn law_both_are_opened(
    o: FsState,
    i: int,
    cs: Seq<ClusterID>,
    ws: Seq<Held>,
    name: Seq<char>,
    j: int,
    ct: Seq<ClusterID>,
    wt: Seq<Held>,
)
    requires
        dir_raw(o, i, cs, ws, 0),
        dir_raw(o, j, ct, wt, 0),
        forall|q: int| 0 <= q < cs.len() ==> !ct.contains(#[trigger] cs[q]),
        o.next_ino + ws.len() + wt.len() <= usize::MAX,
        o.nodes.len() + ws.len() + wt.len() <= usize::MAX,
        readable(o, i),
        readable(name_found(o, i, name).0, j),
    ensures
        ({
            let s1 = name_found(o, i, name).0;
            let s = after_reading(s1, j);
            &&& more_open(o, s)
            &&& both_open(
                o,
                s,
                i,
                cs,
                opened_list(s1, cs, ws),
                name,
                j,
                ct,
                opened_list(s, ct, wt),
            )
        }),
{
    let s1 = name_found(o, i, name).0;
    let es = opened_list(s1, cs, ws);
    assert(is_dir(o, j, ct)) by {
        reveal(dir_raw);
    }
    law_reading_opens(o, i, cs, ws);
    lemma_looking_opens(o, i, cs, ws, name);
    crate::exfat::laws::dir::lemma_dir_ok(s1, i, cs, es);
    lemma_still_raw(o, s1, i, cs, ws, j, ct, wt);
    law_reading_opens(s1, j, ct, wt);
    let s = after_reading(s1, j);
    lemma_more_open(o, s1, s);
    crate::exfat::laws::dir::lemma_dir_ok(s, j, ct, opened_list(s, ct, wt));
    lemma_still_open(s1, s, i, cs, es);
}

} // verus!
