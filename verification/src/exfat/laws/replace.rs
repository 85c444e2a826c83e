//! Renaming over what is there: it is gone afterwards, and its name gives what was moved.

use vstd::prelude::*;
use crate::errno::Errno;
use crate::exfat::constants::{DENTRY_SIZE, EXFAT_ROOT_INO};
use crate::exfat::dentry::DosTimestamp;
use crate::exfat::fat::ClusterID;
use crate::exfat::fs::FsState;
use crate::exfat::inode::InodeView;
use crate::exfat::laws::chain::{is_chain, taken};
use crate::exfat::laws::create::{has_nul, only_grown};
use crate::exfat::laws::open::both_open;
use crate::exfat::laws::dir::{dir_ok, dir_opens, is_dir, name_of, names_differ, same_place, slot_hash};
use crate::exfat::laws::layout::{laid_out, Held};
use crate::exfat::laws::page::data_ok;
use crate::exfat::laws::remove::{off_limits, others_same, touched};
use crate::exfat::laws::rename::{kept_in_move, proper, separate, shifted};

verus! {

/// Writing an inode back does not depend on which other inodes are open.
proof fn lemma_written_evicted(s: FsState, c: int, hash: u64, sync: bool)
    requires
        0 <= c < s.nodes.len(),
        hash != s.nodes[c].parent_hash,
    ensures
        ({
            let (t, r) = crate::exfat::fs::file::inode_written(s, c, sync);
            crate::exfat::fs::file::inode_written(s.without_opened(hash), c, sync) == (
                t.without_opened(hash),
                r,
            )
        }),
{
    reveal(crate::exfat::fs::file::inode_written);
    assert(s.without_opened(hash).find(s.nodes[c].parent_hash) == s.find(s.nodes[c].parent_hash));
}

/// Resizing an inode does not depend on which other inodes are open.
proof fn lemma_resized_evicted(s: FsState, c: int, hash: u64, new_size: usize)
    requires
        0 <= c < s.nodes.len(),
        hash != s.nodes[c].parent_hash,
    ensures
        ({
            let (t, r) = crate::exfat::fs::file::inode_resized(s, c, new_size);
            crate::exfat::fs::file::inode_resized(s.without_opened(hash), c, new_size) == (
                t.without_opened(hash),
                r,
            )
        }),
{
    reveal(crate::exfat::fs::file::inode_resized);
    let (s1, r1) = crate::exfat::fs::file::clusters_adjusted(s, c, new_size);
    assert(crate::exfat::fs::file::clusters_adjusted(s.without_opened(hash), c, new_size) == (
        s1.without_opened(hash),
        r1,
    ));
    if r1 is Ok {
        let s2 = s1.with_node(c, InodeView { size_allocated: new_size, ..s1.nodes[c] });
        assert(s2.nodes[c].parent_hash == s.nodes[c].parent_hash);
        lemma_written_evicted(s2, c, hash, true);
    }
}

/// Removing an inode does not depend on which other inodes are open.
proof fn lemma_removed_evicted(s: FsState, i: int, c: int, hash: u64, offset: int, len: int)
    requires
        0 <= c < s.nodes.len(),
        hash != s.nodes[c].parent_hash,
    ensures
        ({
            let (t, r) = crate::exfat::fs::namei::removed(s, i, c, offset, len);
            crate::exfat::fs::namei::removed(s.without_opened(hash), i, c, offset, len) == (
                t.without_opened(hash),
                r,
            )
        }),
{
    lemma_resized_evicted(s, c, hash, 0);
    reveal(crate::exfat::fs::dir::entries_deleted);
}

/// A directory holds what it holds where the inode of another place is no longer open.
pub proof fn lemma_dir_evicted(
    s: FsState,
    i: int,
    cs: Seq<ClusterID>,
    es: Seq<Held>,
    hash: u64,
)
    requires
        dir_ok(s, i, cs, es),
        hash != crate::exfat::inode::inode_hash(s.nodes[i]),
        forall|k: int|
            0 <= k < es.len() ==> slot_hash(s.vol.super_block, cs, (#[trigger] es[k]).slot)
                != hash,
    ensures
        dir_ok(s.without_opened(hash), i, cs, es),
{
    crate::exfat::laws::dir::lemma_dir_ok(s, i, cs, es);
    let t = s.without_opened(hash);
    assert(laid_out(t.nodes[i].pages, es)) by {
        reveal(dir_ok);
    }
    assert(t.opened_exist());
    crate::exfat::laws::dir::lemma_dir_frame(s, t, i, cs, es);
}

/// What taking an inode out of a directory and closing it makes of the file system.
pub open spec fn thrown_out(
    s: FsState,
    t: FsState,
    i: int,
    cs: Seq<ClusterID>,
    es: Seq<Held>,
    k: int,
    xs: Seq<ClusterID>,
) -> bool {
    &&& dir_ok(t, i, cs, es.remove(k))
    &&& t.opened == s.opened.remove(slot_hash(s.vol.super_block, cs, es[k].slot))
    &&& t.nodes.len() == s.nodes.len()
    &&& forall|j: int|
        0 <= j < s.nodes.len() && j != es[k].inode && j != i ==> #[trigger] t.nodes[j]
            == s.nodes[j]
    &&& t.nodes[i] == (InodeView {
        pages: t.nodes[i].pages,
        num_subdir: t.nodes[i].num_subdir,
        ..s.nodes[i]
    })
    &&& crate::exfat::bitmap::count_free(t.vol.bits) == crate::exfat::bitmap::count_free(
        s.vol.bits,
    ) + xs.len()
    &&& others_same(s.vol, t.vol, touched(xs, Seq::empty()))
}

/// Removing an inode after another one took its name.
proof fn lemma_replaced(
    s: FsState,
    i: int,
    cs: Seq<ClusterID>,
    es: Seq<Held>,
    k: int,
    xs: Seq<ClusterID>,
)
    requires
        dir_ok(s, i, cs, es),
        data_ok(s.vol),
        0 <= k < es.len(),
        is_chain(s.vol, s.nodes[es[k].inode].start_chain, xs),
        off_limits(s, i, cs, xs),
    ensures
        ({
            let (t, r) = crate::exfat::fs::namei::replaced(
                s,
                i,
                es[k].inode,
                es[k].slot * DENTRY_SIZE,
                es[k].width * DENTRY_SIZE,
            );
            &&& r == Ok::<(), Errno>(())
            &&& thrown_out(s, t, i, cs, es, k, xs)
        }),
{
    reveal(crate::exfat::fs::namei::replaced);
    crate::exfat::laws::dir::lemma_dir_ok(s, i, cs, es);
    crate::exfat::laws::dir::lemma_dir_entry(s, i, cs, es, k);
    let c = es[k].inode;
    let at = es[k].slot * DENTRY_SIZE;
    let len = es[k].width * DENTRY_SIZE;
    let hash = slot_hash(s.vol.super_block, cs, es[k].slot);
    crate::exfat::laws::dir::lemma_own_hash(s, i, cs, es[k].slot);
    lemma_removed_evicted(s, i, c, hash, at, len);
    crate::exfat::laws::remove::lemma_removed(s, i, cs, es, k, xs);
    let (u, r) = crate::exfat::fs::namei::removed(s, i, c, at, len);
    let fs = es.remove(k);
    assert forall|x: int| 0 <= x < fs.len() implies slot_hash(
        u.vol.super_block,
        cs,
        (#[trigger] fs[x]).slot,
    ) != hash by {
        let y = if x < k {
            x
        } else {
            x + 1
        };
        assert(fs[x] == es[y]);
        crate::exfat::laws::dir::lemma_dir_entry(s, i, cs, es, y);
        crate::exfat::laws::remove::lemma_inodes_differ(s, i, cs, es, y, k);
    }
    lemma_dir_evicted(u, i, cs, fs, hash);
}

/// A chain apart from a directory stays one where the directory grows.
proof fn lemma_chain_beside(
    s: FsState,
    t: FsState,
    j: int,
    cs: Seq<ClusterID>,
    ds: Seq<ClusterID>,
    chain: crate::exfat::chain::ExfatChain,
    xs: Seq<ClusterID>,
)
    requires
        only_grown(s, t, cs, ds),
        is_dir(t, j, cs + ds),
        is_chain(s.vol, chain, xs),
        off_limits(s, j, cs, xs),
        t.nodes[j].ino == s.nodes[j].ino,
        t.nodes[j].dentry_set_position == s.nodes[j].dentry_set_position,
    ensures
        is_chain(t.vol, chain, xs),
        off_limits(t, j, cs + ds, xs),
{
    let all = cs + ds;
    let changed = crate::exfat::laws::chain::either(cs, ds);
    assert forall|q: int| 0 <= q < xs.len() implies !changed.contains(#[trigger] xs[q]) by {
        assert(taken(s.vol, xs[q]));
        crate::exfat::laws::rename::lemma_still_taken(s, t, j, cs, ds, xs[q]);
        if cs.contains(xs[q]) {
            let m = choose|m: int| 0 <= m < cs.len() && cs[m] == xs[q];
            assert(!xs.contains(cs[m]));
        }
    }
    crate::exfat::laws::chain::law_chain_kept(s.vol, t.vol, chain, xs, changed);
    assert forall|q: int| 0 <= q < all.len() implies !xs.contains(#[trigger] all[q]) by {
        if q < cs.len() {
            assert(all[q] == cs[q]);
        } else {
            assert(all[q] == ds[q - cs.len()]);
            assert(!taken(s.vol, ds[q - cs.len()]));
            if xs.contains(all[q]) {
                let m = choose|m: int| 0 <= m < xs.len() && xs[m] == all[q];
                assert(taken(s.vol, xs[m]));
            }
        }
    }
}

/// The number of an inode where the one with the number `k` was taken out.
pub open spec fn closed_up(k: int, x: int) -> int {
    if x < k {
        x
    } else {
        x - 1
    }
}

/// Whether all inodes but the directory `i`, the inode `c` that was moved and the inode `x`
/// that was replaced are as before, but for the hashes of their directories.
pub open spec fn others_kept(s: FsState, f: FsState, i: int, c: int, x: int) -> bool {
    forall|q: int|
        0 <= q < s.nodes.len() && q != i && q != c && q != x ==> (#[trigger] f.nodes[q]) == (
        InodeView { parent_hash: f.nodes[q].parent_hash, ..s.nodes[q] })
}

/// The file system after a file or directory got a new name in its directory, and what
/// had this name is removed.
proof fn lemma_over_within(
    s: FsState,
    i: int,
    cs: Seq<ClusterID>,
    es: Seq<Held>,
    k: int,
    x: int,
    xs: Seq<ClusterID>,
    new_name: Seq<char>,
    now: DosTimestamp,
) -> (r: (Seq<ClusterID>, int, Held))
    requires
        dir_ok(s, i, cs, es),
        data_ok(s.vol),
        0 <= k < es.len(),
        0 <= x < es.len(),
        k != x,
        !crate::exfat::fs::namei::too_long(new_name),
        !has_nul(new_name),
        is_chain(s.vol, s.nodes[es[x].inode].start_chain, xs),
        off_limits(s, i, cs, xs),
        s.nodes.len() < usize::MAX,
        es.len() < u32::MAX,
        s.next_ino != EXFAT_ROOT_INO,
        crate::exfat::fs::dir::entry_added(
            s,
            i,
            new_name,
            s.nodes[es[k].inode].inode_type,
            now,
        ).1 is Ok,
    ensures
        ({
            let c = es[k].inode;
            let (s3, q3) = crate::exfat::fs::namei::moved(
                s,
                i,
                c,
                es[k].slot * DENTRY_SIZE,
                es[k].width * DENTRY_SIZE,
                i,
                new_name,
                now,
            );
            let (f, q) = crate::exfat::fs::namei::replaced(
                s3,
                i,
                es[x].inode,
                es[x].slot * DENTRY_SIZE,
                es[x].width * DENTRY_SIZE,
            );
            let (ds, p, e) = r;
            let left = es.remove(k).remove(closed_up(k, x));
            &&& q3 == Ok::<(), Errno>(())
            &&& q == Ok::<(), Errno>(())
            &&& e.inode == c
            &&& 0 <= p <= left.len()
            &&& dir_ok(f, i, cs + ds, left.insert(p, e))
            &&& name_of(f.nodes[c]) == new_name
            &&& kept_in_move(s.nodes[c], f.nodes[c])
            &&& forall|q: int|
                0 <= q < s.nodes.len() && q != c && q != es[x].inode ==> (
                #[trigger] f.nodes[q]).name == s.nodes[q].name
            &&& others_kept(s, f, i, c, es[x].inode)
        }),
{
    let c = es[k].inode;
    crate::exfat::laws::dir::lemma_dir_ok(s, i, cs, es);
    crate::exfat::laws::dir::lemma_dir_entry(s, i, cs, es, k);
    crate::exfat::laws::dir::lemma_dir_entry(s, i, cs, es, x);
    crate::exfat::laws::remove::lemma_inodes_differ(s, i, cs, es, x, k);
    let at = es[k].slot * DENTRY_SIZE;
    let len = es[k].width * DENTRY_SIZE;
    let (ds, p, e) = crate::exfat::laws::rename::lemma_moved_within(
        s,
        i,
        cs,
        es,
        k,
        new_name,
        now,
    );
    let s3 = crate::exfat::fs::namei::moved(s, i, c, at, len, i, new_name, now).0;
    crate::exfat::laws::rename::lemma_insert_remove(es, p, e, k);
    let p1 = if p <= k {
        p
    } else {
        p - 1
    };
    let rest = es.remove(k);
    let list = rest.insert(p1, e);
    let x1 = closed_up(k, x);
    assert(rest[x1] == es[x]);
    let x2 = shifted(p1, x1);
    assert(list[x2] == es[x]);
    crate::exfat::laws::dir::lemma_dir_ok(s3, i, cs + ds, list);
    let chain = s.nodes[es[x].inode].start_chain;
    lemma_chain_beside(s, s3, i, cs, ds, chain, xs);
    lemma_replaced(s3, i, cs + ds, list, x2, xs);
    crate::exfat::laws::rename::lemma_insert_remove(rest, p1, e, x1);
    let p2 = if p1 <= x1 {
        p1
    } else {
        p1 - 1
    };
    (ds, p2, e)
}

/// Giving a file or directory the name of another one of the same directory that it may
/// replace: the name gives what was moved, the old name nothing, and every other name
/// what it gave before; its contents stay, and the directory holds what it held but for
/// what was replaced.
pub proof fn law_renamed_over_within(
    o: FsState,
    s: FsState,
    i: int,
    cs: Seq<ClusterID>,
    es: Seq<Held>,
    k: int,
    x: int,
    xs: Seq<ClusterID>,
    now: DosTimestamp,
) -> (r: (Seq<ClusterID>, int, Held))
    requires
        dir_opens(o, s, i, cs, es),
        names_differ(s, es),
        data_ok(s.vol),
        0 <= k < es.len(),
        0 <= x < es.len(),
        k != x,
        !has_nul(name_of(s.nodes[es[x].inode])),
        is_chain(s.vol, s.nodes[es[x].inode].start_chain, xs),
        off_limits(s, i, cs, xs),
        s.nodes.len() < usize::MAX,
        es.len() < u32::MAX,
        s.next_ino != EXFAT_ROOT_INO,
        crate::exfat::fs::namei::renamed(
            o,
            i,
            name_of(s.nodes[es[k].inode]),
            i,
            name_of(s.nodes[es[x].inode]),
            now,
        ).1 is Ok,
    ensures
        ({
            let c = es[k].inode;
            let old_name = name_of(s.nodes[c]);
            let new_name = name_of(s.nodes[es[x].inode]);
            let (f, q) = crate::exfat::fs::namei::renamed(o, i, old_name, i, new_name, now);
            let (ds, p, e) = r;
            let left = es.remove(k).remove(closed_up(k, x));
            &&& kept_in_move(s.nodes[c], f.nodes[c])
            &&& others_kept(s, f, i, c, es[x].inode)
            &&& e.inode == c
            &&& name_of(f.nodes[c]) == new_name
            &&& 0 <= p <= left.len()
            &&& dir_ok(f, i, cs + ds, left.insert(p, e))
            &&& names_differ(f, left.insert(p, e))
            &&& forall|other: Seq<char>|
                !crate::exfat::fs::namei::too_long(other) ==> (#[trigger]
                crate::exfat::fs::namei::looked_up(f, i, other)).1 == (if other == new_name {
                    Ok::<usize, Errno>(c as usize)
                } else if other == old_name {
                    Err::<usize, Errno>(Errno::ENOENT)
                } else {
                    crate::exfat::fs::namei::looked_up(o, i, other).1
                })
        }),
{
    let c = es[k].inode;
    let old_name = name_of(s.nodes[c]);
    let new_name = name_of(s.nodes[es[x].inode]);
    crate::exfat::laws::dir::lemma_dir_opens(o, s, i, cs, es);
    crate::exfat::laws::dir::lemma_dir_entry(s, i, cs, es, k);
    crate::exfat::laws::dir::lemma_dir_entry(s, i, cs, es, x);
    crate::exfat::laws::remove::lemma_inodes_differ(s, i, cs, es, x, k);
    assert(old_name != new_name) by {
        if k < x {
            assert(name_of(s.nodes[es[k].inode]) != name_of(s.nodes[es[x].inode]));
        } else {
            assert(name_of(s.nodes[es[x].inode]) != name_of(s.nodes[es[k].inode]));
        }
    }
    crate::exfat::laws::dir::law_name_found(o, s, i, cs, es, old_name);
    let (s1, r1) = crate::exfat::fs::dir::name_found(o, i, old_name);
    crate::exfat::laws::dir::law_open_stays(s1, i, cs, es);
    crate::exfat::laws::dir::law_name_found(s1, s1, i, cs, es, new_name);
    let (s2, r2) = crate::exfat::fs::dir::name_found(s1, i, new_name);
    let at = es[k].slot * DENTRY_SIZE;
    let len = es[k].width * DENTRY_SIZE;
    crate::exfat::laws::rename::lemma_moved_adds(s2, i, c, at, len, i, new_name, now);
    let chain = s.nodes[es[x].inode].start_chain;
    crate::exfat::laws::chain::law_chain_kept(s.vol, s2.vol, chain, xs, Set::empty());
    let (ds, p2, e) = lemma_over_within(s2, i, cs, es, k, x, xs, new_name, now);
    let (f, q) = crate::exfat::fs::namei::renamed(o, i, old_name, i, new_name, now);
    let rest = es.remove(k);
    let x1 = closed_up(k, x);
    assert(rest[x1] == es[x]);
    let left = rest.remove(x1);
    let fs = left.insert(p2, e);
    crate::exfat::laws::remove::lemma_names_removed(s, s, es, k);
    crate::exfat::laws::remove::lemma_names_removed(s, s, rest, x1);
    assert forall|z: int| 0 <= z < left.len() implies name_of(f.nodes[(#[trigger] left[z]).inode])
        == name_of(s.nodes[left[z].inode]) && name_of(f.nodes[left[z].inode]) != name_of(
        f.nodes[e.inode],
    ) by {
        let y1 = if z < x1 {
            z
        } else {
            z + 1
        };
        let y = if y1 < k {
            y1
        } else {
            y1 + 1
        };
        assert(left[z] == rest[y1]);
        assert(rest[y1] == es[y]);
        crate::exfat::laws::dir::lemma_dir_entry(s, i, cs, es, y);
        crate::exfat::laws::remove::lemma_inodes_differ(s, i, cs, es, y, k);
        crate::exfat::laws::remove::lemma_inodes_differ(s, i, cs, es, y, x);
        if y < x {
            assert(name_of(s.nodes[es[y].inode]) != name_of(s.nodes[es[x].inode]));
        } else {
            assert(name_of(s.nodes[es[x].inode]) != name_of(s.nodes[es[y].inode]));
        }
    }
    crate::exfat::laws::create::lemma_names_added(s, f, left, p2, e);
    assert forall|other: Seq<char>| !crate::exfat::fs::namei::too_long(other) implies (#[trigger]
    crate::exfat::fs::namei::looked_up(f, i, other)).1 == (if other == new_name {
        Ok::<usize, Errno>(c as usize)
    } else if other == old_name {
        Err::<usize, Errno>(Errno::ENOENT)
    } else {
        crate::exfat::fs::namei::looked_up(o, i, other).1
    }) by {
        crate::exfat::laws::dir::lemma_looked_up(f, i, cs + ds, fs, other);
        crate::exfat::laws::dir::law_looked_up(o, s, i, cs, es, other);
        crate::exfat::laws::dir::lemma_found_remove(s, s, es, k, other);
        crate::exfat::laws::dir::lemma_found_remove(s, s, rest, x1, other);
        crate::exfat::laws::dir::lemma_found_insert(s, f, left, p2, e, other);
    }
    (ds, p2, e)
}

/// Giving a file or directory the name of another one of the same directory that it may
/// replace succeeds where there is room for one more name.
pub proof fn law_rename_over_succeeds_within(
    o: FsState,
    s: FsState,
    i: int,
    cs: Seq<ClusterID>,
    es: Seq<Held>,
    k: int,
    x: int,
    xs: Seq<ClusterID>,
    now: DosTimestamp,
)
    requires
        dir_opens(o, s, i, cs, es),
        names_differ(s, es),
        data_ok(s.vol),
        0 <= k < es.len(),
        0 <= x < es.len(),
        k != x,
        proper(name_of(s.nodes[es[k].inode])),
        proper(name_of(s.nodes[es[x].inode])),
        !has_nul(name_of(s.nodes[es[x].inode])),
        0 < name_of(s.nodes[es[x].inode]).len(),
        crate::exfat::fs::namei::may_replace(s.nodes[es[k].inode], s.nodes[es[x].inode]) is Ok,
        is_chain(s.vol, s.nodes[es[x].inode].start_chain, xs),
        off_limits(s, i, cs, xs),
        s.nodes.len() < usize::MAX,
        es.len() < u32::MAX,
        s.next_ino != EXFAT_ROOT_INO,
        crate::exfat::laws::create::has_room(s, i, name_of(s.nodes[es[x].inode])),
    ensures
        crate::exfat::fs::namei::renamed(
            o,
            i,
            name_of(s.nodes[es[k].inode]),
            i,
            name_of(s.nodes[es[x].inode]),
            now,
        ).1 is Ok,
{
    let c = es[k].inode;
    let old_name = name_of(s.nodes[c]);
    let new_name = name_of(s.nodes[es[x].inode]);
    crate::exfat::laws::dir::lemma_dir_opens(o, s, i, cs, es);
    crate::exfat::laws::dir::lemma_dir_entry(s, i, cs, es, k);
    crate::exfat::laws::dir::lemma_dir_entry(s, i, cs, es, x);
    crate::exfat::laws::dir::law_name_found(o, s, i, cs, es, old_name);
    let (s1, r1) = crate::exfat::fs::dir::name_found(o, i, old_name);
    crate::exfat::laws::dir::law_open_stays(s1, i, cs, es);
    crate::exfat::laws::dir::law_name_found(s1, s1, i, cs, es, new_name);
    let (s2, r2) = crate::exfat::fs::dir::name_found(s1, i, new_name);
    let ty = s.nodes[c].inode_type;
    crate::exfat::laws::create::lemma_entry_added_succeeds(s2, i, cs, es, new_name, ty, now);
    let chain = s.nodes[es[x].inode].start_chain;
    crate::exfat::laws::chain::law_chain_kept(s.vol, s2.vol, chain, xs, Set::empty());
    lemma_over_within(s2, i, cs, es, k, x, xs, new_name, now);
}

/// A directory holds what it held where another directory throws an inode out.
proof fn lemma_beside_thrown_out(
    s: FsState,
    f: FsState,
    i: int,
    cs: Seq<ClusterID>,
    es: Seq<Held>,
    j: int,
    ct: Seq<ClusterID>,
    et: Seq<Held>,
    x: int,
    xs: Seq<ClusterID>,
)
    requires
        dir_ok(s, i, cs, es),
        dir_ok(s, j, ct, et),
        i != j,
        0 <= x < et.len(),
        et[x].inode != i,
        off_limits(s, i, cs, xs),
        thrown_out(s, f, j, ct, et, x, xs),
    ensures
        dir_ok(f, i, cs, es),
{
    crate::exfat::laws::dir::lemma_dir_ok(s, i, cs, es);
    crate::exfat::laws::dir::lemma_dir_ok(s, j, ct, et);
    crate::exfat::laws::dir::lemma_dir_entry(s, j, ct, et, x);
    crate::exfat::laws::dir::lemma_dir_ok(f, j, ct, et.remove(x));
    let changed = touched(xs, Seq::empty());
    assert forall|q: int| 0 <= q < cs.len() implies !changed.contains(#[trigger] cs[q]) by {
        assert(!xs.contains(cs[q]));
    }
    crate::exfat::laws::remove::lemma_chain_stays(
        s.vol,
        f.vol,
        s.nodes[i].start_chain,
        cs,
        changed,
    );
    assert(f.nodes[i] == s.nodes[i]);
    if s.nodes[i].ino != EXFAT_ROOT_INO {
        let home = s.nodes[i].dentry_set_position.0.current;
        assert(!changed.contains(home));
        assert(crate::exfat::laws::chain::fat_of(f.vol, home)
            == crate::exfat::laws::chain::fat_of(s.vol, home));
    }
    assert forall|y: int| 0 <= y < es.len() implies same_place(
        f.nodes[(#[trigger] es[y]).inode],
        s.nodes[es[y].inode],
    ) && f.find(slot_hash(s.vol.super_block, cs, es[y].slot)) == s.find(
        slot_hash(s.vol.super_block, cs, es[y].slot),
    ) by {
        crate::exfat::laws::dir::lemma_dir_entry(s, i, cs, es, y);
        assert(es[y].inode != et[x].inode);
    }
    assert(laid_out(f.nodes[i].pages, es)) by {
        reveal(dir_ok);
    }
    crate::exfat::laws::dir::lemma_dir_frame(s, f, i, cs, es);
}

/// The file system after a file or directory was moved to another directory, and what
/// had its new name there is removed.
proof fn lemma_over_between(
    s: FsState,
    i: int,
    cs: Seq<ClusterID>,
    es: Seq<Held>,
    k: int,
    j: int,
    ct: Seq<ClusterID>,
    et: Seq<Held>,
    x: int,
    xs: Seq<ClusterID>,
    new_name: Seq<char>,
    now: DosTimestamp,
) -> (r: (Seq<ClusterID>, int, Held))
    requires
        dir_ok(s, i, cs, es),
        dir_ok(s, j, ct, et),
        separate(s, i, cs, j, ct, et),
        data_ok(s.vol),
        0 <= k < es.len(),
        es[k].inode != j,
        0 <= x < et.len(),
        et[x].inode != i,
        !crate::exfat::fs::namei::too_long(new_name),
        !has_nul(new_name),
        is_chain(s.vol, s.nodes[et[x].inode].start_chain, xs),
        off_limits(s, i, cs, xs),
        off_limits(s, j, ct, xs),
        s.nodes.len() < usize::MAX,
        et.len() < u32::MAX,
        s.next_ino != EXFAT_ROOT_INO,
        crate::exfat::fs::dir::entry_added(
            s,
            j,
            new_name,
            s.nodes[es[k].inode].inode_type,
            now,
        ).1 is Ok,
    ensures
        ({
            let c = es[k].inode;
            let (s3, q3) = crate::exfat::fs::namei::moved(
                s,
                i,
                c,
                es[k].slot * DENTRY_SIZE,
                es[k].width * DENTRY_SIZE,
                j,
                new_name,
                now,
            );
            let (f, q) = crate::exfat::fs::namei::replaced(
                s3,
                j,
                et[x].inode,
                et[x].slot * DENTRY_SIZE,
                et[x].width * DENTRY_SIZE,
            );
            let (ds, p, e) = r;
            &&& q3 == Ok::<(), Errno>(())
            &&& q == Ok::<(), Errno>(())
            &&& e.inode == c
            &&& 0 <= p <= et.len() - 1
            &&& dir_ok(f, i, cs, es.remove(k))
            &&& dir_ok(f, j, ct + ds, et.remove(x).insert(p, e))
            &&& name_of(f.nodes[c]) == new_name
            &&& kept_in_move(s.nodes[c], f.nodes[c])
            &&& forall|q: int|
                0 <= q < s.nodes.len() && q != c && q != et[x].inode ==> (
                #[trigger] f.nodes[q]).name == s.nodes[q].name
        }),
{
    let c = es[k].inode;
    crate::exfat::laws::dir::lemma_dir_ok(s, i, cs, es);
    crate::exfat::laws::dir::lemma_dir_ok(s, j, ct, et);
    crate::exfat::laws::dir::lemma_dir_entry(s, i, cs, es, k);
    crate::exfat::laws::dir::lemma_dir_entry(s, j, ct, et, x);
    assert(et[x].inode != c);
    let at = es[k].slot * DENTRY_SIZE;
    let len = es[k].width * DENTRY_SIZE;
    let (ds, p, e) = crate::exfat::laws::rename::lemma_moved_between(
        s,
        i,
        cs,
        es,
        k,
        j,
        ct,
        et,
        new_name,
        now,
    );
    let s3 = crate::exfat::fs::namei::moved(s, i, c, at, len, j, new_name, now).0;
    let list = et.insert(p, e);
    let x2 = shifted(p, x);
    assert(list[x2] == et[x]);
    crate::exfat::laws::dir::lemma_dir_ok(s3, j, ct + ds, list);
    let chain = s.nodes[et[x].inode].start_chain;
    lemma_chain_beside(s, s3, j, ct, ds, chain, xs);
    lemma_replaced(s3, j, ct + ds, list, x2, xs);
    let f = crate::exfat::fs::namei::replaced(
        s3,
        j,
        et[x].inode,
        et[x].slot * DENTRY_SIZE,
        et[x].width * DENTRY_SIZE,
    ).0;
    lemma_beside_thrown_out(s3, f, i, cs, es.remove(k), j, ct + ds, list, x2, xs);
    crate::exfat::laws::rename::lemma_insert_remove(et, p, e, x);
    let p1 = if p <= x {
        p
    } else {
        p - 1
    };
    (ds, p1, e)
}

/// Moving a file or directory to another directory under a name of something there that
/// it may replace: the name gives what was moved, it is no longer where it was, and every
/// other name gives what it gave before in both directories; its contents stay.
pub proof fn law_renamed_over_between(
    o: FsState,
    s: FsState,
    i: int,
    cs: Seq<ClusterID>,
    es: Seq<Held>,
    k: int,
    j: int,
    ct: Seq<ClusterID>,
    et: Seq<Held>,
    x: int,
    xs: Seq<ClusterID>,
    now: DosTimestamp,
) -> (r: (Seq<ClusterID>, int, Held))
    requires
        both_open(o, s, i, cs, es, name_of(s.nodes[es[k].inode]), j, ct, et),
        names_differ(s, es),
        names_differ(s, et),
        separate(s, i, cs, j, ct, et),
        s.nodes[i].ino != s.nodes[j].ino,
        data_ok(s.vol),
        0 <= k < es.len(),
        es[k].inode != j,
        0 <= x < et.len(),
        !has_nul(name_of(s.nodes[et[x].inode])),
        is_chain(s.vol, s.nodes[et[x].inode].start_chain, xs),
        off_limits(s, i, cs, xs),
        off_limits(s, j, ct, xs),
        s.nodes.len() < usize::MAX,
        et.len() < u32::MAX,
        s.next_ino != EXFAT_ROOT_INO,
        crate::exfat::fs::namei::renamed(
            o,
            i,
            name_of(s.nodes[es[k].inode]),
            j,
            name_of(s.nodes[et[x].inode]),
            now,
        ).1 is Ok,
    ensures
        ({
            let c = es[k].inode;
            let old_name = name_of(s.nodes[c]);
            let new_name = name_of(s.nodes[et[x].inode]);
            let (f, q) = crate::exfat::fs::namei::renamed(o, i, old_name, j, new_name, now);
            let (ds, p, e) = r;
            &&& kept_in_move(s.nodes[c], f.nodes[c])
            &&& e.inode == c
            &&& name_of(f.nodes[c]) == new_name
            &&& 0 <= p < et.len()
            &&& dir_ok(f, i, cs, es.remove(k))
            &&& names_differ(f, es.remove(k))
            &&& dir_ok(f, j, ct + ds, et.remove(x).insert(p, e))
            &&& names_differ(f, et.remove(x).insert(p, e))
            &&& forall|other: Seq<char>|
                !crate::exfat::fs::namei::too_long(other) ==> (#[trigger]
                crate::exfat::fs::namei::looked_up(f, j, other)).1 == (if other == new_name {
                    Ok::<usize, Errno>(c as usize)
                } else {
                    crate::exfat::fs::namei::looked_up(s, j, other).1
                })
            &&& forall|other: Seq<char>|
                !crate::exfat::fs::namei::too_long(other) ==> (#[trigger]
                crate::exfat::fs::namei::looked_up(f, i, other)).1 == (if other == old_name {
                    Err::<usize, Errno>(Errno::ENOENT)
                } else {
                    crate::exfat::fs::namei::looked_up(s, i, other).1
                })
        }),
{
    let c = es[k].inode;
    let old_name = name_of(s.nodes[c]);
    let new_name = name_of(s.nodes[et[x].inode]);
    crate::exfat::laws::open::lemma_both_found(o, s, i, cs, es, k, j, ct, et, new_name);
    crate::exfat::laws::dir::lemma_dir_entry(s, i, cs, es, k);
    crate::exfat::laws::dir::lemma_dir_entry(s, j, ct, et, x);
    let s1 = crate::exfat::fs::dir::name_found(o, i, old_name).0;
    let s2 = crate::exfat::fs::dir::name_found(s1, j, new_name).0;
    let at = es[k].slot * DENTRY_SIZE;
    let len = es[k].width * DENTRY_SIZE;
    crate::exfat::laws::rename::lemma_moved_adds(s2, i, c, at, len, j, new_name, now);
    assert(separate(s2, i, cs, j, ct, et));
    let chain = s.nodes[et[x].inode].start_chain;
    crate::exfat::laws::chain::law_chain_kept(s.vol, s2.vol, chain, xs, Set::empty());
    let (ds, p, e) = lemma_over_between(s2, i, cs, es, k, j, ct, et, x, xs, new_name, now);
    let (f, q) = crate::exfat::fs::namei::renamed(o, i, old_name, j, new_name, now);
    lemma_names_over(s, f, i, cs, es, k, j, ct, ct + ds, et, x, p, e);
    (ds, p, e)
}

/// Which names directories give after an inode was moved over another one.
proof fn lemma_names_over(
    s: FsState,
    f: FsState,
    i: int,
    cs: Seq<ClusterID>,
    es: Seq<Held>,
    k: int,
    j: int,
    ct: Seq<ClusterID>,
    ct1: Seq<ClusterID>,
    et: Seq<Held>,
    x: int,
    p: int,
    e: Held,
)
    requires
        dir_ok(s, i, cs, es),
        names_differ(s, es),
        dir_ok(s, j, ct, et),
        names_differ(s, et),
        i != j,
        0 <= k < es.len(),
        0 <= x < et.len(),
        0 <= p <= et.len() - 1,
        e.inode == es[k].inode,
        dir_ok(f, i, cs, es.remove(k)),
        dir_ok(f, j, ct1, et.remove(x).insert(p, e)),
        name_of(f.nodes[e.inode]) == name_of(s.nodes[et[x].inode]),
        forall|q: int|
            0 <= q < s.nodes.len() && q != e.inode && q != et[x].inode ==> (
            #[trigger] f.nodes[q]).name == s.nodes[q].name,
    ensures
        names_differ(f, es.remove(k)),
        names_differ(f, et.remove(x).insert(p, e)),
        forall|other: Seq<char>|
            !crate::exfat::fs::namei::too_long(other) ==> (#[trigger]
            crate::exfat::fs::namei::looked_up(f, j, other)).1 == (if other == name_of(
                s.nodes[et[x].inode],
            ) {
                Ok::<usize, Errno>(e.inode as usize)
            } else {
                crate::exfat::fs::namei::looked_up(s, j, other).1
            }),
        forall|other: Seq<char>|
            !crate::exfat::fs::namei::too_long(other) ==> (#[trigger]
            crate::exfat::fs::namei::looked_up(f, i, other)).1 == (if other == name_of(
                s.nodes[es[k].inode],
            ) {
                Err::<usize, Errno>(Errno::ENOENT)
            } else {
                crate::exfat::fs::namei::looked_up(s, i, other).1
            }),
{
    crate::exfat::laws::dir::lemma_dir_ok(s, i, cs, es);
    crate::exfat::laws::dir::lemma_dir_ok(s, j, ct, et);
    crate::exfat::laws::dir::lemma_dir_entry(s, i, cs, es, k);
    crate::exfat::laws::dir::lemma_dir_entry(s, j, ct, et, x);
    let new_name = name_of(s.nodes[et[x].inode]);
    let left = et.remove(x);
    crate::exfat::laws::remove::lemma_names_removed(s, s, et, x);
    assert forall|z: int| 0 <= z < left.len() implies name_of(f.nodes[(#[trigger] left[z]).inode])
        == name_of(s.nodes[left[z].inode]) && name_of(f.nodes[left[z].inode]) != name_of(
        f.nodes[e.inode],
    ) by {
        let y = if z < x {
            z
        } else {
            z + 1
        };
        assert(left[z] == et[y]);
        crate::exfat::laws::dir::lemma_dir_entry(s, j, ct, et, y);
        crate::exfat::laws::remove::lemma_inodes_differ(s, j, ct, et, y, x);
        if y < x {
            assert(name_of(s.nodes[et[y].inode]) != name_of(s.nodes[et[x].inode]));
        } else {
            assert(name_of(s.nodes[et[x].inode]) != name_of(s.nodes[et[y].inode]));
        }
    }
    crate::exfat::laws::create::lemma_names_added(s, f, left, p, e);
    assert forall|y: int| 0 <= y < es.len() && y != k implies name_of(
        f.nodes[(#[trigger] es[y]).inode],
    ) == name_of(s.nodes[es[y].inode]) by {
        crate::exfat::laws::dir::lemma_dir_entry(s, i, cs, es, y);
        crate::exfat::laws::remove::lemma_inodes_differ(s, i, cs, es, y, k);
        assert(es[y].inode != et[x].inode);
    }
    crate::exfat::laws::remove::lemma_names_removed(s, f, es, k);
    assert forall|other: Seq<char>| !crate::exfat::fs::namei::too_long(other) implies (#[trigger]
    crate::exfat::fs::namei::looked_up(f, j, other)).1 == (if other == new_name {
        Ok::<usize, Errno>(e.inode as usize)
    } else {
        crate::exfat::fs::namei::looked_up(s, j, other).1
    }) by {
        crate::exfat::laws::dir::lemma_looked_up(f, j, ct1, left.insert(p, e), other);
        crate::exfat::laws::dir::lemma_looked_up(s, j, ct, et, other);
        crate::exfat::laws::dir::lemma_found_remove(s, s, et, x, other);
        crate::exfat::laws::dir::lemma_found_insert(s, f, left, p, e, other);
    }
    assert forall|other: Seq<char>| !crate::exfat::fs::namei::too_long(other) implies (#[trigger]
    crate::exfat::fs::namei::looked_up(f, i, other)).1 == (if other == name_of(
        s.nodes[es[k].inode],
    ) {
        Err::<usize, Errno>(Errno::ENOENT)
    } else {
        crate::exfat::fs::namei::looked_up(s, i, other).1
    }) by {
        crate::exfat::laws::dir::lemma_looked_up(f, i, cs, es.remove(k), other);
        crate::exfat::laws::dir::lemma_looked_up(s, i, cs, es, other);
        crate::exfat::laws::dir::lemma_found_remove(s, f, es, k, other);
    }
}

/// Moving a file or directory to another directory under the name of something there that
/// it may replace succeeds where there is room for one more name.
pub proof fn law_rename_over_succeeds_between(
    o: FsState,
    s: FsState,
    i: int,
    cs: Seq<ClusterID>,
    es: Seq<Held>,
    k: int,
    j: int,
    ct: Seq<ClusterID>,
    et: Seq<Held>,
    x: int,
    xs: Seq<ClusterID>,
    now: DosTimestamp,
)
    requires
        both_open(o, s, i, cs, es, name_of(s.nodes[es[k].inode]), j, ct, et),
        names_differ(s, es),
        names_differ(s, et),
        separate(s, i, cs, j, ct, et),
        data_ok(s.vol),
        0 <= k < es.len(),
        es[k].inode != j,
        0 <= x < et.len(),
        s.nodes[i].ino != s.nodes[j].ino,
        proper(name_of(s.nodes[es[k].inode])),
        proper(name_of(s.nodes[et[x].inode])),
        !has_nul(name_of(s.nodes[et[x].inode])),
        0 < name_of(s.nodes[et[x].inode]).len(),
        crate::exfat::fs::namei::may_replace(s.nodes[es[k].inode], s.nodes[et[x].inode]) is Ok,
        is_chain(s.vol, s.nodes[et[x].inode].start_chain, xs),
        off_limits(s, i, cs, xs),
        off_limits(s, j, ct, xs),
        s.nodes.len() < usize::MAX,
        et.len() < u32::MAX,
        s.next_ino != EXFAT_ROOT_INO,
        crate::exfat::laws::create::has_room(s, j, name_of(s.nodes[et[x].inode])),
    ensures
        crate::exfat::fs::namei::renamed(
            o,
            i,
            name_of(s.nodes[es[k].inode]),
            j,
            name_of(s.nodes[et[x].inode]),
            now,
        ).1 is Ok,
{
    let c = es[k].inode;
    let old_name = name_of(s.nodes[c]);
    let new_name = name_of(s.nodes[et[x].inode]);
    crate::exfat::laws::open::lemma_both_found(o, s, i, cs, es, k, j, ct, et, new_name);
    crate::exfat::laws::dir::lemma_dir_entry(s, i, cs, es, k);
    crate::exfat::laws::dir::lemma_dir_entry(s, j, ct, et, x);
    let s1 = crate::exfat::fs::dir::name_found(o, i, old_name).0;
    let s2 = crate::exfat::fs::dir::name_found(s1, j, new_name).0;
    let ty = s.nodes[c].inode_type;
    crate::exfat::laws::create::lemma_entry_added_succeeds(s2, j, ct, et, new_name, ty, now);
    assert(separate(s2, i, cs, j, ct, et));
    let chain = s.nodes[et[x].inode].start_chain;
    crate::exfat::laws::chain::law_chain_kept(s.vol, s2.vol, chain, xs, Set::empty());
    lemma_over_between(s2, i, cs, es, k, j, ct, et, x, xs, new_name, now);
}

} // verus!
