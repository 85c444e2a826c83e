//! Renaming: what was moved is found under its new name and place only.

use vstd::prelude::*;
use crate::errno::Errno;
use crate::exfat::constants::{DENTRY_SIZE, EXFAT_ROOT_INO};
use crate::exfat::dentry::DosTimestamp;
use crate::exfat::fat::ClusterID;
use crate::exfat::fs::FsState;
use crate::exfat::inode::InodeView;
use crate::exfat::laws::chain::taken;
use crate::exfat::laws::create::{entry_put, has_nul, only_grown};
use crate::exfat::laws::open::both_open;
use crate::exfat::laws::dir::{dir_ok, dir_opens, held, is_dir, name_of, names_differ, same_place, slot_hash};
use crate::exfat::laws::layout::{laid_out, set_in, Held};
use crate::exfat::laws::remove::dir_ok_but;

verus! {

/// Entries stand where they stand, whichever inodes they belong to.
pub proof fn lemma_relabelled(pages: Seq<u8>, es: Seq<Held>, fs: Seq<Held>)
    requires
        laid_out(pages, es),
        fs.len() == es.len(),
        forall|k: int|
            0 <= k < es.len() ==> (#[trigger] fs[k]).slot == es[k].slot && fs[k].width
                == es[k].width,
    ensures
        laid_out(pages, fs),
{
    reveal(laid_out);
    assert forall|k: int| 0 <= k < fs.len() implies set_in(
        pages,
        (#[trigger] fs[k]).slot,
        fs[k].width,
    ) by {
        assert(set_in(pages, es[k].slot, es[k].width));
    }
    assert forall|a: int, b: int| 0 <= a < b < fs.len() implies (#[trigger] fs[a]).slot
        + fs[a].width <= (#[trigger] fs[b]).slot by {
        assert(es[a].slot + es[a].width <= es[b].slot);
    }
    assert forall|slot: int|
        crate::exfat::dentry::has_slot(pages, slot) && #[trigger] crate::exfat::dentry::slot_kind(
            pages,
            slot,
        ) is File implies crate::exfat::laws::layout::covered(fs, slot) by {
        assert(crate::exfat::laws::layout::covered(es, slot));
        let k = choose|k: int|
            0 <= k < es.len() && (#[trigger] es[k]).slot <= slot < es[k].slot + es[k].width;
        assert(fs[k].slot == es[k].slot);
    }
}

/// The file system after the inode `c` took over the new entries of the inode `new`,
/// but before its old ones are deleted.
#[verifier::opaque]
pub open spec fn relinked(s: FsState, c: int, new: int) -> FsState {
    let old_hash = crate::exfat::inode::inode_hash(s.nodes[c]);
    let s2 = s.without_opened(old_hash);
    let s3 = s2.with_node(
        c,
        crate::exfat::fs::namei::metadata_copied(s2.nodes[c], s2.nodes[new]),
    );
    let s4 = if s.nodes[c].inode_type is Dir {
        crate::exfat::fs::namei::with_new_parent(
            s3,
            old_hash,
            crate::exfat::inode::inode_hash(s3.nodes[c]),
        )
    } else {
        s3
    };
    s4.with_opened(c)
}

/// What taking over new entries changes.
pub open spec fn moved_over(s: FsState, m: FsState, c: int, new: int) -> bool {
    let old_hash = crate::exfat::inode::inode_hash(s.nodes[c]);
    let new_hash = crate::exfat::inode::hash_of_position(s.nodes[new].dentry_set_position);
    let n = s.nodes[new];
    &&& m.vol == s.vol
    &&& m.next_ino == s.next_ino
    &&& m.nodes.len() == s.nodes.len()
    &&& m.opened == s.opened.remove(old_hash).insert(new_hash, c as usize)
    &&& forall|q: int|
        0 <= q < s.nodes.len() && q != c ==> (#[trigger] m.nodes[q]) == (InodeView {
            parent_hash: m.nodes[q].parent_hash,
            ..s.nodes[q]
        }) && (s.nodes[q].parent_hash != old_hash ==> m.nodes[q] == s.nodes[q])
    &&& m.nodes[c] == (InodeView {
        dentry_set_position: n.dentry_set_position,
        dentry_set_size: n.dentry_set_size,
        dentry_entry: n.dentry_entry,
        atime: n.atime,
        ctime: n.ctime,
        mtime: n.mtime,
        name: crate::text::utf16(name_of(n)),
        parent_hash: n.parent_hash,
        ..s.nodes[c]
    })
}

/// Taking over new entries changes nothing else.
proof fn lemma_moved_over(s: FsState, c: int, new: int)
    requires
        0 <= c < s.nodes.len(),
        0 <= new < s.nodes.len(),
        s.nodes[c].ino != EXFAT_ROOT_INO,
        s.nodes[new].parent_hash != crate::exfat::inode::inode_hash(s.nodes[c]),
    ensures
        moved_over(s, relinked(s, c, new), c, new),
{
    reveal(relinked);
}

/// Entries that were put between those of other inodes stand at other places.
pub proof fn lemma_slots_differ(pages: Seq<u8>, es: Seq<Held>, p: int, e: Held)
    requires
        laid_out(pages, es.insert(p, e)),
        0 <= p <= es.len(),
    ensures
        set_in(pages, e.slot, e.width),
        forall|x: int|
            0 <= x < es.len() ==> (#[trigger] es[x]).slot != e.slot && set_in(
                pages,
                es[x].slot,
                es[x].width,
            ),
{
    reveal(laid_out);
    let ins = es.insert(p, e);
    assert(ins[p] == e);
    assert(set_in(pages, ins[p].slot, ins[p].width));
    assert forall|x: int| 0 <= x < es.len() implies (#[trigger] es[x]).slot != e.slot && set_in(
        pages,
        es[x].slot,
        es[x].width,
    ) by {
        let y = if x < p {
            x
        } else {
            x + 1
        };
        assert(ins[y] == es[x]);
        assert(set_in(pages, ins[y].slot, ins[y].width));
        if y < p {
            assert(ins[y].slot + ins[y].width <= ins[p].slot);
        } else {
            assert(ins[p].slot + ins[p].width <= ins[y].slot);
        }
    }
}

/// An inode is still held where it stands and is found as before.
proof fn lemma_still_held(t: FsState, m: FsState, i: int, cs: Seq<ClusterID>, e: Held)
    requires
        held(t, i, cs, e),
        same_place(m.nodes[e.inode], t.nodes[e.inode]),
        m.vol.super_block == t.vol.super_block,
        t.nodes.len() <= m.nodes.len(),
        m.nodes[i].size == t.nodes[i].size,
        m.nodes[i].ino == t.nodes[i].ino,
        m.nodes[i].dentry_set_position == t.nodes[i].dentry_set_position,
        m.find(slot_hash(t.vol.super_block, cs, e.slot)) == t.find(
            slot_hash(t.vol.super_block, cs, e.slot),
        ),
    ensures
        held(m, i, cs, e),
{
}

/// The directory that has the entries which an inode took over is still a directory, and
/// holds the inode.
proof fn lemma_relinked(
    t: FsState,
    m: FsState,
    j: int,
    ct: Seq<ClusterID>,
    e: Held,
    c: int,
)
    requires
        is_dir(t, j, ct),
        moved_over(t, m, c, e.inode),
        0 <= c < t.nodes.len(),
        c != j,
        t.nodes[c].ino != EXFAT_ROOT_INO,
        t.find(crate::exfat::inode::inode_hash(t.nodes[c])) == Some(c as usize),
        new_place(t, j, ct, e),
    ensures
        is_dir(m, j, ct),
        held(m, j, ct, Held { inode: c, ..e }),
{
    crate::exfat::laws::dir::lemma_own_hash(t, j, ct, e.slot);
    assert(m.opened_exist());
    assert(m.nodes[j] == (InodeView { parent_hash: m.nodes[j].parent_hash, ..t.nodes[j] }));
}

/// Whether an inode stands at entries of the directory `j`, without being open.
pub open spec fn new_place(t: FsState, j: int, ct: Seq<ClusterID>, e: Held) -> bool {
    let n = t.nodes[e.inode];
    &&& 0 <= e.inode < t.nodes.len()
    &&& 0 <= e.slot
    &&& 0 < e.width
    &&& n.dentry_set_size == e.width * DENTRY_SIZE
    &&& (e.slot + e.width) * DENTRY_SIZE <= t.nodes[j].size
    &&& crate::exfat::inode::hash_of_position(n.dentry_set_position) == slot_hash(
        t.vol.super_block,
        ct,
        e.slot,
    )
    &&& n.dentry_entry == e.slot
    &&& n.parent_hash == crate::exfat::inode::inode_hash(t.nodes[j])
}

/// The inodes that a directory held are still held after one of them, or an inode from
/// elsewhere, took over entries of the directory.
proof fn lemma_others_held(
    t: FsState,
    m: FsState,
    j: int,
    ct: Seq<ClusterID>,
    e: Held,
    c: int,
    x: Held,
)
    requires
        is_dir(t, j, ct),
        is_dir(m, j, ct),
        moved_over(t, m, c, e.inode),
        0 <= c < t.nodes.len(),
        c != j,
        t.find(crate::exfat::inode::inode_hash(t.nodes[c])) == Some(c as usize),
        new_place(t, j, ct, e),
        held(t, j, ct, x),
        x.inode != c,
        x.slot != e.slot,
        0 <= x.slot,
        0 < x.width,
    ensures
        held(m, j, ct, x),
{
    let sb = t.vol.super_block;
    if slot_hash(sb, ct, x.slot) == slot_hash(sb, ct, e.slot) {
        crate::exfat::laws::dir::lemma_slot_hash(t.vol, ct, x.slot, e.slot);
    }
    assert(m.nodes[x.inode] == t.nodes[x.inode]);
    assert(m.nodes[j] == (InodeView { parent_hash: m.nodes[j].parent_hash, ..t.nodes[j] }));
    lemma_still_held(t, m, j, ct, x);
}

/// Where the inode with the number `k` stands after another one was put at `p`.
pub open spec fn shifted(p: int, k: int) -> int {
    if k < p {
        k
    } else {
        k + 1
    }
}

/// What an inode keeps that is moved: all but its place, its times and its name.
pub open spec fn kept_in_move(before: InodeView, after: InodeView) -> bool {
    &&& after.ino == before.ino
    &&& after.inode_type == before.inode_type
    &&& after.attr == before.attr
    &&& after.start_chain == before.start_chain
    &&& after.size == before.size
    &&& after.size_allocated == before.size_allocated
    &&& after.num_subdir == before.num_subdir
    &&& after.pages == before.pages
}

/// What moving an inode leaves alone.
pub open spec fn rest_kept(s: FsState, f: FsState, i: int, j: int, c: int) -> bool {
    &&& f.nodes.len() == s.nodes.len() + 1
    &&& f.vol.super_block == s.vol.super_block
    &&& forall|q: int|
        0 <= q < s.nodes.len() && q != i && q != j && q != c ==> (#[trigger] f.nodes[q]) == (
        InodeView { parent_hash: f.nodes[q].parent_hash, ..s.nodes[q] })
    &&& forall|q: int|
        0 <= q < s.nodes.len() && q != c ==> (#[trigger] f.nodes[q]).name == s.nodes[q].name
            && f.nodes[q].ino == s.nodes[q].ino && f.nodes[q].dentry_set_position
            == s.nodes[q].dentry_set_position
}

/// What moving an inode does first.
proof fn lemma_moved_steps(
    s: FsState,
    i: int,
    c: int,
    offset: int,
    len: int,
    j: int,
    new_name: Seq<char>,
    now: DosTimestamp,
)
    requires
        0 <= c < s.nodes.len(),
        crate::exfat::fs::dir::entry_added(s, j, new_name, s.nodes[c].inode_type, now).1 is Ok,
        crate::exfat::fs::dir::entry_added(
            s,
            j,
            new_name,
            s.nodes[c].inode_type,
            now,
        ).0.nodes[c].inode_type == s.nodes[c].inode_type,
    ensures
        ({
            let (t, r) = crate::exfat::fs::dir::entry_added(
                s,
                j,
                new_name,
                s.nodes[c].inode_type,
                now,
            );
            crate::exfat::fs::namei::moved(s, i, c, offset, len, j, new_name, now)
                == crate::exfat::fs::dir::entries_deleted(
                relinked(t, c, r->Ok_0 as int),
                i,
                offset,
                len,
            )
        }),
{
    reveal(crate::exfat::fs::namei::moved);
    reveal(relinked);
}

/// Moving an inode succeeds only if its new entries are added.
pub proof fn lemma_moved_adds(
    s: FsState,
    i: int,
    c: int,
    offset: int,
    len: int,
    j: int,
    new_name: Seq<char>,
    now: DosTimestamp,
)
    requires
        crate::exfat::fs::namei::moved(s, i, c, offset, len, j, new_name, now).1 is Ok,
    ensures
        crate::exfat::fs::dir::entry_added(s, j, new_name, s.nodes[c].inode_type, now).1 is Ok,
{
    reveal(crate::exfat::fs::namei::moved);
}

/// The name of an inode that was moved.
proof fn lemma_moved_name(t: FsState, m: FsState, c: int, new: int, name: Seq<char>)
    requires
        moved_over(t, m, c, new),
        t.nodes[new].name == crate::text::utf16(name),
    ensures
        name_of(m.nodes[c]) == name,
{
    crate::text::lemma_utf16_roundtrip(name);
}

/// Giving an inode of a directory another name in the same directory.
pub proof fn lemma_moved_within(
    s: FsState,
    i: int,
    cs: Seq<ClusterID>,
    es: Seq<Held>,
    k: int,
    new_name: Seq<char>,
    now: DosTimestamp,
) -> (r: (Seq<ClusterID>, int, Held))
    requires
        dir_ok(s, i, cs, es),
        0 <= k < es.len(),
        s.nodes.len() < usize::MAX,
        es.len() < u32::MAX,
        s.next_ino != EXFAT_ROOT_INO,
        !crate::exfat::fs::namei::too_long(new_name),
        !has_nul(new_name),
        crate::exfat::fs::dir::entry_added(
            s,
            i,
            new_name,
            s.nodes[es[k].inode].inode_type,
            now,
        ).1 is Ok,
    ensures
        ({
            let c = es[k].inode;
            let (f, q) = crate::exfat::fs::namei::moved(
                s,
                i,
                c,
                es[k].slot * DENTRY_SIZE,
                es[k].width * DENTRY_SIZE,
                i,
                new_name,
                now,
            );
            let (ds, p, e) = r;
            &&& q == Ok::<(), Errno>(())
            &&& e.inode == c
            &&& 0 <= p <= es.len()
            &&& dir_ok(f, i, cs + ds, es.insert(p, e).remove(shifted(p, k)))
            &&& name_of(f.nodes[c]) == new_name
            &&& kept_in_move(s.nodes[c], f.nodes[c])
            &&& rest_kept(s, f, i, i, c)
            &&& only_grown(s, f, cs, ds)
        }),
{
    crate::exfat::laws::dir::lemma_dir_ok(s, i, cs, es);
    crate::exfat::laws::dir::lemma_dir_entry(s, i, cs, es, k);
    let c = es[k].inode;
    let ty = s.nodes[c].inode_type;
    let (ds, p, e0) = crate::exfat::laws::create::lemma_entry_added(
        s,
        i,
        cs,
        es,
        new_name,
        ty,
        now,
    );
    let (t, added) = crate::exfat::fs::dir::entry_added(s, i, new_name, ty, now);
    let at = es[k].slot * DENTRY_SIZE;
    let len = es[k].width * DENTRY_SIZE;
    lemma_moved_steps(s, i, c, at, len, i, new_name, now);
    let cs1 = cs + ds;
    let m = relinked(t, c, e0.inode);
    let e = Held { inode: c, ..e0 };
    lemma_slots_differ(t.nodes[i].pages, es, p, e0);
    assert(crate::exfat::inode::inode_hash(t.nodes[i]) != crate::exfat::inode::inode_hash(
        t.nodes[c],
    ));
    lemma_moved_over(t, c, e0.inode);
    lemma_relinked(t, m, i, cs1, e0, c);
    let ins = es.insert(p, e);
    lemma_relabelled(t.nodes[i].pages, es.insert(p, e0), ins);
    let old = shifted(p, k);
    assert(ins[old] == es[k]);
    assert forall|y: int| 0 <= y < ins.len() && y != old implies held(
        m,
        i,
        cs1,
        #[trigger] ins[y],
    ) by {
        if y != p {
            let x = if y < p {
                y
            } else {
                y - 1
            };
            assert(ins[y] == es[x]);
            crate::exfat::laws::remove::lemma_inodes_differ(s, i, cs, es, x, k);
            lemma_others_held(t, m, i, cs1, e0, c, es[x]);
        }
    }
    assert(dir_ok_but(m, i, cs1, ins, old)) by {
        reveal(dir_ok_but);
    }
    crate::exfat::laws::remove::lemma_entries_deleted(m, i, cs1, ins, old);
    lemma_moved_name(t, m, c, e0.inode, new_name);
    (ds, p, e)
}

/// Whether the directories `i` with the clusters `cs` and `j` with the clusters `ct` and
/// the inodes `et` are different ones: they share no cluster, and if the entries of `i`
/// lie in a cluster of `j`, then `j` holds `i`.
pub open spec fn separate(
    s: FsState,
    i: int,
    cs: Seq<ClusterID>,
    j: int,
    ct: Seq<ClusterID>,
    et: Seq<Held>,
) -> bool {
    &&& i != j
    &&& forall|q: int| 0 <= q < cs.len() ==> !ct.contains(#[trigger] cs[q])
    &&& s.nodes[i].ino == EXFAT_ROOT_INO || !ct.contains(s.nodes[i].dentry_set_position.0.current)
        || exists|m: int| 0 <= m < et.len() && (#[trigger] et[m]).inode == i
}

/// A cluster that was in use still is where a directory grew.
pub proof fn lemma_still_taken(
    s: FsState,
    t: FsState,
    j: int,
    ct: Seq<ClusterID>,
    ds: Seq<ClusterID>,
    cluster: ClusterID,
)
    requires
        only_grown(s, t, ct, ds),
        is_dir(t, j, ct + ds),
        taken(s.vol, cluster),
    ensures
        taken(t.vol, cluster),
        !ds.contains(cluster),
        (ct + ds).contains(cluster) ==> ct.contains(cluster),
{
    let all = ct + ds;
    if ds.contains(cluster) {
        let m = choose|m: int| 0 <= m < ds.len() && ds[m] == cluster;
        assert(!taken(s.vol, ds[m]));
    }
    if ct.contains(cluster) {
        let m = choose|m: int| 0 <= m < ct.len() && ct[m] == cluster;
        assert(all[m] == cluster);
        assert(taken(t.vol, all[m]));
    } else {
        assert(!crate::exfat::laws::chain::either(ct, ds).contains(cluster));
        assert(crate::exfat::laws::chain::fat_of(t.vol, cluster)
            == crate::exfat::laws::chain::fat_of(s.vol, cluster));
    }
    if all.contains(cluster) {
        let m = choose|m: int| 0 <= m < all.len() && all[m] == cluster;
        if m < ct.len() {
            assert(ct[m] == cluster);
        } else {
            assert(ds[m - ct.len()] == cluster);
        }
    }
}

/// The place of an entry in a cluster is not a place in another cluster.
pub proof fn lemma_place_elsewhere(
    t: FsState,
    j: int,
    ct: Seq<ClusterID>,
    slot: int,
    cluster: ClusterID,
    offset: u32,
)
    requires
        is_dir(t, j, ct),
        0 <= slot,
        slot * DENTRY_SIZE < ct.len() * t.vol.super_block.cluster_size,
        slot * DENTRY_SIZE <= usize::MAX,
        !ct.contains(cluster),
    ensures
        crate::exfat::inode::hash_of_place(cluster, offset) != slot_hash(
            t.vol.super_block,
            ct,
            slot,
        ),
{
    let at = slot * DENTRY_SIZE;
    let z = t.vol.super_block.cluster_size as int;
    crate::exfat::laws::dir::lemma_slot_walk(t.vol, t.nodes[j].start_chain, ct, slot);
    if crate::exfat::inode::hash_of_place(cluster, offset) == slot_hash(
        t.vol.super_block,
        ct,
        slot,
    ) {
        crate::exfat::inode::law_hash_tells_places_apart(
            cluster,
            offset,
            ct[at / z],
            (at % z) as u32,
        );
        assert(ct.contains(ct[at / z]));
    }
}

/// The place of a new entry of the directory `j` is not the place of the directory `i`.
pub proof fn lemma_not_own_place(
    s: FsState,
    t: FsState,
    i: int,
    cs: Seq<ClusterID>,
    j: int,
    ct: Seq<ClusterID>,
    ds: Seq<ClusterID>,
    et: Seq<Held>,
    e: Held,
)
    requires
        is_dir(s, i, cs),
        dir_ok(s, j, ct, et),
        separate(s, i, cs, j, ct, et),
        only_grown(s, t, ct, ds),
        is_dir(t, j, ct + ds),
        t.vol.super_block == s.vol.super_block,
        0 <= e.slot,
        0 < e.width,
        (e.slot + e.width) * DENTRY_SIZE <= t.nodes[j].size,
        forall|x: int| 0 <= x < et.len() ==> (#[trigger] et[x]).slot != e.slot,
    ensures
        crate::exfat::inode::inode_hash(s.nodes[i]) != slot_hash(
            s.vol.super_block,
            ct + ds,
            e.slot,
        ),
{
    let d = s.nodes[i];
    let all = ct + ds;
    let at = e.slot * DENTRY_SIZE;
    let z = s.vol.super_block.cluster_size as int;
    crate::exfat::laws::dir::lemma_slot_walk(t.vol, t.nodes[j].start_chain, all, e.slot);
    assert(taken(t.vol, all[at / z]));
    if d.ino == EXFAT_ROOT_INO {
        crate::exfat::inode::law_hash_of_root_is_free(all[at / z], (at % z) as u32);
    } else {
        let home = d.dentry_set_position.0.current;
        lemma_still_taken(s, t, j, ct, ds, home);
        if !ct.contains(home) {
            lemma_place_elsewhere(t, j, all, e.slot, home, d.dentry_set_position.1 as u32);
        } else {
            let m = choose|m: int| 0 <= m < et.len() && (#[trigger] et[m]).inode == i;
            crate::exfat::laws::dir::lemma_dir_entry(s, j, ct, et, m);
            crate::exfat::laws::dir::lemma_dir_ok(s, j, ct, et);
            crate::exfat::laws::create::lemma_slot_hash_prefix(
                s.vol.super_block,
                ct,
                ds,
                et[m].slot,
            );
            if crate::exfat::inode::inode_hash(d) == slot_hash(s.vol.super_block, all, e.slot) {
                assert(et[m].slot * DENTRY_SIZE < all.len() * z) by {
                    assert(ct.len() * z <= all.len() * z) by (nonlinear_arith)
                        requires
                            ct.len() <= all.len(),
                            0 <= z,
                    ;
                }
                crate::exfat::laws::dir::lemma_slot_hash(t.vol, all, et[m].slot, e.slot);
            }
        }
    }
}

/// The directory from which an inode is moved away still holds all others.
proof fn lemma_source_kept(
    s: FsState,
    t: FsState,
    m: FsState,
    i: int,
    cs: Seq<ClusterID>,
    es: Seq<Held>,
    k: int,
    j: int,
    ct: Seq<ClusterID>,
    ds: Seq<ClusterID>,
    et: Seq<Held>,
    p: int,
    e: Held,
)
    requires
        dir_ok(s, i, cs, es),
        dir_ok(s, j, ct, et),
        separate(s, i, cs, j, ct, et),
        0 <= k < es.len(),
        es[k].inode != j,
        entry_put(s, t, j, ct + ds, et, p, e),
        new_place(t, j, ct + ds, e),
        only_grown(s, t, ct, ds),
        moved_over(t, m, es[k].inode, e.inode),
        m.nodes.len() <= usize::MAX,
    ensures
        dir_ok_but(m, i, cs, es, k),
{
    crate::exfat::laws::dir::lemma_dir_ok(s, i, cs, es);
    crate::exfat::laws::dir::lemma_dir_ok(s, j, ct, et);
    crate::exfat::laws::dir::lemma_dir_entry(s, i, cs, es, k);
    let d = s.nodes[i];
    let sb = s.vol.super_block;
    let all = ct + ds;
    lemma_slots_differ(t.nodes[j].pages, et, p, e);
    lemma_not_own_place(s, t, i, cs, j, ct, ds, et, e);
    assert forall|q: int| 0 <= q < cs.len() implies !crate::exfat::laws::chain::either(
        ct,
        ds,
    ).contains(#[trigger] cs[q]) by {
        assert(taken(s.vol, cs[q]));
        lemma_still_taken(s, t, j, ct, ds, cs[q]);
    }
    crate::exfat::laws::chain::law_chain_kept(
        s.vol,
        t.vol,
        d.start_chain,
        cs,
        crate::exfat::laws::chain::either(ct, ds),
    );
    if d.ino != EXFAT_ROOT_INO {
        lemma_still_taken(s, t, j, ct, ds, d.dentry_set_position.0.current);
    }
    assert(t.nodes[i] == s.nodes[i]);
    assert(m.nodes[i] == (InodeView { parent_hash: m.nodes[i].parent_hash, ..t.nodes[i] }));
    assert(m.opened_exist());
    assert(is_dir(m, i, cs));
    assert forall|x: int| 0 <= x < es.len() && x != k implies held(
        m,
        i,
        cs,
        #[trigger] es[x],
    ) by {
        crate::exfat::laws::dir::lemma_dir_entry(s, i, cs, es, x);
        crate::exfat::laws::remove::lemma_inodes_differ(s, i, cs, es, x, k);
        let at = es[x].slot * DENTRY_SIZE;
        let z = sb.cluster_size as int;
        crate::exfat::laws::dir::lemma_slot_walk(s.vol, d.start_chain, cs, es[x].slot);
        assert(taken(s.vol, cs[at / z]));
        lemma_still_taken(s, t, j, ct, ds, cs[at / z]);
        assert(!ct.contains(cs[at / z]));
        lemma_place_elsewhere(t, j, all, e.slot, cs[at / z], (at % z) as u32);
        let y = es[x].inode;
        assert(same_place(t.nodes[y], s.nodes[y]));
        assert(same_place(m.nodes[y], t.nodes[y]));
        lemma_still_held(s, m, i, cs, es[x]);
    }
    assert(laid_out(m.nodes[i].pages, es) && m.nodes[i].num_subdir == es.len()) by {
        reveal(dir_ok);
    }
    assert(dir_ok_but(m, i, cs, es, k)) by {
        reveal(dir_ok_but);
    }
}

/// The directory to which an inode is moved holds it and all that it held.
proof fn lemma_target_has(
    s: FsState,
    t: FsState,
    m: FsState,
    j: int,
    ct: Seq<ClusterID>,
    et: Seq<Held>,
    p: int,
    e: Held,
    c: int,
)
    requires
        entry_put(s, t, j, ct, et, p, e),
        new_place(t, j, ct, e),
        moved_over(t, m, c, e.inode),
        0 <= c < s.nodes.len(),
        c != j,
        t.nodes[c].ino != EXFAT_ROOT_INO,
        t.find(crate::exfat::inode::inode_hash(t.nodes[c])) == Some(c as usize),
        forall|x: int| 0 <= x < et.len() ==> (#[trigger] et[x]).inode != c,
    ensures
        dir_ok(m, j, ct, et.insert(p, Held { inode: c, ..e })),
{
    let f = Held { inode: c, ..e };
    let ins = et.insert(p, f);
    lemma_slots_differ(t.nodes[j].pages, et, p, e);
    lemma_relinked(t, m, j, ct, e, c);
    lemma_relabelled(t.nodes[j].pages, et.insert(p, e), ins);
    assert(m.nodes[j] == (InodeView { parent_hash: m.nodes[j].parent_hash, ..t.nodes[j] }));
    assert forall|y: int| 0 <= y < ins.len() implies held(m, j, ct, #[trigger] ins[y]) by {
        if y != p {
            let x = if y < p {
                y
            } else {
                y - 1
            };
            assert(ins[y] == et[x]);
            lemma_others_held(t, m, j, ct, e, c, et[x]);
        }
    }
    reveal(dir_ok);
}

/// Moving an inode from one directory to another.
pub proof fn lemma_moved_between(
    s: FsState,
    i: int,
    cs: Seq<ClusterID>,
    es: Seq<Held>,
    k: int,
    j: int,
    ct: Seq<ClusterID>,
    et: Seq<Held>,
    new_name: Seq<char>,
    now: DosTimestamp,
) -> (r: (Seq<ClusterID>, int, Held))
    requires
        dir_ok(s, i, cs, es),
        dir_ok(s, j, ct, et),
        separate(s, i, cs, j, ct, et),
        0 <= k < es.len(),
        es[k].inode != j,
        s.nodes.len() < usize::MAX,
        et.len() < u32::MAX,
        s.next_ino != EXFAT_ROOT_INO,
        !crate::exfat::fs::namei::too_long(new_name),
        !has_nul(new_name),
        crate::exfat::fs::dir::entry_added(
            s,
            j,
            new_name,
            s.nodes[es[k].inode].inode_type,
            now,
        ).1 is Ok,
    ensures
        ({
            let c = es[k].inode;
            let (f, q) = crate::exfat::fs::namei::moved(
                s,
                i,
                c,
                es[k].slot * DENTRY_SIZE,
                es[k].width * DENTRY_SIZE,
                j,
                new_name,
                now,
            );
            let (ds, p, e) = r;
            &&& q == Ok::<(), Errno>(())
            &&& e.inode == c
            &&& 0 <= p <= et.len()
            &&& dir_ok(f, i, cs, es.remove(k))
            &&& dir_ok(f, j, ct + ds, et.insert(p, e))
            &&& name_of(f.nodes[c]) == new_name
            &&& kept_in_move(s.nodes[c], f.nodes[c])
            &&& rest_kept(s, f, i, j, c)
            &&& only_grown(s, f, ct, ds)
        }),
{
    crate::exfat::laws::dir::lemma_dir_ok(s, i, cs, es);
    crate::exfat::laws::dir::lemma_dir_ok(s, j, ct, et);
    crate::exfat::laws::dir::lemma_dir_entry(s, i, cs, es, k);
    let c = es[k].inode;
    let ty = s.nodes[c].inode_type;
    let (ds, p, e0) = crate::exfat::laws::create::lemma_entry_added(
        s,
        j,
        ct,
        et,
        new_name,
        ty,
        now,
    );
    let (t, added) = crate::exfat::fs::dir::entry_added(s, j, new_name, ty, now);
    let at = es[k].slot * DENTRY_SIZE;
    let len = es[k].width * DENTRY_SIZE;
    lemma_moved_steps(s, i, c, at, len, j, new_name, now);
    let m = relinked(t, c, e0.inode);
    let e = Held { inode: c, ..e0 };
    lemma_slots_differ(t.nodes[j].pages, et, p, e0);
    assert(crate::exfat::inode::inode_hash(t.nodes[j]) != crate::exfat::inode::inode_hash(
        t.nodes[c],
    ));
    lemma_moved_over(t, c, e0.inode);
    assert forall|x: int| 0 <= x < et.len() implies (#[trigger] et[x]).inode != c by {
        crate::exfat::laws::dir::lemma_dir_entry(s, j, ct, et, x);
    }
    lemma_target_has(s, t, m, j, ct + ds, et, p, e0, c);
    lemma_source_kept(s, t, m, i, cs, es, k, j, ct, ds, et, p, e0);
    crate::exfat::laws::remove::lemma_entries_deleted(m, i, cs, es, k);
    lemma_moved_name(t, m, c, e0.inode, new_name);
    let f = crate::exfat::fs::dir::entries_deleted(m, i, at, len).0;
    let ins = et.insert(p, e);
    crate::exfat::laws::dir::lemma_dir_ok(m, j, ct + ds, ins);
    crate::exfat::laws::dir::lemma_dir_ok(f, i, cs, es.remove(k));
    assert forall|y: int| 0 <= y < ins.len() implies same_place(
        f.nodes[(#[trigger] ins[y]).inode],
        m.nodes[ins[y].inode],
    ) by {
        crate::exfat::laws::dir::lemma_dir_entry(m, j, ct + ds, ins, y);
    }
    assert(laid_out(f.nodes[j].pages, ins)) by {
        reveal(dir_ok);
    }
    crate::exfat::laws::dir::lemma_dir_frame(m, f, j, ct + ds, ins);
    (ds, p, e)
}

/// Whether a name may be given by renaming.
pub open spec fn proper(name: Seq<char>) -> bool {
    &&& name != crate::exfat::fs::namei::dot()
    &&& name != crate::exfat::fs::namei::dot_dot()
    &&& !crate::exfat::fs::namei::too_long(name)
}

/// Whether no inode has a name.
pub open spec fn absent(s: FsState, es: Seq<Held>, name: Seq<char>) -> bool {
    forall|k: int| 0 <= k < es.len() ==> name_of(s.nodes[(#[trigger] es[k]).inode]) != name
}

/// Removing an inode and inserting another one can be done in either order.
pub proof fn lemma_insert_remove(es: Seq<Held>, p: int, e: Held, k: int)
    requires
        0 <= k < es.len(),
        0 <= p <= es.len(),
    ensures
        es.insert(p, e).remove(shifted(p, k)) == es.remove(k).insert(
            if p <= k {
                p
            } else {
                p - 1
            },
            e,
        ),
{
    assert(es.insert(p, e).remove(shifted(p, k)) =~= es.remove(k).insert(
        if p <= k {
            p
        } else {
            p - 1
        },
        e,
    ));
}

/// Giving a file or directory a new name in the same directory, where no other has this
/// name, has it be found under the new name only; every other name gives what it gave
/// before, its contents stay, and the directory holds what it held.
pub proof fn law_renamed_within(
    o: FsState,
    s: FsState,
    i: int,
    cs: Seq<ClusterID>,
    es: Seq<Held>,
    k: int,
    new_name: Seq<char>,
    now: DosTimestamp,
) -> (r: (Seq<ClusterID>, int, Held))
    requires
        dir_opens(o, s, i, cs, es),
        names_differ(s, es),
        0 <= k < es.len(),
        !has_nul(new_name),
        absent(s, es, new_name),
        s.nodes.len() < usize::MAX,
        es.len() < u32::MAX,
        s.next_ino != EXFAT_ROOT_INO,
        crate::exfat::fs::namei::renamed(
            o,
            i,
            name_of(s.nodes[es[k].inode]),
            i,
            new_name,
            now,
        ).1 is Ok,
    ensures
        ({
            let c = es[k].inode;
            let old_name = name_of(s.nodes[c]);
            let (f, q) = crate::exfat::fs::namei::renamed(o, i, old_name, i, new_name, now);
            let (ds, p, e) = r;
            &&& kept_in_move(s.nodes[c], f.nodes[c])
            &&& rest_kept(s, f, i, i, c)
            &&& e.inode == c
            &&& name_of(f.nodes[c]) == new_name
            &&& 0 <= p < es.len()
            &&& dir_ok(f, i, cs + ds, es.remove(k).insert(p, e))
            &&& names_differ(f, es.remove(k).insert(p, e))
            &&& forall|other: Seq<char>|
                !crate::exfat::fs::namei::too_long(other) ==> (#[trigger]
                crate::exfat::fs::namei::looked_up(f, i, other)).1 == (if other == new_name {
                    Ok::<usize, Errno>(c as usize)
                } else if other == old_name {
                    Err::<usize, Errno>(Errno::ENOENT)
                } else {
                    crate::exfat::fs::namei::looked_up(o, i, other).1
                })
        }),
{
    let c = es[k].inode;
    let old_name = name_of(s.nodes[c]);
    crate::exfat::laws::dir::lemma_dir_opens(o, s, i, cs, es);
    crate::exfat::laws::dir::lemma_dir_entry(s, i, cs, es, k);
    assert(old_name != new_name);
    crate::exfat::laws::dir::law_name_found(o, s, i, cs, es, old_name);
    let (s1, r1) = crate::exfat::fs::dir::name_found(o, i, old_name);
    crate::exfat::laws::dir::law_open_stays(s1, i, cs, es);
    crate::exfat::laws::dir::law_name_found(s1, s1, i, cs, es, new_name);
    let (s2, r2) = crate::exfat::fs::dir::name_found(s1, i, new_name);
    let at = es[k].slot * DENTRY_SIZE;
    let len = es[k].width * DENTRY_SIZE;
    lemma_moved_adds(s2, i, c, at, len, i, new_name, now);
    let (ds, p, e) = lemma_moved_within(s2, i, cs, es, k, new_name, now);
    let (f, q) = crate::exfat::fs::namei::renamed(o, i, old_name, i, new_name, now);
    assert(f == crate::exfat::fs::namei::moved(s2, i, c, at, len, i, new_name, now).0);
    lemma_insert_remove(es, p, e, k);
    let p1 = if p <= k {
        p
    } else {
        p - 1
    };
    let rest = es.remove(k);
    let fs = rest.insert(p1, e);
    crate::exfat::laws::remove::lemma_names_removed(s, s, es, k);
    assert forall|x: int| 0 <= x < rest.len() implies name_of(f.nodes[(#[trigger] rest[x]).inode])
        == name_of(s.nodes[rest[x].inode]) && name_of(f.nodes[rest[x].inode]) != name_of(
        f.nodes[e.inode],
    ) by {
        let y = if x < k {
            x
        } else {
            x + 1
        };
        assert(rest[x] == es[y]);
        crate::exfat::laws::dir::lemma_dir_entry(s, i, cs, es, y);
        crate::exfat::laws::remove::lemma_inodes_differ(s, i, cs, es, y, k);
    }
    crate::exfat::laws::create::lemma_names_added(s, f, rest, p1, e);
    assert forall|other: Seq<char>| !crate::exfat::fs::namei::too_long(other) implies (#[trigger]
    crate::exfat::fs::namei::looked_up(f, i, other)).1 == (if other == new_name {
        Ok::<usize, Errno>(c as usize)
    } else if other == old_name {
        Err::<usize, Errno>(Errno::ENOENT)
    } else {
        crate::exfat::fs::namei::looked_up(o, i, other).1
    }) by {
        crate::exfat::laws::dir::lemma_looked_up(f, i, cs + ds, fs, other);
        crate::exfat::laws::dir::law_looked_up(o, s, i, cs, es, other);
        crate::exfat::laws::dir::lemma_found_remove(s, s, es, k, other);
        crate::exfat::laws::dir::lemma_found_insert(s, f, rest, p1, e, other);
    }
    (ds, p1, e)
}

/// Moving a file or directory to another directory, where none has its new name, has it
/// be found there under the new name and no longer where it was; every other name gives
/// what it gave before in both directories, its contents stay, and both directories hold
/// what they held otherwise.
pub proof fn law_renamed_between(
    o: FsState,
    s: FsState,
    i: int,
    cs: Seq<ClusterID>,
    es: Seq<Held>,
    k: int,
    j: int,
    ct: Seq<ClusterID>,
    et: Seq<Held>,
    new_name: Seq<char>,
    now: DosTimestamp,
) -> (r: (Seq<ClusterID>, int, Held))
    requires
        both_open(o, s, i, cs, es, name_of(s.nodes[es[k].inode]), j, ct, et),
        names_differ(s, es),
        names_differ(s, et),
        separate(s, i, cs, j, ct, et),
        s.nodes[i].ino != s.nodes[j].ino,
        0 <= k < es.len(),
        es[k].inode != j,
        !has_nul(new_name),
        absent(s, et, new_name),
        s.nodes.len() < usize::MAX,
        et.len() < u32::MAX,
        s.next_ino != EXFAT_ROOT_INO,
        crate::exfat::fs::namei::renamed(
            o,
            i,
            name_of(s.nodes[es[k].inode]),
            j,
            new_name,
            now,
        ).1 is Ok,
    ensures
        ({
            let c = es[k].inode;
            let old_name = name_of(s.nodes[c]);
            let (f, q) = crate::exfat::fs::namei::renamed(o, i, old_name, j, new_name, now);
            let (ds, p, e) = r;
            &&& kept_in_move(s.nodes[c], f.nodes[c])
            &&& rest_kept(s, f, i, j, c)
            &&& e.inode == c
            &&& name_of(f.nodes[c]) == new_name
            &&& 0 <= p <= et.len()
            &&& dir_ok(f, i, cs, es.remove(k))
            &&& names_differ(f, es.remove(k))
            &&& dir_ok(f, j, ct + ds, et.insert(p, e))
            &&& names_differ(f, et.insert(p, e))
            &&& forall|other: Seq<char>|
                !crate::exfat::fs::namei::too_long(other) ==> (#[trigger]
                crate::exfat::fs::namei::looked_up(f, j, other)).1 == (if other == new_name {
                    Ok::<usize, Errno>(c as usize)
                } else {
                    crate::exfat::fs::namei::looked_up(s, j, other).1
                })
            &&& forall|other: Seq<char>|
                !crate::exfat::fs::namei::too_long(other) ==> (#[trigger]
                crate::exfat::fs::namei::looked_up(f, i, other)).1 == (if other == old_name {
                    Err::<usize, Errno>(Errno::ENOENT)
                } else {
                    crate::exfat::fs::namei::looked_up(s, i, other).1
                })
        }),
{
    let c = es[k].inode;
    let old_name = name_of(s.nodes[c]);
    crate::exfat::laws::open::lemma_both_found(o, s, i, cs, es, k, j, ct, et, new_name);
    crate::exfat::laws::dir::lemma_dir_entry(s, i, cs, es, k);
    let s1 = crate::exfat::fs::dir::name_found(o, i, old_name).0;
    let s2 = crate::exfat::fs::dir::name_found(s1, j, new_name).0;
    let at = es[k].slot * DENTRY_SIZE;
    let len = es[k].width * DENTRY_SIZE;
    lemma_moved_adds(s2, i, c, at, len, j, new_name, now);
    assert(separate(s2, i, cs, j, ct, et));
    let (ds, p, e) = lemma_moved_between(s2, i, cs, es, k, j, ct, et, new_name, now);
    let (f, q) = crate::exfat::fs::namei::renamed(o, i, old_name, j, new_name, now);
    assert(f == crate::exfat::fs::namei::moved(s2, i, c, at, len, j, new_name, now).0);
    assert forall|x: int| 0 <= x < et.len() implies name_of(f.nodes[(#[trigger] et[x]).inode])
        == name_of(s.nodes[et[x].inode]) && name_of(f.nodes[et[x].inode]) != name_of(
        f.nodes[e.inode],
    ) by {
        crate::exfat::laws::dir::lemma_dir_entry(s, j, ct, et, x);
    }
    crate::exfat::laws::create::lemma_names_added(s, f, et, p, e);
    assert forall|x: int| 0 <= x < es.len() && x != k implies name_of(
        f.nodes[(#[trigger] es[x]).inode],
    ) == name_of(s.nodes[es[x].inode]) by {
        crate::exfat::laws::dir::lemma_dir_entry(s, i, cs, es, x);
        crate::exfat::laws::remove::lemma_inodes_differ(s, i, cs, es, x, k);
    }
    crate::exfat::laws::remove::lemma_names_removed(s, f, es, k);
    assert forall|other: Seq<char>| !crate::exfat::fs::namei::too_long(other) implies (#[trigger]
    crate::exfat::fs::namei::looked_up(f, j, other)).1 == (if other == new_name {
        Ok::<usize, Errno>(c as usize)
    } else {
        crate::exfat::fs::namei::looked_up(s, j, other).1
    }) by {
        crate::exfat::laws::dir::lemma_looked_up(f, j, ct + ds, et.insert(p, e), other);
        crate::exfat::laws::dir::lemma_looked_up(s, j, ct, et, other);
        crate::exfat::laws::dir::lemma_found_insert(s, f, et, p, e, other);
    }
    assert forall|other: Seq<char>| !crate::exfat::fs::namei::too_long(other) implies (#[trigger]
    crate::exfat::fs::namei::looked_up(f, i, other)).1 == (if other == old_name {
        Err::<usize, Errno>(Errno::ENOENT)
    } else {
        crate::exfat::fs::namei::looked_up(s, i, other).1
    }) by {
        crate::exfat::laws::dir::lemma_looked_up(f, i, cs, es.remove(k), other);
        crate::exfat::laws::dir::lemma_looked_up(s, i, cs, es, other);
        crate::exfat::laws::dir::lemma_found_remove(s, f, es, k, other);
    }
    (ds, p, e)
}

/// Giving a file or directory a new name that no other has in its directory succeeds
/// where there is room for the name.
pub proof fn law_rename_succeeds_within(
    o: FsState,
    s: FsState,
    i: int,
    cs: Seq<ClusterID>,
    es: Seq<Held>,
    k: int,
    new_name: Seq<char>,
    now: DosTimestamp,
)
    requires
        dir_opens(o, s, i, cs, es),
        names_differ(s, es),
        0 <= k < es.len(),
        proper(name_of(s.nodes[es[k].inode])),
        proper(new_name),
        !has_nul(new_name),
        0 < new_name.len(),
        absent(s, es, new_name),
        s.nodes.len() < usize::MAX,
        es.len() < u32::MAX,
        s.next_ino != EXFAT_ROOT_INO,
        crate::exfat::laws::create::has_room(s, i, new_name),
    ensures
        crate::exfat::fs::namei::renamed(
            o,
            i,
            name_of(s.nodes[es[k].inode]),
            i,
            new_name,
            now,
        ).1 is Ok,
{
    let c = es[k].inode;
    let old_name = name_of(s.nodes[c]);
    crate::exfat::laws::dir::lemma_dir_opens(o, s, i, cs, es);
    crate::exfat::laws::dir::lemma_dir_entry(s, i, cs, es, k);
    crate::exfat::laws::dir::law_name_found(o, s, i, cs, es, old_name);
    let (s1, r1) = crate::exfat::fs::dir::name_found(o, i, old_name);
    crate::exfat::laws::dir::law_open_stays(s1, i, cs, es);
    crate::exfat::laws::dir::law_name_found(s1, s1, i, cs, es, new_name);
    let (s2, r2) = crate::exfat::fs::dir::name_found(s1, i, new_name);
    let ty = s.nodes[c].inode_type;
    crate::exfat::laws::create::lemma_entry_added_succeeds(s2, i, cs, es, new_name, ty, now);
    lemma_moved_within(s2, i, cs, es, k, new_name, now);
}

/// Moving a file or directory to another directory under a name that none has there
/// succeeds where there is room for the name.
pub proof fn law_rename_succeeds_between(
    o: FsState,
    s: FsState,
    i: int,
    cs: Seq<ClusterID>,
    es: Seq<Held>,
    k: int,
    j: int,
    ct: Seq<ClusterID>,
    et: Seq<Held>,
    new_name: Seq<char>,
    now: DosTimestamp,
)
    requires
        both_open(o, s, i, cs, es, name_of(s.nodes[es[k].inode]), j, ct, et),
        names_differ(s, es),
        names_differ(s, et),
        separate(s, i, cs, j, ct, et),
        0 <= k < es.len(),
        es[k].inode != j,
        proper(name_of(s.nodes[es[k].inode])),
        proper(new_name),
        !has_nul(new_name),
        0 < new_name.len(),
        absent(s, et, new_name),
        s.nodes.len() < usize::MAX,
        et.len() < u32::MAX,
        s.next_ino != EXFAT_ROOT_INO,
        crate::exfat::laws::create::has_room(s, j, new_name),
    ensures
        crate::exfat::fs::namei::renamed(
            o,
            i,
            name_of(s.nodes[es[k].inode]),
            j,
            new_name,
            now,
        ).1 is Ok,
{
    let c = es[k].inode;
    let old_name = name_of(s.nodes[c]);
    crate::exfat::laws::open::lemma_both_found(o, s, i, cs, es, k, j, ct, et, new_name);
    crate::exfat::laws::dir::lemma_dir_entry(s, i, cs, es, k);
    let s1 = crate::exfat::fs::dir::name_found(o, i, old_name).0;
    let s2 = crate::exfat::fs::dir::name_found(s1, j, new_name).0;
    let ty = s.nodes[c].inode_type;
    crate::exfat::laws::create::lemma_entry_added_succeeds(s2, j, ct, et, new_name, ty, now);
    assert(separate(s2, i, cs, j, ct, et));
    lemma_moved_between(s2, i, cs, es, k, j, ct, et, new_name, now);
}

} // verus!
