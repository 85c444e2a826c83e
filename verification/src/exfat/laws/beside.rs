//! What is done in one directory leaves the other directories alone.

use vstd::prelude::*;
use crate::exfat::constants::{DENTRY_SIZE, EXFAT_ROOT_INO};
use crate::exfat::dentry::DosTimestamp;
use crate::exfat::fat::ClusterID;
use crate::exfat::fs::FsState;
use crate::exfat::inode::InodeType;
use crate::exfat::laws::chain::{is_chain, taken, vol_ok};
use crate::exfat::laws::create::has_nul;
use crate::exfat::laws::dir::{dir_ok, dir_opens, name_of, names_differ, same_place, slot_hash};
use crate::exfat::laws::layout::{laid_out, Held};
use crate::exfat::laws::page::data_ok;
use crate::exfat::laws::remove::{off_limits, others_same, taken_out, touched};
use crate::exfat::laws::rename::{proper, separate};
use crate::exfat::laws::write::{file_in, file_room};

verus! {

/// A directory holds what it held where only other clusters and inodes change.
proof fn lemma_beside(
    s: FsState,
    t: FsState,
    i: int,
    cs: Seq<ClusterID>,
    es: Seq<Held>,
    changed: Set<ClusterID>,
)
    requires
        dir_ok(s, i, cs, es),
        vol_ok(t.vol),
        others_same(s.vol, t.vol, changed),
        forall|q: int| 0 <= q < cs.len() ==> !changed.contains(#[trigger] cs[q]),
        s.nodes[i].ino != EXFAT_ROOT_INO ==> !changed.contains(
            s.nodes[i].dentry_set_position.0.current,
        ),
        t.opened == s.opened,
        t.opened_exist(),
        t.nodes.len() == s.nodes.len(),
        t.nodes[i] == s.nodes[i],
        forall|y: int|
            0 <= y < es.len() ==> same_place(
                t.nodes[(#[trigger] es[y]).inode],
                s.nodes[es[y].inode],
            ),
    ensures
        dir_ok(t, i, cs, es),
{
    crate::exfat::laws::dir::lemma_dir_ok(s, i, cs, es);
    crate::exfat::laws::remove::lemma_chain_stays(
        s.vol,
        t.vol,
        s.nodes[i].start_chain,
        cs,
        changed,
    );
    if s.nodes[i].ino != EXFAT_ROOT_INO {
        let home = s.nodes[i].dentry_set_position.0.current;
        assert(crate::exfat::laws::chain::fat_of(t.vol, home)
            == crate::exfat::laws::chain::fat_of(s.vol, home));
    }
    assert(laid_out(t.nodes[i].pages, es)) by {
        reveal(dir_ok);
    }
    crate::exfat::laws::dir::lemma_dir_frame(s, t, i, cs, es);
}

/// A directory holds what it held where another directory loses an inode.
proof fn lemma_beside_taken_out(
    s: FsState,
    t: FsState,
    i: int,
    cs: Seq<ClusterID>,
    es: Seq<Held>,
    j: int,
    ct: Seq<ClusterID>,
    et: Seq<Held>,
    x: int,
    xs: Seq<ClusterID>,
)
    requires
        dir_ok(s, i, cs, es),
        dir_ok(s, j, ct, et),
        i != j,
        0 <= x < et.len(),
        et[x].inode != i,
        off_limits(s, i, cs, xs),
        taken_out(s, t, j, ct, et, x, xs),
    ensures
        dir_ok(t, i, cs, es),
{
    crate::exfat::laws::dir::lemma_dir_ok(s, i, cs, es);
    crate::exfat::laws::dir::lemma_dir_ok(s, j, ct, et);
    crate::exfat::laws::dir::lemma_dir_entry(s, j, ct, et, x);
    crate::exfat::laws::dir::lemma_dir_ok(t, j, ct, et.remove(x));
    let changed = touched(xs, Seq::empty());
    assert forall|q: int| 0 <= q < cs.len() implies !changed.contains(#[trigger] cs[q]) by {
        assert(!xs.contains(cs[q]));
    }
    assert forall|y: int| 0 <= y < es.len() implies same_place(
        t.nodes[(#[trigger] es[y]).inode],
        s.nodes[es[y].inode],
    ) by {
        crate::exfat::laws::dir::lemma_dir_entry(s, i, cs, es, y);
        assert(es[y].inode != et[x].inode);
    }
    lemma_beside(s, t, i, cs, es, changed);
}

/// Removing a file from a directory leaves every other directory as it is.
pub proof fn law_unlink_beside(
    o: FsState,
    s: FsState,
    i: int,
    cs: Seq<ClusterID>,
    es: Seq<Held>,
    j: int,
    ct: Seq<ClusterID>,
    et: Seq<Held>,
    x: int,
    xs: Seq<ClusterID>,
)
    requires
        dir_ok(s, i, cs, es),
        dir_opens(o, s, j, ct, et),
        names_differ(s, et),
        i != j,
        data_ok(s.vol),
        0 <= x < et.len(),
        s.nodes[et[x].inode].inode_type is File,
        proper(name_of(s.nodes[et[x].inode])),
        is_chain(s.vol, s.nodes[et[x].inode].start_chain, xs),
        off_limits(s, i, cs, xs),
        off_limits(s, j, ct, xs),
    ensures
        dir_ok(
            crate::exfat::fs::namei::unlinked(o, j, name_of(s.nodes[et[x].inode])).0,
            i,
            cs,
            es,
        ),
{
    crate::exfat::laws::dir::lemma_dir_opens(o, s, j, ct, et);
    crate::exfat::laws::dir::lemma_dir_ok(s, i, cs, es);
    crate::exfat::laws::remove::law_unlinked(o, s, j, ct, et, x, xs);
    let t = crate::exfat::fs::namei::unlinked(o, j, name_of(s.nodes[et[x].inode])).0;
    lemma_beside_taken_out(s, t, i, cs, es, j, ct, et, x, xs);
}

/// Removing an empty directory from a directory leaves every third directory as it is.
pub proof fn law_rmdir_beside(
    o: FsState,
    s: FsState,
    i: int,
    cs: Seq<ClusterID>,
    es: Seq<Held>,
    j: int,
    ct: Seq<ClusterID>,
    et: Seq<Held>,
    x: int,
    xs: Seq<ClusterID>,
)
    requires
        dir_ok(s, i, cs, es),
        dir_opens(o, s, j, ct, et),
        names_differ(s, et),
        i != j,
        data_ok(s.vol),
        0 <= x < et.len(),
        et[x].inode != i,
        s.nodes[et[x].inode].inode_type is Dir,
        s.nodes[et[x].inode].num_subdir == 0,
        proper(name_of(s.nodes[et[x].inode])),
        is_chain(s.vol, s.nodes[et[x].inode].start_chain, xs),
        off_limits(s, i, cs, xs),
        off_limits(s, j, ct, xs),
    ensures
        dir_ok(
            crate::exfat::fs::namei::directory_removed(o, j, name_of(s.nodes[et[x].inode])).0,
            i,
            cs,
            es,
        ),
{
    crate::exfat::laws::dir::lemma_dir_opens(o, s, j, ct, et);
    crate::exfat::laws::remove::law_directory_removed(o, s, j, ct, et, x, xs);
    let t = crate::exfat::fs::namei::directory_removed(o, j, name_of(s.nodes[et[x].inode])).0;
    lemma_beside_taken_out(s, t, i, cs, es, j, ct, et, x, xs);
}

/// Making a file or directory in a directory leaves every other directory as it is.
pub proof fn law_create_beside(
    o: FsState,
    s: FsState,
    i: int,
    cs: Seq<ClusterID>,
    es: Seq<Held>,
    j: int,
    ct: Seq<ClusterID>,
    et: Seq<Held>,
    name: Seq<char>,
    inode_type: InodeType,
    now: DosTimestamp,
)
    requires
        dir_ok(s, i, cs, es),
        dir_opens(o, s, j, ct, et),
        names_differ(s, et),
        separate(s, i, cs, j, ct, et),
        s.nodes.len() < usize::MAX,
        et.len() < u32::MAX,
        s.next_ino != EXFAT_ROOT_INO,
        !has_nul(name),
        crate::exfat::fs::namei::created(o, j, name, inode_type, now).1 is Ok,
    ensures
        dir_ok(crate::exfat::fs::namei::created(o, j, name, inode_type, now).0, i, cs, es),
{
    let (ds, p, e) = crate::exfat::laws::create::law_created(
        o,
        s,
        j,
        ct,
        et,
        name,
        inode_type,
        now,
    );
    let t = crate::exfat::fs::namei::created(o, j, name, inode_type, now).0;
    let all = ct + ds;
    let d = s.nodes[i];
    let sb = s.vol.super_block;
    crate::exfat::laws::dir::lemma_dir_ok(s, i, cs, es);
    crate::exfat::laws::dir::lemma_dir_opens(o, s, j, ct, et);
    crate::exfat::laws::dir::lemma_dir_ok(t, j, all, et.insert(p, e));
    assert(et.insert(p, e)[p] == e);
    crate::exfat::laws::dir::lemma_dir_entry(t, j, all, et.insert(p, e), p);
    assert(laid_out(t.nodes[j].pages, et.insert(p, e)) && laid_out(s.nodes[i].pages, es)) by {
        reveal(dir_ok);
    }
    crate::exfat::laws::rename::lemma_slots_differ(t.nodes[j].pages, et, p, e);
    crate::exfat::laws::rename::lemma_not_own_place(s, t, i, cs, j, ct, ds, et, e);
    let grown = crate::exfat::laws::chain::either(ct, ds);
    assert forall|q: int| 0 <= q < cs.len() implies !grown.contains(#[trigger] cs[q]) by {
        assert(taken(s.vol, cs[q]));
        crate::exfat::laws::rename::lemma_still_taken(s, t, j, ct, ds, cs[q]);
    }
    crate::exfat::laws::chain::law_chain_kept(s.vol, t.vol, d.start_chain, cs, grown);
    if d.ino != EXFAT_ROOT_INO {
        let home = d.dentry_set_position.0.current;
        crate::exfat::laws::rename::lemma_still_taken(s, t, j, ct, ds, home);
    }
    assert forall|y: int| 0 <= y < es.len() implies same_place(
        t.nodes[(#[trigger] es[y]).inode],
        s.nodes[es[y].inode],
    ) && t.find(slot_hash(sb, cs, es[y].slot)) == s.find(slot_hash(sb, cs, es[y].slot)) by {
        crate::exfat::laws::dir::lemma_dir_entry(s, i, cs, es, y);
        let at = es[y].slot * DENTRY_SIZE;
        let z = sb.cluster_size as int;
        crate::exfat::laws::dir::lemma_slot_walk(s.vol, d.start_chain, cs, es[y].slot);
        assert(taken(s.vol, cs[at / z]));
        crate::exfat::laws::rename::lemma_still_taken(s, t, j, ct, ds, cs[at / z]);
        assert(!ct.contains(cs[at / z]));
        crate::exfat::laws::rename::lemma_place_elsewhere(
            t,
            j,
            all,
            e.slot,
            cs[at / z],
            (at % z) as u32,
        );
    }
    crate::exfat::laws::dir::lemma_dir_frame(s, t, i, cs, es);
}

/// Writing to a file of a directory leaves every other directory as it is.
pub proof fn law_write_beside(
    s: FsState,
    i: int,
    cs: Seq<ClusterID>,
    es: Seq<Held>,
    j: int,
    ct: Seq<ClusterID>,
    et: Seq<Held>,
    x: int,
    xs: Seq<ClusterID>,
    offset: int,
    bytes: Seq<u8>,
)
    requires
        dir_ok(s, i, cs, es),
        file_in(s, j, ct, et, x, xs),
        i != j,
        off_limits(s, i, cs, xs),
        0 <= offset,
        file_room(s, xs, offset + bytes.len()),
    ensures
        dir_ok(
            crate::exfat::fs::io::file_written(s, et[x].inode, offset, bytes).0,
            i,
            cs,
            es,
        ),
{
    let c = et[x].inode;
    let end = (offset + bytes.len()) as usize;
    crate::exfat::laws::dir::lemma_dir_ok(s, i, cs, es);
    crate::exfat::laws::dir::lemma_dir_ok(s, j, ct, et);
    crate::exfat::laws::dir::lemma_dir_entry(s, j, ct, et, x);
    crate::exfat::laws::write::law_write_succeeds(s, j, ct, et, x, xs, offset, bytes);
    let (t, r) = crate::exfat::fs::io::file_written(s, c, offset, bytes);
    crate::exfat::laws::dir::lemma_dir_ok(t, j, ct, et);
    if end <= s.nodes[c].size {
        assert(others_same(s.vol, t.vol, Set::empty()));
        assert forall|y: int| 0 <= y < es.len() implies same_place(
            t.nodes[(#[trigger] es[y]).inode],
            s.nodes[es[y].inode],
        ) by {
            crate::exfat::laws::dir::lemma_dir_entry(s, i, cs, es, y);
        }
        lemma_beside(s, t, i, cs, es, Set::empty());
    } else {
        let (zs, ds) = crate::exfat::laws::remove::law_resized(s, j, ct, et, x, end, xs);
        let changed = touched(xs, ds);
        assert forall|q: int| 0 <= q < cs.len() implies !changed.contains(#[trigger] cs[q]) by {
            assert(taken(s.vol, cs[q]));
            assert(!xs.contains(cs[q]));
            if ds.contains(cs[q]) {
                let m = choose|m: int| 0 <= m < ds.len() && ds[m] == cs[q];
                assert(!taken(s.vol, ds[m]));
            }
        }
        if s.nodes[i].ino != EXFAT_ROOT_INO {
            let home = s.nodes[i].dentry_set_position.0.current;
            if ds.contains(home) {
                let m = choose|m: int| 0 <= m < ds.len() && ds[m] == home;
                assert(!taken(s.vol, ds[m]));
            }
        }
        assert forall|y: int| 0 <= y < es.len() implies same_place(
            t.nodes[(#[trigger] es[y]).inode],
            s.nodes[es[y].inode],
        ) by {
            crate::exfat::laws::dir::lemma_dir_entry(s, i, cs, es, y);
        }
        lemma_beside(s, t, i, cs, es, changed);
    }
}

} // verus!
