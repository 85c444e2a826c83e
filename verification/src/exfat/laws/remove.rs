//! Removing files and directories: they are not found afterwards, and everything else is.

use vstd::prelude::*;
use crate::errno::Errno;
use crate::exfat::constants::{DENTRY_SIZE, EXFAT_ROOT_INO, PAGE_SIZE};
use crate::exfat::fat::ClusterID;
use crate::exfat::fs::FsState;
use crate::exfat::inode::InodeView;
use crate::exfat::laws::chain::{is_chain, taken, vol_ok};
use crate::exfat::laws::dir::{dir_ok, dir_opens, held, is_dir, name_of, names_differ};
use crate::exfat::laws::layout::{laid_out, set_in, Held};
use crate::exfat::laws::page::{data_ok, fat_kept};
use crate::exfat::volume::VolumeState;

verus! {

/// The entries of an inode are read where they stand.
pub proof fn lemma_set_at(pages: Seq<u8>, slot: int, w: int)
    requires
        set_in(pages, slot, w),
    ensures
        crate::exfat::dentry_set::set_at(pages, slot) == Ok::<Seq<u8>, Errno>(
            pages.subrange(slot * DENTRY_SIZE, (slot + w) * DENTRY_SIZE),
        ),
{
}

/// Entries that are brought up to date stay of the same kinds and number.
pub proof fn lemma_entries_of(set: Seq<u8>, n: InodeView)
    requires
        2 * DENTRY_SIZE <= set.len(),
    ensures
        ({
            let new = crate::exfat::fs::file::entries_of(set, n);
            &&& new.len() == set.len()
            &&& new[1] == set[1]
            &&& forall|t: int|
                0 <= t * DENTRY_SIZE < set.len() ==> #[trigger] new[t * DENTRY_SIZE] == set[t
                    * DENTRY_SIZE]
        }),
{
    reveal(crate::exfat::fs::file::entries_of);
    let f = crate::exfat::fs::file::file_entry_of(crate::exfat::dentry::file_at(set, 0), n);
    let st = crate::exfat::fs::file::stream_entry_of(
        crate::exfat::dentry::stream_at(set, DENTRY_SIZE as int),
        n,
    );
    crate::exfat::laws::entry::law_updated_set(set, f, st);
    lemma_kinds_kept(set, crate::exfat::dentry_set::updated_set(set, f, st));
}

/// Entries that differ inside of the first two only begin alike.
proof fn lemma_kinds_kept(set: Seq<u8>, new: Seq<u8>)
    requires
        forall|k: int|
            0 <= k < set.len() && !(1 <= k < DENTRY_SIZE) && !(DENTRY_SIZE < k < 2 * DENTRY_SIZE)
                ==> #[trigger] new[k] == set[k],
    ensures
        forall|t: int|
            0 <= t * DENTRY_SIZE < set.len() ==> #[trigger] new[t * DENTRY_SIZE] == set[t
                * DENTRY_SIZE],
{
    assert forall|t: int| 0 <= t * DENTRY_SIZE < set.len() implies #[trigger] new[t * DENTRY_SIZE]
        == set[t * DENTRY_SIZE] by {
        let k = t * DENTRY_SIZE;
        assert(!(1 <= k < 32) && !(32 < k < 64));
        assert(new[k] == set[k]);
    }
}

/// The pages of a directory in which the entries of an inode were brought up to date.
pub proof fn lemma_entries_replaced(pages: Seq<u8>, es: Seq<Held>, k: int, new: Seq<u8>)
    requires
        laid_out(pages, es),
        0 <= k < es.len(),
        ({
            let set = pages.subrange(
                es[k].slot * DENTRY_SIZE,
                (es[k].slot + es[k].width) * DENTRY_SIZE,
            );
            &&& new.len() == set.len()
            &&& new[1] == set[1]
            &&& forall|t: int|
                0 <= t * DENTRY_SIZE < set.len() ==> #[trigger] new[t * DENTRY_SIZE] == set[t
                    * DENTRY_SIZE]
        }),
    ensures
        laid_out(crate::bytes::overwritten(pages, es[k].slot * DENTRY_SIZE, new), es),
{
    let e = es[k];
    assert(set_in(pages, es[k].slot, es[k].width)) by {
        reveal(laid_out);
    }
    let at = e.slot * DENTRY_SIZE;
    let set = pages.subrange(at, (e.slot + e.width) * DENTRY_SIZE);
    assert forall|t: int| 0 <= t < e.width implies #[trigger] new[t * DENTRY_SIZE] == pages[(e.slot
        + t) * DENTRY_SIZE] by {
        assert(new[t * DENTRY_SIZE] == set[t * DENTRY_SIZE]);
    }
    crate::exfat::laws::layout::lemma_set_replaced(pages, es, k, new);
}

/// The state in which an inode and the entries of it in the directory `i` are others.
pub open spec fn with_entries(
    s: FsState,
    i: int,
    e: Held,
    n: InodeView,
    new: Seq<u8>,
) -> FsState {
    let s1 = s.with_node(e.inode, n);
    s1.with_node(
        i,
        InodeView {
            pages: crate::bytes::overwritten(s1.nodes[i].pages, e.slot * DENTRY_SIZE, new),
            ..s1.nodes[i]
        },
    )
}

/// The entries of an inode in a directory.
pub open spec fn entries_in(pages: Seq<u8>, e: Held) -> Seq<u8> {
    pages.subrange(e.slot * DENTRY_SIZE, (e.slot + e.width) * DENTRY_SIZE)
}

/// What writing back an inode of a directory does.
pub proof fn lemma_written_steps(
    s: FsState,
    i: int,
    cs: Seq<ClusterID>,
    es: Seq<Held>,
    k: int,
    sync: bool,
)
    requires
        dir_ok(s, i, cs, es),
        0 <= k < es.len(),
    ensures
        ({
            let e = es[k];
            let n1 = crate::exfat::fs::file::without_lost_sizes(s.vol, s.nodes[e.inode]);
            let set = entries_in(s.nodes[i].pages, e);
            let s2 = with_entries(
                s,
                i,
                e,
                n1,
                crate::exfat::fs::file::entries_of(set, n1),
            );
            crate::exfat::fs::file::inode_written(s, e.inode, sync) == (if sync {
                crate::exfat::fs::file::node_range_written(
                    s2,
                    i,
                    e.slot * DENTRY_SIZE,
                    (e.slot + e.width) * DENTRY_SIZE,
                )
            } else {
                (s2, Ok::<(), Errno>(()))
            })
        }),
{
    reveal(crate::exfat::fs::file::inode_written);
    crate::exfat::laws::dir::lemma_dir_ok(s, i, cs, es);
    crate::exfat::laws::dir::lemma_dir_entry(s, i, cs, es, k);
    let e = es[k];
    let n = s.nodes[e.inode];
    let d = s.nodes[i];
    let z = s.vol.super_block.cluster_size as int;
    let at = e.slot * DENTRY_SIZE;
    crate::exfat::laws::dir::lemma_slot_walk(s.vol, d.start_chain, cs, e.slot);
    assert(taken(s.vol, cs[at / z]));
    crate::exfat::inode::law_hash_tells_places_apart(
        n.dentry_set_position.0.current,
        n.dentry_set_position.1 as u32,
        cs[at / z],
        (at % z) as u32,
    );
    lemma_set_at(d.pages, e.slot, e.width);
}

/// A directory holds what it held where entries of an inode are replaced by such of the
/// same kinds.
proof fn lemma_with_entries(
    s: FsState,
    i: int,
    cs: Seq<ClusterID>,
    es: Seq<Held>,
    k: int,
    n: InodeView,
    new: Seq<u8>,
)
    requires
        dir_ok(s, i, cs, es),
        0 <= k < es.len(),
        crate::exfat::laws::dir::same_place(n, s.nodes[es[k].inode]),
        ({
            let set = entries_in(s.nodes[i].pages, es[k]);
            &&& new.len() == set.len()
            &&& new[1] == set[1]
            &&& forall|t: int|
                0 <= t * DENTRY_SIZE < set.len() ==> #[trigger] new[t * DENTRY_SIZE] == set[t
                    * DENTRY_SIZE]
        }),
    ensures
        dir_ok(with_entries(s, i, es[k], n, new), i, cs, es),
{
    crate::exfat::laws::dir::lemma_dir_ok(s, i, cs, es);
    crate::exfat::laws::dir::lemma_dir_entry(s, i, cs, es, k);
    assert(laid_out(s.nodes[i].pages, es)) by {
        reveal(dir_ok);
    }
    lemma_entries_replaced(s.nodes[i].pages, es, k, new);
    let t = with_entries(s, i, es[k], n, new);
    assert forall|j: int| 0 <= j < es.len() implies crate::exfat::laws::dir::same_place(
        t.nodes[(#[trigger] es[j]).inode],
        s.nodes[es[j].inode],
    ) by {
        crate::exfat::laws::dir::lemma_dir_entry(s, i, cs, es, j);
    }
    crate::exfat::laws::dir::lemma_dir_frame(s, t, i, cs, es);
}

/// Writing pages of a directory to the disk succeeds and leaves the directory as it is.
pub proof fn lemma_dir_flushed(
    s: FsState,
    i: int,
    cs: Seq<ClusterID>,
    es: Seq<Held>,
    from: int,
    to: int,
)
    requires
        dir_ok(s, i, cs, es),
        data_ok(s.vol),
        0 <= from,
        0 < to <= s.nodes[i].pages.len(),
        to <= s.nodes[i].size,
    ensures
        ({
            let (t, r) = crate::exfat::fs::file::node_range_written(s, i, from, to);
            &&& r == Ok::<(), Errno>(())
            &&& t == s.with_vol(t.vol)
            &&& dir_ok(t, i, cs, es)
            &&& data_ok(t.vol)
            &&& fat_kept(s.vol, t.vol)
        }),
{
    crate::exfat::laws::dir::lemma_dir_ok(s, i, cs, es);
    let d = s.nodes[i];
    let first = from / (PAGE_SIZE as int);
    let last = crate::arith::pieces(to, PAGE_SIZE as int);
    crate::arith::lemma_rounded_up(to, PAGE_SIZE as int);
    crate::exfat::laws::page::lemma_pages_written(
        s.vol,
        d.start_chain,
        cs,
        d.pages,
        first,
        last,
    );
    let (t, r) = crate::exfat::fs::file::node_range_written(s, i, from, to);
    assert(laid_out(d.pages, es)) by {
        reveal(dir_ok);
    }
    crate::exfat::laws::dir::lemma_dir_frame(s, t, i, cs, es);
}

/// Writing back an inode of a directory succeeds and leaves the directory as it is.
pub proof fn lemma_child_written(
    s: FsState,
    i: int,
    cs: Seq<ClusterID>,
    es: Seq<Held>,
    k: int,
    sync: bool,
)
    requires
        dir_ok(s, i, cs, es),
        data_ok(s.vol),
        0 <= k < es.len(),
    ensures
        ({
            let c = es[k].inode;
            let (t, r) = crate::exfat::fs::file::inode_written(s, c, sync);
            &&& r == Ok::<(), Errno>(())
            &&& dir_ok(t, i, cs, es)
            &&& data_ok(t.vol)
            &&& fat_kept(s.vol, t.vol)
            &&& t == (FsState { vol: t.vol, nodes: t.nodes, ..s })
            &&& t.nodes.len() == s.nodes.len()
            &&& forall|j: int|
                0 <= j < s.nodes.len() && j != c && j != i ==> #[trigger] t.nodes[j] == s.nodes[j]
            &&& t.nodes[i] == (InodeView { pages: t.nodes[i].pages, ..s.nodes[i] })
            &&& t.nodes[c] == crate::exfat::fs::file::without_lost_sizes(s.vol, s.nodes[c])
        }),
{
    lemma_written_steps(s, i, cs, es, k, sync);
    crate::exfat::laws::dir::lemma_dir_ok(s, i, cs, es);
    crate::exfat::laws::dir::lemma_dir_entry(s, i, cs, es, k);
    let e = es[k];
    let n1 = crate::exfat::fs::file::without_lost_sizes(s.vol, s.nodes[e.inode]);
    let set = entries_in(s.nodes[i].pages, e);
    lemma_entries_of(set, n1);
    let new = crate::exfat::fs::file::entries_of(set, n1);
    lemma_with_entries(s, i, cs, es, k, n1, new);
    let s2 = with_entries(s, i, e, n1, new);
    if sync {
        lemma_dir_flushed(
            s2,
            i,
            cs,
            es,
            e.slot * DENTRY_SIZE,
            (e.slot + e.width) * DENTRY_SIZE,
        );
    }
}

/// Whether two states of a volume differ in the FAT entries and bits of the clusters
/// `changed` at most.
pub open spec fn others_same(v: VolumeState, w: VolumeState, changed: Set<ClusterID>) -> bool {
    &&& w.super_block == v.super_block
    &&& w.faults == v.faults
    &&& w.disk.len() == v.disk.len()
    &&& w.bits.len() == v.bits.len()
    &&& forall|c: ClusterID|
        crate::exfat::laws::fat::real_cluster(v, c as int) && !changed.contains(c) ==> #[trigger]
        crate::exfat::laws::chain::fat_of(w, c) == crate::exfat::laws::chain::fat_of(v, c)
            && crate::exfat::bitmap::cluster_used(w.bits, c as int)
            == crate::exfat::bitmap::cluster_used(v.bits, c as int)
}

/// Differing nowhere else is passed on where contents of clusters change.
pub proof fn lemma_others_same(
    v: VolumeState,
    w: VolumeState,
    x: VolumeState,
    changed: Set<ClusterID>,
)
    requires
        others_same(v, w, changed),
        vol_ok(w),
        fat_kept(w, x),
    ensures
        others_same(v, x, changed),
{
    crate::exfat::laws::page::lemma_fat_kept(w, x);
    assert forall|c: ClusterID|
        crate::exfat::laws::fat::real_cluster(v, c as int) && !changed.contains(c) implies
        #[trigger] crate::exfat::laws::chain::fat_of(x, c) == crate::exfat::laws::chain::fat_of(
        v,
        c,
    ) && crate::exfat::bitmap::cluster_used(x.bits, c as int)
        == crate::exfat::bitmap::cluster_used(v.bits, c as int) by {
        assert(crate::exfat::laws::chain::fat_of(w, c) == crate::exfat::laws::chain::fat_of(v, c));
    }
}

/// A chain stays one where nothing changes at its clusters.
pub proof fn lemma_chain_stays(
    v: VolumeState,
    w: VolumeState,
    chain: crate::exfat::chain::ExfatChain,
    cs: Seq<ClusterID>,
    changed: Set<ClusterID>,
)
    requires
        is_chain(v, chain, cs),
        others_same(v, w, changed),
        forall|k: int| 0 <= k < cs.len() ==> !changed.contains(#[trigger] cs[k]),
    ensures
        is_chain(w, chain, cs),
{
    assert forall|k: int| 0 <= k < cs.len() implies taken(w, #[trigger] cs[k])
        && crate::exfat::laws::chain::fat_of(w, cs[k]) == crate::exfat::laws::chain::fat_of(
        v,
        cs[k],
    ) by {
        assert(taken(v, cs[k]));
    }
}

/// Whether clusters are neither those of the directory `i`, which are `cs`, nor the one
/// in which its own entries lie.
pub open spec fn off_limits(s: FsState, i: int, cs: Seq<ClusterID>, xs: Seq<ClusterID>) -> bool {
    &&& forall|k: int| 0 <= k < cs.len() ==> !xs.contains(#[trigger] cs[k])
    &&& s.nodes[i].ino != EXFAT_ROOT_INO ==> !xs.contains(
        s.nodes[i].dentry_set_position.0.current,
    )
}

/// The clusters that change where a chain with the clusters `xs` gets `ds` in addition.
pub open spec fn touched(xs: Seq<ClusterID>, ds: Seq<ClusterID>) -> Set<ClusterID> {
    crate::exfat::laws::chain::either(xs, ds)
}

/// A directory holds what it held where the clusters of one of its inodes change.
pub proof fn lemma_child_changed(
    s: FsState,
    t: FsState,
    i: int,
    cs: Seq<ClusterID>,
    es: Seq<Held>,
    k: int,
    xs: Seq<ClusterID>,
    ds: Seq<ClusterID>,
)
    requires
        dir_ok(s, i, cs, es),
        0 <= k < es.len(),
        off_limits(s, i, cs, xs),
        forall|j: int| 0 <= j < ds.len() ==> !taken(s.vol, #[trigger] ds[j]),
        others_same(s.vol, t.vol, touched(xs, ds)),
        vol_ok(t.vol),
        t == (FsState { vol: t.vol, nodes: t.nodes, ..s }),
        t.nodes.len() == s.nodes.len(),
        forall|j: int|
            0 <= j < s.nodes.len() && j != es[k].inode ==> #[trigger] t.nodes[j] == s.nodes[j],
        crate::exfat::laws::dir::same_place(t.nodes[es[k].inode], s.nodes[es[k].inode]),
    ensures
        dir_ok(t, i, cs, es),
{
    crate::exfat::laws::dir::lemma_dir_ok(s, i, cs, es);
    crate::exfat::laws::dir::lemma_dir_entry(s, i, cs, es, k);
    let changed = touched(xs, ds);
    assert forall|j: int| 0 <= j < cs.len() implies !changed.contains(#[trigger] cs[j]) by {
        assert(taken(s.vol, cs[j]));
        if ds.contains(cs[j]) {
            let m = choose|m: int| 0 <= m < ds.len() && ds[m] == cs[j];
            assert(!taken(s.vol, ds[m]));
        }
    }
    lemma_chain_stays(s.vol, t.vol, s.nodes[i].start_chain, cs, changed);
    if s.nodes[i].ino != EXFAT_ROOT_INO {
        let home = s.nodes[i].dentry_set_position.0.current;
        if ds.contains(home) {
            let m = choose|m: int| 0 <= m < ds.len() && ds[m] == home;
            assert(!taken(s.vol, ds[m]));
        }
        assert(!changed.contains(home));
        assert(crate::exfat::laws::chain::fat_of(t.vol, home)
            == crate::exfat::laws::chain::fat_of(s.vol, home));
    }
    assert forall|j: int| 0 <= j < es.len() implies crate::exfat::laws::dir::same_place(
        t.nodes[(#[trigger] es[j]).inode],
        s.nodes[es[j].inode],
    ) by {
        crate::exfat::laws::dir::lemma_dir_entry(s, i, cs, es, j);
    }
    assert(laid_out(t.nodes[i].pages, es)) by {
        reveal(dir_ok);
    }
    crate::exfat::laws::dir::lemma_dir_frame(s, t, i, cs, es);
}

/// Clusters that an inode had or that were free are off the limits of a directory.
pub proof fn lemma_off_limits(
    s: FsState,
    t: FsState,
    i: int,
    cs: Seq<ClusterID>,
    xs: Seq<ClusterID>,
    ds: Seq<ClusterID>,
    ys: Seq<ClusterID>,
)
    requires
        is_dir(s, i, cs),
        off_limits(s, i, cs, xs),
        forall|j: int| 0 <= j < ds.len() ==> !taken(s.vol, #[trigger] ds[j]),
        forall|j: int| 0 <= j < ys.len() ==> touched(xs, ds).contains(#[trigger] ys[j]),
        t.nodes[i].ino == s.nodes[i].ino,
        t.nodes[i].dentry_set_position == s.nodes[i].dentry_set_position,
    ensures
        off_limits(t, i, cs, ys),
{
    assert forall|c: ClusterID| taken(s.vol, c) && !xs.contains(c) implies !(
    #[trigger] ys.contains(c)) by {
        if ys.contains(c) {
            let j = choose|j: int| 0 <= j < ys.len() && ys[j] == c;
            assert(touched(xs, ds).contains(ys[j]));
            let m = choose|m: int| 0 <= m < ds.len() && ds[m] == c;
            assert(!taken(s.vol, ds[m]));
        }
    }
    assert forall|k: int| 0 <= k < cs.len() implies !ys.contains(#[trigger] cs[k]) by {
        assert(taken(s.vol, cs[k]));
    }
}

/// The number of clusters that a number of bytes takes.
pub open spec fn clusters_for(s: FsState, size: usize) -> int {
    crate::arith::pieces(size as int, s.vol.super_block.cluster_size as int)
}

/// The clusters of an inode of a directory after it was resized.
pub open spec fn resized_to(
    s: FsState,
    t: FsState,
    i: int,
    cs: Seq<ClusterID>,
    es: Seq<Held>,
    k: int,
    new_size: usize,
    xs: Seq<ClusterID>,
    ys: Seq<ClusterID>,
    ds: Seq<ClusterID>,
) -> bool {
    let c = es[k].inode;
    &&& dir_ok(t, i, cs, es)
    &&& data_ok(t.vol)
    &&& t == (FsState { vol: t.vol, nodes: t.nodes, ..s })
    &&& t.nodes.len() == s.nodes.len()
    &&& is_chain(t.vol, t.nodes[c].start_chain, ys)
    &&& ys.len() == clusters_for(s, new_size)
    &&& crate::exfat::bitmap::count_free(t.vol.bits) + ys.len()
        == crate::exfat::bitmap::count_free(s.vol.bits) + xs.len()
    &&& forall|j: int| 0 <= j < ds.len() ==> !taken(s.vol, #[trigger] ds[j])
    &&& clusters_for(s, new_size) <= xs.len() ==> ds.len() == 0
    &&& forall|j: int| 0 <= j < ys.len() ==> touched(xs, ds).contains(#[trigger] ys[j])
    &&& others_same(s.vol, t.vol, touched(xs, ds))
    &&& t.nodes[c] == (InodeView {
        start_chain: t.nodes[c].start_chain,
        size: t.nodes[c].size,
        size_allocated: t.nodes[c].size_allocated,
        ..s.nodes[c]
    })
    &&& t.nodes[c].size_allocated == new_size
}

/// Giving an inode of a directory as many clusters as a number of bytes takes.
pub proof fn lemma_clusters_adjusted(
    s: FsState,
    i: int,
    cs: Seq<ClusterID>,
    es: Seq<Held>,
    k: int,
    new_size: usize,
    xs: Seq<ClusterID>,
) -> (r: (Seq<ClusterID>, Seq<ClusterID>))
    requires
        dir_ok(s, i, cs, es),
        0 <= k < es.len(),
        is_chain(s.vol, s.nodes[es[k].inode].start_chain, xs),
        off_limits(s, i, cs, xs),
        clusters_for(s, new_size) <= u32::MAX,
        clusters_for(s, new_size) <= xs.len() + crate::exfat::bitmap::count_free(s.vol.bits),
    ensures
        ({
            let c = es[k].inode;
            let (t, q) = crate::exfat::fs::file::clusters_adjusted(s, c, new_size);
            let (ys, ds) = r;
            &&& q == Ok::<(), Errno>(())
            &&& dir_ok(t, i, cs, es)
            &&& t.vol.disk.len() == s.vol.disk.len()
            &&& t.vol.faults == s.vol.faults
            &&& t.vol.super_block == s.vol.super_block
            &&& t == (FsState { vol: t.vol, nodes: t.nodes, ..s })
            &&& t.nodes.len() == s.nodes.len()
            &&& forall|j: int| 0 <= j < s.nodes.len() && j != c ==> #[trigger] t.nodes[j] == s.nodes[j]
            &&& is_chain(t.vol, t.nodes[c].start_chain, ys)
            &&& ys.len() == clusters_for(s, new_size)
            &&& crate::exfat::bitmap::count_free(t.vol.bits) + ys.len()
                == crate::exfat::bitmap::count_free(s.vol.bits) + xs.len()
            &&& forall|j: int| 0 <= j < ds.len() ==> !taken(s.vol, #[trigger] ds[j])
            &&& clusters_for(s, new_size) <= xs.len() ==> ds.len() == 0
            &&& forall|j: int| 0 <= j < ys.len() ==> touched(xs, ds).contains(#[trigger] ys[j])
            &&& others_same(s.vol, t.vol, touched(xs, ds))
            &&& forall|j: int| 0 <= j < ys.len() && j < xs.len() ==> #[trigger] ys[j] == xs[j]
            &&& forall|x: int|
                crate::exfat::laws::page::data_start(s.vol.super_block) <= x < s.vol.disk.len()
                    && !crate::exfat::laws::chain::in_bitmap(s.vol, x) ==> #[trigger] t.vol.disk[x]
                    == s.vol.disk[x]
            &&& t.nodes[c] == (InodeView {
                start_chain: t.nodes[c].start_chain,
                size: t.nodes[c].size,
                ..s.nodes[c]
            })
        }),
{
    crate::exfat::laws::dir::lemma_dir_ok(s, i, cs, es);
    crate::exfat::laws::dir::lemma_dir_entry(s, i, cs, es, k);
    let c = es[k].inode;
    let n = s.nodes[c];
    let want = clusters_for(s, new_size);
    let z = s.vol.super_block.cluster_size as int;
    crate::exfat::volume::lemma_cluster_size_positive(s.vol.super_block);
    crate::arith::lemma_rounded_up(new_size as int, z);
    let have = xs.len() as int;
    let (t, q) = crate::exfat::fs::file::clusters_adjusted(s, c, new_size);
    let none = Seq::<ClusterID>::empty();
    if want > have {
        let more = (want - have) as u32;
        let ds = crate::exfat::laws::chain::law_chain_extended(
            s.vol,
            n.start_chain,
            xs,
            more,
            true,
        );
        assert(others_same(s.vol, t.vol, touched(xs, ds)));
        lemma_child_changed(s, t, i, cs, es, k, xs, ds);
        let ys = xs + ds;
        assert forall|j: int| 0 <= j < ys.len() implies touched(xs, ds).contains(
            #[trigger] ys[j],
        ) by {
            if j < xs.len() {
                assert(xs[j] == ys[j]);
            } else {
                assert(ds[j - xs.len()] == ys[j]);
            }
        }
        (ys, ds)
    } else if want < have {
        let less = (have - want) as u32;
        crate::exfat::laws::chain::law_chain_shortened(s.vol, n.start_chain, xs, less, true);
        assert(xs.to_set().subset_of(touched(xs, none)));
        assert(others_same(s.vol, t.vol, touched(xs, none)));
        lemma_child_changed(s, t, i, cs, es, k, xs, none);
        let ys = xs.take(want);
        assert forall|j: int| 0 <= j < ys.len() implies touched(xs, none).contains(
            #[trigger] ys[j],
        ) by {
            assert(xs[j] == ys[j]);
        }
        (ys, none)
    } else {
        assert(others_same(s.vol, t.vol, touched(xs, none)));
        lemma_child_changed(s, t, i, cs, es, k, xs, none);
        (xs, none)
    }
}

/// Resizing an inode of a directory succeeds where there are enough free clusters: it
/// then has as many clusters as its bytes take, there are as many more or fewer free
/// ones, and the directory holds what it held.
pub proof fn law_resized(
    s: FsState,
    i: int,
    cs: Seq<ClusterID>,
    es: Seq<Held>,
    k: int,
    new_size: usize,
    xs: Seq<ClusterID>,
) -> (r: (Seq<ClusterID>, Seq<ClusterID>))
    requires
        dir_ok(s, i, cs, es),
        data_ok(s.vol),
        0 <= k < es.len(),
        is_chain(s.vol, s.nodes[es[k].inode].start_chain, xs),
        off_limits(s, i, cs, xs),
        clusters_for(s, new_size) <= u32::MAX,
        clusters_for(s, new_size) <= xs.len() + crate::exfat::bitmap::count_free(s.vol.bits),
    ensures
        ({
            let (t, q) = crate::exfat::fs::file::inode_resized(s, es[k].inode, new_size);
            &&& q == Ok::<(), Errno>(())
            &&& resized_to(s, t, i, cs, es, k, new_size, xs, r.0, r.1)
            &&& forall|j: int|
                0 <= j < s.nodes.len() && j != es[k].inode && j != i ==> #[trigger] t.nodes[j]
                    == s.nodes[j]
            &&& t.nodes[i] == (InodeView { pages: t.nodes[i].pages, ..s.nodes[i] })
        }),
{
    reveal(crate::exfat::fs::file::inode_resized);
    let c = es[k].inode;
    crate::exfat::laws::dir::lemma_dir_ok(s, i, cs, es);
    crate::exfat::laws::dir::lemma_dir_entry(s, i, cs, es, k);
    let z = s.vol.super_block.cluster_size as int;
    crate::exfat::volume::lemma_cluster_size_positive(s.vol.super_block);
    crate::arith::lemma_rounded_up(new_size as int, z);
    let (ys, ds) = lemma_clusters_adjusted(s, i, cs, es, k, new_size, xs);
    let (s1, r1) = crate::exfat::fs::file::clusters_adjusted(s, c, new_size);
    let s2 = s1.with_node(c, InodeView { size_allocated: new_size, ..s1.nodes[c] });
    crate::exfat::laws::dir::lemma_dir_ok(s1, i, cs, es);
    assert(others_same(s1.vol, s2.vol, touched(Seq::empty(), Seq::empty())));
    lemma_child_changed(s1, s2, i, cs, es, k, Seq::empty(), Seq::empty());
    lemma_child_written(s2, i, cs, es, k, true);
    let (t, q) = crate::exfat::fs::file::inode_written(s2, c, true);
    crate::exfat::laws::dir::lemma_dir_ok(s2, i, cs, es);
    lemma_others_same(s.vol, s2.vol, t.vol, touched(xs, ds));
    crate::exfat::laws::page::lemma_chain_kept(s2.vol, t.vol, s2.nodes[c].start_chain, ys);
    if ys.len() > 0 {
        assert(taken(s2.vol, ys[0]));
    } else {
        let w = clusters_for(s, new_size);
        assert(w * z == 0) by (nonlinear_arith)
            requires
                w == 0,
        ;
        assert(new_size == 0);
    }
    (ys, ds)
}

/// Where there are not enough free clusters, resizing an inode fails and changes nothing.
pub proof fn law_resize_no_space(s: FsState, i: int, new_size: usize)
    requires
        0 <= i < s.nodes.len(),
        clusters_for(s, new_size) <= u32::MAX,
        clusters_for(s, new_size) > s.nodes[i].start_chain.num_clusters
            + crate::exfat::bitmap::count_free(s.vol.bits),
    ensures
        crate::exfat::fs::file::inode_resized(s, i, new_size) == (
            s,
            Err::<(), Errno>(Errno::ENOSPC),
        ),
{
    reveal(crate::exfat::fs::file::inode_resized);
    let n = s.nodes[i];
    let more = (clusters_for(s, new_size) - n.start_chain.num_clusters) as u32;
    crate::exfat::laws::chain::law_chain_extended_no_space(s.vol, n.start_chain, more, true);
    assert(s.with_vol(s.vol).with_node(i, n) =~= s);
}

/// Entries of a file name no clusters of their own.
proof fn lemma_no_secondaries(v: VolumeState, pages: Seq<u8>, slot: int, w: int, k: int)
    requires
        set_in(pages, slot, w),
        0 <= k <= w,
    ensures
        crate::exfat::fs::dir::secondaries_freed(
            v,
            pages.subrange(slot * DENTRY_SIZE, (slot + w) * DENTRY_SIZE),
            k,
            w,
        ) == (v, Ok::<(), Errno>(())),
    decreases w - k,
{
    if k < w {
        let set = pages.subrange(slot * DENTRY_SIZE, (slot + w) * DENTRY_SIZE);
        let entry = set.subrange(k * DENTRY_SIZE, (k + 1) * DENTRY_SIZE);
        assert(entry[0] == pages[(slot + k) * DENTRY_SIZE]);
        if k >= 2 {
            assert(crate::exfat::dentry::slot_kind(pages, slot + k) is Name);
        }
        lemma_no_secondaries(v, pages, slot, w, k + 1);
    }
}

/// Whether the inode `i` is a directory with the clusters `cs` in whose pages the inodes
/// `es` stand, and which holds all of them but the one with the number `k`.
#[verifier::opaque]
pub open spec fn dir_ok_but(
    s: FsState,
    i: int,
    cs: Seq<ClusterID>,
    es: Seq<Held>,
    k: int,
) -> bool {
    &&& is_dir(s, i, cs)
    &&& s.nodes[i].num_subdir == es.len()
    &&& laid_out(s.nodes[i].pages, es)
    &&& forall|j: int| 0 <= j < es.len() && j != k ==> held(s, i, cs, #[trigger] es[j])
}

/// Deleting the entries of an inode takes it out of the directory.
pub proof fn lemma_entries_deleted(
    s: FsState,
    i: int,
    cs: Seq<ClusterID>,
    es: Seq<Held>,
    k: int,
)
    requires
        dir_ok_but(s, i, cs, es, k),
        0 <= k < es.len(),
    ensures
        ({
            let (t, r) = crate::exfat::fs::dir::entries_deleted(
                s,
                i,
                es[k].slot * DENTRY_SIZE,
                es[k].width * DENTRY_SIZE,
            );
            &&& r == Ok::<(), Errno>(())
            &&& dir_ok(t, i, cs, es.remove(k))
            &&& t == s.with_node(
                i,
                InodeView {
                    pages: t.nodes[i].pages,
                    num_subdir: t.nodes[i].num_subdir,
                    ..s.nodes[i]
                },
            )
        }),
{
    reveal(crate::exfat::fs::dir::entries_deleted);
    reveal(dir_ok_but);
    let e = es[k];
    let n = s.nodes[i];
    let at = e.slot * DENTRY_SIZE;
    let len = e.width * DENTRY_SIZE;
    assert(set_in(n.pages, es[k].slot, es[k].width)) by {
        reveal(laid_out);
    }
    assert(len / (DENTRY_SIZE as int) == e.width);
    lemma_no_secondaries(s.vol, n.pages, e.slot, e.width, 0);
    let (t, r) = crate::exfat::fs::dir::entries_deleted(s, i, at, len);
    crate::exfat::laws::layout::lemma_deleted_bytes(n.pages, e.slot, e.width);
    crate::exfat::laws::layout::lemma_set_gone(n.pages, t.nodes[i].pages, es, k);
    let fs = es.remove(k);
    assert(is_dir(t, i, cs));
    assert forall|j: int| 0 <= j < fs.len() implies held(t, i, cs, #[trigger] fs[j]) by {
        let x = if j < k {
            j
        } else {
            j + 1
        };
        assert(fs[j] == es[x]);
        assert(held(s, i, cs, es[x]));
    }
    assert(dir_ok(t, i, cs, fs)) by {
        reveal(dir_ok);
    }
}

/// Names still differ where one was taken away.
pub proof fn lemma_names_removed(s: FsState, t: FsState, es: Seq<Held>, k: int)
    requires
        names_differ(s, es),
        0 <= k < es.len(),
        forall|j: int|
            0 <= j < es.len() && j != k ==> name_of(t.nodes[(#[trigger] es[j]).inode]) == name_of(
                s.nodes[es[j].inode],
            ),
    ensures
        names_differ(t, es.remove(k)),
{
    let fs = es.remove(k);
    assert forall|a: int, b: int| 0 <= a < b < fs.len() implies name_of(
        t.nodes[(#[trigger] fs[a]).inode],
    ) != name_of(t.nodes[(#[trigger] fs[b]).inode]) by {
        let x = if a < k {
            a
        } else {
            a + 1
        };
        let y = if b < k {
            b
        } else {
            b + 1
        };
        assert(fs[a] == es[x] && fs[b] == es[y]);
    }
}

/// The inodes of a directory are different ones.
pub proof fn lemma_inodes_differ(
    s: FsState,
    i: int,
    cs: Seq<ClusterID>,
    es: Seq<Held>,
    a: int,
    b: int,
)
    requires
        dir_ok(s, i, cs, es),
        0 <= a < es.len(),
        0 <= b < es.len(),
        a != b,
    ensures
        es[a].inode != es[b].inode,
{
    crate::exfat::laws::dir::lemma_dir_entry(s, i, cs, es, a);
    crate::exfat::laws::dir::lemma_dir_entry(s, i, cs, es, b);
    reveal(dir_ok);
    reveal(laid_out);
    if a < b {
        assert(es[a].slot + es[a].width <= es[b].slot);
    } else {
        assert(es[b].slot + es[b].width <= es[a].slot);
    }
}

/// What taking an inode out of a directory makes of the file system: the directory no
/// longer holds it, its clusters are free, and all else is as before.
pub open spec fn taken_out(
    s: FsState,
    t: FsState,
    i: int,
    cs: Seq<ClusterID>,
    es: Seq<Held>,
    k: int,
    xs: Seq<ClusterID>,
) -> bool {
    &&& dir_ok(t, i, cs, es.remove(k))
    &&& data_ok(t.vol)
    &&& t.opened == s.opened
    &&& t.next_ino == s.next_ino
    &&& t.nodes.len() == s.nodes.len()
    &&& forall|j: int|
        0 <= j < s.nodes.len() && j != es[k].inode && j != i ==> #[trigger] t.nodes[j]
            == s.nodes[j]
    &&& t.nodes[i] == (InodeView {
        pages: t.nodes[i].pages,
        num_subdir: t.nodes[i].num_subdir,
        ..s.nodes[i]
    })
    &&& crate::exfat::bitmap::count_free(t.vol.bits) == crate::exfat::bitmap::count_free(
        s.vol.bits,
    ) + xs.len()
    &&& others_same(s.vol, t.vol, touched(xs, Seq::empty()))
}

/// Removing an inode from a directory takes it out.
pub proof fn lemma_removed(
    s: FsState,
    i: int,
    cs: Seq<ClusterID>,
    es: Seq<Held>,
    k: int,
    xs: Seq<ClusterID>,
)
    requires
        dir_ok(s, i, cs, es),
        data_ok(s.vol),
        0 <= k < es.len(),
        is_chain(s.vol, s.nodes[es[k].inode].start_chain, xs),
        off_limits(s, i, cs, xs),
    ensures
        ({
            let (t, r) = crate::exfat::fs::namei::removed(
                s,
                i,
                es[k].inode,
                es[k].slot * DENTRY_SIZE,
                es[k].width * DENTRY_SIZE,
            );
            &&& r == Ok::<(), Errno>(())
            &&& taken_out(s, t, i, cs, es, k, xs)
        }),
{
    crate::exfat::laws::dir::lemma_dir_ok(s, i, cs, es);
    crate::exfat::laws::dir::lemma_dir_entry(s, i, cs, es, k);
    let z = s.vol.super_block.cluster_size as int;
    crate::exfat::volume::lemma_cluster_size_positive(s.vol.super_block);
    crate::arith::lemma_rounded_up(0, z);
    let (ys, ds) = lemma_clusters_gone(s, i, cs, es, k, xs);
    let (s1, r1) = crate::exfat::fs::file::inode_resized(s, es[k].inode, 0);
    assert(dir_ok_but(s1, i, cs, es, k)) by {
        reveal(dir_ok);
        reveal(dir_ok_but);
    }
    lemma_entries_deleted(s1, i, cs, es, k);
    let (t, r) = crate::exfat::fs::namei::removed(
        s,
        i,
        es[k].inode,
        es[k].slot * DENTRY_SIZE,
        es[k].width * DENTRY_SIZE,
    );
}

/// Resizing an inode of a directory to nothing frees its clusters.
proof fn lemma_clusters_gone(
    s: FsState,
    i: int,
    cs: Seq<ClusterID>,
    es: Seq<Held>,
    k: int,
    xs: Seq<ClusterID>,
) -> (r: (Seq<ClusterID>, Seq<ClusterID>))
    requires
        dir_ok(s, i, cs, es),
        data_ok(s.vol),
        0 <= k < es.len(),
        is_chain(s.vol, s.nodes[es[k].inode].start_chain, xs),
        off_limits(s, i, cs, xs),
    ensures
        ({
            let (t, q) = crate::exfat::fs::file::inode_resized(s, es[k].inode, 0);
            &&& q == Ok::<(), Errno>(())
            &&& resized_to(s, t, i, cs, es, k, 0, xs, r.0, r.1)
            &&& r.0.len() == 0
            &&& others_same(s.vol, t.vol, touched(xs, Seq::empty()))
            &&& forall|j: int|
                0 <= j < s.nodes.len() && j != es[k].inode && j != i ==> #[trigger] t.nodes[j]
                    == s.nodes[j]
            &&& t.nodes[i] == (InodeView { pages: t.nodes[i].pages, ..s.nodes[i] })
        }),
{
    crate::exfat::laws::dir::lemma_dir_ok(s, i, cs, es);
    let z = s.vol.super_block.cluster_size as int;
    crate::exfat::volume::lemma_cluster_size_positive(s.vol.super_block);
    crate::arith::lemma_rounded_up(0, z);
    let r = law_resized(s, i, cs, es, k, 0, xs);
    assert(r.1 =~= Seq::<ClusterID>::empty());
    r
}

/// A name that was taken out of a directory is not found, and every other name gives
/// what it gave before.
pub proof fn lemma_taken_out_not_found(
    o: FsState,
    s: FsState,
    t: FsState,
    i: int,
    cs: Seq<ClusterID>,
    es: Seq<Held>,
    k: int,
    other: Seq<char>,
)
    requires
        dir_opens(o, s, i, cs, es),
        names_differ(s, es),
        0 <= k < es.len(),
        dir_ok(t, i, cs, es.remove(k)),
        names_differ(t, es.remove(k)),
        forall|j: int|
            0 <= j < es.len() && j != k ==> name_of(t.nodes[(#[trigger] es[j]).inode]) == name_of(
                s.nodes[es[j].inode],
            ),
        !crate::exfat::fs::namei::too_long(other),
    ensures
        crate::exfat::fs::namei::looked_up(t, i, other).1 == (if other == name_of(
            s.nodes[es[k].inode],
        ) {
            Err::<usize, Errno>(Errno::ENOENT)
        } else {
            crate::exfat::fs::namei::looked_up(o, i, other).1
        }),
{
    crate::exfat::laws::dir::lemma_dir_opens(o, s, i, cs, es);
    crate::exfat::laws::dir::law_looked_up(o, s, i, cs, es, other);
    crate::exfat::laws::dir::lemma_looked_up(t, i, cs, es.remove(k), other);
    crate::exfat::laws::dir::lemma_found_remove(s, t, es, k, other);
}

/// Removing a file from a directory succeeds: the file is not found afterwards, every
/// other name gives what it gave before, and the clusters of the file are free.
pub proof fn law_unlinked(
    o: FsState,
    s: FsState,
    i: int,
    cs: Seq<ClusterID>,
    es: Seq<Held>,
    k: int,
    xs: Seq<ClusterID>,
)
    requires
        dir_opens(o, s, i, cs, es),
        names_differ(s, es),
        data_ok(s.vol),
        0 <= k < es.len(),
        s.nodes[es[k].inode].inode_type is File,
        !crate::exfat::fs::namei::too_long(name_of(s.nodes[es[k].inode])),
        name_of(s.nodes[es[k].inode]) != crate::exfat::fs::namei::dot(),
        name_of(s.nodes[es[k].inode]) != crate::exfat::fs::namei::dot_dot(),
        is_chain(s.vol, s.nodes[es[k].inode].start_chain, xs),
        off_limits(s, i, cs, xs),
    ensures
        ({
            let name = name_of(s.nodes[es[k].inode]);
            let (t, r) = crate::exfat::fs::namei::unlinked(o, i, name);
            &&& r == Ok::<(), Errno>(())
            &&& taken_out(s, t, i, cs, es, k, xs)
            &&& names_differ(t, es.remove(k))
            &&& crate::exfat::fs::namei::looked_up(t, i, name).1 == Err::<usize, Errno>(
                Errno::ENOENT,
            )
            &&& forall|other: Seq<char>|
                other != name && !crate::exfat::fs::namei::too_long(other) ==> (#[trigger]
                crate::exfat::fs::namei::looked_up(t, i, other)).1
                    == crate::exfat::fs::namei::looked_up(o, i, other).1
        }),
{
    let name = name_of(s.nodes[es[k].inode]);
    crate::exfat::laws::dir::lemma_dir_opens(o, s, i, cs, es);
    crate::exfat::laws::dir::lemma_dir_entry(s, i, cs, es, k);
    crate::exfat::laws::dir::law_name_found(o, s, i, cs, es, name);
    let (s1, r1) = crate::exfat::fs::dir::name_found(o, i, name);
    crate::exfat::laws::chain::law_chain_kept(
        s.vol,
        s1.vol,
        s.nodes[es[k].inode].start_chain,
        xs,
        Set::empty(),
    );
    lemma_removed(s1, i, cs, es, k, xs);
    let (t, r) = crate::exfat::fs::namei::unlinked(o, i, name);
    lemma_taken_out_finish(o, s, s1, t, i, cs, es, k, xs);
}

/// Removing an empty directory from a directory succeeds: it is not found afterwards,
/// every other name gives what it gave before, and its clusters are free.
pub proof fn law_directory_removed(
    o: FsState,
    s: FsState,
    i: int,
    cs: Seq<ClusterID>,
    es: Seq<Held>,
    k: int,
    xs: Seq<ClusterID>,
)
    requires
        dir_opens(o, s, i, cs, es),
        names_differ(s, es),
        data_ok(s.vol),
        0 <= k < es.len(),
        s.nodes[es[k].inode].inode_type is Dir,
        s.nodes[es[k].inode].num_subdir == 0,
        !crate::exfat::fs::namei::too_long(name_of(s.nodes[es[k].inode])),
        name_of(s.nodes[es[k].inode]) != crate::exfat::fs::namei::dot(),
        name_of(s.nodes[es[k].inode]) != crate::exfat::fs::namei::dot_dot(),
        is_chain(s.vol, s.nodes[es[k].inode].start_chain, xs),
        off_limits(s, i, cs, xs),
    ensures
        ({
            let name = name_of(s.nodes[es[k].inode]);
            let (t, r) = crate::exfat::fs::namei::directory_removed(o, i, name);
            &&& r == Ok::<(), Errno>(())
            &&& taken_out(s, t, i, cs, es, k, xs)
            &&& names_differ(t, es.remove(k))
            &&& crate::exfat::fs::namei::looked_up(t, i, name).1 == Err::<usize, Errno>(
                Errno::ENOENT,
            )
            &&& forall|other: Seq<char>|
                other != name && !crate::exfat::fs::namei::too_long(other) ==> (#[trigger]
                crate::exfat::fs::namei::looked_up(t, i, other)).1
                    == crate::exfat::fs::namei::looked_up(o, i, other).1
        }),
{
    let name = name_of(s.nodes[es[k].inode]);
    crate::exfat::laws::dir::lemma_dir_opens(o, s, i, cs, es);
    crate::exfat::laws::dir::lemma_dir_entry(s, i, cs, es, k);
    crate::exfat::laws::dir::law_name_found(o, s, i, cs, es, name);
    let (s1, r1) = crate::exfat::fs::dir::name_found(o, i, name);
    crate::exfat::laws::chain::law_chain_kept(
        s.vol,
        s1.vol,
        s.nodes[es[k].inode].start_chain,
        xs,
        Set::empty(),
    );
    lemma_removed(s1, i, cs, es, k, xs);
    let (t, r) = crate::exfat::fs::namei::directory_removed(o, i, name);
    lemma_taken_out_finish(o, s, s1, t, i, cs, es, k, xs);
}

/// What holds after an inode was taken out of a directory that was looked through before.
proof fn lemma_taken_out_finish(
    o: FsState,
    s: FsState,
    s1: FsState,
    t: FsState,
    i: int,
    cs: Seq<ClusterID>,
    es: Seq<Held>,
    k: int,
    xs: Seq<ClusterID>,
)
    requires
        dir_opens(o, s, i, cs, es),
        names_differ(s, es),
        0 <= k < es.len(),
        s1 == s.with_vol(s1.vol),
        crate::exfat::laws::dir::only_cache(s.vol, s1.vol),
        taken_out(s1, t, i, cs, es, k, xs),
    ensures
        taken_out(s, t, i, cs, es, k, xs),
        names_differ(t, es.remove(k)),
        forall|other: Seq<char>|
            !crate::exfat::fs::namei::too_long(other) ==> (#[trigger]
            crate::exfat::fs::namei::looked_up(t, i, other)).1 == (if other == name_of(
                s.nodes[es[k].inode],
            ) {
                Err::<usize, Errno>(Errno::ENOENT)
            } else {
                crate::exfat::fs::namei::looked_up(o, i, other).1
            }),
{
    crate::exfat::laws::dir::lemma_dir_opens(o, s, i, cs, es);
    assert(others_same(s.vol, t.vol, touched(xs, Seq::empty()))) by {
        assert forall|c: ClusterID|
            crate::exfat::laws::fat::real_cluster(s.vol, c as int) && !touched(
                xs,
                Seq::empty(),
            ).contains(c) implies #[trigger] crate::exfat::laws::chain::fat_of(t.vol, c)
            == crate::exfat::laws::chain::fat_of(s.vol, c) && crate::exfat::bitmap::cluster_used(
            t.vol.bits,
            c as int,
        ) == crate::exfat::bitmap::cluster_used(s.vol.bits, c as int) by {
            assert(crate::exfat::laws::chain::fat_of(t.vol, c)
                == crate::exfat::laws::chain::fat_of(s1.vol, c));
        }
    }
    assert forall|j: int| 0 <= j < es.len() && j != k implies name_of(
        t.nodes[(#[trigger] es[j]).inode],
    ) == name_of(s.nodes[es[j].inode]) by {
        crate::exfat::laws::dir::lemma_dir_entry(s, i, cs, es, j);
        lemma_inodes_differ(s, i, cs, es, j, k);
        assert(t.nodes[es[j].inode] == s1.nodes[es[j].inode]);
    }
    lemma_names_removed(s, t, es, k);
    assert forall|other: Seq<char>| !crate::exfat::fs::namei::too_long(other) implies (#[trigger]
    crate::exfat::fs::namei::looked_up(t, i, other)).1 == (if other == name_of(
        s.nodes[es[k].inode],
    ) {
        Err::<usize, Errno>(Errno::ENOENT)
    } else {
        crate::exfat::fs::namei::looked_up(o, i, other).1
    }) by {
        lemma_taken_out_not_found(o, s, t, i, cs, es, k, other);
    }
}

} // verus!
