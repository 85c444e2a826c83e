//! Making files and directories: they are found afterwards, and so is everything else.

use vstd::prelude::*;
use crate::errno::Errno;
use crate::exfat::constants::{DENTRY_SIZE, PAGE_SIZE};
use crate::exfat::dentry::DosTimestamp;
use crate::exfat::fat::ClusterID;
use crate::exfat::fs::FsState;
use crate::exfat::inode::{InodeType, InodeView};
use crate::exfat::laws::chain::{either, elsewhere_same, is_chain, taken};
use crate::exfat::laws::dir::{dir_ok, dir_opens, elsewhere, held, is_dir, slot_hash};
use crate::exfat::laws::layout::{apart, laid_out, Held};
use crate::exfat::super_block::ExfatSuperBlock;

verus! {

/// The entries that a search finds are not in use, and lie within the directory.
pub proof fn law_free_slots(pages: Seq<u8>, size: int, want: int, slot: int, run: int)
    requires
        0 <= run < want,
        run <= slot,
        forall|t: int|
            slot - run <= t < slot ==> #[trigger] crate::exfat::dentry::slot_is_free(pages, t),
    ensures
        crate::exfat::fs::dir::free_slots(pages, size, want, slot, run) matches Ok(Some(found))
            ==> {
            &&& 0 <= found
            &&& (found + want) * DENTRY_SIZE <= pages.len()
            &&& (found + want - 1) * DENTRY_SIZE < size
            &&& forall|t: int|
                found <= t < found + want ==> #[trigger] crate::exfat::dentry::slot_is_free(
                    pages,
                    t,
                )
        },
    decreases pages.len() - slot * DENTRY_SIZE,
{
    if slot * DENTRY_SIZE < size && crate::exfat::dentry::has_slot(pages, slot) {
        let run1 = if crate::exfat::dentry::slot_is_free(pages, slot) {
            run + 1
        } else {
            0
        };
        if run1 < want {
            law_free_slots(pages, size, want, slot + 1, run1);
        }
    }
}

/// Clusters hold whole entries.
pub proof fn lemma_cluster_size(sb: ExfatSuperBlock)
    requires
        sb.wf(),
    ensures
        sb.cluster_size % 32 == 0,
        512 <= sb.cluster_size,
{
    let q = sb.sector_size as int;
    let f = 4096int / q;
    vstd::arithmetic::div_mod::lemma_fundamental_div_mod(4096, q);
    assert(4096 == q * f);
    assert(1 <= f <= 8) by (nonlinear_arith)
        requires
            4096 == q * f,
            512 <= q <= 4096,
    ;
    assert(4096 == q || 4096 == 2 * q || 4096 == 3 * q || 4096 == 4 * q || 4096 == 5 * q || 4096
        == 6 * q || 4096 == 7 * q || 4096 == 8 * q) by (nonlinear_arith)
        requires
            4096 == q * f,
            1 <= f <= 8,
    ;
    assert(q % 32 == 0);
    let m = sb.sect_per_cluster as int;
    let h = q / 32;
    assert(q * m == 32 * (h * m)) by (nonlinear_arith)
        requires
            q == 32 * h,
    ;
    crate::exfat::volume::lemma_cluster_size_positive(sb);
}

/// The places of entries do not depend on clusters behind them.
pub proof fn lemma_slot_hash_prefix(
    sb: ExfatSuperBlock,
    cs: Seq<ClusterID>,
    ds: Seq<ClusterID>,
    slot: int,
)
    requires
        sb.wf(),
        0 <= slot,
        slot * DENTRY_SIZE < cs.len() * sb.cluster_size,
    ensures
        slot_hash(sb, cs + ds, slot) == slot_hash(sb, cs, slot),
{
    let at = slot * DENTRY_SIZE;
    let z = sb.cluster_size as int;
    let n = cs.len() as int;
    crate::exfat::volume::lemma_cluster_size_positive(sb);
    assert(n * z == z * n) by (nonlinear_arith);
    vstd::arithmetic::div_mod::lemma_multiply_divide_lt(at, z, n);
    vstd::arithmetic::div_mod::lemma_div_pos_is_pos(at, z);
}

/// Whether two states differ at most in the volume and in the inode `i`, of which only
/// the sizes, the clusters, the pages and the number of entries may differ.
pub open spec fn only_dir(s: FsState, t: FsState, i: int) -> bool {
    &&& t == (FsState { vol: t.vol, nodes: t.nodes, ..s })
    &&& t.vol.super_block == s.vol.super_block
    &&& t.nodes.len() == s.nodes.len()
    &&& forall|j: int| 0 <= j < s.nodes.len() && j != i ==> #[trigger] t.nodes[j] == s.nodes[j]
    &&& t.nodes[i] == (InodeView {
        start_chain: t.nodes[i].start_chain,
        size: t.nodes[i].size,
        size_allocated: t.nodes[i].size_allocated,
        pages: t.nodes[i].pages,
        num_subdir: t.nodes[i].num_subdir,
        ..s.nodes[i]
    })
}

/// Whether the clusters `ds` were free in the state `s`, and nothing but them and the
/// clusters `cs` changed.
pub open spec fn only_grown(
    s: FsState,
    t: FsState,
    cs: Seq<ClusterID>,
    ds: Seq<ClusterID>,
) -> bool {
    &&& elsewhere_same(s.vol, t.vol, either(cs, ds))
    &&& forall|k: int| 0 <= k < ds.len() ==> !taken(s.vol, #[trigger] ds[k])
}

/// A cluster that was in use elsewhere still is.
pub proof fn lemma_elsewhere(
    s: FsState,
    t: FsState,
    cs: Seq<ClusterID>,
    ds: Seq<ClusterID>,
    cluster: ClusterID,
)
    requires
        only_grown(s, t, cs, ds),
        elsewhere(s.vol, cs, cluster),
    ensures
        elsewhere(t.vol, cs + ds, cluster),
{
    assert(!ds.contains(cluster)) by {
        if ds.contains(cluster) {
            let k = choose|k: int| 0 <= k < ds.len() && ds[k] == cluster;
            assert(!taken(s.vol, ds[k]));
        }
    }
    assert(!either(cs, ds).contains(cluster));
    assert(crate::exfat::laws::chain::fat_of(t.vol, cluster) == crate::exfat::laws::chain::fat_of(
        s.vol,
        cluster,
    ));
    assert(!(cs + ds).contains(cluster)) by {
        if (cs + ds).contains(cluster) {
            let all = cs + ds;
            let k = choose|k: int| 0 <= k < all.len() && all[k] == cluster;
            if k < cs.len() {
                assert(cs[k] == cluster);
            } else {
                assert(ds[k - cs.len()] == cluster);
            }
        }
    }
}

/// A directory with more clusters, and with pages for them, holds what it held.
proof fn lemma_grown_holds(
    s: FsState,
    t: FsState,
    i: int,
    cs: Seq<ClusterID>,
    ds: Seq<ClusterID>,
    es: Seq<Held>,
)
    requires
        dir_ok(s, i, cs, es),
        only_dir(s, t, i),
        is_dir(t, i, cs + ds),
        t.nodes[i].num_subdir == s.nodes[i].num_subdir,
        s.nodes[i].size <= t.nodes[i].size,
        t.nodes[i].pages == crate::exfat::fs::pages_for(
            s.nodes[i].pages,
            t.nodes[i].size as int,
        ),
    ensures
        dir_ok(t, i, cs + ds, es),
{
    crate::exfat::laws::dir::lemma_dir_ok(s, i, cs, es);
    crate::arith::lemma_rounded_up(t.nodes[i].size as int, PAGE_SIZE as int);
    let d = s.nodes[i];
    assert forall|k: int| 0 <= k < es.len() implies held(t, i, cs + ds, #[trigger] es[k]) && (
    es[k].slot + es[k].width) * DENTRY_SIZE <= t.nodes[i].size by {
        crate::exfat::laws::dir::lemma_dir_entry(s, i, cs, es, k);
        lemma_slot_hash_prefix(s.vol.super_block, cs, ds, es[k].slot);
    }
    assert(laid_out(t.nodes[i].pages, es)) by {
        assert(laid_out(d.pages, es)) by {
            reveal(dir_ok);
        }
        crate::exfat::laws::layout::lemma_pages_resized(
            d.pages,
            es,
            crate::arith::rounded_up(t.nodes[i].size as int, PAGE_SIZE as int),
        );
    }
    assert(dir_ok(t, i, cs + ds, es)) by {
        reveal(dir_ok);
    }
}

/// A directory that grew holds what it held.
proof fn lemma_directory_grown(
    s: FsState,
    i: int,
    cs: Seq<ClusterID>,
    es: Seq<Held>,
    clusters: u32,
) -> (ds: Seq<ClusterID>)
    requires
        dir_ok(s, i, cs, es),
        crate::exfat::fs::dir::directory_grown(s, i, clusters).1 is Ok,
        s.nodes[i].size + s.vol.super_block.cluster_size * clusters <= DENTRY_SIZE * u32::MAX,
    ensures
        ({
            let t = crate::exfat::fs::dir::directory_grown(s, i, clusters).0;
            &&& dir_ok(t, i, cs + ds, es)
            &&& only_dir(s, t, i)
            &&& only_grown(s, t, cs, ds)
            &&& t.nodes[i].num_subdir == s.nodes[i].num_subdir
            &&& t.nodes[i].size == s.nodes[i].size + s.vol.super_block.cluster_size * clusters
        }),
{
    crate::exfat::laws::dir::lemma_dir_ok(s, i, cs, es);
    let d = s.nodes[i];
    assert(clusters <= crate::exfat::bitmap::count_free(s.vol.bits) && cs.len() + clusters
        <= u32::MAX) by {
        reveal(crate::exfat::chain::chain_grown);
    }
    let ds = crate::exfat::laws::chain::law_chain_extended(
        s.vol,
        d.start_chain,
        cs,
        clusters,
        true,
    );
    let t = crate::exfat::fs::dir::directory_grown(s, i, clusters).0;
    let z = s.vol.super_block.cluster_size as int;
    assert(z * clusters + cs.len() * z == (cs.len() + clusters) * z) by (nonlinear_arith);
    crate::arith::lemma_rounded_up(t.nodes[i].size as int, PAGE_SIZE as int);
    assert(only_dir(s, t, i));
    assert(only_grown(s, t, cs, ds));
    if d.ino != crate::exfat::constants::EXFAT_ROOT_INO {
        lemma_elsewhere(s, t, cs, ds, d.dentry_set_position.0.current);
    }
    assert(is_dir(t, i, cs + ds));
    lemma_grown_holds(s, t, i, cs, ds, es);
    ds
}

/// A directory that has its first cluster holds what it held.
proof fn lemma_first_cluster(s: FsState, i: int, cs: Seq<ClusterID>, es: Seq<Held>) -> (ds: Seq<
    ClusterID,
>)
    requires
        dir_ok(s, i, cs, es),
        crate::exfat::fs::dir::first_cluster_taken(s, i).1 is Ok,
    ensures
        ({
            let t = crate::exfat::fs::dir::first_cluster_taken(s, i).0;
            &&& dir_ok(t, i, cs + ds, es)
            &&& only_dir(s, t, i)
            &&& only_grown(s, t, cs, ds)
            &&& t.nodes[i].num_subdir == s.nodes[i].num_subdir
        }),
{
    crate::exfat::laws::dir::lemma_dir_ok(s, i, cs, es);
    let d = s.nodes[i];
    if crate::exfat::volume::valid_cluster(s.vol.super_block, d.start_chain.current as int) {
        assert(cs + Seq::<ClusterID>::empty() =~= cs);
        Seq::empty()
    } else {
        assert(cs.len() == 0) by {
            if cs.len() > 0 {
                assert(taken(s.vol, cs[0]));
            }
        }
        assert(es.len() == 0) by {
            if es.len() > 0 {
                crate::exfat::laws::dir::lemma_dir_entry(s, i, cs, es, 0);
            }
        }
        lemma_directory_grown(s, i, cs, es, 1)
    }
}

/// Where room for entries is found, it is apart from what the directory holds.
proof fn lemma_slots_found(
    s: FsState,
    i: int,
    cs: Seq<ClusterID>,
    es: Seq<Held>,
    want: int,
) -> (ds: Seq<ClusterID>)
    requires
        dir_ok(s, i, cs, es),
        0 < want <= 19,
        crate::exfat::fs::dir::slots_found(s, i, want).1 is Ok,
    ensures
        ({
            let (t, r) = crate::exfat::fs::dir::slots_found(s, i, want);
            let slot = r->Ok_0 as int;
            &&& dir_ok(t, i, cs + ds, es)
            &&& only_dir(s, t, i)
            &&& only_grown(s, t, cs, ds)
            &&& t.nodes[i].num_subdir == s.nodes[i].num_subdir
            &&& apart(es, slot, want)
            &&& (slot + want) * DENTRY_SIZE <= t.nodes[i].size
        }),
{
    crate::exfat::laws::dir::lemma_dir_ok(s, i, cs, es);
    let n = s.nodes[i];
    let z = s.vol.super_block.cluster_size as int;
    lemma_cluster_size(s.vol.super_block);
    law_free_slots(n.pages, n.size as int, want, 0, 0);
    let h = z / 32;
    assert(cs.len() * z == 32 * (cs.len() * h)) by (nonlinear_arith)
        requires
            z == 32 * h,
    ;
    assert(n.size % 32 == 0);
    match crate::exfat::fs::dir::free_slots(n.pages, n.size as int, want, 0, 0) {
        Ok(Some(slot)) => {
            assert(laid_out(n.pages, es)) by {
                reveal(dir_ok);
            }
            crate::exfat::laws::layout::lemma_free_is_apart(n.pages, es, slot, want);
            assert(cs + Seq::<ClusterID>::empty() =~= cs);
            Seq::empty()
        },
        _ => {
            let count = crate::arith::pieces(want * DENTRY_SIZE, z);
            crate::arith::lemma_rounded_up(want * DENTRY_SIZE, z);
            assert(z * count == count * z) by (nonlinear_arith);
            crate::arith::lemma_rounded_up(n.size as int, DENTRY_SIZE as int);
            let ds = lemma_directory_grown(s, i, cs, es, count as u32);
            let slot = crate::arith::pieces(n.size as int, DENTRY_SIZE as int);
            assert forall|k: int| 0 <= k < es.len() implies (#[trigger] es[k]).slot + es[k].width
                <= slot || slot + want <= es[k].slot by {
                crate::exfat::laws::dir::lemma_dir_entry(s, i, cs, es, k);
            }
            ds
        },
    }
}

/// Whether a name holds the character with the number zero, which ends names.
pub open spec fn has_nul(name: Seq<char>) -> bool {
    exists|k: int| 0 <= k < name.len() && #[trigger] name[k] as u32 == 0
}

/// The units of a name without the character with the number zero are not zero.
pub proof fn lemma_units_not_zero(name: Seq<char>)
    requires
        !has_nul(name),
    ensures
        forall|k: int|
            0 <= k < crate::text::utf16(name).len() ==> #[trigger] crate::text::utf16(name)[k] != 0,
    decreases name.len(),
{
    if name.len() > 0 {
        let rest = name.drop_first();
        assert(!has_nul(rest)) by {
            if has_nul(rest) {
                let k = choose|k: int| 0 <= k < rest.len() && #[trigger] rest[k] as u32 == 0;
                assert(name[k + 1] as u32 == 0);
            }
        }
        lemma_units_not_zero(rest);
        let c = name[0];
        vstd::utf8::char_is_scalar(c);
        vstd::utf8::char_u32_cast(c, c as u32);
        let all = crate::text::utf16(name);
        let head = crate::text::utf16_units(c);
        assert(name[0] as u32 != 0);
        assert forall|k: int| 0 <= k < all.len() implies #[trigger] all[k] != 0 by {
            if k >= head.len() {
                assert(all[k] == crate::text::utf16(rest)[k - head.len()]);
            } else {
                assert(all[k] == head[k]);
            }
        }
    }
}

/// What the inode of a new file or directory is.
proof fn lemma_new_inode(
    v: crate::exfat::volume::VolumeState,
    units: Seq<u16>,
    inode_type: InodeType,
    now: DosTimestamp,
    position: crate::exfat::chain::ExfatChainPosition,
    entry: u32,
    parent_hash: u64,
    ino: usize,
)
    requires
        units.len() <= 255,
        v.super_block.wf(),
    ensures
        ({
            let set = crate::exfat::dentry_set::new_set(units, inode_type is Dir, now);
            let (w, r) = crate::exfat::inode::inode_built(
                v,
                set,
                position,
                entry,
                parent_hash,
                ino,
            );
            let n = r->Ok_0;
            &&& w == v
            &&& r is Ok <==> 0 < units.len()
            &&& r is Ok ==> {
                &&& n.ino == ino
                &&& n.dentry_set_position == position
                &&& n.dentry_set_size == set.len()
                &&& n.dentry_entry == entry
                &&& n.inode_type == inode_type
                &&& n.parent_hash == parent_hash
                &&& n.name == crate::exfat::dentry_set::set_name(set)
                &&& n.size == 0
                &&& n.size_allocated == 0
                &&& n.num_subdir == 0
                &&& n.start_chain.num_clusters == 0
                &&& n.start_chain.current == 0
                &&& n.pages == Seq::<u8>::empty()
            }
        }),
{
    let set = crate::exfat::dentry_set::new_set(units, inode_type is Dir, now);
    crate::exfat::laws::entry::law_new_set(units, inode_type is Dir, now);
    assert((0x10u16 & 0x3Fu16) & 0x10u16 == 0x10u16) by (bit_vector);
    assert((0u16 & 0x3Fu16) & 0x10u16 != 0x10u16) by (bit_vector);
    let n = crate::exfat::inode::inode_from_set(v, set, position, entry, parent_hash, ino);
    assert(n.inode_type == inode_type);
    crate::exfat::volume::lemma_cluster_size_positive(v.super_block);
    crate::arith::lemma_rounded_up(0, PAGE_SIZE as int);
    assert(crate::arith::pieces(0, PAGE_SIZE as int) == 0);
    crate::arith::lemma_rounded_up(units.len() as int, 15);
}

/// The child that a directory has got.
pub open spec fn new_child(
    t: FsState,
    i: int,
    cs: Seq<ClusterID>,
    e: Held,
    name: Seq<char>,
    inode_type: InodeType,
) -> bool {
    let n = t.nodes[e.inode];
    &&& 0 <= e.inode < t.nodes.len()
    &&& e.inode != i
    &&& n.ino != crate::exfat::constants::EXFAT_ROOT_INO
    &&& n.dentry_set_size == e.width * DENTRY_SIZE
    &&& (e.slot + e.width) * DENTRY_SIZE <= t.nodes[i].size
    &&& crate::exfat::inode::hash_of_position(n.dentry_set_position) == slot_hash(
        t.vol.super_block,
        cs,
        e.slot,
    )
    &&& n.dentry_entry == e.slot
    &&& n.parent_hash == crate::exfat::inode::inode_hash(t.nodes[i])
    &&& n.name == crate::text::utf16(name)
    &&& n.inode_type == inode_type
    &&& n.size == 0
    &&& n.size_allocated == 0
    &&& n.start_chain.num_clusters == 0
    &&& n.loaded
    &&& n.pages.len() == 0
    &&& n.num_subdir == 0
    &&& n.start_chain.num_clusters == 0
    &&& n.start_chain.current == 0
    &&& n.pages == Seq::<u8>::empty()
}

/// Whether the state `t` is the state `s` in which the directory `i`, which now has the
/// clusters `cs`, got the entries of a new inode at the place `p` among the inodes `es`.
pub open spec fn entry_put(
    s: FsState,
    t: FsState,
    i: int,
    cs: Seq<ClusterID>,
    es: Seq<Held>,
    p: int,
    e: Held,
) -> bool {
    &&& 0 <= p <= es.len()
    &&& e.inode == s.nodes.len()
    &&& t.nodes.len() == s.nodes.len() + 1
    &&& t.opened == s.opened
    &&& t.vol.super_block == s.vol.super_block
    &&& forall|j: int| 0 <= j < s.nodes.len() && j != i ==> #[trigger] t.nodes[j] == s.nodes[j]
    &&& t.nodes[i] == (InodeView {
        start_chain: t.nodes[i].start_chain,
        size: t.nodes[i].size,
        size_allocated: t.nodes[i].size_allocated,
        pages: t.nodes[i].pages,
        num_subdir: t.nodes[i].num_subdir,
        ..s.nodes[i]
    })
    &&& t.nodes[i].num_subdir == es.len() + 1
    &&& is_dir(t, i, cs)
    &&& laid_out(t.nodes[i].pages, es.insert(p, e))
    &&& forall|k: int| 0 <= k < es.len() ==> held(t, i, cs, #[trigger] es[k])
}

/// The bytes of a directory into which a set was written.
proof fn lemma_with_set(n: InodeView, slot: int, want: int, set: Seq<u8>)
    requires
        0 <= slot,
        0 <= want,
        set.len() <= want * DENTRY_SIZE,
        n.pages.len() % (DENTRY_SIZE as nat) == 0,
    ensures
        ({
            let after = crate::exfat::fs::dir::with_set(n, slot, want, set).pages;
            &&& n.pages.len() <= after.len()
            &&& (slot + want) * DENTRY_SIZE <= after.len()
            &&& after.len() % (DENTRY_SIZE as nat) == 0
            &&& forall|k: int|
                0 <= k < after.len() ==> #[trigger] after[k] == (if slot * DENTRY_SIZE <= k < slot
                    * DENTRY_SIZE + set.len() {
                    set[k - slot * DENTRY_SIZE]
                } else if k < n.pages.len() {
                    n.pages[k]
                } else {
                    0u8
                })
        }),
{
    let end = (slot + want) * DENTRY_SIZE;
    crate::arith::lemma_rounded_up(end, PAGE_SIZE as int);
}

/// A set that was written stands where it was written.
proof fn lemma_set_stands(after: Seq<u8>, slot: int, w: int, set: Seq<u8>)
    requires
        0 <= slot,
        2 <= w,
        (slot + w) * DENTRY_SIZE <= after.len(),
        set.len() == w * DENTRY_SIZE,
        crate::exfat::dentry::slot_kind(set, 0) is File,
        crate::exfat::dentry::slot_kind(set, 1) is Stream,
        forall|t: int| 2 <= t < w ==> #[trigger] crate::exfat::dentry::slot_kind(set, t) is Name,
        set[1] == w - 1,
        forall|k: int|
            slot * DENTRY_SIZE <= k < (slot + w) * DENTRY_SIZE ==> #[trigger] after[k] == set[k
                - slot * DENTRY_SIZE],
    ensures
        crate::exfat::laws::layout::set_in(after, slot, w),
{
    let at = slot * 32;
    assert(after[at] == set[0]);
    assert(after[at + 1] == set[1]);
    assert(after[(slot + 1) * 32] == set[32]);
    assert forall|t: int| slot + 2 <= t < slot + w implies #[trigger]
    crate::exfat::dentry::slot_kind(after, t) is Name by {
        assert(after[t * 32] == set[(t - slot) * 32]);
        assert(crate::exfat::dentry::slot_kind(set, t - slot) is Name);
    }
}

/// Where entries stand apart, there is a gap for them.
proof fn lemma_gap_in_pages(pages: Seq<u8>, es: Seq<Held>, slot: int, w: int, want: int) -> (p:
    int)
    requires
        laid_out(pages, es),
        0 < w <= want,
        apart(es, slot, want),
    ensures
        0 <= p <= es.len(),
        forall|k: int| 0 <= k < p ==> (#[trigger] es[k]).slot + es[k].width <= slot,
        forall|k: int| p <= k < es.len() ==> slot + w <= (#[trigger] es[k]).slot,
        pages.len() % (DENTRY_SIZE as nat) == 0,
{
    assert(apart(es, slot, w));
    reveal(laid_out);
    assert forall|k: int| 0 <= k < es.len() implies 0 < (#[trigger] es[k]).width by {
        assert(crate::exfat::laws::layout::set_in(pages, es[k].slot, es[k].width));
    }
    crate::exfat::laws::layout::lemma_gap(es, slot, w)
}

/// The pages of a directory into which a new set was written.
proof fn lemma_set_written(
    n: InodeView,
    es: Seq<Held>,
    e: Held,
    want: int,
    set: Seq<u8>,
) -> (p: int)
    requires
        laid_out(n.pages, es),
        0 <= e.slot,
        2 <= e.width <= want,
        apart(es, e.slot, want),
        set.len() == e.width * DENTRY_SIZE,
        crate::exfat::dentry::slot_kind(set, 0) is File,
        crate::exfat::dentry::slot_kind(set, 1) is Stream,
        forall|t: int|
            2 <= t < e.width ==> #[trigger] crate::exfat::dentry::slot_kind(set, t) is Name,
        set[1] == e.width - 1,
    ensures
        0 <= p <= es.len(),
        laid_out(
            crate::exfat::fs::dir::with_set(n, e.slot, want, set).pages,
            es.insert(p, e),
        ),
{
    let p = lemma_gap_in_pages(n.pages, es, e.slot, e.width, want);
    lemma_with_set(n, e.slot, want, set);
    let after = crate::exfat::fs::dir::with_set(n, e.slot, want, set).pages;
    lemma_set_stands(after, e.slot, e.width, set);
    crate::exfat::laws::layout::lemma_set_added(n.pages, after, es, e, p);
    p
}

/// Adding entries at a place that is apart from what the directory holds.
#[verifier::rlimit(30)]
proof fn lemma_entry_added_at(
    s: FsState,
    i: int,
    cs: Seq<ClusterID>,
    es: Seq<Held>,
    name: Seq<char>,
    inode_type: InodeType,
    now: DosTimestamp,
    slot: usize,
) -> (r: (int, Held))
    requires
        dir_ok(s, i, cs, es),
        s.nodes.len() < usize::MAX,
        es.len() < u32::MAX,
        s.next_ino != crate::exfat::constants::EXFAT_ROOT_INO,
        !crate::exfat::fs::namei::too_long(name),
        !has_nul(name),
        apart(es, slot as int, crate::exfat::fs::dir::slots_wanted(name)),
        (slot + crate::exfat::fs::dir::slots_wanted(name)) * DENTRY_SIZE <= s.nodes[i].size,
    ensures
        ({
            let (t, c) = crate::exfat::fs::dir::entry_added_at(s, i, name, inode_type, now, slot);
            &&& c is Ok <==> 0 < name.len()
            &&& c is Ok ==> {
                &&& c->Ok_0 == s.nodes.len()
                &&& entry_put(s, t, i, cs, es, r.0, r.1)
                &&& new_child(t, i, cs, r.1, name, inode_type)
                &&& crate::exfat::laws::dir::only_cache(s.vol, t.vol)
            }
        }),
{
    crate::exfat::laws::dir::lemma_dir_ok(s, i, cs, es);
    let d = s.nodes[i];
    let units = crate::text::utf16(name);
    let want = crate::exfat::fs::dir::slots_wanted(name);
    let set = crate::exfat::dentry_set::new_set(units, inode_type is Dir, now);
    crate::text::lemma_utf16_len(name);
    crate::exfat::laws::entry::law_new_set(units, inode_type is Dir, now);
    lemma_units_not_zero(name);
    crate::exfat::laws::entry::law_name_of_new_set(units, inode_type is Dir, now);
    assert(0 < name.len() <==> 0 < units.len());
    let w = crate::exfat::dentry_set::set_slots(units);
    let e = Held { slot: slot as int, width: w, inode: s.nodes.len() as int };
    assert(laid_out(d.pages, es)) by {
        reveal(dir_ok);
    }
    let p = lemma_set_written(d, es, e, want, set);
    crate::exfat::laws::dir::lemma_slot_walk(s.vol, d.start_chain, cs, slot as int);
    let (v, walked) = crate::exfat::chain::chain_walk_to_offset(
        s.vol,
        d.start_chain,
        (slot * DENTRY_SIZE) as usize,
    );
    let n = crate::exfat::fs::dir::with_set(d, slot as int, want, set);
    let hash = crate::exfat::inode::inode_hash(n);
    lemma_new_inode(v, units, inode_type, now, walked->Ok_0, slot as u32, hash, s.next_ino);
    let (t, c) = crate::exfat::fs::dir::entry_added_at(s, i, name, inode_type, now, slot);
    if c is Ok {
        crate::exfat::laws::dir::lemma_dir_cache(s, v, i, cs, es);
        let s1 = s.with_vol(v);
        crate::exfat::laws::dir::lemma_dir_ok(s1, i, cs, es);
        assert(t.nodes[i] == n);
        crate::arith::lemma_rounded_up((slot + want) * DENTRY_SIZE, PAGE_SIZE as int);
        assert(n.pages.len() <= usize::MAX);
        assert(t.opened_exist());
        assert(is_dir(t, i, cs));
        assert forall|k: int| 0 <= k < es.len() implies held(t, i, cs, #[trigger] es[k]) by {
            crate::exfat::laws::dir::lemma_dir_entry(s1, i, cs, es, k);
        }
    }
    (p, e)
}

/// Growing twice is growing.
proof fn lemma_grown_twice(
    s: FsState,
    s1: FsState,
    s2: FsState,
    chain: crate::exfat::chain::ExfatChain,
    cs: Seq<ClusterID>,
    ds: Seq<ClusterID>,
    fs: Seq<ClusterID>,
)
    requires
        only_grown(s, s1, cs, ds),
        only_grown(s1, s2, cs + ds, fs),
        is_chain(s1.vol, chain, cs + ds),
    ensures
        only_grown(s, s2, cs, ds + fs),
        (cs + ds) + fs == cs + (ds + fs),
{
    let all = ds + fs;
    assert((cs + ds) + fs =~= cs + all);
    let mid = cs + ds;
    assert forall|k: int| 0 <= k < all.len() implies !taken(s.vol, #[trigger] all[k]) by {
        if k < ds.len() {
            assert(!taken(s.vol, ds[k]));
        } else {
            let c = fs[k - ds.len()];
            assert(!taken(s1.vol, fs[k - ds.len()]));
            if taken(s.vol, c) {
                if mid.contains(c) {
                    let j = choose|j: int| 0 <= j < mid.len() && mid[j] == c;
                    assert(taken(s1.vol, mid[j]));
                } else {
                    assert(!cs.contains(c)) by {
                        if cs.contains(c) {
                            let j = choose|j: int| 0 <= j < cs.len() && cs[j] == c;
                            assert(mid[j] == c);
                        }
                    }
                    assert(!ds.contains(c)) by {
                        if ds.contains(c) {
                            let j = choose|j: int| 0 <= j < ds.len() && ds[j] == c;
                            assert(mid[cs.len() + j] == c);
                        }
                    }
                    assert(!either(cs, ds).contains(c));
                    assert(crate::exfat::laws::chain::fat_of(s1.vol, c)
                        == crate::exfat::laws::chain::fat_of(s.vol, c));
                }
            }
        }
    }
    assert(either(cs, ds).subset_of(either(cs, all))) by {
        assert forall|c: ClusterID| either(cs, ds).contains(c) implies #[trigger] either(
            cs,
            all,
        ).contains(c) by {
            if ds.contains(c) {
                let j = choose|j: int| 0 <= j < ds.len() && ds[j] == c;
                assert(all[j] == c);
            }
        }
    }
    assert(either(mid, fs).subset_of(either(cs, all))) by {
        assert forall|c: ClusterID| either(mid, fs).contains(c) implies #[trigger] either(
            cs,
            all,
        ).contains(c) by {
            if fs.contains(c) {
                let j = choose|j: int| 0 <= j < fs.len() && fs[j] == c;
                assert(all[ds.len() + j] == c);
            } else {
                let j = choose|j: int| 0 <= j < mid.len() && mid[j] == c;
                if j < cs.len() {
                    assert(cs[j] == c);
                } else {
                    assert(all[j - cs.len()] == c);
                }
            }
        }
    }
    crate::exfat::laws::chain::lemma_elsewhere_same_chain(
        s.vol,
        s1.vol,
        s2.vol,
        either(cs, ds),
        either(mid, fs),
        either(cs, all),
    );
}

/// What adding an entry to a directory makes of the file system.
pub proof fn lemma_entry_added(
    s: FsState,
    i: int,
    cs: Seq<ClusterID>,
    es: Seq<Held>,
    name: Seq<char>,
    inode_type: InodeType,
    now: DosTimestamp,
) -> (r: (Seq<ClusterID>, int, Held))
    requires
        dir_ok(s, i, cs, es),
        s.nodes.len() < usize::MAX,
        es.len() < u32::MAX,
        s.next_ino != crate::exfat::constants::EXFAT_ROOT_INO,
        !crate::exfat::fs::namei::too_long(name),
        !has_nul(name),
        crate::exfat::fs::dir::entry_added(s, i, name, inode_type, now).1 is Ok,
    ensures
        ({
            let (t, c) = crate::exfat::fs::dir::entry_added(s, i, name, inode_type, now);
            &&& c == Ok::<usize, Errno>(s.nodes.len() as usize)
            &&& entry_put(s, t, i, cs + r.0, es, r.1, r.2)
            &&& new_child(t, i, cs + r.0, r.2, name, inode_type)
            &&& only_grown(s, t, cs, r.0)
        }),
{
    reveal(crate::exfat::fs::dir::entry_added);
    let want = crate::exfat::fs::dir::slots_wanted(name);
    assert(2 <= want <= 19);
    let ds = lemma_first_cluster(s, i, cs, es);
    let s1 = crate::exfat::fs::dir::first_cluster_taken(s, i).0;
    let fs = lemma_slots_found(s1, i, cs + ds, es, want);
    let (s2, found) = crate::exfat::fs::dir::slots_found(s1, i, want);
    crate::exfat::laws::dir::lemma_dir_ok(s1, i, cs + ds, es);
    lemma_grown_twice(s, s1, s2, s1.nodes[i].start_chain, cs, ds, fs);
    let all = ds + fs;
    let slot = found->Ok_0;
    let (p, e) = lemma_entry_added_at(s2, i, cs + all, es, name, inode_type, now, slot);
    let (t, c) = crate::exfat::fs::dir::entry_added(s, i, name, inode_type, now);
    assert(elsewhere_same(s2.vol, t.vol, Set::empty()));
    crate::exfat::laws::chain::lemma_elsewhere_same_chain(
        s.vol,
        s2.vol,
        t.vol,
        either(cs, all),
        Set::empty(),
        either(cs, all),
    );
    (all, p, e)
}

/// Opening the inode whose entries a directory has got.
pub proof fn lemma_opened(
    t: FsState,
    i: int,
    cs: Seq<ClusterID>,
    es: Seq<Held>,
    p: int,
    e: Held,
)
    requires
        is_dir(t, i, cs),
        0 <= p <= es.len(),
        t.nodes[i].num_subdir == es.len() + 1,
        laid_out(t.nodes[i].pages, es.insert(p, e)),
        forall|k: int| 0 <= k < es.len() ==> held(t, i, cs, #[trigger] es[k]),
        0 <= e.inode < t.nodes.len(),
        e.inode != i,
        t.nodes[e.inode].ino != crate::exfat::constants::EXFAT_ROOT_INO,
        t.nodes[e.inode].dentry_set_size == e.width * DENTRY_SIZE,
        (e.slot + e.width) * DENTRY_SIZE <= t.nodes[i].size,
        crate::exfat::inode::hash_of_position(t.nodes[e.inode].dentry_set_position) == slot_hash(
            t.vol.super_block,
            cs,
            e.slot,
        ),
        t.nodes[e.inode].dentry_entry == e.slot,
        t.nodes[e.inode].parent_hash == crate::exfat::inode::inode_hash(t.nodes[i]),
    ensures
        dir_ok(t.with_opened(e.inode), i, cs, es.insert(p, e)),
{
    let u = t.with_opened(e.inode);
    let fs = es.insert(p, e);
    let sb = t.vol.super_block;
    let hash = slot_hash(sb, cs, e.slot);
    reveal(dir_ok);
    reveal(laid_out);
    assert(fs[p] == e);
    assert(crate::exfat::laws::layout::set_in(t.nodes[i].pages, fs[p].slot, fs[p].width));
    crate::exfat::laws::dir::lemma_own_hash(t, i, cs, e.slot);
    assert(crate::exfat::inode::inode_hash(t.nodes[e.inode]) == hash);
    assert(u.opened_exist());
    assert(is_dir(u, i, cs));
    assert forall|k: int| 0 <= k < fs.len() implies held(u, i, cs, #[trigger] fs[k]) by {
        if k != p {
            let j = if k < p {
                k
            } else {
                k - 1
            };
            assert(fs[k] == es[j]);
            assert(held(t, i, cs, es[j]));
            assert(crate::exfat::laws::layout::set_in(t.nodes[i].pages, fs[k].slot, fs[k].width));
            if slot_hash(sb, cs, es[j].slot) == hash {
                crate::exfat::laws::dir::lemma_slot_hash(t.vol, cs, es[j].slot, e.slot);
                if k < p {
                    assert(fs[k].slot + fs[k].width <= fs[p].slot);
                } else {
                    assert(fs[p].slot + fs[p].width <= fs[k].slot);
                }
            }
        }
    }
}

/// Names still differ where one was added that was not there.
pub proof fn lemma_names_added(s: FsState, t: FsState, es: Seq<Held>, p: int, e: Held)
    requires
        crate::exfat::laws::dir::names_differ(s, es),
        0 <= p <= es.len(),
        forall|k: int|
            0 <= k < es.len() ==> crate::exfat::laws::dir::name_of(t.nodes[(#[trigger] es[k]).inode])
                == crate::exfat::laws::dir::name_of(s.nodes[es[k].inode])
                && crate::exfat::laws::dir::name_of(t.nodes[es[k].inode])
                != crate::exfat::laws::dir::name_of(t.nodes[e.inode]),
    ensures
        crate::exfat::laws::dir::names_differ(t, es.insert(p, e)),
{
    let fs = es.insert(p, e);
    assert forall|a: int, b: int| 0 <= a < b < fs.len() implies crate::exfat::laws::dir::name_of(
        t.nodes[(#[trigger] fs[a]).inode],
    ) != crate::exfat::laws::dir::name_of(t.nodes[(#[trigger] fs[b]).inode]) by {
        let x = if a < p {
            a
        } else {
            a - 1
        };
        let y = if b < p {
            b
        } else {
            b - 1
        };
        if a == p {
            assert(fs[b] == es[y]);
        } else if b == p {
            assert(fs[a] == es[x]);
        } else {
            assert(fs[a] == es[x] && fs[b] == es[y]);
        }
    }
}

/// A directory in which a file or directory was made holds what it held, and the new one.
pub proof fn law_created(
    o: FsState,
    s: FsState,
    i: int,
    cs: Seq<ClusterID>,
    es: Seq<Held>,
    name: Seq<char>,
    inode_type: InodeType,
    now: DosTimestamp,
) -> (r: (Seq<ClusterID>, int, Held))
    requires
        dir_opens(o, s, i, cs, es),
        crate::exfat::laws::dir::names_differ(s, es),
        s.nodes.len() < usize::MAX,
        es.len() < u32::MAX,
        s.next_ino != crate::exfat::constants::EXFAT_ROOT_INO,
        !has_nul(name),
        crate::exfat::fs::namei::created(o, i, name, inode_type, now).1 is Ok,
    ensures
        ({
            let (t, c) = crate::exfat::fs::namei::created(o, i, name, inode_type, now);
            let (ds, p, e) = r;
            &&& c == Ok::<usize, Errno>(s.nodes.len() as usize)
            &&& e.inode == s.nodes.len()
            &&& 0 <= p <= es.len()
            &&& dir_ok(t, i, cs + ds, es.insert(p, e))
            &&& crate::exfat::laws::dir::names_differ(t, es.insert(p, e))
            &&& crate::exfat::laws::dir::name_of(t.nodes[e.inode]) == name
            &&& t.nodes[e.inode].inode_type == inode_type
            &&& t.nodes[e.inode].size == 0
            &&& t.nodes[e.inode].start_chain.num_clusters == 0
            &&& t.nodes[e.inode].loaded
            &&& t.nodes[e.inode].pages.len() == 0
            &&& t.nodes[e.inode].num_subdir == 0
            &&& t.nodes.len() == s.nodes.len() + 1
            &&& crate::exfat::laws::dir::same_place(t.nodes[i], s.nodes[i])
            &&& t.opened == s.opened.insert(
                slot_hash(s.vol.super_block, cs + ds, e.slot),
                e.inode as usize,
            )
            &&& forall|j: int|
                0 <= j < s.nodes.len() && j != i ==> #[trigger] t.nodes[j] == s.nodes[j]
            &&& only_grown(s, t, cs, ds)
        }),
{
    crate::exfat::laws::dir::lemma_dir_opens(o, s, i, cs, es);
    crate::exfat::laws::dir::law_name_found(o, s, i, cs, es, name);
    let (s1, r1) = crate::exfat::fs::dir::name_found(o, i, name);
    let (ds, p, e) = lemma_entry_added(s1, i, cs, es, name, inode_type, now);
    let (s2, c) = crate::exfat::fs::dir::entry_added(s1, i, name, inode_type, now);
    lemma_opened(s2, i, cs + ds, es, p, e);
    let t = crate::exfat::fs::namei::created(o, i, name, inode_type, now).0;
    assert(t == s2.with_opened(e.inode));
    crate::text::lemma_utf16_roundtrip(name);
    assert forall|k: int| 0 <= k < es.len() implies crate::exfat::laws::dir::name_of(
        t.nodes[(#[trigger] es[k]).inode],
    ) == crate::exfat::laws::dir::name_of(s.nodes[es[k].inode])
        && crate::exfat::laws::dir::name_of(t.nodes[es[k].inode])
        != crate::exfat::laws::dir::name_of(t.nodes[e.inode]) by {
        crate::exfat::laws::dir::lemma_dir_entry(s, i, cs, es, k);
        assert(t.nodes[es[k].inode] == s.nodes[es[k].inode]);
    }
    lemma_names_added(s, t, es, p, e);
    assert(elsewhere_same(s.vol, s1.vol, Set::empty()));
    crate::exfat::laws::chain::lemma_elsewhere_same_chain(
        s.vol,
        s1.vol,
        t.vol,
        Set::empty(),
        either(cs, ds),
        either(cs, ds),
    );
    assert forall|k: int| 0 <= k < ds.len() implies !taken(s.vol, #[trigger] ds[k]) by {
        assert(!taken(s1.vol, ds[k]));
    }
    (ds, p, e)
}

/// What was made in a directory is found there under its name, and every other name
/// gives what it gave before.
pub proof fn law_created_is_found(
    o: FsState,
    s: FsState,
    i: int,
    cs: Seq<ClusterID>,
    es: Seq<Held>,
    name: Seq<char>,
    inode_type: InodeType,
    now: DosTimestamp,
)
    requires
        dir_opens(o, s, i, cs, es),
        crate::exfat::laws::dir::names_differ(s, es),
        s.nodes.len() < usize::MAX,
        es.len() < u32::MAX,
        s.next_ino != crate::exfat::constants::EXFAT_ROOT_INO,
        !has_nul(name),
        crate::exfat::fs::namei::created(o, i, name, inode_type, now).1 is Ok,
    ensures
        ({
            let (t, c) = crate::exfat::fs::namei::created(o, i, name, inode_type, now);
            &&& crate::exfat::fs::namei::looked_up(t, i, name).1 == c
            &&& forall|other: Seq<char>|
                other != name && !crate::exfat::fs::namei::too_long(other) ==> (#[trigger]
                crate::exfat::fs::namei::looked_up(t, i, other)).1
                    == crate::exfat::fs::namei::looked_up(o, i, other).1
        }),
{
    crate::exfat::laws::dir::lemma_dir_opens(o, s, i, cs, es);
    let (ds, p, e) = law_created(o, s, i, cs, es, name, inode_type, now);
    let (t, c) = crate::exfat::fs::namei::created(o, i, name, inode_type, now);
    let fs = es.insert(p, e);
    assert forall|k: int| 0 <= k < es.len() implies crate::exfat::laws::dir::name_of(
        t.nodes[(#[trigger] es[k]).inode],
    ) == crate::exfat::laws::dir::name_of(s.nodes[es[k].inode]) by {
        crate::exfat::laws::dir::lemma_dir_entry(s, i, cs, es, k);
        assert(t.nodes[es[k].inode] == s.nodes[es[k].inode]);
    }
    crate::exfat::laws::dir::lemma_looked_up(t, i, cs + ds, fs, name);
    crate::exfat::laws::dir::lemma_found_insert(s, t, es, p, e, name);
    assert forall|other: Seq<char>|
        other != name && !crate::exfat::fs::namei::too_long(other) implies (#[trigger]
    crate::exfat::fs::namei::looked_up(t, i, other)).1 == crate::exfat::fs::namei::looked_up(
        o,
        i,
        other,
    ).1 by {
        crate::exfat::laws::dir::lemma_looked_up(t, i, cs + ds, fs, other);
        crate::exfat::laws::dir::law_looked_up(o, s, i, cs, es, other);
        crate::exfat::laws::dir::lemma_found_insert(s, t, es, p, e, other);
    }
}

/// A search through a directory of which all pages are there ends without an error.
proof fn lemma_search_ends(pages: Seq<u8>, size: int, want: int, slot: int, run: int)
    requires
        0 <= slot,
        size <= pages.len(),
        size % (DENTRY_SIZE as int) == 0,
    ensures
        crate::exfat::fs::dir::free_slots(pages, size, want, slot, run) is Ok,
    decreases pages.len() - slot * DENTRY_SIZE,
{
    if slot * DENTRY_SIZE < size {
        assert(crate::exfat::dentry::has_slot(pages, slot));
        let run1 = if crate::exfat::dentry::slot_is_free(pages, slot) {
            run + 1
        } else {
            0
        };
        if run1 < want {
            lemma_search_ends(pages, size, want, slot + 1, run1);
        }
    }
}

/// A directory grows where there are enough free clusters.
proof fn lemma_directory_grows(
    s: FsState,
    i: int,
    cs: Seq<ClusterID>,
    es: Seq<Held>,
    clusters: u32,
)
    requires
        dir_ok(s, i, cs, es),
        clusters <= crate::exfat::bitmap::count_free(s.vol.bits),
        s.nodes[i].size + s.vol.super_block.cluster_size * clusters <= DENTRY_SIZE * u32::MAX,
        s.nodes[i].size + s.vol.super_block.cluster_size * clusters + PAGE_SIZE <= usize::MAX,
    ensures
        crate::exfat::fs::dir::directory_grown(s, i, clusters).1 is Ok,
        crate::exfat::bitmap::count_free(
            crate::exfat::fs::dir::directory_grown(s, i, clusters).0.vol.bits,
        ) + clusters == crate::exfat::bitmap::count_free(s.vol.bits),
{
    crate::exfat::laws::dir::lemma_dir_ok(s, i, cs, es);
    let z = s.vol.super_block.cluster_size as int;
    lemma_cluster_size(s.vol.super_block);
    let n = cs.len() + clusters;
    assert(n <= u32::MAX) by (nonlinear_arith)
        requires
            cs.len() * z + z * clusters <= 32 * u32::MAX,
            n == cs.len() + clusters,
            512 <= z,
    ;
    crate::exfat::laws::chain::law_chain_extended(
        s.vol,
        s.nodes[i].start_chain,
        cs,
        clusters,
        true,
    );
}

/// Whether there is room for one more name in the directory `i`, even if it has to grow:
/// there are enough free clusters, and the directory stays small enough.
pub open spec fn has_room(s: FsState, i: int, name: Seq<char>) -> bool {
    let z = s.vol.super_block.cluster_size as int;
    let n = s.nodes[i];
    let more = 1 + crate::arith::pieces(
        crate::exfat::fs::dir::slots_wanted(name) * DENTRY_SIZE,
        z,
    );
    &&& more <= crate::exfat::bitmap::count_free(s.vol.bits)
    &&& n.size + z * more < crate::exfat::constants::MAX_EXFAT_DENTRIES * DENTRY_SIZE
    &&& n.size + z * more + PAGE_SIZE <= usize::MAX
    &&& n.size <= n.pages.len()
}

/// A directory gets its first cluster where there is a free one.
proof fn lemma_first_cluster_succeeds(s: FsState, i: int, cs: Seq<ClusterID>, es: Seq<Held>)
    requires
        dir_ok(s, i, cs, es),
        1 <= crate::exfat::bitmap::count_free(s.vol.bits),
        s.nodes[i].size + s.vol.super_block.cluster_size <= DENTRY_SIZE * u32::MAX,
        s.nodes[i].size + s.vol.super_block.cluster_size + PAGE_SIZE <= usize::MAX,
        s.nodes[i].size <= s.nodes[i].pages.len(),
    ensures
        ({
            let (t, r) = crate::exfat::fs::dir::first_cluster_taken(s, i);
            &&& r is Ok
            &&& t.vol.super_block == s.vol.super_block
            &&& crate::exfat::bitmap::count_free(t.vol.bits) + 1
                >= crate::exfat::bitmap::count_free(s.vol.bits)
            &&& t.nodes[i].size <= s.nodes[i].size + s.vol.super_block.cluster_size
            &&& t.nodes[i].size <= t.nodes[i].pages.len()
        }),
{
    crate::exfat::laws::dir::lemma_dir_ok(s, i, cs, es);
    let n = s.nodes[i];
    if !crate::exfat::volume::valid_cluster(s.vol.super_block, n.start_chain.current as int) {
        lemma_directory_grows(s, i, cs, es, 1);
        lemma_directory_grown(s, i, cs, es, 1);
        let s1 = crate::exfat::fs::dir::directory_grown(s, i, 1).0;
        crate::arith::lemma_rounded_up(s1.nodes[i].size as int, PAGE_SIZE as int);
    }
}

/// Room for entries is found where there are enough free clusters.
proof fn lemma_slots_found_succeeds(
    s: FsState,
    i: int,
    cs: Seq<ClusterID>,
    es: Seq<Held>,
    want: int,
)
    requires
        dir_ok(s, i, cs, es),
        2 <= want <= 19,
        crate::arith::pieces(want * DENTRY_SIZE, s.vol.super_block.cluster_size as int)
            <= crate::exfat::bitmap::count_free(s.vol.bits),
        s.nodes[i].size + s.vol.super_block.cluster_size * crate::arith::pieces(
            want * DENTRY_SIZE,
            s.vol.super_block.cluster_size as int,
        ) < crate::exfat::constants::MAX_EXFAT_DENTRIES * DENTRY_SIZE,
        s.nodes[i].size + s.vol.super_block.cluster_size * crate::arith::pieces(
            want * DENTRY_SIZE,
            s.vol.super_block.cluster_size as int,
        ) + PAGE_SIZE <= usize::MAX,
        s.nodes[i].size <= s.nodes[i].pages.len(),
    ensures
        crate::exfat::fs::dir::slots_found(s, i, want).1 is Ok,
{
    crate::exfat::laws::dir::lemma_dir_ok(s, i, cs, es);
    let n = s.nodes[i];
    let z = s.vol.super_block.cluster_size as int;
    lemma_cluster_size(s.vol.super_block);
    let count = crate::arith::pieces(want * DENTRY_SIZE, z);
    crate::arith::lemma_rounded_up(want * DENTRY_SIZE, z);
    assert(0 <= z * count) by (nonlinear_arith)
        requires
            0 <= z,
            0 <= count,
    ;
    let h = z / 32;
    assert(cs.len() * z == 32 * (cs.len() * h)) by (nonlinear_arith)
        requires
            z == 32 * h,
    ;
    lemma_search_ends(n.pages, n.size as int, want, 0, 0);
    lemma_directory_grows(s, i, cs, es, count as u32);
}

/// Adding an entry succeeds where there is room for it.
pub proof fn lemma_entry_added_succeeds(
    s: FsState,
    i: int,
    cs: Seq<ClusterID>,
    es: Seq<Held>,
    name: Seq<char>,
    inode_type: InodeType,
    now: DosTimestamp,
)
    requires
        dir_ok(s, i, cs, es),
        s.nodes.len() < usize::MAX,
        es.len() < u32::MAX,
        s.next_ino != crate::exfat::constants::EXFAT_ROOT_INO,
        0 < name.len(),
        !crate::exfat::fs::namei::too_long(name),
        !has_nul(name),
        has_room(s, i, name),
    ensures
        crate::exfat::fs::dir::entry_added(s, i, name, inode_type, now).1 is Ok,
{
    crate::exfat::laws::dir::lemma_dir_ok(s, i, cs, es);
    let want = crate::exfat::fs::dir::slots_wanted(name);
    assert(2 <= want <= 19);
    let z = s.vol.super_block.cluster_size as int;
    lemma_cluster_size(s.vol.super_block);
    let count = crate::arith::pieces(want * DENTRY_SIZE, z);
    crate::arith::lemma_rounded_up(want * DENTRY_SIZE, z);
    assert(z * (1 + count) == z + z * count) by (nonlinear_arith);
    assert(0 <= z * count) by (nonlinear_arith)
        requires
            0 <= z,
            0 <= count,
    ;
    lemma_first_cluster_succeeds(s, i, cs, es);
    let ds = lemma_first_cluster(s, i, cs, es);
    let s1 = crate::exfat::fs::dir::first_cluster_taken(s, i).0;
    lemma_slots_found_succeeds(s1, i, cs + ds, es, want);
    let fs = lemma_slots_found(s1, i, cs + ds, es, want);
    let (s2, found) = crate::exfat::fs::dir::slots_found(s1, i, want);
    lemma_entry_added_at(
        s2,
        i,
        (cs + ds) + fs,
        es,
        name,
        inode_type,
        now,
        found->Ok_0,
    );
    reveal(crate::exfat::fs::dir::entry_added);
}

/// Making a file or directory under a new name succeeds where there is room for it.
pub proof fn law_create_succeeds(
    o: FsState,
    s: FsState,
    i: int,
    cs: Seq<ClusterID>,
    es: Seq<Held>,
    name: Seq<char>,
    inode_type: InodeType,
    now: DosTimestamp,
)
    requires
        dir_opens(o, s, i, cs, es),
        crate::exfat::laws::dir::names_differ(s, es),
        s.nodes.len() < usize::MAX,
        es.len() < u32::MAX,
        s.next_ino != crate::exfat::constants::EXFAT_ROOT_INO,
        0 < name.len(),
        !crate::exfat::fs::namei::too_long(name),
        !has_nul(name),
        forall|k: int|
            0 <= k < es.len() ==> crate::exfat::laws::dir::name_of(s.nodes[(#[trigger] es[k]).inode])
                != name,
        has_room(s, i, name),
    ensures
        crate::exfat::fs::namei::created(o, i, name, inode_type, now).1 is Ok,
{
    crate::exfat::laws::dir::lemma_dir_opens(o, s, i, cs, es);
    crate::exfat::laws::dir::law_name_found(o, s, i, cs, es, name);
    let s0 = crate::exfat::fs::dir::name_found(o, i, name).0;
    lemma_entry_added_succeeds(s0, i, cs, es, name, inode_type, now);
}

/// Making a file or directory under a name that is there fails and changes nothing but
/// what is kept in memory.
pub proof fn law_create_existing(
    o: FsState,
    s: FsState,
    i: int,
    cs: Seq<ClusterID>,
    es: Seq<Held>,
    k: int,
    inode_type: InodeType,
    now: DosTimestamp,
)
    requires
        dir_opens(o, s, i, cs, es),
        crate::exfat::laws::dir::names_differ(s, es),
        0 <= k < es.len(),
        !crate::exfat::fs::namei::too_long(
            crate::exfat::laws::dir::name_of(s.nodes[es[k].inode]),
        ),
    ensures
        ({
            let name = crate::exfat::laws::dir::name_of(s.nodes[es[k].inode]);
            let (t, c) = crate::exfat::fs::namei::created(o, i, name, inode_type, now);
            &&& c == Err::<usize, Errno>(Errno::EEXIST)
            &&& t == s.with_vol(t.vol)
            &&& dir_ok(t, i, cs, es)
        }),
{
    crate::exfat::laws::dir::lemma_dir_opens(o, s, i, cs, es);
    crate::exfat::laws::dir::law_name_found(
        o,
        s,
        i,
        cs,
        es,
        crate::exfat::laws::dir::name_of(s.nodes[es[k].inode]),
    );
}

} // verus!
