//! Directories: which names they hold, and how the names are found.

use vstd::prelude::*;
use crate::errno::Errno;
use crate::exfat::chain::ExfatChain;
use crate::exfat::constants::{DENTRY_SIZE, EXFAT_ROOT_INO, PAGE_SIZE};
use crate::exfat::fat::ClusterID;
use crate::exfat::fs::dir::DirentView;
use crate::exfat::fs::FsState;
use crate::exfat::inode::InodeView;
use crate::exfat::laws::chain::{is_chain, taken, vol_ok};
use crate::exfat::laws::layout::{covered, laid_out, set_in, Held};
use crate::exfat::super_block::ExfatSuperBlock;
use crate::exfat::volume::VolumeState;

verus! {

/// The number by which the inode is found whose entries begin with the number `slot` of
/// a directory with the clusters `cs`.
pub open spec fn slot_hash(sb: ExfatSuperBlock, cs: Seq<ClusterID>, slot: int) -> u64 {
    let at = slot * DENTRY_SIZE;
    let z = sb.cluster_size as int;
    crate::exfat::inode::hash_of_place(cs[at / z], (at % z) as u32)
}

/// The name of an inode.
pub open spec fn name_of(n: InodeView) -> Seq<char> {
    crate::text::text_of_utf16(n.name)
}

/// Whether the directory `i` with the clusters `cs` holds an inode, which is open.
pub open spec fn held(s: FsState, i: int, cs: Seq<ClusterID>, e: Held) -> bool {
    let n = s.nodes[e.inode];
    &&& 0 <= e.inode < s.nodes.len()
    &&& e.inode != i
    &&& n.dentry_set_size == e.width * DENTRY_SIZE
    &&& (e.slot + e.width) * DENTRY_SIZE <= s.nodes[i].size
    &&& s.find(slot_hash(s.vol.super_block, cs, e.slot)) == Some(e.inode as usize)
    &&& n.ino != EXFAT_ROOT_INO
    &&& crate::exfat::inode::hash_of_position(n.dentry_set_position) == slot_hash(
        s.vol.super_block,
        cs,
        e.slot,
    )
    &&& n.dentry_entry == e.slot
    &&& n.parent_hash == crate::exfat::inode::inode_hash(s.nodes[i])
}

/// Whether the inode `i` is a directory with the clusters `cs`.
pub open spec fn is_dir(s: FsState, i: int, cs: Seq<ClusterID>) -> bool {
    let d = s.nodes[i];
    &&& 0 <= i < s.nodes.len() <= usize::MAX
    &&& d.inode_type is Dir
    &&& s.opened_exist()
    &&& vol_ok(s.vol)
    &&& is_chain(s.vol, d.start_chain, cs)
    &&& d.size == cs.len() * s.vol.super_block.cluster_size
    &&& d.size_allocated == d.size
    &&& d.size <= DENTRY_SIZE * u32::MAX
    &&& d.size + PAGE_SIZE <= usize::MAX
    &&& d.pages.len() <= usize::MAX
    &&& d.pages.len() % (PAGE_SIZE as nat) == 0
    &&& s.find(crate::exfat::inode::inode_hash(d)) == Some(i as usize)
    &&& d.ino != EXFAT_ROOT_INO ==> elsewhere(s.vol, cs, d.dentry_set_position.0.current)
}

/// Whether a cluster is in use, but not one of the clusters `cs`.
pub open spec fn elsewhere(v: VolumeState, cs: Seq<ClusterID>, cluster: ClusterID) -> bool {
    taken(v, cluster) && !cs.contains(cluster)
}

/// Whether the inode `i` is a directory with the clusters `cs` in which everything is
/// open: it holds the inodes `es` in this order.
#[verifier::opaque]
pub open spec fn dir_ok(s: FsState, i: int, cs: Seq<ClusterID>, es: Seq<Held>) -> bool {
    &&& is_dir(s, i, cs)
    &&& s.nodes[i].num_subdir == es.len()
    &&& laid_out(s.nodes[i].pages, es)
    &&& forall|k: int| 0 <= k < es.len() ==> held(s, i, cs, #[trigger] es[k])
}

/// What holds of a directory in which everything is open, but for its inodes.
pub proof fn lemma_dir_ok(s: FsState, i: int, cs: Seq<ClusterID>, es: Seq<Held>)
    requires
        dir_ok(s, i, cs, es),
    ensures
        is_dir(s, i, cs),
        s.nodes[i].num_subdir == es.len(),
{
    reveal(dir_ok);
}

/// A directory in which everything is open holds each of its inodes.
pub proof fn lemma_dir_entry(
    s: FsState,
    i: int,
    cs: Seq<ClusterID>,
    es: Seq<Held>,
    k: int,
)
    requires
        dir_ok(s, i, cs, es),
        0 <= k < es.len(),
    ensures
        held(s, i, cs, es[k]),
        set_in(s.nodes[i].pages, es[k].slot, es[k].width),
        es[k].slot * DENTRY_SIZE < cs.len() * s.vol.super_block.cluster_size,
{
    reveal(dir_ok);
    reveal(laid_out);
}

/// Whether inodes have different names.
pub open spec fn names_differ(s: FsState, es: Seq<Held>) -> bool {
    forall|a: int, b: int|
        0 <= a < b < es.len() ==> name_of(s.nodes[(#[trigger] es[a]).inode]) != name_of(
            s.nodes[(#[trigger] es[b]).inode],
        )
}

/// What is listed of inodes.
pub open spec fn listing(s: FsState, es: Seq<Held>) -> Seq<DirentView> {
    Seq::new(
        es.len(),
        |k: int| crate::exfat::fs::dir::dirent_of(s.nodes[es[k].inode], es[k].slot),
    )
}

/// Whether two states of a volume differ in what is kept in memory only.
pub open spec fn only_cache(v: VolumeState, w: VolumeState) -> bool {
    w == (VolumeState { cache: w.cache, ..v })
}

/// The place of an entry is found.
pub proof fn lemma_slot_walk(v: VolumeState, chain: ExfatChain, cs: Seq<ClusterID>, slot: int)
    requires
        vol_ok(v),
        is_chain(v, chain, cs),
        0 <= slot,
        slot * DENTRY_SIZE < cs.len() * v.super_block.cluster_size,
        slot * DENTRY_SIZE <= usize::MAX,
    ensures
        ({
            let at = slot * DENTRY_SIZE;
            let z = v.super_block.cluster_size as int;
            let (w, r) = crate::exfat::chain::chain_walk_to_offset(v, chain, at as usize);
            &&& 0 <= at / z < cs.len()
            &&& r is Ok
            &&& r->Ok_0.0.current == cs[at / z]
            &&& crate::exfat::inode::hash_of_position(r->Ok_0) == slot_hash(
                v.super_block,
                cs,
                slot,
            )
            &&& only_cache(v, w)
            &&& vol_ok(w)
            &&& is_chain(w, chain, cs)
            &&& ({
                let (w1, r1) = crate::exfat::chain::chain_cluster(v, chain, (at / z) as u32);
                &&& r1 is Ok
                &&& only_cache(v, w1)
                &&& vol_ok(w1)
                &&& is_chain(w1, chain, cs)
            })
        }),
{
    let at = slot * DENTRY_SIZE;
    let z = v.super_block.cluster_size as int;
    let n = cs.len() as int;
    crate::exfat::volume::lemma_cluster_size_positive(v.super_block);
    assert(n * z == z * n) by (nonlinear_arith);
    vstd::arithmetic::div_mod::lemma_multiply_divide_lt(at, z, n);
    vstd::arithmetic::div_mod::lemma_div_pos_is_pos(at, z);
    crate::exfat::laws::chain::law_chain_cluster(v, chain, cs, (at / z) as u32);
}

/// Two entries with the same place are the same.
pub proof fn lemma_slot_hash(v: VolumeState, cs: Seq<ClusterID>, a: int, b: int)
    requires
        v.super_block.wf(),
        cs.no_duplicates(),
        0 <= a,
        0 <= b,
        a * DENTRY_SIZE < cs.len() * v.super_block.cluster_size,
        b * DENTRY_SIZE < cs.len() * v.super_block.cluster_size,
        slot_hash(v.super_block, cs, a) == slot_hash(v.super_block, cs, b),
    ensures
        a == b,
{
    let z = v.super_block.cluster_size as int;
    let n = cs.len() as int;
    let x = a * DENTRY_SIZE;
    let y = b * DENTRY_SIZE;
    crate::exfat::volume::lemma_cluster_size_positive(v.super_block);
    assert(n * z == z * n) by (nonlinear_arith);
    vstd::arithmetic::div_mod::lemma_multiply_divide_lt(x, z, n);
    vstd::arithmetic::div_mod::lemma_div_pos_is_pos(x, z);
    vstd::arithmetic::div_mod::lemma_multiply_divide_lt(y, z, n);
    vstd::arithmetic::div_mod::lemma_div_pos_is_pos(y, z);
    vstd::arithmetic::div_mod::lemma_mod_bound(x, z);
    vstd::arithmetic::div_mod::lemma_mod_bound(y, z);
    vstd::arithmetic::div_mod::lemma_fundamental_div_mod(x, z);
    vstd::arithmetic::div_mod::lemma_fundamental_div_mod(y, z);
    crate::exfat::inode::law_hash_tells_places_apart(
        cs[x / z],
        (x % z) as u32,
        cs[y / z],
        (y % z) as u32,
    );
    assert(x / z == y / z);
}

/// The place of an entry of a directory is not the place of the directory itself.
pub proof fn lemma_own_hash(s: FsState, i: int, cs: Seq<ClusterID>, slot: int)
    requires
        is_dir(s, i, cs),
        0 <= slot,
        slot * DENTRY_SIZE < cs.len() * s.vol.super_block.cluster_size,
        slot * DENTRY_SIZE <= usize::MAX,
    ensures
        crate::exfat::inode::inode_hash(s.nodes[i]) != slot_hash(s.vol.super_block, cs, slot),
{
    let d = s.nodes[i];
    let at = slot * DENTRY_SIZE;
    let z = s.vol.super_block.cluster_size as int;
    lemma_slot_walk(s.vol, d.start_chain, cs, slot);
    let home = cs[at / z];
    assert(taken(s.vol, cs[at / z]));
    if d.ino == EXFAT_ROOT_INO {
        crate::exfat::inode::law_hash_of_root_is_free(home, (at % z) as u32);
    } else if crate::exfat::inode::inode_hash(d) == slot_hash(s.vol.super_block, cs, slot) {
        crate::exfat::inode::law_hash_tells_places_apart(
            d.dentry_set_position.0.current,
            d.dentry_set_position.1 as u32,
            home,
            (at % z) as u32,
        );
        assert(cs.contains(home));
    }
}

/// A directory stays as it is where only what is kept in memory changes.
pub proof fn lemma_dir_cache(
    s: FsState,
    w: VolumeState,
    i: int,
    cs: Seq<ClusterID>,
    es: Seq<Held>,
)
    requires
        dir_ok(s, i, cs, es),
        only_cache(s.vol, w),
        vol_ok(w),
    ensures
        dir_ok(s.with_vol(w), i, cs, es),
{
    reveal(dir_ok);
    let t = s.with_vol(w);
    crate::exfat::laws::chain::law_chain_kept(
        s.vol,
        w,
        s.nodes[i].start_chain,
        cs,
        Set::empty(),
    );
    assert forall|k: int| 0 <= k < es.len() implies held(t, i, cs, #[trigger] es[k]) by {
        assert(held(s, i, cs, es[k]));
    }
}

/// Whether an inode stands where another one stands.
pub open spec fn same_place(a: InodeView, b: InodeView) -> bool {
    &&& a.ino == b.ino
    &&& a.dentry_set_position == b.dentry_set_position
    &&& a.dentry_set_size == b.dentry_set_size
    &&& a.dentry_entry == b.dentry_entry
    &&& a.parent_hash == b.parent_hash
}

/// A directory holds what it held where its clusters stay, where its inodes stand and
/// are found as before, and where its pages hold the same entries.
pub proof fn lemma_dir_frame(
    s: FsState,
    t: FsState,
    i: int,
    cs: Seq<ClusterID>,
    es: Seq<Held>,
)
    requires
        dir_ok(s, i, cs, es),
        vol_ok(t.vol),
        t.vol.super_block == s.vol.super_block,
        is_chain(t.vol, s.nodes[i].start_chain, cs),
        s.nodes.len() <= t.nodes.len() <= usize::MAX,
        t.opened_exist(),
        t.nodes[i] == (InodeView { pages: t.nodes[i].pages, ..s.nodes[i] }),
        t.nodes[i].pages.len() == s.nodes[i].pages.len(),
        laid_out(t.nodes[i].pages, es),
        forall|k: int|
            0 <= k < es.len() ==> same_place(
                t.nodes[(#[trigger] es[k]).inode],
                s.nodes[es[k].inode],
            ) && t.find(slot_hash(s.vol.super_block, cs, es[k].slot)) == s.find(
                slot_hash(s.vol.super_block, cs, es[k].slot),
            ),
        t.find(crate::exfat::inode::inode_hash(s.nodes[i])) == Some(i as usize),
        s.nodes[i].ino != EXFAT_ROOT_INO ==> elsewhere(
            t.vol,
            cs,
            s.nodes[i].dentry_set_position.0.current,
        ),
    ensures
        dir_ok(t, i, cs, es),
{
    reveal(dir_ok);
    assert forall|k: int| 0 <= k < es.len() implies held(t, i, cs, #[trigger] es[k]) by {
        assert(held(s, i, cs, es[k]));
    }
}

/// Whether the entry with the number `slot` lies behind the first `k` of the inodes
/// `es`, and not behind the first entry of the next one.
#[verifier::opaque]
pub open spec fn between(es: Seq<Held>, k: int, slot: int) -> bool {
    &&& 0 <= slot
    &&& slot * DENTRY_SIZE <= usize::MAX
    &&& forall|j: int|
        0 <= j < k ==> (#[trigger] es[j]).slot + es[j].width <= slot
    &&& k < es.len() ==> slot <= es[k].slot
}

/// One inode more is listed.
proof fn lemma_listing_step(
    s: FsState,
    t: FsState,
    es: Seq<Held>,
    k: int,
    end: int,
    before: Seq<DirentView>,
)
    requires
        t.nodes == s.nodes,
        0 <= k < end <= es.len(),
    ensures
        before.push(
            crate::exfat::fs::dir::dirent_of(s.nodes[es[k].inode], es[k].slot),
        ) + listing(t, es.subrange(k + 1, end)) == before + listing(s, es.subrange(k, end)),
{
    assert(before.push(
        crate::exfat::fs::dir::dirent_of(s.nodes[es[k].inode], es[k].slot),
    ) + listing(t, es.subrange(k + 1, end)) =~= before + listing(s, es.subrange(k, end)));
}

/// Where the next file entry of a directory is reached, the next inode is read.
#[verifier::rlimit(30)]
proof fn lemma_child_read(
    s: FsState,
    i: int,
    cs: Seq<ClusterID>,
    es: Seq<Held>,
    k: int,
    slot: int,
)
    requires
        dir_ok(s, i, cs, es),
        0 <= k < es.len(),
        between(es, k, slot),
        crate::exfat::dentry::has_slot(s.nodes[i].pages, slot),
        crate::exfat::dentry::slot_kind(s.nodes[i].pages, slot) is File,
    ensures
        ({
            let (s1, r1) = crate::exfat::fs::dir::child_read(s, s.nodes[i], slot);
            let next = slot + es[k].width;
            &&& es[k].slot == slot
            &&& es[k].inode as usize == es[k].inode
            &&& r1 == Ok::<usize, Errno>(es[k].inode as usize)
            &&& s.nodes[es[k].inode].dentry_set_size as int / (DENTRY_SIZE as int) == es[k].width
            &&& s1 == s.with_vol(s1.vol)
            &&& only_cache(s.vol, s1.vol)
            &&& dir_ok(s1, i, cs, es)
            &&& slot < next
            &&& next * DENTRY_SIZE <= s.nodes[i].pages.len()
            &&& between(es, k + 1, next)
        }),
{
    reveal(between);
    reveal(dir_ok);
    let d = s.nodes[i];
    let e = es[k];
    reveal(laid_out);
    lemma_dir_entry(s, i, cs, es, k);
    assert(covered(es, slot));
    let j = choose|j: int|
        0 <= j < es.len() && (#[trigger] es[j]).slot <= slot < es[j].slot + es[j].width;
    assert(j >= k);
    if j > k {
        assert(es[k].slot + es[k].width <= es[j].slot);
    }
    assert(e.slot == slot);
    lemma_slot_walk(s.vol, d.start_chain, cs, slot);
    let (s1, r1) = crate::exfat::fs::dir::child_read(s, d, slot);
    lemma_dir_cache(s, s1.vol, i, cs, es);
    if k + 1 < es.len() {
        assert(es[k].slot + es[k].width <= es[k + 1].slot);
    }
}

/// Where the next inode was not read yet, its entries still come.
proof fn lemma_child_comes(
    s: FsState,
    i: int,
    cs: Seq<ClusterID>,
    es: Seq<Held>,
    k: int,
    slot: int,
)
    requires
        dir_ok(s, i, cs, es),
        0 <= k < es.len(),
        between(es, k, slot),
    ensures
        crate::exfat::dentry::has_slot(s.nodes[i].pages, slot),
        !(crate::exfat::dentry::slot_kind(s.nodes[i].pages, slot) is File) ==> between(
            es,
            k,
            slot + 1,
        ),
{
    reveal(between);
    lemma_dir_entry(s, i, cs, es, k);
}

/// What reading inodes of a directory makes of the file system and returns.
#[verifier::opaque]
spec fn rest_read(
    s: FsState,
    d: InodeView,
    slot: int,
    count: nat,
    before: Seq<DirentView>,
) -> (FsState, Seq<DirentView>, Result<usize, Errno>) {
    crate::exfat::fs::dir::children_read(s, d, slot, count, before)
}

/// Reading inodes reads the first one and then the others.
proof fn lemma_children_step(
    s: FsState,
    i: int,
    cs: Seq<ClusterID>,
    es: Seq<Held>,
    k: int,
    slot: int,
    count: nat,
    before: Seq<DirentView>,
)
    requires
        dir_ok(s, i, cs, es),
        0 <= k < es.len(),
        between(es, k, slot),
        count > 0,
    ensures
        ({
            let d = s.nodes[i];
            let total = rest_read(s, d, slot, count, before);
            let (s1, r1) = crate::exfat::fs::dir::child_read(s, d, slot);
            let next = slot + es[k].width;
            &&& (slot + 1) * DENTRY_SIZE <= d.pages.len()
            &&& if crate::exfat::dentry::slot_kind(d.pages, slot) is File {
                &&& s1 == s.with_vol(s1.vol)
                &&& only_cache(s.vol, s1.vol)
                &&& dir_ok(s1, i, cs, es)
                &&& es[k].slot == slot
                &&& between(es, k + 1, next)
                &&& slot < next
                &&& next * DENTRY_SIZE <= d.pages.len()
                &&& total == rest_read(
                    s1,
                    d,
                    next,
                    (count - 1) as nat,
                    before.push(
                        crate::exfat::fs::dir::dirent_of(s.nodes[es[k].inode], es[k].slot),
                    ),
                )
            } else {
                &&& between(es, k, slot + 1)
                &&& total == rest_read(s, d, slot + 1, count, before)
            }
        }),
{
    reveal(rest_read);
    lemma_child_comes(s, i, cs, es, k, slot);
    if crate::exfat::dentry::slot_kind(s.nodes[i].pages, slot) is File {
        lemma_child_read(s, i, cs, es, k, slot);
    }
}

/// Reading further inodes of a directory lists them.
proof fn lemma_children_read(
    s: FsState,
    i: int,
    cs: Seq<ClusterID>,
    es: Seq<Held>,
    k: int,
    slot: int,
    count: nat,
    before: Seq<DirentView>,
)
    requires
        dir_ok(s, i, cs, es),
        0 <= k,
        k + count <= es.len(),
        between(es, k, slot),
    ensures
        ({
            let (t, out, r) = rest_read(
                s,
                s.nodes[i],
                slot,
                count,
                before,
            );
            &&& r is Ok
            &&& between(es, k + count, r->Ok_0 as int)
            &&& count == 0 ==> r->Ok_0 == slot
            &&& count > 0 ==> r->Ok_0 == es[k + count - 1].slot + es[k + count - 1].width
            &&& t == s.with_vol(t.vol)
            &&& only_cache(s.vol, t.vol)
            &&& dir_ok(t, i, cs, es)
            &&& out == before + listing(s, es.subrange(k, k + count))
        }),
    decreases s.nodes[i].pages.len() - slot * DENTRY_SIZE,
{
    let d = s.nodes[i];
    if count == 0 {
        assert(before + listing(s, es.subrange(k, k + count)) =~= before);
        assert(slot as usize == slot) by {
            reveal(between);
        }
        reveal(rest_read);
    } else {
        lemma_children_step(s, i, cs, es, k, slot, count, before);
        if crate::exfat::dentry::slot_kind(d.pages, slot) is File {
            let (s1, r1) = crate::exfat::fs::dir::child_read(s, d, slot);
            let before1 = before.push(
                crate::exfat::fs::dir::dirent_of(s.nodes[es[k].inode], es[k].slot),
            );
            lemma_children_read(
                s1,
                i,
                cs,
                es,
                k + 1,
                slot + es[k].width,
                (count - 1) as nat,
                before1,
            );
            lemma_listing_step(s, s1, es, k, k + count, before);
        } else {
            lemma_children_read(s, i, cs, es, k, slot + 1, count, before);
        }
    }
}

/// Reading inodes of a directory lists them.
pub proof fn lemma_dirs_read(
    s: FsState,
    i: int,
    cs: Seq<ClusterID>,
    es: Seq<Held>,
    k: int,
    slot: int,
    count: nat,
    before: Seq<DirentView>,
)
    requires
        dir_ok(s, i, cs, es),
        0 <= k,
        k + count <= es.len(),
        between(es, k, slot),
    ensures
        ({
            let (t, out, r) = crate::exfat::fs::dir::dirs_read(s, i, slot, count, before);
            &&& r is Ok
            &&& between(es, k + count, r->Ok_0 as int)
            &&& count == 0 ==> r->Ok_0 == slot
            &&& count > 0 ==> r->Ok_0 == es[k + count - 1].slot + es[k + count - 1].width
            &&& t == s.with_vol(t.vol)
            &&& only_cache(s.vol, t.vol)
            &&& dir_ok(t, i, cs, es)
            &&& out == before + listing(s, es.subrange(k, k + count))
        }),
{
    lemma_dir_ok(s, i, cs, es);
    if count == 0 {
        assert(before + listing(s, es.subrange(k, k + count)) =~= before);
        assert(slot as usize == slot) by {
            reveal(between);
        }
    } else {
        lemma_dir_entry(s, i, cs, es, k);
        assert(0 <= slot <= es[k].slot) by {
            reveal(between);
        }
        let chain = s.nodes[i].start_chain;
        let at = slot * DENTRY_SIZE;
        let z = s.vol.super_block.cluster_size as int;
        crate::exfat::volume::lemma_cluster_size_positive(s.vol.super_block);
        lemma_slot_walk(s.vol, chain, cs, slot);
        let (v1, r1) = crate::exfat::chain::chain_cluster(s.vol, chain, (at / z) as u32);
        lemma_slot_walk(v1, chain, cs, slot);
        let (v2, r2) = crate::exfat::chain::chain_walk_to_offset(v1, chain, at as usize);
        lemma_dir_cache(s, v2, i, cs, es);
        lemma_children_read(s.with_vol(v2), i, cs, es, k, slot, count, before);
        reveal(rest_read);
        let (t, out, r) = crate::exfat::fs::dir::dirs_read(s, i, slot, count, before);
        assert(listing(s.with_vol(v2), es.subrange(k, k + count)) =~= listing(
            s,
            es.subrange(k, k + count),
        ));
    }
}

/// Whether reading all of the directory `i` in the state `o` opens everything in it: it then
/// is as in the state `s`, but for which FAT entries are kept in memory, and holds the
/// inodes `es` in this order. A directory opens where everything in it is open already
/// (`law_open_stays`), and where it can be read (`law_reading_opens`).
#[verifier::opaque]
pub open spec fn dir_opens(
    o: FsState,
    s: FsState,
    i: int,
    cs: Seq<ClusterID>,
    es: Seq<Held>,
) -> bool {
    let (t, out, r) = crate::exfat::fs::dir::dirs_read(o, i, 0, es.len(), Seq::empty());
    &&& dir_ok(s, i, cs, es)
    &&& r is Ok
    &&& t == s.with_vol(t.vol)
    &&& only_cache(s.vol, t.vol)
    &&& vol_ok(t.vol)
    &&& out == listing(s, es)
    &&& 0 <= i < o.nodes.len() <= s.nodes.len()
    &&& forall|q: int| 0 <= q < o.nodes.len() ==> #[trigger] s.nodes[q] == o.nodes[q]
}

/// What holds of a directory that opens.
pub proof fn lemma_dir_opens(
    o: FsState,
    s: FsState,
    i: int,
    cs: Seq<ClusterID>,
    es: Seq<Held>,
)
    requires
        dir_opens(o, s, i, cs, es),
    ensures
        dir_ok(s, i, cs, es),
        is_dir(s, i, cs),
        s.nodes[i].num_subdir == es.len(),
        0 <= i < o.nodes.len() <= s.nodes.len(),
        forall|q: int| 0 <= q < o.nodes.len() ==> #[trigger] s.nodes[q] == o.nodes[q],
        s.nodes[i] == o.nodes[i],
{
    reveal(dir_opens);
    lemma_dir_ok(s, i, cs, es);
}

/// A directory in which everything is open stays as it is where it is read.
pub proof fn law_open_stays(s: FsState, i: int, cs: Seq<ClusterID>, es: Seq<Held>)
    requires
        dir_ok(s, i, cs, es),
    ensures
        dir_opens(s, s, i, cs, es),
{
    lemma_dir_ok(s, i, cs, es);
    assert(between(es, 0, 0)) by {
        reveal(between);
        if es.len() > 0 {
            lemma_dir_entry(s, i, cs, es, 0);
        }
    }
    lemma_dirs_read(s, i, cs, es, 0, 0, es.len(), Seq::empty());
    let (t, out, r) = crate::exfat::fs::dir::dirs_read(s, i, 0, es.len(), Seq::empty());
    lemma_dir_ok(t, i, cs, es);
    assert(es.subrange(0, es.len() as int) =~= es);
    assert(out =~= listing(s, es));
    reveal(dir_opens);
}

/// Listing a directory in which everything is open without its first inodes lists the
/// others, in the order in which they stand.
pub proof fn law_listed(
    s: FsState,
    i: int,
    cs: Seq<ClusterID>,
    es: Seq<Held>,
    skipped: int,
    before: Seq<DirentView>,
)
    requires
        dir_ok(s, i, cs, es),
        0 <= skipped <= es.len(),
    ensures
        ({
            let (t, out, r) = crate::exfat::fs::namei::listed(s, i, skipped, before);
            &&& t == s.with_vol(t.vol)
            &&& dir_ok(t, i, cs, es)
            &&& r == Ok::<usize, Errno>((es.len() - skipped) as usize)
            &&& out == before + listing(s, es.skip(skipped))
        }),
{
    lemma_dir_ok(s, i, cs, es);
    let all = es.len() as int;
    if skipped == all {
        assert(before + listing(s, es.skip(skipped)) =~= before);
        lemma_dir_cache(s, s.vol, i, cs, es);
    } else {
        let none = Seq::<DirentView>::empty();
        assert(between(es, 0, 0)) by {
        reveal(between);
            if es.len() > 0 {
                lemma_dir_entry(s, i, cs, es, 0);
            }
        }
        lemma_dirs_read(s, i, cs, es, 0, 0, skipped as nat, none);
        let (s1, _, r1) = crate::exfat::fs::dir::dirs_read(s, i, 0, skipped as nat, none);
        let slot = r1->Ok_0 as int;
        lemma_dirs_read(s1, i, cs, es, skipped, slot, (all - skipped) as nat, before);
        assert(listing(s1, es.subrange(skipped, all)) =~= listing(s, es.skip(skipped)));
    }
}

/// The first entry with a name.
pub proof fn lemma_named_entry(entries: Seq<DirentView>, name: Seq<char>, k: int)
    requires
        0 <= k <= entries.len(),
    ensures
        match crate::exfat::fs::dir::named_entry(entries, name, k) {
            Some(found) => k <= found < entries.len() && entries[found].name == name,
            None => forall|j: int| k <= j < entries.len() ==> (#[trigger] entries[j]).name != name,
        },
    decreases entries.len() - k,
{
    if k < entries.len() && entries[k].name != name {
        lemma_named_entry(entries, name, k + 1);
    }
}

/// A directory that opens finds each of its inodes by its name, and no other name; looking
/// opens everything in it and changes nothing else but which FAT entries are kept in memory.
pub proof fn law_name_found(
    o: FsState,
    s: FsState,
    i: int,
    cs: Seq<ClusterID>,
    es: Seq<Held>,
    name: Seq<char>,
)
    requires
        dir_opens(o, s, i, cs, es),
        names_differ(s, es),
    ensures
        ({
            let (t, r) = crate::exfat::fs::dir::name_found(o, i, name);
            &&& t == s.with_vol(t.vol)
            &&& only_cache(s.vol, t.vol)
            &&& dir_ok(t, i, cs, es)
            &&& forall|k: int|
                0 <= k < es.len() && name_of(s.nodes[(#[trigger] es[k]).inode]) == name ==> r
                    == Ok::<(usize, usize, usize), Errno>(
                    (
                        es[k].inode as usize,
                        (es[k].slot * DENTRY_SIZE) as usize,
                        s.nodes[es[k].inode].dentry_set_size,
                    ),
                )
            &&& (forall|k: int|
                0 <= k < es.len() ==> name_of(s.nodes[(#[trigger] es[k]).inode]) != name) ==> r
                == Err::<(usize, usize, usize), Errno>(Errno::ENOENT)
            &&& r is Ok ==> exists|k: int|
                0 <= k < es.len() && (#[trigger] es[k]).inode == r->Ok_0.0 as int && name_of(
                    s.nodes[es[k].inode],
                ) == name
        }),
{
    reveal(dir_opens);
    lemma_dir_opens(o, s, i, cs, es);
    reveal(crate::exfat::fs::dir::name_found);
    let (s1, entries, r1) = crate::exfat::fs::dir::dirs_read(
        o,
        i,
        0,
        o.nodes[i].num_subdir as nat,
        Seq::empty(),
    );
    lemma_dir_cache(s, s1.vol, i, cs, es);
    lemma_named_entry(entries, name, 0);
    let (t, r) = crate::exfat::fs::dir::name_found(o, i, name);
    match crate::exfat::fs::dir::named_entry(entries, name, 0) {
        None => {
            assert forall|k: int| 0 <= k < es.len() implies name_of(
                s.nodes[(#[trigger] es[k]).inode],
            ) != name by {
                assert(entries[k].name != name);
            }
        },
        Some(found) => {
            lemma_dir_entry(s, i, cs, es, found);
            let slot = es[found].slot;
            lemma_dir_ok(s1, i, cs, es);
            lemma_slot_walk(s1.vol, s1.nodes[i].start_chain, cs, slot);
            lemma_dir_cache(s1, t.vol, i, cs, es);
            assert(s1.find(slot_hash(s.vol.super_block, cs, slot)) == Some(es[found].inode as usize));
            assert forall|k: int|
                0 <= k < es.len() && name_of(s.nodes[(#[trigger] es[k]).inode])
                    == name implies k == found by {
                assert(name_of(s.nodes[es[found].inode]) == name);
            }
        },
    }
}

/// What a name gives among the inodes `es`.
pub open spec fn found_in(s: FsState, es: Seq<Held>, name: Seq<char>) -> Result<usize, Errno> {
    if exists|k: int| 0 <= k < es.len() && name_of(s.nodes[(#[trigger] es[k]).inode]) == name {
        let k = choose|k: int|
            0 <= k < es.len() && name_of(s.nodes[(#[trigger] es[k]).inode]) == name;
        Ok(es[k].inode as usize)
    } else {
        Err(Errno::ENOENT)
    }
}

/// What a name gives among inodes with different names.
pub proof fn lemma_found_in(s: FsState, es: Seq<Held>, k: int)
    requires
        names_differ(s, es),
        0 <= k < es.len(),
    ensures
        found_in(s, es, name_of(s.nodes[es[k].inode])) == Ok::<usize, Errno>(
            es[k].inode as usize,
        ),
{
    let name = name_of(s.nodes[es[k].inode]);
    let j = choose|j: int|
        0 <= j < es.len() && name_of(s.nodes[(#[trigger] es[j]).inode]) == name;
    if j < k {
        assert(name_of(s.nodes[es[j].inode]) != name_of(s.nodes[es[k].inode]));
    } else if k < j {
        assert(name_of(s.nodes[es[k].inode]) != name_of(s.nodes[es[j].inode]));
    }
}

/// What a name gives where one inode more is there.
pub proof fn lemma_found_insert(
    s: FsState,
    t: FsState,
    es: Seq<Held>,
    p: int,
    e: Held,
    name: Seq<char>,
)
    requires
        names_differ(s, es),
        names_differ(t, es.insert(p, e)),
        0 <= p <= es.len(),
        forall|k: int|
            0 <= k < es.len() ==> name_of(t.nodes[(#[trigger] es[k]).inode]) == name_of(
                s.nodes[es[k].inode],
            ),
    ensures
        found_in(t, es.insert(p, e), name) == (if name == name_of(t.nodes[e.inode]) {
            Ok::<usize, Errno>(e.inode as usize)
        } else {
            found_in(s, es, name)
        }),
{
    let fs = es.insert(p, e);
    assert(fs[p] == e);
    if name == name_of(t.nodes[e.inode]) {
        lemma_found_in(t, fs, p);
    } else if exists|k: int|
        0 <= k < es.len() && name_of(s.nodes[(#[trigger] es[k]).inode]) == name {
        let k = choose|k: int|
            0 <= k < es.len() && name_of(s.nodes[(#[trigger] es[k]).inode]) == name;
        let j = if k < p {
            k
        } else {
            k + 1
        };
        assert(fs[j] == es[k]);
        lemma_found_in(s, es, k);
        lemma_found_in(t, fs, j);
    } else {
        assert forall|j: int| 0 <= j < fs.len() implies name_of(t.nodes[(#[trigger] fs[j]).inode])
            != name by {
            if j != p {
                let k = if j < p {
                    j
                } else {
                    j - 1
                };
                assert(fs[j] == es[k]);
            }
        }
    }
}

/// What a name gives where one inode less is there.
pub proof fn lemma_found_remove(s: FsState, t: FsState, es: Seq<Held>, k: int, name: Seq<char>)
    requires
        names_differ(s, es),
        names_differ(t, es.remove(k)),
        0 <= k < es.len(),
        forall|j: int|
            0 <= j < es.len() && j != k ==> name_of(t.nodes[(#[trigger] es[j]).inode]) == name_of(
                s.nodes[es[j].inode],
            ),
    ensures
        found_in(t, es.remove(k), name) == (if name == name_of(s.nodes[es[k].inode]) {
            Err::<usize, Errno>(Errno::ENOENT)
        } else {
            found_in(s, es, name)
        }),
{
    let fs = es.remove(k);
    if exists|j: int|
        0 <= j < es.len() && j != k && name_of(s.nodes[(#[trigger] es[j]).inode]) == name {
        let j = choose|j: int|
            0 <= j < es.len() && j != k && name_of(s.nodes[(#[trigger] es[j]).inode]) == name;
        let x = if j < k {
            j
        } else {
            j - 1
        };
        assert(fs[x] == es[j]);
        lemma_found_in(s, es, j);
        lemma_found_in(t, fs, x);
        if name == name_of(s.nodes[es[k].inode]) {
            if j < k {
                assert(name_of(s.nodes[es[j].inode]) != name_of(s.nodes[es[k].inode]));
            } else {
                assert(name_of(s.nodes[es[k].inode]) != name_of(s.nodes[es[j].inode]));
            }
        }
    } else {
        assert forall|x: int| 0 <= x < fs.len() implies name_of(t.nodes[(#[trigger] fs[x]).inode])
            != name by {
            let j = if x < k {
                x
            } else {
                x + 1
            };
            assert(fs[x] == es[j]);
        }
    }
}

/// Looking a name up in a directory that opens gives the inode with the name, or says that
/// there is none.
pub proof fn law_looked_up(
    o: FsState,
    s: FsState,
    i: int,
    cs: Seq<ClusterID>,
    es: Seq<Held>,
    name: Seq<char>,
)
    requires
        dir_opens(o, s, i, cs, es),
        names_differ(s, es),
        !crate::exfat::fs::namei::too_long(name),
    ensures
        ({
            let (t, r) = crate::exfat::fs::namei::looked_up(o, i, name);
            &&& t == s.with_vol(t.vol)
            &&& dir_ok(t, i, cs, es)
            &&& r == found_in(s, es, name)
        }),
{
    lemma_dir_opens(o, s, i, cs, es);
    law_name_found(o, s, i, cs, es, name);
}

/// What a name gives in a directory in which everything is open.
pub proof fn lemma_looked_up(
    s: FsState,
    i: int,
    cs: Seq<ClusterID>,
    es: Seq<Held>,
    name: Seq<char>,
)
    requires
        dir_ok(s, i, cs, es),
        names_differ(s, es),
        !crate::exfat::fs::namei::too_long(name),
    ensures
        ({
            let (t, r) = crate::exfat::fs::namei::looked_up(s, i, name);
            &&& t == s.with_vol(t.vol)
            &&& dir_ok(t, i, cs, es)
            &&& r == found_in(s, es, name)
        }),
{
    law_open_stays(s, i, cs, es);
    law_looked_up(s, s, i, cs, es, name);
}

/// Of entries with the same name the first one is found, and none only where there is none.
pub proof fn law_first_named(entries: Seq<DirentView>, name: Seq<char>)
    ensures
        match crate::exfat::fs::dir::named_entry(entries, name, 0) {
            Some(k) => 0 <= k < entries.len() && entries[k].name == name && forall|j: int|
                0 <= j < k ==> (#[trigger] entries[j]).name != name,
            None => forall|j: int| 0 <= j < entries.len() ==> (#[trigger] entries[j]).name != name,
        },
{
    lemma_first_named(entries, name, 0);
}

/// The first entry with a name from some number on.
proof fn lemma_first_named(entries: Seq<DirentView>, name: Seq<char>, k: int)
    requires
        0 <= k <= entries.len(),
    ensures
        match crate::exfat::fs::dir::named_entry(entries, name, k) {
            Some(found) => k <= found < entries.len() && entries[found].name == name && forall|
                j: int,
            |
                k <= j < found ==> (#[trigger] entries[j]).name != name,
            None => forall|j: int| k <= j < entries.len() ==> (#[trigger] entries[j]).name != name,
        },
    decreases entries.len() - k,
{
    if k < entries.len() && entries[k].name != name {
        lemma_first_named(entries, name, k + 1);
    }
}

/// Nothing is listed behind the last entry of a directory, and nothing changes.
pub proof fn law_listed_behind_the_end(
    s: FsState,
    i: int,
    skipped: int,
    before: Seq<DirentView>,
)
    requires
        s.nodes[i].num_subdir <= skipped,
    ensures
        crate::exfat::fs::namei::listed(s, i, skipped, before) == (
            s,
            before,
            Ok::<usize, Errno>(0),
        ),
{
}

/// A directory that grows has as many bytes more as its new clusters have, all of them count as
/// written, and its new pages hold zeros. One that has as many entries as a directory may have
/// does not grow.
pub proof fn law_directory_grown(s: FsState, i: int, clusters: u32, want: int)
    requires
        0 <= i < s.nodes.len(),
    ensures
        ({
            let n = s.nodes[i];
            let (t, r) = crate::exfat::fs::dir::directory_grown(s, i, clusters);
            let m = t.nodes[i];
            r is Ok ==> {
                &&& m.size == n.size_allocated + s.vol.super_block.cluster_size * clusters
                &&& m.size_allocated == m.size
                &&& m.pages.len() >= m.size
                &&& forall|k: int|
                    0 <= k < m.pages.len() ==> #[trigger] m.pages[k] == (if k < n.pages.len() {
                        n.pages[k]
                    } else {
                        0u8
                    })
                &&& m.num_subdir == n.num_subdir
            }
        }),
        crate::exfat::fs::dir::free_slots(
            s.nodes[i].pages,
            s.nodes[i].size as int,
            want,
            0,
            0,
        ) == Ok::<Option<int>, Errno>(None) && s.nodes[i].size >= 8388608 * 32
            ==> crate::exfat::fs::dir::slots_found(s, i, want) == (
            s,
            Err::<usize, Errno>(Errno::ENOSPC),
        ),
{
    let n = s.nodes[i];
    let new_size = n.size_allocated + s.vol.super_block.cluster_size * clusters;
    assert(0 <= s.vol.super_block.cluster_size * clusters) by (nonlinear_arith);
    crate::arith::lemma_rounded_up(new_size, PAGE_SIZE as int);
}

/// A name needs two entries and one more for every fifteen bytes of it.
pub proof fn law_slots_wanted(name: Seq<char>)
    ensures
        ({
            let len = vstd::utf8::encode_utf8(name).len();
            let want = crate::exfat::fs::dir::slots_wanted(name);
            &&& 2 <= want
            &&& len <= 15 * (want - 2) < len + 15
        }),
{
    crate::arith::lemma_rounded_up(vstd::utf8::encode_utf8(name).len() as int, 15);
}

/// Deleting entries clears the highest bit of the first byte of each, leaves all other bytes of
/// the directory as they are, and leaves the directory with one file or directory less.
pub proof fn law_entries_deleted(s: FsState, i: int, offset: int, len: int)
    requires
        0 <= i < s.nodes.len(),
        0 <= offset,
        0 <= len,
        len % 32 == 0,
        crate::exfat::fs::dir::entries_deleted(s, i, offset, len).1 is Ok,
    ensures
        ({
            let n = s.nodes[i];
            let t = crate::exfat::fs::dir::entries_deleted(s, i, offset, len).0;
            let m = t.nodes[i];
            &&& m.pages.len() == n.pages.len()
            &&& forall|k: int|
                0 <= k < n.pages.len() && (k < offset || offset + len <= k || (k - offset) % 32
                    != 0) ==> #[trigger] m.pages[k] == n.pages[k]
            &&& forall|k: int|
                offset <= k < offset + len && (k - offset) % 32 == 0 ==> (#[trigger] m.pages[k])
                    < 0x80 && (m.pages[k] == n.pages[k] || m.pages[k] + 0x80 == n.pages[k])
            &&& n.num_subdir > 0 ==> m.num_subdir == n.num_subdir - 1
            &&& m.size == n.size && m.start_chain == n.start_chain
            &&& forall|j: int|
                0 <= j < s.nodes.len() && j != i ==> #[trigger] t.nodes[j] == s.nodes[j]
        }),
{
    reveal(crate::exfat::fs::dir::entries_deleted);
    let n = s.nodes[i];
    let set = n.pages.subrange(offset, offset + len);
    let m = crate::exfat::fs::dir::entries_deleted(s, i, offset, len).0.nodes[i];
    assert forall|k: int| offset <= k < offset + len && (k - offset) % 32 == 0 implies (
    #[trigger] m.pages[k]) < 0x80 && (m.pages[k] == n.pages[k] || m.pages[k] + 0x80
        == n.pages[k]) by {
        crate::exfat::laws::format::law_deleted_set(set, k - offset);
        crate::exfat::laws::format::law_deleted_type(set[k - offset]);
    }
}

} // verus!
