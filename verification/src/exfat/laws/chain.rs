//! Chains: which clusters they have, and what growing and shrinking does to the others.

use vstd::prelude::*;
use crate::errno::Errno;
use crate::exfat::chain::ExfatChain;
use crate::exfat::constants::EXFAT_RESERVED_CLUSTERS;
use crate::exfat::fat::{
    ClusterID, FatChainFlags, FatValue, ALLOC_POSSIBLE, EXFAT_BAD_CLUSTER, EXFAT_FREE_CLUSTER,
};
use crate::exfat::volume::VolumeState;

verus! {

/// The FATs are where they should be, memory and disk agree on them, and the bitmap has
/// a bit for every cluster and lies on the disk.
pub open spec fn vol_ok(v: VolumeState) -> bool {
    &&& crate::exfat::laws::fat::fat_ok(v)
    &&& crate::exfat::volume::bitmap_complete(v)
    &&& EXFAT_RESERVED_CLUSTERS <= v.bitmap_start
    &&& bitmap_begin(v) + bitmap_len(v) <= v.disk.len()
    &&& v.super_block.num_clusters <= EXFAT_BAD_CLUSTER
}

/// Where on the disk the bitmap begins.
pub open spec fn bitmap_begin(v: VolumeState) -> int {
    crate::exfat::volume::cluster_offset(v.super_block, v.bitmap_start as int)
}

/// How many bytes the bitmap takes.
pub open spec fn bitmap_len(v: VolumeState) -> int {
    crate::arith::pieces(v.bits.len() as int, 8)
}

/// Whether a byte of the disk is one of the bitmap.
pub open spec fn in_bitmap(v: VolumeState, k: int) -> bool {
    bitmap_begin(v) <= k < bitmap_begin(v) + bitmap_len(v)
}

/// What the FAT on the disk says of a cluster.
pub open spec fn fat_of(v: VolumeState, cluster: ClusterID) -> Result<FatValue, Errno> {
    crate::exfat::volume::disk_fat(v, cluster)
}

/// Whether a cluster is there and in use.
pub open spec fn taken(v: VolumeState, cluster: ClusterID) -> bool {
    crate::exfat::laws::fat::real_cluster(v, cluster as int)
        && crate::exfat::bitmap::cluster_used(v.bits, cluster as int)
}

/// Whether a chain has the clusters `cs`: they are all different and in use, and where
/// they do not follow each other the FAT links them.
pub open spec fn is_chain(v: VolumeState, chain: ExfatChain, cs: Seq<ClusterID>) -> bool {
    &&& cs.len() == chain.num_clusters
    &&& cs.no_duplicates()
    &&& forall|k: int| 0 <= k < cs.len() ==> taken(v, #[trigger] cs[k])
    &&& cs.len() > 0 ==> cs[0] == chain.current
    &&& chain.flags.contiguous() ==> forall|k: int|
        0 <= k < cs.len() ==> #[trigger] cs[k] == chain.current + k
    &&& !chain.flags.contiguous() ==> linked(v, cs)
}

/// Whether the FAT links clusters, and ends behind the last.
pub open spec fn linked(v: VolumeState, cs: Seq<ClusterID>) -> bool {
    forall|k: int|
        0 <= k < cs.len() ==> fat_of(v, #[trigger] cs[k]) == Ok::<FatValue, Errno>(link(cs, k))
}

/// What the FAT says of the cluster with the number `k` of linked clusters.
#[verifier::opaque]
pub open spec fn link(cs: Seq<ClusterID>, k: int) -> FatValue {
    if k + 1 < cs.len() {
        FatValue::Next(cs[k + 1])
    } else {
        FatValue::EndOfChain
    }
}

/// Whether two states of a volume differ at most in the FAT entries and bits of the
/// clusters `cs`, in the bitmap on the disk, and in what is kept in memory.
pub open spec fn elsewhere_same(v: VolumeState, w: VolumeState, cs: Set<ClusterID>) -> bool {
    &&& w.super_block == v.super_block
    &&& w.faults == v.faults
    &&& w.bitmap_start == v.bitmap_start
    &&& w.disk.len() == v.disk.len()
    &&& w.bits.len() == v.bits.len()
    &&& forall|c: ClusterID|
        crate::exfat::laws::fat::real_cluster(v, c as int) && !cs.contains(c) ==> #[trigger] fat_of(
            w,
            c,
        ) == fat_of(v, c) && crate::exfat::bitmap::cluster_used(w.bits, c as int)
            == crate::exfat::bitmap::cluster_used(v.bits, c as int)
    &&& forall|k: int|
        v.super_block.data_start_sector * v.super_block.sector_size <= k < v.disk.len()
            && !in_bitmap(v, k) ==> #[trigger] w.disk[k] == v.disk[k]
}

/// Differing nowhere else is passed on.
pub proof fn lemma_elsewhere_same_chain(
    v: VolumeState,
    w: VolumeState,
    x: VolumeState,
    a: Set<ClusterID>,
    b: Set<ClusterID>,
    c: Set<ClusterID>,
)
    requires
        elsewhere_same(v, w, a),
        elsewhere_same(w, x, b),
        a.subset_of(c),
        b.subset_of(c),
    ensures
        elsewhere_same(v, x, c),
{
    assert forall|d: ClusterID|
        crate::exfat::laws::fat::real_cluster(v, d as int) && !c.contains(d) implies #[trigger] fat_of(
        x,
        d,
    ) == fat_of(v, d) && crate::exfat::bitmap::cluster_used(x.bits, d as int)
        == crate::exfat::bitmap::cluster_used(v.bits, d as int) by {
        assert(fat_of(w, d) == fat_of(v, d));
    }
    assert forall|k: int|
        v.super_block.data_start_sector * v.super_block.sector_size <= k < v.disk.len()
            && !in_bitmap(v, k) implies #[trigger] x.disk[k] == v.disk[k] by {
        assert(w.disk[k] == v.disk[k]);
    }
}

/// A chain stays one where nothing changes at its clusters.
pub proof fn law_chain_kept(
    v: VolumeState,
    w: VolumeState,
    chain: ExfatChain,
    cs: Seq<ClusterID>,
    changed: Set<ClusterID>,
)
    requires
        is_chain(v, chain, cs),
        elsewhere_same(v, w, changed),
        forall|k: int| 0 <= k < cs.len() ==> !changed.contains(#[trigger] cs[k]),
    ensures
        is_chain(w, chain, cs),
{
    assert forall|k: int| 0 <= k < cs.len() implies taken(w, #[trigger] cs[k]) && fat_of(w, cs[k])
        == fat_of(v, cs[k]) by {
        assert(taken(v, cs[k]));
    }
}

/// Flags for linked chains are not those for chains whose clusters follow each other.
pub proof fn lemma_alloc_possible()
    ensures
        !(FatChainFlags { bits: ALLOC_POSSIBLE }).contiguous(),
{
    assert(1u8 & 3u8 != 3u8) by (bit_vector);
}

/// Whether the FAT has entries for all of some clusters.
pub open spec fn all_real(v: VolumeState, cs: Seq<ClusterID>) -> bool {
    forall|k: int|
        0 <= k < cs.len() ==> crate::exfat::laws::fat::real_cluster(v, #[trigger] cs[k] as int)
}

/// The clusters of a chain have entries in the FAT.
pub proof fn lemma_chain_is_real(v: VolumeState, chain: ExfatChain, cs: Seq<ClusterID>)
    requires
        is_chain(v, chain, cs),
    ensures
        all_real(v, cs),
{
    assert forall|k: int| 0 <= k < cs.len() implies crate::exfat::laws::fat::real_cluster(
        v,
        #[trigger] cs[k] as int,
    ) by {
        assert(taken(v, cs[k]));
    }
}

/// Following the FAT along linked clusters reaches them one after the other.
pub proof fn lemma_walk_linked(v: VolumeState, cs: Seq<ClusterID>, from: int, steps: nat)
    requires
        vol_ok(v),
        linked(v, cs),
        all_real(v, cs),
        0 <= from,
        from + steps < cs.len(),
    ensures
        ({
            let (w, r) = crate::exfat::chain::fat_walk(v, cs[from], steps);
            &&& r == Ok::<ClusterID, Errno>(cs[from + steps])
            &&& w == (VolumeState { cache: w.cache, ..v })
            &&& vol_ok(w)
        }),
    decreases steps,
{
    if steps > 0 {
        assert(crate::exfat::laws::fat::real_cluster(v, cs[from] as int));
        crate::exfat::laws::fat::law_fat_read_coherent(v, cs[from]);
        let (w, r) = crate::exfat::volume::fat_read(v, cs[from]);
        assert(fat_of(v, cs[from]) == Ok::<FatValue, Errno>(link(cs, from)));
        assert(link(cs, from) == FatValue::Next(cs[from + 1])) by {
            reveal(link);
        }
        assert forall|k: int| 0 <= k < cs.len() implies fat_of(w, #[trigger] cs[k]) == fat_of(
            v,
            cs[k],
        ) by {}
        lemma_walk_linked(w, cs, from + 1, (steps - 1) as nat);
    }
}

/// The cluster with the number `k` of a chain is found, and looking for it changes
/// nothing but what is kept in memory.
pub proof fn law_chain_cluster(v: VolumeState, chain: ExfatChain, cs: Seq<ClusterID>, k: u32)
    requires
        vol_ok(v),
        is_chain(v, chain, cs),
        k < cs.len(),
    ensures
        ({
            let (w, r) = crate::exfat::chain::chain_cluster(v, chain, k);
            &&& r == Ok::<ClusterID, Errno>(cs[k as int])
            &&& w == (VolumeState { cache: w.cache, ..v })
            &&& vol_ok(w)
            &&& is_chain(w, chain, cs)
        }),
{
    assert(taken(v, cs[k as int]));
    lemma_chain_is_real(v, chain, cs);
    if !chain.flags.contiguous() {
        lemma_walk_linked(v, cs, 0, k as nat);
    }
    let (w, r) = crate::exfat::chain::chain_cluster(v, chain, k);
    law_chain_kept(v, w, chain, cs, Set::empty());
}

/// Taking a free cluster.
proof fn lemma_cluster_taken(v: VolumeState, tail: Option<ClusterID>)
    requires
        vol_ok(v),
        crate::exfat::bitmap::count_free(v.bits) > 0,
        tail matches Some(t) ==> taken(v, t),
    ensures
        ({
            let (w, r) = crate::exfat::chain::cluster_taken(v, tail);
            let changed = match tail {
                Some(t) => set![r->Ok_0, t],
                None => set![r->Ok_0],
            };
            &&& r is Ok
            &&& crate::exfat::laws::fat::real_cluster(v, r->Ok_0 as int)
            &&& !taken(v, r->Ok_0)
            &&& taken(w, r->Ok_0)
            &&& fat_of(w, r->Ok_0) == Ok::<FatValue, Errno>(FatValue::EndOfChain)
            &&& tail matches Some(t) ==> fat_of(w, t) == Ok::<FatValue, Errno>(
                FatValue::Next(r->Ok_0),
            ) && taken(w, t) && t != r->Ok_0
            &&& elsewhere_same(v, w, changed)
            &&& vol_ok(w)
            &&& crate::exfat::bitmap::count_free(w.bits) + 1
                == crate::exfat::bitmap::count_free(v.bits)
        }),
{
    let start = EXFAT_RESERVED_CLUSTERS as int;
    crate::exfat::bitmap::lemma_count_free_positive(v.bits, start);
    crate::exfat::bitmap::lemma_first_free_run(v.bits, start, 1);
    let found = crate::exfat::bitmap::first_free_run(v.bits, start, 1)->Some_0;
    assert(!crate::exfat::bitmap::cluster_used(v.bits, found));
    crate::exfat::bitmap::lemma_count_free_update(v.bits, found - EXFAT_RESERVED_CLUSTERS, true);
    let cluster = found as u32;
    let v1 = VolumeState {
        bits: crate::exfat::bitmap::with_cluster(v.bits, found, true),
        ..v
    };
    assert(crate::exfat::laws::fat::coherent(v1)) by {
        assert forall|j: int| 0 <= j < v1.cache.len() implies
            crate::exfat::laws::fat::entry_coherent(v1, #[trigger] v1.cache[j]) by {
            assert(crate::exfat::laws::fat::entry_coherent(v, v.cache[j]));
        }
    }
    crate::exfat::laws::fat::law_fat_write_coherent(v1, cluster, FatValue::EndOfChain);
    crate::exfat::laws::fat::law_fat_read_after_write(v1, cluster, FatValue::EndOfChain);
    crate::exfat::laws::fat::law_disk_fat_written(v1, cluster, FatValue::EndOfChain);
    let (v2, _) = crate::exfat::volume::fat_write(v1, cluster, FatValue::EndOfChain);
    assert(elsewhere_same(v, v2, set![cluster]));
    match tail {
        None => {},
        Some(t) => {
            let next = FatValue::Next(cluster);
            crate::exfat::laws::fat::law_fat_write_coherent(v2, t, next);
            crate::exfat::laws::fat::law_fat_read_after_write(v2, t, next);
            crate::exfat::laws::fat::law_disk_fat_written(v2, t, next);
            let (v3, _) = crate::exfat::volume::fat_write(v2, t, next);
            assert(elsewhere_same(v2, v3, set![t]));
            lemma_elsewhere_same_chain(v, v2, v3, set![cluster], set![t], set![cluster, t]);
            assert(fat_of(v3, cluster) == fat_of(v2, cluster));
        },
    }
}

/// The clusters of two lists.
pub open spec fn either(cs: Seq<ClusterID>, ds: Seq<ClusterID>) -> Set<ClusterID> {
    Set::new(|c: ClusterID| cs.contains(c) || ds.contains(c))
}

/// The last cluster of a chain, if it has one.
pub open spec fn last_of(cs: Seq<ClusterID>) -> Option<ClusterID> {
    if cs.len() > 0 {
        Some(cs.last())
    } else {
        None
    }
}

/// A chain with one more cluster.
proof fn lemma_one_more(
    v: VolumeState,
    w: VolumeState,
    chain: ExfatChain,
    cs: Seq<ClusterID>,
    c: ClusterID,
)
    requires
        is_chain(v, chain, cs),
        !chain.flags.contiguous(),
        cs.len() < u32::MAX,
        crate::exfat::laws::fat::real_cluster(v, c as int),
        !taken(v, c),
        taken(w, c),
        fat_of(w, c) == Ok::<FatValue, Errno>(FatValue::EndOfChain),
        last_of(cs) matches Some(t) ==> fat_of(w, t) == Ok::<FatValue, Errno>(FatValue::Next(c))
            && taken(w, t),
        elsewhere_same(
            v,
            w,
            match last_of(cs) {
                Some(t) => set![c, t],
                None => set![c],
            },
        ),
    ensures
        is_chain(
            w,
            ExfatChain {
                current: if last_of(cs) is Some {
                    chain.current
                } else {
                    c
                },
                num_clusters: (chain.num_clusters + 1) as u32,
                flags: chain.flags,
            },
            cs.push(c),
        ),
{
    let ds = cs.push(c);
    assert forall|k: int| 0 <= k < ds.len() implies taken(w, #[trigger] ds[k]) && fat_of(w, ds[k])
        == Ok::<FatValue, Errno>(link(ds, k)) by {
        reveal(link);
        if k < cs.len() {
            assert(taken(v, cs[k]));
            if k + 1 < cs.len() {
                assert(cs[k] != cs.last());
                assert(fat_of(w, cs[k]) == fat_of(v, cs[k]));
                assert(fat_of(v, cs[k]) == Ok::<FatValue, Errno>(link(cs, k)));
            } else {
                assert(cs[k] == cs.last());
            }
        }
    }
    assert forall|i: int, j: int| 0 <= i < ds.len() && 0 <= j < ds.len() && i != j implies ds[i]
        != ds[j] by {
        if i < cs.len() {
            assert(taken(v, cs[i]));
        }
        if j < cs.len() {
            assert(taken(v, cs[j]));
        }
    }
}

/// Taking clusters for a chain that the FAT links.
#[verifier::rlimit(30)]
proof fn lemma_clusters_appended(
    v: VolumeState,
    chain: ExfatChain,
    cs: Seq<ClusterID>,
    n: nat,
) -> (ds: Seq<ClusterID>)
    requires
        vol_ok(v),
        is_chain(v, chain, cs),
        !chain.flags.contiguous(),
        n <= crate::exfat::bitmap::count_free(v.bits),
        cs.len() + n <= u32::MAX,
    ensures
        ({
            let (w, chain1, r) = crate::exfat::chain::clusters_appended(
                v,
                chain,
                last_of(cs),
                n,
            );
            &&& r == Ok::<(), Errno>(())
            &&& ds.len() == n
            &&& is_chain(w, chain1, cs + ds)
            &&& chain1.flags == chain.flags
            &&& forall|k: int| 0 <= k < ds.len() ==> !taken(v, #[trigger] ds[k])
            &&& elsewhere_same(v, w, either(cs, ds))
            &&& vol_ok(w)
            &&& crate::exfat::bitmap::count_free(w.bits) + n
                == crate::exfat::bitmap::count_free(v.bits)
        }),
    decreases n,
{
    if n == 0 {
        assert(cs + Seq::<ClusterID>::empty() =~= cs);
        Seq::empty()
    } else {
        let tail = last_of(cs);
        if cs.len() > 0 {
            assert(taken(v, cs[cs.len() - 1]));
        }
        lemma_cluster_taken(v, tail);
        let (v1, r1) = crate::exfat::chain::cluster_taken(v, tail);
        let c = r1->Ok_0;
        lemma_one_more(v, v1, chain, cs, c);
        let chain1 = ExfatChain {
            current: if tail is Some {
                chain.current
            } else {
                c
            },
            num_clusters: (chain.num_clusters + 1) as u32,
            flags: chain.flags,
        };
        let cs1 = cs.push(c);
        let more = lemma_clusters_appended(v1, chain1, cs1, (n - 1) as nat);
        let ds = seq![c] + more;
        assert(cs1 + more =~= cs + ds);
        let (w, chain2, r) = crate::exfat::chain::clusters_appended(v, chain, tail, n);
        assert((w, chain2, r) == crate::exfat::chain::clusters_appended(
            v1,
            chain1,
            last_of(cs1),
            (n - 1) as nat,
        ));
        let changed = match tail {
            Some(t) => set![c, t],
            None => set![c],
        };
        assert forall|k: int| 0 <= k < ds.len() implies !taken(v, #[trigger] ds[k]) by {
            if k > 0 {
                assert(ds[k] == more[k - 1]);
                assert(!taken(v1, more[k - 1]));
                if taken(v, ds[k]) {
                    assert(fat_of(v1, ds[k]) == fat_of(v1, ds[k]));
                }
            }
        }
        assert(changed.subset_of(either(cs, ds))) by {
            assert(ds[0] == c);
            if cs.len() > 0 {
                assert(cs[cs.len() - 1] == cs.last());
            }
        }
        assert(either(cs1, more).subset_of(either(cs, ds))) by {
            assert forall|x: ClusterID| either(cs1, more).contains(x) implies #[trigger] either(
                cs,
                ds,
            ).contains(x) by {
                if cs1.contains(x) {
                    let k = choose|k: int| 0 <= k < cs1.len() && cs1[k] == x;
                    if k < cs.len() {
                        assert(cs[k] == x);
                    } else {
                        assert(ds[0] == x);
                    }
                } else {
                    let k = choose|k: int| 0 <= k < more.len() && more[k] == x;
                    assert(ds[k + 1] == x);
                }
            }
        }
        lemma_elsewhere_same_chain(v, v1, w, changed, either(cs1, more), either(cs, ds));
        ds
    }
}

/// Linking clusters that follow each other, from the one with the number `from` on.
proof fn lemma_linked_run(v: VolumeState, cs: Seq<ClusterID>, from: int)
    requires
        vol_ok(v),
        0 <= from < cs.len() <= u32::MAX,
        cs.no_duplicates(),
        forall|k: int| 0 <= k < cs.len() ==> taken(v, #[trigger] cs[k]),
        forall|k: int| 0 <= k < cs.len() ==> #[trigger] cs[k] == cs[0] + k,
    ensures
        ({
            let (w, r) = crate::exfat::chain::linked_run(
                v,
                cs[from],
                (cs.len() - from) as nat,
            );
            &&& r == Ok::<(), Errno>(())
            &&& vol_ok(w)
            &&& w.bits == v.bits
            &&& elsewhere_same(v, w, cs.skip(from).to_set())
            &&& forall|k: int|
                from <= k < cs.len() ==> fat_of(w, #[trigger] cs[k]) == Ok::<FatValue, Errno>(
                    link(cs, k),
                )
        }),
    decreases cs.len() - from,
{
    let first = cs[from];
    let n = (cs.len() - from) as nat;
    let value = link(cs, from);
    let changed = cs.skip(from).to_set();
    assert(taken(v, cs[from]));
    assert(cs.skip(from)[0] == first);
    assert(changed.contains(first));
    assert(value == (if n == 1 {
        FatValue::EndOfChain
    } else {
        FatValue::Next((first + 1) as u32)
    })) by {
        reveal(link);
        if n > 1 {
            assert(cs[from + 1] == cs[0] + (from + 1));
        }
    }
    if n > 1 {
        assert(taken(v, cs[from + 1]));
        assert(cs[from + 1] == cs[0] + (from + 1));
    }
    crate::exfat::laws::fat::law_fat_write_coherent(v, first, value);
    crate::exfat::laws::fat::law_fat_read_after_write(v, first, value);
    crate::exfat::laws::fat::law_disk_fat_written(v, first, value);
    let (v1, r1) = crate::exfat::volume::fat_write(v, first, value);
    assert(elsewhere_same(v, v1, changed));
    assert forall|k: int| 0 <= k < cs.len() implies taken(v1, #[trigger] cs[k]) by {
        assert(taken(v, cs[k]));
    }
    if n > 1 {
        let tail = cs.skip(from + 1);
        let rest = tail.to_set();
        lemma_linked_run(v1, cs, from + 1);
        let (w, r) = crate::exfat::chain::linked_run(v, first, n);
        assert((w, r) == crate::exfat::chain::linked_run(v1, cs[from + 1], (n - 1) as nat));
        assert(rest.subset_of(changed)) by {
            assert forall|c: ClusterID| rest.contains(c) implies #[trigger] changed.contains(c) by {
                let k = choose|k: int| 0 <= k < tail.len() && tail[k] == c;
                assert(cs.skip(from)[k + 1] == c);
            }
        }
        assert(!rest.contains(first)) by {
            if rest.contains(first) {
                let k = choose|k: int| 0 <= k < tail.len() && tail[k] == first;
                assert(cs[from + 1 + k] == cs[from]);
            }
        }
        assert(fat_of(w, first) == fat_of(v1, first));
        lemma_elsewhere_same_chain(v, v1, w, changed, rest, changed);
    } else {
        assert(crate::exfat::chain::linked_run(v1, (first + 1) as u32, 0).0 == v1);
    }
}

/// Clusters stay in use where the bitmap stays.
proof fn lemma_same_bits(v: VolumeState, w: VolumeState, cs: Seq<ClusterID>)
    requires
        w.bits == v.bits,
        w.super_block == v.super_block,
        forall|k: int| 0 <= k < cs.len() ==> taken(v, #[trigger] cs[k]),
    ensures
        forall|k: int| 0 <= k < cs.len() ==> taken(w, #[trigger] cs[k]),
{
    assert forall|k: int| 0 <= k < cs.len() implies taken(w, #[trigger] cs[k]) by {
        assert(taken(v, cs[k]));
    }
}

/// Has the FAT link the clusters of a chain.
proof fn lemma_chain_in_fat(v: VolumeState, chain: ExfatChain, cs: Seq<ClusterID>)
    requires
        vol_ok(v),
        is_chain(v, chain, cs),
        cs.len() > 0,
    ensures
        ({
            let (w, chain1, r) = crate::exfat::chain::chain_in_fat(v, chain);
            &&& r == Ok::<(), Errno>(())
            &&& is_chain(w, chain1, cs)
            &&& !chain1.flags.contiguous()
            &&& w.bits == v.bits
            &&& elsewhere_same(v, w, cs.to_set())
            &&& vol_ok(w)
        }),
{
    lemma_alloc_possible();
    let (w, chain1, r) = crate::exfat::chain::chain_in_fat(v, chain);
    if chain.flags.contiguous() {
        assert(taken(v, cs[cs.len() - 1]));
        assert(cs[cs.len() - 1] == chain.current + (cs.len() - 1));
        lemma_linked_run(v, cs, 0);
        assert(cs.skip(0) =~= cs);
        lemma_same_bits(v, w, cs);
    } else {
        assert(elsewhere_same(v, w, cs.to_set()));
    }
}

/// Adding clusters to a chain.
proof fn lemma_chain_grown(v: VolumeState, chain: ExfatChain, cs: Seq<ClusterID>, n: u32) -> (ds:
    Seq<ClusterID>)
    requires
        vol_ok(v),
        is_chain(v, chain, cs),
        n <= crate::exfat::bitmap::count_free(v.bits),
        cs.len() + n <= u32::MAX,
    ensures
        ({
            let (w, chain1, r) = crate::exfat::chain::chain_grown(v, chain, n);
            &&& r == Ok::<(), Errno>(())
            &&& ds.len() == n
            &&& is_chain(w, chain1, cs + ds)
            &&& forall|k: int| 0 <= k < ds.len() ==> !taken(v, #[trigger] ds[k])
            &&& elsewhere_same(v, w, either(cs, ds))
            &&& vol_ok(w)
            &&& crate::exfat::bitmap::count_free(w.bits) + n
                == crate::exfat::bitmap::count_free(v.bits)
        }),
{
    reveal(crate::exfat::chain::chain_grown);
    lemma_alloc_possible();
    let (w, chain9, r) = crate::exfat::chain::chain_grown(v, chain, n);
    if n == 0 {
        assert(cs + Seq::<ClusterID>::empty() =~= cs);
        Seq::empty()
    } else if cs.len() == 0 {
        let empty = ExfatChain {
            current: EXFAT_FREE_CLUSTER,
            num_clusters: 0,
            flags: (FatChainFlags { bits: ALLOC_POSSIBLE }),
        };
        assert(is_chain(v, empty, cs));
        lemma_clusters_appended(v, empty, cs, n as nat)
    } else {
        assert(taken(v, cs[0]));
        lemma_chain_in_fat(v, chain, cs);
        let (v1, chain1, r1) = crate::exfat::chain::chain_in_fat(v, chain);
        lemma_chain_is_real(v1, chain1, cs);
        lemma_walk_linked(v1, cs, 0, (cs.len() - 1) as nat);
        let (v2, r2) = crate::exfat::chain::fat_walk(
            v1,
            chain1.current,
            (chain1.num_clusters - 1) as nat,
        );
        law_chain_kept(v1, v2, chain1, cs, Set::empty());
        let ds = lemma_clusters_appended(v2, chain1, cs, n as nat);
        assert forall|k: int| 0 <= k < ds.len() implies !taken(v, #[trigger] ds[k]) by {
            assert(!taken(v2, ds[k]));
        }
        assert(elsewhere_same(v1, v2, Set::empty()));
        assert(cs.to_set().subset_of(either(cs, ds)));
        lemma_elsewhere_same_chain(
            v,
            v1,
            v2,
            cs.to_set(),
            Set::empty(),
            either(cs, ds),
        );
        lemma_elsewhere_same_chain(
            v,
            v2,
            w,
            either(cs, ds),
            either(cs, ds),
            either(cs, ds),
        );
        ds
    }
}

/// Writing the bitmap to the disk succeeds, and changes nothing else.
pub proof fn lemma_bitmap_written(v: VolumeState)
    requires
        vol_ok(v),
    ensures
        ({
            let (w, r) = crate::exfat::volume::bitmap_written(v);
            &&& r == Ok::<(), Errno>(())
            &&& w == (VolumeState { disk: w.disk, ..v })
            &&& w.disk.len() == v.disk.len()
            &&& crate::exfat::volume::bitmap_on_disk(w, v.bitmap_start) == Ok::<Seq<bool>, Errno>(
                v.bits,
            )
            &&& forall|k: int|
                0 <= k < v.disk.len() && !in_bitmap(v, k) ==> #[trigger] w.disk[k] == v.disk[k]
            &&& forall|k: int|
                0 <= k < v.super_block.data_start_sector * v.super_block.sector_size ==>
                    #[trigger] w.disk[k] == v.disk[k]
            &&& elsewhere_same(v, w, Set::empty())
            &&& vol_ok(w)
        }),
{
    let (w, r) = crate::exfat::volume::bitmap_written(v);
    let sb = v.super_block;
    let index = v.bitmap_start - EXFAT_RESERVED_CLUSTERS;
    let q = sb.sector_size as int;
    let m = sb.sect_per_cluster as int;
    let d = sb.data_start_sector as int;
    assert(0 <= d * q <= (index * m + d) * q) by (nonlinear_arith)
        requires
            0 <= index,
            0 <= m,
            0 <= q,
            0 <= d,
    ;
    crate::arith::lemma_rounded_up(v.bits.len() as int, 8);
    crate::exfat::volume::law_bitmap_written(v);
    assert forall|c: ClusterID| crate::exfat::laws::fat::real_cluster(v, c as int) implies
        #[trigger] fat_of(w, c) == fat_of(v, c) by {
        let p = crate::exfat::volume::fat_position(sb, sb.fat1_start_sector, c);
        crate::exfat::laws::fat::lemma_fat_position(v, sb.fat1_start_sector, c);
        assert(w.disk.subrange(p, p + 4) =~= v.disk.subrange(p, p + 4));
    }
    assert forall|j: int| 0 <= j < w.cache.len() implies crate::exfat::laws::fat::entry_coherent(
        w,
        #[trigger] w.cache[j],
    ) by {
        assert(crate::exfat::laws::fat::entry_coherent(v, v.cache[j]));
        assert(crate::exfat::laws::fat::real_cluster(v, v.cache[j].0 as int) ==> fat_of(
            w,
            v.cache[j].0,
        ) == fat_of(v, v.cache[j].0));
    }
}

/// Adding clusters to a chain succeeds where there are enough free ones: the chain then
/// has its clusters and as many more that were free, there are as many fewer free ones,
/// and nothing else changes.
pub proof fn law_chain_extended(
    v: VolumeState,
    chain: ExfatChain,
    cs: Seq<ClusterID>,
    n: u32,
    sync: bool,
) -> (ds: Seq<ClusterID>)
    requires
        vol_ok(v),
        is_chain(v, chain, cs),
        n <= crate::exfat::bitmap::count_free(v.bits),
        cs.len() + n <= u32::MAX,
    ensures
        ({
            let (w, chain1, r) = crate::exfat::chain::chain_extended(v, chain, n, sync);
            &&& r == Ok::<(), Errno>(())
            &&& ds.len() == n
            &&& is_chain(w, chain1, cs + ds)
            &&& forall|k: int| 0 <= k < ds.len() ==> !taken(v, #[trigger] ds[k])
            &&& elsewhere_same(v, w, either(cs, ds))
            &&& vol_ok(w)
            &&& crate::exfat::bitmap::count_free(w.bits) + n
                == crate::exfat::bitmap::count_free(v.bits)
            &&& sync ==> crate::exfat::volume::bitmap_on_disk(w, w.bitmap_start) == Ok::<
                Seq<bool>,
                Errno,
            >(w.bits)
        }),
{
    let ds = lemma_chain_grown(v, chain, cs, n);
    let (v1, chain1, r1) = crate::exfat::chain::chain_grown(v, chain, n);
    if sync {
        lemma_bitmap_written(v1);
        let w = crate::exfat::volume::bitmap_written(v1).0;
        law_chain_kept(v1, w, chain1, cs + ds, Set::empty());
        lemma_elsewhere_same_chain(v, v1, w, either(cs, ds), Set::empty(), either(cs, ds));
    }
    ds
}

/// Where there are not enough free clusters, nothing happens.
pub proof fn law_chain_extended_no_space(v: VolumeState, chain: ExfatChain, n: u32, sync: bool)
    requires
        n > crate::exfat::bitmap::count_free(v.bits),
    ensures
        crate::exfat::chain::chain_extended(v, chain, n, sync) == (
            v,
            chain,
            Err::<(), Errno>(Errno::ENOSPC),
        ),
{
    reveal(crate::exfat::chain::chain_grown);
}

/// Where the clusters of a chain are found.
pub open spec fn follows(v: VolumeState, flags: FatChainFlags, cs: Seq<ClusterID>) -> bool {
    &&& flags.contiguous() ==> forall|k: int|
        0 <= k < cs.len() ==> #[trigger] cs[k] == cs[0] + k
    &&& !flags.contiguous() ==> linked(v, cs)
}

/// Freeing the clusters of a chain from the one with the number `from` on.
proof fn lemma_clusters_freed(
    v: VolumeState,
    flags: FatChainFlags,
    cs: Seq<ClusterID>,
    from: int,
)
    requires
        vol_ok(v),
        all_real(v, cs),
        cs.no_duplicates(),
        follows(v, flags, cs),
        0 <= from < cs.len(),
        forall|k: int| from <= k < cs.len() ==> taken(v, #[trigger] cs[k]),
    ensures
        ({
            let (w, r) = crate::exfat::chain::clusters_freed(
                v,
                flags,
                cs[from],
                (cs.len() - from) as nat,
            );
            &&& r == Ok::<(), Errno>(())
            &&& w == (VolumeState { bits: w.bits, cache: w.cache, ..v })
            &&& w.bits.len() == v.bits.len()
            &&& vol_ok(w)
            &&& elsewhere_same(v, w, cs.skip(from).to_set())
            &&& forall|k: int| from <= k < cs.len() ==> !taken(w, #[trigger] cs[k])
            &&& crate::exfat::bitmap::count_free(w.bits) == crate::exfat::bitmap::count_free(
                v.bits,
            ) + (cs.len() - from)
        }),
    decreases cs.len() - from,
{
    let c = cs[from];
    let n = (cs.len() - from) as nat;
    let tail = cs.skip(from);
    assert(tail[0] == c);
    assert(taken(v, cs[from]));
    let one = ExfatChain { current: c, num_clusters: 0, flags };
    if n > 1 {
        if flags.contiguous() {
            assert(cs[from] == cs[0] + from);
            assert(cs[from + 1] == cs[0] + (from + 1));
            assert(crate::exfat::laws::fat::real_cluster(v, cs[from + 1] as int));
        } else {
            lemma_walk_linked(v, cs, from, 1);
        }
    }
    let (v1, r1) = if n == 1 {
        (v, Ok(c))
    } else {
        crate::exfat::chain::chain_cluster(v, one, 1)
    };
    assert(n > 1 ==> r1 == Ok::<ClusterID, Errno>(cs[from + 1]));
    let (v2, r2) = crate::exfat::volume::cluster_marked(v1, c, false);
    crate::exfat::bitmap::lemma_count_free_update(v.bits, c - EXFAT_RESERVED_CLUSTERS, false);
    assert(vol_ok(v2)) by {
        assert forall|j: int| 0 <= j < v2.cache.len() implies
            crate::exfat::laws::fat::entry_coherent(v2, #[trigger] v2.cache[j]) by {
            assert(crate::exfat::laws::fat::entry_coherent(v1, v1.cache[j]));
        }
    }
    assert(elsewhere_same(v, v2, tail.to_set())) by {
        assert forall|d: ClusterID|
            crate::exfat::laws::fat::real_cluster(v, d as int) && !tail.to_set().contains(
                d,
            ) implies #[trigger] fat_of(v2, d) == fat_of(v, d)
            && crate::exfat::bitmap::cluster_used(v2.bits, d as int)
            == crate::exfat::bitmap::cluster_used(v.bits, d as int) by {
            assert(tail.contains(c));
        }
    }
    if n > 1 {
        assert forall|k: int| from + 1 <= k < cs.len() implies taken(v2, #[trigger] cs[k]) by {
            assert(taken(v, cs[k]));
            assert(cs[k] != cs[from]);
        }
        assert forall|k: int| 0 <= k < cs.len() implies fat_of(v2, #[trigger] cs[k]) == fat_of(
            v,
            cs[k],
        ) by {}
        lemma_clusters_freed(v2, flags, cs, from + 1);
        let (w, r) = crate::exfat::chain::clusters_freed(v, flags, c, n);
        assert((w, r) == crate::exfat::chain::clusters_freed(
            v2,
            flags,
            cs[from + 1],
            (n - 1) as nat,
        ));
        let rest = cs.skip(from + 1);
        assert(rest.to_set().subset_of(tail.to_set())) by {
            assert forall|d: ClusterID| rest.to_set().contains(d) implies #[trigger] tail.to_set().contains(
                d,
            ) by {
                let k = choose|k: int| 0 <= k < rest.len() && rest[k] == d;
                assert(tail[k + 1] == d);
            }
        }
        assert(!rest.contains(c)) by {
            if rest.contains(c) {
                let k = choose|k: int| 0 <= k < rest.len() && rest[k] == c;
                assert(cs[from + 1 + k] == cs[from]);
            }
        }
        lemma_elsewhere_same_chain(v, v2, w, tail.to_set(), rest.to_set(), tail.to_set());
        assert(!taken(w, c)) by {
            assert(fat_of(w, c) == fat_of(v2, c));
        }
        assert forall|k: int| from <= k < cs.len() implies !taken(w, #[trigger] cs[k]) by {
            if k == from {
                assert(cs[k] == c);
            }
        }
    } else {
        assert(crate::exfat::chain::clusters_freed(v2, flags, c, 0).0 == v2);
        assert forall|k: int| from <= k < cs.len() implies !taken(v2, #[trigger] cs[k]) by {
            assert(cs[k] == c);
        }
    }
}

/// Taking clusters away from a chain.
proof fn lemma_chain_cut(v: VolumeState, chain: ExfatChain, cs: Seq<ClusterID>, n: u32)
    requires
        vol_ok(v),
        is_chain(v, chain, cs),
        n <= cs.len(),
    ensures
        ({
            let (w, chain1, r) = crate::exfat::chain::chain_cut(v, chain, n);
            let keep = cs.len() - n;
            &&& r == Ok::<(), Errno>(())
            &&& is_chain(w, chain1, cs.take(keep))
            &&& forall|k: int| keep <= k < cs.len() ==> !taken(w, #[trigger] cs[k])
            &&& elsewhere_same(v, w, cs.to_set())
            &&& vol_ok(w)
            &&& crate::exfat::bitmap::count_free(w.bits) == crate::exfat::bitmap::count_free(
                v.bits,
            ) + n
        }),
{
    reveal(crate::exfat::chain::chain_cut);
    let (w, chain1, r) = crate::exfat::chain::chain_cut(v, chain, n);
    let keep = cs.len() - n;
    lemma_chain_is_real(v, chain, cs);
    if n == 0 {
        assert(cs.take(keep) =~= cs);
    } else {
        law_chain_cluster(v, chain, cs, keep as u32);
        let (v1, r1) = crate::exfat::chain::chain_cluster(v, chain, keep as u32);
        lemma_chain_is_real(v1, chain, cs);
        lemma_clusters_freed(v1, chain.flags, cs, keep);
        let (v2, r2) = crate::exfat::chain::clusters_freed(
            v1,
            chain.flags,
            cs[keep],
            n as nat,
        );
        assert(elsewhere_same(v, v1, Set::empty()));
        assert(cs.skip(keep).to_set().subset_of(cs.to_set())) by {
            let tail = cs.skip(keep);
            assert forall|d: ClusterID| tail.to_set().contains(d) implies #[trigger] cs.to_set().contains(
                d,
            ) by {
                let k = choose|k: int| 0 <= k < tail.len() && tail[k] == d;
                assert(cs[keep + k] == d);
            }
        }
        lemma_elsewhere_same_chain(
            v,
            v1,
            v2,
            Set::empty(),
            cs.skip(keep).to_set(),
            cs.to_set(),
        );
        lemma_first_clusters_stay(v, v2, chain, cs, keep);
        if keep > 0 && !chain.flags.contiguous() {
            lemma_end_moved(v, v2, w, chain, cs, keep);
        }
    }
}

/// Taking clusters away from the end of a chain succeeds: the chain then has its first
/// clusters only, the others are free, and nothing else changes.
pub proof fn law_chain_shortened(
    v: VolumeState,
    chain: ExfatChain,
    cs: Seq<ClusterID>,
    n: u32,
    sync: bool,
)
    requires
        vol_ok(v),
        is_chain(v, chain, cs),
        n <= cs.len(),
    ensures
        ({
            let (w, chain1, r) = crate::exfat::chain::chain_shortened(v, chain, n, sync);
            let keep = cs.len() - n;
            &&& r == Ok::<(), Errno>(())
            &&& is_chain(w, chain1, cs.take(keep))
            &&& forall|k: int| keep <= k < cs.len() ==> !taken(w, #[trigger] cs[k])
            &&& elsewhere_same(v, w, cs.to_set())
            &&& vol_ok(w)
            &&& crate::exfat::bitmap::count_free(w.bits) == crate::exfat::bitmap::count_free(
                v.bits,
            ) + n
            &&& sync ==> crate::exfat::volume::bitmap_on_disk(w, w.bitmap_start) == Ok::<
                Seq<bool>,
                Errno,
            >(w.bits)
        }),
{
    lemma_chain_cut(v, chain, cs, n);
    let (v1, chain1, r1) = crate::exfat::chain::chain_cut(v, chain, n);
    let keep = cs.len() - n;
    if sync {
        lemma_bitmap_written(v1);
        let w = crate::exfat::volume::bitmap_written(v1).0;
        law_chain_kept(v1, w, chain1, cs.take(keep), Set::empty());
        lemma_elsewhere_same_chain(v, v1, w, cs.to_set(), Set::empty(), cs.to_set());
        assert forall|k: int| keep <= k < cs.len() implies !taken(w, #[trigger] cs[k]) by {
            assert(!taken(v1, cs[k]));
        }
    }
}

/// The first clusters of a chain stay in use when those behind them are freed.
proof fn lemma_first_clusters_stay(
    v: VolumeState,
    w: VolumeState,
    chain: ExfatChain,
    cs: Seq<ClusterID>,
    keep: int,
)
    requires
        is_chain(v, chain, cs),
        0 <= keep < cs.len(),
        elsewhere_same(v, w, cs.skip(keep).to_set()),
    ensures
        forall|k: int|
            0 <= k < keep ==> taken(w, #[trigger] cs[k]) && fat_of(w, cs[k]) == fat_of(v, cs[k]),
        chain.flags.contiguous() ==> is_chain(
            w,
            ExfatChain { num_clusters: keep as u32, ..chain },
            cs.take(keep),
        ),
{
    let tail = cs.skip(keep);
    assert forall|k: int| 0 <= k < keep implies taken(w, #[trigger] cs[k]) && fat_of(w, cs[k])
        == fat_of(v, cs[k]) by {
        assert(taken(v, cs[k]));
        assert(!tail.contains(cs[k])) by {
            if tail.contains(cs[k]) {
                let j = choose|j: int| 0 <= j < tail.len() && tail[j] == cs[k];
                assert(cs[keep + j] == cs[k]);
            }
        }
    }
    if chain.flags.contiguous() {
        let ds = cs.take(keep);
        assert forall|k: int| 0 <= k < ds.len() implies taken(w, #[trigger] ds[k]) && ds[k]
            == chain.current + k by {
            assert(ds[k] == cs[k]);
        }
    }
}

/// Writing the FAT entry of a cluster changes nothing elsewhere.
proof fn lemma_entry_written(v: VolumeState, t: ClusterID, value: FatValue)
    requires
        vol_ok(v),
        crate::exfat::laws::fat::real_cluster(v, t as int),
        crate::exfat::laws::fat::storable(value),
    ensures
        ({
            let (w, r) = crate::exfat::volume::fat_write(v, t, value);
            &&& r == Ok::<(), Errno>(())
            &&& vol_ok(w)
            &&& w.bits == v.bits
            &&& fat_of(w, t) == Ok::<FatValue, Errno>(value)
            &&& elsewhere_same(v, w, set![t])
        }),
{
    crate::exfat::laws::fat::law_fat_write_coherent(v, t, value);
    crate::exfat::laws::fat::law_fat_read_after_write(v, t, value);
    crate::exfat::laws::fat::law_disk_fat_written(v, t, value);
}

/// Linked clusters whose first part ends now are linked up to there.
proof fn lemma_linked_part(
    v2: VolumeState,
    w: VolumeState,
    cs: Seq<ClusterID>,
    keep: int,
)
    requires
        cs.no_duplicates(),
        0 < keep <= cs.len(),
        linked(v2, cs),
        all_real(v2, cs),
        fat_of(w, cs[keep - 1]) == Ok::<FatValue, Errno>(FatValue::EndOfChain),
        elsewhere_same(v2, w, set![cs[keep - 1]]),
    ensures
        linked(w, cs.take(keep)),
{
    let ds = cs.take(keep);
    assert forall|k: int| 0 <= k < ds.len() implies fat_of(w, #[trigger] ds[k]) == Ok::<
        FatValue,
        Errno,
    >(link(ds, k)) by {
        reveal(link);
        assert(ds[k] == cs[k]);
        if k + 1 < keep {
            assert(cs[k] != cs[keep - 1]);
            assert(crate::exfat::laws::fat::real_cluster(v2, cs[k] as int));
            assert(fat_of(w, cs[k]) == fat_of(v2, cs[k]));
            assert(fat_of(v2, cs[k]) == Ok::<FatValue, Errno>(link(cs, k)));
        }
    }
}

/// The end of a linked chain moves to the cluster before those that were freed.
proof fn lemma_end_moved(
    v: VolumeState,
    v2: VolumeState,
    w: VolumeState,
    chain: ExfatChain,
    cs: Seq<ClusterID>,
    keep: int,
)
    requires
        is_chain(v, chain, cs),
        !chain.flags.contiguous(),
        0 < keep < cs.len(),
        vol_ok(v2),
        elsewhere_same(v, v2, cs.to_set()),
        all_real(v2, cs),
        linked(v2, cs),
        forall|k: int|
            0 <= k < keep ==> taken(v2, #[trigger] cs[k]) && fat_of(v2, cs[k]) == fat_of(v, cs[k]),
        forall|k: int| keep <= k < cs.len() ==> !taken(v2, #[trigger] cs[k]),
        ({
            let (v3, r3) = crate::exfat::chain::fat_walk(v2, chain.current, (keep - 1) as nat);
            r3 is Ok ==> w == crate::exfat::volume::fat_write(
                v3,
                r3->Ok_0,
                FatValue::EndOfChain,
            ).0
        }),
    ensures
        ({
            let (v3, r3) = crate::exfat::chain::fat_walk(v2, chain.current, (keep - 1) as nat);
            &&& r3 == Ok::<ClusterID, Errno>(cs[keep - 1])
            &&& crate::exfat::volume::fat_write(v3, cs[keep - 1], FatValue::EndOfChain).1 == Ok::<
                (),
                Errno,
            >(())
        }),
        is_chain(w, ExfatChain { num_clusters: keep as u32, ..chain }, cs.take(keep)),
        vol_ok(w),
        w.bits == v2.bits,
        elsewhere_same(v, w, cs.to_set()),
        forall|k: int| keep <= k < cs.len() ==> !taken(w, #[trigger] cs[k]),
{
    lemma_walk_linked(v2, cs, 0, (keep - 1) as nat);
    let (v3, r3) = crate::exfat::chain::fat_walk(v2, chain.current, (keep - 1) as nat);
    let t = cs[keep - 1];
    assert(taken(v2, cs[keep - 1]));
    lemma_entry_written(v3, t, FatValue::EndOfChain);
    assert(elsewhere_same(v2, w, set![t])) by {
        assert forall|c: ClusterID| #[trigger] fat_of(v3, c) == fat_of(v2, c) by {}
    }
    assert(cs.to_set().contains(t)) by {
        assert(cs[keep - 1] == t);
    }
    lemma_elsewhere_same_chain(v, v2, w, cs.to_set(), set![t], cs.to_set());
    lemma_linked_part(v2, w, cs, keep);
    let ds = cs.take(keep);
    assert forall|k: int| 0 <= k < ds.len() implies taken(w, #[trigger] ds[k]) by {
        assert(ds[k] == cs[k]);
        assert(taken(v2, cs[k]));
    }
    assert forall|k: int| keep <= k < cs.len() implies !taken(w, #[trigger] cs[k]) by {
        assert(!taken(v2, cs[k]));
    }
}

/// Counting clusters that the FAT links counts each of them.
proof fn lemma_linked_counted(v: VolumeState, cs: Seq<ClusterID>, k: int, fuel: nat)
    requires
        crate::exfat::laws::fat::fat_ok(v),
        all_real(v, cs),
        linked(v, cs),
        0 <= k < cs.len(),
        cs.len() - k <= fuel,
    ensures
        crate::exfat::chain::fat_count(v, cs[k], k as nat, fuel).1 == Ok::<nat, Errno>(cs.len()),
    decreases fuel,
{
    reveal(link);
    assert(crate::exfat::laws::fat::real_cluster(v, cs[k] as int));
    crate::exfat::laws::fat::law_fat_read_coherent(v, cs[k]);
    assert(fat_of(v, cs[k]) == Ok::<FatValue, Errno>(link(cs, k)));
    if k + 1 < cs.len() {
        let w = crate::exfat::volume::fat_read(v, cs[k]).0;
        assert forall|j: int| 0 <= j < cs.len() implies fat_of(w, #[trigger] cs[j]) == Ok::<
            FatValue,
            Errno,
        >(link(cs, j)) by {
            assert(fat_of(v, cs[j]) == Ok::<FatValue, Errno>(link(cs, j)));
        }
        lemma_linked_counted(w, cs, k + 1, (fuel - 1) as nat);
    }
}

/// The chain that begins at a cluster has as many clusters as the FAT links from there on, or
/// as many as are given; where the number is none of a cluster, it has none.
pub proof fn law_chain_counted(
    v: VolumeState,
    cs: Seq<ClusterID>,
    flags: crate::exfat::fat::FatChainFlags,
    given: u32,
)
    requires
        crate::exfat::laws::fat::fat_ok(v),
        all_real(v, cs),
        linked(v, cs),
        0 < cs.len() <= v.super_block.num_clusters,
        !flags.contiguous(),
    ensures
        crate::exfat::chain::chain_new(v, cs[0], None, flags).1 == Ok::<ExfatChain, Errno>(
            ExfatChain { current: cs[0], num_clusters: cs.len() as u32, flags },
        ),
        crate::exfat::chain::chain_new(v, cs[0], Some(given), flags) == (
            v,
            Ok::<ExfatChain, Errno>(ExfatChain { current: cs[0], num_clusters: given, flags }),
        ),
        crate::exfat::chain::chain_new(v, 0, Some(given), flags) == (
            v,
            Ok::<ExfatChain, Errno>(ExfatChain { current: 0, num_clusters: 0, flags }),
        ),
{
    assert(crate::exfat::laws::fat::real_cluster(v, cs[0] as int));
    lemma_linked_counted(v, cs, 0, v.super_block.num_clusters as nat);
}

/// The rest of a chain behind some of its clusters has the other clusters.
pub proof fn law_chain_walked(v: VolumeState, chain: ExfatChain, cs: Seq<ClusterID>, k: u32)
    requires
        vol_ok(v),
        is_chain(v, chain, cs),
        k < cs.len(),
    ensures
        ({
            let (w, r) = crate::exfat::chain::chain_walk(v, chain, k);
            &&& r is Ok
            &&& r->Ok_0.current == cs[k as int]
            &&& r->Ok_0.num_clusters == cs.len() - k
            &&& r->Ok_0.flags == chain.flags
            &&& is_chain(w, r->Ok_0, cs.skip(k as int))
            &&& vol_ok(w)
        }),
{
    law_chain_cluster(v, chain, cs, k);
    let (w, r) = crate::exfat::chain::chain_walk(v, chain, k);
    let rest = cs.skip(k as int);
    assert forall|j: int| 0 <= j < rest.len() implies taken(w, #[trigger] rest[j]) by {
        assert(taken(w, cs[k + j]));
    }
    if chain.flags.contiguous() {
        assert forall|j: int| 0 <= j < rest.len() implies #[trigger] rest[j] == r->Ok_0.current
            + j by {
            assert(cs[k + j] == chain.current + (k + j));
            assert(cs[k as int] == chain.current + k);
        }
    } else {
        reveal(link);
        assert forall|j: int| 0 <= j < rest.len() implies fat_of(w, #[trigger] rest[j]) == Ok::<
            FatValue,
            Errno,
        >(link(rest, j)) by {
            assert(fat_of(w, cs[k + j]) == Ok::<FatValue, Errno>(link(cs, k + j)));
        }
    }
}

/// The byte with the number `offset` of a chain lies in the cluster with as many clusters before
/// it as there are whole clusters before the byte, and as far from its beginning as the rest
/// says.
pub proof fn law_chain_walked_to_byte(
    v: VolumeState,
    chain: ExfatChain,
    cs: Seq<ClusterID>,
    offset: usize,
)
    requires
        vol_ok(v),
        is_chain(v, chain, cs),
        offset < cs.len() * v.super_block.cluster_size,
    ensures
        ({
            let z = v.super_block.cluster_size as int;
            let r = crate::exfat::chain::chain_walk_to_offset(v, chain, offset).1;
            &&& r is Ok
            &&& 0 <= r->Ok_0.1 < z
            &&& exists|k: int|
                0 <= k < cs.len() && offset == k * z + r->Ok_0.1 && r->Ok_0.0.current
                    == #[trigger] cs[k] && r->Ok_0.0.num_clusters == cs.len() - k
        }),
{
    let z = v.super_block.cluster_size as int;
    let n = cs.len() as int;
    let at = offset as int;
    crate::exfat::volume::lemma_cluster_size_positive(v.super_block);
    assert(n * z == z * n) by (nonlinear_arith);
    vstd::arithmetic::div_mod::lemma_multiply_divide_lt(at, z, n);
    vstd::arithmetic::div_mod::lemma_div_pos_is_pos(at, z);
    vstd::arithmetic::div_mod::lemma_fundamental_div_mod(at, z);
    vstd::arithmetic::div_mod::lemma_mod_bound(at, z);
    let k = at / z;
    law_chain_walked(v, chain, cs, k as u32);
    assert(at == k * z + at % z) by (nonlinear_arith)
        requires
            at == z * k + at % z,
    ;
    assert(cs[k] == cs[k]);
}

/// A chain from which clusters are taken away has as many fewer, begins with the same one and is
/// linked in the same way; one that loses all of them begins with none. No more can be taken
/// away than it has.
pub proof fn law_chain_lengths(v: VolumeState, chain: ExfatChain, n: u32, sync: bool)
    ensures
        ({
            let (w, chain1, r) = crate::exfat::chain::chain_shortened(v, chain, n, sync);
            &&& n > chain.num_clusters ==> (w, chain1) == (v, chain) && r == Err::<(), Errno>(
                Errno::EINVAL,
            )
            &&& r is Ok ==> chain1.num_clusters == chain.num_clusters - n && chain1.flags
                == chain.flags
            &&& r is Ok && n < chain.num_clusters ==> chain1.current == chain.current
            &&& r is Ok && 0 < n && n == chain.num_clusters ==> chain1.current == 0
        }),
{
    reveal(crate::exfat::chain::chain_cut);
}

} // verus!
