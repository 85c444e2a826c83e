//! The bitmap on the disk is the one in memory.

use vstd::prelude::*;
use crate::errno::Errno;
use crate::exfat::chain::ExfatChain;
use crate::exfat::constants::{DENTRY_SIZE, EXFAT_RESERVED_CLUSTERS, PAGE_SIZE};
use crate::exfat::fat::ClusterID;
use crate::exfat::fs::file::file_resized;
use crate::exfat::fs::FsState;
use crate::exfat::inode::InodeView;
use crate::exfat::laws::chain::{all_real, bitmap_begin, bitmap_len, is_chain, vol_ok};
use crate::exfat::laws::dir::dir_ok;
use crate::exfat::laws::direct::{on_disk, whole_pages};
use crate::exfat::laws::layout::Held;
use crate::exfat::laws::page::{data_ok, place_of};
use crate::exfat::laws::remove::clusters_for;
use crate::exfat::laws::sync::disjoint;
use crate::exfat::laws::write::{file_in, file_room};
use crate::exfat::volume::VolumeState;

verus! {

/// The clusters in which the bitmap lies.
pub open spec fn bitmap_clusters(v: VolumeState) -> Seq<ClusterID> {
    Seq::new(
        crate::arith::pieces(bitmap_len(v), v.super_block.cluster_size as int) as nat,
        |k: int| (v.bitmap_start + k) as ClusterID,
    )
}

/// Whether the bitmap on the disk is the one in memory.
pub open spec fn bitmap_in_step(v: VolumeState) -> bool {
    crate::exfat::volume::bitmap_on_disk(v, v.bitmap_start) == Ok::<Seq<bool>, Errno>(v.bits)
}

/// Where the bytes of the bitmap lie.
pub proof fn lemma_bitmap_place(v: VolumeState, at: int)
    requires
        v.super_block.wf(),
        EXFAT_RESERVED_CLUSTERS <= v.bitmap_start,
        all_real(v, bitmap_clusters(v)),
        0 <= at < bitmap_clusters(v).len() * v.super_block.cluster_size,
    ensures
        place_of(v.super_block, bitmap_clusters(v), at) == bitmap_begin(v) + at,
{
    let sb = v.super_block;
    let z = sb.cluster_size as int;
    let bs = bitmap_clusters(v);
    let n = bs.len() as int;
    crate::exfat::volume::lemma_cluster_size_positive(sb);
    assert(n * z == z * n) by (nonlinear_arith);
    vstd::arithmetic::div_mod::lemma_multiply_divide_lt(at, z, n);
    vstd::arithmetic::div_mod::lemma_div_pos_is_pos(at, z);
    vstd::arithmetic::div_mod::lemma_fundamental_div_mod(at, z);
    let k = at / z;
    assert(crate::exfat::laws::fat::real_cluster(v, bs[n - 1] as int));
    lemma_run(v, n);
    assert(bs[k] == v.bitmap_start + k);
    crate::exfat::laws::direct::lemma_cluster_offset(sb, v.bitmap_start as int);
    crate::exfat::laws::direct::lemma_cluster_offset(sb, v.bitmap_start + k);
    let b = v.bitmap_start - EXFAT_RESERVED_CLUSTERS;
    assert((b + k) * z == b * z + z * k) by (nonlinear_arith);
}

/// The clusters of the bitmap have numbers.
pub proof fn lemma_run(v: VolumeState, n: int)
    requires
        0 <= n <= bitmap_clusters(v).len(),
        EXFAT_RESERVED_CLUSTERS <= v.bitmap_start,
        all_real(v, bitmap_clusters(v)),
    ensures
        v.bitmap_start + n <= u32::MAX,
        forall|k: int|
            0 <= k < n ==> #[trigger] bitmap_clusters(v)[k] == v.bitmap_start + k,
    decreases n,
{
    if n > 0 {
        lemma_run(v, n - 1);
        let bs = bitmap_clusters(v);
        assert(crate::exfat::laws::fat::real_cluster(v, bs[n - 1] as int));
        assert(bs[n - 1] == (v.bitmap_start + (n - 1)) as ClusterID);
    }
}

/// Writing pages of a chain leaves the bitmap on the disk alone, if it lies elsewhere.
proof fn lemma_bitmap_beside(
    v: VolumeState,
    chain: ExfatChain,
    cs: Seq<ClusterID>,
    pages: Seq<u8>,
    idx: int,
    end: int,
)
    requires
        vol_ok(v),
        data_ok(v),
        whole_pages(v),
        is_chain(v, chain, cs),
        all_real(v, bitmap_clusters(v)),
        disjoint(cs, bitmap_clusters(v)),
        bitmap_in_step(v),
        0 <= idx,
        end * PAGE_SIZE <= pages.len() <= usize::MAX,
        end > 0 ==> (end - 1) * PAGE_SIZE < cs.len() * v.super_block.cluster_size,
    ensures
        bitmap_in_step(crate::exfat::page::pages_written(v, chain, pages, idx, end).0),
{
    let sb = v.super_block;
    let z = sb.cluster_size as int;
    let bs = bitmap_clusters(v);
    let n = bs.len() as int;
    let begin = bitmap_begin(v);
    let len = bitmap_len(v);
    crate::exfat::volume::lemma_cluster_size_positive(sb);
    crate::arith::lemma_rounded_up(v.bits.len() as int, 8);
    crate::arith::lemma_rounded_up(len, z);
    lemma_run(v, n);
    let other = Seq::new((n * z) as nat, |b: int| v.disk[begin + b]);
    assert(bs.no_duplicates());
    crate::exfat::laws::page::lemma_pages_written(v, chain, cs, pages, idx, end);
    crate::exfat::laws::sync::lemma_pages_beside(v, chain, cs, pages, idx, end, bs, other);
    let w = crate::exfat::page::pages_written(v, chain, pages, idx, end).0;
    assert forall|b: int| 0 <= b < len implies #[trigger] w.disk[begin + b] == v.disk[begin + b] by {
        let a = b / 4096;
        let f = z / 4096;
        assert(n * z == 4096 * (n * f)) by (nonlinear_arith)
            requires
                z == 4096 * f,
        ;
        assert((a + 1) * 4096 <= n * z);
        lemma_bitmap_place(v, a * 4096);
        assert(on_disk(v, bs, other, a)) by {
            assert forall|k: int| 0 <= k < PAGE_SIZE implies #[trigger] v.disk[place_of(
                sb,
                bs,
                a * PAGE_SIZE,
            ) + k] == other[a * PAGE_SIZE + k] by {
                assert(other[a * 4096 + k] == v.disk[begin + (a * 4096 + k)]);
            }
        }
        assert(on_disk(w, bs, other, a));
        let k = b % 4096;
        assert(w.disk[place_of(sb, bs, a * PAGE_SIZE) + k] == other[a * PAGE_SIZE + k]);
    }
    let after = w.disk.subrange(begin, begin + len);
    let before = v.disk.subrange(begin, begin + len);
    assert forall|b: int| 0 <= b < len implies #[trigger] after[b] == before[b] by {
        assert(w.disk[begin + b] == v.disk[begin + b]);
    }
    assert(after =~= before);
}

/// The bitmap on the disk is the one in memory after a file of a directory was written back.
proof fn lemma_written_in_step(
    s: FsState,
    p: int,
    cs: Seq<ClusterID>,
    es: Seq<Held>,
    k: int,
)
    requires
        dir_ok(s, p, cs, es),
        data_ok(s.vol),
        0 <= k < es.len(),
        whole_pages(s.vol),
        all_real(s.vol, bitmap_clusters(s.vol)),
        disjoint(cs, bitmap_clusters(s.vol)),
        bitmap_in_step(s.vol),
    ensures
        bitmap_in_step(crate::exfat::fs::file::inode_written(s, es[k].inode, true).0.vol),
{
    crate::exfat::laws::dir::lemma_dir_ok(s, p, cs, es);
    crate::exfat::laws::dir::lemma_dir_entry(s, p, cs, es, k);
    crate::exfat::laws::remove::lemma_written_steps(s, p, cs, es, k, true);
    let e = es[k];
    let set = crate::exfat::laws::remove::entries_in(s.nodes[p].pages, e);
    let n1 = crate::exfat::fs::file::without_lost_sizes(s.vol, s.nodes[es[k].inode]);
    crate::exfat::laws::remove::lemma_entries_of(set, n1);
    let s1 = crate::exfat::laws::remove::with_entries(
        s,
        p,
        e,
        n1,
        crate::exfat::fs::file::entries_of(set, n1),
    );
    let d = s1.nodes[p];
    let to = (e.slot + e.width) * DENTRY_SIZE;
    crate::arith::lemma_rounded_up(to, PAGE_SIZE as int);
    lemma_bitmap_beside(
        s1.vol,
        d.start_chain,
        cs,
        d.pages,
        e.slot * DENTRY_SIZE / (PAGE_SIZE as int),
        crate::arith::pieces(to, PAGE_SIZE as int),
    );
}

/// Where the bitmap on the disk is the one in memory, and lies apart from the clusters of
/// a directory, it still is after a file of the directory was resized: what a volume that
/// is opened again takes for free is free.
pub proof fn law_resize_keeps_bitmap_in_step(
    s: FsState,
    p: int,
    cs: Seq<ClusterID>,
    es: Seq<Held>,
    k: int,
    xs: Seq<ClusterID>,
    new_size: usize,
)
    requires
        file_in(s, p, cs, es, k, xs),
        file_room(s, xs, new_size as int),
        whole_pages(s.vol),
        all_real(s.vol, bitmap_clusters(s.vol)),
        disjoint(cs, bitmap_clusters(s.vol)),
        bitmap_in_step(s.vol),
    ensures
        file_resized(s, es[k].inode, new_size).1 == Ok::<(), Errno>(()),
        bitmap_in_step(file_resized(s, es[k].inode, new_size).0.vol),
{
    reveal(crate::exfat::fs::file::inode_resized);
    let c = es[k].inode;
    crate::exfat::laws::dir::lemma_dir_ok(s, p, cs, es);
    crate::exfat::laws::dir::lemma_dir_entry(s, p, cs, es, k);
    crate::exfat::laws::write::lemma_file_resized(s, p, cs, es, k, xs, new_size);
    crate::exfat::laws::remove::lemma_clusters_adjusted(s, p, cs, es, k, new_size, xs);
    let (s1, r1) = crate::exfat::fs::file::clusters_adjusted(s, c, new_size);
    lemma_adjusted_in_step(s, c, new_size, xs);
    let n2 = InodeView { size_allocated: new_size, ..s1.nodes[c] };
    let s2 = s1.with_node(c, n2);
    crate::exfat::laws::write::lemma_child_contents(s1, p, cs, es, k, n2);
    lemma_written_in_step(s2, p, cs, es, k);
}

/// The bitmap on the disk is the one in memory after an inode got as many clusters as it
/// wants.
proof fn lemma_adjusted_in_step(s: FsState, c: int, new_size: usize, xs: Seq<ClusterID>)
    requires
        0 <= c < s.nodes.len(),
        vol_ok(s.vol),
        is_chain(s.vol, s.nodes[c].start_chain, xs),
        0 <= clusters_for(s, new_size) <= u32::MAX,
        clusters_for(s, new_size) <= xs.len() + crate::exfat::bitmap::count_free(s.vol.bits),
        bitmap_in_step(s.vol),
    ensures
        ({
            let v = crate::exfat::fs::file::clusters_adjusted(s, c, new_size).0.vol;
            &&& bitmap_in_step(v)
            &&& v.bitmap_start == s.vol.bitmap_start
            &&& v.faults == s.vol.faults
            &&& v.super_block == s.vol.super_block
            &&& v.bits.len() == s.vol.bits.len()
            &&& v.disk.len() == s.vol.disk.len()
        }),
{
    let n = s.nodes[c];
    let want = clusters_for(s, new_size);
    let have = xs.len() as int;
    if want > have {
        crate::exfat::laws::chain::law_chain_extended(
            s.vol,
            n.start_chain,
            xs,
            (want - have) as u32,
            true,
        );
    } else if want < have {
        crate::exfat::laws::chain::law_chain_shortened(
            s.vol,
            n.start_chain,
            xs,
            (have - want) as u32,
            true,
        );
    }
}

/// The bitmap goes to the disk where that is asked for and what was done before succeeded, and
/// then the disk holds it; otherwise nothing changes.
pub proof fn law_bitmap_synced(v: VolumeState, done: Result<(), Errno>, sync: bool)
    requires
        crate::exfat::volume::bitmap_complete(v),
    ensures
        ({
            let (w, r) = crate::exfat::volume::bitmap_synced((v, done), sync);
            &&& done is Err ==> (w, r) == (v, done)
            &&& done is Ok && !sync ==> w == v && r is Ok
            &&& done is Ok && sync && r is Ok ==> crate::exfat::volume::bitmap_stored(
                w,
                v.bitmap_start,
            ) == Ok::<Seq<bool>, Errno>(v.bits)
            &&& w.bits == v.bits
        }),
{
    if crate::exfat::volume::bitmap_written(v).1 is Ok {
        crate::exfat::volume::law_bitmap_written(v);
    }
}

/// Marking a cluster, or the clusters of a range, is refused where the bitmap has no bit for
/// them, and changes the bitmap in memory and nothing else.
pub proof fn law_marked(
    v: VolumeState,
    cluster: ClusterID,
    clusters: core::ops::Range<ClusterID>,
    used: bool,
)
    ensures
        ({
            let (w, r) = crate::exfat::volume::cluster_marked(v, cluster, used);
            let n = v.bits.len() as int;
            &&& r is Ok <==> 2 <= cluster < n + 2
            &&& r is Err ==> w == v && r == Err::<(), Errno>(Errno::EINVAL)
            &&& r is Ok ==> w == (VolumeState { bits: v.bits.update(cluster - 2, used), ..v })
        }),
        ({
            let (w, r) = crate::exfat::volume::range_marked(v, clusters, used);
            let n = v.bits.len() as int;
            &&& r is Ok <==> 2 <= clusters.start <= clusters.end <= n + 2
            &&& r is Err ==> w == v && r == Err::<(), Errno>(Errno::EINVAL)
            &&& r is Ok ==> w == (VolumeState { bits: w.bits, ..v }) && w.bits.len() == n
                && forall|k: int|
                0 <= k < n ==> #[trigger] w.bits[k] == (if clusters.start <= k + 2 < clusters.end {
                    used
                } else {
                    v.bits[k]
                })
        }),
{
}

} // verus!
