//! Pages: where they lie on the disk, and what writing them leaves alone.

use vstd::prelude::*;
use crate::errno::Errno;
use crate::exfat::chain::ExfatChain;
use crate::exfat::constants::{EXFAT_RESERVED_CLUSTERS, PAGE_SIZE};
use crate::exfat::fat::ClusterID;
use crate::exfat::laws::chain::{is_chain, taken, vol_ok};
use crate::exfat::super_block::ExfatSuperBlock;
use crate::exfat::volume::VolumeState;

verus! {

/// Where the clusters begin on the disk.
pub open spec fn data_start(sb: ExfatSuperBlock) -> int {
    sb.data_start_sector * sb.sector_size
}

/// The clusters begin with a block of the disk, and the disk has all blocks in which
/// they lie.
pub open spec fn data_ok(v: VolumeState) -> bool {
    &&& data_start(v.super_block) % (PAGE_SIZE as int) == 0
    &&& crate::arith::rounded_up(
        crate::exfat::volume::cluster_offset(
            v.super_block,
            v.super_block.num_clusters as int,
        ),
        PAGE_SIZE as int,
    ) <= v.disk.len()
}

/// Whether two states of a volume differ at most in the clusters and in what is kept in
/// memory.
pub open spec fn fat_kept(v: VolumeState, w: VolumeState) -> bool {
    &&& w.super_block == v.super_block
    &&& w.faults == v.faults
    &&& w.disk.len() == v.disk.len()
    &&& w.bits == v.bits
    &&& w.bitmap_start == v.bitmap_start
    &&& forall|k: int| 0 <= k < data_start(v.super_block) ==> #[trigger] w.disk[k] == v.disk[k]
}

/// Where on the disk the byte with the number `at` of clusters lies.
pub open spec fn place_of(sb: ExfatSuperBlock, cs: Seq<ClusterID>, at: int) -> int {
    crate::exfat::volume::cluster_offset(sb, cs[at / (sb.cluster_size as int)] as int) + at % (
    sb.cluster_size as int)
}

/// The FAT lies before the clusters.
pub proof fn lemma_fat_kept(v: VolumeState, w: VolumeState)
    requires
        vol_ok(v),
        fat_kept(v, w),
    ensures
        forall|c: ClusterID|
            crate::exfat::laws::fat::real_cluster(v, c as int) ==> #[trigger]
            crate::exfat::volume::disk_fat(w, c) == crate::exfat::volume::disk_fat(v, c),
        w.cache == v.cache ==> vol_ok(w),
{
    let sb = v.super_block;
    assert forall|c: ClusterID| crate::exfat::laws::fat::real_cluster(v, c as int) implies
        #[trigger] crate::exfat::volume::disk_fat(w, c) == crate::exfat::volume::disk_fat(v, c) by {
        let q = crate::exfat::volume::fat_position(sb, sb.fat1_start_sector, c);
        crate::exfat::laws::fat::lemma_fat_position(v, sb.fat1_start_sector, c);
        assert(w.disk.subrange(q, q + 4) =~= v.disk.subrange(q, q + 4));
    }
    if w.cache == v.cache {
        assert forall|j: int| 0 <= j < w.cache.len() implies
            crate::exfat::laws::fat::entry_coherent(w, #[trigger] w.cache[j]) by {
            assert(crate::exfat::laws::fat::entry_coherent(v, v.cache[j]));
        }
    }
}

/// A chain stays one where the FAT and the bitmap stay.
pub proof fn lemma_chain_kept(v: VolumeState, w: VolumeState, chain: ExfatChain, cs: Seq<ClusterID>)
    requires
        vol_ok(v),
        fat_kept(v, w),
        is_chain(v, chain, cs),
    ensures
        is_chain(w, chain, cs),
{
    lemma_fat_kept(v, w);
    assert forall|k: int| 0 <= k < cs.len() implies taken(w, #[trigger] cs[k])
        && crate::exfat::laws::chain::fat_of(w, cs[k]) == crate::exfat::laws::chain::fat_of(
        v,
        cs[k],
    ) by {
        assert(taken(v, cs[k]));
    }
}

/// A sector of a chain is found where its cluster lies.
pub proof fn lemma_sector_of(
    v: VolumeState,
    chain: ExfatChain,
    cs: Seq<ClusterID>,
    sector_id: usize,
)
    requires
        vol_ok(v),
        is_chain(v, chain, cs),
        sector_id < cs.len() * v.super_block.sect_per_cluster,
        sector_id * v.super_block.sector_size <= usize::MAX,
    ensures
        ({
            let sb = v.super_block;
            let k = sector_id as int / (sb.sect_per_cluster as int);
            let (w, r) = crate::exfat::page::sector_of(v, chain, sector_id);
            &&& 0 <= k < cs.len()
            &&& r is Ok
            &&& r->Ok_0 * sb.sector_size == place_of(sb, cs, sector_id * sb.sector_size)
            &&& k == sector_id * sb.sector_size / (sb.cluster_size as int)
            &&& w == (VolumeState { cache: w.cache, ..v })
            &&& vol_ok(w)
            &&& is_chain(w, chain, cs)
        }),
{
    let sb = v.super_block;
    let q = sb.sector_size as int;
    let m = sb.sect_per_cluster as int;
    let sid = sector_id as int;
    let k = sid / m;
    let n = cs.len() as int;
    assert(n * m == m * n) by (nonlinear_arith);
    vstd::arithmetic::div_mod::lemma_multiply_divide_lt(sid, m, n);
    vstd::arithmetic::div_mod::lemma_div_pos_is_pos(sid, m);
    assert(0 <= sid * q) by (nonlinear_arith)
        requires
            0 <= sid,
            0 <= q,
    ;
    vstd::arithmetic::div_mod::lemma_div_denominator(sid * q, q, m);
    vstd::arithmetic::div_mod::lemma_div_by_multiple(sid, q);
    assert((sid * q) / (q * m) == k);
    let offset = (sector_id * sb.sector_size) as usize;
    crate::exfat::laws::chain::law_chain_cluster(v, chain, cs, k as u32);
    let (v1, r1) = crate::exfat::chain::chain_walk_to_offset(v, chain, offset);
    crate::exfat::laws::chain::law_chain_cluster(v1, chain, cs, k as u32);
    let c = cs[k];
    assert(taken(v, cs[k]));
    let within = sid % m;
    vstd::arithmetic::div_mod::lemma_mod_bound(sid, m);
    crate::exfat::page::lemma_sector_bound(sb, c - EXFAT_RESERVED_CLUSTERS, within);
    let index = (c - EXFAT_RESERVED_CLUSTERS) as int;
    let d = sb.data_start_sector as int;
    assert((index * m + d + within) * q == (index * m + d) * q + within * q) by (nonlinear_arith);
    vstd::arithmetic::div_mod::lemma_fundamental_div_mod(sid, m);
    vstd::arithmetic::div_mod::lemma_fundamental_div_mod(sid * q, q * m);
    assert((sid * q) % (q * m) == within * q) by (nonlinear_arith)
        requires
            sid == m * k + within,
            sid * q == (q * m) * k + (sid * q) % (q * m),
    ;
}

/// The number of the cluster up to which a chain grows for a sector.
pub open spec fn last_cluster_of(sb: ExfatSuperBlock, sector_id: usize, alloc_page: bool) -> int {
    crate::exfat::page::last_sector_of(sb, sector_id, alloc_page) / (sb.sect_per_cluster as int)
}

/// Finding a sector of a chain, which grows where it does not have it, gives the sector on
/// the disk where the cluster of the sector lies, which is the one that is found
/// afterwards. The clusters that the chain had stay, so that a sector that was there is
/// found in the same place whether or not whole pages are made.
pub proof fn law_sector_got(
    v: VolumeState,
    chain: ExfatChain,
    cs: Seq<ClusterID>,
    sector_id: usize,
    alloc_page: bool,
) -> (ds: Seq<ClusterID>)
    requires
        vol_ok(v),
        is_chain(v, chain, cs),
        sector_id * v.super_block.sector_size <= usize::MAX,
        crate::exfat::page::last_sector_of(v.super_block, sector_id, alloc_page) <= u32::MAX,
        last_cluster_of(v.super_block, sector_id, alloc_page) < u32::MAX,
        last_cluster_of(v.super_block, sector_id, alloc_page) < cs.len()
            + crate::exfat::bitmap::count_free(v.bits),
    ensures
        ({
            let sb = v.super_block;
            let (w, chain1, r) = crate::exfat::page::sector_got(v, chain, sector_id, alloc_page);
            &&& r is Ok
            &&& r == crate::exfat::page::sector_of(w, chain1, sector_id).1
            &&& r->Ok_0 * sb.sector_size == place_of(sb, cs + ds, sector_id * sb.sector_size)
            &&& is_chain(w, chain1, cs + ds)
            &&& sector_id < (cs + ds).len() * sb.sect_per_cluster
            &&& last_cluster_of(sb, sector_id, alloc_page) < cs.len() ==> ds.len() == 0
            &&& cs.len() <= last_cluster_of(sb, sector_id, alloc_page) ==> (cs + ds).len()
                == last_cluster_of(sb, sector_id, alloc_page) + 1
            &&& vol_ok(w)
        }),
{
    let sb = v.super_block;
    let q = sb.sector_size as int;
    let m = sb.sect_per_cluster as int;
    let last = crate::exfat::page::last_sector_of(sb, sector_id, alloc_page);
    let k = last / m;
    let per_page = PAGE_SIZE as int / q;
    assert(1 <= per_page) by (nonlinear_arith)
        requires
            per_page == 4096int / q,
            512 <= q <= 4096,
    ;
    crate::arith::lemma_rounded_up(sector_id as int, per_page);
    assert(sector_id <= last);
    vstd::arithmetic::div_mod::lemma_div_pos_is_pos(last, m);
    assert((last as u32) / sb.sect_per_cluster == k as u32);
    let ds = if k < cs.len() {
        Seq::<ClusterID>::empty()
    } else {
        crate::exfat::laws::chain::law_chain_extended(
            v,
            chain,
            cs,
            (k - cs.len() + 1) as u32,
            true,
        )
    };
    let all = cs + ds;
    let (v1, chain1, _) = if k < cs.len() {
        (v, chain, Ok(()))
    } else {
        crate::exfat::chain::chain_extended(v, chain, (k - cs.len() + 1) as u32, true)
    };
    if k < cs.len() {
        assert(all =~= cs);
    }
    crate::exfat::laws::chain::law_chain_cluster(v1, chain1, all, k as u32);
    let v2 = crate::exfat::chain::chain_cluster(v1, chain1, k as u32).0;
    vstd::arithmetic::div_mod::lemma_fundamental_div_mod(last, m);
    vstd::arithmetic::div_mod::lemma_mod_bound(last, m);
    let n = all.len() as int;
    assert(last < n * m) by (nonlinear_arith)
        requires
            last == m * k + last % m,
            last % m < m,
            k + 1 <= n,
            0 < m,
    ;
    lemma_sector_of(v2, chain1, all, sector_id);
    let (w, r) = crate::exfat::page::sector_of(v2, chain1, sector_id);
    lemma_sector_of(w, chain1, all, sector_id);
    let again = crate::exfat::page::sector_of(w, chain1, sector_id).1;
    let a = r->Ok_0 as int;
    let b = again->Ok_0 as int;
    assert(a == b) by (nonlinear_arith)
        requires
            a * q == b * q,
            0 < q,
    ;
    ds
}

/// The bytes of clusters lie behind the beginning of the clusters and before their end.
pub proof fn lemma_place_bounds(v: VolumeState, cs: Seq<ClusterID>, at: int)
    requires
        v.super_block.wf(),
        crate::exfat::laws::chain::all_real(v, cs),
        0 <= at < cs.len() * v.super_block.cluster_size,
    ensures
        0 <= at / (v.super_block.cluster_size as int) < cs.len(),
        data_start(v.super_block) <= place_of(v.super_block, cs, at),
        place_of(v.super_block, cs, at) < crate::exfat::volume::cluster_offset(
            v.super_block,
            v.super_block.num_clusters as int,
        ),
{
    let sb = v.super_block;
    let z = sb.cluster_size as int;
    crate::exfat::volume::lemma_cluster_size_positive(sb);
    let n = cs.len() as int;
    assert(n * z == z * n) by (nonlinear_arith);
    vstd::arithmetic::div_mod::lemma_multiply_divide_lt(at, z, n);
    vstd::arithmetic::div_mod::lemma_div_pos_is_pos(at, z);
    vstd::arithmetic::div_mod::lemma_mod_bound(at, z);
    let k = at / z;
    assert(crate::exfat::laws::fat::real_cluster(v, cs[k] as int));
    let index = cs[k] - EXFAT_RESERVED_CLUSTERS;
    let all = sb.num_clusters - EXFAT_RESERVED_CLUSTERS;
    let q = sb.sector_size as int;
    let m = sb.sect_per_cluster as int;
    let d = sb.data_start_sector as int;
    assert((index * m + d) * q == index * (q * m) + d * q) by (nonlinear_arith);
    assert((all * m + d) * q == all * (q * m) + d * q) by (nonlinear_arith);
    assert(index * z + z <= all * z) by (nonlinear_arith)
        requires
            index + 1 <= all,
            0 <= z,
    ;
    assert(0 <= index * z) by (nonlinear_arith)
        requires
            0 <= index,
            0 <= z,
    ;
}

/// The first sector of a page.
pub proof fn lemma_page_sector(sb: ExfatSuperBlock, idx: int, clusters: int)
    requires
        sb.wf(),
        0 <= idx,
        idx * PAGE_SIZE < clusters * sb.cluster_size,
        idx * PAGE_SIZE <= usize::MAX,
    ensures
        crate::exfat::page::page_sector(sb, idx) * sb.sector_size == idx * PAGE_SIZE,
        crate::exfat::page::page_sector(sb, idx) < clusters * sb.sect_per_cluster,
{
    let q = sb.sector_size as int;
    let m = sb.sect_per_cluster as int;
    let f = 4096int / q;
    vstd::arithmetic::div_mod::lemma_fundamental_div_mod(4096, q);
    assert(4096 == q * f);
    assert(idx * 4096 == (idx * f) * q) by (nonlinear_arith)
        requires
            4096 == q * f,
    ;
    vstd::arithmetic::div_mod::lemma_div_by_multiple(idx * f, q);
    assert(0 <= idx * f <= idx * 4096) by (nonlinear_arith)
        requires
            4096 == q * f,
            1 <= q,
            0 <= idx,
            0 <= f,
    ;
    assert(idx * f < clusters * m) by (nonlinear_arith)
        requires
            (idx * f) * q < clusters * (q * m),
            0 < q,
    ;
}

/// The block in which a byte of the clusters lies is among those of the clusters.
pub proof fn lemma_block_bounds(v: VolumeState, at: int)
    requires
        data_ok(v),
        data_start(v.super_block) <= at,
        at < crate::exfat::volume::cluster_offset(
            v.super_block,
            v.super_block.num_clusters as int,
        ),
    ensures
        data_start(v.super_block) <= at - at % (PAGE_SIZE as int),
        at - at % (PAGE_SIZE as int) + PAGE_SIZE <= v.disk.len(),
{
    let end = crate::exfat::volume::cluster_offset(
        v.super_block,
        v.super_block.num_clusters as int,
    );
    let d = data_start(v.super_block);
    assert(0 <= d) by (nonlinear_arith)
        requires
            d == v.super_block.data_start_sector * v.super_block.sector_size,
    ;
    crate::arith::lemma_rounded_up(end, PAGE_SIZE as int);
}

/// Writing a page of a chain succeeds, and changes nothing but the block in which the
/// page lies.
pub proof fn lemma_page_written(
    v: VolumeState,
    chain: ExfatChain,
    cs: Seq<ClusterID>,
    idx: int,
    bytes: Seq<u8>,
)
    requires
        vol_ok(v),
        data_ok(v),
        is_chain(v, chain, cs),
        0 <= idx,
        idx * PAGE_SIZE < cs.len() * v.super_block.cluster_size,
        idx * PAGE_SIZE <= usize::MAX,
        bytes.len() == PAGE_SIZE,
    ensures
        ({
            let (w, r) = crate::exfat::page::page_written(v, chain, idx, bytes);
            let at = place_of(v.super_block, cs, idx * PAGE_SIZE);
            &&& r == Ok::<(), Errno>(())
            &&& w == (VolumeState { disk: w.disk, cache: w.cache, ..v })
            &&& w.disk == crate::bytes::overwritten(v.disk, at - at % (PAGE_SIZE as int), bytes)
            &&& data_start(v.super_block) <= at - at % (PAGE_SIZE as int)
            &&& at - at % (PAGE_SIZE as int) + PAGE_SIZE <= v.disk.len()
            &&& vol_ok(w)
            &&& data_ok(w)
            &&& fat_kept(v, w)
            &&& is_chain(w, chain, cs)
        }),
{
    let sb = v.super_block;
    lemma_page_sector(sb, idx, cs.len() as int);
    let sid = crate::exfat::page::page_sector(sb, idx);
    lemma_sector_of(v, chain, cs, sid);
    crate::exfat::laws::chain::lemma_chain_is_real(v, chain, cs);
    lemma_place_bounds(v, cs, idx * PAGE_SIZE);
    let at = place_of(sb, cs, idx * PAGE_SIZE);
    lemma_block_bounds(v, at);
    let (v1, r1) = crate::exfat::page::sector_of(v, chain, sid);
    let (w, r) = crate::exfat::page::page_written(v, chain, idx, bytes);
    assert(fat_kept(v1, w));
    lemma_fat_kept(v1, w);
    lemma_chain_kept(v1, w, chain, cs);
}

/// Writing pages of a chain succeeds, and leaves the FAT and the bitmap alone.
pub proof fn lemma_pages_written(
    v: VolumeState,
    chain: ExfatChain,
    cs: Seq<ClusterID>,
    pages: Seq<u8>,
    idx: int,
    end: int,
)
    requires
        vol_ok(v),
        data_ok(v),
        is_chain(v, chain, cs),
        0 <= idx,
        end * PAGE_SIZE <= pages.len() <= usize::MAX,
        end > 0 ==> (end - 1) * PAGE_SIZE < cs.len() * v.super_block.cluster_size,
    ensures
        ({
            let (w, r) = crate::exfat::page::pages_written(v, chain, pages, idx, end);
            &&& r == Ok::<(), Errno>(())
            &&& vol_ok(w)
            &&& data_ok(w)
            &&& fat_kept(v, w)
            &&& is_chain(w, chain, cs)
        }),
    decreases end - idx,
{
    if idx < end {
        let bytes = pages.subrange(idx * PAGE_SIZE, (idx + 1) * PAGE_SIZE);
        lemma_page_written(v, chain, cs, idx, bytes);
        let (v1, r1) = crate::exfat::page::page_written(v, chain, idx, bytes);
        lemma_pages_written(v1, chain, cs, pages, idx + 1, end);
    }
}

/// Room is made up to the sector itself, or, where whole pages are made, up to the first sector
/// at it or behind it with which a page begins.
pub proof fn law_last_sector(sb: ExfatSuperBlock, sector_id: usize)
    requires
        sb.wf(),
    ensures
        crate::exfat::page::last_sector_of(sb, sector_id, false) == sector_id,
        ({
            let last = crate::exfat::page::last_sector_of(sb, sector_id, true);
            let per_page = 4096int / sb.sector_size as int;
            &&& last % per_page == 0
            &&& sector_id <= last < sector_id + per_page
        }),
{
    let q = sb.sector_size as int;
    let per_page = 4096int / q;
    assert(1 <= per_page) by (nonlinear_arith)
        requires
            per_page == 4096int / q,
            512 <= q <= 4096,
    ;
    crate::arith::lemma_rounded_up(sector_id as int, per_page);
}

/// Finding a cluster of a chain gives the cluster with that number; where the chain does not
/// have it, it grows by as many clusters as are missing and no more.
pub proof fn law_cluster_got(
    v: VolumeState,
    chain: ExfatChain,
    cs: Seq<ClusterID>,
    logical: u32,
    sync: bool,
) -> (ds: Seq<ClusterID>)
    requires
        vol_ok(v),
        is_chain(v, chain, cs),
        logical < u32::MAX,
        logical < cs.len() + crate::exfat::bitmap::count_free(v.bits),
    ensures
        ({
            let (w, chain1, r) = crate::exfat::page::cluster_got(v, chain, logical, sync);
            &&& is_chain(w, chain1, cs + ds)
            &&& r == Ok::<ClusterID, Errno>((cs + ds)[logical as int])
            &&& logical < cs.len() ==> ds.len() == 0 && chain1 == chain
            &&& cs.len() <= logical ==> (cs + ds).len() == logical + 1
            &&& forall|k: int| 0 <= k < ds.len() ==> !taken(v, #[trigger] ds[k])
            &&& vol_ok(w)
        }),
{
    if logical < cs.len() {
        crate::exfat::laws::chain::law_chain_cluster(v, chain, cs, logical);
        let ds = Seq::<ClusterID>::empty();
        assert(cs + ds =~= cs);
        ds
    } else {
        let more = (logical - cs.len() + 1) as u32;
        let ds = crate::exfat::laws::chain::law_chain_extended(v, chain, cs, more, sync);
        let (v1, chain1, r1) = crate::exfat::chain::chain_extended(v, chain, more, sync);
        crate::exfat::laws::chain::law_chain_cluster(v1, chain1, cs + ds, logical);
        ds
    }
}

} // verus!
