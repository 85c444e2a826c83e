//! Reading and writing files on the disk: what was written is read, on the disk and in
//! memory.

use vstd::prelude::*;
use crate::errno::Errno;
use crate::exfat::chain::ExfatChain;
use crate::exfat::constants::{EXFAT_RESERVED_CLUSTERS, PAGE_SIZE};
use crate::exfat::fat::ClusterID;
use crate::exfat::fs::FsState;
use crate::exfat::inode::InodeView;
use crate::exfat::laws::chain::{all_real, is_chain, vol_ok};
use crate::exfat::laws::page::{data_ok, data_start, fat_kept, place_of};
use crate::exfat::super_block::ExfatSuperBlock;
use crate::exfat::volume::VolumeState;

verus! {

/// Clusters hold whole pages.
pub open spec fn whole_pages(v: VolumeState) -> bool {
    v.super_block.cluster_size % 4096 == 0
}

/// Where a cluster begins, counted in bytes.
pub proof fn lemma_cluster_offset(sb: ExfatSuperBlock, cluster: int)
    requires
        sb.wf(),
    ensures
        crate::exfat::volume::cluster_offset(sb, cluster) == data_start(sb) + (cluster
            - EXFAT_RESERVED_CLUSTERS) * sb.cluster_size,
{
    let index = cluster - EXFAT_RESERVED_CLUSTERS;
    let q = sb.sector_size as int;
    let m = sb.sect_per_cluster as int;
    let d = sb.data_start_sector as int;
    assert((index * m + d) * q == index * (q * m) + d * q) by (nonlinear_arith);
}

/// Bytes that follow each other within a cluster follow each other on the disk.
proof fn lemma_place_within(sb: ExfatSuperBlock, cs: Seq<ClusterID>, at: int, more: int)
    requires
        sb.wf(),
        0 <= at,
        0 <= more,
        at % (sb.cluster_size as int) + more < sb.cluster_size,
    ensures
        place_of(sb, cs, at + more) == place_of(sb, cs, at) + more,
{
    let z = sb.cluster_size as int;
    crate::exfat::volume::lemma_cluster_size_positive(sb);
    let q = at / z;
    let r = at % z;
    vstd::arithmetic::div_mod::lemma_fundamental_div_mod(at, z);
    vstd::arithmetic::div_mod::lemma_mod_bound(at, z);
    vstd::arithmetic::div_mod::lemma_fundamental_div_mod_converse(at + more, z, q, r + more);
}

/// There is room on the disk for bytes that lie within a cluster.
pub proof fn lemma_place_room(v: VolumeState, cs: Seq<ClusterID>, at: int, len: int)
    requires
        v.super_block.wf(),
        data_ok(v),
        all_real(v, cs),
        0 <= at < cs.len() * v.super_block.cluster_size,
        0 < len,
        at % (v.super_block.cluster_size as int) + len <= v.super_block.cluster_size,
    ensures
        0 <= at / (v.super_block.cluster_size as int) < cs.len(),
        data_start(v.super_block) <= place_of(v.super_block, cs, at),
        place_of(v.super_block, cs, at) + len <= v.disk.len(),
{
    let sb = v.super_block;
    crate::exfat::laws::page::lemma_place_bounds(v, cs, at);
    lemma_place_within(sb, cs, at, len - 1);
    let z = sb.cluster_size as int;
    crate::exfat::volume::lemma_cluster_size_positive(sb);
    vstd::arithmetic::div_mod::lemma_fundamental_div_mod(at, z);
    vstd::arithmetic::div_mod::lemma_mod_bound(at, z);
    let k = at / z;
    let n = cs.len() as int;
    assert(at + (len - 1) < n * z) by (nonlinear_arith)
        requires
            at == z * k + at % z,
            at % z + len <= z,
            k < n,
            0 < z,
    ;
    crate::exfat::laws::page::lemma_place_bounds(v, cs, at + (len - 1));
    let end = crate::exfat::volume::cluster_offset(sb, sb.num_clusters as int);
    lemma_cluster_offset(sb, sb.num_clusters as int);
    assert(0 <= data_start(sb)) by (nonlinear_arith)
        requires
            data_start(sb) == sb.data_start_sector * sb.sector_size,
    ;
    assert(0 <= end);
    crate::arith::lemma_rounded_up(end, PAGE_SIZE as int);
}

/// Pages lie at the beginnings of blocks, and different pages in different blocks.
pub proof fn lemma_page_places(v: VolumeState, cs: Seq<ClusterID>, a: int, b: int)
    requires
        v.super_block.wf(),
        data_ok(v),
        whole_pages(v),
        cs.no_duplicates(),
        all_real(v, cs),
        0 <= a,
        a * PAGE_SIZE < cs.len() * v.super_block.cluster_size,
        0 <= b,
        b * PAGE_SIZE < cs.len() * v.super_block.cluster_size,
    ensures
        (a * PAGE_SIZE) % (v.super_block.cluster_size as int) + PAGE_SIZE
            <= v.super_block.cluster_size,
        place_of(v.super_block, cs, a * PAGE_SIZE) % (PAGE_SIZE as int) == 0,
        a != b ==> place_of(v.super_block, cs, a * PAGE_SIZE) + PAGE_SIZE <= place_of(
            v.super_block,
            cs,
            b * PAGE_SIZE,
        ) || place_of(v.super_block, cs, b * PAGE_SIZE) + PAGE_SIZE <= place_of(
            v.super_block,
            cs,
            a * PAGE_SIZE,
        ),
{
    let sb = v.super_block;
    let z = sb.cluster_size as int;
    crate::exfat::volume::lemma_cluster_size_positive(sb);
    let f = z / 4096;
    assert(z == 4096 * f);
    let x = a * 4096;
    let y = b * 4096;
    crate::exfat::laws::page::lemma_place_bounds(v, cs, x);
    crate::exfat::laws::page::lemma_place_bounds(v, cs, y);
    let i = x / z;
    let j = y / z;
    vstd::arithmetic::div_mod::lemma_fundamental_div_mod(x, z);
    vstd::arithmetic::div_mod::lemma_fundamental_div_mod(y, z);
    vstd::arithmetic::div_mod::lemma_mod_bound(x, z);
    vstd::arithmetic::div_mod::lemma_mod_bound(y, z);
    assert(x % z == 4096 * (a - f * i)) by (nonlinear_arith)
        requires
            x == z * i + x % z,
            x == a * 4096,
            z == 4096 * f,
    ;
    assert(y % z == 4096 * (b - f * j)) by (nonlinear_arith)
        requires
            y == z * j + y % z,
            y == b * 4096,
            z == 4096 * f,
    ;
    let m = cs[i] - EXFAT_RESERVED_CLUSTERS;
    let n = cs[j] - EXFAT_RESERVED_CLUSTERS;
    lemma_cluster_offset(sb, cs[i] as int);
    lemma_cluster_offset(sb, cs[j] as int);
    let d = data_start(sb);
    let g = d / 4096;
    assert(d == 4096 * g);
    assert(d + m * z + x % z == 4096 * (g + m * f + (a - f * i))) by (nonlinear_arith)
        requires
            d == 4096 * g,
            z == 4096 * f,
            x % z == 4096 * (a - f * i),
    ;
    if a != b {
        if i == j {
            assert(x % z - y % z == 4096 * (a - b)) by (nonlinear_arith)
                requires
                    x % z == 4096 * (a - f * i),
                    y % z == 4096 * (b - f * j),
                    i == j,
            ;
        } else {
            assert(m != n);
            if m < n {
                assert(m * z + z <= n * z) by (nonlinear_arith)
                    requires
                        m + 1 <= n,
                        0 < z,
                ;
            } else {
                assert(n * z + z <= m * z) by (nonlinear_arith)
                    requires
                        n + 1 <= m,
                        0 < z,
                ;
            }
        }
    }
}

/// Whether the disk holds the page with the number `a` of pages.
pub open spec fn on_disk(v: VolumeState, cs: Seq<ClusterID>, pages: Seq<u8>, a: int) -> bool {
    let at = place_of(v.super_block, cs, a * PAGE_SIZE);
    forall|k: int|
        0 <= k < PAGE_SIZE ==> #[trigger] v.disk[at + k] == pages[a * PAGE_SIZE + k]
}

/// Pages that were written are on the disk, and pages that were there still are.
pub proof fn lemma_pages_on_disk(
    v: VolumeState,
    chain: ExfatChain,
    cs: Seq<ClusterID>,
    pages: Seq<u8>,
    idx: int,
    end: int,
)
    requires
        vol_ok(v),
        data_ok(v),
        whole_pages(v),
        is_chain(v, chain, cs),
        0 <= idx,
        end * PAGE_SIZE <= pages.len() <= usize::MAX,
        end > 0 ==> (end - 1) * PAGE_SIZE < cs.len() * v.super_block.cluster_size,
    ensures
        ({
            let (w, r) = crate::exfat::page::pages_written(v, chain, pages, idx, end);
            &&& forall|a: int| idx <= a < end ==> #[trigger] on_disk(w, cs, pages, a)
            &&& forall|a: int|
                0 <= a && a * PAGE_SIZE < cs.len() * v.super_block.cluster_size && on_disk(
                    v,
                    cs,
                    pages,
                    a,
                ) ==> #[trigger] on_disk(w, cs, pages, a)
        }),
    decreases end - idx,
{
    if idx < end {
        crate::exfat::laws::chain::lemma_chain_is_real(v, chain, cs);
        let bytes = pages.subrange(idx * PAGE_SIZE, (idx + 1) * PAGE_SIZE);
        crate::exfat::laws::page::lemma_page_written(v, chain, cs, idx, bytes);
        let (v1, r1) = crate::exfat::page::page_written(v, chain, idx, bytes);
        lemma_page_places(v, cs, idx, idx);
        assert(on_disk(v1, cs, pages, idx));
        assert forall|a: int|
            0 <= a && a * PAGE_SIZE < cs.len() * v.super_block.cluster_size && on_disk(
                v,
                cs,
                pages,
                a,
            ) implies #[trigger] on_disk(v1, cs, pages, a) by {
            if a != idx {
                lemma_page_places(v, cs, a, idx);
                let at = place_of(v.super_block, cs, a * PAGE_SIZE);
                lemma_place_room(v, cs, a * PAGE_SIZE, PAGE_SIZE as int);
                assert forall|k: int| 0 <= k < PAGE_SIZE implies #[trigger] v1.disk[at + k]
                    == pages[a * PAGE_SIZE + k] by {
                    assert(v.disk[at + k] == pages[a * PAGE_SIZE + k]);
                }
            }
        }
        lemma_pages_on_disk(v1, chain, cs, pages, idx + 1, end);
        let (w, r) = crate::exfat::page::pages_written(v, chain, pages, idx, end);
        assert((w, r) == crate::exfat::page::pages_written(v1, chain, pages, idx + 1, end));
        assert(v1.super_block == v.super_block);
        assert forall|a: int| idx <= a < end implies #[trigger] on_disk(w, cs, pages, a) by {
            if a == idx {
                assert(on_disk(v1, cs, pages, a));
            }
        }
        assert forall|a: int|
            0 <= a && a * PAGE_SIZE < cs.len() * v.super_block.cluster_size && on_disk(
                v,
                cs,
                pages,
                a,
            ) implies #[trigger] on_disk(w, cs, pages, a) by {
            assert(on_disk(v1, cs, pages, a));
        }
    }
}

/// Sectors lie within clusters and within pages.
proof fn lemma_sector_fits(sb: ExfatSuperBlock, k: int)
    requires
        sb.wf(),
        0 <= k,
    ensures
        (k * sb.sector_size) % (sb.cluster_size as int) + sb.sector_size <= sb.cluster_size,
        (k * sb.sector_size) % (PAGE_SIZE as int) + sb.sector_size <= PAGE_SIZE,
{
    let q = sb.sector_size as int;
    let m = sb.sect_per_cluster as int;
    let f = 4096int / q;
    vstd::arithmetic::div_mod::lemma_fundamental_div_mod(4096, q);
    assert(4096 == q * f);
    assert(0 < f) by (nonlinear_arith)
        requires
            4096 == q * f,
            0 < q,
    ;
    assert(k * q == q * k) by (nonlinear_arith);
    vstd::arithmetic::div_mod::lemma_truncate_middle(k, q, m);
    vstd::arithmetic::div_mod::lemma_truncate_middle(k, q, f);
    vstd::arithmetic::div_mod::lemma_mod_bound(k, m);
    vstd::arithmetic::div_mod::lemma_mod_bound(k, f);
    let a = k % m;
    let b = k % f;
    assert(q * a + q <= q * m) by (nonlinear_arith)
        requires
            a + 1 <= m,
            0 < q,
    ;
    assert(q * b + q <= q * f) by (nonlinear_arith)
        requires
            b + 1 <= f,
            0 < q,
    ;
}

/// A sector of a page that is on the disk is read.
proof fn lemma_sector_read(
    v: VolumeState,
    chain: ExfatChain,
    cs: Seq<ClusterID>,
    pages: Seq<u8>,
    k: int,
)
    requires
        vol_ok(v),
        data_ok(v),
        whole_pages(v),
        is_chain(v, chain, cs),
        0 <= k,
        k * v.super_block.sector_size < cs.len() * v.super_block.cluster_size,
        (k + 1) * v.super_block.sector_size <= pages.len() <= usize::MAX,
        on_disk(v, cs, pages, k * v.super_block.sector_size / (PAGE_SIZE as int)),
    ensures
        ({
            let q = v.super_block.sector_size as int;
            let (w, r) = crate::exfat::page::sector_of(v, chain, k as usize);
            &&& r is Ok
            &&& w == (VolumeState { cache: w.cache, ..v })
            &&& vol_ok(w)
            &&& is_chain(w, chain, cs)
            &&& crate::exfat::disk::disk_read(w.disk, w.faults, r->Ok_0 * q, q) == Ok::<Seq<u8>, Errno>(
                pages.subrange(k * q, (k + 1) * q),
            )
        }),
{
    let sb = v.super_block;
    let q = sb.sector_size as int;
    let m = sb.sect_per_cluster as int;
    let at = k * q;
    let n = cs.len() as int;
    assert(k < n * m) by (nonlinear_arith)
        requires
            k * q < n * (q * m),
            0 < q,
    ;
    assert((k + 1) * q == k * q + q) by (nonlinear_arith);
    assert(k <= k * q) by (nonlinear_arith)
        requires
            0 <= k,
            1 <= q,
    ;
    crate::exfat::laws::page::lemma_sector_of(v, chain, cs, k as usize);
    crate::exfat::laws::chain::lemma_chain_is_real(v, chain, cs);
    lemma_sector_fits(sb, k);
    lemma_place_room(v, cs, at, q);
    let a = at / 4096;
    let r = at % 4096;
    assert(at == 4096 * a + r);
    lemma_page_places(v, cs, a, a);
    lemma_place_within(sb, cs, a * 4096, r);
    let here = place_of(sb, cs, at);
    let page = place_of(sb, cs, a * PAGE_SIZE);
    assert(here == page + r);
    let (w, found) = crate::exfat::page::sector_of(v, chain, k as usize);
    assert(w.disk.subrange(here, here + q) =~= pages.subrange(at, at + q)) by {
        assert forall|x: int| 0 <= x < q implies #[trigger] w.disk.subrange(here, here + q)[x]
            == pages.subrange(at, at + q)[x] by {
            assert(v.disk[page + (r + x)] == pages[a * PAGE_SIZE + (r + x)]);
        }
    }
}

/// Sectors of pages that are on the disk are read.
pub proof fn lemma_sectors_read(
    v: VolumeState,
    chain: ExfatChain,
    cs: Seq<ClusterID>,
    pages: Seq<u8>,
    sector: int,
    end: int,
    before: Seq<u8>,
)
    requires
        vol_ok(v),
        data_ok(v),
        whole_pages(v),
        is_chain(v, chain, cs),
        0 <= sector <= end,
        end * v.super_block.sector_size <= cs.len() * v.super_block.cluster_size,
        end * v.super_block.sector_size <= pages.len() <= usize::MAX,
        forall|k: int|
            sector <= k < end ==> #[trigger] sector_on_disk(v, cs, pages, k),
    ensures
        ({
            let q = v.super_block.sector_size as int;
            let (w, r) = crate::exfat::fs::io::sectors_read(v, chain, sector, end, before);
            &&& r == Ok::<Seq<u8>, Errno>(before + pages.subrange(sector * q, end * q))
            &&& w == (VolumeState { cache: w.cache, ..v })
            &&& vol_ok(w)
        }),
    decreases end - sector,
{
    let q = v.super_block.sector_size as int;
    if sector < end {
        assert(sector * q + q <= end * q && (sector + 1) * q == sector * q + q && 0 <= sector * q)
            by (nonlinear_arith)
            requires
                0 <= sector,
                sector + 1 <= end,
                0 < q,
        ;
        assert(sector_on_disk(v, cs, pages, sector));
        lemma_sector_read(v, chain, cs, pages, sector);
        let (v1, r1) = crate::exfat::page::sector_of(v, chain, sector as usize);
        let bytes = pages.subrange(sector * q, (sector + 1) * q);
        assert forall|k: int| sector + 1 <= k < end implies #[trigger] sector_on_disk(
            v1,
            cs,
            pages,
            k,
        ) by {
            assert(sector_on_disk(v, cs, pages, k));
        }
        lemma_sectors_read(v1, chain, cs, pages, sector + 1, end, before + bytes);
        assert(before + bytes + pages.subrange((sector + 1) * q, end * q) =~= before
            + pages.subrange(sector * q, end * q));
    } else {
        assert(before + pages.subrange(sector * q, end * q) =~= before);
    }
}

/// Whether the page in which a sector lies is on the disk.
pub open spec fn sector_on_disk(
    v: VolumeState,
    cs: Seq<ClusterID>,
    pages: Seq<u8>,
    k: int,
) -> bool {
    on_disk(v, cs, pages, k * v.super_block.sector_size / (PAGE_SIZE as int))
}

/// Whether an inode is a file with the clusters `cs`.
pub open spec fn has_file(v: VolumeState, n: InodeView, cs: Seq<ClusterID>) -> bool {
    &&& n.inode_type is File
    &&& is_chain(v, n.start_chain, cs)
    &&& n.size <= cs.len() * v.super_block.cluster_size
    &&& if n.loaded {
        n.size <= n.pages.len() <= usize::MAX && n.pages.len() % (PAGE_SIZE as nat) == 0
    } else {
        n.size + PAGE_SIZE <= usize::MAX
    }
}

/// Whether an inode is a file with the clusters `cs`, which has all its bytes in memory.
pub open spec fn is_file(v: VolumeState, n: InodeView, cs: Seq<ClusterID>) -> bool {
    has_file(v, n, cs) && n.loaded
}

/// Reading a file on the disk gives what it has in memory: the whole sectors among the
/// bytes that are asked for.
pub proof fn law_direct_read(s: FsState, i: int, cs: Seq<ClusterID>, offset: int, len: int)
    requires
        0 <= i < s.nodes.len(),
        vol_ok(s.vol),
        data_ok(s.vol),
        whole_pages(s.vol),
        is_file(s.vol, s.nodes[i], cs),
        0 <= offset,
        0 <= len,
        crate::exfat::fs::io::sector_aligned(s.vol, offset),
        crate::exfat::fs::io::sector_aligned(s.vol, len),
    ensures
        ({
            let n = s.nodes[i];
            let q = s.vol.super_block.sector_size as int;
            let start = crate::exfat::fs::io::lesser(n.size as int, offset) / q;
            let end = crate::exfat::fs::io::lesser(n.size as int, offset + len) / q;
            let (t, r) = crate::exfat::fs::io::file_read_direct(s, i, offset, len);
            &&& r == Ok::<Seq<u8>, Errno>(n.pages.subrange(start * q, end * q))
            &&& t == s.with_vol(t.vol)
            &&& vol_ok(t.vol)
            &&& fat_kept(s.vol, t.vol)
        }),
{
    let n = s.nodes[i];
    let sb = s.vol.super_block;
    let q = sb.sector_size as int;
    let lo = crate::exfat::fs::io::lesser(n.size as int, offset);
    let hi = crate::exfat::fs::io::lesser(n.size as int, offset + len);
    let start = lo / q;
    let end = hi / q;
    vstd::arithmetic::div_mod::lemma_div_is_ordered(lo, hi, q);
    vstd::arithmetic::div_mod::lemma_div_pos_is_pos(lo, q);
    vstd::arithmetic::div_mod::lemma_fundamental_div_mod(lo, q);
    vstd::arithmetic::div_mod::lemma_fundamental_div_mod(hi, q);
    vstd::arithmetic::div_mod::lemma_mod_bound(lo, q);
    vstd::arithmetic::div_mod::lemma_mod_bound(hi, q);
    let from = start * q;
    let to = end * q;
    assert(0 <= from <= to <= hi && from == q * start && to == q * end) by (nonlinear_arith)
        requires
            0 <= start <= end,
            0 < q,
            hi == q * end + hi % q,
            0 <= hi % q,
            from == start * q,
            to == end * q,
    ;
    let idx = from / (PAGE_SIZE as int);
    let last = crate::arith::pieces(to, PAGE_SIZE as int);
    crate::arith::lemma_rounded_up(to, PAGE_SIZE as int);
    crate::exfat::laws::page::lemma_pages_written(
        s.vol,
        n.start_chain,
        cs,
        n.pages,
        idx,
        last,
    );
    lemma_pages_on_disk(s.vol, n.start_chain, cs, n.pages, idx, last);
    let (s1, r1) = crate::exfat::fs::file::node_range_written(s, i, from, to);
    assert forall|k: int| start <= k < end implies #[trigger] sector_on_disk(
        s1.vol,
        cs,
        n.pages,
        k,
    ) by {
        let at = k * q;
        assert(from <= at && at + q <= to) by (nonlinear_arith)
            requires
                start <= k,
                k + 1 <= end,
                from == start * q,
                to == end * q,
                at == k * q,
                0 < q,
        ;
        assert(on_disk(s1.vol, cs, n.pages, at / 4096));
    }
    lemma_sectors_read(s1.vol, n.start_chain, cs, n.pages, start, end, Seq::empty());
    let (t, r) = crate::exfat::fs::io::file_read_direct(s, i, offset, len);
    assert(Seq::<u8>::empty() + n.pages.subrange(from, to) =~= n.pages.subrange(from, to));
}

/// Writing one part and then the next is writing both.
proof fn lemma_overwritten_twice(b: Seq<u8>, at: int, first: Seq<u8>, second: Seq<u8>)
    requires
        0 <= at,
        at + first.len() + second.len() <= b.len(),
    ensures
        crate::bytes::overwritten(
            crate::bytes::overwritten(b, at, first),
            at + first.len(),
            second,
        ) == crate::bytes::overwritten(b, at, first + second),
{
    assert(crate::bytes::overwritten(
        crate::bytes::overwritten(b, at, first),
        at + first.len(),
        second,
    ) =~= crate::bytes::overwritten(b, at, first + second));
}

/// Writing a sector of a chain succeeds and leaves the FAT and the bitmap alone.
proof fn lemma_sector_written(
    v: VolumeState,
    chain: ExfatChain,
    cs: Seq<ClusterID>,
    k: int,
    part: Seq<u8>,
)
    requires
        vol_ok(v),
        data_ok(v),
        is_chain(v, chain, cs),
        0 <= k,
        k * v.super_block.sector_size < cs.len() * v.super_block.cluster_size,
        k * v.super_block.sector_size <= usize::MAX,
        part.len() == v.super_block.sector_size,
    ensures
        ({
            let (v1, r1) = crate::exfat::page::sector_of(v, chain, k as usize);
            let (v2, r2) = crate::exfat::volume::bytes_written(
                v1,
                r1->Ok_0 * v.super_block.sector_size,
                part,
            );
            &&& r1 is Ok
            &&& r2 == Ok::<(), Errno>(())
            &&& vol_ok(v2)
            &&& data_ok(v2)
            &&& fat_kept(v, v2)
            &&& is_chain(v2, chain, cs)
        }),
{
    let sb = v.super_block;
    let q = sb.sector_size as int;
    let m = sb.sect_per_cluster as int;
    let n = cs.len() as int;
    assert(k < n * m) by (nonlinear_arith)
        requires
            k * q < n * (q * m),
            0 < q,
    ;
    assert(k <= k * q) by (nonlinear_arith)
        requires
            0 <= k,
            1 <= q,
    ;
    crate::exfat::laws::page::lemma_sector_of(v, chain, cs, k as usize);
    crate::exfat::laws::chain::lemma_chain_is_real(v, chain, cs);
    lemma_sector_fits(sb, k);
    lemma_place_room(v, cs, k * q, q);
    let (v1, r1) = crate::exfat::page::sector_of(v, chain, k as usize);
    let (v2, r2) = crate::exfat::volume::bytes_written(v1, r1->Ok_0 * q, part);
    assert(fat_kept(v1, v2));
    crate::exfat::laws::page::lemma_fat_kept(v1, v2);
    crate::exfat::laws::page::lemma_chain_kept(v1, v2, chain, cs);
}

/// Writing sectors of a file succeeds, and writes them in memory too.
pub proof fn lemma_sectors_written(
    s: FsState,
    i: int,
    cs: Seq<ClusterID>,
    sector: int,
    bytes: Seq<u8>,
    done: int,
)
    requires
        0 <= i < s.nodes.len(),
        vol_ok(s.vol),
        data_ok(s.vol),
        is_chain(s.vol, s.nodes[i].start_chain, cs),
        0 <= sector,
        0 <= done <= bytes.len(),
        (bytes.len() - done) % (s.vol.super_block.sector_size as int) == 0,
        sector * s.vol.super_block.sector_size + (bytes.len() - done) <= s.nodes[i].pages.len(),
        s.nodes[i].pages.len() <= usize::MAX,
        sector * s.vol.super_block.sector_size + (bytes.len() - done) <= cs.len()
            * s.vol.super_block.cluster_size,
    ensures
        ({
            let q = s.vol.super_block.sector_size as int;
            let (t, r) = crate::exfat::fs::io::sectors_written(s, i, sector, bytes, done);
            &&& r == Ok::<(), Errno>(())
            &&& t == s.with_vol(t.vol).with_node(
                i,
                InodeView {
                    pages: crate::bytes::overwritten(
                        s.nodes[i].pages,
                        sector * q,
                        bytes.skip(done),
                    ),
                    ..s.nodes[i]
                },
            )
            &&& vol_ok(t.vol)
            &&& data_ok(t.vol)
            &&& fat_kept(s.vol, t.vol)
            &&& is_chain(t.vol, s.nodes[i].start_chain, cs)
        }),
    decreases bytes.len() - done,
{
    let q = s.vol.super_block.sector_size as int;
    let n = s.nodes[i];
    let left = bytes.len() - done;
    if done + q > bytes.len() {
        assert(left == 0) by {
            vstd::arithmetic::div_mod::lemma_small_mod(left as nat, q as nat);
        }
        assert(crate::bytes::overwritten(n.pages, sector * q, bytes.skip(done)) =~= n.pages);
        assert(s.with_vol(s.vol).with_node(i, n) =~= s);
    } else {
        let part = bytes.subrange(done, done + q);
        lemma_sector_written(s.vol, n.start_chain, cs, sector, part);
        let (v1, r1) = crate::exfat::page::sector_of(s.vol, n.start_chain, sector as usize);
        let (v2, r2) = crate::exfat::volume::bytes_written(v1, r1->Ok_0 * q, part);
        let pages1 = crate::bytes::overwritten(n.pages, sector * q, part);
        let s1 = s.with_vol(v2).with_node(i, InodeView { pages: pages1, ..n });
        assert((sector + 1) * q == sector * q + q) by (nonlinear_arith);
        vstd::arithmetic::div_mod::lemma_mod_sub_multiples_vanish(left, q);
        lemma_sectors_written(s1, i, cs, sector + 1, bytes, done + q);
        let rest = bytes.skip(done + q);
        lemma_overwritten_twice(n.pages, sector * q, part, rest);
        assert(part + rest =~= bytes.skip(done));
        let (t, r) = crate::exfat::fs::io::sectors_written(s, i, sector, bytes, done);
        assert((t, r) == crate::exfat::fs::io::sectors_written(
            s1,
            i,
            sector + 1,
            bytes,
            done + q,
        ));
        assert(t =~= s.with_vol(t.vol).with_node(
            i,
            InodeView {
                pages: crate::bytes::overwritten(n.pages, sector * q, bytes.skip(done)),
                ..n
            },
        ));
    }
}

} // verus!
