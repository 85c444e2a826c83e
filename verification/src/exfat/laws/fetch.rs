//! Files whose pages are not in memory: what is read of them when they are used.

use vstd::prelude::*;
use crate::errno::Errno;
use crate::exfat::chain::ExfatChain;
use crate::exfat::constants::{DENTRY_SIZE, PAGE_SIZE};
use crate::exfat::fat::ClusterID;
use crate::exfat::fs::file::file_resized;
use crate::exfat::fs::io::pages_fetched;
use crate::exfat::fs::FsState;
use crate::exfat::inode::InodeView;
use crate::exfat::laws::bitmap::bitmap_clusters;
use crate::exfat::laws::chain::{all_real, in_bitmap, is_chain, vol_ok};
use crate::exfat::laws::dir::{dir_ok, only_cache};
use crate::exfat::laws::direct::{on_disk, whole_pages};
use crate::exfat::laws::layout::Held;
use crate::exfat::laws::page::{data_ok, data_start, place_of};
use crate::exfat::laws::sync::disjoint;
use crate::exfat::laws::write::{file_at, file_in, file_room};
use crate::exfat::volume::VolumeState;

verus! {

/// Reading a page of a chain gives what is on the disk.
proof fn lemma_page_fetched(
    v: VolumeState,
    chain: ExfatChain,
    cs: Seq<ClusterID>,
    size: int,
    idx: int,
)
    requires
        vol_ok(v),
        data_ok(v),
        is_chain(v, chain, cs),
        0 <= idx,
        idx * PAGE_SIZE <= size,
        idx * PAGE_SIZE < cs.len() * v.super_block.cluster_size,
        idx * PAGE_SIZE <= usize::MAX,
    ensures
        ({
            let (w, r) = crate::exfat::page::page_read(v, chain, size, idx);
            let at = place_of(v.super_block, cs, idx * PAGE_SIZE);
            &&& r is Ok
            &&& r->Ok_0.len() == PAGE_SIZE
            &&& only_cache(v, w)
            &&& vol_ok(w)
            &&& is_chain(w, chain, cs)
            &&& whole_pages(v) ==> forall|k: int|
                0 <= k < PAGE_SIZE ==> #[trigger] r->Ok_0[k] == v.disk[at + k]
        }),
{
    let sb = v.super_block;
    crate::exfat::laws::page::lemma_page_sector(sb, idx, cs.len() as int);
    let sid = crate::exfat::page::page_sector(sb, idx);
    crate::exfat::laws::page::lemma_sector_of(v, chain, cs, sid);
    crate::exfat::laws::chain::lemma_chain_is_real(v, chain, cs);
    crate::exfat::laws::page::lemma_place_bounds(v, cs, idx * PAGE_SIZE);
    let at = place_of(sb, cs, idx * PAGE_SIZE);
    crate::exfat::laws::page::lemma_block_bounds(v, at);
    if whole_pages(v) {
        crate::exfat::laws::direct::lemma_page_places(v, cs, idx, idx);
    }
}

/// Reading pages of a chain gives what is on the disk.
pub proof fn lemma_pages_fetched(
    v: VolumeState,
    chain: ExfatChain,
    cs: Seq<ClusterID>,
    size: int,
    idx: int,
    end: int,
    before: Seq<u8>,
)
    requires
        vol_ok(v),
        data_ok(v),
        is_chain(v, chain, cs),
        0 <= idx <= end,
        before.len() == idx * PAGE_SIZE,
        end * PAGE_SIZE <= usize::MAX,
        end > 0 ==> (end - 1) * PAGE_SIZE <= size && (end - 1) * PAGE_SIZE < cs.len()
            * v.super_block.cluster_size,
    ensures
        ({
            let (w, r) = crate::exfat::page::pages_read(v, chain, size, idx, end, before);
            &&& r is Ok
            &&& r->Ok_0.len() == end * PAGE_SIZE
            &&& only_cache(v, w)
            &&& vol_ok(w)
            &&& is_chain(w, chain, cs)
            &&& forall|k: int| 0 <= k < before.len() ==> #[trigger] r->Ok_0[k] == before[k]
            &&& whole_pages(v) ==> forall|a: int|
                idx <= a < end ==> #[trigger] on_disk(v, cs, r->Ok_0, a)
        }),
    decreases end - idx,
{
    if idx < end {
        lemma_page_fetched(v, chain, cs, size, idx);
        let (v1, r1) = crate::exfat::page::page_read(v, chain, size, idx);
        let more = before + r1->Ok_0;
        lemma_pages_fetched(v1, chain, cs, size, idx + 1, end, more);
        let (w, r) = crate::exfat::page::pages_read(v, chain, size, idx, end, before);
        assert((w, r) == crate::exfat::page::pages_read(v1, chain, size, idx + 1, end, more));
        assert forall|k: int| 0 <= k < before.len() implies #[trigger] r->Ok_0[k] == before[k] by {
            assert(more[k] == before[k]);
        }
        if whole_pages(v) {
            assert forall|a: int| idx <= a < end implies #[trigger] on_disk(
                v,
                cs,
                r->Ok_0,
                a,
            ) by {
                if a == idx {
                    let at = place_of(v.super_block, cs, a * PAGE_SIZE);
                    assert forall|k: int| 0 <= k < PAGE_SIZE implies #[trigger] v.disk[at + k]
                        == r->Ok_0[a * PAGE_SIZE + k] by {
                        assert(r->Ok_0[a * PAGE_SIZE + k] == more[a * PAGE_SIZE + k]);
                        assert(r1->Ok_0[k] == v.disk[at + k]);
                    }
                } else {
                    assert(on_disk(v1, cs, r->Ok_0, a));
                }
            }
        }
    }
}

/// The pages of a file of a directory can be had in memory: they are those that are on
/// the disk, where they were not in memory already, and the directory holds what it held.
pub proof fn law_fetched(
    s: FsState,
    p: int,
    cs: Seq<ClusterID>,
    es: Seq<Held>,
    k: int,
    xs: Seq<ClusterID>,
)
    requires
        file_at(s, p, cs, es, k, xs),
    ensures
        ({
            let c = es[k].inode;
            let n = s.nodes[c];
            let (t, r) = pages_fetched(s, c);
            let m = t.nodes[c];
            &&& r == Ok::<(), Errno>(())
            &&& file_in(t, p, cs, es, k, xs)
            &&& t == s.with_vol(t.vol).with_node(c, m)
            &&& only_cache(s.vol, t.vol)
            &&& m == (InodeView { pages: m.pages, loaded: true, ..n })
            &&& n.loaded ==> t == s
            &&& !n.loaded && whole_pages(s.vol) ==> forall|a: int|
                0 <= a && a * PAGE_SIZE < n.size ==> #[trigger] on_disk(s.vol, xs, m.pages, a)
        }),
{
    let c = es[k].inode;
    let n = s.nodes[c];
    crate::exfat::laws::dir::lemma_dir_ok(s, p, cs, es);
    crate::exfat::laws::dir::lemma_dir_entry(s, p, cs, es, k);
    if !n.loaded {
        let size = n.size as int;
        let end = crate::arith::pieces(size, PAGE_SIZE as int);
        crate::arith::lemma_rounded_up(size, PAGE_SIZE as int);
        lemma_pages_fetched(s.vol, n.start_chain, xs, size, 0, end, Seq::empty());
        let t = pages_fetched(s, c).0;
        let m = t.nodes[c];
        crate::exfat::laws::dir::lemma_dir_cache(s, t.vol, p, cs, es);
        crate::exfat::laws::write::lemma_child_contents(s.with_vol(t.vol), p, cs, es, k, m);
        assert(t =~= s.with_vol(t.vol).with_node(c, m));
    } else {
        assert(s.with_vol(s.vol).with_node(c, n) =~= s);
    }
}

/// A byte of clusters apart from those of the bitmap is not one of the bitmap.
proof fn lemma_not_in_bitmap(v: VolumeState, xs: Seq<ClusterID>, a: int, k: int)
    requires
        vol_ok(v),
        data_ok(v),
        whole_pages(v),
        all_real(v, xs),
        xs.no_duplicates(),
        all_real(v, bitmap_clusters(v)),
        disjoint(xs, bitmap_clusters(v)),
        0 <= a,
        a * PAGE_SIZE < xs.len() * v.super_block.cluster_size,
        0 <= k < PAGE_SIZE,
    ensures
        !in_bitmap(v, place_of(v.super_block, xs, a * PAGE_SIZE) + k),
{
    let sb = v.super_block;
    let z = sb.cluster_size as int;
    let bs = bitmap_clusters(v);
    let n = bs.len() as int;
    let begin = crate::exfat::laws::chain::bitmap_begin(v);
    let len = crate::exfat::laws::chain::bitmap_len(v);
    let x = place_of(sb, xs, a * PAGE_SIZE) + k;
    crate::exfat::volume::lemma_cluster_size_positive(sb);
    crate::arith::lemma_rounded_up(v.bits.len() as int, 8);
    crate::arith::lemma_rounded_up(len, z);
    crate::exfat::laws::bitmap::lemma_run(v, n);
    assert(bs.no_duplicates());
    if in_bitmap(v, x) {
        let b = (x - begin) / 4096;
        let f = z / 4096;
        assert(b * 4096 < n * z);
        crate::exfat::laws::bitmap::lemma_bitmap_place(v, b * 4096);
        crate::exfat::laws::direct::lemma_page_places(v, bs, b, b);
        crate::exfat::laws::sync::lemma_two_chains(v, xs, bs, a, b);
    }
}

/// Pages of a file that are on the disk stay there where the file is resized, as far as it
/// still has their clusters.
proof fn lemma_resize_keeps_disk(
    s: FsState,
    p: int,
    cs: Seq<ClusterID>,
    es: Seq<Held>,
    k: int,
    xs: Seq<ClusterID>,
    new_size: usize,
    pages: Seq<u8>,
) -> (ys: Seq<ClusterID>)
    requires
        file_at(s, p, cs, es, k, xs),
        file_room(s, xs, new_size as int),
        whole_pages(s.vol),
        all_real(s.vol, bitmap_clusters(s.vol)),
        disjoint(xs, bitmap_clusters(s.vol)),
    ensures
        ({
            let c = es[k].inode;
            let (t, r) = crate::exfat::fs::file::inode_resized(s, c, new_size);
            &&& r == Ok::<(), Errno>(())
            &&& dir_ok(t, p, cs, es)
            &&& data_ok(t.vol)
            &&& t.vol.super_block == s.vol.super_block
            &&& is_chain(t.vol, t.nodes[c].start_chain, ys)
            &&& new_size <= ys.len() * s.vol.super_block.cluster_size
            &&& crate::exfat::laws::remove::off_limits(t, p, cs, ys)
            &&& t.nodes[c].pages == s.nodes[c].pages
            &&& t.nodes[c].inode_type is File
            &&& t.nodes[c].loaded == s.nodes[c].loaded
            &&& t.nodes[c].size == crate::exfat::fs::io::lesser(
                s.nodes[c].size as int,
                new_size as int,
            )
            &&& crate::exfat::laws::dir::same_place(t.nodes[c], s.nodes[c])
            &&& forall|a: int|
                0 <= a && a * PAGE_SIZE < xs.len() * s.vol.super_block.cluster_size && a
                    * PAGE_SIZE < ys.len() * s.vol.super_block.cluster_size && on_disk(
                    s.vol,
                    xs,
                    pages,
                    a,
                ) ==> #[trigger] on_disk(t.vol, ys, pages, a)
        }),
{
    reveal(crate::exfat::fs::file::inode_resized);
    let c = es[k].inode;
    let sb = s.vol.super_block;
    let z = sb.cluster_size as int;
    crate::exfat::laws::dir::lemma_dir_ok(s, p, cs, es);
    crate::exfat::laws::dir::lemma_dir_entry(s, p, cs, es, k);
    crate::exfat::volume::lemma_cluster_size_positive(sb);
    crate::arith::lemma_rounded_up(new_size as int, z);
    let (ys, ds) = crate::exfat::laws::remove::lemma_clusters_adjusted(
        s,
        p,
        cs,
        es,
        k,
        new_size,
        xs,
    );
    let (s1, r1) = crate::exfat::fs::file::clusters_adjusted(s, c, new_size);
    let n2 = InodeView { size_allocated: new_size, ..s1.nodes[c] };
    let s2 = s1.with_node(c, n2);
    crate::exfat::laws::dir::lemma_dir_ok(s1, p, cs, es);
    crate::exfat::laws::write::lemma_child_contents(s1, p, cs, es, k, n2);
    crate::exfat::laws::remove::lemma_off_limits(s, s2, p, cs, xs, ds, ys);
    crate::exfat::laws::dir::lemma_dir_ok(s2, p, cs, es);
    crate::exfat::laws::chain::lemma_chain_is_real(s.vol, s.nodes[c].start_chain, xs);
    assert forall|a: int|
        0 <= a && a * PAGE_SIZE < xs.len() * z && a * PAGE_SIZE < ys.len() * z && on_disk(
            s.vol,
            xs,
            pages,
            a,
        ) implies #[trigger] on_disk(s2.vol, ys, pages, a) by {
        crate::exfat::laws::page::lemma_place_bounds(s.vol, xs, a * PAGE_SIZE);
        crate::exfat::laws::chain::lemma_chain_is_real(s2.vol, n2.start_chain, ys);
        crate::exfat::laws::page::lemma_place_bounds(s2.vol, ys, a * PAGE_SIZE);
        crate::exfat::laws::direct::lemma_page_places(s.vol, xs, a, a);
        crate::exfat::laws::direct::lemma_place_room(s.vol, xs, a * PAGE_SIZE, PAGE_SIZE as int);
        let at = place_of(sb, xs, a * PAGE_SIZE);
        assert(ys[a * PAGE_SIZE / z] == xs[a * PAGE_SIZE / z]);
        assert(place_of(sb, ys, a * PAGE_SIZE) == at);
        assert forall|x: int| 0 <= x < PAGE_SIZE implies #[trigger] s2.vol.disk[at + x] == pages[a
            * PAGE_SIZE + x] by {
            lemma_not_in_bitmap(s.vol, xs, a, x);
            assert(s.vol.disk[at + x] == pages[a * PAGE_SIZE + x]);
        }
    }
    crate::exfat::laws::remove::lemma_child_written(s2, p, cs, es, k, true);
    let t = crate::exfat::fs::file::inode_written(s2, c, true).0;
    crate::exfat::laws::page::lemma_chain_kept(s2.vol, t.vol, s2.nodes[c].start_chain, ys);
    lemma_written_beside(s2, p, cs, es, k, ys, pages);
    assert forall|a: int|
        0 <= a && a * PAGE_SIZE < xs.len() * z && a * PAGE_SIZE < ys.len() * z && on_disk(
            s.vol,
            xs,
            pages,
            a,
        ) implies #[trigger] on_disk(t.vol, ys, pages, a) by {
        assert(on_disk(s2.vol, ys, pages, a));
    }
    if ys.len() > 0 {
        assert(crate::exfat::laws::chain::taken(s2.vol, ys[0]));
    } else {
        let n = ys.len() as int;
        assert(n * z == 0) by (nonlinear_arith)
            requires
                n == 0,
        ;
    }
    ys
}

/// Writing the entries of a file of a directory back leaves alone what is on the disk of
/// clusters apart from those of the directory.
proof fn lemma_written_beside(
    s: FsState,
    p: int,
    cs: Seq<ClusterID>,
    es: Seq<Held>,
    k: int,
    xs: Seq<ClusterID>,
    pages: Seq<u8>,
)
    requires
        dir_ok(s, p, cs, es),
        data_ok(s.vol),
        whole_pages(s.vol),
        0 <= k < es.len(),
        all_real(s.vol, xs),
        xs.no_duplicates(),
        disjoint(cs, xs),
    ensures
        ({
            let w = crate::exfat::fs::file::inode_written(s, es[k].inode, true).0.vol;
            forall|a: int|
                0 <= a && a * PAGE_SIZE < xs.len() * s.vol.super_block.cluster_size && on_disk(
                    s.vol,
                    xs,
                    pages,
                    a,
                ) ==> #[trigger] on_disk(w, xs, pages, a)
        }),
{
    let e = es[k];
    crate::exfat::laws::dir::lemma_dir_ok(s, p, cs, es);
    crate::exfat::laws::dir::lemma_dir_entry(s, p, cs, es, k);
    crate::exfat::laws::remove::lemma_written_steps(s, p, cs, es, k, true);
    let n1 = crate::exfat::fs::file::without_lost_sizes(s.vol, s.nodes[e.inode]);
    let set = crate::exfat::laws::remove::entries_in(s.nodes[p].pages, e);
    let new = crate::exfat::fs::file::entries_of(set, n1);
    crate::exfat::laws::remove::lemma_entries_of(set, n1);
    let s1 = crate::exfat::laws::remove::with_entries(s, p, e, n1, new);
    let to = (e.slot + e.width) * DENTRY_SIZE;
    crate::arith::lemma_rounded_up(to, PAGE_SIZE as int);
    crate::exfat::laws::sync::lemma_pages_beside(
        s1.vol,
        s1.nodes[p].start_chain,
        cs,
        s1.nodes[p].pages,
        e.slot * DENTRY_SIZE / (PAGE_SIZE as int),
        crate::arith::pieces(to, PAGE_SIZE as int),
        xs,
        pages,
    );
}

/// A file of a directory that is resized keeps the bytes that it had and that are left,
/// whether its pages are in memory or not: what is read of it is what was read before.
pub proof fn law_resize_keeps_bytes(
    s: FsState,
    p: int,
    cs: Seq<ClusterID>,
    es: Seq<Held>,
    k: int,
    xs: Seq<ClusterID>,
    new_size: usize,
) -> (ys: Seq<ClusterID>)
    requires
        file_at(s, p, cs, es, k, xs),
        file_room(s, xs, new_size as int),
        whole_pages(s.vol),
        all_real(s.vol, bitmap_clusters(s.vol)),
        disjoint(xs, bitmap_clusters(s.vol)),
    ensures
        ({
            let c = es[k].inode;
            let n = pages_fetched(s, c).0.nodes[c];
            let (t, r) = file_resized(s, c, new_size);
            let (u, q) = pages_fetched(t, c);
            let m = u.nodes[c];
            &&& pages_fetched(s, c).1 == Ok::<(), Errno>(())
            &&& r == Ok::<(), Errno>(())
            &&& q == Ok::<(), Errno>(())
            &&& file_at(t, p, cs, es, k, ys)
            &&& file_in(u, p, cs, es, k, ys)
            &&& m.size == crate::exfat::fs::io::lesser(n.size as int, new_size as int)
            &&& m.pages.take(m.size as int) == n.pages.take(m.size as int)
        }),
{
    let c = es[k].inode;
    law_fetched(s, p, cs, es, k, xs);
    let n = pages_fetched(s, c).0.nodes[c];
    let ys = lemma_resize_keeps_disk(s, p, cs, es, k, xs, new_size, n.pages);
    let s1 = crate::exfat::fs::file::inode_resized(s, c, new_size).0;
    let t = file_resized(s, c, new_size).0;
    let z = s.vol.super_block.cluster_size as int;
    crate::arith::lemma_rounded_up(new_size as int, PAGE_SIZE as int);
    crate::exfat::laws::dir::lemma_dir_ok(s1, p, cs, es);
    crate::exfat::laws::dir::lemma_dir_entry(s1, p, cs, es, k);
    crate::exfat::laws::write::lemma_child_contents(s1, p, cs, es, k, t.nodes[c]);
    assert(t =~= s1.with_node(c, t.nodes[c]));
    assert(file_at(t, p, cs, es, k, ys));
    law_fetched(t, p, cs, es, k, ys);
    let m = pages_fetched(t, c).0.nodes[c];
    assert forall|j: int| 0 <= j < m.size implies #[trigger] m.pages[j] == n.pages[j] by {
        if !s.nodes[c].loaded {
            let a = j / 4096;
            let x = j % 4096;
            assert(a * PAGE_SIZE < s.nodes[c].size);
            assert(on_disk(s.vol, xs, n.pages, a));
            assert(on_disk(t.vol, ys, n.pages, a));
            assert(on_disk(t.vol, ys, m.pages, a));
            let at = place_of(s.vol.super_block, ys, a * PAGE_SIZE);
            assert(t.vol.disk[at + x] == n.pages[a * PAGE_SIZE + x]);
            assert(t.vol.disk[at + x] == m.pages[a * PAGE_SIZE + x]);
        }
    }
    assert(m.pages.take(m.size as int) =~= n.pages.take(m.size as int));
    ys
}

/// Reading a file on the disk gives what it has in memory once its pages are there: the
/// whole sectors among the bytes that are asked for.
pub proof fn law_direct_read_any(
    s: FsState,
    p: int,
    cs: Seq<ClusterID>,
    es: Seq<Held>,
    k: int,
    xs: Seq<ClusterID>,
    offset: int,
    len: int,
)
    requires
        file_at(s, p, cs, es, k, xs),
        whole_pages(s.vol),
        0 <= offset,
        0 <= len,
        crate::exfat::fs::io::sector_aligned(s.vol, offset),
        crate::exfat::fs::io::sector_aligned(s.vol, len),
    ensures
        ({
            let c = es[k].inode;
            let n = pages_fetched(s, c).0.nodes[c];
            let q = s.vol.super_block.sector_size as int;
            let start = crate::exfat::fs::io::lesser(n.size as int, offset) / q;
            let end = crate::exfat::fs::io::lesser(n.size as int, offset + len) / q;
            let (t, r) = crate::exfat::fs::io::file_read_direct(s, c, offset, len);
            &&& r == Ok::<Seq<u8>, Errno>(n.pages.subrange(start * q, end * q))
            &&& t == s.with_vol(t.vol)
            &&& vol_ok(t.vol)
        }),
{
    let c = es[k].inode;
    crate::exfat::laws::dir::lemma_dir_ok(s, p, cs, es);
    crate::exfat::laws::dir::lemma_dir_entry(s, p, cs, es, k);
    law_fetched(s, p, cs, es, k, xs);
    if s.nodes[c].loaded {
        crate::exfat::laws::direct::law_direct_read(s, c, xs, offset, len);
    } else {
        let n = pages_fetched(s, c).0.nodes[c];
        let q = s.vol.super_block.sector_size as int;
        let lo = crate::exfat::fs::io::lesser(n.size as int, offset);
        let hi = crate::exfat::fs::io::lesser(n.size as int, offset + len);
        let start = lo / q;
        let end = hi / q;
        vstd::arithmetic::div_mod::lemma_div_is_ordered(lo, hi, q);
        vstd::arithmetic::div_mod::lemma_div_pos_is_pos(lo, q);
        vstd::arithmetic::div_mod::lemma_fundamental_div_mod(hi, q);
        vstd::arithmetic::div_mod::lemma_mod_bound(hi, q);
        let to = end * q;
        assert(to <= hi) by (nonlinear_arith)
            requires
                hi == q * end + hi % q,
                0 <= hi % q,
                to == end * q,
        ;
        assert forall|m: int| start <= m < end implies #[trigger]
        crate::exfat::laws::direct::sector_on_disk(s.vol, xs, n.pages, m) by {
            let at = m * q;
            assert(0 <= at && at + q <= to) by (nonlinear_arith)
                requires
                    0 <= m,
                    m + 1 <= end,
                    to == end * q,
                    at == m * q,
                    0 < q,
            ;
            let a = at / 4096;
            assert(0 <= a && a * PAGE_SIZE < n.size);
            assert(on_disk(s.vol, xs, n.pages, a));
        }
        crate::exfat::laws::direct::lemma_sectors_read(
            s.vol,
            n.start_chain,
            xs,
            n.pages,
            start,
            end,
            Seq::empty(),
        );
        assert(Seq::<u8>::empty() + n.pages.subrange(start * q, to) =~= n.pages.subrange(
            start * q,
            to,
        ));
    }
}

} // verus!
