//! Writing files back: what they hold is on the disk afterwards.

use vstd::prelude::*;
use crate::errno::Errno;
use crate::exfat::chain::ExfatChain;
use crate::exfat::constants::{DENTRY_SIZE, PAGE_SIZE};
use crate::exfat::fat::ClusterID;
use crate::exfat::fs::io::inodes_synced;
use crate::exfat::fs::FsState;
use crate::exfat::laws::chain::{all_real, is_chain, vol_ok};
use crate::exfat::laws::direct::{on_disk, whole_pages};
use crate::exfat::laws::layout::Held;
use crate::exfat::laws::page::{data_ok, place_of};
use crate::exfat::laws::remove::entries_in;
use crate::exfat::laws::write::file_in;
use crate::exfat::volume::VolumeState;

verus! {

/// Whether clusters have none in common.
pub open spec fn disjoint(cs: Seq<ClusterID>, xs: Seq<ClusterID>) -> bool {
    forall|k: int| 0 <= k < cs.len() ==> !xs.contains(#[trigger] cs[k])
}

/// Clusters behind each other.
proof fn lemma_both(v: VolumeState, cs: Seq<ClusterID>, xs: Seq<ClusterID>)
    requires
        all_real(v, cs),
        all_real(v, xs),
        cs.no_duplicates(),
        xs.no_duplicates(),
        disjoint(cs, xs),
    ensures
        all_real(v, cs + xs),
        (cs + xs).no_duplicates(),
{
    let all = cs + xs;
    let n = cs.len() as int;
    assert forall|k: int| 0 <= k < all.len() implies crate::exfat::laws::fat::real_cluster(
        v,
        #[trigger] all[k] as int,
    ) by {
        if k < n {
            assert(all[k] == cs[k]);
        } else {
            assert(all[k] == xs[k - n]);
        }
    }
    assert forall|a: int, b: int| 0 <= a < all.len() && 0 <= b < all.len() && a != b implies all[a]
        != all[b] by {
        if a < n && b >= n {
            assert(all[a] == cs[a] && all[b] == xs[b - n]);
            assert(xs.contains(xs[b - n]));
        } else if b < n && a >= n {
            assert(all[b] == cs[b] && all[a] == xs[a - n]);
            assert(xs.contains(xs[a - n]));
        }
    }
}

/// Pages of different clusters lie in different blocks.
pub proof fn lemma_two_chains(
    v: VolumeState,
    cs: Seq<ClusterID>,
    xs: Seq<ClusterID>,
    a: int,
    b: int,
)
    requires
        v.super_block.wf(),
        data_ok(v),
        whole_pages(v),
        all_real(v, cs),
        all_real(v, xs),
        cs.no_duplicates(),
        xs.no_duplicates(),
        disjoint(cs, xs),
        0 <= a,
        a * PAGE_SIZE < cs.len() * v.super_block.cluster_size,
        0 <= b,
        b * PAGE_SIZE < xs.len() * v.super_block.cluster_size,
    ensures
        place_of(v.super_block, cs, a * PAGE_SIZE) + PAGE_SIZE <= place_of(
            v.super_block,
            xs,
            b * PAGE_SIZE,
        ) || place_of(v.super_block, xs, b * PAGE_SIZE) + PAGE_SIZE <= place_of(
            v.super_block,
            cs,
            a * PAGE_SIZE,
        ),
{
    let sb = v.super_block;
    let z = sb.cluster_size as int;
    crate::exfat::volume::lemma_cluster_size_positive(sb);
    let all = cs + xs;
    lemma_both(v, cs, xs);
    let n = cs.len() as int;
    let f = z / 4096;
    assert(z == 4096 * f);
    let m = n * f;
    let x = a * 4096;
    let y = b * 4096;
    assert((m + b) * 4096 == n * z + y) by (nonlinear_arith)
        requires
            m == n * f,
            z == 4096 * f,
            y == b * 4096,
    ;
    assert(n * z + xs.len() * z == all.len() * z) by (nonlinear_arith)
        requires
            all.len() == n + xs.len(),
    ;
    assert(0 <= m && 0 <= n * z) by (nonlinear_arith)
        requires
            0 <= n,
            0 <= f,
            0 <= z,
            m == n * f,
    ;
    crate::exfat::laws::direct::lemma_page_places(v, all, a, m + b);
    vstd::arithmetic::div_mod::lemma_fundamental_div_mod(x, z);
    vstd::arithmetic::div_mod::lemma_fundamental_div_mod(y, z);
    vstd::arithmetic::div_mod::lemma_mod_bound(x, z);
    vstd::arithmetic::div_mod::lemma_mod_bound(y, z);
    vstd::arithmetic::div_mod::lemma_div_pos_is_pos(x, z);
    vstd::arithmetic::div_mod::lemma_div_pos_is_pos(y, z);
    let i = x / z;
    let j = y / z;
    assert(i < n) by (nonlinear_arith)
        requires
            x == z * i + x % z,
            0 <= x % z,
            x < n * z,
            0 < z,
    ;
    assert(j < xs.len()) by (nonlinear_arith)
        requires
            y == z * j + y % z,
            0 <= y % z,
            y < xs.len() * z,
            0 < z,
    ;
    assert(n * z + y == z * (n + j) + y % z) by (nonlinear_arith)
        requires
            y == z * j + y % z,
    ;
    vstd::arithmetic::div_mod::lemma_fundamental_div_mod_converse(n * z + y, z, n + j, y % z);
    assert(all[i] == cs[i]);
    assert(all[n + j] == xs[j]);
}

/// Pages of some clusters that are on the disk stay there where pages of others are written.
pub proof fn lemma_pages_beside(
    v: VolumeState,
    chain: ExfatChain,
    cs: Seq<ClusterID>,
    pages: Seq<u8>,
    idx: int,
    end: int,
    xs: Seq<ClusterID>,
    other: Seq<u8>,
)
    requires
        vol_ok(v),
        data_ok(v),
        whole_pages(v),
        is_chain(v, chain, cs),
        all_real(v, xs),
        xs.no_duplicates(),
        disjoint(cs, xs),
        0 <= idx,
        end * PAGE_SIZE <= pages.len() <= usize::MAX,
        end > 0 ==> (end - 1) * PAGE_SIZE < cs.len() * v.super_block.cluster_size,
    ensures
        ({
            let w = crate::exfat::page::pages_written(v, chain, pages, idx, end).0;
            forall|a: int|
                0 <= a && a * PAGE_SIZE < xs.len() * v.super_block.cluster_size && on_disk(
                    v,
                    xs,
                    other,
                    a,
                ) ==> #[trigger] on_disk(w, xs, other, a)
        }),
    decreases end - idx,
{
    if idx < end {
        crate::exfat::laws::chain::lemma_chain_is_real(v, chain, cs);
        let bytes = pages.subrange(idx * PAGE_SIZE, (idx + 1) * PAGE_SIZE);
        crate::exfat::laws::page::lemma_page_written(v, chain, cs, idx, bytes);
        let (v1, r1) = crate::exfat::page::page_written(v, chain, idx, bytes);
        crate::exfat::laws::direct::lemma_page_places(v, cs, idx, idx);
        assert forall|a: int|
            0 <= a && a * PAGE_SIZE < xs.len() * v.super_block.cluster_size && on_disk(
                v,
                xs,
                other,
                a,
            ) implies #[trigger] on_disk(v1, xs, other, a) by {
            lemma_two_chains(v, cs, xs, idx, a);
            let at = place_of(v.super_block, xs, a * PAGE_SIZE);
            crate::exfat::laws::direct::lemma_page_places(v, xs, a, a);
            crate::exfat::laws::direct::lemma_place_room(v, xs, a * PAGE_SIZE, PAGE_SIZE as int);
            assert forall|k: int| 0 <= k < PAGE_SIZE implies #[trigger] v1.disk[at + k] == other[a
                * PAGE_SIZE + k] by {
                assert(v.disk[at + k] == other[a * PAGE_SIZE + k]);
            }
        }
        lemma_pages_beside(v1, chain, cs, pages, idx + 1, end, xs, other);
        let w = crate::exfat::page::pages_written(v, chain, pages, idx, end).0;
        assert(w == crate::exfat::page::pages_written(v1, chain, pages, idx + 1, end).0);
        assert forall|a: int|
            0 <= a && a * PAGE_SIZE < xs.len() * v.super_block.cluster_size && on_disk(
                v,
                xs,
                other,
                a,
            ) implies #[trigger] on_disk(w, xs, other, a) by {
            assert(on_disk(v1, xs, other, a));
        }
    }
}

/// Writing the entries of a file back puts them on the disk.
proof fn lemma_entries_synced(
    s: FsState,
    p: int,
    cs: Seq<ClusterID>,
    es: Seq<Held>,
    k: int,
    xs: Seq<ClusterID>,
)
    requires
        file_in(s, p, cs, es, k, xs),
        whole_pages(s.vol),
    ensures
        ({
            let e = es[k];
            let (t, r) = crate::exfat::fs::file::inode_written(s, e.inode, true);
            &&& forall|a: int|
                0 <= a && a * PAGE_SIZE < xs.len() * s.vol.super_block.cluster_size && on_disk(
                    s.vol,
                    xs,
                    s.nodes[e.inode].pages,
                    a,
                ) ==> #[trigger] on_disk(t.vol, xs, s.nodes[e.inode].pages, a)
            &&& forall|b: int|
                e.slot * DENTRY_SIZE / (PAGE_SIZE as int) <= b < crate::arith::pieces(
                    (e.slot + e.width) * DENTRY_SIZE,
                    PAGE_SIZE as int,
                ) ==> #[trigger] on_disk(t.vol, cs, t.nodes[p].pages, b)
            &&& crate::exfat::dentry::stream_at(
                entries_in(t.nodes[p].pages, e),
                DENTRY_SIZE as int,
            ) == crate::exfat::fs::file::stream_entry_of(
                crate::exfat::dentry::stream_at(
                    entries_in(s.nodes[p].pages, e),
                    DENTRY_SIZE as int,
                ),
                crate::exfat::fs::file::without_lost_sizes(s.vol, s.nodes[e.inode]),
            )
        }),
{
    let e = es[k];
    let d = s.nodes[p];
    crate::exfat::laws::dir::lemma_dir_ok(s, p, cs, es);
    crate::exfat::laws::dir::lemma_dir_entry(s, p, cs, es, k);
    crate::exfat::laws::remove::lemma_written_steps(s, p, cs, es, k, true);
    let n1 = crate::exfat::fs::file::without_lost_sizes(s.vol, s.nodes[e.inode]);
    let set = entries_in(d.pages, e);
    let new = crate::exfat::fs::file::entries_of(set, n1);
    crate::exfat::laws::remove::lemma_entries_of(set, n1);
    let s2 = crate::exfat::laws::remove::with_entries(s, p, e, n1, new);
    let pages = s2.nodes[p].pages;
    let from = e.slot * DENTRY_SIZE;
    let to = (e.slot + e.width) * DENTRY_SIZE;
    let first = from / (PAGE_SIZE as int);
    let last = crate::arith::pieces(to, PAGE_SIZE as int);
    crate::arith::lemma_rounded_up(to, PAGE_SIZE as int);
    crate::exfat::laws::chain::lemma_chain_is_real(
        s.vol,
        s.nodes[e.inode].start_chain,
        xs,
    );
    lemma_pages_beside(
        s.vol,
        d.start_chain,
        cs,
        pages,
        first,
        last,
        xs,
        s.nodes[e.inode].pages,
    );
    crate::exfat::laws::direct::lemma_pages_on_disk(
        s.vol,
        d.start_chain,
        cs,
        pages,
        first,
        last,
    );
    assert(entries_in(pages, e) =~= new);
    assert(new == crate::exfat::dentry_set::updated_set(
        set,
        crate::exfat::fs::file::file_entry_of(crate::exfat::dentry::file_at(set, 0), n1),
        crate::exfat::fs::file::stream_entry_of(
            crate::exfat::dentry::stream_at(set, DENTRY_SIZE as int),
            n1,
        ),
    )) by {
        reveal(crate::exfat::fs::file::entries_of);
    }
    crate::exfat::laws::entry::law_updated_set(
        set,
        crate::exfat::fs::file::file_entry_of(crate::exfat::dentry::file_at(set, 0), n1),
        crate::exfat::fs::file::stream_entry_of(
            crate::exfat::dentry::stream_at(set, DENTRY_SIZE as int),
            n1,
        ),
    );
}

/// Writing a file of a directory back succeeds: the first pages of it, as many as hold as
/// many bytes as its number, are on the disk afterwards, and so are its entries, which
/// tell its sizes and its first cluster.
pub proof fn law_file_synced(
    s: FsState,
    p: int,
    cs: Seq<ClusterID>,
    es: Seq<Held>,
    k: int,
    xs: Seq<ClusterID>,
)
    requires
        file_in(s, p, cs, es, k, xs),
        whole_pages(s.vol),
        s.nodes[es[k].inode].pages.len() <= xs.len() * s.vol.super_block.cluster_size,
    ensures
        ({
            let c = es[k].inode;
            let e = es[k];
            let n = s.nodes[c];
            let kept = crate::exfat::fs::io::lesser(n.ino as int, n.pages.len() as int);
            let (t, r) = crate::exfat::fs::io::inode_synced(s, c);
            &&& r == Ok::<(), Errno>(())
            &&& file_in(t, p, cs, es, k, xs)
            &&& t.nodes[c] == crate::exfat::fs::file::without_lost_sizes(s.vol, n)
            &&& forall|a: int|
                0 <= a < crate::arith::pieces(kept, PAGE_SIZE as int) ==> #[trigger] on_disk(
                    t.vol,
                    xs,
                    n.pages,
                    a,
                )
            &&& forall|b: int|
                e.slot * DENTRY_SIZE / (PAGE_SIZE as int) <= b < crate::arith::pieces(
                    (e.slot + e.width) * DENTRY_SIZE,
                    PAGE_SIZE as int,
                ) ==> #[trigger] on_disk(t.vol, cs, t.nodes[p].pages, b)
            &&& crate::exfat::dentry::stream_at(
                entries_in(t.nodes[p].pages, e),
                DENTRY_SIZE as int,
            ) == crate::exfat::fs::file::stream_entry_of(
                crate::exfat::dentry::stream_at(
                    entries_in(s.nodes[p].pages, e),
                    DENTRY_SIZE as int,
                ),
                t.nodes[c],
            )
        }),
{
    let c = es[k].inode;
    let n = s.nodes[c];
    let kept = crate::exfat::fs::io::lesser(n.ino as int, n.pages.len() as int);
    crate::exfat::laws::dir::lemma_dir_ok(s, p, cs, es);
    crate::exfat::laws::dir::lemma_dir_entry(s, p, cs, es, k);
    let last = crate::arith::pieces(kept, PAGE_SIZE as int);
    crate::arith::lemma_rounded_up(kept, PAGE_SIZE as int);
    crate::exfat::laws::page::lemma_pages_written(
        s.vol,
        n.start_chain,
        xs,
        n.pages,
        0,
        last,
    );
    crate::exfat::laws::direct::lemma_pages_on_disk(
        s.vol,
        n.start_chain,
        xs,
        n.pages,
        0,
        last,
    );
    let (s1, r1) = crate::exfat::fs::file::node_range_written(s, c, 0, kept);
    crate::exfat::laws::write::lemma_dir_fat_kept(s, s1.vol, p, cs, es);
    assert(file_in(s1, p, cs, es, k, xs));
    crate::exfat::laws::remove::lemma_child_written(s1, p, cs, es, k, true);
    lemma_entries_synced(s1, p, cs, es, k, xs);
    let (t, r) = crate::exfat::fs::io::inode_synced(s, c);
    crate::exfat::laws::page::lemma_chain_kept(s1.vol, t.vol, n.start_chain, xs);
    assert forall|a: int| 0 <= a < last implies #[trigger] on_disk(t.vol, xs, n.pages, a) by {
        assert(on_disk(s1.vol, xs, n.pages, a));
    }
}

/// Writing inodes back writes one after the other back, each of them once and in their order,
/// until one fails, whose error is returned; those behind it are not written back.
pub proof fn law_sync_in_order(s: FsState, a: Seq<usize>, c: usize, b: Seq<usize>)
    ensures
        inodes_synced(s, Seq::empty(), 0) == (s, Ok::<(), Errno>(())),
        inodes_synced(s, a, 0).1 is Err ==> inodes_synced(s, a + seq![c] + b, 0) == inodes_synced(
            s,
            a,
            0,
        ),
        inodes_synced(s, a, 0).1 is Ok ==> ({
            let t = inodes_synced(s, a, 0).0;
            let (u, r) = crate::exfat::fs::io::inode_synced(t, c as int);
            inodes_synced(s, a + seq![c] + b, 0) == (if r is Ok {
                inodes_synced(u, b, 0)
            } else {
                (u, r)
            })
        }),
{
    let all = a + seq![c] + b;
    lemma_synced_parts(s, all, a, 0);
    if inodes_synced(s, a, 0).1 is Ok {
        let t = inodes_synced(s, a, 0).0;
        let k = a.len() as int;
        assert(all[k] == c);
        let (u, r) = crate::exfat::fs::io::inode_synced(t, c as int);
        if r is Ok {
            lemma_synced_rest(u, all, b, k + 1, 0);
        }
    }
}

/// Writing back the first inodes of some.
proof fn lemma_synced_parts(s: FsState, all: Seq<usize>, a: Seq<usize>, k: int)
    requires
        0 <= k <= a.len() <= all.len(),
        forall|j: int| 0 <= j < a.len() ==> #[trigger] all[j] == a[j],
    ensures
        inodes_synced(s, a, k).1 is Err ==> inodes_synced(s, all, k) == inodes_synced(s, a, k),
        inodes_synced(s, a, k).1 is Ok ==> inodes_synced(s, all, k) == inodes_synced(
            inodes_synced(s, a, k).0,
            all,
            a.len() as int,
        ),
    decreases a.len() - k,
{
    if k < a.len() {
        assert(all[k] == a[k]);
        let (t, r) = crate::exfat::fs::io::inode_synced(s, a[k] as int);
        if r is Ok {
            lemma_synced_parts(t, all, a, k + 1);
        }
    }
}

/// Writing back the last inodes of some.
proof fn lemma_synced_rest(s: FsState, all: Seq<usize>, b: Seq<usize>, from: int, k: int)
    requires
        0 <= k <= b.len(),
        all.len() == from + b.len(),
        0 <= from,
        forall|j: int| 0 <= j < b.len() ==> all[from + j] == #[trigger] b[j],
    ensures
        inodes_synced(s, all, from + k) == inodes_synced(s, b, k),
    decreases b.len() - k,
{
    if k < b.len() {
        assert(all[from + k] == b[k]);
        let (t, r) = crate::exfat::fs::io::inode_synced(s, b[k] as int);
        if r is Ok {
            lemma_synced_rest(t, all, b, from, k + 1);
        }
    }
}

} // verus!
