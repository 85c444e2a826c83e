//! Writing files: it succeeds where there is room, and what was written is read.

use vstd::prelude::*;
use crate::errno::Errno;
use crate::exfat::constants::PAGE_SIZE;
use crate::exfat::fat::ClusterID;
use crate::exfat::fs::FsState;
use crate::exfat::inode::InodeView;
use crate::exfat::laws::chain::{is_chain, vol_ok};
use crate::exfat::laws::dir::dir_ok;
use crate::exfat::laws::direct::{has_file, whole_pages};
use crate::exfat::laws::layout::{laid_out, Held};
use crate::exfat::laws::page::{data_ok, fat_kept};
use crate::exfat::laws::remove::{clusters_for, off_limits, others_same, touched};
use crate::exfat::volume::VolumeState;

verus! {

/// Whether a file can have `size` bytes: there are clusters for them, and they can be
/// held in memory.
pub open spec fn file_room(s: FsState, xs: Seq<ClusterID>, size: int) -> bool {
    &&& size + PAGE_SIZE <= usize::MAX
    &&& clusters_for(s, size as usize) <= u32::MAX
    &&& clusters_for(s, size as usize) <= xs.len() + crate::exfat::bitmap::count_free(s.vol.bits)
}

/// Whether the directory `p` with the clusters `cs` holds, as the one with the number `k`
/// of its inodes `es`, a file with the clusters `xs`.
pub open spec fn file_at(
    s: FsState,
    p: int,
    cs: Seq<ClusterID>,
    es: Seq<Held>,
    k: int,
    xs: Seq<ClusterID>,
) -> bool {
    &&& dir_ok(s, p, cs, es)
    &&& data_ok(s.vol)
    &&& 0 <= k < es.len()
    &&& has_file(s.vol, s.nodes[es[k].inode], xs)
    &&& off_limits(s, p, cs, xs)
}

/// Whether the directory `p` with the clusters `cs` holds, as the one with the number `k`
/// of its inodes `es`, a file with the clusters `xs` that has all its bytes in memory.
pub open spec fn file_in(
    s: FsState,
    p: int,
    cs: Seq<ClusterID>,
    es: Seq<Held>,
    k: int,
    xs: Seq<ClusterID>,
) -> bool {
    file_at(s, p, cs, es, k, xs) && s.nodes[es[k].inode].loaded
}

/// A directory holds what it held where only contents of clusters change.
pub proof fn lemma_dir_fat_kept(
    s: FsState,
    w: VolumeState,
    i: int,
    cs: Seq<ClusterID>,
    es: Seq<Held>,
)
    requires
        dir_ok(s, i, cs, es),
        fat_kept(s.vol, w),
        vol_ok(w),
    ensures
        dir_ok(s.with_vol(w), i, cs, es),
{
    crate::exfat::laws::dir::lemma_dir_ok(s, i, cs, es);
    let t = s.with_vol(w);
    crate::exfat::laws::page::lemma_chain_kept(s.vol, w, s.nodes[i].start_chain, cs);
    assert(laid_out(t.nodes[i].pages, es)) by {
        reveal(dir_ok);
    }
    crate::exfat::laws::dir::lemma_dir_frame(s, t, i, cs, es);
}

/// A directory holds what it held where pages and sizes of one of its inodes change.
pub proof fn lemma_child_contents(
    s: FsState,
    i: int,
    cs: Seq<ClusterID>,
    es: Seq<Held>,
    k: int,
    n: InodeView,
)
    requires
        dir_ok(s, i, cs, es),
        0 <= k < es.len(),
        crate::exfat::laws::dir::same_place(n, s.nodes[es[k].inode]),
    ensures
        dir_ok(s.with_node(es[k].inode, n), i, cs, es),
{
    crate::exfat::laws::dir::lemma_dir_ok(s, i, cs, es);
    crate::exfat::laws::dir::lemma_dir_entry(s, i, cs, es, k);
    let none = Seq::<ClusterID>::empty();
    let t = s.with_node(es[k].inode, n);
    assert(others_same(s.vol, t.vol, touched(none, none)));
    crate::exfat::laws::remove::lemma_child_changed(s, t, i, cs, es, k, none, none);
}

/// The bytes of clusters reach as far as the bytes that they were taken for.
proof fn lemma_clusters_for(s: FsState, size: usize)
    requires
        s.vol.super_block.wf(),
    ensures
        size <= clusters_for(s, size) * s.vol.super_block.cluster_size,
        0 <= clusters_for(s, size),
{
    crate::exfat::volume::lemma_cluster_size_positive(s.vol.super_block);
    crate::arith::lemma_rounded_up(size as int, s.vol.super_block.cluster_size as int);
}

/// Resizing a file: it then has clusters for its bytes.
pub proof fn lemma_file_resized(
    s: FsState,
    p: int,
    cs: Seq<ClusterID>,
    es: Seq<Held>,
    k: int,
    xs: Seq<ClusterID>,
    size: usize,
) -> (ys: Seq<ClusterID>)
    requires
        dir_ok(s, p, cs, es),
        data_ok(s.vol),
        0 <= k < es.len(),
        is_chain(s.vol, s.nodes[es[k].inode].start_chain, xs),
        s.nodes[es[k].inode].inode_type is File,
        off_limits(s, p, cs, xs),
        file_room(s, xs, size as int),
    ensures
        ({
            let c = es[k].inode;
            let (t, r) = crate::exfat::fs::file::inode_resized(s, c, size);
            &&& r == Ok::<(), Errno>(())
            &&& dir_ok(t, p, cs, es)
            &&& data_ok(t.vol)
            &&& t.vol.super_block == s.vol.super_block
            &&& is_chain(t.vol, t.nodes[c].start_chain, ys)
            &&& ys.len() == clusters_for(s, size)
            &&& crate::exfat::bitmap::count_free(t.vol.bits) + ys.len()
                == crate::exfat::bitmap::count_free(s.vol.bits) + xs.len()
            &&& size <= ys.len() * s.vol.super_block.cluster_size
            &&& t.nodes.len() == s.nodes.len()
            &&& t.nodes[c].pages == s.nodes[c].pages
            &&& t.nodes[c].inode_type is File
            &&& t.nodes[c].loaded == s.nodes[c].loaded
            &&& crate::exfat::laws::dir::same_place(t.nodes[c], s.nodes[c])
            &&& off_limits(t, p, cs, ys)
        }),
{
    crate::exfat::laws::dir::lemma_dir_ok(s, p, cs, es);
    crate::exfat::laws::dir::lemma_dir_entry(s, p, cs, es, k);
    lemma_clusters_for(s, size);
    let (ys, ds) = crate::exfat::laws::remove::law_resized(s, p, cs, es, k, size, xs);
    let t = crate::exfat::fs::file::inode_resized(s, es[k].inode, size).0;
    crate::exfat::laws::remove::lemma_off_limits(s, t, p, cs, xs, ds, ys);
    ys
}

/// Writing to a file of a directory succeeds where there is room: the bytes are read
/// afterwards, and the directory holds what it held.
pub proof fn law_write_succeeds(
    s: FsState,
    p: int,
    cs: Seq<ClusterID>,
    es: Seq<Held>,
    k: int,
    xs: Seq<ClusterID>,
    offset: int,
    bytes: Seq<u8>,
) -> (ys: Seq<ClusterID>)
    requires
        file_at(s, p, cs, es, k, xs),
        0 <= offset,
        file_room(s, xs, offset + bytes.len()),
    ensures
        ({
            let c = es[k].inode;
            let (t, r) = crate::exfat::fs::io::file_written(s, c, offset, bytes);
            &&& r == Ok::<usize, Errno>(bytes.len() as usize)
            &&& file_in(t, p, cs, es, k, ys)
            &&& crate::exfat::fs::io::file_read(t.nodes[c], offset, bytes.len() as int) == Ok::<
                Seq<u8>,
                Errno,
            >(bytes)
            &&& t.vol.super_block == s.vol.super_block
            &&& crate::exfat::bitmap::count_free(t.vol.bits) + ys.len()
                == crate::exfat::bitmap::count_free(s.vol.bits) + xs.len()
        }),
{
    let c = es[k].inode;
    crate::exfat::laws::fetch::law_fetched(s, p, cs, es, k, xs);
    let u = crate::exfat::fs::io::pages_fetched(s, c).0;
    crate::exfat::laws::dir::lemma_dir_ok(u, p, cs, es);
    crate::exfat::laws::dir::lemma_dir_entry(u, p, cs, es, k);
    let end = (offset + bytes.len()) as usize;
    crate::exfat::laws::file::law_read_after_write(u, c, offset, bytes);
    let (t, r) = crate::exfat::fs::io::file_written(s, c, offset, bytes);
    assert((t, r) == crate::exfat::fs::io::file_written(u, c, offset, bytes));
    if end <= u.nodes[c].size {
        let n = t.nodes[c];
        lemma_child_contents(u, p, cs, es, k, n);
        assert(t =~= u.with_node(c, n));
        xs
    } else {
        let ys = lemma_file_resized(u, p, cs, es, k, xs, end);
        let s1 = crate::exfat::fs::file::inode_resized(u, c, end).0;
        crate::arith::lemma_rounded_up(end as int, PAGE_SIZE as int);
        let n = t.nodes[c];
        lemma_child_contents(s1, p, cs, es, k, n);
        assert(t =~= s1.with_node(c, n));
        ys
    }
}

/// Making room on the disk for the bytes of a file.
proof fn lemma_direct_room(
    s: FsState,
    p: int,
    cs: Seq<ClusterID>,
    es: Seq<Held>,
    k: int,
    xs: Seq<ClusterID>,
    end: usize,
) -> (ys: Seq<ClusterID>)
    requires
        file_in(s, p, cs, es, k, xs),
        file_room(s, xs, end as int),
    ensures
        ({
            let c = es[k].inode;
            let (t, r) = crate::exfat::fs::io::direct_room_made(s, c, end);
            &&& r == Ok::<(), Errno>(())
            &&& file_in(t, p, cs, es, k, ys)
            &&& end <= t.nodes[c].size
            &&& t.vol.super_block == s.vol.super_block
            &&& t.nodes.len() == s.nodes.len()
        }),
{
    let c = es[k].inode;
    let n = s.nodes[c];
    crate::exfat::laws::dir::lemma_dir_ok(s, p, cs, es);
    crate::exfat::laws::dir::lemma_dir_entry(s, p, cs, es, k);
    if end <= n.size {
        xs
    } else {
        crate::arith::lemma_rounded_up(end as int, PAGE_SIZE as int);
        let n1 = InodeView { pages: crate::exfat::fs::pages_for(n.pages, end as int), ..n };
        lemma_child_contents(s, p, cs, es, k, n1);
        let s1 = s.with_node(c, n1);
        let ys = lemma_file_resized(s1, p, cs, es, k, xs, end);
        let s2 = crate::exfat::fs::file::inode_resized(s1, c, end).0;
        let n2 = InodeView { size: end, ..s2.nodes[c] };
        lemma_child_contents(s2, p, cs, es, k, n2);
        let t = crate::exfat::fs::io::direct_room_made(s, c, end).0;
        assert(t == s2.with_node(c, n2));
        ys
    }
}

/// Writing back what a file has in memory before a direct write.
proof fn lemma_flushed(
    s: FsState,
    p: int,
    cs: Seq<ClusterID>,
    es: Seq<Held>,
    k: int,
    xs: Seq<ClusterID>,
    from: int,
    to: int,
)
    requires
        file_in(s, p, cs, es, k, xs),
        0 <= from,
        0 <= to <= s.nodes[es[k].inode].size,
    ensures
        ({
            let c = es[k].inode;
            let (t, r) = crate::exfat::fs::file::node_range_written(s, c, from, to);
            &&& r == Ok::<(), Errno>(())
            &&& file_in(t, p, cs, es, k, xs)
            &&& t == s.with_vol(t.vol)
            &&& fat_kept(s.vol, t.vol)
        }),
{
    let c = es[k].inode;
    let n = s.nodes[c];
    crate::exfat::laws::dir::lemma_dir_ok(s, p, cs, es);
    crate::exfat::laws::dir::lemma_dir_entry(s, p, cs, es, k);
    let first = from / (PAGE_SIZE as int);
    let last = crate::arith::pieces(to, PAGE_SIZE as int);
    crate::arith::lemma_rounded_up(to, PAGE_SIZE as int);
    crate::exfat::laws::page::lemma_pages_written(
        s.vol,
        n.start_chain,
        xs,
        n.pages,
        first,
        last,
    );
    let (t, r) = crate::exfat::fs::file::node_range_written(s, c, from, to);
    lemma_dir_fat_kept(s, t.vol, p, cs, es);
}

/// Writing to a file of a directory on the disk succeeds where there is room: the bytes
/// are read afterwards, on the disk and in memory, and the directory holds what it held.
pub proof fn law_direct_write(
    s: FsState,
    p: int,
    cs: Seq<ClusterID>,
    es: Seq<Held>,
    k: int,
    xs: Seq<ClusterID>,
    offset: int,
    bytes: Seq<u8>,
) -> (ys: Seq<ClusterID>)
    requires
        file_in(s, p, cs, es, k, xs),
        whole_pages(s.vol),
        0 <= offset,
        crate::exfat::fs::io::sector_aligned(s.vol, offset),
        crate::exfat::fs::io::sector_aligned(s.vol, bytes.len() as int),
        file_room(s, xs, offset + bytes.len()),
    ensures
        ({
            let c = es[k].inode;
            let len = bytes.len() as int;
            let (t, r) = crate::exfat::fs::io::file_written_direct(s, c, offset, bytes);
            &&& r == Ok::<usize, Errno>(bytes.len() as usize)
            &&& file_in(t, p, cs, es, k, ys)
            &&& crate::exfat::fs::io::file_read(t.nodes[c], offset, len) == Ok::<Seq<u8>, Errno>(
                bytes,
            )
            &&& crate::exfat::fs::io::file_read_direct(t, c, offset, len).1 == Ok::<
                Seq<u8>,
                Errno,
            >(bytes)
        }),
{
    let c = es[k].inode;
    let n = s.nodes[c];
    let len = bytes.len() as int;
    let end = offset + len;
    let q = s.vol.super_block.sector_size as int;
    crate::exfat::laws::dir::lemma_dir_ok(s, p, cs, es);
    crate::exfat::laws::dir::lemma_dir_entry(s, p, cs, es, k);
    lemma_flushed(
        s,
        p,
        cs,
        es,
        k,
        xs,
        crate::exfat::fs::io::lesser(offset, n.size as int),
        crate::exfat::fs::io::lesser(end, n.size as int),
    );
    let (s1, r1) = crate::exfat::fs::file::node_range_written(
        s,
        c,
        crate::exfat::fs::io::lesser(offset, n.size as int),
        crate::exfat::fs::io::lesser(end, n.size as int),
    );
    let ys = lemma_direct_room(s1, p, cs, es, k, xs, end as usize);
    let (s2, r2) = crate::exfat::fs::io::direct_room_made(s1, c, end as usize);
    vstd::arithmetic::div_mod::lemma_fundamental_div_mod(offset, q);
    vstd::arithmetic::div_mod::lemma_div_pos_is_pos(offset, q);
    let sector = offset / q;
    assert(sector * q == offset) by (nonlinear_arith)
        requires
            offset == q * sector,
    ;
    crate::exfat::laws::dir::lemma_dir_ok(s2, p, cs, es);
    crate::exfat::laws::direct::lemma_sectors_written(s2, c, ys, sector, bytes, 0);
    assert(bytes.skip(0) =~= bytes);
    let (t, r3) = crate::exfat::fs::io::sectors_written(s2, c, sector, bytes, 0);
    let n3 = t.nodes[c];
    lemma_dir_fat_kept(s2, t.vol, p, cs, es);
    lemma_child_contents(s2.with_vol(t.vol), p, cs, es, k, n3);
    assert(t =~= s2.with_vol(t.vol).with_node(c, n3));
    assert(n3.pages.subrange(offset, end) =~= bytes);
    vstd::arithmetic::div_mod::lemma_mod_adds(offset, len, q);
    vstd::arithmetic::div_mod::lemma_fundamental_div_mod(end, q);
    assert(end / q * q == end) by (nonlinear_arith)
        requires
            end == q * (end / q) + end % q,
            end % q == 0,
    ;
    crate::exfat::laws::direct::law_direct_read(t, c, ys, offset, len);
    ys
}

} // verus!
