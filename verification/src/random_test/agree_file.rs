//! The model and the file system agree on files.

use vstd::prelude::*;
use crate::exfat::constants::PAGE_SIZE;
use crate::exfat::fat::ClusterID;
use crate::exfat::fs::FsState;
use crate::exfat::inode::InodeView;
use crate::exfat::laws::layout::Held;
use crate::exfat::laws::write::{file_in, file_room};
use crate::random_test::{FileView, OperationView};

verus! {

/// Whether an inode is a file that holds what a file of the model says.
pub open spec fn file_agrees(f: FileView, n: InodeView) -> bool {
    &&& f.wf()
    &&& n.inode_type is File
    &&& n.loaded
    &&& f.valid_len == n.size
    &&& n.size <= n.pages.len()
    &&& forall|k: int| 0 <= k < f.valid_len ==> #[trigger] n.pages[k] == f.contents[k]
}

/// Reading a file gives what the model says, and changes nothing.
pub proof fn law_read_agrees(
    f: FileView,
    s: FsState,
    offset: usize,
    len: usize,
    random: Seq<u8>,
)
    requires
        file_agrees(f, s.nodes[f.inode]),
    ensures
        crate::random_test::file::file_executed(f, s, OperationView::Read(offset, len), random)
            == (f, s, random, true),
{
    let n = s.nodes[f.inode];
    let start = crate::exfat::fs::io::lesser(offset as int, f.valid_len as int);
    let end = crate::exfat::fs::io::lesser(offset + len, f.valid_len as int);
    let bytes = n.pages.subrange(
        crate::exfat::fs::io::lesser(n.size as int, offset as int),
        crate::exfat::fs::io::lesser(n.size as int, offset + len),
    );
    let read = crate::bytes::overwritten(
        crate::random_test::file::zeros(len as int),
        0,
        bytes,
    ).take(end - start);
    assert(read =~= f.contents.subrange(start, end)) by {
        assert forall|k: int| 0 <= k < end - start implies read[k] == f.contents[start + k] by {
            assert(read[k] == bytes[k]);
            assert(bytes[k] == n.pages[start + k]);
        }
    }
}

/// Writing to a file of a directory does what the model says where there is room.
pub proof fn law_write_agrees(
    f: FileView,
    s: FsState,
    p: int,
    cs: Seq<ClusterID>,
    es: Seq<Held>,
    k: int,
    xs: Seq<ClusterID>,
    offset: usize,
    len: usize,
    random: Seq<u8>,
) -> (ys: Seq<ClusterID>)
    requires
        file_in(s, p, cs, es, k, xs),
        f.inode == es[k].inode,
        file_agrees(f, s.nodes[f.inode]),
        file_room(s, xs, offset + len),
    ensures
        ({
            let (g, t, rest, agrees) = crate::random_test::file::file_executed(
                f,
                s,
                OperationView::Write(offset, len),
                random,
            );
            &&& agrees
            &&& g.inode == f.inode
            &&& file_agrees(g, t.nodes[g.inode])
            &&& file_in(t, p, cs, es, k, ys)
        }),
{
    let c = es[k].inode;
    let at = crate::random_test::file::write_start(f, offset as int);
    let n = offset + len - at;
    let bytes = crate::random_test::random::random_bytes(random, n);
    crate::exfat::laws::dir::lemma_dir_ok(s, p, cs, es);
    crate::exfat::laws::dir::lemma_dir_entry(s, p, cs, es, k);
    let ys = crate::exfat::laws::write::law_write_succeeds(s, p, cs, es, k, xs, at, bytes);
    crate::exfat::laws::file::law_read_after_write(s, c, at, bytes);
    lemma_not_own_parent(s, p, cs, es, k);
    crate::exfat::laws::file::law_write_keeps_the_rest(s, c, at, bytes);
    let (t, r) = crate::exfat::fs::io::file_written(s, c, at, bytes);
    let g = crate::random_test::file::model_written(f, at, bytes);
    crate::random_test::file::law_model_read_after_write(f, at, bytes);
    let m = t.nodes[c];
    assert forall|x: int| 0 <= x < g.valid_len implies #[trigger] m.pages[x] == g.contents[x] by {
        if at <= x < at + bytes.len() {
            let read = m.pages.subrange(at, at + bytes.len());
            assert(read == bytes);
            assert(read[x - at] == bytes[x - at]);
            assert(g.contents.subrange(at, at + bytes.len())[x - at] == bytes[x - at]);
        } else {
            assert(x < f.valid_len);
            assert(s.nodes[c].pages[x] == f.contents[x]);
        }
    }
    ys
}

/// No inode of a directory is found as the directory that holds it.
proof fn lemma_not_own_parent(s: FsState, p: int, cs: Seq<ClusterID>, es: Seq<Held>, k: int)
    requires
        crate::exfat::laws::dir::dir_ok(s, p, cs, es),
        0 <= k < es.len(),
    ensures
        !crate::exfat::laws::file::holds(s, es[k].inode, es[k].inode),
{
    crate::exfat::laws::dir::lemma_dir_ok(s, p, cs, es);
    crate::exfat::laws::dir::lemma_dir_entry(s, p, cs, es, k);
}

/// A resized file counts the bytes that it had and that are left as written, and none
/// where it has no clusters.
proof fn lemma_size_left(s: FsState, c: int, new_size: usize)
    requires
        0 <= c < s.nodes.len(),
        s.opened_exist(),
        0 <= crate::exfat::laws::remove::clusters_for(s, new_size) <= u32::MAX,
        crate::exfat::fs::file::inode_resized(s, c, new_size).1 is Ok,
    ensures
        ({
            let t = crate::exfat::fs::file::inode_resized(s, c, new_size).0;
            t.nodes[c].size == crate::exfat::fs::io::lesser(
                s.nodes[c].size as int,
                new_size as int,
            ) || t.nodes[c].size == 0
                && !crate::exfat::volume::valid_cluster(
                t.vol.super_block,
                t.nodes[c].start_chain.current as int,
            )
        }),
{
    reveal(crate::exfat::fs::file::inode_resized);
    reveal(crate::exfat::fs::file::inode_written);
    crate::exfat::laws::file::lemma_inode_resized(s, c, new_size);
    let n = s.nodes[c];
    let have = n.start_chain.num_clusters;
    let want = crate::arith::pieces(
        new_size as int,
        s.vol.super_block.cluster_size as int,
    ) as u32;
    if want > have {
        crate::exfat::chain::lemma_chain_extended_frame(
            s.vol,
            n.start_chain,
            (want - have) as u32,
            true,
        );
    } else if want < have {
        crate::exfat::chain::lemma_chain_shortened_frame(
            s.vol,
            n.start_chain,
            (have - want) as u32,
            true,
        );
    }
    let s1 = crate::exfat::fs::file::clusters_adjusted(s, c, new_size).0;
    assert(s1.vol.super_block == s.vol.super_block);
    assert(s1.nodes[c].size == crate::exfat::fs::io::lesser(n.size as int, new_size as int));
}

/// Resizing a file of a directory does what the model says where there is room.
pub proof fn law_resize_agrees(
    f: FileView,
    s: FsState,
    p: int,
    cs: Seq<ClusterID>,
    es: Seq<Held>,
    k: int,
    xs: Seq<ClusterID>,
    new_size: usize,
    random: Seq<u8>,
) -> (ys: Seq<ClusterID>)
    requires
        file_in(s, p, cs, es, k, xs),
        f.inode == es[k].inode,
        file_agrees(f, s.nodes[f.inode]),
        file_room(s, xs, new_size as int),
    ensures
        ({
            let (g, t, rest, agrees) = crate::random_test::file::file_executed(
                f,
                s,
                OperationView::Resize(new_size),
                random,
            );
            &&& agrees
            &&& g.inode == f.inode
            &&& file_agrees(g, t.nodes[g.inode])
            &&& file_in(t, p, cs, es, k, ys)
        }),
{
    let c = es[k].inode;
    crate::exfat::laws::dir::lemma_dir_ok(s, p, cs, es);
    crate::exfat::laws::dir::lemma_dir_entry(s, p, cs, es, k);
    let ys = crate::exfat::laws::write::lemma_file_resized(s, p, cs, es, k, xs, new_size);
    lemma_size_left(s, c, new_size);
    let s1 = crate::exfat::fs::file::inode_resized(s, c, new_size).0;
    let (t, r) = crate::exfat::fs::file::file_resized(s, c, new_size);
    crate::arith::lemma_rounded_up(new_size as int, PAGE_SIZE as int);
    let m = t.nodes[c];
    if new_size > 0 {
        assert(0 < ys.len()) by {
            let z = s.vol.super_block.cluster_size as int;
            let n = ys.len() as int;
            assert(n == 0 ==> n * z == 0) by (nonlinear_arith);
        }
        assert(crate::exfat::laws::chain::taken(s1.vol, ys[0]));
    }
    assert(m.size <= ys.len() * s.vol.super_block.cluster_size) by {
        let z = s.vol.super_block.cluster_size as int;
        if xs.len() <= ys.len() {
            let have = xs.len() as int;
            let n = ys.len() as int;
            assert(have * z <= n * z) by (nonlinear_arith)
                requires
                    have <= n,
                    0 <= z,
            ;
        }
    }
    crate::exfat::laws::write::lemma_child_contents(s1, p, cs, es, k, m);
    assert(t =~= s1.with_node(c, m));
    lemma_not_own_parent(s, p, cs, es, k);
    crate::exfat::laws::file::law_resize_keeps_contents(s, c, new_size);
    let g = crate::random_test::file::model_resized(f, new_size);
    assert forall|x: int| 0 <= x < g.valid_len implies #[trigger] m.pages[x] == g.contents[x] by {
        assert(s.nodes[c].pages[x] == f.contents[x]);
    }
    ys
}

} // verus!
