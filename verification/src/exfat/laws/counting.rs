//! Counting free clusters: what resizing a file takes and gives back.

use vstd::prelude::*;
use crate::errno::Errno;
use crate::exfat::fat::ClusterID;
use crate::exfat::fs::file::{file_resized, inode_resized, inode_written};
use crate::exfat::fs::FsState;
use crate::exfat::inode::InodeView;
use crate::exfat::laws::chain::{is_chain, taken, vol_ok};
use crate::exfat::laws::remove::clusters_for;

verus! {

/// Writing an inode back leaves the bitmap alone.
proof fn lemma_bits_kept(s: FsState, i: int, sync: bool)
    requires
        0 <= i < s.nodes.len(),
    ensures
        inode_written(s, i, sync).0.vol.bits == s.vol.bits,
        inode_written(s, i, sync).0.vol.super_block == s.vol.super_block,
{
    reveal(inode_written);
    let n = s.nodes[i];
    match s.find(n.parent_hash) {
        Some(p) => match crate::exfat::dentry_set::set_at(
            s.nodes[p as int].pages,
            n.dentry_entry as int,
        ) {
            Ok(set) => {
                let n1 = crate::exfat::fs::file::without_lost_sizes(s.vol, n);
                let s1 = s.with_node(i, n1);
                let at = n.dentry_entry * crate::exfat::constants::DENTRY_SIZE;
                let parent = s1.nodes[p as int];
                let s2 = s1.with_node(
                    p as int,
                    InodeView {
                        pages: crate::bytes::overwritten(
                            parent.pages,
                            at,
                            crate::exfat::fs::file::entries_of(set, n1),
                        ),
                        ..parent
                    },
                );
                crate::exfat::page::lemma_pages_written_frame(
                    s2.vol,
                    s2.nodes[p as int].start_chain,
                    s2.nodes[p as int].pages,
                    at / (crate::exfat::constants::PAGE_SIZE as int),
                    crate::arith::pieces(
                        at + set.len(),
                        crate::exfat::constants::PAGE_SIZE as int,
                    ),
                );
            },
            Err(_) => {},
        },
        None => {},
    }
}

/// Where resizing a file succeeds, as many clusters are free as were free with those that
/// the file had, without those that its bytes take; so making a file empty frees all its
/// clusters. Clusters of others stay in use.
pub proof fn law_resize_counts(s: FsState, i: int, new_size: usize, xs: Seq<ClusterID>)
    requires
        0 <= i < s.nodes.len(),
        vol_ok(s.vol),
        is_chain(s.vol, s.nodes[i].start_chain, xs),
        clusters_for(s, new_size) <= u32::MAX,
        file_resized(s, i, new_size).1 == Ok::<(), Errno>(()),
    ensures
        ({
            let t = file_resized(s, i, new_size).0;
            &&& crate::exfat::bitmap::count_free(t.vol.bits) + clusters_for(s, new_size)
                == crate::exfat::bitmap::count_free(s.vol.bits) + xs.len()
            &&& forall|c: ClusterID|
                taken(s.vol, c) && !xs.contains(c) ==> #[trigger] taken(t.vol, c)
        }),
{
    reveal(inode_resized);
    let n = s.nodes[i];
    let z = s.vol.super_block.cluster_size as int;
    crate::exfat::volume::lemma_cluster_size_positive(s.vol.super_block);
    crate::arith::lemma_rounded_up(new_size as int, z);
    let want = clusters_for(s, new_size);
    let have = xs.len() as int;
    let (s1, r1) = crate::exfat::fs::file::clusters_adjusted(s, i, new_size);
    if want > have {
        let more = (want - have) as u32;
        assert(more <= crate::exfat::bitmap::count_free(s.vol.bits) && have + more <= u32::MAX)
            by {
            reveal(crate::exfat::chain::chain_grown);
        }
        let ds = crate::exfat::laws::chain::law_chain_extended(
            s.vol,
            n.start_chain,
            xs,
            more,
            true,
        );
        assert forall|c: ClusterID| taken(s.vol, c) && !xs.contains(c) implies #[trigger] taken(
            s1.vol,
            c,
        ) by {
            if ds.contains(c) {
                let k = choose|k: int| 0 <= k < ds.len() && ds[k] == c;
                assert(!taken(s.vol, ds[k]));
            }
            assert(crate::exfat::laws::chain::fat_of(s1.vol, c)
                == crate::exfat::laws::chain::fat_of(s.vol, c));
        }
    } else if want < have {
        crate::exfat::laws::chain::law_chain_shortened(
            s.vol,
            n.start_chain,
            xs,
            (have - want) as u32,
            true,
        );
        assert forall|c: ClusterID| taken(s.vol, c) && !xs.contains(c) implies #[trigger] taken(
            s1.vol,
            c,
        ) by {
            assert(crate::exfat::laws::chain::fat_of(s1.vol, c)
                == crate::exfat::laws::chain::fat_of(s.vol, c));
        }
    }
    let s2 = s1.with_node(i, InodeView { size_allocated: new_size, ..s1.nodes[i] });
    lemma_bits_kept(s2, i, true);
    let t = file_resized(s, i, new_size).0;
    assert forall|c: ClusterID| taken(s.vol, c) && !xs.contains(c) implies #[trigger] taken(
        t.vol,
        c,
    ) by {
        assert(taken(s1.vol, c));
    }
}

} // verus!
