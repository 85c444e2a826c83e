//! Files: what was written is read, and what resizing costs.

use vstd::prelude::*;
use crate::errno::Errno;
use crate::exfat::constants::PAGE_SIZE;
use crate::exfat::fs::FsState;
use crate::exfat::inode::InodeView;
use crate::exfat::volume::VolumeState;

verus! {

/// Whether the state `t` has the inodes of the state `s`, with at most other sizes and
/// clusters of the inode `i` and other pages of the directory that holds it.
pub open spec fn only_resized(s: FsState, t: FsState, i: int) -> bool {
    &&& t.nodes.len() == s.nodes.len()
    &&& t == (FsState { vol: t.vol, nodes: t.nodes, ..s })
    &&& t.vol.super_block == s.vol.super_block
    &&& forall|j: int|
        0 <= j < s.nodes.len() && j != i ==> #[trigger] t.nodes[j] == (InodeView {
            pages: t.nodes[j].pages,
            ..s.nodes[j]
        })
    &&& t.nodes[i] == (InodeView {
        pages: t.nodes[i].pages,
        start_chain: t.nodes[i].start_chain,
        size: t.nodes[i].size,
        size_allocated: t.nodes[i].size_allocated,
        ..s.nodes[i]
    })
    &&& forall|j: int|
        0 <= j < s.nodes.len() && !holds(s, j, i) ==> (#[trigger] t.nodes[j]).pages
            == s.nodes[j].pages
    &&& forall|j: int|
        0 <= j < s.nodes.len() ==> (#[trigger] t.nodes[j]).pages.len() == s.nodes[j].pages.len()
}

/// Whether the inode `p` is the directory that holds the inode `i`.
pub open spec fn holds(s: FsState, p: int, i: int) -> bool {
    match s.find(s.nodes[i].parent_hash) {
        Some(found) => found == p,
        None => false,
    }
}

/// Writing an inode back changes nothing but what `only_resized` allows.
pub proof fn lemma_inode_written(s: FsState, i: int, sync: bool)
    requires
        0 <= i < s.nodes.len(),
        s.opened_exist(),
    ensures
        only_resized(s, crate::exfat::fs::file::inode_written(s, i, sync).0, i),
{
    reveal(crate::exfat::fs::file::inode_written);
    let n = s.nodes[i];
    match s.find(n.parent_hash) {
        Some(p) => {
            match crate::exfat::dentry_set::set_at(
                s.nodes[p as int].pages,
                n.dentry_entry as int,
            ) {
                Ok(set) => {
                    let n1 = crate::exfat::fs::file::without_lost_sizes(s.vol, n);
                    let s1 = s.with_node(i, n1);
                    let at = n.dentry_entry * crate::exfat::constants::DENTRY_SIZE;
                    let parent = s1.nodes[p as int];
                    let s2 = s1.with_node(
                        p as int,
                        InodeView {
                            pages: crate::bytes::overwritten(
                                parent.pages,
                                at,
                                crate::exfat::fs::file::entries_of(set, n1),
                            ),
                            ..parent
                        },
                    );
                    assert(only_resized(s, s2, i));
                    crate::exfat::page::lemma_pages_written_frame(
                        s2.vol,
                        s2.nodes[p as int].start_chain,
                        s2.nodes[p as int].pages,
                        at / (PAGE_SIZE as int),
                        crate::arith::pieces(at + set.len(), PAGE_SIZE as int),
                    );
                },
                Err(_) => {},
            }
        },
        None => {},
    }
}

/// Resizing an inode changes nothing but what `only_resized` allows.
pub proof fn lemma_inode_resized(s: FsState, i: int, new_size: usize)
    requires
        0 <= i < s.nodes.len(),
        s.opened_exist(),
    ensures
        only_resized(s, crate::exfat::fs::file::inode_resized(s, i, new_size).0, i),
{
    reveal(crate::exfat::fs::file::inode_resized);
    let n = s.nodes[i];
    let have = n.start_chain.num_clusters;
    let want = crate::arith::pieces(
        new_size as int,
        s.vol.super_block.cluster_size as int,
    ) as u32;
    if want > have {
        crate::exfat::chain::lemma_chain_extended_frame(
            s.vol,
            n.start_chain,
            (want - have) as u32,
            true,
        );
    } else if want < have {
        crate::exfat::chain::lemma_chain_shortened_frame(
            s.vol,
            n.start_chain,
            (have - want) as u32,
            true,
        );
    }
    let (s1, r1) = crate::exfat::fs::file::clusters_adjusted(s, i, new_size);
    assert(only_resized(s, s1, i));
    if r1 is Ok {
        let s2 = s1.with_node(i, InodeView { size_allocated: new_size, ..s1.nodes[i] });
        assert(s2.opened_exist());
        lemma_inode_written(s2, i, true);
        let (t, r) = crate::exfat::fs::file::inode_written(s2, i, true);
        assert forall|j: int| 0 <= j < s.nodes.len() && j != i implies #[trigger] t.nodes[j] == (
        InodeView { pages: t.nodes[j].pages, ..s.nodes[j] }) by {
            assert(s2.nodes[j] == s.nodes[j]);
        }
        assert forall|j: int| 0 <= j < s.nodes.len() && !holds(s, j, i) implies (
        #[trigger] t.nodes[j]).pages == s.nodes[j].pages by {
            assert(!holds(s2, j, i));
            assert(s2.nodes[j].pages == s.nodes[j].pages);
        }
        assert forall|j: int| 0 <= j < s.nodes.len() implies (#[trigger] t.nodes[j]).pages.len()
            == s.nodes[j].pages.len() by {
            assert(s2.nodes[j].pages == s.nodes[j].pages);
        }
    }
}

/// What was written to a file is read, and the file is as long as it was or reaches to
/// the end of what was written.
pub proof fn law_read_after_write(s: FsState, i: int, offset: int, bytes: Seq<u8>)
    requires
        0 <= i < s.nodes.len(),
        s.opened_exist(),
        0 <= offset,
        offset + bytes.len() <= usize::MAX,
    ensures
        ({
            let (t, r) = crate::exfat::fs::io::file_written(s, i, offset, bytes);
            r is Ok ==> {
                &&& r == Ok::<usize, Errno>(bytes.len() as usize)
                &&& crate::exfat::fs::io::file_read(t.nodes[i], offset, bytes.len() as int) == Ok::<
                    Seq<u8>,
                    Errno,
                >(bytes)
                &&& t.nodes[i].size == (if s.nodes[i].size < offset + bytes.len() {
                    offset + bytes.len()
                } else {
                    s.nodes[i].size as int
                })
            }
        }),
{
    let end = (offset + bytes.len()) as usize;
    let s0 = crate::exfat::fs::io::pages_fetched(s, i).0;
    assert(s0.opened_exist());
    assert(s0.nodes[i].size == s.nodes[i].size && s0.nodes.len() == s.nodes.len());
    if end > s.nodes[i].size {
        lemma_inode_resized(s0, i, end);
        crate::arith::lemma_rounded_up(end as int, PAGE_SIZE as int);
    }
    let (t, r) = crate::exfat::fs::io::file_written(s, i, offset, bytes);
    if r is Ok {
        let pages = t.nodes[i].pages;
        assert(pages.subrange(offset, offset + bytes.len()) =~= bytes);
    }
}

/// Writing to a file leaves alone what it held outside of what was written, and all
/// other files.
pub proof fn law_write_keeps_the_rest(s: FsState, i: int, offset: int, bytes: Seq<u8>)
    requires
        0 <= i < s.nodes.len(),
        s.opened_exist(),
        !holds(s, i, i),
        s.nodes[i].loaded ==> s.nodes[i].size <= s.nodes[i].pages.len(),
    ensures
        ({
            let n = crate::exfat::fs::io::pages_fetched(s, i).0.nodes[i];
            let (t, r) = crate::exfat::fs::io::file_written(s, i, offset, bytes);
            &&& t.nodes.len() == s.nodes.len()
            &&& r is Ok ==> n.size <= n.pages.len() && forall|k: int|
                0 <= k < s.nodes[i].size && !(offset <= k < offset + bytes.len()) ==>
                    #[trigger] t.nodes[i].pages[k] == n.pages[k]
            &&& forall|j: int, at: int, len: int|
                0 <= j < s.nodes.len() && j != i && !holds(s, j, i) ==> #[trigger]
                crate::exfat::fs::io::file_read(t.nodes[j], at, len)
                    == crate::exfat::fs::io::file_read(s.nodes[j], at, len)
        }),
{
    let end = (offset + bytes.len()) as usize;
    let u = crate::exfat::fs::io::pages_fetched(s, i).0;
    lemma_fetched(s, i);
    lemma_inode_resized(u, i, end);
    crate::arith::lemma_rounded_up(end as int, PAGE_SIZE as int);
    let (t, r) = crate::exfat::fs::io::file_written(s, i, offset, bytes);
    assert forall|j: int, at: int, len: int|
        0 <= j < s.nodes.len() && j != i && !holds(s, j, i) implies #[trigger]
    crate::exfat::fs::io::file_read(t.nodes[j], at, len) == crate::exfat::fs::io::file_read(
        s.nodes[j],
        at,
        len,
    ) by {
        assert(u.nodes[j] == s.nodes[j]);
        assert(!holds(u, j, i));
        assert(t.nodes[j] == s.nodes[j]);
    }
}

/// Having the pages of a file in memory changes nothing but them, and then the file has
/// pages for all its bytes.
pub proof fn lemma_fetched(s: FsState, i: int)
    requires
        0 <= i < s.nodes.len(),
    ensures
        ({
            let (t, r) = crate::exfat::fs::io::pages_fetched(s, i);
            let n = s.nodes[i];
            let m = t.nodes[i];
            &&& t == (FsState { vol: t.vol, nodes: t.nodes, ..s })
            &&& t.vol == (VolumeState { cache: t.vol.cache, ..s.vol })
            &&& t.nodes.len() == s.nodes.len()
            &&& forall|j: int| 0 <= j < s.nodes.len() && j != i ==> #[trigger] t.nodes[j] == s.nodes[j]
            &&& m == (InodeView { pages: m.pages, loaded: m.loaded, ..n })
            &&& r is Ok ==> m.loaded
            &&& r is Ok && !n.loaded ==> {
                &&& m.pages.len() == crate::arith::rounded_up(n.size as int, PAGE_SIZE as int)
                &&& m.pages.len() % (PAGE_SIZE as nat) == 0
                &&& n.size <= m.pages.len() < n.size + PAGE_SIZE
            }
        }),
{
    let n = s.nodes[i];
    if !n.loaded {
        let end = crate::arith::pieces(n.size as int, PAGE_SIZE as int);
        let none = Seq::<u8>::empty();
        crate::arith::lemma_rounded_up(n.size as int, PAGE_SIZE as int);
        crate::exfat::page::lemma_pages_read_frame(
            s.vol,
            n.start_chain,
            n.size as int,
            0,
            end,
            none,
        );
        crate::exfat::laws::mount::lemma_pages_len(
            s.vol,
            n.start_chain,
            n.size as int,
            0,
            end,
            none,
        );
    }
}

/// A file that grows while its pages are in memory keeps what it held, and reads as zeros
/// behind its pages.
pub proof fn law_resize_keeps_contents(s: FsState, i: int, new_size: usize)
    requires
        0 <= i < s.nodes.len(),
        s.opened_exist(),
        !holds(s, i, i),
        s.nodes[i].loaded,
    ensures
        ({
            let (t, r) = crate::exfat::fs::file::file_resized(s, i, new_size);
            r is Ok ==> {
                &&& new_size <= t.nodes[i].pages.len() < new_size + PAGE_SIZE
                &&& forall|k: int|
                    0 <= k < t.nodes[i].pages.len() ==> #[trigger] t.nodes[i].pages[k] == (if k
                        < s.nodes[i].pages.len() {
                        s.nodes[i].pages[k]
                    } else {
                        0u8
                    })
            }
        }),
{
    lemma_inode_resized(s, i, new_size);
    crate::arith::lemma_rounded_up(new_size as int, PAGE_SIZE as int);
}

} // verus!
