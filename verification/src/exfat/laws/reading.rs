//! Reading directories: reading in parts gives what reading at once gives, and what was
//! read is not read anew.

use vstd::prelude::*;
use crate::errno::Errno;
use crate::exfat::constants::{DENTRY_SIZE, EXFAT_ROOT_INO};
use crate::exfat::fat::ClusterID;
use crate::exfat::fs::dir::{child_read, children_read, dirs_read, DirentView};
use crate::exfat::fs::io::{file_bytes_read, pages_fetched};
use crate::exfat::fs::FsState;
use crate::exfat::inode::InodeView;
use crate::exfat::laws::dir::{between, dir_ok, is_dir};
use crate::exfat::laws::layout::Held;

verus! {

/// Reading some inodes of a directory and then, from where that ended, some more makes of
/// the file system what reading all of them makes of it, and lists and returns the same.
pub proof fn law_read_in_parts(
    s: FsState,
    d: InodeView,
    slot: int,
    a: nat,
    b: nat,
    before: Seq<DirentView>,
)
    requires
        0 <= slot <= usize::MAX,
        d.pages.len() <= usize::MAX,
        children_read(s, d, slot, a, before).2 is Ok,
    ensures
        ({
            let (s1, out, r) = children_read(s, d, slot, a, before);
            children_read(s, d, slot, a + b, before) == children_read(
                s1,
                d,
                r->Ok_0 as int,
                b,
                out,
            )
        }),
    decreases d.pages.len() - slot * DENTRY_SIZE,
{
    if a == 0 {
    } else if crate::exfat::dentry::slot_kind(d.pages, slot) is File {
        let (s1, r1) = child_read(s, d, slot);
        let child = s1.nodes[r1->Ok_0 as int];
        let next = slot + child.dentry_set_size / DENTRY_SIZE;
        law_read_in_parts(
            s1,
            d,
            next,
            (a - 1) as nat,
            b,
            before.push(crate::exfat::fs::dir::dirent_of(child, slot)),
        );
        assert((a + b - 1) as nat == (a - 1) as nat + b);
    } else {
        law_read_in_parts(s, d, slot + 1, a, b, before);
    }
}

/// Whether `out` lists `count` inodes behind those that were listed before, in the order
/// of where they stand, between two entries of a directory.
pub open spec fn lists_more(
    before: Seq<DirentView>,
    out: Seq<DirentView>,
    count: nat,
    from: int,
    to: int,
) -> bool {
    &&& out.len() == before.len() + count
    &&& forall|k: int| 0 <= k < before.len() ==> #[trigger] out[k] == before[k]
    &&& forall|k: int|
        before.len() <= k < out.len() ==> from * DENTRY_SIZE <= (#[trigger] out[k]).offset < to
            * DENTRY_SIZE
    &&& forall|j: int, k: int|
        before.len() <= j < k < out.len() ==> (#[trigger] out[j]).offset < (
        #[trigger] out[k]).offset
}

/// Reading lists as many inodes as were asked for, one behind the other, or fails.
pub proof fn law_read_in_order(
    s: FsState,
    d: InodeView,
    slot: int,
    count: nat,
    before: Seq<DirentView>,
)
    requires
        0 <= slot <= usize::MAX,
        d.pages.len() <= usize::MAX,
        children_read(s, d, slot, count, before).2 is Ok,
    ensures
        ({
            let (t, out, r) = children_read(s, d, slot, count, before);
            &&& slot <= r->Ok_0
            &&& lists_more(before, out, count, slot, r->Ok_0 as int)
        }),
    decreases d.pages.len() - slot * DENTRY_SIZE,
{
    if count == 0 {
    } else if crate::exfat::dentry::slot_kind(d.pages, slot) is File {
        let (s1, r1) = child_read(s, d, slot);
        let child = s1.nodes[r1->Ok_0 as int];
        let next = slot + child.dentry_set_size / DENTRY_SIZE;
        let entry = crate::exfat::fs::dir::dirent_of(child, slot);
        let more = before.push(entry);
        law_read_in_order(s1, d, next, (count - 1) as nat, more);
        let (t, out, r) = children_read(s, d, slot, count, before);
        assert(out[before.len() as int] == more[before.len() as int]);
        assert forall|k: int| 0 <= k < before.len() implies #[trigger] out[k] == before[k] by {
            assert(out[k] == more[k]);
        }
    } else {
        law_read_in_order(s, d, slot + 1, count, before);
    }
}

/// Reading a directory in which everything is open in two parts lists what reading it at
/// once lists, and ends where that ends.
pub proof fn law_dirs_read_in_parts(
    s: FsState,
    i: int,
    cs: Seq<ClusterID>,
    es: Seq<Held>,
    k: int,
    slot: int,
    a: nat,
    b: nat,
    before: Seq<DirentView>,
)
    requires
        dir_ok(s, i, cs, es),
        0 <= k,
        k + a + b <= es.len(),
        between(es, k, slot),
    ensures
        ({
            let (s1, out1, r1) = dirs_read(s, i, slot, a, before);
            let (s2, out2, r2) = dirs_read(s1, i, r1->Ok_0 as int, b, out1);
            let (t, out, r) = dirs_read(s, i, slot, a + b, before);
            &&& r1 is Ok
            &&& r2 is Ok
            &&& r == r2
            &&& out == out2
        }),
{
    crate::exfat::laws::dir::lemma_dirs_read(s, i, cs, es, k, slot, a, before);
    let (s1, out1, r1) = dirs_read(s, i, slot, a, before);
    crate::exfat::laws::dir::lemma_dirs_read(s1, i, cs, es, k + a, r1->Ok_0 as int, b, out1);
    crate::exfat::laws::dir::lemma_dirs_read(s, i, cs, es, k, slot, a + b, before);
    let first = crate::exfat::laws::dir::listing(s, es.subrange(k, k + a));
    let second = crate::exfat::laws::dir::listing(s1, es.subrange(k + a, k + a + b));
    let all = crate::exfat::laws::dir::listing(s, es.subrange(k, k + a + b));
    assert(first + second =~= all);
    assert(before + first + second =~= before + all);
}

/// Reading an inode of a directory again gives the same inode: nothing is made anew and no
/// number is used up.
pub proof fn law_read_again(s: FsState, i: int, cs: Seq<ClusterID>, slot: int)
    requires
        is_dir(s, i, cs),
        0 <= slot,
        slot * DENTRY_SIZE < s.nodes[i].size,
        s.nodes.len() < usize::MAX,
        s.next_ino != EXFAT_ROOT_INO,
        child_read(s, s.nodes[i], slot).1 is Ok,
    ensures
        ({
            let (t, r) = child_read(s, s.nodes[i], slot);
            let (u, again) = child_read(t, t.nodes[i], slot);
            &&& t.nodes[i] == s.nodes[i]
            &&& again == r
            &&& u == t.with_vol(u.vol)
        }),
{
    let d = s.nodes[i];
    crate::exfat::laws::dir::lemma_slot_walk(s.vol, d.start_chain, cs, slot);
    let (v, walked) = crate::exfat::chain::chain_walk_to_offset(
        s.vol,
        d.start_chain,
        (slot * DENTRY_SIZE) as usize,
    );
    let position = walked->Ok_0;
    let (t, r) = child_read(s, d, slot);
    let hash = crate::exfat::inode::hash_of_position(position);
    if s.find(hash) is None {
        let s1 = s.with_vol(v).with_ino_taken();
        let set = crate::exfat::dentry_set::set_at(d.pages, slot)->Ok_0;
        crate::exfat::laws::open::lemma_built(
            s1.vol,
            set,
            position,
            slot as u32,
            crate::exfat::inode::inode_hash(d),
            s.next_ino,
        );
        assert(crate::exfat::inode::inode_hash(t.nodes[s.nodes.len() as int]) == hash);
        assert(t.find(hash) == Some(s.nodes.len() as usize));
        assert(set.len() == (d.pages[slot * DENTRY_SIZE + 1] + 1) * DENTRY_SIZE);
    }
    crate::exfat::laws::chain::law_chain_kept(s.vol, t.vol, d.start_chain, cs, Set::empty());
    crate::exfat::laws::dir::lemma_slot_walk(t.vol, d.start_chain, cs, slot);
}

/// Reading a file gives the bytes from the place that is asked for on, as many as are asked for
/// or as the file has, whichever are fewer; behind the end of what was written there are none.
pub proof fn law_bytes_read(s: FsState, i: int, offset: int, len: int)
    requires
        0 <= offset,
        0 <= len,
        s.nodes[i].inode_type is File,
        pages_fetched(s, i).0.nodes[i].inode_type is File,
        pages_fetched(s, i).0.nodes[i].size <= pages_fetched(s, i).0.nodes[i].pages.len(),
    ensures
        ({
            let (t, r) = pages_fetched(s, i);
            let n = t.nodes[i];
            let (u, read) = file_bytes_read(s, i, offset, len);
            &&& u == t
            &&& r matches Err(e) ==> read == Err::<Seq<u8>, Errno>(e)
            &&& r is Ok ==> {
                &&& read is Ok
                &&& n.size <= offset ==> read->Ok_0.len() == 0
                &&& offset < n.size && n.size <= offset + len ==> read->Ok_0.len() == n.size
                    - offset
                &&& offset < n.size && offset + len < n.size ==> read->Ok_0.len() == len
                &&& forall|k: int|
                    0 <= k < read->Ok_0.len() ==> #[trigger] read->Ok_0[k] == n.pages[offset + k]
            }
        }),
{
}

/// What is listed of an inode is its name, its number, its kind, and where its entries begin.
pub proof fn law_listed_fields(s: FsState, es: Seq<Held>, k: int)
    requires
        0 <= k < es.len(),
        0 <= es[k].slot,
        es[k].slot * 32 <= usize::MAX,
    ensures
        ({
            let n = s.nodes[es[k].inode];
            let e = crate::exfat::laws::dir::listing(s, es)[k];
            &&& crate::exfat::laws::dir::listing(s, es).len() == es.len()
            &&& e.name == crate::text::text_of_utf16(n.name)
            &&& e.ino == n.ino
            &&& e.type_ == n.inode_type
            &&& e.offset == 32 * es[k].slot
        }),
{
}

} // verus!
