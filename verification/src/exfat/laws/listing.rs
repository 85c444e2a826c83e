//! Reading directories of which not everything is open, at once and in parts.

use vstd::prelude::*;
use crate::errno::Errno;
use crate::exfat::constants::DENTRY_SIZE;
use crate::exfat::fat::ClusterID;
use crate::exfat::fs::dir::{child_read, dirent_of, dirs_read, DirentView};
use crate::exfat::fs::FsState;
use crate::exfat::laws::dir::{between, is_dir, slot_hash};
use crate::exfat::laws::layout::Held;
use crate::exfat::laws::open::{dir_raw, more_open, rest_read};
use crate::exfat::laws::page::data_ok;
use crate::exfat::laws::readable::{all_sound, bare, set_of};

verus! {

/// The inode with the entries `w` of a directory, if it is open.
pub open spec fn open_as(s: FsState, cs: Seq<ClusterID>, w: Held) -> Option<usize> {
    s.find(slot_hash(s.vol.super_block, cs, w.slot))
}

/// What is listed of the inode with the entries `w` of the directory `i`, where it gets the
/// number `ino` if it is not open.
pub open spec fn told_of(s: FsState, i: int, cs: Seq<ClusterID>, w: Held, ino: int) -> DirentView {
    match open_as(s, cs, w) {
        Some(c) => dirent_of(s.nodes[c as int], w.slot),
        None => {
            let set = set_of(s.nodes[i], w);
            DirentView {
                name: crate::text::text_of_utf16(crate::exfat::dentry_set::set_name(set)),
                ino: ino as usize as u64,
                type_: bare(s.vol, set).inode_type,
                offset: (w.slot * DENTRY_SIZE) as usize,
            }
        },
    }
}

/// What is listed of `count` inodes of the directory `i` from the one with the number `k`
/// on, where those that are not open get the numbers from `ino` on.
pub open spec fn told(
    s: FsState,
    i: int,
    cs: Seq<ClusterID>,
    ws: Seq<Held>,
    k: int,
    count: nat,
    ino: int,
) -> Seq<DirentView>
    decreases count,
{
    if count == 0 {
        Seq::empty()
    } else {
        seq![told_of(s, i, cs, ws[k], ino)] + told(
            s,
            i,
            cs,
            ws,
            k + 1,
            (count - 1) as nat,
            ino + taken_up(s, cs, ws[k]),
        )
    }
}

/// How many numbers reading an inode takes up: one if it is not open.
pub open spec fn taken_up(s: FsState, cs: Seq<ClusterID>, w: Held) -> int {
    if open_as(s, cs, w) is Some {
        0
    } else {
        1
    }
}

/// How many numbers reading `count` inodes from the one with the number `k` on takes up.
pub open spec fn all_taken_up(
    s: FsState,
    cs: Seq<ClusterID>,
    ws: Seq<Held>,
    k: int,
    count: nat,
) -> int
    decreases count,
{
    if count == 0 {
        0
    } else {
        taken_up(s, cs, ws[k]) + all_taken_up(s, cs, ws, k + 1, (count - 1) as nat)
    }
}

/// Where reading `count` inodes from the one with the number `k` on ends, beginning with the
/// entry with the number `slot`.
pub open spec fn ends_at(ws: Seq<Held>, k: int, count: nat, slot: int) -> int {
    if count == 0 {
        slot
    } else {
        ws[k + count - 1].slot + ws[k + count - 1].width
    }
}

/// What is listed of the next inode.
proof fn lemma_child_told(s: FsState, i: int, cs: Seq<ClusterID>, ws: Seq<Held>, k: int)
    requires
        dir_raw(s, i, cs, ws, k),
        0 <= k < ws.len(),
        child_read(s, s.nodes[i], ws[k].slot).1 is Ok,
    ensures
        ({
            let (t, r) = child_read(s, s.nodes[i], ws[k].slot);
            &&& dirent_of(t.nodes[r->Ok_0 as int], ws[k].slot) == told_of(
                s,
                i,
                cs,
                ws[k],
                s.next_ino as int,
            )
            &&& t.next_ino == s.next_ino + taken_up(s, cs, ws[k])
            &&& forall|x: int|
                0 <= x < ws.len() && x != k ==> open_as(t, cs, #[trigger] ws[x]) == open_as(
                    s,
                    cs,
                    ws[x],
                )
        }),
{
    let d = s.nodes[i];
    let slot = ws[k].slot;
    crate::exfat::laws::open::lemma_raw_places(s, i, cs, ws, k, k);
    crate::exfat::laws::dir::lemma_slot_walk(s.vol, d.start_chain, cs, slot);
    crate::exfat::laws::remove::lemma_set_at(d.pages, slot, ws[k].width);
    let (v, walked) = crate::exfat::chain::chain_walk_to_offset(
        s.vol,
        d.start_chain,
        (slot * DENTRY_SIZE) as usize,
    );
    let (t, r) = child_read(s, d, slot);
    match open_as(s, cs, ws[k]) {
        Some(c) => {},
        None => {
            let s1 = s.with_vol(v).with_ino_taken();
            crate::exfat::laws::open::lemma_built(
                s1.vol,
                set_of(d, ws[k]),
                walked->Ok_0,
                slot as u32,
                crate::exfat::inode::inode_hash(d),
                s.next_ino,
            );
            assert(s.next_ino < usize::MAX
                && crate::exfat::constants::EXFAT_ROOT_INO < s.next_ino) by {
                reveal(dir_raw);
            }
            assert(t.next_ino == s.next_ino + 1);
            assert forall|x: int| 0 <= x < ws.len() && x != k implies open_as(
                t,
                cs,
                #[trigger] ws[x],
            ) == open_as(s, cs, ws[x]) by {
                assert(slot_hash(s.vol.super_block, cs, ws[x].slot) != slot_hash(
                    s.vol.super_block,
                    cs,
                    slot,
                ));
            }
        },
    }
}

/// What is listed depends on nothing but the inodes and which of them are open.
proof fn lemma_told_alike(
    s: FsState,
    t: FsState,
    i: int,
    cs: Seq<ClusterID>,
    ws: Seq<Held>,
    k: int,
    count: nat,
    ino: int,
)
    requires
        more_open(s, t),
        s.opened_exist(),
        0 <= i < s.nodes.len(),
        0 <= k,
        k + count <= ws.len(),
        forall|x: int|
            k <= x < ws.len() ==> open_as(t, cs, #[trigger] ws[x]) == open_as(s, cs, ws[x]),
    ensures
        told(t, i, cs, ws, k, count, ino) == told(s, i, cs, ws, k, count, ino),
    decreases count,
{
    if count > 0 {
        assert(open_as(t, cs, ws[k]) == open_as(s, cs, ws[k]));
        assert(t.nodes[i] == s.nodes[i]);
        match open_as(s, cs, ws[k]) {
            Some(c) => {
                assert(t.nodes[c as int] == s.nodes[c as int]);
            },
            None => {},
        }
        lemma_told_alike(
            s,
            t,
            i,
            cs,
            ws,
            k + 1,
            (count - 1) as nat,
            ino + taken_up(s, cs, ws[k]),
        );
    }
}

/// Reading inodes of a directory lists them.
proof fn lemma_rest_told(
    s: FsState,
    i: int,
    cs: Seq<ClusterID>,
    ws: Seq<Held>,
    k: int,
    slot: int,
    count: nat,
    before: Seq<DirentView>,
)
    requires
        dir_raw(s, i, cs, ws, k),
        0 <= k,
        k + count <= ws.len(),
        between(ws, k, slot),
        rest_read(s, s.nodes[i], slot, count, before).2 is Ok,
    ensures
        ({
            let (t, out, r) = rest_read(s, s.nodes[i], slot, count, before);
            &&& r->Ok_0 == ends_at(ws, k, count, slot)
            &&& out == before + told(s, i, cs, ws, k, count, s.next_ino as int)
            &&& t.next_ino == s.next_ino + all_taken_up(s, cs, ws, k, count)
            &&& more_open(s, t)
            &&& forall|x: int|
                k + count <= x < ws.len() ==> open_as(t, cs, #[trigger] ws[x]) == open_as(
                    s,
                    cs,
                    ws[x],
                )
        }),
    decreases s.nodes[i].pages.len() - slot * DENTRY_SIZE,
{
    let d = s.nodes[i];
    let (t, out, r) = rest_read(s, d, slot, count, before);
    if count == 0 {
        reveal(rest_read);
        assert(slot as usize == slot) by {
            reveal(between);
        }
        assert(out =~= before + told(s, i, cs, ws, k, count, s.next_ino as int));
    } else {
        let (s1, more) = crate::exfat::laws::open::lemma_step(
            s,
            i,
            cs,
            ws,
            k,
            slot,
            count,
            before,
        );
        if crate::exfat::dentry::slot_kind(d.pages, slot) is File {
            let left = (count - 1) as nat;
            lemma_child_told(s, i, cs, ws, k);
            lemma_rest_told(s1, i, cs, ws, k + 1, slot + ws[k].width, left, more);
            assert(is_dir(s, i, cs)) by {
                reveal(dir_raw);
            }
            lemma_told_alike(s, s1, i, cs, ws, k + 1, left, s1.next_ino as int);
            let entry = told_of(s, i, cs, ws[k], s.next_ino as int);
            let rest = told(s, i, cs, ws, k + 1, left, s1.next_ino as int);
            assert(more + rest =~= before + (seq![entry] + rest));
            lemma_taken_up_alike(s, s1, cs, ws, k + 1, left);
            crate::exfat::laws::open::lemma_more_open(s, s1, t);
            assert forall|x: int| k + count <= x < ws.len() implies open_as(
                t,
                cs,
                #[trigger] ws[x],
            ) == open_as(s, cs, ws[x]) by {
                assert(open_as(t, cs, ws[x]) == open_as(s1, cs, ws[x]));
            }
        } else {
            lemma_rest_told(s, i, cs, ws, k, slot + 1, count, before);
        }
    }
}

/// How many numbers are taken up depends on nothing but which inodes are open.
proof fn lemma_taken_up_alike(
    s: FsState,
    t: FsState,
    cs: Seq<ClusterID>,
    ws: Seq<Held>,
    k: int,
    count: nat,
)
    requires
        0 <= k,
        k + count <= ws.len(),
        forall|x: int|
            k <= x < ws.len() ==> open_as(t, cs, #[trigger] ws[x]) == open_as(s, cs, ws[x]),
    ensures
        all_taken_up(t, cs, ws, k, count) == all_taken_up(s, cs, ws, k, count),
    decreases count,
{
    if count > 0 {
        assert(open_as(t, cs, ws[k]) == open_as(s, cs, ws[k]));
        lemma_taken_up_alike(s, t, cs, ws, k + 1, (count - 1) as nat);
    }
}

/// Reading some inodes of a directory whose entries are sound succeeds and lists them.
pub proof fn law_told(
    s: FsState,
    i: int,
    cs: Seq<ClusterID>,
    ws: Seq<Held>,
    k: int,
    slot: int,
    count: nat,
    before: Seq<DirentView>,
)
    requires
        dir_raw(s, i, cs, ws, k),
        data_ok(s.vol),
        all_sound(s, i, cs, ws),
        0 <= k,
        k + count <= ws.len(),
        between(ws, k, slot),
    ensures
        ({
            let (t, out, r) = dirs_read(s, i, slot, count, before);
            &&& r == Ok::<usize, Errno>(ends_at(ws, k, count, slot) as usize)
            &&& out == before + told(s, i, cs, ws, k, count, s.next_ino as int)
            &&& t.next_ino == s.next_ino + all_taken_up(s, cs, ws, k, count)
            &&& more_open(s, t)
            &&& dir_raw(t, i, cs, ws, k + count)
            &&& data_ok(t.vol)
            &&& all_sound(t, i, cs, ws)
            &&& between(ws, k + count, r->Ok_0 as int)
            &&& forall|x: int|
                k + count <= x < ws.len() ==> open_as(t, cs, #[trigger] ws[x]) == open_as(
                    s,
                    cs,
                    ws[x],
                )
        }),
{
    assert(is_dir(s, i, cs)) by {
        reveal(dir_raw);
    }
    let (t, out, r) = dirs_read(s, i, slot, count, before);
    assert(0 <= slot && slot * DENTRY_SIZE <= usize::MAX) by {
        reveal(between);
    }
    if count == 0 {
        assert(out =~= before + told(s, i, cs, ws, k, count, s.next_ino as int));
    } else {
        crate::exfat::laws::open::lemma_raw_places(s, i, cs, ws, k, k);
        assert(slot <= ws[k].slot) by {
            reveal(between);
        }
        let chain = s.nodes[i].start_chain;
        let at = slot * DENTRY_SIZE;
        let z = s.vol.super_block.cluster_size as int;
        crate::exfat::volume::lemma_cluster_size_positive(s.vol.super_block);
        crate::exfat::laws::dir::lemma_slot_walk(s.vol, chain, cs, slot);
        let v1 = crate::exfat::chain::chain_cluster(s.vol, chain, (at / z) as u32).0;
        crate::exfat::laws::dir::lemma_slot_walk(v1, chain, cs, slot);
        let v2 = crate::exfat::chain::chain_walk_to_offset(v1, chain, at as usize).0;
        crate::exfat::laws::open::lemma_was_open(s, v2, i, cs, ws, k, k);
        let s2 = s.with_vol(v2);
        assert(more_open(s, s2));
        crate::exfat::laws::readable::lemma_still_sound(s, s2, i, cs, ws);
        crate::exfat::laws::readable::lemma_rest(s2, i, cs, ws, k, slot, count, before);
        reveal(rest_read);
        assert((t, out, r) == rest_read(s2, s2.nodes[i], slot, count, before));
        crate::exfat::laws::open::lemma_some_opened(s, i, cs, ws, k, slot, count, before);
        lemma_rest_told(s2, i, cs, ws, k, slot, count, before);
        lemma_told_alike(s, s2, i, cs, ws, k, count, s.next_ino as int);
        lemma_taken_up_alike(s, s2, cs, ws, k, count);
        assert forall|x: int| k + count <= x < ws.len() implies open_as(
            t,
            cs,
            #[trigger] ws[x],
        ) == open_as(s, cs, ws[x]) by {
            assert(open_as(t, cs, ws[x]) == open_as(s2, cs, ws[x]));
        }
        crate::exfat::laws::readable::lemma_still_sound(s, t, i, cs, ws);
    }
}

/// Listing some inodes and then some more lists all of them.
proof fn lemma_told_in_parts(
    s: FsState,
    i: int,
    cs: Seq<ClusterID>,
    ws: Seq<Held>,
    k: int,
    a: nat,
    b: nat,
    ino: int,
)
    ensures
        told(s, i, cs, ws, k, a + b, ino) == told(s, i, cs, ws, k, a, ino) + told(
            s,
            i,
            cs,
            ws,
            k + a,
            b,
            ino + all_taken_up(s, cs, ws, k, a),
        ),
    decreases a,
{
    if a > 0 {
        let next = ino + taken_up(s, cs, ws[k]);
        lemma_told_in_parts(s, i, cs, ws, k + 1, (a - 1) as nat, b, next);
        let first = seq![told_of(s, i, cs, ws[k], ino)];
        let second = told(s, i, cs, ws, k + 1, (a - 1) as nat, next);
        let third = told(s, i, cs, ws, k + a, b, ino + all_taken_up(s, cs, ws, k, a));
        assert(first + (second + third) =~= (first + second) + third);
    } else {
        assert(told(s, i, cs, ws, k, a, ino) + told(s, i, cs, ws, k, b, ino) =~= told(
            s,
            i,
            cs,
            ws,
            k,
            b,
            ino,
        ));
    }
}

/// Reading a directory whose entries are sound in two parts lists what reading it at once
/// lists, and ends where that ends, whether its inodes are open or not.
pub proof fn law_raw_read_in_parts(
    s: FsState,
    i: int,
    cs: Seq<ClusterID>,
    ws: Seq<Held>,
    k: int,
    slot: int,
    a: nat,
    b: nat,
    before: Seq<DirentView>,
)
    requires
        dir_raw(s, i, cs, ws, k),
        data_ok(s.vol),
        all_sound(s, i, cs, ws),
        0 <= k,
        k + a + b <= ws.len(),
        between(ws, k, slot),
    ensures
        ({
            let (s1, out1, r1) = dirs_read(s, i, slot, a, before);
            let (s2, out2, r2) = dirs_read(s1, i, r1->Ok_0 as int, b, out1);
            let (t, out, r) = dirs_read(s, i, slot, a + b, before);
            &&& r1 is Ok
            &&& r2 is Ok
            &&& r == r2
            &&& out == out2
            &&& out.len() == before.len() + a + b
        }),
{
    law_told(s, i, cs, ws, k, slot, a, before);
    let (s1, out1, r1) = dirs_read(s, i, slot, a, before);
    law_told(s1, i, cs, ws, k + a, r1->Ok_0 as int, b, out1);
    law_told(s, i, cs, ws, k, slot, a + b, before);
    assert(is_dir(s, i, cs)) by {
        reveal(dir_raw);
    }
    lemma_told_alike(s, s1, i, cs, ws, k + a, b, s1.next_ino as int);
    lemma_told_in_parts(s, i, cs, ws, k, a, b, s.next_ino as int);
    let first = told(s, i, cs, ws, k, a, s.next_ino as int);
    let second = told(s, i, cs, ws, k + a, b, s1.next_ino as int);
    assert(before + first + second =~= before + (first + second));
    lemma_told_len(s, i, cs, ws, k, a + b, s.next_ino as int);
}

/// As many inodes are listed as are read.
proof fn lemma_told_len(
    s: FsState,
    i: int,
    cs: Seq<ClusterID>,
    ws: Seq<Held>,
    k: int,
    count: nat,
    ino: int,
)
    ensures
        told(s, i, cs, ws, k, count, ino).len() == count,
    decreases count,
{
    if count > 0 {
        lemma_told_len(
            s,
            i,
            cs,
            ws,
            k + 1,
            (count - 1) as nat,
            ino + taken_up(s, cs, ws[k]),
        );
    }
}

} // verus!
