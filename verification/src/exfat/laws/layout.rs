//! Where entries stand in the pages of a directory.

use vstd::prelude::*;
use crate::exfat::constants::DENTRY_SIZE;

verus! {

/// An inode in a directory: the number of its first entry, the number of its entries,
/// and its own number.
pub struct Held {
    pub slot: int,
    pub width: int,
    pub inode: int,
}

/// Whether pages hold the entries of a file, which are `w` entries from the number
/// `slot` on.
pub open spec fn set_in(pages: Seq<u8>, slot: int, w: int) -> bool {
    &&& 0 <= slot
    &&& 2 <= w
    &&& (slot + w) * DENTRY_SIZE <= pages.len()
    &&& crate::exfat::dentry::slot_kind(pages, slot) is File
    &&& crate::exfat::dentry::slot_kind(pages, slot + 1) is Stream
    &&& pages[slot * DENTRY_SIZE + 1] + 1 == w
    &&& forall|t: int|
        slot + 2 <= t < slot + w ==> #[trigger] crate::exfat::dentry::slot_kind(pages, t) is Name
}

/// Whether the entry with the number `slot` belongs to one of the inodes `es`.
pub open spec fn covered(es: Seq<Held>, slot: int) -> bool {
    exists|k: int|
        0 <= k < es.len() && (#[trigger] es[k]).slot <= slot < es[k].slot + es[k].width
}

/// Whether inodes stand behind each other.
pub open spec fn in_order(es: Seq<Held>) -> bool {
    forall|a: int, b: int|
        0 <= a < b < es.len() ==> (#[trigger] es[a]).slot + es[a].width <= (#[trigger] es[b]).slot
}

/// Whether pages hold the entries of the inodes `es`, and no other file entries.
#[verifier::opaque]
pub open spec fn laid_out(pages: Seq<u8>, es: Seq<Held>) -> bool {
    &&& pages.len() % (DENTRY_SIZE as nat) == 0
    &&& forall|k: int|
        0 <= k < es.len() ==> set_in(pages, (#[trigger] es[k]).slot, es[k].width)
    &&& in_order(es)
    &&& forall|slot: int|
        crate::exfat::dentry::has_slot(pages, slot) && #[trigger] crate::exfat::dentry::slot_kind(
            pages,
            slot,
        ) is File ==> covered(es, slot)
}

/// Whether no entry of the inodes `es` is among the `w` entries from the number `slot`
/// on.
pub open spec fn apart(es: Seq<Held>, slot: int, w: int) -> bool {
    forall|k: int|
        0 <= k < es.len() ==> (#[trigger] es[k]).slot + es[k].width <= slot || slot + w
            <= es[k].slot
}

/// Entries stay where their bytes stay.
pub proof fn lemma_set_in_same(a: Seq<u8>, b: Seq<u8>, slot: int, w: int)
    requires
        set_in(a, slot, w),
        (slot + w) * DENTRY_SIZE <= b.len(),
        forall|k: int|
            slot * DENTRY_SIZE <= k < (slot + w) * DENTRY_SIZE ==> #[trigger] a[k] == b[k],
    ensures
        set_in(b, slot, w),
{
    assert forall|t: int| slot + 2 <= t < slot + w implies #[trigger]
    crate::exfat::dentry::slot_kind(b, t) is Name by {
        assert(crate::exfat::dentry::slot_kind(a, t) is Name);
        assert(a[t * 32] == b[t * 32]);
    }
    assert(a[slot * 32] == b[slot * 32]);
    assert(a[slot * 32 + 1] == b[slot * 32 + 1]);
    assert(a[(slot + 1) * 32] == b[(slot + 1) * 32]);
}

/// Entries that are not in use are not among those of the inodes.
pub proof fn lemma_free_is_apart(pages: Seq<u8>, es: Seq<Held>, slot: int, w: int)
    requires
        laid_out(pages, es),
        0 < w,
        forall|t: int|
            slot <= t < slot + w ==> #[trigger] crate::exfat::dentry::slot_is_free(pages, t),
    ensures
        apart(es, slot, w),
{
    reveal(laid_out);
    assert forall|k: int| 0 <= k < es.len() implies (#[trigger] es[k]).slot + es[k].width <= slot
        || slot + w <= es[k].slot by {
        let e = es[k];
        assert(set_in(pages, e.slot, e.width));
        if e.slot + e.width > slot && slot + w > e.slot {
            let t = if slot > e.slot {
                slot
            } else {
                e.slot
            };
            assert(crate::exfat::dentry::slot_is_free(pages, t));
            if t > e.slot + 1 {
                assert(crate::exfat::dentry::slot_kind(pages, t) is Name);
            }
        }
    }
}

/// Pages that are cut or filled up with zeros behind the entries of the inodes hold them.
pub proof fn lemma_pages_resized(pages: Seq<u8>, es: Seq<Held>, len: int)
    requires
        laid_out(pages, es),
        0 <= len,
        len % (DENTRY_SIZE as int) == 0,
        forall|k: int|
            0 <= k < es.len() ==> ((#[trigger] es[k]).slot + es[k].width) * DENTRY_SIZE <= len,
    ensures
        laid_out(crate::bytes::resized(pages, len), es),
{
    reveal(laid_out);
    let after = crate::bytes::resized(pages, len);
    assert forall|k: int| 0 <= k < es.len() implies set_in(
        after,
        (#[trigger] es[k]).slot,
        es[k].width,
    ) by {
        assert(set_in(pages, es[k].slot, es[k].width));
        lemma_set_in_same(pages, after, es[k].slot, es[k].width);
    }
    assert forall|slot: int|
        crate::exfat::dentry::has_slot(after, slot) && #[trigger] crate::exfat::dentry::slot_kind(
            after,
            slot,
        ) is File implies covered(es, slot) by {
        if slot * 32 < pages.len() {
            assert(after[slot * 32] == pages[slot * 32]);
            assert(crate::exfat::dentry::slot_kind(pages, slot) is File);
        } else {
            assert(after[slot * 32] == 0);
        }
    }
}

/// Where among the inodes `es` entries belong that stand apart from theirs.
pub proof fn lemma_gap(es: Seq<Held>, slot: int, w: int) -> (p: int)
    requires
        in_order(es),
        forall|k: int| 0 <= k < es.len() ==> 0 < (#[trigger] es[k]).width,
        apart(es, slot, w),
        0 < w,
    ensures
        0 <= p <= es.len(),
        forall|k: int| 0 <= k < p ==> (#[trigger] es[k]).slot + es[k].width <= slot,
        forall|k: int| p <= k < es.len() ==> slot + w <= (#[trigger] es[k]).slot,
    decreases es.len(),
{
    if es.len() == 0 {
        0
    } else {
        let n = es.len() - 1;
        let first = es.drop_last();
        assert(in_order(first)) by {
            assert forall|a: int, b: int| 0 <= a < b < first.len() implies (
            #[trigger] first[a]).slot + first[a].width <= (#[trigger] first[b]).slot by {
                assert(es[a].slot + es[a].width <= es[b].slot);
            }
        }
        assert(apart(first, slot, w)) by {
            assert forall|k: int| 0 <= k < first.len() implies (#[trigger] first[k]).slot
                + first[k].width <= slot || slot + w <= first[k].slot by {
                assert(es[k].slot + es[k].width <= slot || slot + w <= es[k].slot);
            }
        }
        assert forall|k: int| 0 <= k < first.len() implies 0 < (#[trigger] first[k]).width by {
            assert(0 < es[k].width);
        }
        let p = lemma_gap(first, slot, w);
        if es[n].slot + es[n].width <= slot {
            assert forall|k: int| 0 <= k < es.len() implies (#[trigger] es[k]).slot + es[k].width
                <= slot by {
                if k < n {
                    assert(es[k].slot + es[k].width <= es[n].slot);
                    assert(0 < es[n].width);
                }
            }
            es.len() as int
        } else {
            assert forall|k: int| 0 <= k < p implies (#[trigger] es[k]).slot + es[k].width
                <= slot by {
                assert(first[k].slot + first[k].width <= slot);
            }
            assert forall|k: int| p <= k < es.len() implies slot + w <= (
            #[trigger] es[k]).slot by {
                if k < n {
                    assert(slot + w <= first[k].slot);
                }
            }
            p
        }
    }
}

/// Inodes with one more in a gap between them stand behind each other, and cover what
/// they did.
pub proof fn lemma_inserted(es: Seq<Held>, e: Held, p: int)
    requires
        in_order(es),
        0 <= p <= es.len(),
        forall|k: int| 0 <= k < p ==> (#[trigger] es[k]).slot + es[k].width <= e.slot,
        forall|k: int| p <= k < es.len() ==> e.slot + e.width <= (#[trigger] es[k]).slot,
    ensures
        in_order(es.insert(p, e)),
        forall|slot: int|
            covered(es, slot) || e.slot <= slot < e.slot + e.width ==> #[trigger] covered(
                es.insert(p, e),
                slot,
            ),
{
    let fs = es.insert(p, e);
    assert(fs[p] == e);
    assert forall|a: int, b: int| 0 <= a < b < fs.len() implies (#[trigger] fs[a]).slot
        + fs[a].width <= (#[trigger] fs[b]).slot by {
        let x = if a < p {
            a
        } else {
            a - 1
        };
        let y = if b < p {
            b
        } else {
            b - 1
        };
        if a == p {
            assert(fs[b] == es[y]);
        } else if b == p {
            assert(fs[a] == es[x]);
        } else {
            assert(fs[a] == es[x] && fs[b] == es[y]);
            assert(es[x].slot + es[x].width <= es[y].slot);
        }
    }
    assert forall|slot: int|
        covered(es, slot) || e.slot <= slot < e.slot + e.width implies #[trigger] covered(
        fs,
        slot,
    ) by {
        if !(e.slot <= slot < e.slot + e.width) {
            let k = choose|k: int|
                0 <= k < es.len() && (#[trigger] es[k]).slot <= slot < es[k].slot + es[k].width;
            let j = if k < p {
                k
            } else {
                k + 1
            };
            assert(fs[j] == es[k]);
        }
    }
}

/// Entries of an inode stay where entries are put beside them.
proof fn lemma_set_untouched(pages: Seq<u8>, after: Seq<u8>, es: Seq<Held>, e: Held, k: int)
    requires
        laid_out(pages, es),
        0 <= k < es.len(),
        es[k].slot + es[k].width <= e.slot || e.slot + e.width <= es[k].slot,
        pages.len() <= after.len(),
        forall|x: int|
            0 <= x < pages.len() && !(e.slot * DENTRY_SIZE <= x < (e.slot + e.width) * DENTRY_SIZE)
                ==> #[trigger] after[x] == pages[x],
    ensures
        set_in(after, es[k].slot, es[k].width),
{
    reveal(laid_out);
    assert(set_in(pages, es[k].slot, es[k].width));
    lemma_set_in_same(pages, after, es[k].slot, es[k].width);
}

/// Putting entries into a gap between those of the inodes.
pub proof fn lemma_set_added(
    pages: Seq<u8>,
    after: Seq<u8>,
    es: Seq<Held>,
    e: Held,
    p: int,
)
    requires
        laid_out(pages, es),
        0 <= p <= es.len(),
        forall|k: int| 0 <= k < p ==> (#[trigger] es[k]).slot + es[k].width <= e.slot,
        forall|k: int| p <= k < es.len() ==> e.slot + e.width <= (#[trigger] es[k]).slot,
        pages.len() <= after.len(),
        after.len() % (DENTRY_SIZE as nat) == 0,
        set_in(after, e.slot, e.width),
        forall|k: int|
            0 <= k < after.len() && !(e.slot * DENTRY_SIZE <= k < (e.slot + e.width) * DENTRY_SIZE)
                ==> #[trigger] after[k] == (if k < pages.len() {
                pages[k]
            } else {
                0u8
            }),
    ensures
        laid_out(after, es.insert(p, e)),
{
    let fs = es.insert(p, e);
    assert forall|k: int| 0 <= k < fs.len() implies set_in(
        after,
        (#[trigger] fs[k]).slot,
        fs[k].width,
    ) by {
        if k != p {
            let j = if k < p {
                k
            } else {
                k - 1
            };
            assert(fs[k] == es[j]);
            lemma_set_untouched(pages, after, es, e, j);
        }
    }
    assert(in_order(es) && pages.len() % (DENTRY_SIZE as nat) == 0) by {
        reveal(laid_out);
    }
    lemma_inserted(es, e, p);
    assert forall|slot: int|
        crate::exfat::dentry::has_slot(after, slot) && #[trigger] crate::exfat::dentry::slot_kind(
            after,
            slot,
        ) is File implies covered(fs, slot) by {
        if !(e.slot <= slot < e.slot + e.width) {
            let at = slot * 32;
            assert(after[at] == (if at < pages.len() {
                pages[at]
            } else {
                0u8
            }));
            assert(crate::exfat::dentry::has_slot(pages, slot));
            assert(crate::exfat::dentry::slot_kind(pages, slot) is File);
            assert(covered(es, slot)) by {
                reveal(laid_out);
            }
        }
    }
    reveal(laid_out);
}

/// Deleting entries leaves none of them in use, and all others alone.
pub proof fn lemma_deleted_bytes(pages: Seq<u8>, slot: int, w: int)
    requires
        0 <= slot,
        0 <= w,
        (slot + w) * DENTRY_SIZE <= pages.len(),
    ensures
        ({
            let at = slot * DENTRY_SIZE;
            let end = (slot + w) * DENTRY_SIZE;
            let after = crate::bytes::overwritten(
                pages,
                at,
                crate::exfat::fs::dir::deleted_set(pages.subrange(at, end)),
            );
            &&& after.len() == pages.len()
            &&& forall|k: int|
                0 <= k < pages.len() && !(at <= k < end) ==> #[trigger] after[k] == pages[k]
            &&& forall|t: int|
                slot <= t < slot + w ==> #[trigger] crate::exfat::dentry::slot_is_free(after, t)
        }),
{
    let at = slot * DENTRY_SIZE;
    let end = (slot + w) * DENTRY_SIZE;
    let set = pages.subrange(at, end);
    let after = crate::bytes::overwritten(pages, at, crate::exfat::fs::dir::deleted_set(set));
    assert forall|t: int| slot <= t < slot + w implies #[trigger]
    crate::exfat::dentry::slot_is_free(after, t) by {
        let x = t * 32 - at;
        assert(x % 32 == 0 && x + 32 <= set.len());
        assert(after[t * 32] == crate::exfat::dentry::deleted_type(set[x]));
        crate::exfat::dentry::law_deleted_not_in_use(set[x]);
    }
}

/// Inodes without one of them still stand behind each other, and cover what they did.
pub proof fn lemma_removed(es: Seq<Held>, k: int)
    requires
        in_order(es),
        0 <= k < es.len(),
    ensures
        in_order(es.remove(k)),
        forall|slot: int|
            covered(es, slot) && !(es[k].slot <= slot < es[k].slot + es[k].width) ==> #[trigger]
            covered(es.remove(k), slot),
{
    let fs = es.remove(k);
    assert forall|a: int, b: int| 0 <= a < b < fs.len() implies (#[trigger] fs[a]).slot
        + fs[a].width <= (#[trigger] fs[b]).slot by {
        let x = if a < k {
            a
        } else {
            a + 1
        };
        let y = if b < k {
            b
        } else {
            b + 1
        };
        assert(fs[a] == es[x] && fs[b] == es[y]);
        assert(es[x].slot + es[x].width <= es[y].slot);
    }
    assert forall|slot: int|
        covered(es, slot) && !(es[k].slot <= slot < es[k].slot + es[k].width) implies #[trigger]
    covered(fs, slot) by {
        let x = choose|x: int|
            0 <= x < es.len() && (#[trigger] es[x]).slot <= slot < es[x].slot + es[x].width;
        let j = if x < k {
            x
        } else {
            x - 1
        };
        assert(fs[j] == es[x]);
    }
}

/// Entries of an inode stay where the entries of another one are no longer in use.
proof fn lemma_set_stays(pages: Seq<u8>, after: Seq<u8>, es: Seq<Held>, k: int, x: int)
    requires
        laid_out(pages, es),
        0 <= k < es.len(),
        0 <= x < es.len(),
        x != k,
        after.len() == pages.len(),
        forall|y: int|
            0 <= y < pages.len() && !(es[k].slot * DENTRY_SIZE <= y < (es[k].slot + es[k].width)
                * DENTRY_SIZE) ==> #[trigger] after[y] == pages[y],
    ensures
        set_in(after, es[x].slot, es[x].width),
{
    reveal(laid_out);
    assert(set_in(pages, es[x].slot, es[x].width));
    assert(es[x].slot + es[x].width <= es[k].slot || es[k].slot + es[k].width <= es[x].slot);
    lemma_set_in_same(pages, after, es[x].slot, es[x].width);
}

/// Pages in which the entries of an inode are no longer in use.
pub proof fn lemma_set_gone(pages: Seq<u8>, after: Seq<u8>, es: Seq<Held>, k: int)
    requires
        laid_out(pages, es),
        0 <= k < es.len(),
        after.len() == pages.len(),
        forall|x: int|
            0 <= x < pages.len() && !(es[k].slot * DENTRY_SIZE <= x < (es[k].slot + es[k].width)
                * DENTRY_SIZE) ==> #[trigger] after[x] == pages[x],
        forall|t: int|
            es[k].slot <= t < es[k].slot + es[k].width ==> #[trigger]
            crate::exfat::dentry::slot_is_free(after, t),
    ensures
        laid_out(after, es.remove(k)),
{
    let e = es[k];
    let fs = es.remove(k);
    assert forall|j: int| 0 <= j < fs.len() implies set_in(
        after,
        (#[trigger] fs[j]).slot,
        fs[j].width,
    ) by {
        let x = if j < k {
            j
        } else {
            j + 1
        };
        assert(fs[j] == es[x]);
        lemma_set_stays(pages, after, es, k, x);
    }
    assert(in_order(es)) by {
        reveal(laid_out);
    }
    lemma_removed(es, k);
    assert forall|slot: int|
        crate::exfat::dentry::has_slot(after, slot) && #[trigger] crate::exfat::dentry::slot_kind(
            after,
            slot,
        ) is File implies covered(fs, slot) by {
        if e.slot <= slot < e.slot + e.width {
            assert(crate::exfat::dentry::slot_is_free(after, slot));
        } else {
            assert(after[slot * 32] == pages[slot * 32]);
            assert(crate::exfat::dentry::slot_kind(pages, slot) is File);
            assert(covered(es, slot)) by {
                reveal(laid_out);
            }
        }
    }
    reveal(laid_out);
}

/// Replacing the entries of an inode by entries of the same kinds.
pub proof fn lemma_set_replaced(pages: Seq<u8>, es: Seq<Held>, k: int, set: Seq<u8>)
    requires
        laid_out(pages, es),
        0 <= k < es.len(),
        set.len() == es[k].width * DENTRY_SIZE,
        forall|t: int|
            0 <= t < es[k].width ==> #[trigger] set[t * DENTRY_SIZE] == pages[(es[k].slot + t)
                * DENTRY_SIZE],
        set[1] == pages[es[k].slot * DENTRY_SIZE + 1],
    ensures
        laid_out(crate::bytes::overwritten(pages, es[k].slot * DENTRY_SIZE, set), es),
{
    reveal(laid_out);
    let e = es[k];
    let at = e.slot * DENTRY_SIZE;
    let after = crate::bytes::overwritten(pages, at, set);
    assert(set_in(pages, es[k].slot, es[k].width));
    assert forall|t: int| 0 <= t * 32 < pages.len() implies #[trigger] after[t * 32]
        == pages[t * 32] by {
        if e.slot <= t < e.slot + e.width {
            assert(set[(t - e.slot) * DENTRY_SIZE] == pages[(e.slot + (t - e.slot)) * DENTRY_SIZE]);
        }
    }
    assert forall|j: int| 0 <= j < es.len() implies set_in(
        after,
        (#[trigger] es[j]).slot,
        es[j].width,
    ) by {
        assert(set_in(pages, es[j].slot, es[j].width));
        if j == k {
            assert(after[e.slot * 32] == pages[e.slot * 32]);
            assert(after[(e.slot + 1) * 32] == pages[(e.slot + 1) * 32]);
            assert forall|t: int| e.slot + 2 <= t < e.slot + e.width implies #[trigger]
            crate::exfat::dentry::slot_kind(after, t) is Name by {
                assert(crate::exfat::dentry::slot_kind(pages, t) is Name);
                assert(after[t * 32] == pages[t * 32]);
            }
        } else {
            assert(es[j].slot + es[j].width <= e.slot || e.slot + e.width <= es[j].slot);
            lemma_set_in_same(pages, after, es[j].slot, es[j].width);
        }
    }
    assert forall|slot: int|
        crate::exfat::dentry::has_slot(after, slot) && #[trigger] crate::exfat::dentry::slot_kind(
            after,
            slot,
        ) is File implies covered(es, slot) by {
        assert(after[slot * 32] == pages[slot * 32]);
        assert(crate::exfat::dentry::slot_kind(pages, slot) is File);
    }
}

} // verus!
