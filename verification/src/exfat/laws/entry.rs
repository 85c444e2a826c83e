//! The entries of a file: a name that was stored is read back.

use vstd::prelude::*;
use crate::exfat::constants::{DENTRY_SIZE, EXFAT_FILE_NAME_LEN};
use crate::exfat::dentry::{DosTimestamp, ExfatFileDentry, ExfatStreamDentry};

verus! {

/// Units up to the first zero.
pub proof fn lemma_until_zero(units: Seq<u16>, n: int)
    requires
        0 <= n <= units.len(),
        forall|k: int| 0 <= k < n ==> #[trigger] units[k] != 0,
        n < units.len() ==> units[n] == 0,
    ensures
        crate::exfat::dentry_set::until_zero(units) == units.take(n),
    decreases n,
{
    if n > 0 {
        assert(units[0] != 0);
        let rest = units.drop_first();
        assert forall|k: int| 0 <= k < n - 1 implies #[trigger] rest[k] != 0 by {
            assert(units[k + 1] != 0);
        }
        lemma_until_zero(rest, n - 1);
        assert(units.take(n) =~= seq![units[0]] + rest.take(n - 1));
    } else {
        assert(units.take(0) =~= Seq::<u16>::empty());
    }
}

/// The units of name entries from the number `slot` up to the end.
pub proof fn lemma_units_of_names(b: Seq<u8>, slot: int, end: int)
    requires
        0 <= slot <= end,
        b.len() == end * DENTRY_SIZE,
        forall|t: int|
            slot <= t < end ==> #[trigger] crate::exfat::dentry::slot_kind(b, t) is Name,
    ensures
        crate::exfat::dentry_set::units_from(b, slot).len() == (end - slot) * EXFAT_FILE_NAME_LEN,
        forall|j: int|
            0 <= j < (end - slot) * EXFAT_FILE_NAME_LEN ==> #[trigger]
            crate::exfat::dentry_set::units_from(b, slot)[j] == crate::bytes::le16(
                b,
                (slot + j / 15) * DENTRY_SIZE + 2 + 2 * (j % 15),
            ),
    decreases end - slot,
{
    if slot < end {
        assert(crate::exfat::dentry::slot_kind(b, slot) is Name);
        lemma_units_of_names(b, slot + 1, end);
        let all = crate::exfat::dentry_set::units_from(b, slot);
        let rest = crate::exfat::dentry_set::units_from(b, slot + 1);
        assert forall|j: int| 0 <= j < (end - slot) * EXFAT_FILE_NAME_LEN implies #[trigger] all[j]
            == crate::bytes::le16(b, (slot + j / 15) * DENTRY_SIZE + 2 + 2 * (j % 15)) by {
            if j >= 15 {
                assert(all[j] == rest[j - 15]);
                assert((j - 15) / 15 == j / 15 - 1 && (j - 15) % 15 == j % 15);
            }
        }
    }
}

/// Sets that agree in the first bytes of their entries and in their name entries hold
/// the same name.
pub proof fn lemma_same_units(a: Seq<u8>, b: Seq<u8>, slot: int)
    requires
        0 <= slot,
        a.len() == b.len(),
        forall|t: int|
            slot <= t && crate::exfat::dentry::has_slot(a, t) ==> #[trigger]
            crate::exfat::dentry::slot_kind(a, t) == crate::exfat::dentry::slot_kind(b, t),
        forall|k: int| 2 * DENTRY_SIZE <= k < a.len() ==> #[trigger] a[k] == b[k],
        forall|t: int|
            slot <= t < 2 && crate::exfat::dentry::has_slot(a, t) ==> !(
            #[trigger] crate::exfat::dentry::slot_kind(a, t) is Name),
    ensures
        crate::exfat::dentry_set::units_from(a, slot) == crate::exfat::dentry_set::units_from(
            b,
            slot,
        ),
    decreases a.len() - slot * DENTRY_SIZE,
{
    if crate::exfat::dentry::has_slot(a, slot) {
        assert(crate::exfat::dentry::slot_kind(a, slot) == crate::exfat::dentry::slot_kind(
            b,
            slot,
        ));
        lemma_same_units(a, b, slot + 1);
        if crate::exfat::dentry::slot_kind(a, slot) is Name {
            assert(crate::exfat::dentry::slot_units(a, slot)
                =~= crate::exfat::dentry::slot_units(b, slot));
        }
    }
}

/// What a new set says of itself: whether it is a directory, and that it has no contents.
pub proof fn law_new_set(units: Seq<u16>, directory: bool, now: DosTimestamp)
    requires
        units.len() <= 255,
    ensures
        ({
            let set = crate::exfat::dentry_set::new_set(units, directory, now);
            let slots = crate::exfat::dentry_set::set_slots(units);
            &&& 2 <= slots <= 19
            &&& set.len() == slots * DENTRY_SIZE
            &&& crate::exfat::dentry::slot_kind(set, 0) is File
            &&& crate::exfat::dentry::slot_kind(set, 1) is Stream
            &&& forall|t: int|
                2 <= t < slots ==> #[trigger] crate::exfat::dentry::slot_kind(set, t) is Name
            &&& set[1] == slots - 1
            &&& crate::exfat::dentry::file_at(set, 0).attribute
                == crate::exfat::dentry_set::new_file_entry(units, directory, now).attribute
            &&& crate::exfat::dentry::stream_at(set, DENTRY_SIZE as int)
                == crate::exfat::dentry_set::new_stream_entry(units)
            &&& forall|k: int|
                2 * DENTRY_SIZE <= k < set.len() ==> #[trigger] set[k]
                    == crate::exfat::dentry_set::name_byte(units, k)
        }),
{
    let names = crate::exfat::dentry_set::name_set(units);
    let f = crate::exfat::dentry_set::new_file_entry(units, directory, now);
    let s = crate::exfat::dentry_set::new_stream_entry(units);
    let slots = crate::exfat::dentry_set::set_slots(units);
    assert(2 <= slots <= 19);
    assert(names.len() == slots * 32);
    law_updated_set(names, f, s);
    let set = crate::exfat::dentry_set::new_set(units, directory, now);
    assert(names[0] == crate::exfat::dentry_set::name_byte(units, 0));
    assert(names[32] == crate::exfat::dentry_set::name_byte(units, 32));
    assert forall|t: int| 2 <= t < slots implies #[trigger] crate::exfat::dentry::slot_kind(
        set,
        t,
    ) is Name by {
        assert(set[t * 32] == names[t * 32]);
        assert(names[t * 32] == crate::exfat::dentry_set::name_byte(units, t * 32));
        assert((t * 32) / 32 == t && (t * 32) % 32 == 0);
    }
    assert forall|k: int| 2 * DENTRY_SIZE <= k < set.len() implies #[trigger] set[k]
        == crate::exfat::dentry_set::name_byte(units, k) by {
        assert(set[k] == names[k]);
    }
}

/// A name without zeros that was stored in a new set is read back.
#[verifier::rlimit(30)]
pub proof fn law_name_of_new_set(units: Seq<u16>, directory: bool, now: DosTimestamp)
    requires
        units.len() <= 255,
        forall|k: int| 0 <= k < units.len() ==> #[trigger] units[k] != 0,
    ensures
        crate::exfat::dentry_set::set_name(
            crate::exfat::dentry_set::new_set(units, directory, now),
        ) == units,
{
    let set = crate::exfat::dentry_set::new_set(units, directory, now);
    let slots = crate::exfat::dentry_set::set_slots(units);
    law_new_set(units, directory, now);
    lemma_units_of_names(set, 2, slots);
    let all = crate::exfat::dentry_set::units_from(set, 2);
    reveal_with_fuel(crate::exfat::dentry_set::units_from, 3);
    assert(crate::exfat::dentry_set::units_from(set, 0) == all);
    assert(all.len() == (slots - 2) * 15);
    assert forall|j: int| 0 <= j < all.len() implies #[trigger] all[j] == (if j < units.len() {
        units[j]
    } else {
        0u16
    }) by {
        let slot = 2 + j / 15;
        let at = slot * 32 + 2 + 2 * (j % 15);
        assert(all[j] == crate::bytes::le16(set, at));
        assert(slot < slots);
        assert(set[at] == crate::exfat::dentry_set::name_byte(units, at));
        assert(set[at + 1] == crate::exfat::dentry_set::name_byte(units, at + 1));
        assert(at / 32 == slot && at % 32 == 2 + 2 * (j % 15));
        assert((at + 1) / 32 == slot && (at + 1) % 32 == 3 + 2 * (j % 15));
        assert((slot - 2) * 15 + j % 15 == j);
    }
    lemma_until_zero(all, units.len() as int);
    assert(all.take(units.len() as int) =~= units);
}

/// Replacing the file entry and the stream entry of a set leaves its length, the kinds
/// of its entries and its name alone.
#[verifier::rlimit(30)]
pub proof fn law_updated_set(b: Seq<u8>, f: ExfatFileDentry, s: ExfatStreamDentry)
    requires
        2 * DENTRY_SIZE <= b.len(),
    ensures
        ({
            let set = crate::exfat::dentry_set::updated_set(b, f, s);
            &&& set.len() == b.len()
            &&& forall|k: int|
                0 <= k < b.len() && !(1 <= k < DENTRY_SIZE) && !(DENTRY_SIZE < k < 2 * DENTRY_SIZE)
                    ==> #[trigger] set[k] == b[k]
            &&& set[1] == f.num_secondary
            &&& crate::exfat::dentry::file_at(set, 0) == (ExfatFileDentry {
                checksum: crate::exfat::dentry::file_at(set, 0).checksum,
                ..f
            })
            &&& crate::exfat::dentry::stream_at(set, DENTRY_SIZE as int) == s
        }),
{
    reveal(crate::exfat::dentry_set::updated_set);
    let b1 = crate::exfat::dentry::with_file(b, 0, f);
    let b2 = crate::exfat::dentry::with_stream(b1, DENTRY_SIZE as int, s);
    crate::exfat::dentry::law_file_entry_roundtrip(b, 0, f);
    crate::exfat::dentry::law_stream_entry_roundtrip(b1, DENTRY_SIZE as int, s);
    let set = crate::exfat::dentry_set::updated_set(b, f, s);
    assert forall|k: int| 0 <= k < b.len() && !(2 <= k < 4) implies #[trigger] set[k] == b2[k] by {}
    assert forall|k: int| 4 <= k < 32 implies #[trigger] set[k] == b1[k] by {
        assert(b2[k] == b1[k]);
    }
    assert(set[1] == b1[1]) by {
        assert(b2[1] == b1[1]);
    }
    assert(crate::exfat::dentry::stream_at(set, 32) == crate::exfat::dentry::stream_at(b2, 32));
    let got = crate::exfat::dentry::file_at(set, 0);
    let put = crate::exfat::dentry::file_at(b1, 0);
    assert(got == (ExfatFileDentry { checksum: got.checksum, ..put }));
}

/// Sets that differ in the file entry and the stream entry only hold the same name.
pub proof fn lemma_same_name(a: Seq<u8>, b: Seq<u8>)
    requires
        crate::exfat::dentry_set::is_set(b),
        a.len() == b.len(),
        forall|k: int|
            0 <= k < b.len() && !(1 <= k < DENTRY_SIZE) && !(DENTRY_SIZE < k < 2 * DENTRY_SIZE)
                ==> #[trigger] a[k] == b[k],
    ensures
        crate::exfat::dentry_set::set_name(a) == crate::exfat::dentry_set::set_name(b),
        crate::exfat::dentry_set::is_set(a),
{
    assert forall|t: int| 0 <= t && crate::exfat::dentry::has_slot(a, t) implies #[trigger]
    crate::exfat::dentry::slot_kind(a, t) == crate::exfat::dentry::slot_kind(b, t) by {
        assert(a[t * 32] == b[t * 32]);
    }
    assert(crate::exfat::dentry::slot_kind(a, 0) == crate::exfat::dentry::slot_kind(b, 0));
    assert(crate::exfat::dentry::slot_kind(a, 1) == crate::exfat::dentry::slot_kind(b, 1));
    lemma_same_units(a, b, 0);
}

/// The name of a set stays where its file entry and its stream entry are replaced.
pub proof fn law_updated_set_keeps_name(b: Seq<u8>, f: ExfatFileDentry, s: ExfatStreamDentry)
    requires
        crate::exfat::dentry_set::is_set(b),
    ensures
        crate::exfat::dentry_set::set_name(crate::exfat::dentry_set::updated_set(b, f, s))
            == crate::exfat::dentry_set::set_name(b),
{
    law_updated_set(b, f, s);
    lemma_same_name(crate::exfat::dentry_set::updated_set(b, f, s), b);
}

} // verus!
