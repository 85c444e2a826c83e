//! The directory entries of one file or directory.

use vstd::prelude::*;
use crate::bytes::{copy_range, overwrite, push_le16};
use crate::errno::Errno;
use crate::exfat::constants::{DENTRY_SIZE, EXFAT_FILE_NAME_LEN};
use crate::exfat::dentry::{
    dentry_kind, get_file, get_stream, get_units, put_file, put_stream, DentryKind, DosTimestamp,
    ExfatFileDentry, ExfatStreamDentry, EXFAT_FILE, EXFAT_NAME, EXFAT_STREAM,
};
use crate::exfat::fat::ALLOC_POSSIBLE;

verus! {

/// The attribute of a directory.
pub const ATTR_DIRECTORY: u16 = 0x0010;

/// A file entry, a stream entry, and the entries behind them.
pub struct ExfatDentrySet {
    bytes: Vec<u8>,
}

impl View for ExfatDentrySet {
    type V = Seq<u8>;

    closed spec fn view(&self) -> Seq<u8> {
        self.bytes@
    }
}

/// Whether bytes are those of a file entry, a stream entry and further entries.
pub open spec fn is_set(b: Seq<u8>) -> bool {
    &&& b.len() % (DENTRY_SIZE as nat) == 0
    &&& 2 * DENTRY_SIZE <= b.len()
    &&& crate::exfat::dentry::slot_kind(b, 0) is File
    &&& crate::exfat::dentry::slot_kind(b, 1) is Stream
}

/// The entries of the file whose file entry has the number `slot`.
pub open spec fn set_at(dir: Seq<u8>, slot: int) -> Result<Seq<u8>, Errno> {
    let last = slot + dir[slot * DENTRY_SIZE + 1];
    if !crate::exfat::dentry::has_slot(dir, slot) {
        Err(Errno::ENOENT)
    } else if !(crate::exfat::dentry::slot_kind(dir, slot) is File) {
        Err(Errno::EINVAL)
    } else if !crate::exfat::dentry::has_slot(dir, last) {
        Err(Errno::ENOENT)
    } else if last == slot || !(crate::exfat::dentry::slot_kind(dir, slot + 1) is Stream) {
        Err(Errno::EINVAL)
    } else {
        Ok(dir.subrange(slot * DENTRY_SIZE, (last + 1) * DENTRY_SIZE))
    }
}

/// One step of a checksum: a rotation to the right, and one byte more.
pub open spec fn checksum_step(sum: u16, byte: u8) -> u16 {
    ((sum / 2 + (if sum % 2 == 1 {
        0x8000int
    } else {
        0int
    }) + byte) % 0x1_0000) as u16
}

/// The checksum over the first `n` bytes of a set, but for those that hold it.
pub open spec fn checksum_of(b: Seq<u8>, n: nat) -> u16
    decreases n,
{
    if n == 0 {
        0
    } else if n == 3 || n == 4 {
        checksum_of(b, (n - 1) as nat)
    } else {
        checksum_step(checksum_of(b, (n - 1) as nat), b[n - 1])
    }
}

/// The hash of a name.
pub open spec fn name_hash_of(units: Seq<u16>) -> u16
    decreases units.len(),
{
    if units.len() == 0 {
        0
    } else {
        let unit = units.last();
        checksum_step(
            checksum_step(name_hash_of(units.drop_last()), (unit % 0x100) as u8),
            (unit / 0x100) as u8,
        )
    }
}

/// A set with its checksum brought up to date.
pub open spec fn with_checksum(b: Seq<u8>) -> Seq<u8> {
    crate::bytes::overwritten(b, 2, crate::bytes::le16_bytes(checksum_of(b, b.len())))
}

/// The units that the name entries from the number `slot` on hold.
pub open spec fn units_from(b: Seq<u8>, slot: int) -> Seq<u16>
    decreases b.len() - slot * DENTRY_SIZE,
{
    if !crate::exfat::dentry::has_slot(b, slot) {
        Seq::empty()
    } else if crate::exfat::dentry::slot_kind(b, slot) is Name {
        crate::exfat::dentry::slot_units(b, slot) + units_from(b, slot + 1)
    } else {
        units_from(b, slot + 1)
    }
}

/// The units before the first that is zero.
pub open spec fn until_zero(units: Seq<u16>) -> Seq<u16>
    decreases units.len(),
{
    if units.len() == 0 || units[0] == 0 {
        Seq::empty()
    } else {
        seq![units[0]] + until_zero(units.drop_first())
    }
}

/// The name that a set holds.
pub open spec fn set_name(b: Seq<u8>) -> Seq<u16> {
    until_zero(units_from(b, 0))
}

/// The number of entries that a set with the given name takes.
pub open spec fn set_slots(units: Seq<u16>) -> int {
    2 + crate::arith::pieces(units.len() as int, EXFAT_FILE_NAME_LEN as int)
}

/// The byte with the number `i` of a new set, where it is neither part of the file
/// entry nor of the stream entry.
pub open spec fn name_byte(units: Seq<u16>, i: int) -> u8 {
    let slot = i / (DENTRY_SIZE as int);
    let at = i % (DENTRY_SIZE as int);
    let unit = (slot - 2) * EXFAT_FILE_NAME_LEN + (at - 2) / 2;
    if slot == 0 {
        if at == 0 {
            EXFAT_FILE
        } else {
            0
        }
    } else if slot == 1 {
        if at == 0 {
            EXFAT_STREAM
        } else {
            0
        }
    } else if at == 0 {
        EXFAT_NAME
    } else if at == 1 || unit >= units.len() {
        0
    } else if at % 2 == 0 {
        (units[unit] % 0x100) as u8
    } else {
        (units[unit] / 0x100) as u8
    }
}

/// A set that holds nothing but a name.
pub open spec fn name_set(units: Seq<u16>) -> Seq<u8> {
    Seq::new((set_slots(units) * DENTRY_SIZE) as nat, |i: int| name_byte(units, i))
}

/// The file entry of a new file or directory.
pub open spec fn new_file_entry(units: Seq<u16>, directory: bool, now: DosTimestamp) ->
    ExfatFileDentry {
    ExfatFileDentry {
        num_secondary: (set_slots(units) - 1) as u8,
        checksum: 0,
        attribute: if directory {
            ATTR_DIRECTORY
        } else {
            0
        },
        create_time: now.time,
        create_date: now.date,
        modify_time: now.time,
        modify_date: now.date,
        access_time: now.time,
        access_date: now.date,
        create_time_cs: now.increament_10ms,
        modify_time_cs: now.increament_10ms,
        create_utc_offset: now.utc_offset,
        modify_utc_offset: now.utc_offset,
        access_utc_offset: now.utc_offset,
    }
}

/// The stream entry of a new file or directory.
pub open spec fn new_stream_entry(units: Seq<u16>) -> ExfatStreamDentry {
    ExfatStreamDentry {
        flags: ALLOC_POSSIBLE,
        name_len: units.len() as u8,
        name_hash: name_hash_of(units),
        valid_size: 0,
        start_cluster: 0,
        size: 0,
    }
}

/// The set of a new file or directory.
pub open spec fn new_set(units: Seq<u16>, directory: bool, now: DosTimestamp) -> Seq<u8> {
    with_checksum(
        crate::exfat::dentry::with_stream(
            crate::exfat::dentry::with_file(
                name_set(units),
                0,
                new_file_entry(units, directory, now),
            ),
            DENTRY_SIZE as int,
            new_stream_entry(units),
        ),
    )
}

/// A set in which the file entry and the stream entry were replaced.
#[verifier::opaque]
pub open spec fn updated_set(b: Seq<u8>, f: ExfatFileDentry, s: ExfatStreamDentry) -> Seq<u8> {
    with_checksum(
        crate::exfat::dentry::with_stream(
            crate::exfat::dentry::with_file(b, 0, f),
            DENTRY_SIZE as int,
            s,
        ),
    )
}

fn next_checksum(sum: u16, byte: u8) -> (next: u16)
    ensures
        next == checksum_step(sum, byte),
{
    let carry: u32 = if sum % 2 == 1 {
        0x8000
    } else {
        0
    };
    let total: u32 = (sum / 2) as u32 + carry + byte as u32;
    (total % 0x1_0000) as u16
}

/// The hash of a name.
pub fn hash_name(units: &Vec<u16>) -> (hash: u16)
    ensures
        hash == name_hash_of(units@),
{
    let mut hash: u16 = 0;
    let mut i: usize = 0;
    assert(units@.take(0) =~= Seq::<u16>::empty());
    while i < units.len()
        invariant
            i <= units@.len(),
            hash == name_hash_of(units@.take(i as int)),
        decreases units@.len() - i,
    {
        let unit: u16 = units[i];
        hash = next_checksum(next_checksum(hash, (unit % 0x100) as u8), (unit / 0x100) as u8);
        assert(units@.take(i + 1).drop_last() =~= units@.take(i as int));
        i = i + 1;
    }
    assert(units@.take(i as int) =~= units@);
    hash
}

/// The number of entries that a set with the given name takes.
pub fn count_slots(units: &Vec<u16>) -> (n: usize)
    requires
        units.len() <= 255,
    ensures
        n == set_slots(units@),
        2 <= n <= 19,
{
    2 + crate::arith::div_ceil(units.len(), EXFAT_FILE_NAME_LEN)
}

fn new_name_set(units: &Vec<u16>) -> (bytes: Vec<u8>)
    requires
        units.len() <= 255,
    ensures
        bytes@ == name_set(units@),
{
    let slots: usize = count_slots(units);
    let mut bytes: Vec<u8> = Vec::new();
    let mut i: usize = 0;
    while i < slots * DENTRY_SIZE
        invariant
            units@.len() <= 255,
            slots == set_slots(units@),
            slots <= 19,
            i <= slots * DENTRY_SIZE,
            bytes@ == name_set(units@).take(i as int),
        decreases slots * DENTRY_SIZE - i,
    {
        let slot: usize = i / DENTRY_SIZE;
        let at: usize = i % DENTRY_SIZE;
        let byte: u8 = if slot == 0 {
            if at == 0 {
                EXFAT_FILE
            } else {
                0
            }
        } else if slot == 1 {
            if at == 0 {
                EXFAT_STREAM
            } else {
                0
            }
        } else if at == 0 {
            EXFAT_NAME
        } else if at == 1 {
            0
        } else {
            let unit: usize = (slot - 2) * EXFAT_FILE_NAME_LEN + (at - 2) / 2;
            if unit >= units.len() {
                0
            } else if at % 2 == 0 {
                (units[unit] % 0x100) as u8
            } else {
                (units[unit] / 0x100) as u8
            }
        };
        bytes.push(byte);
        assert(byte == name_byte(units@, i as int));
        assert(name_set(units@).take(i + 1) =~= name_set(units@).take(i as int).push(
            name_set(units@)[i as int],
        ));
        i = i + 1;
    }
    assert(name_set(units@).take(i as int) =~= name_set(units@));
    bytes
}

impl ExfatDentrySet {
    /// The set holds a file entry and a stream entry.
    pub open spec fn wf(&self) -> bool {
        is_set(self@)
    }

    /// The set of a new file or directory.
    pub fn new(units: &Vec<u16>, directory: bool, now: DosTimestamp) -> (set: Self)
        requires
            units.len() <= 255,
        ensures
            set@ == new_set(units@, directory, now),
            set.wf(),
            set@.len() == set_slots(units@) * DENTRY_SIZE,
    {
        let slots: usize = count_slots(units);
        let mut bytes: Vec<u8> = new_name_set(units);
        let file: ExfatFileDentry = ExfatFileDentry {
            num_secondary: (slots - 1) as u8,
            checksum: 0,
            attribute: if directory {
                ATTR_DIRECTORY
            } else {
                0
            },
            create_time: now.time,
            create_date: now.date,
            modify_time: now.time,
            modify_date: now.date,
            access_time: now.time,
            access_date: now.date,
            create_time_cs: now.increament_10ms,
            modify_time_cs: now.increament_10ms,
            create_utc_offset: now.utc_offset,
            modify_utc_offset: now.utc_offset,
            access_utc_offset: now.utc_offset,
        };
        let stream: ExfatStreamDentry = ExfatStreamDentry {
            flags: ALLOC_POSSIBLE,
            name_len: units.len() as u8,
            name_hash: hash_name(units),
            valid_size: 0,
            start_cluster: 0,
            size: 0,
        };
        proof {
            let b = name_set(units@);
            assert(b[0] == name_byte(units@, 0));
            assert(b[32] == name_byte(units@, 32));
            assert(name_byte(units@, 0) == EXFAT_FILE);
            assert(name_byte(units@, 32) == EXFAT_STREAM);
            assert((slots * 32) % 32 == 0);
        }
        put_file(&mut bytes, 0, &file);
        put_stream(&mut bytes, DENTRY_SIZE, &stream);
        let mut set: ExfatDentrySet = ExfatDentrySet { bytes };
        set.update_checksum();
        set
    }

    /// Reads the set whose file entry has the number `slot`.
    pub fn read_from(dir: &Vec<u8>, slot: usize) -> (result: Result<Self, Errno>)
        ensures
            match set_at(dir@, slot as int) {
                Ok(b) => result is Ok && result->Ok_0@ == b && result->Ok_0.wf(),
                Err(e) => result == Err::<Self, Errno>(e),
            },
    {
        let slots: usize = dir.len() / DENTRY_SIZE;
        if slot >= slots {
            return Err(Errno::ENOENT);
        }
        if !matches!(dentry_kind(dir[slot * DENTRY_SIZE]), DentryKind::File) {
            return Err(Errno::EINVAL);
        }
        let num_secondary: usize = dir[slot * DENTRY_SIZE + 1] as usize;
        if num_secondary >= slots - slot {
            return Err(Errno::ENOENT);
        }
        if num_secondary == 0 {
            return Err(Errno::EINVAL);
        }
        if !matches!(dentry_kind(dir[(slot + 1) * DENTRY_SIZE]), DentryKind::Stream) {
            return Err(Errno::EINVAL);
        }
        let bytes: Vec<u8> = copy_range(
            dir,
            slot * DENTRY_SIZE,
            (slot + num_secondary + 1) * DENTRY_SIZE,
        );
        proof {
            assert(bytes@.len() == (num_secondary + 1) * 32);
            assert(((num_secondary + 1) * 32) % 32 == 0);
        }
        Ok(ExfatDentrySet { bytes })
    }

    /// The number of entries in the set.
    pub fn len(&self) -> (n: usize)
        ensures
            n == self@.len() / (DENTRY_SIZE as nat),
    {
        self.bytes.len() / DENTRY_SIZE
    }

    /// The bytes of the set.
    pub fn to_le_bytes(&self) -> (bytes: &Vec<u8>)
        ensures
            bytes@ == self@,
    {
        &self.bytes
    }

    /// The file entry.
    pub fn get_file_dentry(&self) -> (f: ExfatFileDentry)
        requires
            self.wf(),
        ensures
            f == crate::exfat::dentry::file_at(self@, 0),
    {
        get_file(&self.bytes, 0)
    }

    /// The stream entry.
    pub fn get_stream_dentry(&self) -> (s: ExfatStreamDentry)
        requires
            self.wf(),
        ensures
            s == crate::exfat::dentry::stream_at(self@, DENTRY_SIZE as int),
    {
        get_stream(&self.bytes, DENTRY_SIZE)
    }

    /// Replaces the file entry and the stream entry, and brings the checksum up to
    /// date.
    pub fn update(&mut self, f: &ExfatFileDentry, s: &ExfatStreamDentry)
        requires
            old(self).wf(),
        ensures
            final(self)@ == updated_set(old(self)@, *f, *s),
            final(self).wf(),
            final(self)@.len() == old(self)@.len(),
    {
        proof {
            reveal(updated_set);
        }
        put_file(&mut self.bytes, 0, f);
        put_stream(&mut self.bytes, DENTRY_SIZE, s);
        self.update_checksum();
    }

    /// Brings the checksum up to date.
    fn update_checksum(&mut self)
        requires
            2 * DENTRY_SIZE <= old(self)@.len(),
        ensures
            final(self)@ == with_checksum(old(self)@),
            final(self)@.len() == old(self)@.len(),
            final(self)@[0] == old(self)@[0],
            final(self)@[32] == old(self)@[32],
    {
        let mut sum: u16 = 0;
        let mut i: usize = 0;
        while i < self.bytes.len()
            invariant
                i <= self.bytes@.len(),
                self.bytes@ == old(self)@,
                sum == checksum_of(self.bytes@, i as nat),
            decreases self.bytes@.len() - i,
        {
            if i != 2 && i != 3 {
                sum = next_checksum(sum, self.bytes[i]);
            }
            i = i + 1;
        }
        let mut patch: Vec<u8> = Vec::new();
        push_le16(&mut patch, sum);
        assert(patch@ =~= crate::bytes::le16_bytes(sum));
        overwrite(&mut self.bytes, 2, &patch);
    }

    /// The name that the set holds.
    pub fn get_name(&self) -> (units: Vec<u16>)
        ensures
            units@ == set_name(self@),
    {
        let len: usize = self.bytes.len();
        let slots: usize = len / DENTRY_SIZE;
        let mut all: Vec<u16> = Vec::new();
        let mut slot: usize = 0;
        assert(all@ + units_from(self@, 0) =~= units_from(self@, 0));
        while slot < slots
            invariant
                slot <= slots,
                len == self@.len(),
                slots == len / DENTRY_SIZE,
                all@ + units_from(self@, slot as int) == units_from(self@, 0),
            decreases slots - slot,
        {
            if matches!(dentry_kind(self.bytes[slot * DENTRY_SIZE]), DentryKind::Name) {
                let mut part: Vec<u16> = get_units(&self.bytes, slot);
                proof {
                    let rest = units_from(self@, slot + 1);
                    assert(all@ + (part@ + rest) =~= (all@ + part@) + rest);
                }
                all.append(&mut part);
            }
            slot = slot + 1;
        }
        assert(all@ + units_from(self@, slot as int) =~= all@);
        let mut units: Vec<u16> = Vec::new();
        let mut i: usize = 0;
        assert(all@.skip(0) =~= all@);
        assert(units@ + until_zero(all@) =~= until_zero(all@));
        while i < all.len() && all[i] != 0
            invariant
                i <= all@.len(),
                units@ + until_zero(all@.skip(i as int)) == until_zero(all@),
            decreases all@.len() - i,
        {
            proof {
                let rest = all@.skip(i as int);
                assert(rest.drop_first() =~= all@.skip(i + 1));
                assert(units@ + (seq![rest[0]] + until_zero(rest.drop_first())) =~= units@.push(
                    rest[0],
                ) + until_zero(rest.drop_first()));
            }
            units.push(all[i]);
            i = i + 1;
        }
        assert(units@ + until_zero(all@.skip(i as int)) =~= units@);
        units
    }
}

} // verus!
