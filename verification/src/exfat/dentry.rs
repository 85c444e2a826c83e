//! Directory entries.

use vstd::prelude::*;
use crate::bytes::{get_le16, get_le32, get_le64, overwrite, push_le16, push_le32, push_le64};
use crate::exfat::constants::{DENTRY_SIZE, EXFAT_FILE_NAME_LEN};

verus! {

/// The kinds of directory entries.
#[derive(Copy, Clone, Eq, PartialEq, Debug, Structural)]
pub enum DentryKind {
    /// The entry was never used.
    UnUsed,
    /// The entry was used once.
    Deleted,
    /// The first entry of a file or directory.
    File,
    /// The second entry of a file or directory: where its contents are.
    Stream,
    /// A part of the name of a file or directory.
    Name,
    /// Where the allocation bitmap is.
    Bitmap,
    /// Where the up-case table is.
    Upcase,
    /// An extension of a vendor.
    VendorExt,
    /// An extension of a vendor, with clusters.
    VendorAlloc,
    /// Another first entry.
    GenericPrimary,
    /// Another entry behind a first one.
    GenericSecondary,
}

pub const EXFAT_BITMAP: u8 = 0x81;

pub const EXFAT_UPCASE: u8 = 0x82;

pub const EXFAT_FILE: u8 = 0x85;

pub const EXFAT_STREAM: u8 = 0xC0;

pub const EXFAT_NAME: u8 = 0xC1;

pub const EXFAT_VENDOR_EXT: u8 = 0xE0;

pub const EXFAT_VENDOR_ALLOC: u8 = 0xE1;

/// The kind of an entry with the given first byte.
pub open spec fn kind_of(dentry_type: u8) -> DentryKind {
    if dentry_type == 0 {
        DentryKind::UnUsed
    } else if dentry_type < 0x80 {
        DentryKind::Deleted
    } else if dentry_type == EXFAT_FILE {
        DentryKind::File
    } else if dentry_type == EXFAT_STREAM {
        DentryKind::Stream
    } else if dentry_type == EXFAT_NAME {
        DentryKind::Name
    } else if dentry_type == EXFAT_BITMAP {
        DentryKind::Bitmap
    } else if dentry_type == EXFAT_UPCASE {
        DentryKind::Upcase
    } else if dentry_type == EXFAT_VENDOR_EXT {
        DentryKind::VendorExt
    } else if dentry_type == EXFAT_VENDOR_ALLOC {
        DentryKind::VendorAlloc
    } else if dentry_type < 0xC0 {
        DentryKind::GenericPrimary
    } else {
        DentryKind::GenericSecondary
    }
}

/// The kind of an entry with the given first byte.
pub fn dentry_kind(dentry_type: u8) -> (kind: DentryKind)
    ensures
        kind == kind_of(dentry_type),
{
    if dentry_type == 0 {
        DentryKind::UnUsed
    } else if dentry_type < 0x80 {
        DentryKind::Deleted
    } else if dentry_type == EXFAT_FILE {
        DentryKind::File
    } else if dentry_type == EXFAT_STREAM {
        DentryKind::Stream
    } else if dentry_type == EXFAT_NAME {
        DentryKind::Name
    } else if dentry_type == EXFAT_BITMAP {
        DentryKind::Bitmap
    } else if dentry_type == EXFAT_UPCASE {
        DentryKind::Upcase
    } else if dentry_type == EXFAT_VENDOR_EXT {
        DentryKind::VendorExt
    } else if dentry_type == EXFAT_VENDOR_ALLOC {
        DentryKind::VendorAlloc
    } else if dentry_type < 0xC0 {
        DentryKind::GenericPrimary
    } else {
        DentryKind::GenericSecondary
    }
}

/// The first byte of an entry that is marked as deleted.
pub open spec fn deleted_type(dentry_type: u8) -> u8 {
    dentry_type & 0x7F
}

/// An entry that is marked as deleted is not in use.
pub proof fn law_deleted_not_in_use(dentry_type: u8)
    ensures
        kind_of(deleted_type(dentry_type)) is UnUsed || kind_of(
            deleted_type(dentry_type),
        ) is Deleted,
{
    assert(dentry_type & 0x7F < 0x80) by (bit_vector);
}

/// The kind of the entry with the number `slot` of a directory.
pub open spec fn slot_kind(dir: Seq<u8>, slot: int) -> DentryKind {
    kind_of(dir[slot * DENTRY_SIZE])
}

/// Whether the entry with the number `slot` is within the directory.
pub open spec fn has_slot(dir: Seq<u8>, slot: int) -> bool {
    0 <= slot && (slot + 1) * DENTRY_SIZE <= dir.len()
}

/// Whether the entry with the number `slot` is not in use.
pub open spec fn slot_is_free(dir: Seq<u8>, slot: int) -> bool {
    slot_kind(dir, slot) is UnUsed || slot_kind(dir, slot) is Deleted
}

/// A moment, as directory entries hold it.
#[derive(Copy, Clone, Eq, PartialEq, Debug, Structural)]
pub struct DosTimestamp {
    /// The time of the day, in steps of two seconds.
    pub time: u16,
    /// The day.
    pub date: u16,
    /// Hundredths of a second on top of the time.
    pub increament_10ms: u8,
    /// The offset from UTC.
    pub utc_offset: u8,
}

/// The first entry of a file or directory.
#[derive(Copy, Clone, Eq, PartialEq, Debug, Structural)]
pub struct ExfatFileDentry {
    pub num_secondary: u8,
    pub checksum: u16,
    pub attribute: u16,
    pub create_time: u16,
    pub create_date: u16,
    pub modify_time: u16,
    pub modify_date: u16,
    pub access_time: u16,
    pub access_date: u16,
    pub create_time_cs: u8,
    pub modify_time_cs: u8,
    pub create_utc_offset: u8,
    pub modify_utc_offset: u8,
    pub access_utc_offset: u8,
}

/// The second entry of a file or directory.
#[derive(Copy, Clone, Eq, PartialEq, Debug, Structural)]
pub struct ExfatStreamDentry {
    pub flags: u8,
    pub name_len: u8,
    pub name_hash: u16,
    pub valid_size: u64,
    pub start_cluster: u32,
    pub size: u64,
}

/// The clusters that an entry other than those of a file names.
#[derive(Copy, Clone, Eq, PartialEq, Debug, Structural)]
pub struct ClusterExtent {
    pub start_cluster: u32,
    pub size: u64,
}

/// The file entry that begins at `at`.
pub open spec fn file_at(b: Seq<u8>, at: int) -> ExfatFileDentry {
    ExfatFileDentry {
        num_secondary: b[at + 1],
        checksum: crate::bytes::le16(b, at + 2),
        attribute: crate::bytes::le16(b, at + 4),
        create_time: crate::bytes::le16(b, at + 8),
        create_date: crate::bytes::le16(b, at + 10),
        modify_time: crate::bytes::le16(b, at + 12),
        modify_date: crate::bytes::le16(b, at + 14),
        access_time: crate::bytes::le16(b, at + 16),
        access_date: crate::bytes::le16(b, at + 18),
        create_time_cs: b[at + 20],
        modify_time_cs: b[at + 21],
        create_utc_offset: b[at + 22],
        modify_utc_offset: b[at + 23],
        access_utc_offset: b[at + 24],
    }
}

/// The stream entry that begins at `at`.
pub open spec fn stream_at(b: Seq<u8>, at: int) -> ExfatStreamDentry {
    ExfatStreamDentry {
        flags: b[at + 1],
        name_len: b[at + 3],
        name_hash: crate::bytes::le16(b, at + 4),
        valid_size: crate::bytes::le64(b, at + 8),
        start_cluster: crate::bytes::le32(b, at + 20),
        size: crate::bytes::le64(b, at + 24),
    }
}

/// The clusters that the entry that begins at `at` names.
pub open spec fn extent_at(b: Seq<u8>, at: int) -> ClusterExtent {
    ClusterExtent {
        start_cluster: crate::bytes::le32(b, at + 20),
        size: crate::bytes::le64(b, at + 24),
    }
}

/// The bytes of a file entry from its second on, up to its attributes.
pub open spec fn file_head(f: ExfatFileDentry) -> Seq<u8> {
    seq![f.num_secondary] + crate::bytes::le16_bytes(f.checksum) + crate::bytes::le16_bytes(
        f.attribute,
    )
}

/// The bytes of a file entry that hold its times.
pub open spec fn file_times(f: ExfatFileDentry) -> Seq<u8> {
    crate::bytes::le16_bytes(f.create_time) + crate::bytes::le16_bytes(f.create_date)
        + crate::bytes::le16_bytes(f.modify_time) + crate::bytes::le16_bytes(f.modify_date)
        + crate::bytes::le16_bytes(f.access_time) + crate::bytes::le16_bytes(f.access_date)
        + seq![
        f.create_time_cs,
        f.modify_time_cs,
        f.create_utc_offset,
        f.modify_utc_offset,
        f.access_utc_offset,
    ]
}

/// The bytes in which the file entry that begins at `at` is replaced.
pub open spec fn with_file(b: Seq<u8>, at: int, f: ExfatFileDentry) -> Seq<u8> {
    crate::bytes::overwritten(
        crate::bytes::overwritten(b, at + 1, file_head(f)),
        at + 8,
        file_times(f),
    )
}

/// The bytes in which the stream entry that begins at `at` is replaced.
pub open spec fn with_stream(b: Seq<u8>, at: int, s: ExfatStreamDentry) -> Seq<u8> {
    let b1 = crate::bytes::overwritten(b, at + 1, seq![s.flags]);
    let b2 = crate::bytes::overwritten(
        b1,
        at + 3,
        seq![s.name_len] + crate::bytes::le16_bytes(s.name_hash),
    );
    let b3 = crate::bytes::overwritten(b2, at + 8, crate::bytes::le64_bytes(s.valid_size));
    crate::bytes::overwritten(
        b3,
        at + 20,
        crate::bytes::le32_bytes(s.start_cluster) + crate::bytes::le64_bytes(s.size),
    )
}

/// A file entry that was written is read back, and nothing else changes.
pub proof fn law_file_entry_roundtrip(b: Seq<u8>, at: int, f: ExfatFileDentry)
    requires
        0 <= at,
        at + DENTRY_SIZE <= b.len(),
    ensures
        with_file(b, at, f).len() == b.len(),
        file_at(with_file(b, at, f), at) == f,
        forall|k: int|
            0 <= k < b.len() && !(at + 1 <= k < at + 25) ==> #[trigger] with_file(b, at, f)[k]
                == b[k],
{
    let r = with_file(b, at, f);
    let h = file_head(f);
    let t = file_times(f);
    assert(h.len() == 5 && t.len() == 17);
    assert forall|k: int| 0 <= k < 5 implies #[trigger] h[k] == r[at + 1 + k] by {}
    assert forall|k: int| 0 <= k < 17 implies #[trigger] t[k] == r[at + 8 + k] by {}
    assert(r.subrange(at + 2, at + 4) =~= crate::bytes::le16_bytes(f.checksum)) by {
        assert(h[1] == crate::bytes::le16_bytes(f.checksum)[0]);
        assert(h[2] == crate::bytes::le16_bytes(f.checksum)[1]);
    }
    assert(r.subrange(at + 4, at + 6) =~= crate::bytes::le16_bytes(f.attribute)) by {
        assert(h[3] == crate::bytes::le16_bytes(f.attribute)[0]);
        assert(h[4] == crate::bytes::le16_bytes(f.attribute)[1]);
    }
    assert(r.subrange(at + 8, at + 10) =~= crate::bytes::le16_bytes(f.create_time)) by {
        assert(t[0] == crate::bytes::le16_bytes(f.create_time)[0]);
        assert(t[1] == crate::bytes::le16_bytes(f.create_time)[1]);
    }
    assert(r.subrange(at + 10, at + 12) =~= crate::bytes::le16_bytes(f.create_date)) by {
        assert(t[2] == crate::bytes::le16_bytes(f.create_date)[0]);
        assert(t[3] == crate::bytes::le16_bytes(f.create_date)[1]);
    }
    assert(r.subrange(at + 12, at + 14) =~= crate::bytes::le16_bytes(f.modify_time)) by {
        assert(t[4] == crate::bytes::le16_bytes(f.modify_time)[0]);
        assert(t[5] == crate::bytes::le16_bytes(f.modify_time)[1]);
    }
    assert(r.subrange(at + 14, at + 16) =~= crate::bytes::le16_bytes(f.modify_date)) by {
        assert(t[6] == crate::bytes::le16_bytes(f.modify_date)[0]);
        assert(t[7] == crate::bytes::le16_bytes(f.modify_date)[1]);
    }
    assert(r.subrange(at + 16, at + 18) =~= crate::bytes::le16_bytes(f.access_time)) by {
        assert(t[8] == crate::bytes::le16_bytes(f.access_time)[0]);
        assert(t[9] == crate::bytes::le16_bytes(f.access_time)[1]);
    }
    assert(r.subrange(at + 18, at + 20) =~= crate::bytes::le16_bytes(f.access_date)) by {
        assert(t[10] == crate::bytes::le16_bytes(f.access_date)[0]);
        assert(t[11] == crate::bytes::le16_bytes(f.access_date)[1]);
    }
    crate::bytes::lemma_le16_roundtrip(r, at + 2, f.checksum);
    crate::bytes::lemma_le16_roundtrip(r, at + 4, f.attribute);
    crate::bytes::lemma_le16_roundtrip(r, at + 8, f.create_time);
    crate::bytes::lemma_le16_roundtrip(r, at + 10, f.create_date);
    crate::bytes::lemma_le16_roundtrip(r, at + 12, f.modify_time);
    crate::bytes::lemma_le16_roundtrip(r, at + 14, f.modify_date);
    crate::bytes::lemma_le16_roundtrip(r, at + 16, f.access_time);
    crate::bytes::lemma_le16_roundtrip(r, at + 18, f.access_date);
    assert(r[at + 1] == h[0]);
    assert(r[at + 20] == t[12]);
    assert(r[at + 21] == t[13]);
    assert(r[at + 22] == t[14]);
    assert(r[at + 23] == t[15]);
    assert(r[at + 24] == t[16]);
}

/// A stream entry that was written is read back, and nothing else changes.
pub proof fn law_stream_entry_roundtrip(b: Seq<u8>, at: int, s: ExfatStreamDentry)
    requires
        0 <= at,
        at + DENTRY_SIZE <= b.len(),
    ensures
        with_stream(b, at, s).len() == b.len(),
        stream_at(with_stream(b, at, s), at) == s,
        forall|k: int|
            0 <= k < b.len() && !(at + 1 <= k < at + 32) ==> #[trigger] with_stream(b, at, s)[k]
                == b[k],
{
    let r = with_stream(b, at, s);
    let n = seq![s.name_len] + crate::bytes::le16_bytes(s.name_hash);
    let e = crate::bytes::le32_bytes(s.start_cluster) + crate::bytes::le64_bytes(s.size);
    assert(n.len() == 3 && e.len() == 12);
    assert(r[at + 1] == seq![s.flags][0]);
    assert(r[at + 3] == n[0]);
    assert(r.subrange(at + 4, at + 6) =~= crate::bytes::le16_bytes(s.name_hash)) by {
        assert(r[at + 4] == n[1]);
        assert(r[at + 5] == n[2]);
    }
    assert(r.subrange(at + 8, at + 16) =~= crate::bytes::le64_bytes(s.valid_size));
    assert(r.subrange(at + 20, at + 24) =~= crate::bytes::le32_bytes(s.start_cluster));
    assert(r.subrange(at + 24, at + 32) =~= crate::bytes::le64_bytes(s.size));
    crate::bytes::lemma_le16_roundtrip(r, at + 4, s.name_hash);
    crate::bytes::lemma_le64_roundtrip(r, at + 8, s.valid_size);
    crate::bytes::lemma_le32_roundtrip(r, at + 20, s.start_cluster);
    crate::bytes::lemma_le64_roundtrip(r, at + 24, s.size);
}

/// Reads the file entry that begins at `at`.
pub fn get_file(b: &Vec<u8>, at: usize) -> (f: ExfatFileDentry)
    requires
        at + DENTRY_SIZE <= b.len(),
    ensures
        f == file_at(b@, at as int),
{
    ExfatFileDentry {
        num_secondary: b[at + 1],
        checksum: get_le16(b, at + 2),
        attribute: get_le16(b, at + 4),
        create_time: get_le16(b, at + 8),
        create_date: get_le16(b, at + 10),
        modify_time: get_le16(b, at + 12),
        modify_date: get_le16(b, at + 14),
        access_time: get_le16(b, at + 16),
        access_date: get_le16(b, at + 18),
        create_time_cs: b[at + 20],
        modify_time_cs: b[at + 21],
        create_utc_offset: b[at + 22],
        modify_utc_offset: b[at + 23],
        access_utc_offset: b[at + 24],
    }
}

/// Reads the stream entry that begins at `at`.
pub fn get_stream(b: &Vec<u8>, at: usize) -> (s: ExfatStreamDentry)
    requires
        at + DENTRY_SIZE <= b.len(),
    ensures
        s == stream_at(b@, at as int),
{
    ExfatStreamDentry {
        flags: b[at + 1],
        name_len: b[at + 3],
        name_hash: get_le16(b, at + 4),
        valid_size: get_le64(b, at + 8),
        start_cluster: get_le32(b, at + 20),
        size: get_le64(b, at + 24),
    }
}

/// Reads the clusters that the entry that begins at `at` names.
pub fn get_extent(b: &Vec<u8>, at: usize) -> (e: ClusterExtent)
    requires
        at + DENTRY_SIZE <= b.len(),
    ensures
        e == extent_at(b@, at as int),
{
    ClusterExtent { start_cluster: get_le32(b, at + 20), size: get_le64(b, at + 24) }
}

/// Replaces the file entry that begins at `at`.
pub fn put_file(b: &mut Vec<u8>, at: usize, f: &ExfatFileDentry)
    requires
        at + DENTRY_SIZE <= old(b).len(),
    ensures
        final(b)@ == with_file(old(b)@, at as int, *f),
{
    let mut head: Vec<u8> = Vec::new();
    head.push(f.num_secondary);
    push_le16(&mut head, f.checksum);
    push_le16(&mut head, f.attribute);
    assert(head@ =~= file_head(*f));
    let mut times: Vec<u8> = Vec::new();
    push_le16(&mut times, f.create_time);
    push_le16(&mut times, f.create_date);
    push_le16(&mut times, f.modify_time);
    push_le16(&mut times, f.modify_date);
    push_le16(&mut times, f.access_time);
    push_le16(&mut times, f.access_date);
    times.push(f.create_time_cs);
    times.push(f.modify_time_cs);
    times.push(f.create_utc_offset);
    times.push(f.modify_utc_offset);
    times.push(f.access_utc_offset);
    assert(times@ =~= file_times(*f));
    overwrite(b, at + 1, &head);
    overwrite(b, at + 8, &times);
}

/// Replaces the stream entry that begins at `at`.
pub fn put_stream(b: &mut Vec<u8>, at: usize, s: &ExfatStreamDentry)
    requires
        at + DENTRY_SIZE <= old(b).len(),
    ensures
        final(b)@ == with_stream(old(b)@, at as int, *s),
{
    let mut flags: Vec<u8> = Vec::new();
    flags.push(s.flags);
    assert(flags@ =~= seq![s.flags]);
    let mut name: Vec<u8> = Vec::new();
    name.push(s.name_len);
    push_le16(&mut name, s.name_hash);
    assert(name@ =~= seq![s.name_len] + crate::bytes::le16_bytes(s.name_hash));
    let mut valid_size: Vec<u8> = Vec::new();
    push_le64(&mut valid_size, s.valid_size);
    assert(valid_size@ =~= crate::bytes::le64_bytes(s.valid_size));
    let mut extent: Vec<u8> = Vec::new();
    push_le32(&mut extent, s.start_cluster);
    push_le64(&mut extent, s.size);
    assert(extent@ =~= crate::bytes::le32_bytes(s.start_cluster) + crate::bytes::le64_bytes(
        s.size,
    ));
    overwrite(b, at + 1, &flags);
    overwrite(b, at + 3, &name);
    overwrite(b, at + 8, &valid_size);
    overwrite(b, at + 20, &extent);
}

/// The units that the name entry with the number `slot` holds.
pub open spec fn slot_units(b: Seq<u8>, slot: int) -> Seq<u16> {
    Seq::new(
        EXFAT_FILE_NAME_LEN as nat,
        |i: int| crate::bytes::le16(b, slot * DENTRY_SIZE + 2 + 2 * i),
    )
}

/// Reads the units that the name entry with the number `slot` holds.
pub fn get_units(b: &Vec<u8>, slot: usize) -> (units: Vec<u16>)
    requires
        has_slot(b@, slot as int),
    ensures
        units@ == slot_units(b@, slot as int),
{
    let len: usize = b.len();
    let mut units: Vec<u16> = Vec::new();
    let mut i: usize = 0;
    while i < EXFAT_FILE_NAME_LEN
        invariant
            i <= EXFAT_FILE_NAME_LEN,
            has_slot(b@, slot as int),
            len == b@.len(),
            units@ == slot_units(b@, slot as int).take(i as int),
        decreases EXFAT_FILE_NAME_LEN - i,
    {
        units.push(get_le16(b, slot * DENTRY_SIZE + 2 + 2 * i));
        assert(slot_units(b@, slot as int).take(i + 1) =~= slot_units(b@, slot as int).take(
            i as int,
        ).push(slot_units(b@, slot as int)[i as int]));
        i = i + 1;
    }
    assert(slot_units(b@, slot as int).take(i as int) =~= slot_units(b@, slot as int));
    units
}

} // verus!
