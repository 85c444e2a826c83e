//! The format: what the bytes of a volume mean, and where they lie.

use vstd::arithmetic::power2::pow2;
use vstd::prelude::*;
use crate::bytes::{le16, le32};
use crate::errno::Errno;
use crate::exfat::dentry::{kind_of, DosTimestamp};
use crate::exfat::dentry_set::{
    checksum_of, checksum_step, name_hash_of, new_set, set_slots, with_checksum,
};
use crate::exfat::disk::Faults;
use crate::exfat::fat::{fat_raw_of, fat_value_of, ClusterID, FatChainFlags, FatValue};
use crate::exfat::super_block::{boot_sector_valid, super_block_of, ExfatSuperBlock};
use crate::exfat::volume::{
    cluster_offset, disk_fat, disk_fat_written, fat_position, valid_cluster, VolumeState,
};

verus! {

/// What the first byte of a directory entry means: nothing was ever there, or something that
/// was deleted, or one of the kinds that the format knows; of the other ones that are in use
/// those that have their second highest bit set stand behind a first entry.
pub proof fn law_kinds(t: u8)
    ensures
        kind_of(t) is UnUsed <==> t == 0,
        kind_of(t) is Deleted <==> 0 < t < 0x80,
        kind_of(t) is Bitmap <==> t == 0x81,
        kind_of(t) is Upcase <==> t == 0x82,
        kind_of(t) is File <==> t == 0x85,
        kind_of(t) is Stream <==> t == 0xc0,
        kind_of(t) is Name <==> t == 0xc1,
        kind_of(t) is VendorExt <==> t == 0xe0,
        kind_of(t) is VendorAlloc <==> t == 0xe1,
        kind_of(t) is GenericPrimary <==> 0x80 <= t < 0xc0 && t != 0x81 && t != 0x82 && t != 0x85,
        kind_of(t) is GenericSecondary <==> 0xc0 <= t && t != 0xc0 && t != 0xc1 && t != 0xe0 && t
            != 0xe1,
{
}

/// Marking an entry as deleted clears the highest bit of its first byte.
pub proof fn law_deleted_type(t: u8)
    ensures
        crate::exfat::dentry::deleted_type(t) < 0x80,
        t < 0x80 ==> crate::exfat::dentry::deleted_type(t) == t,
        0x80 <= t ==> crate::exfat::dentry::deleted_type(t) == t - 0x80,
{
    assert(t & 0x7f < 0x80) by (bit_vector);
    assert(t < 0x80 ==> t & 0x7f == t) by (bit_vector);
    assert(0x80 <= t ==> t & 0x7f == t - 0x80) by (bit_vector);
}

/// Deleting entries changes their first bytes, of which the highest bit is cleared, and
/// nothing else.
pub proof fn law_deleted_set(set: Seq<u8>, k: int)
    requires
        0 <= k < set.len(),
        set.len() % 32 == 0,
    ensures
        crate::exfat::fs::dir::deleted_set(set).len() == set.len(),
        k % 32 != 0 ==> crate::exfat::fs::dir::deleted_set(set)[k] == set[k],
        k % 32 == 0 && set[k] < 0x80 ==> crate::exfat::fs::dir::deleted_set(set)[k] == set[k],
        k % 32 == 0 && 0x80 <= set[k] ==> crate::exfat::fs::dir::deleted_set(set)[k] == set[k]
            - 0x80,
{
    law_deleted_type(set[k]);
}

/// Whether the fields of a boot sector are sound: its signature and its name, zeros where
/// other formats have their fields, one FAT or two, sectors of 512 to 4096 bytes, clusters of
/// at most 32 MiB, a FAT that has an entry for every cluster, and FATs that end where the
/// clusters begin or before.
pub open spec fn boots(b: Seq<u8>) -> bool {
    &&& b[510] == 0x55 && b[511] == 0xaa
    &&& b[3] == 0x45 && b[4] == 0x58 && b[5] == 0x46 && b[6] == 0x41 && b[7] == 0x54
    &&& b[8] == 0x20 && b[9] == 0x20 && b[10] == 0x20
    &&& forall|k: int| 11 <= k < 64 ==> #[trigger] b[k] == 0
    &&& b[110] == 1 || b[110] == 2
    &&& 9 <= b[108] <= 12
    &&& b[108] + b[109] <= 25
    &&& le32(b, 92) + 2 <= u32::MAX
    &&& le32(b, 84) * pow2(b[108] as nat) >= (le32(b, 92) + 2) * 4
    &&& le32(b, 88) >= le32(b, 80) + le32(b, 84) * b[110]
}

/// A boot sector is accepted exactly where its fields are sound, and the layout is the one
/// that its fields give.
pub proof fn law_boot_sector(b: Seq<u8>)
    requires
        b.len() == 512,
    ensures
        boot_sector_valid(b) <==> boots(b),
        boots(b) ==> {
            let sb = super_block_of(b);
            &&& sb.sector_size == pow2(b[108] as nat)
            &&& sb.sect_per_cluster == pow2(b[109] as nat)
            &&& sb.cluster_size == sb.sector_size * sb.sect_per_cluster
            &&& sb.num_fat_sectors == le32(b, 84)
            &&& sb.num_clusters == le32(b, 92) + 2
            &&& sb.fat1_start_sector == le32(b, 80)
            &&& b[110] == 1 ==> sb.fat2_start_sector == le32(b, 80)
            &&& b[110] == 2 ==> sb.fat2_start_sector == le32(b, 80) + le32(b, 84)
            &&& sb.data_start_sector == le32(b, 88)
            &&& sb.root_dir == le32(b, 96)
            &&& sb.vol_flags == le16(b, 106)
        },
{
    let name = b.subrange(3, 11);
    let e = crate::exfat::super_block::exfat_name();
    assert(e.len() == 8);
    assert(name[0] == b[3] && name[1] == b[4] && name[2] == b[5] && name[3] == b[6] && name[4]
        == b[7] && name[5] == b[8] && name[6] == b[9] && name[7] == b[10]);
    let named = b[3] == 0x45 && b[4] == 0x58 && b[5] == 0x46 && b[6] == 0x41 && b[7] == 0x54
        && b[8] == 0x20 && b[9] == 0x20 && b[10] == 0x20;
    if named {
        assert(name =~= e);
    }
    if name == e {
        assert(e[0] == 0x45 && e[1] == 0x58 && e[2] == 0x46 && e[3] == 0x41 && e[4] == 0x54 && e[5]
            == 0x20 && e[6] == 0x20 && e[7] == 0x20);
    }
    assert(le16(b, 510) == 0xaa55 <==> b[510] == 0x55 && b[511] == 0xaa);
    if crate::exfat::super_block::boot_fields_valid(b) {
        crate::exfat::super_block::lemma_super_block_wf(b);
    }
}

/// What an entry of the FAT means: zero that a cluster is free, the greatest number that it is
/// the last of its chain, one number that it cannot be used, and every other one which cluster
/// follows.
pub proof fn law_fat_values(raw: ClusterID)
    ensures
        fat_value_of(raw) is Free <==> raw == 0,
        fat_value_of(raw) is EndOfChain <==> raw == 0xffff_ffff,
        fat_value_of(raw) is Bad <==> raw == 0xffff_fff7,
        fat_value_of(raw) matches FatValue::Next(next) ==> next == raw,
        fat_raw_of(FatValue::Free) == 0,
        fat_raw_of(FatValue::EndOfChain) == 0xffff_ffff,
        fat_raw_of(FatValue::Bad) == 0xffff_fff7,
        fat_raw_of(FatValue::Next(raw)) == raw,
{
}

/// The clusters of a chain follow each other exactly where both flags are set.
pub proof fn law_chain_flags(flags: FatChainFlags)
    ensures
        flags.contiguous() <==> flags.bits & 0x01 != 0 && flags.bits & 0x02 != 0,
{
    let b = flags.bits;
    assert(b & 0x03 == 0x03 <==> b & 0x01 != 0 && b & 0x02 != 0) by (bit_vector);
}

/// Which clusters a volume has, and where they lie: the first one, which has the number two,
/// begins where the data begins, and each one begins where the one before it ends.
pub proof fn law_cluster_places(sb: ExfatSuperBlock, cluster: int)
    requires
        sb.wf(),
    ensures
        valid_cluster(sb, cluster) <==> 2 <= cluster <= sb.num_clusters,
        cluster_offset(sb, 2) == sb.data_start_sector * sb.sector_size,
        cluster_offset(sb, cluster + 1) == cluster_offset(sb, cluster) + sb.cluster_size,
{
    crate::exfat::laws::direct::lemma_cluster_offset(sb, 2);
    crate::exfat::laws::direct::lemma_cluster_offset(sb, cluster);
    crate::exfat::laws::direct::lemma_cluster_offset(sb, cluster + 1);
    let z = sb.cluster_size as int;
    assert((cluster + 1 - 2) * z == (cluster - 2) * z + z) by (nonlinear_arith);
}

/// What the FAT says of a cluster stands in the four bytes with the number of the cluster,
/// counted from the beginning of the first FAT; of a number that is none of a cluster it says
/// nothing.
pub proof fn law_fat_entry(v: VolumeState, cluster: ClusterID)
    ensures
        ({
            let at = v.super_block.fat1_start_sector * v.super_block.sector_size + 4 * cluster;
            &&& !(2 <= cluster <= v.super_block.num_clusters) ==> disk_fat(v, cluster) == Err::<
                FatValue,
                Errno,
            >(Errno::EIO)
            &&& 2 <= cluster <= v.super_block.num_clusters && v.faults == Faults::none() && at + 4
                <= v.disk.len() ==> disk_fat(v, cluster) == Ok::<FatValue, Errno>(
                fat_value_of(le32(v.disk, at)),
            )
        }),
{
    let at = fat_position(v.super_block, v.super_block.fat1_start_sector, cluster);
    assert(0 <= v.super_block.fat1_start_sector * v.super_block.sector_size) by (nonlinear_arith);
    if at + 4 <= v.disk.len() {
        let b = v.disk.subrange(at, at + 4);
        assert(b[0] == v.disk[at] && b[1] == v.disk[at + 1] && b[2] == v.disk[at + 2] && b[3]
            == v.disk[at + 3]);
    }
}

/// Writing the entry of a cluster writes it to both FATs, and to nothing else.
pub proof fn law_fat_entry_written(v: VolumeState, cluster: ClusterID, value: FatValue)
    requires
        disk_fat_written(v, cluster, value).1 is Ok,
        ({
            let sb = v.super_block;
            let one = sb.fat1_start_sector * sb.sector_size + 4 * cluster;
            let two = sb.fat2_start_sector * sb.sector_size + 4 * cluster;
            one == two || one + 4 <= two || two + 4 <= one
        }),
    ensures
        ({
            let sb = v.super_block;
            let one = sb.fat1_start_sector * sb.sector_size + 4 * cluster;
            let two = sb.fat2_start_sector * sb.sector_size + 4 * cluster;
            let disk = disk_fat_written(v, cluster, value).0;
            &&& disk.len() == v.disk.len()
            &&& le32(disk, one) == fat_raw_of(value)
            &&& le32(disk, two) == fat_raw_of(value)
            &&& forall|k: int|
                0 <= k < disk.len() && !(one <= k < one + 4) && !(two <= k < two + 4)
                    ==> #[trigger] disk[k] == v.disk[k]
        }),
{
    let sb = v.super_block;
    let raw = fat_raw_of(value);
    let one = fat_position(sb, sb.fat1_start_sector, cluster);
    let two = fat_position(sb, sb.fat2_start_sector, cluster);
    assert(0 <= sb.fat1_start_sector * sb.sector_size) by (nonlinear_arith);
    assert(0 <= sb.fat2_start_sector * sb.sector_size) by (nonlinear_arith);
    let disk = disk_fat_written(v, cluster, value).0;
    let bytes = crate::bytes::le32_bytes(raw);
    assert(bytes.len() == 4);
    assert(disk.subrange(one, one + 4) =~= bytes);
    crate::bytes::lemma_le32_roundtrip(disk, one, raw);
    assert(disk.subrange(two, two + 4) =~= bytes);
    crate::bytes::lemma_le32_roundtrip(disk, two, raw);
}

/// Whether a cluster is in use is one bit of the bitmap: eight clusters share a byte, the
/// first of them has its lowest bit.
pub proof fn law_bitmap_bits(bytes: Seq<u8>, n: int, k: int)
    requires
        0 <= k < n,
        n <= 8 * bytes.len(),
    ensures
        crate::exfat::bitmap::bits_of_bytes(bytes, n).len() == n,
        crate::exfat::bitmap::bits_of_bytes(bytes, n)[k] <==> (bytes[k / 8] >> ((k % 8) as u8)) & 1
            == 1,
{
    vstd::arithmetic::power2::lemma2_to64();
    let b = bytes[k / 8];
    let r = k % 8;
    assert((b >> 0u8) & 1 == (b / 1) % 2 && (b >> 1u8) & 1 == (b / 2) % 2 && (b >> 2u8) & 1 == (b
        / 4) % 2 && (b >> 3u8) & 1 == (b / 8) % 2 && (b >> 4u8) & 1 == (b / 16) % 2 && (b >> 5u8)
        & 1 == (b / 32) % 2 && (b >> 6u8) & 1 == (b / 64) % 2 && (b >> 7u8) & 1 == (b / 128) % 2)
        by (bit_vector);
    assert(r == 0 || r == 1 || r == 2 || r == 3 || r == 4 || r == 5 || r == 6 || r == 7);
}

/// The number of free clusters is the number of bits that are not set.
pub proof fn law_count_free(bits: Seq<bool>)
    ensures
        crate::exfat::bitmap::count_free(bits) == bits.filter(|used: bool| !used).len(),
    decreases bits.len(),
{
    reveal(Seq::filter);
    if bits.len() > 0 {
        law_count_free(bits.drop_last());
    }
}

/// One step of a checksum rotates it by one bit to the right and adds a byte.
pub proof fn law_checksum_step(sum: u16, byte: u8)
    ensures
        checksum_step(sum, byte) == (((sum >> 1) | (sum << 15)) + byte) % 0x1_0000,
{
    assert(sum >> 1 == sum / 2) by (bit_vector);
    assert(sum % 2 == 1 ==> (sum >> 1) | (sum << 15) == (sum >> 1) + 0x8000) by (bit_vector);
    assert(sum % 2 == 0 ==> (sum >> 1) | (sum << 15) == sum >> 1) by (bit_vector);
}

/// The checksum of entries does not depend on the two bytes that hold it.
pub proof fn lemma_checksum_alike(a: Seq<u8>, b: Seq<u8>, n: nat)
    requires
        a.len() == b.len(),
        n <= a.len(),
        forall|k: int| 0 <= k < a.len() && k != 2 && k != 3 ==> #[trigger] a[k] == b[k],
    ensures
        checksum_of(a, n) == checksum_of(b, n),
    decreases n,
{
    if n > 0 {
        lemma_checksum_alike(a, b, (n - 1) as nat);
        if n != 3 && n != 4 {
            assert(a[n - 1] == b[n - 1]);
        }
    }
}

/// Entries that got their checksum hold it in their third and fourth byte, and are the same
/// otherwise. Every other byte of the entries is part of the checksum.
pub proof fn law_checksum(b: Seq<u8>, n: nat)
    requires
        4 <= b.len(),
        n < b.len(),
        n != 2,
        n != 3,
    ensures
        le16(with_checksum(b), 2) == checksum_of(with_checksum(b), b.len()),
        with_checksum(b).len() == b.len(),
        forall|k: int|
            0 <= k < b.len() && k != 2 && k != 3 ==> #[trigger] with_checksum(b)[k] == b[k],
        checksum_of(b, (n + 1) as nat) == checksum_step(checksum_of(b, n), b[n as int]),
        checksum_of(b, 0) == 0,
{
    let w = with_checksum(b);
    let sum = checksum_of(b, b.len());
    assert(w.subrange(2, 4) =~= crate::bytes::le16_bytes(sum));
    crate::bytes::lemma_le16_roundtrip(w, 2, sum);
    lemma_checksum_alike(w, b, b.len());
}

/// The hash of a name takes in each unit of it, its lower byte first.
pub proof fn law_name_hash(units: Seq<u16>, unit: u16)
    ensures
        name_hash_of(units.push(unit)) == checksum_step(
            checksum_step(name_hash_of(units), (unit % 0x100) as u8),
            (unit / 0x100) as u8,
        ),
        name_hash_of(Seq::<u16>::empty()) == 0,
{
    assert(units.push(unit).drop_last() =~= units);
}

/// The entries of something new say that it is a file or a directory, that it was made, written
/// and read now, that nothing was written to it and that it has no clusters, and how many
/// entries and units its name has.
pub proof fn law_new_entries(units: Seq<u16>, directory: bool, now: DosTimestamp)
    requires
        units.len() <= 255,
    ensures
        ({
            let b = new_set(units, directory, now);
            &&& b.len() == 32 * set_slots(units)
            &&& 15 * (set_slots(units) - 3) < units.len() <= 15 * (set_slots(units) - 2)
                || units.len() == 0 && set_slots(units) == 2
            &&& b[0] == 0x85
            &&& b[1] == set_slots(units) - 1
            &&& le16(b, 4) == (if directory {
                0x10u16
            } else {
                0u16
            })
            &&& le16(b, 8) == now.time && le16(b, 10) == now.date
            &&& le16(b, 12) == now.time && le16(b, 14) == now.date
            &&& le16(b, 16) == now.time && le16(b, 18) == now.date
            &&& b[20] == now.increament_10ms && b[21] == now.increament_10ms
            &&& b[22] == now.utc_offset && b[23] == now.utc_offset && b[24] == now.utc_offset
            &&& b[32] == 0xc0
            &&& b[33] == 0x01
            &&& b[35] == units.len()
            &&& le16(b, 36) == name_hash_of(units)
            &&& crate::bytes::le64(b, 40) == 0
            &&& le32(b, 52) == 0
            &&& crate::bytes::le64(b, 56) == 0
            &&& le16(b, 2) == checksum_of(b, b.len())
        }),
{
    let names = crate::exfat::dentry_set::name_set(units);
    let f = crate::exfat::dentry_set::new_file_entry(units, directory, now);
    let s = crate::exfat::dentry_set::new_stream_entry(units);
    let slots = set_slots(units);
    assert(names.len() == slots * 32);
    crate::exfat::laws::entry::law_updated_set(names, f, s);
    let b = new_set(units, directory, now);
    assert(b == crate::exfat::dentry_set::updated_set(names, f, s)) by {
        reveal(crate::exfat::dentry_set::updated_set);
    }
    assert(names[0] == crate::exfat::dentry_set::name_byte(units, 0));
    assert(names[32] == crate::exfat::dentry_set::name_byte(units, 32));
    let got = crate::exfat::dentry::file_at(b, 0);
    let stream = crate::exfat::dentry::stream_at(b, 32);
    assert(got.attribute == f.attribute);
    assert(stream == s);
    let before = crate::exfat::dentry::with_stream(
        crate::exfat::dentry::with_file(names, 0, f),
        32,
        s,
    );
    law_checksum(before, 0);
}

/// A name stands in the name entries behind the first two, fifteen units in each, from the
/// third byte of each on; behind its end there are zeros.
pub proof fn law_name_places(units: Seq<u16>, directory: bool, now: DosTimestamp, j: int)
    requires
        units.len() <= 255,
        0 <= j < 15 * (set_slots(units) - 2),
    ensures
        ({
            let b = new_set(units, directory, now);
            let entry = 64 + 32 * (j / 15);
            &&& b[entry] == 0xc1
            &&& le16(b, entry + 2 + 2 * (j % 15)) == (if j < units.len() {
                units[j]
            } else {
                0
            })
        }),
{
    crate::exfat::laws::entry::law_new_set(units, directory, now);
    let b = new_set(units, directory, now);
    let slot = 2 + j / 15;
    let at = slot * 32 + 2 + 2 * (j % 15);
    assert(slot < set_slots(units));
    assert(b[slot * 32] == crate::exfat::dentry_set::name_byte(units, slot * 32));
    assert((slot * 32) / 32 == slot && (slot * 32) % 32 == 0);
    assert(b[at] == crate::exfat::dentry_set::name_byte(units, at));
    assert(b[at + 1] == crate::exfat::dentry_set::name_byte(units, at + 1));
    assert(at / 32 == slot && at % 32 == 2 + 2 * (j % 15));
    assert((at + 1) / 32 == slot && (at + 1) % 32 == 3 + 2 * (j % 15));
    assert((slot - 2) * 15 + j % 15 == j);
}

/// Entries are those of a file or directory where a file entry is followed by a stream entry and
/// by as many entries in all as the file entry says; they are then read as a whole.
pub proof fn law_set_at(dir: Seq<u8>, slot: int)
    requires
        0 <= slot,
    ensures
        ({
            let at = 32 * slot;
            let more = dir[at + 1] as int;
            let r = crate::exfat::dentry_set::set_at(dir, slot);
            &&& r is Ok <==> at + 32 <= dir.len() && dir[at] == 0x85 && 0 < more && at + 32 * (more
                + 1) <= dir.len() && dir[at + 32] == 0xc0
            &&& r is Ok ==> r->Ok_0 == dir.subrange(at, at + 32 * (more + 1))
            &&& dir.len() < at + 32 ==> r == Err::<Seq<u8>, Errno>(Errno::ENOENT)
            &&& at + 32 <= dir.len() && dir[at] != 0x85 ==> r == Err::<Seq<u8>, Errno>(
                Errno::EINVAL,
            )
            &&& at + 32 <= dir.len() && dir[at] == 0x85 && dir.len() < at + 32 * (more + 1) ==> r
                == Err::<Seq<u8>, Errno>(Errno::ENOENT)
            &&& at + 32 <= dir.len() && dir[at] == 0x85 && at + 32 * (more + 1) <= dir.len() && (
            more == 0 || dir[at + 32] != 0xc0) ==> r == Err::<Seq<u8>, Errno>(Errno::EINVAL)
        }),
{
}

/// The number of a place is its cluster and where in it the place lies.
pub proof fn law_hash_of_place(cluster: ClusterID, offset: u32)
    ensures
        crate::exfat::inode::hash_of_place(cluster, offset) == 0x1_0000_0000 * cluster + offset,
{
}

/// Whether an entry of a directory holds a file or directory.
pub open spec fn file_entries(pages: Seq<u8>, size: int, from: int) -> Set<int> {
    Set::new(|k: int| from <= k && 32 * k < size && pages[32 * k] == 0x85)
}

/// Counting files counts each entry of a file or directory among the bytes once.
pub proof fn lemma_files_counted(pages: Seq<u8>, size: int, slot: int, seen: nat)
    requires
        0 <= slot,
        crate::exfat::inode::files_counted(pages, size, slot, seen) is Ok,
    ensures
        file_entries(pages, size, slot).finite(),
        crate::exfat::inode::files_counted(pages, size, slot, seen)->Ok_0 == seen + file_entries(
            pages,
            size,
            slot,
        ).len(),
    decreases pages.len() - slot * 32,
{
    let all = file_entries(pages, size, slot);
    if slot * 32 >= size {
        assert(all =~= Set::empty());
    } else {
        let rest = file_entries(pages, size, slot + 1);
        if pages[32 * slot] == 0x85 {
            lemma_files_counted(pages, size, slot + 1, seen + 1);
            assert(!rest.contains(slot));
            assert(all =~= rest.insert(slot));
        } else {
            lemma_files_counted(pages, size, slot + 1, seen);
            assert(all =~= rest);
        }
    }
}

/// A directory has as many files and directories as there are entries of them among its bytes,
/// and none where it has no clusters.
pub proof fn law_subdirs_counted(v: VolumeState, n: crate::exfat::inode::InodeView)
    ensures
        ({
            let r = crate::exfat::inode::subdirs_counted(v, n);
            &&& !(2 <= n.start_chain.current <= v.super_block.num_clusters) ==> r == Ok::<
                u32,
                Errno,
            >(0)
            &&& 2 <= n.start_chain.current <= v.super_block.num_clusters && r is Ok ==> r->Ok_0
                == file_entries(n.pages, n.size as int, 0).len() as u32
        }),
{
    if crate::exfat::inode::files_counted(n.pages, n.size as int, 0, 0) is Ok {
        lemma_files_counted(n.pages, n.size as int, 0, 0);
    }
}

/// Whether some entries that follow each other are not in use.
pub open spec fn all_free(pages: Seq<u8>, start: int, want: int) -> bool {
    forall|t: int| start <= t < start + want ==> #[trigger] pages[t * 32] < 0x80
}

/// A search for entries that are not in use finds the first ones that are enough, and none only
/// where there are none.
pub proof fn lemma_first_free(pages: Seq<u8>, size: int, want: int, slot: int, run: int)
    requires
        0 <= run < want,
        run <= slot,
        forall|t: int| slot - run <= t < slot ==> #[trigger] pages[t * 32] < 0x80,
    ensures
        crate::exfat::fs::dir::free_slots(pages, size, want, slot, run) matches Ok(Some(found)) ==> {
            &&& all_free(pages, found, want)
            &&& forall|start: int|
                slot - run <= start < found ==> !#[trigger] all_free(pages, start, want)
        },
        crate::exfat::fs::dir::free_slots(pages, size, want, slot, run) == Ok::<
            Option<int>,
            Errno,
        >(None) ==> forall|start: int|
            slot - run <= start && 32 * (start + want - 1) < size ==> !#[trigger] all_free(
                pages,
                start,
                want,
            ),
    decreases pages.len() - slot * 32,
{
    if slot * 32 < size && crate::exfat::dentry::has_slot(pages, slot) {
        if crate::exfat::dentry::slot_is_free(pages, slot) {
            assert(pages[slot * 32] < 0x80);
            if run + 1 < want {
                lemma_first_free(pages, size, want, slot + 1, run + 1);
            }
        } else {
            assert(!(pages[slot * 32] < 0x80));
            lemma_first_free(pages, size, want, slot + 1, 0);
            assert forall|start: int| slot - run <= start <= slot implies !#[trigger] all_free(
                pages,
                start,
                want,
            ) by {}
        }
    }
}

/// A search for entries that are not in use finds the first ones that are enough, and none only
/// where there are none among the bytes of the directory.
pub proof fn law_first_free(pages: Seq<u8>, size: int, want: int)
    requires
        0 < want,
    ensures
        crate::exfat::fs::dir::free_slots(pages, size, want, 0, 0) matches Ok(Some(found)) ==> {
            &&& 0 <= found
            &&& all_free(pages, found, want)
            &&& forall|start: int| 0 <= start < found ==> !#[trigger] all_free(pages, start, want)
        },
        crate::exfat::fs::dir::free_slots(pages, size, want, 0, 0) == Ok::<Option<int>, Errno>(None)
            ==> forall|start: int|
            0 <= start && 32 * (start + want - 1) < size ==> !#[trigger] all_free(
                pages,
                start,
                want,
            ),
{
    lemma_first_free(pages, size, want, 0, 0);
    crate::exfat::fs::dir::lemma_free_slots_bound(pages, size, want, 0, 0);
}

/// A name is read from the name entries of a set, fifteen units from each, from the third byte
/// of each on, up to the first unit that is zero; no other entry has a part of it.
pub proof fn law_name_read(b: Seq<u8>, m: int)
    requires
        0 <= m,
        b.len() == 32 * (2 + m),
        b[0] != 0xc1,
        b[32] != 0xc1,
        forall|t: int| 2 <= t < 2 + m ==> #[trigger] b[t * 32] == 0xc1,
    ensures
        ({
            let name = crate::exfat::dentry_set::set_name(b);
            &&& name.len() <= 15 * m
            &&& forall|j: int|
                0 <= j < name.len() ==> #[trigger] name[j] == le16(
                    b,
                    64 + 32 * (j / 15) + 2 + 2 * (j % 15),
                ) && name[j] != 0
            &&& name.len() < 15 * m ==> le16(
                b,
                64 + 32 * (name.len() as int / 15) + 2 + 2 * (name.len() as int % 15),
            ) == 0
        }),
{
    let units = crate::exfat::dentry_set::units_from(b, 2);
    assert(crate::exfat::dentry::slot_kind(b, 0) == kind_of(b[0]));
    assert(crate::exfat::dentry::slot_kind(b, 1) == kind_of(b[32]));
    assert(crate::exfat::dentry_set::units_from(b, 1) == units);
    assert(crate::exfat::dentry_set::units_from(b, 0) == units);
    lemma_units_read(b, 2, m);
    lemma_until_zero(units);
}

/// The units of name entries that follow each other.
proof fn lemma_units_read(b: Seq<u8>, slot: int, m: int)
    requires
        0 <= slot,
        0 <= m,
        b.len() == 32 * (slot + m),
        forall|t: int| slot <= t < slot + m ==> #[trigger] b[t * 32] == 0xc1,
    ensures
        crate::exfat::dentry_set::units_from(b, slot).len() == 15 * m,
        forall|j: int|
            0 <= j < 15 * m ==> #[trigger] crate::exfat::dentry_set::units_from(b, slot)[j] == le16(
                b,
                32 * slot + 32 * (j / 15) + 2 + 2 * (j % 15),
            ),
    decreases m,
{
    if m > 0 {
        assert(b[slot * 32] == 0xc1);
        lemma_units_read(b, slot + 1, m - 1);
        let rest = crate::exfat::dentry_set::units_from(b, slot + 1);
        let all = crate::exfat::dentry_set::units_from(b, slot);
        assert(all =~= crate::exfat::dentry::slot_units(b, slot) + rest);
        assert forall|j: int| 0 <= j < 15 * m implies #[trigger] all[j] == le16(
            b,
            32 * slot + 32 * (j / 15) + 2 + 2 * (j % 15),
        ) by {
            if j >= 15 {
                assert(all[j] == rest[j - 15]);
                assert((j - 15) / 15 == j / 15 - 1 && (j - 15) % 15 == j % 15);
            }
        }
    }
}

/// What comes before the first zero.
proof fn lemma_until_zero(units: Seq<u16>)
    ensures
        ({
            let r = crate::exfat::dentry_set::until_zero(units);
            &&& r.len() <= units.len()
            &&& forall|j: int| 0 <= j < r.len() ==> #[trigger] r[j] == units[j] && r[j] != 0
            &&& r.len() < units.len() ==> units[r.len() as int] == 0
        }),
    decreases units.len(),
{
    if units.len() > 0 && units[0] != 0 {
        lemma_until_zero(units.drop_first());
        let rest = crate::exfat::dentry_set::until_zero(units.drop_first());
        let r = crate::exfat::dentry_set::until_zero(units);
        assert(r =~= seq![units[0]] + rest);
        assert forall|j: int| 0 <= j < r.len() implies #[trigger] r[j] == units[j] && r[j] != 0 by {
            if j > 0 {
                assert(rest[j - 1] == units.drop_first()[j - 1]);
            }
        }
    }
}

} // verus!
