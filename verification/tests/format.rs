//! The structures of an exFAT volume.

use exfat_core::arith::{align_down, align_up, div_ceil};
use exfat_core::bytes::{get_le16, get_le32, get_le64, push_le16, push_le32, push_le64};
use exfat_core::errno::Errno;
use exfat_core::exfat::bitmap::ExfatBitmap;
use exfat_core::exfat::chain::ExfatChain;
use exfat_core::exfat::dentry::{
    dentry_kind, get_extent, get_file, get_stream, DentryKind, DosTimestamp, ExfatStreamDentry,
};
use exfat_core::exfat::dentry_set::{count_slots, hash_name, ExfatDentrySet, ATTR_DIRECTORY};
use exfat_core::exfat::disk::{BlockDevice, Disk, ExfatMemoryDisk};
use exfat_core::exfat::fat::{ClusterID, FatChainFlags, FatValue};
use exfat_core::exfat::inode::{
    make_hash_index, FatAttr, InodeMode, InodeType, ATTR_READONLY, MODE_ALL,
};
use exfat_core::exfat::page::get_sector_id;
use exfat_core::exfat::mount::{ExfatErrorMode, ExfatMountOptions};
use exfat_core::exfat::super_block::{parse_boot_sector, ExfatSuperBlock};
use exfat_core::exfat::volume::Volume;
use exfat_core::text::{byte_len, encode_utf16, text_equal, text_less};

const NOW: DosTimestamp = DosTimestamp {
    time: 0x6c5a,
    date: 0x57a3,
    increament_10ms: 17,
    utc_offset: 0x80,
};

/// The boot sector of a volume with sectors of 512 and clusters of 4096 bytes.
fn boot_sector() -> Vec<u8> {
    let mut boot = vec![0u8; 512];
    boot[3..11].copy_from_slice(b"EXFAT   ");
    boot[80] = 8;
    boot[84] = 4;
    boot[88] = 16;
    boot[92] = 100;
    boot[96] = 4;
    boot[106] = 2;
    boot[108] = 9;
    boot[109] = 3;
    boot[110] = 1;
    boot[510] = 0x55;
    boot[511] = 0xAA;
    boot
}

fn parsed(change: fn(&mut Vec<u8>)) -> Result<ExfatSuperBlock, Errno> {
    let mut boot = boot_sector();
    change(&mut boot);
    parse_boot_sector(&boot)
}

#[test]
fn a_boot_sector_gives_the_layout() {
    let sb = parsed(|_| {}).unwrap();
    assert_eq!(
        sb,
        ExfatSuperBlock {
            sector_size: 512,
            sect_per_cluster: 8,
            cluster_size: 4096,
            num_fat_sectors: 4,
            num_clusters: 102,
            fat1_start_sector: 8,
            fat2_start_sector: 8,
            data_start_sector: 16,
            root_dir: 4,
            vol_flags: 2,
        }
    );
    assert!(sb.is_dirty());
    assert!(!sb.has_media_failure());
    let two = parsed(|boot| boot[110] = 2).unwrap();
    assert_eq!(two.fat2_start_sector, 12);
    let large = parsed(|boot| {
        boot[108] = 12;
        boot[109] = 13;
    });
    assert_eq!(large.unwrap().cluster_size, 0x200_0000);
}

#[test]
fn unsound_boot_sectors_are_refused() {
    let refused = Err(Errno::EINVAL);
    assert_eq!(parsed(|boot| boot[510] = 0), refused);
    assert_eq!(parsed(|boot| boot[3] = b'e'), refused);
    assert_eq!(parsed(|boot| boot[63] = 1), refused);
    assert_eq!(parsed(|boot| boot[110] = 0), refused);
    assert_eq!(parsed(|boot| boot[110] = 3), refused);
    assert_eq!(parsed(|boot| boot[108] = 8), refused);
    assert_eq!(parsed(|boot| boot[108] = 13), refused);
    assert_eq!(parsed(|boot| boot[109] = 17), refused);
    // The FAT is too small for the clusters.
    assert_eq!(parsed(|boot| boot[84] = 0), refused);
    assert_eq!(parsed(|boot| boot[93] = 2), refused);
    // The FAT reaches into the clusters.
    assert_eq!(parsed(|boot| boot[88] = 11), refused);
    assert!(parsed(|boot| boot[88] = 12).is_ok());
}

#[test]
fn fat_entries_have_meanings() {
    let pairs = [
        (0u32, FatValue::Free),
        (7, FatValue::Next(7)),
        (0xFFFF_FFF7, FatValue::Bad),
        (0xFFFF_FFFF, FatValue::EndOfChain),
    ];
    for (raw, value) in pairs {
        assert_eq!(FatValue::from(raw), value);
        assert_eq!(ClusterID::from(value), raw);
    }
    assert!(FatChainFlags::from_bits_truncate(0xFF).is_contiguous());
    assert!(!FatChainFlags::from_bits_truncate(0xFD).is_contiguous());
    assert!(!FatChainFlags::alloc_possible().is_contiguous());
}

/// A volume whose FAT links the clusters 5, 9 and 7, and whose clusters from 20 on are
/// free.
fn volume() -> Volume {
    let mut image = boot_sector();
    image.resize(16 * 512 + 100 * 4096, 0);
    for (cluster, value) in [(5usize, 9u32), (9, 7), (7, 0xFFFF_FFFF), (11, 12), (12, 11)] {
        let at = 8 * 512 + cluster * 4;
        image[at..at + 4].copy_from_slice(&value.to_le_bytes());
    }
    let disk = Disk { device: Box::new(ExfatMemoryDisk::new(image)) };
    let sb = Volume::read_super_block(&disk).unwrap();
    let mut volume = Volume::new(disk, sb);
    volume.set_bitmap(&vec![0xFF, 0xFF, 0b11, 0, 0, 0, 0, 0, 0, 0, 0, 0, 0], 100, 2);
    volume
}

#[test]
fn chains_follow_the_fat() {
    let mut volume = volume();
    let linked = FatChainFlags::alloc_possible();
    let chain = ExfatChain::new(&mut volume, 5, None, linked).unwrap();
    assert_eq!(chain.num_clusters, 3);
    assert_eq!(chain.cluster_id(), 5);
    assert!(chain.is_current_cluster_valid(&volume));
    let clusters: Vec<_> = (0..3).map(|k| chain.cluster_at(&mut volume, k)).collect();
    assert_eq!(clusters, vec![Ok(5), Ok(9), Ok(7)]);
    assert_eq!(chain.cluster_at(&mut volume, 3), Err(Errno::EIO));
    let rest = chain.walk(&mut volume, 2).unwrap();
    assert_eq!((rest.cluster_id(), rest.num_clusters), (7, 1));
    let (place, offset) = chain.walk_to_cluster_at_offset(&mut volume, 5000).unwrap();
    assert_eq!((place.cluster_id(), offset), (9, 904));

    // Clusters that link each other in a circle have no end.
    assert_eq!(ExfatChain::new(&mut volume, 11, None, linked), Err(Errno::EIO));
    let none = ExfatChain::new(&mut volume, 0, None, linked).unwrap();
    assert_eq!(none.num_clusters, 0);
    assert!(!none.is_current_cluster_valid(&volume));
}

#[test]
fn contiguous_chains_need_no_fat() {
    let mut volume = volume();
    let flags = FatChainFlags::from_bits_truncate(3);
    let chain = ExfatChain::new(&mut volume, 5, Some(4), flags).unwrap();
    assert_eq!(chain.cluster_at(&mut volume, 3), Ok(8));
    assert_eq!(ExfatChain::new(&mut volume, 5, None, flags), Err(Errno::EIO));
}

#[test]
fn chains_grow_and_shrink() {
    let mut volume = volume();
    let free = volume.free_clusters();
    assert_eq!(free, 82);
    assert_eq!(volume.first_free_cluster(), Some(20));
    let mut chain =
        ExfatChain::new(&mut volume, 5, None, FatChainFlags::alloc_possible()).unwrap();
    assert_eq!(chain.extend_clusters(&mut volume, 2, true), Ok(()));
    assert_eq!(chain.num_clusters, 5);
    assert_eq!(volume.free_clusters(), free - 2);
    assert_eq!(chain.cluster_at(&mut volume, 2), Ok(7));
    assert_eq!(chain.cluster_at(&mut volume, 3), Ok(20));
    assert_eq!(chain.cluster_at(&mut volume, 4), Ok(21));
    assert_eq!(volume.read_next_fat(7), Ok(FatValue::Next(20)));
    assert_eq!(volume.read_fat_entry(21), Ok(FatValue::EndOfChain));

    assert_eq!(chain.remove_clusters_from_tail(&mut volume, 3, true), Ok(()));
    assert_eq!(chain.num_clusters, 2);
    assert_eq!(volume.read_next_fat(9), Ok(FatValue::EndOfChain));
    assert_eq!(volume.free_clusters(), free + 1);

    assert_eq!(chain.extend_clusters(&mut volume, free + 2, true), Err(Errno::ENOSPC));
    assert_eq!(chain.num_clusters, 2);
    assert_eq!(volume.free_clusters(), free + 1);
}

#[test]
fn chains_grow_to_a_wanted_cluster() {
    let mut volume = volume();
    let mut chain =
        ExfatChain::new(&mut volume, 5, None, FatChainFlags::alloc_possible()).unwrap();
    assert_eq!(chain.get_or_allocate_cluster(&mut volume, 1, true), Ok(9));
    assert_eq!(chain.num_clusters, 3);
    assert_eq!(chain.get_or_allocate_cluster(&mut volume, 4, true), Ok(21));
    assert_eq!(chain.num_clusters, 5);
    // The first sector of the sixth cluster, which is the cluster 22.
    assert_eq!(
        chain.lock_and_get_or_allocate_sector_id(&mut volume, 40, false),
        Ok(16 + 20 * 8)
    );
    assert_eq!(chain.num_clusters, 6);
    assert_eq!(
        chain.lock_and_get_or_allocate_sector_id(&mut volume, 41, false),
        Ok(16 + 20 * 8 + 1)
    );
}

#[test]
fn sectors_are_found_where_their_clusters_are() {
    let mut volume = volume();
    let mut chain =
        ExfatChain::new(&mut volume, 5, None, FatChainFlags::alloc_possible()).unwrap();
    // The sector is in the first cluster, with and without room for the rest of the page.
    let sector = 16 + 3 * 8 + 1;
    assert_eq!(get_sector_id(&mut volume, &chain, 1), Ok(sector));
    for alloc_page in [false, true] {
        assert_eq!(
            chain.lock_and_get_or_allocate_sector_id(&mut volume, 1, alloc_page),
            Ok(sector)
        );
        assert_eq!(chain.num_clusters, 3);
    }
    // The sector is the last one of the third cluster; the page ends with the fourth.
    assert_eq!(
        chain.lock_and_get_or_allocate_sector_id(&mut volume, 23, true),
        Ok(16 + 5 * 8 + 7)
    );
    assert_eq!(chain.num_clusters, 4);
    assert_eq!(get_sector_id(&mut volume, &chain, 23), Ok(16 + 5 * 8 + 7));
}

#[test]
fn the_bitmap_is_written_to_the_disk() {
    let mut volume = volume();
    // The bitmap begins with the cluster 2, which begins with the sector 16.
    let on_disk = |volume: &Volume| volume.read_bytes(16 * 512, 13).unwrap();
    let mut chain =
        ExfatChain::new(&mut volume, 5, None, FatChainFlags::alloc_possible()).unwrap();
    assert_eq!(on_disk(&volume), vec![0; 13]);
    assert_eq!(chain.extend_clusters(&mut volume, 2, false), Ok(()));
    assert_eq!(on_disk(&volume), vec![0; 13]);
    assert_eq!(chain.extend_clusters(&mut volume, 1, true), Ok(()));
    let mut bytes = vec![0xFF, 0xFF, 0b1_1111, 0, 0, 0, 0, 0, 0, 0, 0, 0, 0];
    assert_eq!(on_disk(&volume), bytes);
    assert_eq!(chain.remove_clusters_from_tail(&mut volume, 1, false), Ok(()));
    assert_eq!(on_disk(&volume), bytes);
    assert_eq!(chain.remove_clusters_from_tail(&mut volume, 1, true), Ok(()));
    bytes[2] = 0b111;
    assert_eq!(on_disk(&volume), bytes);

    assert_eq!(volume.set_bitmap_used(101, true), Ok(()));
    bytes[12] = 0b1000;
    assert_eq!(on_disk(&volume), bytes);
    assert_eq!(volume.set_bitmap_range_used(26..35, false), Ok(()));
    assert_eq!(on_disk(&volume), bytes);
    assert_eq!(volume.set_bitmap_unused(101, true), Ok(()));
    bytes[12] = 0;
    bytes[3] = 0xFF;
    bytes[4] = 1;
    assert_eq!(on_disk(&volume), bytes);
    assert_eq!(volume.set_bitmap_range_unused(26..35, true), Ok(()));
    bytes[3] = 0;
    bytes[4] = 0;
    assert_eq!(on_disk(&volume), bytes);
    assert_eq!(volume.set_bitmap_used(102, true), Err(Errno::EINVAL));

    // A bitmap that was not loaded has no place.
    let mut image = boot_sector();
    image.resize(16 * 512 + 100 * 4096, 0);
    let disk = Disk { device: Box::new(ExfatMemoryDisk::new(image)) };
    let sb = Volume::read_super_block(&disk).unwrap();
    assert_eq!(Volume::new(disk, sb).write_bitmap(), Err(Errno::EIO));
}

#[test]
fn the_fat_is_read_as_it_was_written() {
    let mut volume = volume();
    assert_eq!(volume.write_next_fat(30, FatValue::Next(31)), Ok(()));
    assert_eq!(volume.read_next_fat(30), Ok(FatValue::Next(31)));
    assert_eq!(volume.read_fat_entry(30), Ok(FatValue::Next(31)));
    assert_eq!(volume.read_next_fat(29), Ok(FatValue::Free));
    assert_eq!(volume.read_next_fat(1), Err(Errno::EIO));
    assert_eq!(volume.read_next_fat(103), Err(Errno::EIO));
    assert_eq!(volume.cluster_to_off(2), 16 * 512);
    assert_eq!(volume.cluster_to_off(5), 16 * 512 + 3 * 4096);
}

#[test]
fn entries_in_memory_are_forgotten_in_their_turn() {
    // The FAT has room for more entries than are kept in memory.
    let mut image = boot_sector();
    image[84] = 24;
    image[88] = 32;
    image[92..96].copy_from_slice(&3000u32.to_le_bytes());
    image.resize(32 * 512, 0);
    let disk = Disk { device: Box::new(ExfatMemoryDisk::new(image)) };
    let sb = Volume::read_super_block(&disk).unwrap();
    let mut volume = Volume::new(disk, sb);
    assert_eq!(volume.write_next_fat(2, FatValue::Next(3)), Ok(()));
    // What the disk says changes behind the back of the memory.
    assert_eq!(volume.write_fat_entry(2, FatValue::Bad), Ok(()));
    assert_eq!(volume.read_next_fat(2), Ok(FatValue::Next(3)));
    for cluster in 3..1026 {
        assert_eq!(volume.read_next_fat(cluster), Ok(FatValue::Free));
    }
    // The entry was used before all others, and is still there.
    assert_eq!(volume.read_next_fat(2), Ok(FatValue::Next(3)));
    for cluster in 1026..2050 {
        assert_eq!(volume.read_next_fat(cluster), Ok(FatValue::Free));
    }
    assert_eq!(volume.read_next_fat(2), Ok(FatValue::Bad));
}

#[test]
fn bitmaps_have_bounds() {
    let mut bitmap = ExfatBitmap::from_bytes(&vec![0b0000_0101, 0b10], 10);
    assert_eq!(bitmap.free_clusters(), 7);
    assert_eq!(bitmap.is_cluster_free(2), Ok(false));
    assert_eq!(bitmap.is_cluster_free(3), Ok(true));
    assert_eq!(bitmap.is_cluster_free(11), Ok(false));
    for outside in [0, 1, 12] {
        assert_eq!(bitmap.is_cluster_free(outside), Err(Errno::EINVAL));
        assert_eq!(bitmap.set_bit(outside, true), Err(Errno::EINVAL));
        assert_eq!(bitmap.set_bit(outside, false), Err(Errno::EINVAL));
        assert_eq!(
            bitmap.find_next_free_cluster_range(outside, 1),
            Err(Errno::EINVAL)
        );
    }
    assert_eq!(bitmap.is_cluster_range_free(5..11), Ok(true));
    assert_eq!(bitmap.is_cluster_range_free(4..6), Ok(false));
    assert_eq!(bitmap.is_cluster_range_free(5..13), Err(Errno::EINVAL));
    assert_eq!(bitmap.set_range(5..13, true), Err(Errno::EINVAL));
    assert_eq!(bitmap.find_next_free_cluster_range(2, 6), Ok(5..11));
    assert_eq!(bitmap.find_next_free_cluster_range_fast(2, 6), Ok(5..11));
    assert_eq!(bitmap.find_next_free_cluster_range(2, 7), Err(Errno::ENOSPC));
    assert_eq!(bitmap.find_next_free_cluster_range_fast(2, 7), Err(Errno::ENOSPC));

    // Taking a range and freeing it again changes nothing.
    assert_eq!(bitmap.set_range(5..11, true), Ok(()));
    assert_eq!(bitmap.free_clusters(), 1);
    assert_eq!(bitmap.set_range(5..11, false), Ok(()));
    assert_eq!(bitmap.free_clusters(), 7);
    assert_eq!(bitmap.is_cluster_free(11), Ok(false));
}

#[test]
fn entries_have_kinds() {
    let kinds = [
        (0x00, DentryKind::UnUsed),
        (0x05, DentryKind::Deleted),
        (0x7F, DentryKind::Deleted),
        (0x81, DentryKind::Bitmap),
        (0x82, DentryKind::Upcase),
        (0x85, DentryKind::File),
        (0x83, DentryKind::GenericPrimary),
        (0xC0, DentryKind::Stream),
        (0xC1, DentryKind::Name),
        (0xC2, DentryKind::GenericSecondary),
        (0xE0, DentryKind::VendorExt),
        (0xE1, DentryKind::VendorAlloc),
    ];
    for (first, kind) in kinds {
        assert_eq!(dentry_kind(first), kind);
        let deleted = dentry_kind(first & 0x7F);
        assert!(deleted == DentryKind::Deleted || deleted == DentryKind::UnUsed);
    }
}

#[test]
fn names_have_hashes_and_slots() {
    assert_eq!(hash_name(&encode_utf16("")), 0);
    assert_eq!(hash_name(&encode_utf16("A")), 0x8020);
    assert_eq!(hash_name(&encode_utf16("hello.txt")), 0x45ab);
    assert_eq!(count_slots(&encode_utf16("a")), 3);
    assert_eq!(count_slots(&encode_utf16("fifteen letters")), 3);
    assert_eq!(count_slots(&encode_utf16("sixteen  letters")), 4);
}

#[test]
fn a_new_set_holds_its_name() {
    let units = encode_utf16("hello.txt");
    let set = ExfatDentrySet::new(&units, false, NOW);
    assert_eq!(set.len(), 3);
    assert_eq!(set.get_name(), units);
    let file = set.get_file_dentry();
    assert_eq!(file.num_secondary, 2);
    assert_eq!(file.checksum, 0x95c);
    assert_eq!(file.attribute, 0);
    assert_eq!((file.create_time, file.create_date), (0x6c5a, 0x57a3));
    assert_eq!((file.modify_time_cs, file.access_utc_offset), (17, 0x80));
    let stream = set.get_stream_dentry();
    assert_eq!(
        stream,
        ExfatStreamDentry {
            flags: 1,
            name_len: 9,
            name_hash: 0x45ab,
            valid_size: 0,
            start_cluster: 0,
            size: 0,
        }
    );
    let bytes = set.to_le_bytes();
    assert_eq!(bytes.len(), 96);
    assert_eq!((bytes[0], bytes[32], bytes[64]), (0x85, 0xC0, 0xC1));
    assert_eq!(get_le16(bytes, 66), b'h' as u16);

    let dir = ExfatDentrySet::new(&encode_utf16("a long name of 20 ch"), true, NOW);
    assert_eq!(dir.len(), 4);
    assert_eq!(dir.get_file_dentry().attribute, ATTR_DIRECTORY);
    assert_eq!(dir.get_file_dentry().checksum, 0x150c);
}

#[test]
fn an_updated_set_keeps_its_name() {
    let units = encode_utf16("hello.txt");
    let mut set = ExfatDentrySet::new(&units, false, NOW);
    let file = set.get_file_dentry();
    let stream = ExfatStreamDentry { start_cluster: 77, size: 8192, ..set.get_stream_dentry() };
    set.update(&file, &stream);
    assert_eq!(set.get_name(), units);
    assert_eq!(set.get_stream_dentry(), stream);
    assert_ne!(set.get_file_dentry().checksum, file.checksum);
    assert_eq!(get_file(set.to_le_bytes(), 0).attribute, file.attribute);
    assert_eq!(get_stream(set.to_le_bytes(), 32).start_cluster, 77);
    assert_eq!(get_extent(set.to_le_bytes(), 32).start_cluster, 77);
    assert_eq!(get_extent(set.to_le_bytes(), 32).size, 8192);
}

#[test]
fn sets_are_read_from_directories() {
    let set = ExfatDentrySet::new(&encode_utf16("hello.txt"), false, NOW);
    let mut dir = vec![0u8; 64];
    dir[0] = 0x85;
    dir.extend_from_slice(set.to_le_bytes());
    assert_eq!(ExfatDentrySet::read_from(&dir, 2).unwrap().to_le_bytes(), set.to_le_bytes());
    // A file entry alone.
    assert_eq!(ExfatDentrySet::read_from(&dir, 0).err(), Some(Errno::EINVAL));
    // No file entry.
    assert_eq!(ExfatDentrySet::read_from(&dir, 1).err(), Some(Errno::EINVAL));
    assert_eq!(ExfatDentrySet::read_from(&dir, 3).err(), Some(Errno::EINVAL));
    // Behind the end.
    assert_eq!(ExfatDentrySet::read_from(&dir, 5).err(), Some(Errno::ENOENT));
    dir.truncate(128);
    assert_eq!(ExfatDentrySet::read_from(&dir, 2).err(), Some(Errno::ENOENT));
}

#[test]
fn attributes_and_mount_options_take_permissions_away() {
    let mut options = ExfatMountOptions::default();
    assert_eq!(options.errors, ExfatErrorMode::default());
    let all = InodeMode::all();
    assert_eq!(all.bits, MODE_ALL);
    let file = FatAttr::from_bits_truncate(0xFFC0);
    assert_eq!(file.bits, 0);
    assert_eq!(file.make_mode(&options, all).bits, 0o7777);
    let readonly = FatAttr { bits: ATTR_READONLY };
    assert!(readonly.contains(ATTR_READONLY));
    assert_eq!(readonly.make_mode(&options, all).bits, 0o7555);
    let dir = FatAttr { bits: ATTR_READONLY | ATTR_DIRECTORY };
    assert_eq!(dir.make_mode(&options, all).bits, 0o7777);
    options.fs_fmask = 0o137;
    options.fs_dmask = 0o022;
    assert_eq!(file.make_mode(&options, all).bits, 0o7640);
    assert_eq!(dir.make_mode(&options, all).bits, 0o7755);
    let copy = options.clone();
    assert_eq!(copy.fs_dmask, 0o022);
}

#[test]
fn places_have_numbers_of_their_own() {
    assert_eq!(make_hash_index(0, 0), 0);
    assert_eq!(make_hash_index(5, 96), 0x5_0000_0060);
    assert_ne!(make_hash_index(5, 96), make_hash_index(96, 5));
    assert!(InodeType::Dir.is_directory());
    assert!(!InodeType::Dir.is_reguler_file());
    assert!(InodeType::File.is_reguler_file());
}

#[test]
fn disks_have_ends() {
    let mut disk = ExfatMemoryDisk::new(vec![1, 2, 3, 4]);
    assert_eq!(disk.size(), 4);
    assert_eq!(disk.read_at(1, 3), Ok(vec![2, 3, 4]));
    assert_eq!(disk.read_at(4, 0), Ok(vec![]));
    assert_eq!(disk.read_at(2, 3), Err(Errno::EINVAL));
    assert_eq!(disk.read_at(u64::MAX, 1), Err(Errno::EINVAL));
    assert_eq!(disk.write_at(3, &vec![9]), Ok(()));
    assert_eq!(disk.write_at(3, &vec![8, 8]), Err(Errno::EINVAL));
    assert_eq!(disk.read_at(0, 4), Ok(vec![1, 2, 3, 9]));
}

#[test]
fn numbers_in_bytes() {
    let mut bytes = Vec::new();
    push_le16(&mut bytes, 0x1234);
    push_le32(&mut bytes, 0xDEADBEEF);
    push_le64(&mut bytes, 0x0123456789ABCDEF);
    assert_eq!(bytes[..6], [0x34, 0x12, 0xEF, 0xBE, 0xAD, 0xDE]);
    assert_eq!(get_le16(&bytes, 0), 0x1234);
    assert_eq!(get_le32(&bytes, 2), 0xDEADBEEF);
    assert_eq!(get_le64(&bytes, 6), 0x0123456789ABCDEF);
}

#[test]
fn rounding() {
    assert_eq!((align_up(0, 8), align_up(1, 8), align_up(8, 8)), (0, 8, 8));
    assert_eq!((align_down(7, 8), align_down(8, 8)), (0, 8));
    assert_eq!((div_ceil(0, 15), div_ceil(15, 15), div_ceil(16, 15)), (0, 1, 2));
}

#[test]
fn text_is_compared_and_encoded() {
    assert!(text_equal("abc", "abc"));
    assert!(!text_equal("abc", "abd"));
    assert!(text_less("ab", "abc"));
    assert!(text_less("abc", "b"));
    assert!(!text_less("b", "b"));
    assert_eq!(byte_len("a\u{e9}\u{4e2d}\u{1f600}"), 10);
    let text = "a\u{e9}\u{4e2d}\u{1f600}";
    let expected: Vec<u16> = text.encode_utf16().collect();
    assert_eq!(encode_utf16(text), expected);
}
