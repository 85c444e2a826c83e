//! Numbers that the exFAT format fixes.

use vstd::prelude::*;

verus! {

/// The signature at the end of the boot sector.
pub const BOOT_SIGNATURE: u16 = 0xAA55;

/// The number of bytes in the boot sector.
pub const BOOT_SECTOR_SIZE: usize = 512;

/// The bounds of the base-two logarithm of the sector size.
pub const EXFAT_MIN_SECT_SIZE_BITS: u8 = 9;

pub const EXFAT_MAX_SECT_SIZE_BITS: u8 = 12;

/// The base-two logarithm of the largest cluster size.
pub const EXFAT_MAX_CLUSTER_SIZE_BITS: u8 = 25;

/// Volume flag: the volume was not properly unmounted.
pub const VOLUME_DIRTY: u32 = 0x0002;

/// Volume flag: the medium has reported failures.
pub const MEDIA_FAILURE: u32 = 0x0004;

/// Clusters are numbered from this number on.
pub const EXFAT_RESERVED_CLUSTERS: u32 = 2;

/// The number of bytes in a directory entry.
pub const DENTRY_SIZE: usize = 32;

/// The number of UTF-16 units in a file name entry.
pub const EXFAT_FILE_NAME_LEN: usize = 15;

/// The length of the longest name, in bytes.
pub const MAX_NAME_LENGTH: usize = 255;

/// The number of directory entries that a directory may hold.
pub const MAX_EXFAT_DENTRIES: usize = 8388608;

/// The number of bytes in a page of the page cache.
pub const PAGE_SIZE: usize = 4096;

/// The inode number of the root directory.
pub const EXFAT_ROOT_INO: usize = 1;

/// The hash under which the root directory is kept.
pub const ROOT_INODE_HASH: u64 = 0;

/// The number of FAT entries that are kept in memory.
pub const LRU_CACHE_SIZE: usize = 1024;

} // verus!
