//! The boot sector, and the layout of the volume that it gives.

use vstd::arithmetic::power2::{lemma_pow2_strictly_increases, lemma_pow2_unfold, lemma2_to64};
use vstd::prelude::*;
use crate::bytes::{get_le16, get_le32};
use crate::errno::Errno;
use crate::exfat::constants::{
    BOOT_SECTOR_SIZE, BOOT_SIGNATURE, EXFAT_MAX_CLUSTER_SIZE_BITS, EXFAT_MAX_SECT_SIZE_BITS,
    EXFAT_MIN_SECT_SIZE_BITS, EXFAT_RESERVED_CLUSTERS, MEDIA_FAILURE, VOLUME_DIRTY,
};

verus! {

/// The layout of an exFAT volume.
#[derive(Clone, Copy, Debug, PartialEq, Eq, Structural)]
pub struct ExfatSuperBlock {
    /// The number of bytes in a sector.
    pub sector_size: u32,
    /// The number of sectors in a cluster.
    pub sect_per_cluster: u32,
    /// The number of bytes in a cluster.
    pub cluster_size: u32,
    /// The number of sectors in one FAT.
    pub num_fat_sectors: u32,
    /// One more than the number of the last cluster.
    pub num_clusters: u32,
    /// The first sector of the FAT.
    pub fat1_start_sector: u64,
    /// The first sector of the second FAT, or of the only one.
    pub fat2_start_sector: u64,
    /// The first sector of the first cluster.
    pub data_start_sector: u64,
    /// The first cluster of the root directory.
    pub root_dir: u32,
    /// The volume flags.
    pub vol_flags: u32,
}

impl ExfatSuperBlock {
    /// The relations between the fields that every accepted boot sector gives.
    pub open spec fn wf(self) -> bool {
        &&& 512 <= self.sector_size <= 4096
        &&& 4096u32 % self.sector_size == 0
        &&& 1 <= self.sect_per_cluster
        &&& self.cluster_size == self.sector_size * self.sect_per_cluster
        &&& self.cluster_size <= 0x200_0000
        &&& EXFAT_RESERVED_CLUSTERS <= self.num_clusters
        &&& self.fat1_start_sector <= 0x1_ffff_ffff
        &&& self.fat2_start_sector <= 0x1_ffff_ffff
        &&& self.data_start_sector <= 0x1_ffff_ffff
    }
}

/// The byte of the boot sector that holds the logarithm of the sector size.
pub open spec fn boot_sector_size_bits(b: Seq<u8>) -> u8 {
    b[108]
}

/// The byte of the boot sector that holds the logarithm of the number of sectors
/// in a cluster.
pub open spec fn boot_sector_per_cluster_bits(b: Seq<u8>) -> u8 {
    b[109]
}

/// The number of FATs that the boot sector gives.
pub open spec fn boot_num_fats(b: Seq<u8>) -> u8 {
    b[110]
}

/// The name of the file system that the boot sector must hold.
pub open spec fn exfat_name() -> Seq<u8> {
    seq![0x45u8, 0x58u8, 0x46u8, 0x41u8, 0x54u8, 0x20u8, 0x20u8, 0x20u8]
}

/// The layout that a boot sector gives.
pub open spec fn super_block_of(b: Seq<u8>) -> ExfatSuperBlock {
    let sector_size = vstd::arithmetic::power2::pow2(boot_sector_size_bits(b) as nat) as u32;
    let sect_per_cluster =
        vstd::arithmetic::power2::pow2(boot_sector_per_cluster_bits(b) as nat) as u32;
    let fat_offset = crate::bytes::le32(b, 80);
    let fat_length = crate::bytes::le32(b, 84);
    ExfatSuperBlock {
        sector_size,
        sect_per_cluster,
        cluster_size: (sector_size * sect_per_cluster) as u32,
        num_fat_sectors: fat_length,
        num_clusters: (crate::bytes::le32(b, 92) + EXFAT_RESERVED_CLUSTERS) as u32,
        fat1_start_sector: fat_offset as u64,
        fat2_start_sector: if boot_num_fats(b) == 2 {
            (fat_offset + fat_length) as u64
        } else {
            fat_offset as u64
        },
        data_start_sector: crate::bytes::le32(b, 88) as u64,
        root_dir: crate::bytes::le32(b, 96),
        vol_flags: crate::bytes::le16(b, 106) as u32,
    }
}

/// Whether the fields of a boot sector are sound one by one.
pub open spec fn boot_fields_valid(b: Seq<u8>) -> bool {
    &&& crate::bytes::le16(b, 510) == BOOT_SIGNATURE
    &&& b.subrange(3, 11) == exfat_name()
    &&& forall|k: int| 11 <= k < 64 ==> b[k] == 0
    &&& boot_num_fats(b) == 1 || boot_num_fats(b) == 2
    &&& EXFAT_MIN_SECT_SIZE_BITS <= boot_sector_size_bits(b) <= EXFAT_MAX_SECT_SIZE_BITS
    &&& boot_sector_per_cluster_bits(b) + boot_sector_size_bits(b)
        <= EXFAT_MAX_CLUSTER_SIZE_BITS
    &&& crate::bytes::le32(b, 92) + EXFAT_RESERVED_CLUSTERS <= u32::MAX
}

/// Whether a boot sector describes an exFAT volume whose FAT has room for all
/// clusters and ends before the clusters begin.
pub open spec fn boot_sector_valid(b: Seq<u8>) -> bool {
    let sb = super_block_of(b);
    &&& boot_fields_valid(b)
    &&& sb.num_fat_sectors * sb.sector_size >= sb.num_clusters * 4
    &&& sb.data_start_sector >= sb.fat1_start_sector + sb.num_fat_sectors * boot_num_fats(b)
}

/// The power of two with the exponent `n`.
fn power_of_two(n: u8) -> (result: u32)
    requires
        n <= 25,
    ensures
        result == vstd::arithmetic::power2::pow2(n as nat),
        1 <= result <= 0x200_0000,
{
    proof {
        lemma2_to64();
    }
    let mut result: u32 = 1;
    let mut i: u8 = 0;
    while i < n
        invariant
            i <= n <= 25,
            result == vstd::arithmetic::power2::pow2(i as nat),
            1 <= result <= 0x200_0000,
            vstd::arithmetic::power2::pow2(25) == 0x200_0000,
        decreases n - i,
    {
        proof {
            lemma_pow2_unfold((i + 1) as nat);
            if i + 1 < 25 {
                lemma_pow2_strictly_increases((i + 1) as nat, 25);
            }
        }
        result = result * 2;
        i = i + 1;
    }
    result
}

/// The layout that an accepted boot sector gives is well-formed.
pub proof fn lemma_super_block_wf(b: Seq<u8>)
    requires
        b.len() == BOOT_SECTOR_SIZE,
        boot_fields_valid(b),
    ensures
        super_block_of(b).wf(),
        vstd::arithmetic::power2::pow2(boot_sector_size_bits(b) as nat) <= 4096,
        vstd::arithmetic::power2::pow2(boot_sector_per_cluster_bits(b) as nat) <= 0x1_0000,
        vstd::arithmetic::power2::pow2(boot_sector_size_bits(b) as nat)
            * vstd::arithmetic::power2::pow2(boot_sector_per_cluster_bits(b) as nat)
            <= 0x200_0000,
{
    lemma2_to64();
    let s = boot_sector_size_bits(b) as nat;
    let c = boot_sector_per_cluster_bits(b) as nat;
    assert(s == 9 || s == 10 || s == 11 || s == 12);
    assert(c <= 16);
    if c < 16 {
        lemma_pow2_strictly_increases(c, 16);
    }
    vstd::arithmetic::power2::lemma_pow2_adds(s, c);
    if s + c < 25 {
        lemma_pow2_strictly_increases(s + c, 25);
    }
    vstd::arithmetic::power2::lemma_pow2_pos(c);
}

/// Whether a boot sector carries the name of the file system.
fn has_exfat_name(b: &Vec<u8>) -> (result: bool)
    requires
        b@.len() == BOOT_SECTOR_SIZE,
    ensures
        result == (b@.subrange(3, 11) == exfat_name()),
{
    let result: bool = b[3] == 0x45 && b[4] == 0x58 && b[5] == 0x46 && b[6] == 0x41 && b[7] == 0x54
        && b[8] == 0x20 && b[9] == 0x20 && b[10] == 0x20;
    proof {
        let s = b@.subrange(3, 11);
        assert(s[0] == b@[3] && s[1] == b@[4] && s[2] == b@[5] && s[3] == b@[6] && s[4] == b@[7]
            && s[5] == b@[8] && s[6] == b@[9] && s[7] == b@[10]);
        if result {
            assert(s =~= exfat_name());
        } else {
            let e = exfat_name();
            assert(s[0] != e[0] || s[1] != e[1] || s[2] != e[2] || s[3] != e[3] || s[4] != e[4]
                || s[5] != e[5] || s[6] != e[6] || s[7] != e[7]);
        }
    }
    result
}

/// Whether the part of a boot sector that tells exFAT from FAT is zero.
fn must_be_zero(b: &Vec<u8>) -> (result: bool)
    requires
        b@.len() == BOOT_SECTOR_SIZE,
    ensures
        result == (forall|k: int| 11 <= k < 64 ==> b@[k] == 0),
{
    let mut k: usize = 11;
    while k < 64
        invariant
            11 <= k <= 64,
            b@.len() == BOOT_SECTOR_SIZE,
            forall|j: int| 11 <= j < k ==> b@[j] == 0,
        decreases 64 - k,
    {
        if b[k] != 0 {
            return false;
        }
        k = k + 1;
    }
    true
}

/// Reads the layout of a volume from its boot sector.
pub fn parse_boot_sector(b: &Vec<u8>) -> (result: Result<ExfatSuperBlock, Errno>)
    requires
        b@.len() == BOOT_SECTOR_SIZE,
    ensures
        result == (if boot_sector_valid(b@) {
            Ok::<ExfatSuperBlock, Errno>(super_block_of(b@))
        } else {
            Err::<ExfatSuperBlock, Errno>(Errno::EINVAL)
        }),
        boot_sector_valid(b@) ==> super_block_of(b@).wf(),
{
    if get_le16(b, 510) != BOOT_SIGNATURE {
        return Err(Errno::EINVAL);
    }
    if !has_exfat_name(b) {
        return Err(Errno::EINVAL);
    }
    if !must_be_zero(b) {
        return Err(Errno::EINVAL);
    }
    let num_fats: u8 = b[110];
    if num_fats != 1 && num_fats != 2 {
        return Err(Errno::EINVAL);
    }
    let sector_size_bits: u8 = b[108];
    if sector_size_bits < EXFAT_MIN_SECT_SIZE_BITS || sector_size_bits > EXFAT_MAX_SECT_SIZE_BITS {
        return Err(Errno::EINVAL);
    }
    let sector_per_cluster_bits: u8 = b[109];
    if sector_per_cluster_bits > EXFAT_MAX_CLUSTER_SIZE_BITS - sector_size_bits {
        return Err(Errno::EINVAL);
    }
    let cluster_count: u32 = get_le32(b, 92);
    if cluster_count > u32::MAX - EXFAT_RESERVED_CLUSTERS {
        return Err(Errno::EINVAL);
    }
    proof {
        lemma_super_block_wf(b@);
    }
    let sector_size: u32 = power_of_two(sector_size_bits);
    let sect_per_cluster: u32 = power_of_two(sector_per_cluster_bits);
    let fat_offset: u32 = get_le32(b, 80);
    let fat_length: u32 = get_le32(b, 84);
    let super_block: ExfatSuperBlock = ExfatSuperBlock {
        sector_size,
        sect_per_cluster,
        cluster_size: sector_size * sect_per_cluster,
        num_fat_sectors: fat_length,
        num_clusters: cluster_count + EXFAT_RESERVED_CLUSTERS,
        fat1_start_sector: fat_offset as u64,
        fat2_start_sector: if num_fats == 2 {
            fat_offset as u64 + fat_length as u64
        } else {
            fat_offset as u64
        },
        data_start_sector: get_le32(b, 88) as u64,
        root_dir: get_le32(b, 96),
        vol_flags: get_le16(b, 106) as u32,
    };
    assert(super_block == super_block_of(b@));
    assert(fat_length * sector_size <= 0xffff_ffff * 4096) by (nonlinear_arith)
        requires
            fat_length <= 0xffff_ffff,
            sector_size <= 4096,
    ;
    assert(fat_length * num_fats <= 0xffff_ffff * 2) by (nonlinear_arith)
        requires
            fat_length <= 0xffff_ffff,
            num_fats <= 2,
    ;
    if (fat_length as u64) * (sector_size as u64) < (super_block.num_clusters as u64) * 4 {
        return Err(Errno::EINVAL);
    }
    if super_block.data_start_sector < super_block.fat1_start_sector + (fat_length as u64) * (
    num_fats as u64) {
        return Err(Errno::EINVAL);
    }
    Ok(super_block)
}

impl ExfatSuperBlock {
    /// Whether the volume was not properly unmounted.
    pub fn is_dirty(&self) -> (result: bool)
        ensures
            result == (self.vol_flags & VOLUME_DIRTY != 0),
            result == (self.vol_flags & 0x02 != 0),
    {
        self.vol_flags & VOLUME_DIRTY != 0
    }

    /// Whether the medium has reported failures.
    pub fn has_media_failure(&self) -> (result: bool)
        ensures
            result == (self.vol_flags & MEDIA_FAILURE != 0),
            result == (self.vol_flags & 0x04 != 0),
    {
        self.vol_flags & MEDIA_FAILURE != 0
    }
}

} // verus!
