//! The entries of the file allocation table.

use vstd::prelude::*;
use crate::errno::Errno;

verus! {

/// The number of a cluster.
pub type ClusterID = u32;

/// What the FAT says of a cluster.
#[derive(Copy, Clone, Eq, PartialEq, Debug, Structural)]
pub enum FatValue {
    /// The cluster is free.
    Free,
    /// The cluster is followed by another one.
    Next(ClusterID),
    /// The cluster cannot be used.
    Bad,
    /// The cluster is the last one of its chain.
    EndOfChain,
}

pub const EXFAT_EOF_CLUSTER: ClusterID = 0xFFFF_FFFF;

pub const EXFAT_BAD_CLUSTER: ClusterID = 0xFFFF_FFF7;

pub const EXFAT_FREE_CLUSTER: ClusterID = 0;

/// The number of bytes in an entry of the FAT.
pub const FAT_ENTRY_SIZE: u32 = 4;

/// What a raw FAT entry means.
pub open spec fn fat_value_of(raw: ClusterID) -> FatValue {
    if raw == EXFAT_BAD_CLUSTER {
        FatValue::Bad
    } else if raw == EXFAT_FREE_CLUSTER {
        FatValue::Free
    } else if raw == EXFAT_EOF_CLUSTER {
        FatValue::EndOfChain
    } else {
        FatValue::Next(raw)
    }
}

/// The raw FAT entry for a value.
pub open spec fn fat_raw_of(value: FatValue) -> ClusterID {
    match value {
        FatValue::Free => EXFAT_FREE_CLUSTER,
        FatValue::EndOfChain => EXFAT_EOF_CLUSTER,
        FatValue::Bad => EXFAT_BAD_CLUSTER,
        FatValue::Next(next) => next,
    }
}

impl From<ClusterID> for FatValue {
    fn from(value: ClusterID) -> (result: Self) {
        if value == EXFAT_BAD_CLUSTER {
            FatValue::Bad
        } else if value == EXFAT_FREE_CLUSTER {
            FatValue::Free
        } else if value == EXFAT_EOF_CLUSTER {
            FatValue::EndOfChain
        } else {
            FatValue::Next(value)
        }
    }
}

impl vstd::std_specs::convert::FromSpecImpl<ClusterID> for FatValue {
    open spec fn obeys_from_spec() -> bool {
        true
    }

    open spec fn from_spec(value: ClusterID) -> FatValue {
        fat_value_of(value)
    }
}

impl From<FatValue> for ClusterID {
    fn from(value: FatValue) -> (result: Self) {
        match value {
            FatValue::Free => EXFAT_FREE_CLUSTER,
            FatValue::EndOfChain => EXFAT_EOF_CLUSTER,
            FatValue::Bad => EXFAT_BAD_CLUSTER,
            FatValue::Next(next) => next,
        }
    }
}

impl vstd::std_specs::convert::FromSpecImpl<FatValue> for ClusterID {
    open spec fn obeys_from_spec() -> bool {
        true
    }

    open spec fn from_spec(value: FatValue) -> ClusterID {
        fat_raw_of(value)
    }
}

/// A value survives being stored unless it names, as the next cluster, a number
/// that stands for something else.
pub proof fn law_fat_value_roundtrip(value: FatValue)
    requires
        value matches FatValue::Next(next) ==> next != EXFAT_BAD_CLUSTER && next
            != EXFAT_FREE_CLUSTER && next != EXFAT_EOF_CLUSTER,
    ensures
        fat_value_of(fat_raw_of(value)) == value,
{
}

/// A raw entry is what its meaning is stored as.
pub proof fn law_fat_raw_roundtrip(raw: ClusterID)
    ensures
        fat_raw_of(fat_value_of(raw)) == raw,
{
}

/// Access to the FAT of a file system.
pub trait FatTrait {
    /// Whether the FAT can be used.
    spec fn fat_ready(&self) -> bool;

    /// What the FAT says of a cluster.
    spec fn fat_entry(&self, cluster: ClusterID) -> Result<FatValue, Errno>;

    /// Whether a value that is written for a cluster can be read again.
    spec fn fat_keeps(&self, cluster: ClusterID, value: FatValue) -> bool;

    /// What the FAT says of a cluster.
    fn read_next_fat(&self, cluster: ClusterID) -> (result: Result<FatValue, Errno>)
        requires
            self.fat_ready(),
        ensures
            result == self.fat_entry(cluster),
    ;

    /// Changes what the FAT says of a cluster.
    fn write_next_fat(&mut self, cluster: ClusterID, value: FatValue) -> (result: Result<(), Errno>)
        requires
            old(self).fat_ready(),
        ensures
            final(self).fat_ready(),
            old(self).fat_keeps(cluster, value) ==> result is Ok && final(self).fat_entry(cluster)
                == Ok::<FatValue, Errno>(value),
    ;
}

/// How the clusters of a chain are found.
#[derive(Copy, Clone, Eq, PartialEq, Debug, Structural)]
pub struct FatChainFlags {
    pub bits: u8,
}

/// Clusters may belong to the chain.
pub const ALLOC_POSSIBLE: u8 = 0x01;

/// The clusters of the chain follow each other, and the FAT says nothing of them.
pub const FAT_CHAIN_NOT_IN_USE: u8 = 0x03;

impl FatChainFlags {
    /// The flags for a chain that the FAT links.
    pub fn alloc_possible() -> (flags: Self)
        ensures
            flags.bits == ALLOC_POSSIBLE,
    {
        FatChainFlags { bits: ALLOC_POSSIBLE }
    }

    /// The flags among the bits of a byte.
    pub fn from_bits_truncate(bits: u8) -> (flags: Self)
        ensures
            flags.bits == bits & 0x03u8,
    {
        FatChainFlags { bits: bits & 0x03u8 }
    }

    /// Whether the clusters of the chain follow each other.
    pub open spec fn contiguous(self) -> bool {
        self.bits & FAT_CHAIN_NOT_IN_USE == FAT_CHAIN_NOT_IN_USE
    }

    /// Whether the clusters of the chain follow each other.
    pub fn is_contiguous(&self) -> (result: bool)
        ensures
            result == self.contiguous(),
    {
        self.bits & FAT_CHAIN_NOT_IN_USE == FAT_CHAIN_NOT_IN_USE
    }
}

} // verus!
