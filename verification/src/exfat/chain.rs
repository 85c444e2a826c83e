//! Chains of clusters.

use vstd::prelude::*;
use crate::errno::Errno;
use crate::exfat::constants::EXFAT_RESERVED_CLUSTERS;
use crate::exfat::fat::{
    ClusterID, FatChainFlags, FatValue, ALLOC_POSSIBLE, EXFAT_FREE_CLUSTER,
};
use crate::exfat::volume::{Volume, VolumeState};

verus! {

/// The clusters of a file, from some cluster on.
#[derive(Copy, Clone, Eq, PartialEq, Debug, Structural)]
pub struct ExfatChain {
    /// The first of the clusters.
    pub current: ClusterID,
    /// The number of clusters.
    pub num_clusters: u32,
    /// How the clusters are found.
    pub flags: FatChainFlags,
}

/// A chain and an offset in its first cluster.
pub type ExfatChainPosition = (ExfatChain, usize);

/// The cluster that is reached from `cluster` by following the FAT `steps` times.
pub open spec fn fat_walk(v: VolumeState, cluster: ClusterID, steps: nat) -> (
    VolumeState,
    Result<ClusterID, Errno>,
)
    decreases steps,
{
    if steps == 0 {
        (v, Ok(cluster))
    } else {
        let (v1, fat) = crate::exfat::volume::fat_read(v, cluster);
        match fat {
            Err(e) => (v1, Err(e)),
            Ok(FatValue::Next(next)) => fat_walk(v1, next, (steps - 1) as nat),
            Ok(_) => (v1, Err(Errno::EIO)),
        }
    }
}

/// The cluster that lies `steps` clusters behind the first one of a chain.
pub open spec fn chain_cluster(v: VolumeState, chain: ExfatChain, steps: u32) -> (
    VolumeState,
    Result<ClusterID, Errno>,
) {
    if chain.flags.contiguous() {
        if chain.current + steps <= u32::MAX {
            (v, Ok((chain.current + steps) as u32))
        } else {
            (v, Err(Errno::EIO))
        }
    } else {
        fat_walk(v, chain.current, steps as nat)
    }
}

/// The rest of a chain behind its first `steps` clusters.
pub open spec fn chain_walk(v: VolumeState, chain: ExfatChain, steps: u32) -> (
    VolumeState,
    Result<ExfatChain, Errno>,
) {
    let (v1, r) = chain_cluster(v, chain, steps);
    match r {
        Err(e) => (v1, Err(e)),
        Ok(cluster) => (
            v1,
            Ok(
                ExfatChain {
                    current: cluster,
                    num_clusters: if steps <= chain.num_clusters {
                        (chain.num_clusters - steps) as u32
                    } else {
                        0
                    },
                    flags: chain.flags,
                },
            ),
        ),
    }
}

/// The place in a chain where the byte with the number `offset` lies.
pub open spec fn chain_walk_to_offset(v: VolumeState, chain: ExfatChain, offset: usize) -> (
    VolumeState,
    Result<ExfatChainPosition, Errno>,
) {
    let size = v.super_block.cluster_size as usize;
    let (v1, r) = chain_walk(v, chain, (offset / size) as u32);
    match r {
        Err(e) => (v1, Err(e)),
        Ok(rest) => (v1, Ok((rest, offset % size))),
    }
}

/// The number of clusters that the FAT links from `cluster` on, where `seen` were
/// counted before; more than the volume has are not counted.
pub open spec fn fat_count(v: VolumeState, cluster: ClusterID, seen: nat, fuel: nat) -> (
    VolumeState,
    Result<nat, Errno>,
)
    decreases fuel,
{
    if fuel == 0 {
        (v, Err(Errno::EIO))
    } else {
        let (v1, fat) = crate::exfat::volume::fat_read(v, cluster);
        match fat {
            Err(e) => (v1, Err(e)),
            Ok(FatValue::Next(next)) => fat_count(v1, next, seen + 1, (fuel - 1) as nat),
            Ok(_) => (v1, Ok(seen + 1)),
        }
    }
}

/// The chain that begins at a cluster: where its length is not given, it is counted.
pub open spec fn chain_new(
    v: VolumeState,
    current: ClusterID,
    num_clusters: Option<u32>,
    flags: FatChainFlags,
) -> (VolumeState, Result<ExfatChain, Errno>) {
    if !crate::exfat::volume::valid_cluster(v.super_block, current as int) {
        (v, Ok(ExfatChain { current, num_clusters: 0, flags }))
    } else {
        match num_clusters {
            Some(n) => (v, Ok(ExfatChain { current, num_clusters: n, flags })),
            None => if flags.contiguous() {
                (v, Err(Errno::EIO))
            } else {
                let (v1, r) = fat_count(v, current, 0, v.super_block.num_clusters as nat);
                match r {
                    Err(e) => (v1, Err(e)),
                    Ok(n) => (v1, Ok(ExfatChain { current, num_clusters: n as u32, flags })),
                }
            },
        }
    }
}

/// Links `n` clusters that follow each other in the FAT.
pub open spec fn linked_run(v: VolumeState, cluster: ClusterID, n: nat) -> (
    VolumeState,
    Result<(), Errno>,
)
    decreases n,
{
    if n == 0 {
        (v, Ok(()))
    } else {
        let value = if n == 1 {
            FatValue::EndOfChain
        } else {
            FatValue::Next((cluster + 1) as u32)
        };
        let (v1, r) = crate::exfat::volume::fat_write(v, cluster, value);
        match r {
            Err(e) => (v1, Err(e)),
            Ok(_) => linked_run(v1, (cluster + 1) as u32, (n - 1) as nat),
        }
    }
}

/// Takes the first free cluster, and links it behind `tail` where there is one.
pub open spec fn cluster_taken(v: VolumeState, tail: Option<ClusterID>) -> (
    VolumeState,
    Result<ClusterID, Errno>,
) {
    match crate::exfat::bitmap::first_free_run(v.bits, EXFAT_RESERVED_CLUSTERS as int, 1) {
        None => (v, Err(Errno::ENOSPC)),
        Some(found) => {
            let cluster = found as u32;
            let v1 = VolumeState {
                bits: crate::exfat::bitmap::with_cluster(v.bits, found, true),
                ..v
            };
            let (v2, r2) = crate::exfat::volume::fat_write(v1, cluster, FatValue::EndOfChain);
            match r2 {
                Err(e) => (v2, Err(e)),
                Ok(_) => match tail {
                    None => (v2, Ok(cluster)),
                    Some(t) => {
                        let (v3, r3) = crate::exfat::volume::fat_write(
                            v2,
                            t,
                            FatValue::Next(cluster),
                        );
                        match r3 {
                            Err(e) => (v3, Err(e)),
                            Ok(_) => (v3, Ok(cluster)),
                        }
                    },
                },
            }
        },
    }
}

/// Takes `n` more clusters for a chain whose last cluster is `tail`.
pub open spec fn clusters_appended(
    v: VolumeState,
    chain: ExfatChain,
    tail: Option<ClusterID>,
    n: nat,
) -> (VolumeState, ExfatChain, Result<(), Errno>)
    decreases n,
{
    if n == 0 {
        (v, chain, Ok(()))
    } else {
        let (v1, r) = cluster_taken(v, tail);
        match r {
            Err(e) => (v1, chain, Err(e)),
            Ok(cluster) => clusters_appended(
                v1,
                ExfatChain {
                    current: if tail is Some {
                        chain.current
                    } else {
                        cluster
                    },
                    num_clusters: (chain.num_clusters + 1) as u32,
                    flags: chain.flags,
                },
                Some(cluster),
                (n - 1) as nat,
            ),
        }
    }
}

/// Whether a chain has no clusters.
pub open spec fn chain_is_empty(v: VolumeState, chain: ExfatChain) -> bool {
    chain.num_clusters == 0 || !crate::exfat::volume::valid_cluster(
        v.super_block,
        chain.current as int,
    )
}

/// A chain of which the FAT links the clusters.
pub open spec fn chain_in_fat(v: VolumeState, chain: ExfatChain) -> (
    VolumeState,
    ExfatChain,
    Result<(), Errno>,
) {
    if !chain.flags.contiguous() {
        (v, chain, Ok(()))
    } else if chain.current + chain.num_clusters > u32::MAX {
        (v, chain, Err(Errno::EIO))
    } else {
        let (v1, r) = linked_run(v, chain.current, chain.num_clusters as nat);
        match r {
            Err(e) => (v1, chain, Err(e)),
            Ok(_) => (
                v1,
                ExfatChain { flags: (FatChainFlags { bits: ALLOC_POSSIBLE }), ..chain },
                Ok(()),
            ),
        }
    }
}

/// Adds `n` clusters to the end of a chain, and writes the bitmap to the disk where `sync`
/// is set.
pub open spec fn chain_extended(v: VolumeState, chain: ExfatChain, n: u32, sync: bool) -> (
    VolumeState,
    ExfatChain,
    Result<(), Errno>,
) {
    let (v1, chain1, r1) = chain_grown(v, chain, n);
    let (v2, r2) = crate::exfat::volume::bitmap_synced((v1, r1), sync);
    (v2, chain1, r2)
}

/// Adds `n` clusters to the end of a chain.
#[verifier::opaque]
pub open spec fn chain_grown(v: VolumeState, chain: ExfatChain, n: u32) -> (
    VolumeState,
    ExfatChain,
    Result<(), Errno>,
) {
    if n == 0 {
        (v, chain, Ok(()))
    } else if n > crate::exfat::bitmap::count_free(v.bits) || chain.num_clusters + n > u32::MAX {
        (v, chain, Err(Errno::ENOSPC))
    } else if chain_is_empty(v, chain) {
        clusters_appended(
            v,
            ExfatChain {
                current: EXFAT_FREE_CLUSTER,
                num_clusters: 0,
                flags: (FatChainFlags { bits: ALLOC_POSSIBLE }),
            },
            None,
            n as nat,
        )
    } else {
        let (v1, chain1, r1) = chain_in_fat(v, chain);
        match r1 {
            Err(e) => (v1, chain1, Err(e)),
            Ok(_) => {
                let (v2, r2) = fat_walk(v1, chain1.current, (chain1.num_clusters - 1) as nat);
                match r2 {
                    Err(e) => (v2, chain1, Err(e)),
                    Ok(tail) => clusters_appended(v2, chain1, Some(tail), n as nat),
                }
            },
        }
    }
}

/// Frees `n` clusters from `cluster` on.
pub open spec fn clusters_freed(
    v: VolumeState,
    flags: FatChainFlags,
    cluster: ClusterID,
    n: nat,
) -> (VolumeState, Result<(), Errno>)
    decreases n,
{
    if n == 0 {
        (v, Ok(()))
    } else {
        let (v1, r1) = if n == 1 {
            (v, Ok(cluster))
        } else {
            chain_cluster(v, ExfatChain { current: cluster, num_clusters: 0, flags }, 1)
        };
        match r1 {
            Err(e) => (v1, Err(e)),
            Ok(next) => {
                let (v2, r2) = crate::exfat::volume::cluster_marked(v1, cluster, false);
                match r2 {
                    Err(e) => (v2, Err(e)),
                    Ok(_) => clusters_freed(v2, flags, next, (n - 1) as nat),
                }
            },
        }
    }
}

/// Takes the last `n` clusters away from a chain, and writes the bitmap to the disk where
/// `sync` is set.
pub open spec fn chain_shortened(v: VolumeState, chain: ExfatChain, n: u32, sync: bool) -> (
    VolumeState,
    ExfatChain,
    Result<(), Errno>,
) {
    let (v1, chain1, r1) = chain_cut(v, chain, n);
    let (v2, r2) = crate::exfat::volume::bitmap_synced((v1, r1), sync);
    (v2, chain1, r2)
}

/// Takes the last `n` clusters away from a chain.
#[verifier::opaque]
pub open spec fn chain_cut(v: VolumeState, chain: ExfatChain, n: u32) -> (
    VolumeState,
    ExfatChain,
    Result<(), Errno>,
) {
    if n > chain.num_clusters {
        (v, chain, Err(Errno::EINVAL))
    } else if n == 0 {
        (v, chain, Ok(()))
    } else {
        let keep = (chain.num_clusters - n) as u32;
        let (v1, r1) = chain_cluster(v, chain, keep);
        match r1 {
            Err(e) => (v1, chain, Err(e)),
            Ok(start) => {
                let (v2, r2) = clusters_freed(v1, chain.flags, start, n as nat);
                match r2 {
                    Err(e) => (v2, chain, Err(e)),
                    Ok(_) => if keep == 0 {
                        (
                            v2,
                            ExfatChain { current: EXFAT_FREE_CLUSTER, num_clusters: 0, ..chain },
                            Ok(()),
                        )
                    } else if chain.flags.contiguous() {
                        (v2, ExfatChain { num_clusters: keep, ..chain }, Ok(()))
                    } else {
                        let (v3, r3) = fat_walk(v2, chain.current, (keep - 1) as nat);
                        match r3 {
                            Err(e) => (v3, chain, Err(e)),
                            Ok(tail) => {
                                let (v4, r4) = crate::exfat::volume::fat_write(
                                    v3,
                                    tail,
                                    FatValue::EndOfChain,
                                );
                                match r4 {
                                    Err(e) => (v4, chain, Err(e)),
                                    Ok(_) => (
                                        v4,
                                        ExfatChain { num_clusters: keep, ..chain },
                                        Ok(()),
                                    ),
                                }
                            },
                        }
                    },
                }
            },
        }
    }
}

/// Following the FAT changes nothing but which entries are kept in memory.
pub proof fn lemma_fat_walk_frame(v: VolumeState, cluster: ClusterID, steps: nat)
    ensures
        fat_walk(v, cluster, steps).0 == (VolumeState {
            cache: fat_walk(v, cluster, steps).0.cache,
            ..v
        }),
    decreases steps,
{
    if steps > 0 {
        let (v1, fat) = crate::exfat::volume::fat_read(v, cluster);
        match fat {
            Ok(FatValue::Next(next)) => {
                lemma_fat_walk_frame(v1, next, (steps - 1) as nat);
            },
            _ => {},
        }
    }
}

/// Counting clusters changes nothing but which FAT entries are kept in memory.
pub proof fn lemma_fat_count_frame(v: VolumeState, cluster: ClusterID, seen: nat, fuel: nat)
    ensures
        fat_count(v, cluster, seen, fuel).0 == (VolumeState {
            cache: fat_count(v, cluster, seen, fuel).0.cache,
            ..v
        }),
    decreases fuel,
{
    if fuel > 0 {
        let (v1, fat) = crate::exfat::volume::fat_read(v, cluster);
        match fat {
            Ok(FatValue::Next(next)) => {
                lemma_fat_count_frame(v1, next, seen + 1, (fuel - 1) as nat);
            },
            _ => {},
        }
    }
}

/// Linking clusters leaves the layout and the bitmap alone.
pub proof fn lemma_linked_run_frame(v: VolumeState, cluster: ClusterID, n: nat)
    ensures
        linked_run(v, cluster, n).0.super_block == v.super_block,
        linked_run(v, cluster, n).0.bitmap_start == v.bitmap_start,
        linked_run(v, cluster, n).0.faults == v.faults,
        linked_run(v, cluster, n).0.bits == v.bits,
        linked_run(v, cluster, n).0.disk.len() == v.disk.len(),
    decreases n,
{
    if n > 0 {
        let value = if n == 1 {
            FatValue::EndOfChain
        } else {
            FatValue::Next((cluster + 1) as u32)
        };
        let (v1, r) = crate::exfat::volume::fat_write(v, cluster, value);
        if r is Ok {
            lemma_linked_run_frame(v1, (cluster + 1) as u32, (n - 1) as nat);
        }
    }
}

/// Taking clusters leaves the layout alone.
pub proof fn lemma_clusters_appended_frame(
    v: VolumeState,
    chain: ExfatChain,
    tail: Option<ClusterID>,
    n: nat,
)
    ensures
        clusters_appended(v, chain, tail, n).0.super_block == v.super_block,
        clusters_appended(v, chain, tail, n).0.bitmap_start == v.bitmap_start,
        clusters_appended(v, chain, tail, n).0.faults == v.faults,
        clusters_appended(v, chain, tail, n).0.disk.len() == v.disk.len(),
        clusters_appended(v, chain, tail, n).0.bits.len() == v.bits.len(),
    decreases n,
{
    if n > 0 {
        crate::exfat::bitmap::lemma_first_free_run(v.bits, EXFAT_RESERVED_CLUSTERS as int, 1);
        let (v1, r) = cluster_taken(v, tail);
        match r {
            Err(_) => {},
            Ok(cluster) => {
                lemma_clusters_appended_frame(
                    v1,
                    ExfatChain {
                        current: if tail is Some {
                            chain.current
                        } else {
                            cluster
                        },
                        num_clusters: (chain.num_clusters + 1) as u32,
                        flags: chain.flags,
                    },
                    Some(cluster),
                    (n - 1) as nat,
                );
            },
        }
    }
}

/// Adding clusters leaves the layout alone.
pub proof fn lemma_chain_extended_frame(v: VolumeState, chain: ExfatChain, n: u32, sync: bool)
    ensures
        chain_extended(v, chain, n, sync).0.super_block == v.super_block,
        chain_extended(v, chain, n, sync).0.disk.len() == v.disk.len(),
        chain_extended(v, chain, n, sync).0.bitmap_start == v.bitmap_start,
        chain_extended(v, chain, n, sync).0.faults == v.faults,
        chain_extended(v, chain, n, sync).0.bits.len() == v.bits.len(),
{
    reveal(chain_grown);
    lemma_clusters_appended_frame(
        v,
        ExfatChain {
            current: EXFAT_FREE_CLUSTER,
            num_clusters: 0,
            flags: (FatChainFlags { bits: ALLOC_POSSIBLE }),
        },
        None,
        n as nat,
    );
    lemma_linked_run_frame(v, chain.current, chain.num_clusters as nat);
    let (v1, chain1, r1) = chain_in_fat(v, chain);
    lemma_fat_walk_frame(v1, chain1.current, (chain1.num_clusters - 1) as nat);
    let (v2, r2) = fat_walk(v1, chain1.current, (chain1.num_clusters - 1) as nat);
    match r2 {
        Err(_) => {},
        Ok(tail) => {
            lemma_clusters_appended_frame(v2, chain1, Some(tail), n as nat);
        },
    }
}

/// Freeing clusters leaves the layout and the disk alone.
pub proof fn lemma_clusters_freed_frame(
    v: VolumeState,
    flags: FatChainFlags,
    cluster: ClusterID,
    n: nat,
)
    ensures
        clusters_freed(v, flags, cluster, n).0.super_block == v.super_block,
        clusters_freed(v, flags, cluster, n).0.bitmap_start == v.bitmap_start,
        clusters_freed(v, flags, cluster, n).0.faults == v.faults,
        clusters_freed(v, flags, cluster, n).0.disk == v.disk,
        clusters_freed(v, flags, cluster, n).0.bits.len() == v.bits.len(),
    decreases n,
{
    if n > 0 {
        lemma_fat_walk_frame(v, cluster, 1);
        let (v1, r1) = if n == 1 {
            (v, Ok(cluster))
        } else {
            chain_cluster(v, ExfatChain { current: cluster, num_clusters: 0, flags }, 1)
        };
        match r1 {
            Err(_) => {},
            Ok(next) => {
                let (v2, r2) = crate::exfat::volume::cluster_marked(v1, cluster, false);
                lemma_clusters_freed_frame(v2, flags, next, (n - 1) as nat);
            },
        }
    }
}

/// Taking clusters away leaves the layout alone.
pub proof fn lemma_chain_shortened_frame(v: VolumeState, chain: ExfatChain, n: u32, sync: bool)
    ensures
        chain_shortened(v, chain, n, sync).0.super_block == v.super_block,
        chain_shortened(v, chain, n, sync).0.disk.len() == v.disk.len(),
        chain_shortened(v, chain, n, sync).0.bitmap_start == v.bitmap_start,
        chain_shortened(v, chain, n, sync).0.faults == v.faults,
        chain_shortened(v, chain, n, sync).0.bits.len() == v.bits.len(),
{
    reveal(chain_cut);
    let keep = (chain.num_clusters - n) as u32;
    lemma_fat_walk_frame(v, chain.current, keep as nat);
    let (v1, r1) = chain_cluster(v, chain, keep);
    match r1 {
        Err(_) => {},
        Ok(start) => {
            lemma_clusters_freed_frame(v1, chain.flags, start, n as nat);
            let (v2, r2) = clusters_freed(v1, chain.flags, start, n as nat);
            lemma_fat_walk_frame(v2, chain.current, (keep - 1) as nat);
        },
    }
}

impl ExfatChain {
    /// The chain that begins at `current`. Where `num_clusters` is not given, the
    /// clusters are counted in the FAT.
    pub fn new(
        volume: &mut Volume,
        current: ClusterID,
        num_clusters: Option<u32>,
        flags: FatChainFlags,
    ) -> (result: Result<ExfatChain, Errno>)
        requires
            old(volume).wf(),
        ensures
            final(volume).wf(),
            (final(volume)@, result) == chain_new(old(volume)@, current, num_clusters, flags),
            final(volume)@.super_block == old(volume)@.super_block,
    {
        proof {
            lemma_fat_count_frame(
                volume@,
                current,
                0,
                volume@.super_block.num_clusters as nat,
            );
        }
        if !volume.is_valid_cluster(current) {
            return Ok(ExfatChain { current, num_clusters: 0, flags });
        }
        match num_clusters {
            Some(n) => Ok(ExfatChain { current, num_clusters: n, flags }),
            None => {
                if flags.is_contiguous() {
                    return Err(Errno::EIO);
                }
                match count_clusters(volume, current) {
                    Err(e) => Err(e),
                    Ok(n) => Ok(ExfatChain { current, num_clusters: n, flags }),
                }
            },
        }
    }

    /// Whether the first cluster can be one of the volume.
    pub fn is_current_cluster_valid(&self, volume: &Volume) -> (result: bool)
        ensures
            result == crate::exfat::volume::valid_cluster(
                volume@.super_block,
                self.current as int,
            ),
    {
        volume.is_valid_cluster(self.current)
    }

    /// The first cluster.
    pub fn cluster_id(&self) -> (cluster: ClusterID)
        ensures
            cluster == self.current,
    {
        self.current
    }

    /// The number of the cluster that lies `steps` clusters behind the first.
    pub fn cluster_at(&self, volume: &mut Volume, steps: u32) -> (result: Result<ClusterID, Errno>)
        requires
            old(volume).wf(),
        ensures
            final(volume).wf(),
            (final(volume)@, result) == chain_cluster(old(volume)@, *self, steps),
            final(volume)@.super_block == old(volume)@.super_block,
    {
        proof {
            lemma_fat_walk_frame(volume@, self.current, steps as nat);
        }
        if self.flags.is_contiguous() {
            if steps <= u32::MAX - self.current {
                Ok(self.current + steps)
            } else {
                Err(Errno::EIO)
            }
        } else {
            follow_fat(volume, self.current, steps)
        }
    }

    /// The rest of the chain behind its first `steps` clusters.
    pub fn walk(&self, volume: &mut Volume, steps: u32) -> (result: Result<ExfatChain, Errno>)
        requires
            old(volume).wf(),
        ensures
            final(volume).wf(),
            (final(volume)@, result) == chain_walk(old(volume)@, *self, steps),
            final(volume)@.super_block == old(volume)@.super_block,
    {
        match self.cluster_at(volume, steps) {
            Err(e) => Err(e),
            Ok(cluster) => Ok(
                ExfatChain {
                    current: cluster,
                    num_clusters: if steps <= self.num_clusters {
                        self.num_clusters - steps
                    } else {
                        0
                    },
                    flags: self.flags,
                },
            ),
        }
    }

    /// The place where the byte with the number `offset` lies: the rest of the chain
    /// from its cluster on, and the offset in that cluster.
    pub fn walk_to_cluster_at_offset(&self, volume: &mut Volume, offset: usize) -> (result: Result<
        ExfatChainPosition,
        Errno,
    >)
        requires
            old(volume).wf(),
        ensures
            final(volume).wf(),
            (final(volume)@, result) == chain_walk_to_offset(old(volume)@, *self, offset),
            final(volume)@.super_block == old(volume)@.super_block,
    {
        let cluster_size: usize = volume.cluster_size();
        let steps: u32 = (offset / cluster_size) as u32;
        match self.walk(volume, steps) {
            Err(e) => Err(e),
            Ok(rest) => Ok((rest, offset % cluster_size)),
        }
    }

    /// Adds `n` clusters to the end of the chain, and writes the bitmap to the disk where
    /// `sync` is set.
    pub fn extend_clusters(&mut self, volume: &mut Volume, n: u32, sync: bool) -> (result: Result<
        (),
        Errno,
    >)
        requires
            old(volume).wf(),
        ensures
            final(volume).wf(),
            (final(volume)@, *final(self), result) == chain_extended(
                old(volume)@,
                *old(self),
                n,
                sync,
            ),
            final(volume)@.super_block == old(volume)@.super_block,
            sync && result is Ok && crate::exfat::volume::bitmap_complete(old(volume)@)
                ==> crate::exfat::volume::bitmap_stored(
                final(volume)@,
                final(volume)@.bitmap_start,
            ) == Ok::<Seq<bool>, Errno>(final(volume)@.bits),
    {
        proof {
            lemma_chain_extended_frame(volume@, *self, n, sync);
        }
        let result: Result<(), Errno> = self.grow(volume, n);
        proof {
            if sync && crate::exfat::volume::bitmap_synced((volume@, result), sync).1 is Ok
                && crate::exfat::volume::bitmap_complete(volume@) {
                crate::exfat::volume::law_bitmap_written(volume@);
            }
        }
        volume.sync_bitmap(result, sync)
    }

    /// Adds `n` clusters to the end of the chain.
    fn grow(&mut self, volume: &mut Volume, n: u32) -> (result: Result<(), Errno>)
        requires
            old(volume).wf(),
        ensures
            final(volume).wf(),
            (final(volume)@, *final(self), result) == chain_grown(old(volume)@, *old(self), n),
    {
        reveal(chain_grown);
        if n == 0 {
            return Ok(());
        }
        if n > volume.free_clusters() || n > u32::MAX - self.num_clusters {
            return Err(Errno::ENOSPC);
        }
        if self.num_clusters == 0 || !self.is_current_cluster_valid(volume) {
            self.current = EXFAT_FREE_CLUSTER;
            self.num_clusters = 0;
            self.flags = FatChainFlags::alloc_possible();
            return self.append(volume, None, n);
        }
        match self.enter_in_fat(volume) {
            Err(e) => {
                return Err(e);
            },
            Ok(_) => {},
        }
        match follow_fat(volume, self.current, self.num_clusters - 1) {
            Err(e) => Err(e),
            Ok(tail) => self.append(volume, Some(tail), n),
        }
    }

    /// Has the FAT link the clusters of the chain.
    fn enter_in_fat(&mut self, volume: &mut Volume) -> (result: Result<(), Errno>)
        requires
            old(volume).wf(),
        ensures
            final(volume).wf(),
            (final(volume)@, *final(self), result) == chain_in_fat(old(volume)@, *old(self)),
            final(self).num_clusters == old(self).num_clusters,
    {
        if !self.flags.is_contiguous() {
            return Ok(());
        }
        if self.num_clusters > u32::MAX - self.current {
            return Err(Errno::EIO);
        }
        let ghost total = linked_run(volume@, self.current, self.num_clusters as nat);
        let mut i: u32 = 0;
        while i < self.num_clusters
            invariant
                volume.wf(),
                i <= self.num_clusters,
                self.current + self.num_clusters <= u32::MAX,
                *self == *old(self),
                self.flags.contiguous(),
                total == linked_run(old(volume)@, self.current, self.num_clusters as nat),
                total == linked_run(
                    volume@,
                    (self.current + i) as u32,
                    (self.num_clusters - i) as nat,
                ),
            decreases self.num_clusters - i,
        {
            let cluster: u32 = self.current + i;
            let value: FatValue = if i + 1 == self.num_clusters {
                FatValue::EndOfChain
            } else {
                FatValue::Next(cluster + 1)
            };
            match volume.write_next_fat(cluster, value) {
                Err(e) => {
                    return Err(e);
                },
                Ok(_) => {},
            }
            i = i + 1;
        }
        self.flags = FatChainFlags::alloc_possible();
        Ok(())
    }

    /// Takes `n` free clusters for the chain, whose last cluster is `tail`.
    fn append(&mut self, volume: &mut Volume, tail: Option<ClusterID>, n: u32) -> (result: Result<
        (),
        Errno,
    >)
        requires
            old(volume).wf(),
            old(self).num_clusters + n <= u32::MAX,
        ensures
            final(volume).wf(),
            (final(volume)@, *final(self), result) == clusters_appended(
                old(volume)@,
                *old(self),
                tail,
                n as nat,
            ),
    {
        let ghost total = clusters_appended(volume@, *self, tail, n as nat);
        let mut last: Option<ClusterID> = tail;
        let mut i: u32 = 0;
        while i < n
            invariant
                volume.wf(),
                i <= n,
                self.num_clusters + (n - i) <= u32::MAX,
                total == clusters_appended(old(volume)@, *old(self), tail, n as nat),
                total == clusters_appended(volume@, *self, last, (n - i) as nat),
            decreases n - i,
        {
            match take_cluster(volume, last) {
                Err(e) => {
                    return Err(e);
                },
                Ok(cluster) => {
                    if last.is_none() {
                        self.current = cluster;
                    }
                    self.num_clusters = self.num_clusters + 1;
                    last = Some(cluster);
                },
            }
            i = i + 1;
        }
        Ok(())
    }

    /// Takes the last `n` clusters away from the chain, and writes the bitmap to the disk
    /// where `sync` is set.
    pub fn remove_clusters_from_tail(&mut self, volume: &mut Volume, n: u32, sync: bool) -> (result:
        Result<(), Errno>)
        requires
            old(volume).wf(),
        ensures
            final(volume).wf(),
            (final(volume)@, *final(self), result) == chain_shortened(
                old(volume)@,
                *old(self),
                n,
                sync,
            ),
            final(volume)@.super_block == old(volume)@.super_block,
            sync && result is Ok && crate::exfat::volume::bitmap_complete(old(volume)@)
                ==> crate::exfat::volume::bitmap_stored(
                final(volume)@,
                final(volume)@.bitmap_start,
            ) == Ok::<Seq<bool>, Errno>(final(volume)@.bits),
    {
        proof {
            lemma_chain_shortened_frame(volume@, *self, n, sync);
        }
        let result: Result<(), Errno> = self.cut(volume, n);
        proof {
            if sync && crate::exfat::volume::bitmap_synced((volume@, result), sync).1 is Ok
                && crate::exfat::volume::bitmap_complete(volume@) {
                crate::exfat::volume::law_bitmap_written(volume@);
            }
        }
        volume.sync_bitmap(result, sync)
    }

    /// Takes the last `n` clusters away from the chain.
    fn cut(&mut self, volume: &mut Volume, n: u32) -> (result: Result<(), Errno>)
        requires
            old(volume).wf(),
        ensures
            final(volume).wf(),
            (final(volume)@, *final(self), result) == chain_cut(old(volume)@, *old(self), n),
    {
        reveal(chain_cut);
        if n > self.num_clusters {
            return Err(Errno::EINVAL);
        }
        if n == 0 {
            return Ok(());
        }
        let keep: u32 = self.num_clusters - n;
        let start: ClusterID = match self.cluster_at(volume, keep) {
            Err(e) => {
                return Err(e);
            },
            Ok(cluster) => cluster,
        };
        match free_clusters(volume, self.flags, start, n) {
            Err(e) => {
                return Err(e);
            },
            Ok(_) => {},
        }
        if keep == 0 {
            self.current = EXFAT_FREE_CLUSTER;
        } else if !self.flags.is_contiguous() {
            let tail: ClusterID = match follow_fat(volume, self.current, keep - 1) {
                Err(e) => {
                    return Err(e);
                },
                Ok(cluster) => cluster,
            };
            match volume.write_next_fat(tail, FatValue::EndOfChain) {
                Err(e) => {
                    return Err(e);
                },
                Ok(_) => {},
            }
        }
        self.num_clusters = keep;
        Ok(())
    }
}

/// Follows the FAT `steps` times from `cluster` on.
fn follow_fat(volume: &mut Volume, cluster: ClusterID, steps: u32) -> (result: Result<
    ClusterID,
    Errno,
>)
    requires
        old(volume).wf(),
    ensures
        final(volume).wf(),
        (final(volume)@, result) == fat_walk(old(volume)@, cluster, steps as nat),
{
    let ghost total = fat_walk(volume@, cluster, steps as nat);
    let mut here: ClusterID = cluster;
    let mut left: u32 = steps;
    while left > 0
        invariant
            volume.wf(),
            total == fat_walk(old(volume)@, cluster, steps as nat),
            total == fat_walk(volume@, here, left as nat),
        decreases left,
    {
        match volume.read_next_fat(here) {
            Err(e) => {
                return Err(e);
            },
            Ok(FatValue::Next(next)) => {
                here = next;
            },
            Ok(_) => {
                return Err(Errno::EIO);
            },
        }
        left = left - 1;
    }
    Ok(here)
}

/// Counts the clusters that the FAT links from `cluster` on.
fn count_clusters(volume: &mut Volume, cluster: ClusterID) -> (result: Result<u32, Errno>)
    requires
        old(volume).wf(),
    ensures
        final(volume).wf(),
        ({
            let (v, r) = fat_count(
                old(volume)@,
                cluster,
                0,
                old(volume)@.super_block.num_clusters as nat,
            );
            &&& final(volume)@ == v
            &&& result == (match r {
                Ok(n) => Ok::<u32, Errno>(n as u32),
                Err(e) => Err::<u32, Errno>(e),
            })
        }),
{
    let limit: u32 = volume.super_block().num_clusters;
    let ghost total = fat_count(volume@, cluster, 0, limit as nat);
    let mut here: ClusterID = cluster;
    let mut seen: u32 = 0;
    while seen < limit
        invariant
            volume.wf(),
            seen <= limit,
            limit == old(volume)@.super_block.num_clusters,
            total == fat_count(old(volume)@, cluster, 0, limit as nat),
            total == fat_count(volume@, here, seen as nat, (limit - seen) as nat),
        decreases limit - seen,
    {
        match volume.read_next_fat(here) {
            Err(e) => {
                return Err(e);
            },
            Ok(FatValue::Next(next)) => {
                here = next;
            },
            Ok(_) => {
                return Ok(seen + 1);
            },
        }
        seen = seen + 1;
    }
    Err(Errno::EIO)
}

/// Takes the first free cluster, and links it behind `tail` where there is one.
fn take_cluster(volume: &mut Volume, tail: Option<ClusterID>) -> (result: Result<
    ClusterID,
    Errno,
>)
    requires
        old(volume).wf(),
    ensures
        final(volume).wf(),
        (final(volume)@, result) == cluster_taken(old(volume)@, tail),
{
    let cluster: ClusterID = match volume.first_free_cluster() {
        None => {
            return Err(Errno::ENOSPC);
        },
        Some(found) => found,
    };
    let _ = volume.mark_cluster(cluster, true);
    match volume.write_next_fat(cluster, FatValue::EndOfChain) {
        Err(e) => {
            return Err(e);
        },
        Ok(_) => {},
    }
    match tail {
        None => Ok(cluster),
        Some(t) => match volume.write_next_fat(t, FatValue::Next(cluster)) {
            Err(e) => Err(e),
            Ok(_) => Ok(cluster),
        },
    }
}

/// Frees `n` clusters from `cluster` on.
fn free_clusters(volume: &mut Volume, flags: FatChainFlags, cluster: ClusterID, n: u32) -> (result:
    Result<(), Errno>)
    requires
        old(volume).wf(),
    ensures
        final(volume).wf(),
        (final(volume)@, result) == clusters_freed(old(volume)@, flags, cluster, n as nat),
{
    let ghost total = clusters_freed(volume@, flags, cluster, n as nat);
    let mut here: ClusterID = cluster;
    let mut left: u32 = n;
    while left > 0
        invariant
            volume.wf(),
            total == clusters_freed(old(volume)@, flags, cluster, n as nat),
            total == clusters_freed(volume@, flags, here, left as nat),
        decreases left,
    {
        let mut next: ClusterID = here;
        if left > 1 {
            let chain: ExfatChain = ExfatChain { current: here, num_clusters: 0, flags };
            match chain.cluster_at(volume, 1) {
                Err(e) => {
                    return Err(e);
                },
                Ok(behind) => {
                    next = behind;
                },
            }
        }
        match volume.mark_cluster(here, false) {
            Err(e) => {
                return Err(e);
            },
            Ok(_) => {},
        }
        here = next;
        left = left - 1;
    }
    Ok(())
}

} // verus!
