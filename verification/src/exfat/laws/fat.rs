//! The FAT: what was written is read, from the disk and from memory.

use vstd::prelude::*;
use crate::errno::Errno;
use crate::exfat::constants::EXFAT_RESERVED_CLUSTERS;
use crate::exfat::fat::{
    ClusterID, FatValue, EXFAT_BAD_CLUSTER, EXFAT_EOF_CLUSTER, EXFAT_FREE_CLUSTER, FAT_ENTRY_SIZE,
};
use crate::exfat::disk::Faults;
use crate::exfat::volume::VolumeState;

verus! {

/// Whether the FAT has an entry for a cluster.
pub open spec fn real_cluster(v: VolumeState, cluster: int) -> bool {
    EXFAT_RESERVED_CLUSTERS <= cluster < v.super_block.num_clusters
}

/// Where on the disk the FAT that begins at a sector ends.
pub open spec fn fat_end(v: VolumeState, start_sector: u64) -> int {
    start_sector * v.super_block.sector_size + v.super_block.num_clusters * FAT_ENTRY_SIZE
}

/// The FATs lie on the disk, before the clusters, and do not overlap, and no access to
/// the disk fails.
pub open spec fn fat_layout(v: VolumeState) -> bool {
    let sb = v.super_block;
    let data = sb.data_start_sector * sb.sector_size;
    &&& sb.wf()
    &&& v.faults == Faults::none()
    &&& fat_end(v, sb.fat1_start_sector) <= data <= v.disk.len()
    &&& fat_end(v, sb.fat2_start_sector) <= data
    &&& sb.fat1_start_sector == sb.fat2_start_sector || fat_end(v, sb.fat1_start_sector)
        <= sb.fat2_start_sector * sb.sector_size || fat_end(v, sb.fat2_start_sector)
        <= sb.fat1_start_sector * sb.sector_size
}

/// Whether a value is stored as something that means the value.
pub open spec fn storable(value: FatValue) -> bool {
    value matches FatValue::Next(next) ==> next != EXFAT_BAD_CLUSTER && next != EXFAT_FREE_CLUSTER
        && next != EXFAT_EOF_CLUSTER
}

/// The entries that are kept in memory are those on the disk.
pub open spec fn coherent(v: VolumeState) -> bool {
    forall|j: int|
        0 <= j < v.cache.len() ==> entry_coherent(v, #[trigger] v.cache[j])
}

/// An entry that is kept in memory is the one on the disk, if the FAT has it.
pub open spec fn entry_coherent(v: VolumeState, entry: (u32, u32)) -> bool {
    real_cluster(v, entry.0 as int) ==> crate::exfat::volume::disk_fat(v, entry.0) == Ok::<
        FatValue,
        Errno,
    >(crate::exfat::fat::fat_value_of(entry.1))
}

/// The FATs are where they should be, and memory and disk agree on them.
pub open spec fn fat_ok(v: VolumeState) -> bool {
    &&& fat_layout(v)
    &&& coherent(v)
}

/// Where the entry of a cluster lies.
pub proof fn lemma_fat_position(v: VolumeState, start_sector: u64, cluster: ClusterID)
    requires
        fat_layout(v),
        start_sector == v.super_block.fat1_start_sector || start_sector
            == v.super_block.fat2_start_sector,
        real_cluster(v, cluster as int),
    ensures
        0 <= crate::exfat::volume::fat_position(v.super_block, start_sector, cluster),
        start_sector * v.super_block.sector_size <= crate::exfat::volume::fat_position(
            v.super_block,
            start_sector,
            cluster,
        ),
        crate::exfat::volume::fat_position(v.super_block, start_sector, cluster) + 4 <= fat_end(
            v,
            start_sector,
        ),
        crate::exfat::volume::fat_position(v.super_block, start_sector, cluster) + 4
            <= v.super_block.data_start_sector * v.super_block.sector_size,
        crate::exfat::volume::fat_position(v.super_block, start_sector, cluster) + 4
            <= v.disk.len(),
{
    assert(0 <= start_sector * v.super_block.sector_size) by (nonlinear_arith);
}

/// Reading what was written gives the bytes; reading elsewhere gives what was there.
pub proof fn lemma_read_after_overwrite(disk: Seq<u8>, at: int, bytes: Seq<u8>, from: int, len: int)
    requires
        0 <= at,
        at + bytes.len() <= disk.len(),
        0 <= from,
        0 <= len,
        from + len <= disk.len(),
    ensures
        from == at && len == bytes.len() ==> crate::bytes::overwritten(
            disk,
            at,
            bytes,
        ).subrange(from, from + len) == bytes,
        (from + len <= at || at + bytes.len() <= from) ==> crate::bytes::overwritten(
            disk,
            at,
            bytes,
        ).subrange(from, from + len) == disk.subrange(from, from + len),
{
    let w = crate::bytes::overwritten(disk, at, bytes);
    if from == at && len == bytes.len() {
        assert(w.subrange(from, from + len) =~= bytes);
    }
    if from + len <= at || at + bytes.len() <= from {
        assert(w.subrange(from, from + len) =~= disk.subrange(from, from + len));
    }
}

/// The number that four bytes hold does not depend on where they stand.
proof fn lemma_le32_of_bytes(x: u32)
    ensures
        crate::bytes::le32(crate::bytes::le32_bytes(x), 0) == x,
{
    let b = crate::bytes::le32_bytes(x);
    assert(b.subrange(0, 4) =~= b);
    crate::bytes::lemma_le32_roundtrip(b, 0, x);
}

/// What is written to the FAT on the disk is there afterwards, and nothing else in the
/// FAT changes.
pub proof fn law_disk_fat_written(v: VolumeState, cluster: ClusterID, value: FatValue)
    requires
        fat_layout(v),
        real_cluster(v, cluster as int),
        storable(value),
    ensures
        ({
            let (disk, r) = crate::exfat::volume::disk_fat_written(v, cluster, value);
            let w = VolumeState { disk, ..v };
            &&& r == Ok::<(), Errno>(())
            &&& disk.len() == v.disk.len()
            &&& crate::exfat::volume::disk_fat(w, cluster) == Ok::<FatValue, Errno>(value)
            &&& forall|c: ClusterID|
                real_cluster(v, c as int) && c != cluster ==> #[trigger]
                crate::exfat::volume::disk_fat(w, c) == crate::exfat::volume::disk_fat(v, c)
            &&& forall|k: int|
                v.super_block.data_start_sector * v.super_block.sector_size <= k < disk.len() ==>
                #[trigger] disk[k] == v.disk[k]
        }),
{
    let sb = v.super_block;
    let raw = crate::exfat::fat::fat_raw_of(value);
    let bytes = crate::bytes::le32_bytes(raw);
    let p1 = crate::exfat::volume::fat_position(sb, sb.fat1_start_sector, cluster);
    let p2 = crate::exfat::volume::fat_position(sb, sb.fat2_start_sector, cluster);
    lemma_fat_position(v, sb.fat1_start_sector, cluster);
    lemma_fat_position(v, sb.fat2_start_sector, cluster);
    lemma_le32_of_bytes(raw);
    crate::exfat::fat::law_fat_value_roundtrip(value);
    let d1 = crate::bytes::overwritten(v.disk, p1, bytes);
    lemma_read_after_overwrite(v.disk, p1, bytes, p1, 4);
    lemma_read_after_overwrite(d1, p2, bytes, p1, 4);
    let (disk, r) = crate::exfat::volume::disk_fat_written(v, cluster, value);
    let w = VolumeState { disk, ..v };
    assert forall|c: ClusterID| real_cluster(v, c as int) && c != cluster implies #[trigger]
    crate::exfat::volume::disk_fat(w, c) == crate::exfat::volume::disk_fat(v, c) by {
        let q = crate::exfat::volume::fat_position(sb, sb.fat1_start_sector, c);
        lemma_fat_position(v, sb.fat1_start_sector, c);
        lemma_read_after_overwrite(v.disk, p1, bytes, q, 4);
        lemma_read_after_overwrite(d1, p2, bytes, q, 4);
    }
}

/// What is written to the FAT is read afterwards, and nothing else in the FAT changes.
pub proof fn law_fat_read_after_write(v: VolumeState, cluster: ClusterID, value: FatValue)
    requires
        fat_layout(v),
        real_cluster(v, cluster as int),
        storable(value),
    ensures
        ({
            let (w, r) = crate::exfat::volume::fat_write(v, cluster, value);
            &&& r == Ok::<(), Errno>(())
            &&& crate::exfat::volume::fat_read(w, cluster).1 == Ok::<FatValue, Errno>(value)
            &&& crate::exfat::volume::disk_fat(w, cluster) == Ok::<FatValue, Errno>(value)
            &&& forall|c: ClusterID|
                real_cluster(v, c as int) && c != cluster ==> #[trigger]
                crate::exfat::volume::disk_fat(w, c) == crate::exfat::volume::disk_fat(v, c)
        }),
{
    law_disk_fat_written(v, cluster, value);
    let raw = crate::exfat::fat::fat_raw_of(value);
    let (disk, r) = crate::exfat::volume::disk_fat_written(v, cluster, value);
    let w0 = VolumeState { disk, ..v };
    let (w, _) = crate::exfat::volume::fat_write(v, cluster, value);
    crate::exfat::fat::law_fat_value_roundtrip(value);
    crate::exfat::fat_cache::lemma_cache_put_found(
        v.cache,
        crate::exfat::constants::LRU_CACHE_SIZE as nat,
        cluster,
        raw,
    );
    assert forall|c: ClusterID| crate::exfat::volume::disk_fat(w, c)
        == #[trigger] crate::exfat::volume::disk_fat(w0, c) by {}
    assert forall|c: ClusterID| real_cluster(v, c as int) && c != cluster implies #[trigger]
    crate::exfat::volume::disk_fat(w, c) == crate::exfat::volume::disk_fat(v, c) by {
        assert(crate::exfat::volume::disk_fat(w, c) == crate::exfat::volume::disk_fat(w0, c));
    }
}

/// Where memory and disk agree, they still agree after the FAT was read, whatever was
/// looked for.
pub proof fn law_fat_read_any(v: VolumeState, cluster: ClusterID)
    requires
        fat_layout(v),
        coherent(v),
    ensures
        ({
            let (w, r) = crate::exfat::volume::fat_read(v, cluster);
            &&& w == (VolumeState { cache: w.cache, ..v })
            &&& fat_layout(w)
            &&& coherent(w)
        }),
{
    let (w, r) = crate::exfat::volume::fat_read(v, cluster);
    match crate::exfat::fat_cache::cache_value(v.cache, cluster) {
        Some(raw) => {
            assert forall|k: int| 0 <= k < w.cache.len() implies entry_coherent(
                w,
                #[trigger] w.cache[k],
            ) by {
                crate::exfat::fat_cache::lemma_cache_touched_entries(v.cache, cluster, k);
                let m = choose|m: int| 0 <= m < v.cache.len() && v.cache[m] == w.cache[k];
                assert(entry_coherent(v, v.cache[m]));
            }
        },
        None => {
            if crate::exfat::volume::disk_fat(v, cluster) is Ok {
                let value = crate::exfat::volume::disk_fat(v, cluster)->Ok_0;
                let raw = crate::exfat::fat::fat_raw_of(value);
                let q = crate::exfat::disk::disk_read(
                    v.disk,
                    v.faults,
                    crate::exfat::volume::fat_position(
                        v.super_block,
                        v.super_block.fat1_start_sector,
                        cluster,
                    ),
                    4,
                );
                crate::exfat::fat::law_fat_raw_roundtrip(crate::bytes::le32(q->Ok_0, 0));
                assert forall|k: int| 0 <= k < w.cache.len() implies entry_coherent(
                    w,
                    #[trigger] w.cache[k],
                ) by {
                    crate::exfat::fat_cache::lemma_cache_put_entries(
                        v.cache,
                        crate::exfat::constants::LRU_CACHE_SIZE as nat,
                        cluster,
                        raw,
                        k,
                    );
                    if k > 0 {
                        let m = choose|m: int| 0 <= m < v.cache.len() && v.cache[m] == w.cache[k];
                        assert(entry_coherent(v, v.cache[m]));
                    }
                }
            }
        },
    }
}

/// Where memory and disk agree, reading the FAT gives what is on the disk, and they
/// still agree afterwards.
pub proof fn law_fat_read_coherent(v: VolumeState, cluster: ClusterID)
    requires
        fat_layout(v),
        coherent(v),
        real_cluster(v, cluster as int),
    ensures
        ({
            let (w, r) = crate::exfat::volume::fat_read(v, cluster);
            &&& r is Ok
            &&& r == crate::exfat::volume::disk_fat(v, cluster)
            &&& w == (VolumeState { cache: w.cache, ..v })
            &&& fat_layout(w)
            &&& coherent(w)
        }),
{
    law_fat_read_any(v, cluster);
    lemma_fat_position(v, v.super_block.fat1_start_sector, cluster);
    if crate::exfat::fat_cache::cache_value(v.cache, cluster) is Some {
        let raw = crate::exfat::fat_cache::cache_value(v.cache, cluster)->Some_0;
        crate::exfat::fat_cache::lemma_cache_value_some(v.cache, cluster);
        let j = choose|j: int| 0 <= j < v.cache.len() && v.cache[j] == (cluster, raw);
        assert(entry_coherent(v, v.cache[j]));
    }
}

/// Where memory and disk agree, they still agree after the FAT was written.
pub proof fn law_fat_write_coherent(v: VolumeState, cluster: ClusterID, value: FatValue)
    requires
        fat_layout(v),
        coherent(v),
        real_cluster(v, cluster as int),
        storable(value),
    ensures
        ({
            let (w, r) = crate::exfat::volume::fat_write(v, cluster, value);
            &&& r == Ok::<(), Errno>(())
            &&& w == (VolumeState { disk: w.disk, cache: w.cache, ..v })
            &&& fat_layout(w)
            &&& coherent(w)
        }),
{
    law_fat_read_after_write(v, cluster, value);
    law_disk_fat_written(v, cluster, value);
    let (w, r) = crate::exfat::volume::fat_write(v, cluster, value);
    crate::exfat::fat::law_fat_value_roundtrip(value);
    assert forall|k: int| 0 <= k < w.cache.len() implies entry_coherent(
        w,
        #[trigger] w.cache[k],
    ) by {
        crate::exfat::fat_cache::lemma_cache_put_entries(
            v.cache,
            crate::exfat::constants::LRU_CACHE_SIZE as nat,
            cluster,
            crate::exfat::fat::fat_raw_of(value),
            k,
        );
        if k > 0 {
            let m = choose|m: int| 0 <= m < v.cache.len() && v.cache[m] == w.cache[k];
            assert(entry_coherent(v, v.cache[m]));
        }
    }
}

/// A volume whose boot sector was accepted has its FATs before its clusters, as far as
/// the disk reaches that far and no access to it fails.
pub proof fn law_boot_gives_layout(v: VolumeState)
    requires
        crate::exfat::volume::boot_result(v.disk, v.faults) == Ok::<
            crate::exfat::super_block::ExfatSuperBlock,
            Errno,
        >(v.super_block),
        v.faults == Faults::none(),
        v.super_block.data_start_sector * v.super_block.sector_size <= v.disk.len(),
    ensures
        fat_layout(v),
{
    let sb = v.super_block;
    let b = v.disk.subrange(0, 512);
    crate::exfat::super_block::lemma_super_block_wf(b);
    let q = sb.sector_size as int;
    let f = sb.fat1_start_sector as int;
    let n = sb.num_fat_sectors as int;
    let d = sb.data_start_sector as int;
    let m = crate::exfat::super_block::boot_num_fats(b) as int;
    assert(m == 1 || m == 2);
    assert(n * m == n || n * m == 2 * n && m == 2) by (nonlinear_arith)
        requires
            m == 1 || m == 2,
    ;
    assert(f + n * m <= d);
    assert((f + n) * q == f * q + n * q) by (nonlinear_arith);
    assert((f + n) * q <= d * q) by (nonlinear_arith)
        requires
            f + n <= d,
            0 <= q,
    ;
    if sb.fat1_start_sector != sb.fat2_start_sector {
        assert((f + 2 * n) * q <= d * q) by (nonlinear_arith)
            requires
                f + 2 * n <= d,
                0 <= q,
        ;
        assert((f + 2 * n) * q == (f + n) * q + n * q) by (nonlinear_arith);
    }
}

/// Whether the entry of a cluster lies on the disk, in one place or in two that do not
/// overlap.
pub open spec fn entry_placed(v: VolumeState, cluster: ClusterID) -> bool {
    let sb = v.super_block;
    let p1 = crate::exfat::volume::fat_position(sb, sb.fat1_start_sector, cluster);
    let p2 = crate::exfat::volume::fat_position(sb, sb.fat2_start_sector, cluster);
    &&& crate::exfat::volume::valid_cluster(sb, cluster as int)
    &&& v.faults == Faults::none()
    &&& p1 + 4 <= v.disk.len()
    &&& p2 + 4 <= v.disk.len()
    &&& p1 == p2 || p1 + 4 <= p2 || p2 + 4 <= p1
}

/// Whether the entry of a cluster lies apart from what is written for the other one.
pub open spec fn entry_apart(v: VolumeState, cluster: ClusterID, other: ClusterID) -> bool {
    let sb = v.super_block;
    let p = crate::exfat::volume::fat_position(sb, sb.fat1_start_sector, cluster);
    let q = crate::exfat::volume::fat_position(sb, sb.fat2_start_sector, other);
    &&& cluster != other
    &&& p + 4 <= q || q + 4 <= p
}

/// Whether the entry of a cluster says a value, on the disk and, where it is kept there,
/// in memory.
pub open spec fn entry_is(v: VolumeState, cluster: ClusterID, value: FatValue) -> bool {
    &&& crate::exfat::volume::disk_fat(v, cluster) == Ok::<FatValue, Errno>(value)
    &&& forall|j: int|
        0 <= j < v.cache.len() && (#[trigger] v.cache[j]).0 == cluster
            ==> crate::exfat::fat::fat_value_of(v.cache[j].1) == value
}

/// A value that is written to the entry of any cluster that the volume admits is what the
/// entry says afterwards.
pub proof fn law_entry_written(v: VolumeState, cluster: ClusterID, value: FatValue)
    requires
        entry_placed(v, cluster),
        storable(value),
    ensures
        crate::exfat::volume::disk_fat_written(v, cluster, value).1 == Ok::<(), Errno>(()),
        crate::exfat::volume::fat_write(v, cluster, value).1 == Ok::<(), Errno>(()),
        entry_is(crate::exfat::volume::fat_write(v, cluster, value).0, cluster, value),
{
    let sb = v.super_block;
    let raw = crate::exfat::fat::fat_raw_of(value);
    let bytes = crate::bytes::le32_bytes(raw);
    let p1 = crate::exfat::volume::fat_position(sb, sb.fat1_start_sector, cluster);
    let p2 = crate::exfat::volume::fat_position(sb, sb.fat2_start_sector, cluster);
    lemma_position(sb, sb.fat1_start_sector, cluster);
    lemma_position(sb, sb.fat2_start_sector, cluster);
    lemma_le32_of_bytes(raw);
    crate::exfat::fat::law_fat_value_roundtrip(value);
    let d1 = crate::bytes::overwritten(v.disk, p1, bytes);
    lemma_read_after_overwrite(v.disk, p1, bytes, p1, 4);
    lemma_read_after_overwrite(d1, p2, bytes, p1, 4);
    let w = crate::exfat::volume::fat_write(v, cluster, value).0;
    assert forall|j: int| 0 <= j < w.cache.len() && (#[trigger] w.cache[j]).0 == cluster implies
        crate::exfat::fat::fat_value_of(w.cache[j].1) == value by {
        crate::exfat::fat_cache::lemma_cache_put_entries(
            v.cache,
            crate::exfat::constants::LRU_CACHE_SIZE as nat,
            cluster,
            raw,
            j,
        );
    }
}

/// No entry lies before the disk begins.
proof fn lemma_position(
    sb: crate::exfat::super_block::ExfatSuperBlock,
    start_sector: u64,
    cluster: ClusterID,
)
    ensures
        0 <= crate::exfat::volume::fat_position(sb, start_sector, cluster),
{
    assert(0 <= start_sector * sb.sector_size) by (nonlinear_arith);
}

/// An entry is read as what it says, however often it is read, and no matter which entries
/// are read besides.
pub proof fn law_entry_read(
    v: VolumeState,
    cluster: ClusterID,
    value: FatValue,
    other: ClusterID,
)
    requires
        entry_is(v, cluster, value),
    ensures
        crate::exfat::volume::fat_read(v, cluster).1 == Ok::<FatValue, Errno>(value),
        entry_is(crate::exfat::volume::fat_read(v, other).0, cluster, value),
{
    if crate::exfat::fat_cache::cache_value(v.cache, cluster) is Some {
        let raw = crate::exfat::fat_cache::cache_value(v.cache, cluster)->Some_0;
        crate::exfat::fat_cache::lemma_cache_value_some(v.cache, cluster);
        let j = choose|j: int| 0 <= j < v.cache.len() && v.cache[j] == (cluster, raw);
        assert(v.cache[j].0 == cluster);
    }
    let w = crate::exfat::volume::fat_read(v, other).0;
    assert forall|j: int| 0 <= j < w.cache.len() && (#[trigger] w.cache[j]).0 == cluster implies
        crate::exfat::fat::fat_value_of(w.cache[j].1) == value by {
        match crate::exfat::fat_cache::cache_value(v.cache, other) {
            Some(_) => {
                crate::exfat::fat_cache::lemma_cache_touched_entries(v.cache, other, j);
                let k = choose|k: int| 0 <= k < v.cache.len() && v.cache[k] == w.cache[j];
                assert(v.cache[k].0 == cluster);
            },
            None => match crate::exfat::volume::disk_fat(v, other) {
                Err(_) => {},
                Ok(found) => {
                    crate::exfat::fat_cache::lemma_cache_put_entries(
                        v.cache,
                        crate::exfat::constants::LRU_CACHE_SIZE as nat,
                        other,
                        crate::exfat::fat::fat_raw_of(found),
                        j,
                    );
                    if j > 0 {
                        let k = choose|k: int| 0 <= k < v.cache.len() && v.cache[k] == w.cache[j];
                        assert(v.cache[k].0 == cluster);
                    } else {
                        lemma_disk_value(v, other);
                    }
                },
            },
        }
    }
}

/// What the FAT on the disk says is stored as something that means it.
proof fn lemma_disk_value(v: VolumeState, cluster: ClusterID)
    ensures
        crate::exfat::volume::disk_fat(v, cluster) matches Ok(found)
            ==> crate::exfat::fat::fat_value_of(crate::exfat::fat::fat_raw_of(found)) == found,
{
}

/// An entry says what it said when the entry of another cluster is written.
pub proof fn law_entry_kept(
    v: VolumeState,
    cluster: ClusterID,
    value: FatValue,
    other: ClusterID,
    written: FatValue,
)
    requires
        entry_is(v, cluster, value),
        entry_apart(v, cluster, other),
    ensures
        entry_is(crate::exfat::volume::fat_write(v, other, written).0, cluster, value),
{
    let sb = v.super_block;
    let raw = crate::exfat::fat::fat_raw_of(written);
    let bytes = crate::bytes::le32_bytes(raw);
    let p = crate::exfat::volume::fat_position(sb, sb.fat1_start_sector, cluster);
    let q1 = crate::exfat::volume::fat_position(sb, sb.fat1_start_sector, other);
    let q2 = crate::exfat::volume::fat_position(sb, sb.fat2_start_sector, other);
    lemma_position(sb, sb.fat1_start_sector, cluster);
    lemma_position(sb, sb.fat1_start_sector, other);
    lemma_position(sb, sb.fat2_start_sector, other);
    if q1 + 4 <= v.disk.len() {
        lemma_read_after_overwrite(v.disk, q1, bytes, p, 4);
        let d1 = crate::bytes::overwritten(v.disk, q1, bytes);
        if q2 + 4 <= v.disk.len() {
            lemma_read_after_overwrite(d1, q2, bytes, p, 4);
        }
    }
    let w = crate::exfat::volume::fat_write(v, other, written).0;
    assert forall|j: int| 0 <= j < w.cache.len() && (#[trigger] w.cache[j]).0 == cluster implies
        crate::exfat::fat::fat_value_of(w.cache[j].1) == value by {
        if crate::exfat::volume::fat_write(v, other, written).1 is Ok {
            crate::exfat::fat_cache::lemma_cache_put_entries(
                v.cache,
                crate::exfat::constants::LRU_CACHE_SIZE as nat,
                other,
                raw,
                j,
            );
            let k = choose|k: int| 0 <= k < v.cache.len() && v.cache[k] == w.cache[j];
            assert(v.cache[k].0 == cluster);
        }
    }
}

/// Something that is done with the FAT.
pub enum FatStep {
    /// The entry of a cluster is read.
    Read(ClusterID),
    /// A value is written to the entry of a cluster.
    Write(ClusterID, FatValue),
}

/// The volume after some things were done with its FAT, one after the other.
pub open spec fn after_steps(v: VolumeState, steps: Seq<FatStep>) -> VolumeState
    decreases steps.len(),
{
    if steps.len() == 0 {
        v
    } else {
        let w = match steps[0] {
            FatStep::Read(cluster) => crate::exfat::volume::fat_read(v, cluster).0,
            FatStep::Write(cluster, value) => crate::exfat::volume::fat_write(
                v,
                cluster,
                value,
            ).0,
        };
        after_steps(w, steps.drop_first())
    }
}

/// Whether the entry of a cluster is not written, and those of other clusters that are
/// written are such that the volume admits.
pub open spec fn leave_alone(
    sb: crate::exfat::super_block::ExfatSuperBlock,
    steps: Seq<FatStep>,
    cluster: ClusterID,
) -> bool {
    forall|k: int|
        0 <= k < steps.len() ==> (#[trigger] steps[k] matches FatStep::Write(other, _) ==> other
            != cluster && crate::exfat::volume::valid_cluster(sb, other as int))
}

/// The entries of all clusters that a volume admits lie on the disk and apart from each
/// other, where the disk goes on behind the FATs.
pub proof fn law_entries_lie_apart(v: VolumeState, cluster: ClusterID, other: ClusterID)
    requires
        fat_layout(v),
        v.super_block.data_start_sector * v.super_block.sector_size + FAT_ENTRY_SIZE
            <= v.disk.len(),
        crate::exfat::volume::valid_cluster(v.super_block, cluster as int),
        crate::exfat::volume::valid_cluster(v.super_block, other as int),
    ensures
        entry_placed(v, cluster),
        cluster != other ==> entry_apart(v, cluster, other),
{
}

/// What was written to the entry of a cluster is read, whatever is read and whatever is
/// written to the entries of other clusters in between.
pub proof fn law_fat_remembers(
    v: VolumeState,
    cluster: ClusterID,
    value: FatValue,
    steps: Seq<FatStep>,
)
    requires
        fat_layout(v),
        v.super_block.data_start_sector * v.super_block.sector_size + FAT_ENTRY_SIZE
            <= v.disk.len(),
        crate::exfat::volume::valid_cluster(v.super_block, cluster as int),
        storable(value),
        leave_alone(v.super_block, steps, cluster),
    ensures
        ({
            let (w, r) = crate::exfat::volume::fat_write(v, cluster, value);
            &&& r == Ok::<(), Errno>(())
            &&& crate::exfat::volume::fat_read(after_steps(w, steps), cluster).1 == Ok::<
                FatValue,
                Errno,
            >(value)
        }),
{
    law_entries_lie_apart(v, cluster, cluster);
    law_entry_written(v, cluster, value);
    let w = crate::exfat::volume::fat_write(v, cluster, value).0;
    lemma_steps_keep(w, cluster, value, steps);
    law_entry_read(after_steps(w, steps), cluster, value, cluster);
}

/// What is done with the entries of other clusters leaves an entry as it is.
proof fn lemma_steps_keep(
    v: VolumeState,
    cluster: ClusterID,
    value: FatValue,
    steps: Seq<FatStep>,
)
    requires
        fat_layout(v),
        v.super_block.data_start_sector * v.super_block.sector_size + FAT_ENTRY_SIZE
            <= v.disk.len(),
        crate::exfat::volume::valid_cluster(v.super_block, cluster as int),
        leave_alone(v.super_block, steps, cluster),
        entry_is(v, cluster, value),
    ensures
        entry_is(after_steps(v, steps), cluster, value),
    decreases steps.len(),
{
    if steps.len() > 0 {
        let rest = steps.drop_first();
        assert forall|k: int| 0 <= k < rest.len() implies (#[trigger] rest[k] matches FatStep::Write(
            other,
            _,
        ) ==> other != cluster && crate::exfat::volume::valid_cluster(
            v.super_block,
            other as int,
        )) by {
            assert(rest[k] == steps[k + 1]);
        }
        match steps[0] {
            FatStep::Read(other) => {
                law_entry_read(v, cluster, value, other);
                lemma_steps_keep(
                    crate::exfat::volume::fat_read(v, other).0,
                    cluster,
                    value,
                    rest,
                );
            },
            FatStep::Write(other, written) => {
                law_entries_lie_apart(v, cluster, other);
                law_entry_kept(v, cluster, value, other, written);
                let w = crate::exfat::volume::fat_write(v, other, written).0;
                lemma_steps_keep(w, cluster, value, rest);
            },
        }
    }
}

/// The entry of a cluster that the volume does not admit cannot be read, where none is kept
/// in memory, and trying changes nothing.
pub proof fn law_invalid_cluster(v: VolumeState, cluster: ClusterID)
    requires
        !crate::exfat::volume::valid_cluster(v.super_block, cluster as int),
        crate::exfat::fat_cache::cache_value(v.cache, cluster) is None,
    ensures
        crate::exfat::volume::fat_read(v, cluster) == (v, Err::<FatValue, Errno>(Errno::EIO)),
{
}

/// No more than 1024 FAT entries are kept in memory, and the one that was used last comes first.
pub proof fn law_entries_in_memory(v: VolumeState, cluster: ClusterID, value: FatValue)
    requires
        v.cache.len() <= 1024,
    ensures
        ({
            let (w, r) = crate::exfat::volume::fat_read(v, cluster);
            &&& w.cache.len() <= 1024
            &&& r is Ok ==> 0 < w.cache.len() && w.cache[0].0 == cluster
            &&& r is Err ==> w == v
            &&& w == (VolumeState { cache: w.cache, ..v })
        }),
        ({
            let (w, r) = crate::exfat::volume::fat_write(v, cluster, value);
            &&& w.cache.len() <= 1024
            &&& r is Ok ==> 0 < w.cache.len() && w.cache[0].0 == cluster
            &&& r is Err ==> w.cache == v.cache
            &&& w == (VolumeState { cache: w.cache, disk: w.disk, ..v })
        }),
        v.cache.len() == 1024 && crate::exfat::fat_cache::cache_value(v.cache, cluster) is None
            && crate::exfat::volume::fat_write(v, cluster, value).1 is Ok
            ==> crate::exfat::volume::fat_write(v, cluster, value).0.cache.len() == 1024,
        v.cache.len() < 1024 && crate::exfat::fat_cache::cache_value(v.cache, cluster) is None
            && crate::exfat::volume::fat_write(v, cluster, value).1 is Ok
            ==> crate::exfat::volume::fat_write(v, cluster, value).0.cache.len() == v.cache.len()
            + 1,
{
    let raw = crate::exfat::fat::fat_raw_of(value);
    crate::exfat::fat_cache::law_cache_bounded(v.cache, 1024, cluster, raw);
    if let Ok(read) = crate::exfat::volume::disk_fat(v, cluster) {
        crate::exfat::fat_cache::law_cache_bounded(
            v.cache,
            1024,
            cluster,
            crate::exfat::fat::fat_raw_of(read),
        );
    }
}

} // verus!
