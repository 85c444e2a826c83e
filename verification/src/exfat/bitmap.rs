//! The allocation bitmap.

use core::ops::Range;
use vstd::prelude::*;
use crate::errno::Errno;
use crate::exfat::constants::EXFAT_RESERVED_CLUSTERS;

verus! {

/// Which clusters of the volume are in use.
pub struct ExfatBitmap {
    bits: Vec<bool>,
    free: u32,
}

/// The number of clusters that are not in use.
pub open spec fn count_free(bits: Seq<bool>) -> nat
    decreases bits.len(),
{
    if bits.len() == 0 {
        0
    } else {
        count_free(bits.drop_last()) + (if bits.last() {
            0nat
        } else {
            1nat
        })
    }
}

/// Whether the bitmap has a bit for the cluster.
pub open spec fn has_cluster(bits: Seq<bool>, cluster: int) -> bool {
    EXFAT_RESERVED_CLUSTERS <= cluster < bits.len() + EXFAT_RESERVED_CLUSTERS
}

/// Whether the cluster is in use.
pub open spec fn cluster_used(bits: Seq<bool>, cluster: int) -> bool {
    bits[cluster - EXFAT_RESERVED_CLUSTERS]
}

/// The bitmap in which the cluster is marked.
pub open spec fn with_cluster(bits: Seq<bool>, cluster: int, used: bool) -> Seq<bool> {
    bits.update(cluster - EXFAT_RESERVED_CLUSTERS, used)
}

/// Whether `n` clusters from `cluster` on are there and not in use.
pub open spec fn free_run(bits: Seq<bool>, cluster: int, n: int) -> bool {
    &&& EXFAT_RESERVED_CLUSTERS <= cluster
    &&& cluster + n <= bits.len() + EXFAT_RESERVED_CLUSTERS
    &&& forall|k: int| cluster <= k < cluster + n ==> !#[trigger] cluster_used(bits, k)
}

/// The first cluster, from `start` on, at which `n` free clusters begin.
pub open spec fn first_free_run(bits: Seq<bool>, start: int, n: int) -> Option<int>
    decreases bits.len() + EXFAT_RESERVED_CLUSTERS - start,
{
    if start + n > bits.len() + EXFAT_RESERVED_CLUSTERS || start >= bits.len()
        + EXFAT_RESERVED_CLUSTERS {
        None
    } else if free_run(bits, start, n) {
        Some(start)
    } else {
        first_free_run(bits, start + 1, n)
    }
}

/// The run that is found is free, and none begins before it; where none is found
/// there is none.
pub proof fn lemma_first_free_run(bits: Seq<bool>, start: int, n: int)
    requires
        EXFAT_RESERVED_CLUSTERS <= start,
        0 < n,
    ensures
        match first_free_run(bits, start, n) {
            Some(found) => start <= found && free_run(bits, found, n) && forall|k: int|
                start <= k < found ==> !#[trigger] free_run(bits, k, n),
            None => forall|k: int| start <= k ==> !#[trigger] free_run(bits, k, n),
        },
    decreases bits.len() + EXFAT_RESERVED_CLUSTERS - start,
{
    if start + n > bits.len() + EXFAT_RESERVED_CLUSTERS {
    } else if free_run(bits, start, n) {
    } else {
        lemma_first_free_run(bits, start + 1, n);
    }
}

/// Marking a cluster changes the number of free clusters by one exactly where it
/// changes the bit.
pub proof fn lemma_count_free_update(bits: Seq<bool>, i: int, used: bool)
    requires
        0 <= i < bits.len(),
    ensures
        count_free(bits.update(i, used)) == count_free(bits) + (if bits[i] {
            1int
        } else {
            0int
        }) - (if used {
            1int
        } else {
            0int
        }),
    decreases bits.len(),
{
    let after = bits.update(i, used);
    if i == bits.len() - 1 {
        assert(after.drop_last() =~= bits.drop_last());
    } else {
        lemma_count_free_update(bits.drop_last(), i, used);
        assert(after.drop_last() =~= bits.drop_last().update(i, used));
        assert(after.last() == bits.last());
    }
}

/// There are at most as many free clusters as clusters.
pub proof fn lemma_count_free_bound(bits: Seq<bool>)
    ensures
        count_free(bits) <= bits.len(),
    decreases bits.len(),
{
    if bits.len() > 0 {
        lemma_count_free_bound(bits.drop_last());
    }
}

/// Where some cluster is free, the first one is found.
pub proof fn lemma_count_free_positive(bits: Seq<bool>, start: int)
    requires
        count_free(bits) > 0,
        start == EXFAT_RESERVED_CLUSTERS,
    ensures
        first_free_run(bits, start, 1) is Some,
{
    let i = lemma_free_exists(bits);
    lemma_first_free_run(bits, start, 1);
    assert(free_run(bits, i + EXFAT_RESERVED_CLUSTERS, 1)) by {
        assert(!cluster_used(bits, i + EXFAT_RESERVED_CLUSTERS));
    }
}

/// A bitmap with a free cluster has a clear bit.
proof fn lemma_free_exists(bits: Seq<bool>) -> (i: int)
    requires
        count_free(bits) > 0,
    ensures
        0 <= i < bits.len(),
        !bits[i],
    decreases bits.len(),
{
    if !bits.last() {
        bits.len() - 1
    } else {
        lemma_free_exists(bits.drop_last())
    }
}

/// The bit with the number `k` of a byte.
pub open spec fn byte_bit(byte: u8, k: int) -> bool {
    (byte as int / vstd::arithmetic::power2::pow2(k as nat) as int) % 2 == 1
}

/// The bits that the bytes of a bitmap hold, the lowest bit of each byte first.
pub open spec fn bits_of_bytes(bytes: Seq<u8>, n: int) -> Seq<bool> {
    Seq::new(n as nat, |i: int| byte_bit(bytes[i / 8], i % 8))
}

/// The bit with the number `i`, as a number; there is none behind the last.
pub open spec fn bit_value(bits: Seq<bool>, i: int) -> int {
    if 0 <= i < bits.len() && bits[i] {
        1
    } else {
        0
    }
}

/// The byte that holds the eight bits from the number `i` on, the lowest one first.
pub open spec fn byte_of_bits(bits: Seq<bool>, i: int) -> u8 {
    (bit_value(bits, i) + 2 * bit_value(bits, i + 1) + 4 * bit_value(bits, i + 2) + 8 * bit_value(
        bits,
        i + 3,
    ) + 16 * bit_value(bits, i + 4) + 32 * bit_value(bits, i + 5) + 64 * bit_value(bits, i + 6)
        + 128 * bit_value(bits, i + 7)) as u8
}

/// The bytes that hold the bits of a bitmap.
pub open spec fn bytes_of_bits(bits: Seq<bool>) -> Seq<u8> {
    Seq::new(
        crate::arith::pieces(bits.len() as int, 8) as nat,
        |j: int| byte_of_bits(bits, 8 * j),
    )
}

/// A byte of a bitmap holds its bits.
proof fn lemma_byte_of_bits(bits: Seq<bool>, i: int, k: int)
    requires
        0 <= k < 8,
    ensures
        byte_bit(byte_of_bits(bits, i), k) == (bit_value(bits, i + k) == 1),
{
    vstd::arithmetic::power2::lemma2_to64();
    let b0 = bit_value(bits, i);
    let b1 = bit_value(bits, i + 1);
    let b2 = bit_value(bits, i + 2);
    let b3 = bit_value(bits, i + 3);
    let b4 = bit_value(bits, i + 4);
    let b5 = bit_value(bits, i + 5);
    let b6 = bit_value(bits, i + 6);
    let b7 = bit_value(bits, i + 7);
    let x = byte_of_bits(bits, i) as int;
    assert(x == b0 + 2 * b1 + 4 * b2 + 8 * b3 + 16 * b4 + 32 * b5 + 64 * b6 + 128 * b7);
    if k == 0 {
        assert(x / 1 == b0 + 2 * (b1 + 2 * b2 + 4 * b3 + 8 * b4 + 16 * b5 + 32 * b6 + 64 * b7));
    } else if k == 1 {
        assert(x / 2 == b1 + 2 * (b2 + 2 * b3 + 4 * b4 + 8 * b5 + 16 * b6 + 32 * b7));
    } else if k == 2 {
        assert(x / 4 == b2 + 2 * (b3 + 2 * b4 + 4 * b5 + 8 * b6 + 16 * b7));
    } else if k == 3 {
        assert(x / 8 == b3 + 2 * (b4 + 2 * b5 + 4 * b6 + 8 * b7));
    } else if k == 4 {
        assert(x / 16 == b4 + 2 * (b5 + 2 * b6 + 4 * b7));
    } else if k == 5 {
        assert(x / 32 == b5 + 2 * (b6 + 2 * b7));
    } else if k == 6 {
        assert(x / 64 == b6 + 2 * b7);
    } else {
        assert(x / 128 == b7);
    }
}

/// The bytes that a bitmap is written as are read as the bitmap.
pub proof fn law_bitmap_roundtrip(bits: Seq<bool>)
    ensures
        bits_of_bytes(bytes_of_bits(bits), bits.len() as int) == bits,
{
    let n = bits.len() as int;
    let read = bits_of_bytes(bytes_of_bits(bits), n);
    crate::arith::lemma_rounded_up(n, 8);
    assert forall|i: int| 0 <= i < n implies #[trigger] read[i] == bits[i] by {
        lemma_byte_of_bits(bits, 8 * (i / 8), i % 8);
        assert(i / 8 < crate::arith::pieces(n, 8));
    }
    assert(read =~= bits);
}

impl View for ExfatBitmap {
    type V = Seq<bool>;

    closed spec fn view(&self) -> Seq<bool> {
        self.bits@
    }
}

impl ExfatBitmap {
    /// The number of free clusters that is kept is the number of clear bits, and
    /// every cluster has a number.
    pub closed spec fn wf(&self) -> bool {
        &&& self.free == count_free(self.bits@)
        &&& self.bits@.len() + EXFAT_RESERVED_CLUSTERS <= u32::MAX
    }

    /// Every cluster of a bitmap has a number.
    pub proof fn lemma_wf(&self)
        requires
            self.wf(),
        ensures
            self@.len() + EXFAT_RESERVED_CLUSTERS <= u32::MAX,
    {
    }

    /// A bitmap without clusters.
    pub fn empty() -> (bitmap: Self)
        ensures
            bitmap.wf(),
            bitmap@ == Seq::<bool>::empty(),
    {
        ExfatBitmap { bits: Vec::new(), free: 0 }
    }

    /// Reads a bitmap for `n` clusters.
    pub fn from_bytes(bytes: &Vec<u8>, n: u32) -> (bitmap: Self)
        requires
            n + EXFAT_RESERVED_CLUSTERS <= u32::MAX,
            n <= 8 * bytes@.len(),
        ensures
            bitmap.wf(),
            bitmap@ == bits_of_bytes(bytes@, n as int),
    {
        let mut bits: Vec<bool> = Vec::new();
        let mut free: u32 = 0;
        let mut i: u32 = 0;
        while i < n
            invariant
                i <= n,
                n + EXFAT_RESERVED_CLUSTERS <= u32::MAX,
                n <= 8 * bytes.len(),
                bits@ == bits_of_bytes(bytes@, i as int),
                free == count_free(bits@),
                free <= i,
            decreases n - i,
        {
            let byte: u8 = bytes[(i / 8) as usize];
            let used: bool = bit_is_set(byte, (i % 8) as u8);
            bits.push(used);
            if !used {
                free = free + 1;
            }
            proof {
                assert(bits@ =~= bits_of_bytes(bytes@, i + 1));
                assert(bits@.drop_last() =~= bits_of_bytes(bytes@, i as int));
            }
            i = i + 1;
        }
        ExfatBitmap { bits, free }
    }

    /// The bytes that hold the bits.
    pub fn to_bytes(&self) -> (bytes: Vec<u8>)
        ensures
            bytes@ == bytes_of_bits(self@),
    {
        let len: usize = self.bits.len();
        let count: usize = crate::arith::div_ceil(len, 8);
        proof {
            crate::arith::lemma_rounded_up(len as int, 8);
        }
        let mut bytes: Vec<u8> = Vec::new();
        let mut j: usize = 0;
        while j < count
            invariant
                j <= count,
                len == self@.len(),
                count == crate::arith::pieces(len as int, 8),
                count == 0 || 8 * (count - 1) < len,
                bytes@ == bytes_of_bits(self@).take(j as int),
            decreases count - j,
        {
            let byte: u8 = self.byte_at(8 * j);
            bytes.push(byte);
            assert(bytes@ =~= bytes_of_bits(self@).take(j + 1));
            j = j + 1;
        }
        assert(bytes@ =~= bytes_of_bits(self@));
        bytes
    }

    /// The byte that holds the eight bits from the number `i` on.
    fn byte_at(&self, i: usize) -> (byte: u8)
        requires
            i < self@.len(),
        ensures
            byte == byte_of_bits(self@, i as int),
    {
        self.bit_at(i, 0) + 2 * self.bit_at(i, 1) + 4 * self.bit_at(i, 2) + 8 * self.bit_at(i, 3)
            + 16 * self.bit_at(i, 4) + 32 * self.bit_at(i, 5) + 64 * self.bit_at(i, 6) + 128
            * self.bit_at(i, 7)
    }

    /// The bit `k` bits behind the one with the number `i`, as a number.
    fn bit_at(&self, i: usize, k: usize) -> (bit: u8)
        requires
            i < self@.len(),
        ensures
            bit == bit_value(self@, i + k),
            bit <= 1,
    {
        if k < self.bits.len() - i && self.bits[i + k] {
            1
        } else {
            0
        }
    }

    /// The number of clusters that are not in use.
    pub fn free_clusters(&self) -> (n: u32)
        requires
            self.wf(),
        ensures
            n == count_free(self@),
    {
        self.free
    }

    /// Whether a cluster is free.
    pub fn is_cluster_free(&self, cluster: u32) -> (result: Result<bool, Errno>)
        ensures
            result == (if has_cluster(self@, cluster as int) {
                Ok::<bool, Errno>(!cluster_used(self@, cluster as int))
            } else {
                Err::<bool, Errno>(Errno::EINVAL)
            }),
    {
        if cluster < EXFAT_RESERVED_CLUSTERS || (cluster - EXFAT_RESERVED_CLUSTERS) as usize
            >= self.bits.len() {
            return Err(Errno::EINVAL);
        }
        Ok(!self.bits[(cluster - EXFAT_RESERVED_CLUSTERS) as usize])
    }

    /// Whether all clusters of a range are free.
    pub fn is_cluster_range_free(&self, clusters: Range<u32>) -> (result: Result<bool, Errno>)
        ensures
            result == (if clusters.start <= clusters.end && EXFAT_RESERVED_CLUSTERS
                <= clusters.start && clusters.end <= self@.len() + EXFAT_RESERVED_CLUSTERS {
                Ok::<bool, Errno>(
                    free_run(self@, clusters.start as int, clusters.end - clusters.start),
                )
            } else {
                Err::<bool, Errno>(Errno::EINVAL)
            }),
    {
        if clusters.start > clusters.end || clusters.start < EXFAT_RESERVED_CLUSTERS
            || clusters.end < EXFAT_RESERVED_CLUSTERS || (clusters.end
            - EXFAT_RESERVED_CLUSTERS) as usize > self.bits.len() {
            return Err(Errno::EINVAL);
        }
        let mut cluster: u32 = clusters.start;
        while cluster < clusters.end
            invariant
                EXFAT_RESERVED_CLUSTERS <= clusters.start <= cluster <= clusters.end,
                clusters.end <= self@.len() + EXFAT_RESERVED_CLUSTERS,
                forall|k: int|
                    clusters.start <= k < cluster ==> !#[trigger] cluster_used(self@, k),
            decreases clusters.end - cluster,
        {
            if self.bits[(cluster - EXFAT_RESERVED_CLUSTERS) as usize] {
                assert(cluster_used(self@, cluster as int));
                return Ok(false);
            }
            cluster = cluster + 1;
        }
        Ok(true)
    }

    /// Marks a cluster.
    pub fn set_bit(&mut self, cluster: u32, used: bool) -> (result: Result<(), Errno>)
        requires
            old(self).wf(),
        ensures
            final(self).wf(),
            result is Ok <==> has_cluster(old(self)@, cluster as int),
            result is Err ==> result == Err::<(), Errno>(Errno::EINVAL),
            final(self)@ == (if has_cluster(old(self)@, cluster as int) {
                with_cluster(old(self)@, cluster as int, used)
            } else {
                old(self)@
            }),
    {
        if cluster < EXFAT_RESERVED_CLUSTERS || (cluster - EXFAT_RESERVED_CLUSTERS) as usize
            >= self.bits.len() {
            return Err(Errno::EINVAL);
        }
        let index: usize = (cluster - EXFAT_RESERVED_CLUSTERS) as usize;
        let before: bool = self.bits[index];
        proof {
            lemma_count_free_update(self.bits@, index as int, used);
            lemma_count_free_bound(self.bits@.update(index as int, used));
        }
        self.bits.set(index, used);
        if before && !used {
            self.free = self.free + 1;
        } else if !before && used {
            self.free = self.free - 1;
        }
        Ok(())
    }

    /// Marks the clusters of a range.
    pub fn set_range(&mut self, clusters: Range<u32>, used: bool) -> (result: Result<(), Errno>)
        requires
            old(self).wf(),
        ensures
            final(self).wf(),
            result is Ok <==> range_in_bitmap(old(self)@, clusters),
            result is Err ==> result == Err::<(), Errno>(Errno::EINVAL),
            final(self)@ == (if range_in_bitmap(old(self)@, clusters) {
                with_range(old(self)@, clusters, used)
            } else {
                old(self)@
            }),
    {
        if clusters.start > clusters.end || clusters.start < EXFAT_RESERVED_CLUSTERS
            || clusters.end < EXFAT_RESERVED_CLUSTERS || (clusters.end
            - EXFAT_RESERVED_CLUSTERS) as usize > self.bits.len() {
            return Err(Errno::EINVAL);
        }
        let mut cluster: u32 = clusters.start;
        while cluster < clusters.end
            invariant
                self.wf(),
                range_in_bitmap(old(self)@, clusters),
                clusters.start <= cluster <= clusters.end,
                self@.len() == old(self)@.len(),
                self@ == with_range(
                    old(self)@,
                    (Range { start: clusters.start, end: cluster }),
                    used,
                ),
            decreases clusters.end - cluster,
        {
            let _ = self.set_bit(cluster, used);
            assert(self@ =~= with_range(
                old(self)@,
                (Range { start: clusters.start, end: (cluster + 1) as u32 }),
                used,
            ));
            cluster = cluster + 1;
        }
        Ok(())
    }

    /// Finds the first `n` free clusters in a row, from `start` on, by trying every
    /// place.
    pub fn find_next_free_cluster_range(&self, start: u32, n: u32) -> (result: Result<
        Range<u32>,
        Errno,
    >)
        requires
            self.wf(),
            0 < n,
        ensures
            result == found_range(self@, start as int, n as int),
    {
        let size: usize = self.bits.len();
        if start < EXFAT_RESERVED_CLUSTERS || (start - EXFAT_RESERVED_CLUSTERS) as usize >= size {
            return Err(Errno::EINVAL);
        }
        let end: u32 = size as u32 + EXFAT_RESERVED_CLUSTERS;
        let mut from: u32 = start;
        while n <= end - from
            invariant
                self.wf(),
                0 < n,
                EXFAT_RESERVED_CLUSTERS <= start <= from <= end,
                has_cluster(self@, start as int),
                end == self@.len() + EXFAT_RESERVED_CLUSTERS,
                first_free_run(self@, start as int, n as int) == first_free_run(
                    self@,
                    from as int,
                    n as int,
                ),
            decreases end - from,
        {
            let mut k: u32 = 0;
            while k < n && !self.bits[(from - EXFAT_RESERVED_CLUSTERS + k) as usize]
                invariant
                    n <= end - from,
                    EXFAT_RESERVED_CLUSTERS <= from,
                    end == self@.len() + EXFAT_RESERVED_CLUSTERS,
                    k <= n,
                    forall|j: int| from <= j < from + k ==> !#[trigger] cluster_used(self@, j),
                decreases n - k,
            {
                k = k + 1;
            }
            if k == n {
                assert(free_run(self@, from as int, n as int));
                return Ok(Range { start: from, end: from + n });
            }
            assert(cluster_used(self@, from + k));
            assert(!free_run(self@, from as int, n as int));
            from = from + 1;
        }
        Err(Errno::ENOSPC)
    }

    /// Finds the first `n` free clusters in a row, from `start` on, in one pass.
    pub fn find_next_free_cluster_range_fast(&self, start: u32, n: u32) -> (result: Result<
        Range<u32>,
        Errno,
    >)
        requires
            self.wf(),
            0 < n,
        ensures
            result == found_range(self@, start as int, n as int),
    {
        let size: usize = self.bits.len();
        if start < EXFAT_RESERVED_CLUSTERS || (start - EXFAT_RESERVED_CLUSTERS) as usize >= size {
            return Err(Errno::EINVAL);
        }
        let end: u32 = size as u32 + EXFAT_RESERVED_CLUSTERS;
        let mut from: u32 = start;
        let mut next: u32 = start;
        while next < end
            invariant
                self.wf(),
                0 < n,
                EXFAT_RESERVED_CLUSTERS <= start <= from <= next <= end,
                has_cluster(self@, start as int),
                end == self@.len() + EXFAT_RESERVED_CLUSTERS,
                next - from < n,
                forall|j: int| from <= j < next ==> !#[trigger] cluster_used(self@, j),
                first_free_run(self@, start as int, n as int) == first_free_run(
                    self@,
                    from as int,
                    n as int,
                ),
            decreases end - next,
        {
            if self.bits[(next - EXFAT_RESERVED_CLUSTERS) as usize] {
                assert(cluster_used(self@, next as int));
                proof {
                    lemma_skip_used(self@, from as int, next as int, n as int);
                }
                next = next + 1;
                from = next;
            } else {
                next = next + 1;
                if next - from == n {
                    assert(free_run(self@, from as int, n as int));
                    return Ok(Range { start: from, end: next });
                }
            }
        }
        Err(Errno::ENOSPC)
    }
}

/// What a search for `n` free clusters from `start` on returns.
pub open spec fn found_range(bits: Seq<bool>, start: int, n: int) -> Result<Range<u32>, Errno> {
    if !has_cluster(bits, start) {
        Err(Errno::EINVAL)
    } else {
        match first_free_run(bits, start, n) {
            Some(found) => Ok(Range { start: found as u32, end: (found + n) as u32 }),
            None => Err(Errno::ENOSPC),
        }
    }
}

/// Whether the bitmap has a bit for every cluster of a range.
pub open spec fn range_in_bitmap(bits: Seq<bool>, clusters: Range<u32>) -> bool {
    &&& EXFAT_RESERVED_CLUSTERS <= clusters.start <= clusters.end
    &&& clusters.end <= bits.len() + EXFAT_RESERVED_CLUSTERS
}

/// The bitmap in which the clusters of a range are marked.
pub open spec fn with_range(bits: Seq<bool>, clusters: Range<u32>, used: bool) -> Seq<bool> {
    Seq::new(
        bits.len(),
        |i: int|
            if clusters.start <= i + EXFAT_RESERVED_CLUSTERS < clusters.end {
                used
            } else {
                bits[i]
            },
    )
}

/// A range that is found begins at `start` or behind it, has `n` clusters, all of them
/// free, and no such range begins before it. Where there is none left the search says so.
pub proof fn law_found_range(bits: Seq<bool>, start: int, n: int)
    requires
        has_cluster(bits, start),
        bits.len() + EXFAT_RESERVED_CLUSTERS <= u32::MAX,
        0 < n,
    ensures
        match found_range(bits, start, n) {
            Ok(found) => {
                &&& start <= found.start
                &&& found.end - found.start == n
                &&& free_run(bits, found.start as int, n)
                &&& forall|k: int| start <= k < found.start ==> !#[trigger] free_run(bits, k, n)
            },
            Err(e) => e == Errno::ENOSPC && forall|k: int|
                start <= k ==> !#[trigger] free_run(bits, k, n),
        },
{
    lemma_first_free_run(bits, start, n);
}

/// Freeing the clusters of a range that was free before they were marked as used gives
/// back the bitmap from before.
pub proof fn law_freeing_undoes_use(bits: Seq<bool>, clusters: Range<u32>)
    requires
        range_in_bitmap(bits, clusters),
        free_run(bits, clusters.start as int, clusters.end - clusters.start),
    ensures
        with_range(with_range(bits, clusters, true), clusters, false) == bits,
{
    let after = with_range(with_range(bits, clusters, true), clusters, false);
    assert forall|i: int| 0 <= i < bits.len() implies after[i] == bits[i] by {
        if clusters.start <= i + EXFAT_RESERVED_CLUSTERS < clusters.end {
            assert(!cluster_used(bits, i + EXFAT_RESERVED_CLUSTERS));
        }
    }
    assert(after =~= bits);
}

/// Taking a range of free clusters leaves as many fewer of them as it has.
pub proof fn law_use_counts(bits: Seq<bool>, clusters: Range<u32>)
    requires
        range_in_bitmap(bits, clusters),
        free_run(bits, clusters.start as int, clusters.end - clusters.start),
    ensures
        count_free(with_range(bits, clusters, true)) == count_free(bits) - (clusters.end
            - clusters.start),
    decreases clusters.end - clusters.start,
{
    let start = clusters.start;
    let end = clusters.end;
    if start == end {
        assert(with_range(bits, clusters, true) =~= bits);
    } else {
        let last = (end - 1) as u32;
        let fewer = Range { start, end: last };
        assert(free_run(bits, start as int, last - start)) by {
            assert forall|k: int| start <= k < start + (last - start) implies !cluster_used(
                bits,
                k,
            ) by {}
        }
        law_use_counts(bits, fewer);
        assert(!cluster_used(bits, last as int));
        let i = last - EXFAT_RESERVED_CLUSTERS;
        let before = with_range(bits, fewer, true);
        lemma_count_free_update(before, i, true);
        assert(with_range(bits, clusters, true) =~= before.update(i, true));
    }
}

/// No run of `n` free clusters begins between `from` and a used cluster that is
/// less than `n` clusters away.
proof fn lemma_skip_used(bits: Seq<bool>, from: int, used: int, n: int)
    requires
        EXFAT_RESERVED_CLUSTERS <= from <= used < bits.len() + EXFAT_RESERVED_CLUSTERS,
        used - from < n,
        cluster_used(bits, used),
    ensures
        first_free_run(bits, from, n) == first_free_run(bits, used + 1, n),
    decreases used - from,
{
    assert(!free_run(bits, from, n));
    if from < used {
        lemma_skip_used(bits, from + 1, used, n);
    }
}

/// Whether the bit with the number `k` of a byte is set.
fn bit_is_set(byte: u8, k: u8) -> (result: bool)
    requires
        k < 8,
    ensures
        result == byte_bit(byte, k as int),
{
    proof {
        vstd::arithmetic::power2::lemma2_to64();
    }
    let divisor: u8 = if k == 0 {
        1
    } else if k == 1 {
        2
    } else if k == 2 {
        4
    } else if k == 3 {
        8
    } else if k == 4 {
        16
    } else if k == 5 {
        32
    } else if k == 6 {
        64
    } else {
        128
    };
    (byte / divisor) % 2 == 1
}

/// The bitmap has a bit for every cluster from the number two on. Marking a cluster, or the
/// clusters of a range, marks them and no others.
pub proof fn law_marks(bits: Seq<bool>, cluster: int, clusters: Range<u32>, used: bool, other: int)
    requires
        2 <= other < bits.len() + 2,
        2 <= cluster < bits.len() + 2,
    ensures
        has_cluster(bits, cluster),
        !has_cluster(bits, 1),
        !has_cluster(bits, bits.len() as int + 2),
        cluster_used(bits, cluster) == bits[cluster - 2],
        with_cluster(bits, cluster, used).len() == bits.len(),
        cluster_used(with_cluster(bits, cluster, used), other) == (if other == cluster {
            used
        } else {
            cluster_used(bits, other)
        }),
        range_in_bitmap(bits, clusters) <==> 2 <= clusters.start <= clusters.end <= bits.len() + 2,
        with_range(bits, clusters, used).len() == bits.len(),
        cluster_used(with_range(bits, clusters, used), other) == (if clusters.start <= other
            < clusters.end {
            used
        } else {
            cluster_used(bits, other)
        }),
{
}

} // verus!
