//! The numbers of blocks and sectors.

use core::ops::{Add, Sub};
use vstd::prelude::*;

verus! {

/// The number of bytes in a block.
pub const BLOCK_SIZE: usize = 4096;

/// The number of bytes in a sector.
pub const SECTOR_SIZE: usize = 512;

/// The number of sectors in a block.
pub const SECTORS_PER_BLOCK: u64 = 8;

/// The number of a block of `N_BYTES` bytes.
#[derive(Copy, Clone, Debug, Hash, PartialEq, Eq, PartialOrd, Ord)]
pub struct BlockId<const N_BYTES: usize>(u64);

/// The number of a block, as file systems count.
pub type Bid = BlockId<BLOCK_SIZE>;

/// The number of a sector, as devices count.
pub type Sid = BlockId<SECTOR_SIZE>;

impl<const N_BYTES: usize> BlockId<N_BYTES> {
    /// The number as an integer.
    pub closed spec fn raw(self) -> u64 {
        self.0
    }

    /// The block with a number.
    pub closed spec fn of_raw(raw: u64) -> Self {
        BlockId(raw)
    }

    /// A block is known by its number.
    pub proof fn lemma_raw(raw: u64)
        ensures
            Self::of_raw(raw).raw() == raw,
    {
    }

    /// The block with a number.
    pub fn new(raw_id: u64) -> (id: Self)
        ensures
            id.raw() == raw_id,
            id == Self::of_raw(raw_id),
    {
        BlockId(raw_id)
    }

    /// The block that holds the byte at an offset.
    pub fn from_offset(offset: usize) -> (id: Self)
        requires
            0 < N_BYTES,
        ensures
            id.raw() == offset / N_BYTES,
    {
        BlockId((offset / N_BYTES) as u64)
    }

    /// The offset at which the block begins.
    pub fn to_offset(self) -> (offset: usize)
        requires
            self.raw() * N_BYTES <= usize::MAX,
            0 < N_BYTES,
        ensures
            offset == self.raw() * N_BYTES,
    {
        assert(self.raw() <= usize::MAX) by (nonlinear_arith)
            requires
                self.raw() * N_BYTES <= usize::MAX,
                0 < N_BYTES,
        ;
        (self.0 as usize) * N_BYTES
    }

    /// The number as an integer.
    pub fn to_raw(self) -> (raw: u64)
        ensures
            raw == self.raw(),
    {
        self.0
    }

    /// The number of steps from one block to another that is not before it.
    pub fn steps_between(start: &Self, end: &Self) -> (steps: Option<usize>)
        ensures
            steps == (if start.raw() <= end.raw() && end.raw() - start.raw() <= usize::MAX {
                Some((end.raw() - start.raw()) as usize)
            } else {
                None
            }),
    {
        if start.0 <= end.0 && end.0 - start.0 <= usize::MAX as u64 {
            Some((end.0 - start.0) as usize)
        } else {
            None
        }
    }

    /// The block that lies `count` blocks behind another one, if it has a number.
    pub fn forward_checked(start: Self, count: usize) -> (id: Option<Self>)
        ensures
            match id {
                Some(id) => id.raw() == start.raw() + count,
                None => start.raw() + count > u64::MAX,
            },
    {
        match start.0.checked_add(count as u64) {
            Some(raw) => Some(BlockId(raw)),
            None => None,
        }
    }

    /// The block that lies `count` blocks before another one, if it has a number.
    pub fn backward_checked(start: Self, count: usize) -> (id: Option<Self>)
        ensures
            match id {
                Some(id) => id.raw() == start.raw() - count,
                None => start.raw() < count,
            },
    {
        match start.0.checked_sub(count as u64) {
            Some(raw) => Some(BlockId(raw)),
            None => None,
        }
    }
}

impl<const N_BYTES: usize> Add<u64> for BlockId<N_BYTES> {
    type Output = Self;

    fn add(self, other: u64) -> (id: Self) {
        BlockId(self.0 + other)
    }
}

impl<const N_BYTES: usize> vstd::std_specs::ops::AddSpecImpl<u64> for BlockId<N_BYTES> {
    open spec fn obeys_add_spec() -> bool {
        true
    }

    open spec fn add_req(self, other: u64) -> bool {
        self.raw() + other <= u64::MAX
    }

    open spec fn add_spec(self, other: u64) -> Self {
        Self::of_raw((self.raw() + other) as u64)
    }
}

impl<const N_BYTES: usize> Sub<u64> for BlockId<N_BYTES> {
    type Output = Self;

    fn sub(self, other: u64) -> (id: Self) {
        BlockId(self.0 - other)
    }
}

impl<const N_BYTES: usize> vstd::std_specs::ops::SubSpecImpl<u64> for BlockId<N_BYTES> {
    open spec fn obeys_sub_spec() -> bool {
        true
    }

    open spec fn sub_req(self, other: u64) -> bool {
        other <= self.raw()
    }

    open spec fn sub_spec(self, other: u64) -> Self {
        Self::of_raw((self.raw() - other) as u64)
    }
}

impl From<Bid> for Sid {
    fn from(bid: Bid) -> (sid: Sid) {
        BlockId(bid.0.wrapping_mul(SECTORS_PER_BLOCK))
    }
}

impl vstd::std_specs::convert::FromSpecImpl<Bid> for Sid {
    open spec fn obeys_from_spec() -> bool {
        true
    }

    open spec fn from_spec(bid: Bid) -> Sid {
        Sid::of_raw(bid.raw().wrapping_mul(SECTORS_PER_BLOCK))
    }
}

/// A block and its first sector begin at the same offset, as long as the sector has a
/// number.
pub proof fn law_sector_of_block(bid: Bid)
    requires
        bid.raw() * SECTORS_PER_BLOCK <= u64::MAX,
    ensures
        Sid::of_raw(bid.raw().wrapping_mul(SECTORS_PER_BLOCK)).raw() * SECTOR_SIZE == bid.raw()
            * BLOCK_SIZE,
        Sid::of_raw(bid.raw().wrapping_mul(SECTORS_PER_BLOCK)).raw() == 8 * bid.raw(),
        Sid::of_raw(bid.raw().wrapping_mul(SECTORS_PER_BLOCK)).raw() * 512 == bid.raw() * 4096,
{
}

/// The offset at which a block begins lies in the block.
pub proof fn law_offset_of_block<const N_BYTES: usize>(id: BlockId<N_BYTES>)
    requires
        0 < N_BYTES,
    ensures
        (id.raw() * N_BYTES) / (N_BYTES as int) == id.raw(),
{
    assert((id.raw() * N_BYTES) / (N_BYTES as int) == id.raw()) by (nonlinear_arith)
        requires
            0 < N_BYTES,
    ;
}

} // verus!
