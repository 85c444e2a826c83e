//! Which blocks of a file are holes.

use bitvec::prelude::BitVec;
use vstd::prelude::*;

verus! {

/// Bits.
#[verifier::external_body]
pub struct HoleBits {
    bits: BitVec,
}

/// The bits that are held.
pub uninterp spec fn hole_bits(bits: &HoleBits) -> Seq<bool>;

/// Bits cut, or filled up with a value, to a length.
pub open spec fn bits_resized(bits: Seq<bool>, len: int, value: bool) -> Seq<bool> {
    Seq::new(
        len as nat,
        |k: int|
            if k < bits.len() {
                bits[k]
            } else {
                value
            },
    )
}

impl HoleBits {
    /// Makes room for bits with `bitvec::vec::BitVec::with_capacity`, which holds none
    /// at first. It does not take more than an eighth of the largest `usize`.
    #[verifier::external_body]
    fn with_capacity(capacity: usize) -> (made: HoleBits)
        requires
            capacity <= usize::MAX / 8,
        ensures
            hole_bits(&made) == Seq::<bool>::empty(),
    {
        HoleBits { bits: BitVec::with_capacity(capacity) }
    }

    /// Counts the bits with `bitvec::vec::BitVec::len`.
    #[verifier::external_body]
    fn len(&self) -> (len: usize)
        ensures
            len == hole_bits(self).len(),
    {
        self.bits.len()
    }

    /// Changes the number of bits with `bitvec::vec::BitVec::resize`, which cuts bits
    /// off or adds bits of the given value. It does not take more than an eighth of the
    /// largest `usize`.
    #[verifier::external_body]
    fn resize(&mut self, new_len: usize, value: bool)
        requires
            new_len <= usize::MAX / 8,
        ensures
            hole_bits(final(self)) == bits_resized(hole_bits(old(self)), new_len as int, value),
    {
        self.bits.resize(new_len, value);
    }

    /// Reads a bit through `core::ops::Index::index` of `bitvec::slice::BitSlice`, which
    /// panics where there is no such bit.
    #[verifier::external_body]
    fn get(&self, index: usize) -> (value: bool)
        requires
            index < hole_bits(self).len(),
        ensures
            value == hole_bits(self)[index as int],
    {
        self.bits[index]
    }

    /// Changes a bit with `bitvec::slice::BitSlice::set`, which panics where there is no
    /// such bit.
    #[verifier::external_body]
    fn set(&mut self, index: usize, value: bool)
        requires
            index < hole_bits(old(self)).len(),
        ensures
            hole_bits(final(self)) == hole_bits(old(self)).update(index as int, value),
    {
        self.bits.set(index, value);
    }
}

/// Which blocks of a file are holes.
pub struct BlocksHoleDesc {
    holes: HoleBits,
}

impl View for BlocksHoleDesc {
    type V = Seq<bool>;

    closed spec fn view(&self) -> Seq<bool> {
        hole_bits(&self.holes)
    }
}

impl BlocksHoleDesc {
    /// Blocks of which none is a hole.
    pub fn new(initial_len: u32) -> (desc: Self)
        requires
            initial_len <= usize::MAX / 8,
        ensures
            desc@ == Seq::new(initial_len as nat, |k: int| false),
    {
        let mut holes: HoleBits = HoleBits::with_capacity(initial_len as usize);
        holes.resize(initial_len as usize, false);
        let desc: BlocksHoleDesc = BlocksHoleDesc { holes };
        assert(desc@ =~= Seq::new(initial_len as nat, |k: int| false));
        desc
    }

    /// The number of blocks.
    pub fn size(&self) -> (n: usize)
        ensures
            n == self@.len(),
    {
        self.holes.len()
    }

    /// Changes the number of blocks. New blocks are holes.
    pub fn resize(&mut self, new_len: u32)
        requires
            new_len <= usize::MAX / 8,
        ensures
            final(self)@ == bits_resized(old(self)@, new_len as int, true),
    {
        self.holes.resize(new_len as usize, true);
    }

    /// Whether a block is a hole.
    pub fn is_hole(&self, idx: u32) -> (result: bool)
        requires
            idx < self@.len(),
        ensures
            result == self@[idx as int],
    {
        self.holes.get(idx as usize)
    }

    /// Marks a block as a hole.
    pub fn set(&mut self, idx: u32)
        requires
            idx < old(self)@.len(),
        ensures
            final(self)@ == old(self)@.update(idx as int, true),
    {
        self.holes.set(idx as usize, true);
    }

    /// Marks a block as none.
    pub fn unset(&mut self, idx: u32)
        requires
            idx < old(self)@.len(),
        ensures
            final(self)@ == old(self)@.update(idx as int, false),
    {
        self.holes.set(idx as usize, false);
    }
}

/// Marking a block as a hole and taking that back leaves all blocks as they were, if
/// it was none.
pub proof fn law_unset_undoes_set(bits: Seq<bool>, idx: int)
    requires
        0 <= idx < bits.len(),
        !bits[idx],
    ensures
        bits.update(idx, true).update(idx, false) == bits,
{
    assert(bits.update(idx, true).update(idx, false) =~= bits);
}

/// Growing keeps the blocks that are there, and adds only holes.
pub proof fn law_growing_adds_holes(bits: Seq<bool>, len: int, idx: int)
    requires
        bits.len() <= len,
        0 <= idx < len,
    ensures
        idx < bits.len() ==> bits_resized(bits, len, true)[idx] == bits[idx],
        bits.len() <= idx ==> bits_resized(bits, len, true)[idx],
{
}

} // verus!
