//! Little-endian numbers in byte sequences.

use vstd::prelude::*;

verus! {

/// The 16-bit number whose bytes start at `i`, least significant first.
pub open spec fn le16(s: Seq<u8>, i: int) -> u16 {
    (s[i] + 0x100 * s[i + 1]) as u16
}

/// The 32-bit number whose bytes start at `i`, least significant first.
pub open spec fn le32(s: Seq<u8>, i: int) -> u32 {
    (le16(s, i) + 0x1_0000 * le16(s, i + 2)) as u32
}

/// The 64-bit number whose bytes start at `i`, least significant first.
pub open spec fn le64(s: Seq<u8>, i: int) -> u64 {
    (le32(s, i) + 0x1_0000_0000 * le32(s, i + 4)) as u64
}

/// The two bytes of `x`, least significant first.
pub open spec fn le16_bytes(x: u16) -> Seq<u8> {
    seq![(x % 0x100) as u8, (x / 0x100) as u8]
}

/// The four bytes of `x`, least significant first.
pub open spec fn le32_bytes(x: u32) -> Seq<u8> {
    le16_bytes((x % 0x1_0000) as u16) + le16_bytes((x / 0x1_0000) as u16)
}

/// The eight bytes of `x`, least significant first.
pub open spec fn le64_bytes(x: u64) -> Seq<u8> {
    le32_bytes((x % 0x1_0000_0000) as u32) + le32_bytes((x / 0x1_0000_0000) as u32)
}

/// Reading back the bytes of a 16-bit number gives the number.
pub proof fn lemma_le16_roundtrip(s: Seq<u8>, i: int, x: u16)
    requires
        0 <= i,
        i + 2 <= s.len(),
        s.subrange(i, i + 2) == le16_bytes(x),
    ensures
        le16(s, i) == x,
{
    assert(s.subrange(i, i + 2)[0] == s[i]);
    assert(s.subrange(i, i + 2)[1] == s[i + 1]);
}

/// Reading back the bytes of a 32-bit number gives the number.
pub proof fn lemma_le32_roundtrip(s: Seq<u8>, i: int, x: u32)
    requires
        0 <= i,
        i + 4 <= s.len(),
        s.subrange(i, i + 4) == le32_bytes(x),
    ensures
        le32(s, i) == x,
{
    let b = le32_bytes(x);
    assert(s.subrange(i, i + 2) =~= b.subrange(0, 2)) by {
        assert(forall|k: int| 0 <= k < 4 ==> #[trigger] s.subrange(i, i + 4)[k] == s[i + k]);
    }
    assert(s.subrange(i + 2, i + 4) =~= b.subrange(2, 4)) by {
        assert(forall|k: int| 0 <= k < 4 ==> #[trigger] s.subrange(i, i + 4)[k] == s[i + k]);
    }
    assert(b.subrange(0, 2) =~= le16_bytes((x % 0x1_0000) as u16));
    assert(b.subrange(2, 4) =~= le16_bytes((x / 0x1_0000) as u16));
    lemma_le16_roundtrip(s, i, (x % 0x1_0000) as u16);
    lemma_le16_roundtrip(s, i + 2, (x / 0x1_0000) as u16);
}

/// Reading back the bytes of a 64-bit number gives the number.
pub proof fn lemma_le64_roundtrip(s: Seq<u8>, i: int, x: u64)
    requires
        0 <= i,
        i + 8 <= s.len(),
        s.subrange(i, i + 8) == le64_bytes(x),
    ensures
        le64(s, i) == x,
{
    let b = le64_bytes(x);
    assert(s.subrange(i, i + 4) =~= b.subrange(0, 4)) by {
        assert(forall|k: int| 0 <= k < 8 ==> #[trigger] s.subrange(i, i + 8)[k] == s[i + k]);
    }
    assert(s.subrange(i + 4, i + 8) =~= b.subrange(4, 8)) by {
        assert(forall|k: int| 0 <= k < 8 ==> #[trigger] s.subrange(i, i + 8)[k] == s[i + k]);
    }
    assert(b.subrange(0, 4) =~= le32_bytes((x % 0x1_0000_0000) as u32));
    assert(b.subrange(4, 8) =~= le32_bytes((x / 0x1_0000_0000) as u32));
    lemma_le32_roundtrip(s, i, (x % 0x1_0000_0000) as u32);
    lemma_le32_roundtrip(s, i + 4, (x / 0x1_0000_0000) as u32);
}

/// Reads a 16-bit number at `i`.
pub fn get_le16(s: &Vec<u8>, i: usize) -> (x: u16)
    requires
        i + 2 <= s.len(),
    ensures
        x == le16(s@, i as int),
{
    s[i] as u16 + 0x100 * (s[i + 1] as u16)
}

/// Reads a 32-bit number at `i`.
pub fn get_le32(s: &Vec<u8>, i: usize) -> (x: u32)
    requires
        i + 4 <= s.len(),
    ensures
        x == le32(s@, i as int),
{
    get_le16(s, i) as u32 + 0x1_0000 * (get_le16(s, i + 2) as u32)
}

/// Reads a 64-bit number at `i`.
pub fn get_le64(s: &Vec<u8>, i: usize) -> (x: u64)
    requires
        i + 8 <= s.len(),
    ensures
        x == le64(s@, i as int),
{
    get_le32(s, i) as u64 + 0x1_0000_0000 * (get_le32(s, i + 4) as u64)
}

/// Appends the bytes of a 16-bit number.
pub fn push_le16(out: &mut Vec<u8>, x: u16)
    ensures
        final(out)@ == old(out)@ + le16_bytes(x),
{
    out.push((x % 0x100) as u8);
    out.push((x / 0x100) as u8);
    assert(out@ =~= old(out)@ + le16_bytes(x));
}

/// Appends the bytes of a 32-bit number.
pub fn push_le32(out: &mut Vec<u8>, x: u32)
    ensures
        final(out)@ == old(out)@ + le32_bytes(x),
{
    push_le16(out, (x % 0x1_0000) as u16);
    push_le16(out, (x / 0x1_0000) as u16);
    assert(out@ =~= old(out)@ + le32_bytes(x));
}

/// Appends the bytes of a 64-bit number.
pub fn push_le64(out: &mut Vec<u8>, x: u64)
    ensures
        final(out)@ == old(out)@ + le64_bytes(x),
{
    push_le32(out, (x % 0x1_0000_0000) as u32);
    push_le32(out, (x / 0x1_0000_0000) as u32);
    assert(out@ =~= old(out)@ + le64_bytes(x));
}

/// The sequence `s` with `patch` written over it from `at` on.
pub open spec fn overwritten(s: Seq<u8>, at: int, patch: Seq<u8>) -> Seq<u8> {
    Seq::new(
        s.len(),
        |k: int|
            if at <= k < at + patch.len() {
                patch[k - at]
            } else {
                s[k]
            },
    )
}

/// The sequence `s` cut or filled up with zeros to the length `len`.
pub open spec fn resized(s: Seq<u8>, len: int) -> Seq<u8> {
    Seq::new(
        len as nat,
        |k: int|
            if k < s.len() {
                s[k]
            } else {
                0u8
            },
    )
}

/// Cuts `s`, or fills it up with zeros, to the length `len`.
pub fn resize_bytes(s: &mut Vec<u8>, len: usize)
    ensures
        final(s)@ == resized(old(s)@, len as int),
{
    if len <= s.len() {
        s.truncate(len);
    } else {
        while s.len() < len
            invariant
                old(s)@.len() <= s@.len() <= len,
                s@ == resized(old(s)@, s@.len() as int),
            decreases len - s@.len(),
        {
            let ghost before = s@;
            s.push(0);
            assert(s@ =~= resized(old(s)@, (before.len() + 1) as int)) by {
                assert(before == resized(old(s)@, before.len() as int));
            }
        }
    }
    assert(s@ =~= resized(old(s)@, len as int));
}

/// Copies the bytes of `s` from `from` up to `to`.
pub fn copy_range(s: &Vec<u8>, from: usize, to: usize) -> (out: Vec<u8>)
    requires
        from <= to <= s@.len(),
    ensures
        out@ == s@.subrange(from as int, to as int),
{
    let mut out: Vec<u8> = Vec::new();
    let mut k: usize = from;
    while k < to
        invariant
            from <= k <= to <= s@.len(),
            out@ == s@.subrange(from as int, k as int),
        decreases to - k,
    {
        out.push(s[k]);
        assert(s@.subrange(from as int, k + 1) =~= s@.subrange(from as int, k as int).push(s@[k as int]));
        k = k + 1;
    }
    out
}

/// Writes `patch` over `s` from `at` on.
pub fn overwrite(s: &mut Vec<u8>, at: usize, patch: &Vec<u8>)
    requires
        at + patch@.len() <= old(s).len(),
    ensures
        final(s)@ == overwritten(old(s)@, at as int, patch@),
{
    let mut k: usize = 0;
    while k < patch.len()
        invariant
            at + patch@.len() <= old(s).len(),
            s@.len() == old(s)@.len(),
            k <= patch@.len(),
            forall|j: int|
                0 <= j < s@.len() ==> s@[j] == (if at <= j < at + k {
                    patch@[j - at]
                } else {
                    old(s)@[j]
                }),
        decreases patch@.len() - k,
    {
        s.set(at + k, patch[k]);
        k = k + 1;
    }
    assert(s@ =~= overwritten(old(s)@, at as int, patch@));
}

/// A number has its lowest byte first.
pub proof fn law_least_byte_first(s: Seq<u8>, i: int)
    ensures
        le16(s, i) == s[i] + 0x100 * s[i + 1],
        le32(s, i) == s[i] + 0x100 * s[i + 1] + 0x1_0000 * s[i + 2] + 0x100_0000 * s[i + 3],
        le64(s, i) == s[i] + 0x100 * s[i + 1] + 0x1_0000 * s[i + 2] + 0x100_0000 * s[i + 3]
            + 0x1_0000_0000 * s[i + 4] + 0x100_0000_0000 * s[i + 5] + 0x1_0000_0000_0000 * s[i + 6]
            + 0x100_0000_0000_0000 * s[i + 7],
{
}

/// Writing over bytes changes those that are written over, and no others.
pub proof fn law_overwritten(s: Seq<u8>, at: int, patch: Seq<u8>, k: int)
    requires
        0 <= k < s.len(),
    ensures
        overwritten(s, at, patch).len() == s.len(),
        k < at || at + patch.len() <= k ==> overwritten(s, at, patch)[k] == s[k],
        at <= k < at + patch.len() ==> overwritten(s, at, patch)[k] == patch[k - at],
{
}

/// Changing the number of bytes keeps those that are left, and fills up with zeros.
pub proof fn law_resized(s: Seq<u8>, len: int, k: int)
    requires
        0 <= k < len,
    ensures
        resized(s, len).len() == len,
        k < s.len() ==> resized(s, len)[k] == s[k],
        s.len() <= k ==> resized(s, len)[k] == 0,
{
}

} // verus!
