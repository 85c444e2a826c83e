//! Random numbers, out of bytes that are given.

use vstd::prelude::*;

verus! {

/// Random bytes. When they are used up, zeros follow.
#[derive(Debug)]
pub struct RandomSource {
    bytes: Vec<u8>,
    next: usize,
}

impl View for RandomSource {
    type V = Seq<u8>;

    closed spec fn view(&self) -> Seq<u8> {
        self.bytes@.skip(self.next as int)
    }
}

/// The first `n` of some random bytes.
pub open spec fn random_bytes(random: Seq<u8>, n: int) -> Seq<u8> {
    Seq::new(
        n as nat,
        |k: int|
            if k < random.len() {
                random[k]
            } else {
                0u8
            },
    )
}

/// What is left of random bytes after the first `n`.
pub open spec fn random_rest(random: Seq<u8>, n: int) -> Seq<u8> {
    if n <= random.len() {
        random.skip(n)
    } else {
        Seq::empty()
    }
}

/// The number from 0 up to `max` that the next random byte stands for.
pub open spec fn random_in(random: Seq<u8>, max: int) -> int {
    let scaled = random_bytes(random, 1)[0] * (max + 1) / 255;
    if scaled <= max {
        scaled
    } else {
        max
    }
}

impl RandomSource {
    /// The next byte is one of the bytes, or they are used up.
    pub closed spec fn wf(&self) -> bool {
        self.next <= self.bytes@.len()
    }

    /// A source with the given bytes.
    pub fn new(bytes: Vec<u8>) -> (source: Self)
        ensures
            source.wf(),
            source@ == bytes@,
    {
        let source: RandomSource = RandomSource { bytes, next: 0 };
        assert(source@ =~= bytes@);
        source
    }

    /// The next random byte.
    pub fn next_byte(&mut self) -> (byte: u8)
        requires
            old(self).wf(),
        ensures
            final(self).wf(),
            byte == random_bytes(old(self)@, 1)[0],
            final(self)@ == random_rest(old(self)@, 1),
    {
        if self.next < self.bytes.len() {
            let byte: u8 = self.bytes[self.next];
            self.next = self.next + 1;
            assert(self@ =~= random_rest(old(self)@, 1));
            byte
        } else {
            assert(self@ =~= random_rest(old(self)@, 1));
            0
        }
    }

    /// The next `n` random bytes.
    pub fn getrandom(&mut self, n: usize) -> (bytes: Vec<u8>)
        requires
            old(self).wf(),
        ensures
            final(self).wf(),
            bytes@ == random_bytes(old(self)@, n as int),
            final(self)@ == random_rest(old(self)@, n as int),
    {
        let mut bytes: Vec<u8> = Vec::new();
        let mut k: usize = 0;
        assert(self@ =~= random_rest(old(self)@, 0));
        while k < n
            invariant
                self.wf(),
                k <= n,
                bytes@ == random_bytes(old(self)@, k as int),
                self@ == random_rest(old(self)@, k as int),
            decreases n - k,
        {
            let byte: u8 = self.next_byte();
            bytes.push(byte);
            assert(bytes@ =~= random_bytes(old(self)@, k + 1));
            assert(self@ =~= random_rest(old(self)@, k + 1));
            k = k + 1;
        }
        bytes
    }

    /// A random number from 0 up to `max`.
    pub fn get_random_in(&mut self, max: usize) -> (number: usize)
        requires
            old(self).wf(),
        ensures
            final(self).wf(),
            number == random_in(old(self)@, max as int),
            number <= max,
            final(self)@ == random_rest(old(self)@, 1),
    {
        let byte: u8 = self.next_byte();
        assert(0 <= byte * (max + 1) <= 255 * (usize::MAX + 1)) by (nonlinear_arith)
            requires
                0 <= byte <= 255,
                0 <= max <= usize::MAX,
        ;
        let scaled: u128 = (byte as u128) * (max as u128 + 1) / 255;
        if scaled <= max as u128 {
            scaled as usize
        } else {
            max
        }
    }

    /// A random place in the first `max_size` bytes, and a random number of bytes from
    /// there on.
    pub fn generate_random_offset_len(&mut self, max_size: usize) -> (place: (usize, usize))
        requires
            old(self).wf(),
            0 < max_size,
        ensures
            final(self).wf(),
            place == random_place(old(self)@, max_size as int),
            place.0 + place.1 <= max_size,
            final(self)@ == random_rest(random_rest(old(self)@, 1), 1),
    {
        let offset: usize = self.get_random_in(max_size - 1);
        let len: usize = self.get_random_in(max_size - offset);
        (offset, len)
    }
}

/// The place and the number of bytes that the next two random bytes stand for.
pub open spec fn random_place(random: Seq<u8>, max_size: int) -> (usize, usize) {
    let offset = random_in(random, max_size - 1);
    let len = random_in(random_rest(random, 1), max_size - offset);
    (offset as usize, len as usize)
}

/// A random number lies in its range.
pub proof fn law_random_in_range(random: Seq<u8>, max: int)
    requires
        0 <= max,
    ensures
        0 <= random_in(random, max) <= max,
{
    let b = random_bytes(random, 1)[0];
    assert(0 <= b * (max + 1)) by (nonlinear_arith)
        requires
            0 <= b,
            0 <= max,
    ;
}

/// A random number is the next byte, zero where there is none, spread over the range: the
/// greatest one where the byte is 255, and otherwise the whole part of its share.
pub proof fn law_random_in(random: Seq<u8>, max: int)
    requires
        0 <= max,
    ensures
        ({
            let byte = if random.len() > 0 {
                random[0] as int
            } else {
                0
            };
            let n = random_in(random, max);
            &&& byte == 255 ==> n == max
            &&& byte < 255 ==> 255 * n <= byte * (max + 1) < 255 * (n + 1)
        }),
{
    let byte = if random.len() > 0 {
        random[0] as int
    } else {
        0
    };
    assert(random_bytes(random, 1)[0] == byte);
    let x = byte * (max + 1);
    if byte == 255 {
        assert(x / 255 == max + 1);
    } else {
        assert(x <= 254 * (max + 1)) by (nonlinear_arith)
            requires
                x == byte * (max + 1),
                byte <= 254,
                0 <= max,
        ;
        assert(x < 255 * (max + 1));
    }
}

} // verus!
