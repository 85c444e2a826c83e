//! Strings: comparison, and the conversion to and from UTF-16.

use vstd::prelude::*;
use vstd::string::StrSliceExecFns;

verus! {

/// Whether `a` comes before `b` in the order of strings: the first character in
/// which they differ decides, and a string comes before its own extensions.
pub open spec fn text_lt(a: Seq<char>, b: Seq<char>) -> bool
    decreases a.len(),
{
    if b.len() == 0 {
        false
    } else if a.len() == 0 {
        true
    } else if a[0] != b[0] {
        (a[0] as u32) < (b[0] as u32)
    } else {
        text_lt(a.drop_first(), b.drop_first())
    }
}

/// The characters of a string.
pub fn characters(s: &str) -> (chars: Vec<char>)
    ensures
        chars@ == s@,
{
    let n: usize = s.unicode_len();
    let mut chars: Vec<char> = Vec::new();
    let mut i: usize = 0;
    while i < n
        invariant
            n == s@.len(),
            i <= n,
            chars@ == s@.take(i as int),
        decreases n - i,
    {
        chars.push(s.get_char(i));
        assert(s@.take(i + 1) =~= s@.take(i as int).push(s@[i as int]));
        i = i + 1;
    }
    assert(s@.take(n as int) =~= s@);
    chars
}

/// Whether two strings hold the same characters.
pub fn text_equal(a: &str, b: &str) -> (equal: bool)
    ensures
        equal == (a@ == b@),
{
    let x: Vec<char> = characters(a);
    let y: Vec<char> = characters(b);
    if x.len() != y.len() {
        return false;
    }
    let mut i: usize = 0;
    while i < x.len()
        invariant
            i <= x@.len(),
            x@ == a@,
            y@ == b@,
            x@.len() == y@.len(),
            forall|j: int| 0 <= j < i ==> x@[j] == y@[j],
        decreases x@.len() - i,
    {
        if x[i] != y[i] {
            return false;
        }
        i = i + 1;
    }
    assert(a@ =~= b@);
    true
}

/// Whether `a` comes before `b`.
pub fn text_less(a: &str, b: &str) -> (less: bool)
    ensures
        less == text_lt(a@, b@),
{
    let x: Vec<char> = characters(a);
    let y: Vec<char> = characters(b);
    let mut i: usize = 0;
    assert(a@.skip(0) =~= a@);
    assert(b@.skip(0) =~= b@);
    while i < x.len() && i < y.len()
        invariant
            i <= x@.len(),
            i <= y@.len(),
            x@ == a@,
            y@ == b@,
            text_lt(a@, b@) == text_lt(a@.skip(i as int), b@.skip(i as int)),
        decreases x@.len() - i,
    {
        let c: char = x[i];
        let d: char = y[i];
        if c != d {
            return (c as u32) < (d as u32);
        }
        assert(a@.skip(i as int).drop_first() =~= a@.skip(i + 1));
        assert(b@.skip(i as int).drop_first() =~= b@.skip(i + 1));
        i = i + 1;
    }
    i < y.len()
}

/// A string does not come before itself.
pub proof fn lemma_text_lt_irreflexive(a: Seq<char>)
    ensures
        !text_lt(a, a),
    decreases a.len(),
{
    if a.len() > 0 {
        lemma_text_lt_irreflexive(a.drop_first());
    }
}

/// Of two different strings, one comes before the other.
pub proof fn lemma_text_lt_total(a: Seq<char>, b: Seq<char>)
    ensures
        text_lt(a, b) || text_lt(b, a) || a == b,
    decreases a.len(),
{
    if a.len() > 0 && b.len() > 0 {
        vstd::utf8::char_u32_cast(a[0], a[0] as u32);
        vstd::utf8::char_u32_cast(b[0], b[0] as u32);
    }
    if a.len() > 0 && b.len() > 0 && a[0] == b[0] {
        lemma_text_lt_total(a.drop_first(), b.drop_first());
        if a.drop_first() == b.drop_first() {
            assert(a =~= seq![a[0]] + a.drop_first());
            assert(b =~= seq![b[0]] + b.drop_first());
        }
    } else if a.len() == 0 && b.len() == 0 {
        assert(a =~= b);
    }
}

/// The order of strings is transitive.
pub proof fn lemma_text_lt_transitive(a: Seq<char>, b: Seq<char>, c: Seq<char>)
    requires
        text_lt(a, b),
        text_lt(b, c),
    ensures
        text_lt(a, c),
    decreases a.len(),
{
    if a.len() > 0 && b.len() > 0 && c.len() > 0 && a[0] == b[0] && b[0] == c[0] {
        lemma_text_lt_transitive(a.drop_first(), b.drop_first(), c.drop_first());
    }
}

/// The UTF-16 units of one character.
pub open spec fn utf16_units(c: char) -> Seq<u16> {
    let v = c as u32;
    if v < 0x1_0000 {
        seq![v as u16]
    } else {
        seq![
            (0xD800 + (v - 0x1_0000) / 0x400) as u16,
            (0xDC00 + (v - 0x1_0000) % 0x400) as u16,
        ]
    }
}

/// The UTF-16 encoding of a string.
pub open spec fn utf16(s: Seq<char>) -> Seq<u16>
    decreases s.len(),
{
    if s.len() == 0 {
        Seq::empty()
    } else {
        utf16_units(s[0]) + utf16(s.drop_first())
    }
}

/// Whether a unit is the first half of a surrogate pair.
pub open spec fn is_high_surrogate(u: u16) -> bool {
    0xD800 <= u < 0xDC00
}

/// Whether a unit is the second half of a surrogate pair.
pub open spec fn is_low_surrogate(u: u16) -> bool {
    0xDC00 <= u < 0xE000
}

/// The string that UTF-16 units stand for; a surrogate without its partner
/// stands for the replacement character.
pub open spec fn text_of_utf16(u: Seq<u16>) -> Seq<char>
    decreases u.len(),
{
    if u.len() == 0 {
        Seq::empty()
    } else if !is_high_surrogate(u[0]) && !is_low_surrogate(u[0]) {
        seq![u[0] as u32 as char] + text_of_utf16(u.skip(1))
    } else if is_high_surrogate(u[0]) && u.len() > 1 && is_low_surrogate(u[1]) {
        seq![(0x1_0000 + 0x400 * (u[0] - 0xD800) + (u[1] - 0xDC00)) as u32 as char]
            + text_of_utf16(u.skip(2))
    } else {
        seq!['\u{FFFD}'] + text_of_utf16(u.skip(1))
    }
}

/// Decoding the UTF-16 encoding of a string gives the string back.
pub proof fn lemma_utf16_roundtrip(s: Seq<char>)
    ensures
        text_of_utf16(utf16(s)) == s,
    decreases s.len(),
{
    if s.len() > 0 {
        let c = s[0];
        let v = c as u32;
        vstd::utf8::char_is_scalar(c);
        vstd::utf8::char_u32_cast(c, v);
        let rest = s.drop_first();
        lemma_utf16_roundtrip(rest);
        let u = utf16(s);
        assert(u == utf16_units(c) + utf16(rest));
        if v < 0x1_0000 {
            assert(u[0] == v as u16);
            assert(u[0] as u32 == v);
            assert(u.skip(1) =~= utf16(rest));
        } else {
            let h = u[0];
            let l = u[1];
            assert(h == (0xD800 + (v - 0x1_0000) / 0x400) as u16);
            assert(l == (0xDC00 + (v - 0x1_0000) % 0x400) as u16);
            assert(0x1_0000 + 0x400 * (h - 0xD800) + (l - 0xDC00) == v);
            assert(u.skip(2) =~= utf16(rest));
        }
        assert(s =~= seq![c] + rest);
    } else {
        assert(s =~= Seq::<char>::empty());
    }
}

/// The number of bytes that a string takes in UTF-8.
pub open spec fn byte_length(s: Seq<char>) -> nat {
    vstd::utf8::encode_utf8(s).len()
}

/// No string takes more units in UTF-16 than bytes in UTF-8.
pub proof fn lemma_utf16_len(s: Seq<char>)
    ensures
        utf16(s).len() <= byte_length(s),
    decreases s.len(),
{
    if s.len() > 0 {
        lemma_utf16_len(s.drop_first());
    }
}

/// The number of bytes that a string takes in UTF-8.
pub fn byte_len(s: &str) -> (n: usize)
    ensures
        n == byte_length(s@),
{
    s.as_bytes().len()
}

/// Encodes a string in UTF-16.
pub fn encode_utf16(s: &str) -> (units: Vec<u16>)
    ensures
        units@ == utf16(s@),
{
    let chars: Vec<char> = characters(s);
    let mut units: Vec<u16> = Vec::new();
    let mut i: usize = 0;
    assert(s@.skip(0) =~= s@);
    assert(units@ + utf16(s@) =~= utf16(s@));
    while i < chars.len()
        invariant
            i <= chars@.len(),
            chars@ == s@,
            units@ + utf16(s@.skip(i as int)) == utf16(s@),
        decreases chars@.len() - i,
    {
        let ghost before = units@;
        let v: u32 = chars[i] as u32;
        if v < 0x1_0000 {
            units.push(v as u16);
        } else {
            let w: u32 = v - 0x1_0000;
            units.push((0xD800 + w / 0x400) as u16);
            units.push((0xDC00 + w % 0x400) as u16);
        }
        proof {
            let c = s@[i as int];
            assert(units@ =~= before + utf16_units(c));
            assert(s@.skip(i as int).drop_first() =~= s@.skip(i + 1));
            assert(before + (utf16_units(c) + utf16(s@.skip(i + 1))) =~= units@ + utf16(
                s@.skip(i + 1),
            ));
        }
        i = i + 1;
    }
    assert(s@.skip(i as int) =~= Seq::<char>::empty());
    assert(units@ + utf16(s@.skip(i as int)) =~= units@);
    units
}

/// Decodes UTF-16 units with `String::from_utf16_lossy`, which replaces every
/// surrogate that has no partner by the replacement character.
#[verifier::external_body]
pub(crate) fn decode_utf16(units: &Vec<u16>) -> (s: String)
    ensures
        s@ == text_of_utf16(units@),
{
    String::from_utf16_lossy(units)
}

/// Which of two strings comes first is decided by the first place in which they differ: by the
/// smaller character there, or by the end of one of them, which comes before the other then.
pub proof fn law_text_order(a: Seq<char>, b: Seq<char>, k: int)
    requires
        0 <= k <= a.len(),
        k <= b.len(),
        forall|j: int| 0 <= j < k ==> #[trigger] a[j] == b[j],
    ensures
        k == b.len() ==> !text_lt(a, b),
        k == a.len() && k < b.len() ==> text_lt(a, b),
        k < a.len() && k < b.len() && a[k] != b[k] ==> (text_lt(a, b) <==> (a[k] as u32) < (
        b[k] as u32)),
    decreases k,
{
    if k > 0 {
        assert(a[0] == b[0]);
        let x = a.drop_first();
        let y = b.drop_first();
        assert forall|j: int| 0 <= j < k - 1 implies #[trigger] x[j] == y[j] by {
            assert(a[j + 1] == b[j + 1]);
        }
        law_text_order(x, y, k - 1);
    }
}

/// A character of the first plane takes one unit, with its number; any other takes two, which
/// hold its number less that of the first such character, the upper part in the first and the
/// lower ten bits in the second. The units of a string are those of its characters.
pub proof fn law_utf16(a: Seq<char>, c: char)
    ensures
        ({
            let units = utf16(seq![c]);
            let n = c as u32;
            &&& n < 0x1_0000 ==> units.len() == 1 && units[0] == n
            &&& 0x1_0000 <= n ==> units.len() == 2 && 0xd800 <= units[0] < 0xdc00 && 0xdc00
                <= units[1] < 0xe000 && n == 0x1_0000 + 1024 * (units[0] - 0xd800) + (units[1]
                - 0xdc00)
        }),
        utf16(seq![c] + a) == utf16(seq![c]) + utf16(a),
        text_of_utf16(utf16(a)) == a,
{
    let one = seq![c];
    vstd::utf8::char_is_scalar(c);
    vstd::utf8::char_u32_cast(c, c as u32);
    assert(one.drop_first() =~= Seq::<char>::empty());
    assert(utf16(one.drop_first()) =~= Seq::<u16>::empty());
    assert(utf16(one) =~= utf16_units(c));
    assert((one + a).drop_first() =~= a);
    lemma_utf16_roundtrip(a);
}

/// A unit that is one half of a pair without the other half becomes the replacement character,
/// and what follows it is read as if it were not there.
pub proof fn law_lone_surrogate(u: Seq<u16>)
    requires
        0 < u.len(),
        0xd800 <= u[0] < 0xe000,
        u[0] < 0xdc00 && 1 < u.len() ==> !(0xdc00 <= u[1] < 0xe000),
    ensures
        text_of_utf16(u).len() == 1 + text_of_utf16(u.skip(1)).len(),
        text_of_utf16(u)[0] as u32 == 0xfffd,
        text_of_utf16(u).skip(1) == text_of_utf16(u.skip(1)),
{
    assert(text_of_utf16(u).skip(1) =~= text_of_utf16(u.skip(1)));
}

} // verus!
