//! Lists of names.

use vstd::prelude::*;
use crate::text::{decode_utf16, text_equal, text_less};

verus! {

/// The characters of strings.
pub open spec fn texts(names: Seq<String>) -> Seq<Seq<char>> {
    Seq::new(names.len(), |i: int| names[i]@)
}

/// A list of names without the first one that is equal to `name`.
pub open spec fn without_name(names: Seq<Seq<char>>, name: Seq<char>) -> Seq<Seq<char>>
    decreases names.len(),
{
    if names.len() == 0 {
        names
    } else if names[0] == name {
        names.drop_first()
    } else {
        seq![names[0]] + without_name(names.drop_first(), name)
    }
}

/// A list in order with one more name: it stands before the first name that comes
/// behind it.
pub open spec fn inserted(names: Seq<Seq<char>>, name: Seq<char>) -> Seq<Seq<char>>
    decreases names.len(),
{
    if names.len() == 0 {
        seq![name]
    } else if crate::text::text_lt(name, names[0]) {
        seq![name] + names
    } else {
        seq![names[0]] + inserted(names.drop_first(), name)
    }
}

/// The names in their order.
pub open spec fn sorted(names: Seq<Seq<char>>) -> Seq<Seq<char>>
    decreases names.len(),
{
    if names.len() == 0 {
        names
    } else {
        inserted(sorted(names.drop_last()), names.last())
    }
}

/// Whether names come in their order.
pub open spec fn in_order(names: Seq<Seq<char>>) -> bool {
    forall|i: int, j: int|
        0 <= i < j < names.len() ==> !crate::text::text_lt(#[trigger] names[j], #[trigger] names[i])
}

/// The digits of a number.
pub open spec fn decimal(n: nat) -> Seq<char>
    decreases n,
{
    if n < 10 {
        seq![digit(n)]
    } else {
        decimal(n / 10).push(digit(n % 10))
    }
}

/// The character for a digit.
pub open spec fn digit(n: nat) -> char {
    (0x30 + n) as u32 as char
}

/// One more name leaves a list of names the same but for that name.
pub proof fn lemma_inserted(names: Seq<Seq<char>>, name: Seq<char>)
    ensures
        inserted(names, name).len() == names.len() + 1,
        inserted(names, name).to_multiset() == names.to_multiset().insert(name),
        in_order(names) ==> in_order(inserted(names, name)),
        forall|k: int|
            0 <= k < inserted(names, name).len() ==> (#[trigger] inserted(names, name)[k] == name
                || names.contains(inserted(names, name)[k])),
    decreases names.len(),
{
    broadcast use vstd::seq_lib::group_to_multiset_ensures;

    let r = inserted(names, name);
    if names.len() == 0 {
        assert(r =~= names.push(name));
    } else if crate::text::text_lt(name, names[0]) {
        assert(r =~= names.insert(0, name));
        names.to_multiset_ensures();
        vstd::seq_lib::to_multiset_insert(names, 0, name);
        if in_order(names) {
            assert forall|i: int, j: int| 0 <= i < j < r.len() implies !crate::text::text_lt(
                #[trigger] r[j],
                #[trigger] r[i],
            ) by {
                if i > 0 {
                    assert(r[i] == names[i - 1] && r[j] == names[j - 1]);
                } else {
                    assert(r[j] == names[j - 1]);
                    if crate::text::text_lt(r[j], name) {
                        crate::text::lemma_text_lt_transitive(r[j], name, names[0]);
                        if j - 1 > 0 {
                            assert(!crate::text::text_lt(names[j - 1], names[0]));
                        } else {
                            crate::text::lemma_text_lt_irreflexive(names[0]);
                        }
                    }
                }
            }
        }
        assert forall|k: int| 0 <= k < r.len() implies (#[trigger] r[k] == name
            || names.contains(r[k])) by {
            if k > 0 {
                assert(r[k] == names[k - 1]);
            }
        }
    } else {
        let rest = names.drop_first();
        let q = inserted(rest, name);
        lemma_inserted(rest, name);
        assert(r =~= q.insert(0, names[0]));
        assert(names =~= rest.insert(0, names[0]));
        vstd::seq_lib::to_multiset_insert(q, 0, names[0]);
        vstd::seq_lib::to_multiset_insert(rest, 0, names[0]);
        assert(rest.to_multiset().insert(name).insert(names[0]) =~= rest.to_multiset().insert(
            names[0],
        ).insert(name));
        if in_order(names) {
            assert(in_order(rest)) by {
                assert forall|i: int, j: int| 0 <= i < j < rest.len() implies
                    !crate::text::text_lt(#[trigger] rest[j], #[trigger] rest[i]) by {
                    assert(rest[i] == names[i + 1] && rest[j] == names[j + 1]);
                }
            }
            assert forall|i: int, j: int| 0 <= i < j < r.len() implies !crate::text::text_lt(
                #[trigger] r[j],
                #[trigger] r[i],
            ) by {
                assert(r[j] == q[j - 1]);
                if i > 0 {
                    assert(r[i] == q[i - 1]);
                } else if q[j - 1] != name {
                    let m = choose|m: int| 0 <= m < rest.len() && rest[m] == q[j - 1];
                    assert(names[m + 1] == q[j - 1]);
                    assert(!crate::text::text_lt(names[m + 1], names[0]));
                }
            }
        }
        assert forall|k: int| 0 <= k < r.len() implies (#[trigger] r[k] == name
            || names.contains(r[k])) by {
            if k == 0 {
                assert(names[0] == r[0]);
            } else {
                assert(r[k] == q[k - 1]);
                if q[k - 1] != name {
                    let m = choose|m: int| 0 <= m < rest.len() && rest[m] == q[k - 1];
                    assert(names[m + 1] == r[k]);
                }
            }
        }
    }
}

/// Sorting keeps every name as often as it is there, and brings the names in order.
pub proof fn law_sorted(names: Seq<Seq<char>>)
    ensures
        sorted(names).to_multiset() == names.to_multiset(),
        sorted(names).len() == names.len(),
        in_order(sorted(names)),
    decreases names.len(),
{
    broadcast use vstd::seq_lib::group_to_multiset_ensures;

    if names.len() > 0 {
        law_sorted(names.drop_last());
        lemma_inserted(sorted(names.drop_last()), names.last());
        assert(names =~= names.drop_last().push(names.last()));
    }
}

/// Whether a name comes before another one or is the same.
spec fn not_behind() -> spec_fn(Seq<char>, Seq<char>) -> bool {
    |a: Seq<char>, b: Seq<char>| !crate::text::text_lt(b, a)
}

/// Names have one order.
proof fn lemma_one_order()
    ensures
        vstd::relations::total_ordering(not_behind()),
{
    let leq = not_behind();
    assert forall|a: Seq<char>| #[trigger] leq(a, a) by {
        crate::text::lemma_text_lt_irreflexive(a);
    }
    assert forall|a: Seq<char>, b: Seq<char>| #[trigger] leq(a, b) && #[trigger] leq(b, a) implies a
        == b by {
        crate::text::lemma_text_lt_total(a, b);
    }
    assert forall|a: Seq<char>, b: Seq<char>, c: Seq<char>| #[trigger]
        leq(a, b) && #[trigger] leq(b, c) implies leq(a, c) by {
        crate::text::lemma_text_lt_total(a, b);
        crate::text::lemma_text_lt_total(b, c);
        if a != b && b != c {
            crate::text::lemma_text_lt_transitive(a, b, c);
            if crate::text::text_lt(c, a) {
                crate::text::lemma_text_lt_transitive(a, c, a);
                crate::text::lemma_text_lt_irreflexive(a);
            }
        }
    }
    assert forall|a: Seq<char>, b: Seq<char>| #[trigger] leq(a, b) || #[trigger] leq(b, a) by {
        if crate::text::text_lt(a, b) && crate::text::text_lt(b, a) {
            crate::text::lemma_text_lt_transitive(a, b, a);
            crate::text::lemma_text_lt_irreflexive(a);
        }
    }
}

/// Lists in which no name stands twice and which hold the same names are the same once
/// they are sorted.
pub proof fn law_sorted_alike(a: Seq<Seq<char>>, b: Seq<Seq<char>>)
    requires
        a.no_duplicates(),
        b.no_duplicates(),
        forall|name: Seq<char>| a.contains(name) <==> #[trigger] b.contains(name),
    ensures
        sorted(a) == sorted(b),
{
    broadcast use vstd::seq_lib::group_to_multiset_ensures;

    law_sorted(a);
    law_sorted(b);
    a.lemma_multiset_has_no_duplicates();
    b.lemma_multiset_has_no_duplicates();
    assert forall|name: Seq<char>| #[trigger]
        a.to_multiset().count(name) == b.to_multiset().count(name) by {
        assert(a.contains(name) <==> b.contains(name));
        assert(a.contains(name) <==> a.to_multiset().count(name) > 0);
        assert(b.contains(name) <==> b.to_multiset().count(name) > 0);
    }
    assert(a.to_multiset() =~= b.to_multiset());
    lemma_one_order();
    let leq = not_behind();
    assert(vstd::relations::sorted_by(sorted(a), leq));
    assert(vstd::relations::sorted_by(sorted(b), leq));
    vstd::seq_lib::lemma_sorted_unique(sorted(a), sorted(b), leq);
}

/// Lists are the same once they are sorted exactly where they hold the same names, each of
/// them as often.
pub proof fn law_sorted_same(a: Seq<Seq<char>>, b: Seq<Seq<char>>)
    ensures
        sorted(a) == sorted(b) <==> a.to_multiset() == b.to_multiset(),
{
    law_sorted(a);
    law_sorted(b);
    if a.to_multiset() == b.to_multiset() {
        lemma_one_order();
        let leq = not_behind();
        assert(vstd::relations::sorted_by(sorted(a), leq));
        assert(vstd::relations::sorted_by(sorted(b), leq));
        vstd::seq_lib::lemma_sorted_unique(sorted(a), sorted(b), leq);
    }
}

/// Forgetting a name takes out the first place where it stands and leaves the other names in
/// their places; a name that is not there changes nothing.
pub proof fn law_without_name(names: Seq<Seq<char>>, name: Seq<char>, k: int)
    requires
        0 <= k <= names.len(),
        forall|j: int| 0 <= j < k ==> #[trigger] names[j] != name,
        k < names.len() ==> names[k] == name,
    ensures
        without_name(names, name) == (if k < names.len() {
            names.remove(k)
        } else {
            names
        }),
    decreases names.len(),
{
    if names.len() == 0 {
    } else if k == 0 {
        assert(names.drop_first() =~= names.remove(0));
    } else {
        let rest = names.drop_first();
        assert forall|j: int| 0 <= j < k - 1 implies #[trigger] rest[j] != name by {
            assert(names[j + 1] != name);
        }
        law_without_name(rest, name, k - 1);
        assert(names[0] != name);
        if k < names.len() {
            assert(seq![names[0]] + rest.remove(k - 1) =~= names.remove(k));
        } else {
            assert(seq![names[0]] + rest =~= names);
        }
    }
}

/// The digits of a number, taken from the left, give the number.
pub proof fn law_decimal(n: nat)
    ensures
        0 < decimal(n).len(),
        decimal_value(decimal(n)) == n,
        forall|k: int|
            0 <= k < decimal(n).len() ==> '0' <= #[trigger] decimal(n)[k] <= '9',
        n > 0 ==> decimal(n)[0] != '0',
    decreases n,
{
    reveal_with_fuel(decimal_value, 2);
    let d = decimal(n);
    let m = n % 10;
    assert(d.last() == digit(m));
    assert(digit(m) as u32 == 0x30 + m && '0' as u32 == 0x30);
    if n >= 10 {
        law_decimal(n / 10);
        assert(d.drop_last() =~= decimal(n / 10));
        assert(d[0] == decimal(n / 10)[0]);
        assert forall|k: int| 0 <= k < d.len() implies '0' <= #[trigger] d[k] <= '9' by {
            if k < d.len() - 1 {
                assert(d[k] == decimal(n / 10)[k]);
            }
        }
    } else {
        assert(d.drop_last() =~= Seq::<char>::empty());
    }
}

/// The number that digits stand for.
pub open spec fn decimal_value(digits: Seq<char>) -> int
    decreases digits.len(),
{
    if digits.len() == 0 {
        0
    } else {
        10 * decimal_value(digits.drop_last()) + (digits.last() as u32 - '0' as u32)
    }
}

/// Removes the first name that is equal to `name`.
pub fn remove_name(names: &mut Vec<String>, name: &str)
    ensures
        texts(final(names)@) == without_name(texts(old(names)@), name@),
{
    let ghost all = texts(names@);
    let mut idx: usize = 0;
    assert(all.skip(0) =~= all);
    assert(all.take(0) + without_name(all, name@) =~= without_name(all, name@));
    while idx < names.len()
        invariant
            idx <= names@.len(),
            names@ == old(names)@,
            all == texts(names@),
            without_name(all, name@) == all.take(idx as int) + without_name(
                all.skip(idx as int),
                name@,
            ),
        decreases names@.len() - idx,
    {
        if text_equal(names[idx].as_str(), name) {
            let _ = names.remove(idx);
            assert(texts(names@) =~= all.take(idx as int) + all.skip(idx as int).drop_first());
            return;
        }
        proof {
            let rest = all.skip(idx as int);
            assert(rest.drop_first() =~= all.skip(idx + 1));
            assert(all.take(idx as int) + (seq![rest[0]] + without_name(rest.drop_first(), name@))
                =~= all.take(idx + 1) + without_name(rest.drop_first(), name@));
        }
        idx = idx + 1;
    }
    assert(all.take(idx as int) + without_name(all.skip(idx as int), name@) =~= all);
}

/// Puts a name into a list in order.
fn insert_name(names: &mut Vec<String>, name: String)
    ensures
        texts(final(names)@) == inserted(texts(old(names)@), name@),
{
    let ghost all = texts(names@);
    let ghost text = name@;
    let mut idx: usize = 0;
    assert(all.skip(0) =~= all);
    assert(all.take(0) + inserted(all, text) =~= inserted(all, text));
    while idx < names.len() && !text_less(name.as_str(), names[idx].as_str())
        invariant
            idx <= names@.len(),
            names@ == old(names)@,
            all == texts(names@),
            text == name@,
            inserted(all, text) == all.take(idx as int) + inserted(all.skip(idx as int), text),
        decreases names@.len() - idx,
    {
        proof {
            let rest = all.skip(idx as int);
            assert(rest.drop_first() =~= all.skip(idx + 1));
            assert(all.take(idx as int) + (seq![rest[0]] + inserted(rest.drop_first(), text))
                =~= all.take(idx + 1) + inserted(rest.drop_first(), text));
        }
        idx = idx + 1;
    }
    names.insert(idx, name);
    assert(texts(names@) =~= all.take(idx as int) + (seq![text] + all.skip(idx as int)));
    proof {
        if idx < all.len() {
            assert(inserted(all.skip(idx as int), text) == seq![text] + all.skip(idx as int));
        } else {
            assert(seq![text] + all.skip(idx as int) =~= seq![text]);
        }
    }
}

/// The names in their order.
pub fn sort_names(names: &Vec<String>) -> (result: Vec<String>)
    ensures
        texts(result@) == sorted(texts(names@)),
{
    let ghost all = texts(names@);
    let mut result: Vec<String> = Vec::new();
    let mut k: usize = 0;
    assert(texts(result@) =~= sorted(all.take(0)));
    while k < names.len()
        invariant
            k <= names@.len(),
            all == texts(names@),
            texts(result@) == sorted(all.take(k as int)),
        decreases names@.len() - k,
    {
        assert(all.take(k + 1).drop_last() =~= all.take(k as int));
        insert_name(&mut result, names[k].clone());
        k = k + 1;
    }
    assert(all.take(k as int) =~= all);
    result
}

/// Whether two lists hold the same names at the same places.
pub fn same_names(a: &Vec<String>, b: &Vec<String>) -> (same: bool)
    ensures
        same == (texts(a@) == texts(b@)),
{
    if a.len() != b.len() {
        assert(texts(a@).len() != texts(b@).len());
        return false;
    }
    let mut k: usize = 0;
    while k < a.len()
        invariant
            k <= a@.len(),
            a@.len() == b@.len(),
            forall|j: int| 0 <= j < k ==> (#[trigger] a@[j])@ == b@[j]@,
        decreases a@.len() - k,
    {
        if !text_equal(a[k].as_str(), b[k].as_str()) {
            assert(texts(a@)[k as int] != texts(b@)[k as int]);
            return false;
        }
        k = k + 1;
    }
    assert(texts(a@) =~= texts(b@));
    true
}

/// Units that stand for one character each stand for those characters.
proof fn lemma_plain_units(units: Seq<u16>)
    requires
        forall|k: int| 0 <= k < units.len() ==> (#[trigger] units[k]) < 0xD800,
    ensures
        crate::text::text_of_utf16(units) == Seq::new(
            units.len(),
            |k: int| units[k] as u32 as char,
        ),
    decreases units.len(),
{
    if units.len() > 0 {
        lemma_plain_units(units.skip(1));
        assert(crate::text::text_of_utf16(units) =~= Seq::new(
            units.len(),
            |k: int| units[k] as u32 as char,
        ));
    } else {
        assert(crate::text::text_of_utf16(units) =~= Seq::new(
            units.len(),
            |k: int| units[k] as u32 as char,
        ));
    }
}

/// The units of the digits of a number.
spec fn decimal_units(n: nat) -> Seq<u16>
    decreases n,
{
    if n < 10 {
        seq![(0x30 + n) as u16]
    } else {
        decimal_units(n / 10).push((0x30 + n % 10) as u16)
    }
}

proof fn lemma_decimal_units(n: nat)
    ensures
        decimal_units(n).len() == decimal(n).len(),
        forall|k: int|
            0 <= k < decimal_units(n).len() ==> (#[trigger] decimal_units(n)[k]) < 0xD800
                && decimal_units(n)[k] as u32 as char == decimal(n)[k],
    decreases n,
{
    if n >= 10 {
        lemma_decimal_units(n / 10);
    }
}

/// The digits of a number.
pub fn number_name(n: u32) -> (name: String)
    ensures
        name@ == decimal(n as nat),
{
    let mut reversed: Vec<u16> = Vec::new();
    let mut left: u32 = n;
    while left >= 10
        invariant
            decimal_units(n as nat) == decimal_units(left as nat) + reversed@.reverse(),
        decreases left,
    {
        let ghost before = reversed@;
        reversed.push((0x30 + left % 10) as u16);
        assert(decimal_units((left / 10) as nat).push((0x30 + left % 10) as u16)
            + before.reverse() =~= decimal_units((left / 10) as nat) + reversed@.reverse());
        left = left / 10;
    }
    let mut units: Vec<u16> = Vec::new();
    units.push((0x30 + left) as u16);
    let mut k: usize = reversed.len();
    assert(units@ =~= decimal_units(left as nat) + reversed@.reverse().take(0));
    while k > 0
        invariant
            k <= reversed@.len(),
            decimal_units(n as nat) == decimal_units(left as nat) + reversed@.reverse(),
            units@ == decimal_units(left as nat) + reversed@.reverse().take(reversed@.len() - k),
        decreases k,
    {
        k = k - 1;
        units.push(reversed[k]);
        assert(units@ =~= decimal_units(left as nat) + reversed@.reverse().take(
            reversed@.len() - k,
        ));
    }
    assert(reversed@.reverse().take(reversed@.len() as int) =~= reversed@.reverse());
    proof {
        lemma_decimal_units(n as nat);
        lemma_plain_units(units@);
        assert(Seq::new(units@.len(), |k: int| units@[k] as u32 as char) =~= decimal(n as nat));
    }
    decode_utf16(&units)
}

} // verus!
