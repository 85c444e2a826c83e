//! The block devices of the system.

use vstd::prelude::*;
use crate::text::{text_equal, text_less};

verus! {

/// The devices, each under its name.
pub struct Component<D: Copy> {
    block_device_table: Vec<(String, D)>,
}

/// The devices of a table by their names.
pub open spec fn devices<D>(table: Seq<(String, D)>) -> Map<Seq<char>, D>
    decreases table.len(),
{
    if table.len() == 0 {
        Map::empty()
    } else {
        devices(table.drop_last()).insert(table.last().0@, table.last().1)
    }
}

/// Whether the names of a table come in their order, each of them once.
pub open spec fn in_order<D>(table: Seq<(String, D)>) -> bool {
    forall|i: int, j: int|
        0 <= i < j < table.len() ==> crate::text::text_lt(
            (#[trigger] table[i]).0@,
            (#[trigger] table[j]).0@,
        )
}

impl<D: Copy> View for Component<D> {
    type V = Map<Seq<char>, D>;

    closed spec fn view(&self) -> Map<Seq<char>, D> {
        devices(self.block_device_table@)
    }
}

/// The names of a table are those in it.
proof fn lemma_devices_dom<D>(table: Seq<(String, D)>, name: Seq<char>)
    ensures
        devices(table).contains_key(name) <==> exists|k: int|
            0 <= k < table.len() && (#[trigger] table[k]).0@ == name,
    decreases table.len(),
{
    if table.len() > 0 {
        lemma_devices_dom(table.drop_last(), name);
        let last = table.len() - 1;
        if table.last().0@ == name {
            assert(table[last].0@ == name);
        }
        if exists|k: int| 0 <= k < table.drop_last().len() && (
        #[trigger] table.drop_last()[k]).0@ == name {
            let k = choose|k: int|
                0 <= k < table.drop_last().len() && (#[trigger] table.drop_last()[k]).0@ == name;
            assert(table[k].0@ == name);
        }
        if exists|k: int| 0 <= k < table.len() && (#[trigger] table[k]).0@ == name {
            let k = choose|k: int| 0 <= k < table.len() && (#[trigger] table[k]).0@ == name;
            if k < last {
                assert(table.drop_last()[k].0@ == name);
            }
        }
    }
}

/// A device in a table in order is found under its name.
proof fn lemma_devices_at<D>(table: Seq<(String, D)>, k: int)
    requires
        in_order(table),
        0 <= k < table.len(),
    ensures
        devices(table).contains_key(table[k].0@),
        devices(table)[table[k].0@] == table[k].1,
    decreases table.len(),
{
    if k < table.len() - 1 {
        assert(in_order(table.drop_last())) by {
            assert forall|i: int, j: int| 0 <= i < j < table.drop_last().len() implies
                crate::text::text_lt(
                (#[trigger] table.drop_last()[i]).0@,
                (#[trigger] table.drop_last()[j]).0@,
            ) by {
                assert(crate::text::text_lt(table[i].0@, table[j].0@));
            }
        }
        lemma_devices_at(table.drop_last(), k);
        assert(crate::text::text_lt(table[k].0@, table[table.len() - 1].0@));
        crate::text::lemma_text_lt_irreflexive(table[k].0@);
    }
}

/// Two tables in order with the same devices under all names have the same map.
proof fn lemma_devices_map<D>(table: Seq<(String, D)>, m: Map<Seq<char>, D>)
    requires
        in_order(table),
        forall|k: int|
            0 <= k < table.len() ==> m.contains_key((#[trigger] table[k]).0@) && m[table[k].0@]
                == table[k].1,
        forall|name: Seq<char>| #[trigger]
            m.contains_key(name) ==> exists|k: int|
                0 <= k < table.len() && (#[trigger] table[k]).0@ == name,
    ensures
        devices(table) == m,
{
    assert forall|name: Seq<char>| devices(table).contains_key(name) == #[trigger] m.contains_key(
        name,
    ) by {
        lemma_devices_dom(table, name);
    }
    assert forall|name: Seq<char>| #[trigger] devices(table).contains_key(name) implies devices(
        table,
    )[name] == m[name] by {
        lemma_devices_dom(table, name);
        let k = choose|k: int| 0 <= k < table.len() && (#[trigger] table[k]).0@ == name;
        lemma_devices_at(table, k);
    }
    assert(devices(table) =~= m);
}

impl<D: Copy> Component<D> {
    /// The names come in their order, each of them once.
    pub closed spec fn wf(&self) -> bool {
        in_order(self.block_device_table@)
    }

    /// A table without devices.
    pub fn init() -> (component: Self)
        ensures
            component.wf(),
            component@ == Map::<Seq<char>, D>::empty(),
    {
        Component { block_device_table: Vec::new() }
    }

    /// The place of a name: the number of names that come before it.
    fn place_of(&self, name: &str) -> (place: usize)
        requires
            self.wf(),
        ensures
            place <= self.block_device_table@.len(),
            forall|k: int|
                0 <= k < place ==> crate::text::text_lt(
                    (#[trigger] self.block_device_table@[k]).0@,
                    name@,
                ),
            place < self.block_device_table@.len() ==> !crate::text::text_lt(
                self.block_device_table@[place as int].0@,
                name@,
            ),
    {
        let mut place: usize = 0;
        while place < self.block_device_table.len() && text_less(
            self.block_device_table[place].0.as_str(),
            name,
        )
            invariant
                place <= self.block_device_table@.len(),
                forall|k: int|
                    0 <= k < place ==> crate::text::text_lt(
                        (#[trigger] self.block_device_table@[k]).0@,
                        name@,
                    ),
            decreases self.block_device_table@.len() - place,
        {
            place = place + 1;
        }
        place
    }

    /// Registers a device under a name, in place of the one that was there.
    pub fn register_device(&mut self, name: String, device: D)
        requires
            old(self).wf(),
        ensures
            final(self).wf(),
            final(self)@ == old(self)@.insert(name@, device),
    {
        let place: usize = self.place_of(name.as_str());
        let ghost table = self.block_device_table@;
        let ghost text = name@;
        let there: bool = place < self.block_device_table.len() && text_equal(
            self.block_device_table[place].0.as_str(),
            name.as_str(),
        );
        if there {
            self.block_device_table.set(place, (name, device));
        } else {
            self.block_device_table.insert(place, (name, device));
        }
        proof {
            lemma_registered(
                table,
                self.block_device_table@,
                place as int,
                there,
                text,
                device,
            );
        }
    }

    /// The device under a name.
    pub fn get_device(&self, name: &str) -> (device: Option<D>)
        requires
            self.wf(),
        ensures
            device == (if self@.contains_key(name@) {
                Some(self@[name@])
            } else {
                None
            }),
    {
        let place: usize = self.place_of(name);
        let ghost table = self.block_device_table@;
        if place < self.block_device_table.len() && text_equal(
            self.block_device_table[place].0.as_str(),
            name,
        ) {
            proof {
                lemma_devices_at(table, place as int);
            }
            Some(self.block_device_table[place].1)
        } else {
            proof {
                lemma_devices_dom(table, name@);
                lemma_name_is_not_there(table, place as int, name@);
            }
            None
        }
    }

    /// All devices with their names, in the order of the names.
    pub fn all_devices(&self) -> (all: Vec<(String, D)>)
        requires
            self.wf(),
        ensures
            in_order(all@),
            devices(all@) == self@,
    {
        let mut all: Vec<(String, D)> = Vec::new();
        let mut k: usize = 0;
        while k < self.block_device_table.len()
            invariant
                k <= self.block_device_table@.len(),
                all@.len() == k,
                forall|i: int|
                    0 <= i < k ==> (#[trigger] all@[i]).0@ == self.block_device_table@[i].0@
                        && all@[i].1 == self.block_device_table@[i].1,
            decreases self.block_device_table@.len() - k,
        {
            let name: String = self.block_device_table[k].0.clone();
            all.push((name, self.block_device_table[k].1));
            k = k + 1;
        }
        proof {
            let table = self.block_device_table@;
            assert forall|i: int, j: int| 0 <= i < j < all@.len() implies crate::text::text_lt(
                (#[trigger] all@[i]).0@,
                (#[trigger] all@[j]).0@,
            ) by {
                assert(crate::text::text_lt(table[i].0@, table[j].0@));
            }
            assert forall|i: int| 0 <= i < all@.len() implies self@.contains_key(
                (#[trigger] all@[i]).0@,
            ) && self@[all@[i].0@] == all@[i].1 by {
                lemma_devices_at(table, i);
            }
            assert forall|name: Seq<char>| #[trigger] self@.contains_key(name) implies exists|i: int|
                0 <= i < all@.len() && (#[trigger] all@[i]).0@ == name by {
                lemma_devices_dom(table, name);
                let i = choose|i: int| 0 <= i < table.len() && (#[trigger] table[i]).0@ == name;
                assert(all@[i].0@ == name);
            }
            lemma_devices_map(all@, self@);
        }
        all
    }
}

/// A name whose place holds another name is nowhere in a table in order.
proof fn lemma_name_is_not_there<D>(table: Seq<(String, D)>, place: int, name: Seq<char>)
    requires
        in_order(table),
        0 <= place <= table.len(),
        forall|k: int| 0 <= k < place ==> crate::text::text_lt((#[trigger] table[k]).0@, name),
        place < table.len() ==> !crate::text::text_lt(table[place].0@, name) && table[place].0@
            != name,
    ensures
        forall|k: int| 0 <= k < table.len() ==> (#[trigger] table[k]).0@ != name,
        forall|k: int| place <= k < table.len() ==> crate::text::text_lt(
            name,
            (#[trigger] table[k]).0@,
        ),
{
    assert forall|k: int| 0 <= k < table.len() implies (#[trigger] table[k]).0@ != name by {
        crate::text::lemma_text_lt_irreflexive(name);
        if k > place {
            assert(crate::text::text_lt(table[place].0@, table[k].0@));
        }
    }
    assert forall|k: int| place <= k < table.len() implies crate::text::text_lt(
        name,
        (#[trigger] table[k]).0@,
    ) by {
        crate::text::lemma_text_lt_total(table[place].0@, name);
        if k > place {
            assert(crate::text::text_lt(table[place].0@, table[k].0@));
            crate::text::lemma_text_lt_transitive(name, table[place].0@, table[k].0@);
        }
    }
}

/// What registering a device does to a table in order.
proof fn lemma_registered<D>(
    table: Seq<(String, D)>,
    new: Seq<(String, D)>,
    place: int,
    there: bool,
    name: Seq<char>,
    device: D,
)
    requires
        in_order(table),
        0 <= place <= table.len(),
        there == (place < table.len() && table[place].0@ == name),
        forall|k: int| 0 <= k < place ==> crate::text::text_lt((#[trigger] table[k]).0@, name),
        place < table.len() ==> !crate::text::text_lt(table[place].0@, name),
        0 <= place < new.len(),
        new[place].0@ == name,
        new[place].1 == device,
        there ==> new == table.update(place, new[place]),
        !there ==> new == table.insert(place, new[place]),
    ensures
        in_order(new),
        devices(new) == devices(table).insert(name, device),
{
    if !there {
        lemma_name_is_not_there(table, place, name);
    }
    assert forall|i: int, j: int| 0 <= i < j < new.len() implies crate::text::text_lt(
        (#[trigger] new[i]).0@,
        (#[trigger] new[j]).0@,
    ) by {
        let shift: int = if there {
            0
        } else {
            1
        };
        let a: int = if i > place {
            i - shift
        } else {
            i
        };
        let b: int = if j > place {
            j - shift
        } else {
            j
        };
        if i != place {
            assert(new[i] == table[a]);
        }
        if j != place {
            assert(new[j] == table[b]);
        }
        if i != place && j != place {
            assert(crate::text::text_lt(table[a].0@, table[b].0@));
        } else if i == place {
            if there {
                assert(crate::text::text_lt(table[place].0@, table[b].0@));
            }
        }
    }
    let m = devices(table).insert(name, device);
    assert forall|k: int| 0 <= k < new.len() implies m.contains_key((#[trigger] new[k]).0@)
        && m[new[k].0@] == new[k].1 by {
        if k != place {
            let a: int = if !there && k > place {
                k - 1
            } else {
                k
            };
            assert(new[k] == table[a]);
            lemma_devices_at(table, a);
            crate::text::lemma_text_lt_irreflexive(name);
            if there {
                if a < place {
                    assert(crate::text::text_lt(table[a].0@, table[place].0@));
                } else {
                    assert(crate::text::text_lt(table[place].0@, table[a].0@));
                }
            }
        }
    }
    assert forall|n: Seq<char>| #[trigger] m.contains_key(n) implies exists|k: int|
        0 <= k < new.len() && (#[trigger] new[k]).0@ == n by {
        if n == name {
            assert(new[place].0@ == n);
        } else {
            lemma_devices_dom(table, n);
            let a = choose|a: int| 0 <= a < table.len() && (#[trigger] table[a]).0@ == n;
            let k: int = if !there && a >= place {
                a + 1
            } else {
                a
            };
            assert(new[k].0@ == n);
        }
    }
    lemma_devices_map(new, m);
}

} // verus!
