//! The entries of a directory in the model, by their names.

use hashbrown::HashMap;
use vstd::prelude::*;

verus! {

/// A map from names to the numbers of entries of the model.
#[verifier::external_body]
pub struct SubDirs {
    map: HashMap<String, usize>,
}

/// What a map holds.
pub uninterp spec fn sub_entries(map: &SubDirs) -> Map<Seq<char>, usize>;

/// The map that holds nothing.
pub open spec fn no_entries() -> Map<Seq<char>, usize> {
    Map::empty()
}

/// Whether a map holds `n` names.
pub open spec fn has_count(entries: Map<Seq<char>, usize>, n: nat) -> bool {
    entries.dom().finite() && entries.dom().len() == n
}

impl SubDirs {
    /// Makes an empty map with `hashbrown::HashMap::new`.
    #[verifier::external_body]
    pub(crate) fn new() -> (made: SubDirs)
        ensures
            sub_entries(&made) == no_entries(),
    {
        SubDirs { map: HashMap::new() }
    }

    /// Looks a name up with `hashbrown::HashMap::get`, which returns the value that is
    /// kept under it, if there is one.
    #[verifier::external_body]
    pub(crate) fn get(&self, name: &str) -> (entry: Option<usize>)
        ensures
            entry == (if sub_entries(self).contains_key(name@) {
                Some(sub_entries(self)[name@])
            } else {
                None
            }),
    {
        self.map.get(name).copied()
    }

    /// Keeps a value under a name with `hashbrown::HashMap::insert`.
    #[verifier::external_body]
    pub(crate) fn insert(&mut self, name: String, entry: usize)
        ensures
            sub_entries(final(self)) == sub_entries(old(self)).insert(name@, entry),
    {
        self.map.insert(name, entry);
    }

    /// Forgets a name with `hashbrown::HashMap::remove`.
    #[verifier::external_body]
    pub(crate) fn remove(&mut self, name: &str)
        ensures
            sub_entries(final(self)) == sub_entries(old(self)).remove(name@),
    {
        self.map.remove(name);
    }

    /// Counts the names with `hashbrown::HashMap::len`.
    #[verifier::external_body]
    pub(crate) fn len(&self) -> (len: usize)
        ensures
            has_count(sub_entries(self), len as nat),
    {
        self.map.len()
    }
}

} // verus!
