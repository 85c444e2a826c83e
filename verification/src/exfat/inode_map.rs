//! The inodes that are open, by their hashes.

use hashbrown::HashMap;
use vstd::prelude::*;

verus! {

/// A map from the hashes of inodes to their numbers.
#[verifier::external_body]
pub struct InodeMap {
    map: HashMap<u64, usize>,
}

/// What a map holds.
pub uninterp spec fn inode_map_entries(map: &InodeMap) -> Map<u64, usize>;

/// The map that holds nothing.
pub open spec fn no_inodes() -> Map<u64, usize> {
    Map::empty()
}

impl InodeMap {
    /// Makes an empty map with `hashbrown::HashMap::new`.
    #[verifier::external_body]
    pub(crate) fn new() -> (made: InodeMap)
        ensures
            inode_map_entries(&made) == no_inodes(),
    {
        InodeMap { map: HashMap::new() }
    }

    /// Looks a hash up with `hashbrown::HashMap::get`, which returns the value that
    /// is kept under it, if there is one.
    #[verifier::external_body]
    pub(crate) fn get(&self, hash: u64) -> (node: Option<usize>)
        ensures
            node == (if inode_map_entries(self).contains_key(hash) {
                Some(inode_map_entries(self)[hash])
            } else {
                None
            }),
    {
        self.map.get(&hash).copied()
    }

    /// Keeps a value under a hash with `hashbrown::HashMap::insert`, which returns
    /// the value that was there before.
    #[verifier::external_body]
    pub(crate) fn insert(&mut self, hash: u64, node: usize) -> (before: Option<usize>)
        ensures
            inode_map_entries(final(self)) == inode_map_entries(old(self)).insert(hash, node),
            before == (if inode_map_entries(old(self)).contains_key(hash) {
                Some(inode_map_entries(old(self))[hash])
            } else {
                None
            }),
    {
        self.map.insert(hash, node)
    }

    /// Forgets a hash with `hashbrown::HashMap::remove`.
    #[verifier::external_body]
    pub(crate) fn remove(&mut self, hash: u64)
        ensures
            inode_map_entries(final(self)) == inode_map_entries(old(self)).remove(hash),
    {
        self.map.remove(&hash);
    }

    /// Lists the values with `hashbrown::HashMap::values`, which visits the value of
    /// every key once. Nothing is said of the order.
    #[verifier::external_body]
    pub(crate) fn values(&self) -> (nodes: Vec<usize>)
        ensures
            lists_values(inode_map_entries(self), nodes@),
    {
        self.map.values().copied().collect()
    }
}

/// The values that a map has under some keys.
pub open spec fn values_of(entries: Map<u64, usize>, keys: Seq<u64>) -> Seq<usize> {
    Seq::new(keys.len(), |i: int| entries[keys[i]])
}

/// Whether `nodes` are the values of a map, one for every key, in some order.
pub open spec fn lists_values(entries: Map<u64, usize>, nodes: Seq<usize>) -> bool {
    exists|keys: Seq<u64>|
        keys.no_duplicates() && keys.to_set() == entries.dom() && #[trigger] values_of(
            entries,
            keys,
        ) == nodes
}

} // verus!
