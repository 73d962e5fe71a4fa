//! The table of covered tiles, kept in a hash map of the engine's utilities.
//!
//! Nothing in this file is proved: each function states what the hash map's
//! documentation says of the method that it calls.

use vstd::prelude::*;

verus! {

/// The covered tiles of a board: for each of them, under its column and row,
/// the handle of its cover. The table is a `bevy::utils::HashMap`, which the
/// verifier cannot look into; [`covered_entries`] names what it holds.
#[derive(Debug)]
#[verifier::external_body]
pub struct CoveredTiles {
    tiles: bevy::utils::HashMap<(u16, u16), u64>,
}

/// What a table holds: the handle stored under each key.
pub uninterp spec fn covered_entries(tiles: CoveredTiles) -> Map<(u16, u16), u64>;

impl CoveredTiles {
    /// `HashMap::default`: a table that holds nothing.
    #[verifier::external_body]
    pub(crate) fn new() -> (table: CoveredTiles)
        ensures
            forall|key: (u16, u16)| !covered_entries(table).dom().contains(key),
    {
        CoveredTiles { tiles: bevy::utils::HashMap::default() }
    }

    /// `HashMap::len`: the number of keys in the table.
    #[verifier::external_body]
    pub(crate) fn len(&self) -> (n: usize)
        ensures
            n == covered_entries(*self).dom().len(),
    {
        self.tiles.len()
    }

    /// `HashMap::get`: the handle stored under `key`, if there is one.
    #[verifier::external_body]
    pub(crate) fn get(&self, key: (u16, u16)) -> (handle: Option<u64>)
        ensures
            handle == if covered_entries(*self).dom().contains(key) {
                Some(covered_entries(*self)[key])
            } else {
                None
            },
    {
        self.tiles.get(&key).copied()
    }

    /// `HashMap::contains_key`: whether a handle is stored under `key`.
    #[verifier::external_body]
    pub(crate) fn contains_key(&self, key: (u16, u16)) -> (present: bool)
        ensures
            present == covered_entries(*self).dom().contains(key),
    {
        self.tiles.contains_key(&key)
    }

    /// `HashMap::insert`: stores `handle` under `key`, in place of the handle
    /// that was there, and returns the handle that was there, if any.
    #[verifier::external_body]
    pub(crate) fn insert(&mut self, key: (u16, u16), handle: u64) -> (previous: Option<u64>)
        ensures
            covered_entries(*final(self)) == covered_entries(*old(self)).insert(key, handle),
            previous == if covered_entries(*old(self)).dom().contains(key) {
                Some(covered_entries(*old(self))[key])
            } else {
                None
            },
    {
        self.tiles.insert(key, handle)
    }

    /// `HashMap::remove`: takes `key` out of the table and returns the
    /// handle that was stored under it, if any.
    #[verifier::external_body]
    pub(crate) fn remove(&mut self, key: (u16, u16)) -> (removed: Option<u64>)
        ensures
            covered_entries(*final(self)) == covered_entries(*old(self)).remove(key),
            removed == if covered_entries(*old(self)).dom().contains(key) {
                Some(covered_entries(*old(self))[key])
            } else {
                None
            },
    {
        self.tiles.remove(&key)
    }
}

} // verus!
