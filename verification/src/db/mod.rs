//! The persistence layer: what a state asks of a store, and a store in memory.

pub mod memory;
pub mod model;

use crate::byte_map::{entries_of, option_bytes, ByteMap};
use crate::error::StateError;
pub use memory::MemoryDB;
pub use model::{IterOrder, StoreView};
use model::{batch_deletes_absent, changes_of, committed, find, lists_range};
use vstd::prelude::*;

verus! {

/// A key with its value.
pub type KValue = (Vec<u8>, Vec<u8>);

/// A key with its new value, or with `None` to delete it.
pub type KVEntry = (Vec<u8>, Option<Vec<u8>>);

/// Changes to commit together.
pub type KVBatch = Vec<KVEntry>;

/// A map from keys to their values.
pub type KVecMap = ByteMap<Vec<u8>>;

/// A store of key-value pairs with versions, and with a root hash over its pairs.
pub trait MerkleDB: Sized {
    /// What the store holds.
    spec fn view(&self) -> StoreView;

    /// Returns the value of `key`, where it has one.
    fn get(&self, key: &[u8]) -> (value: Result<Option<Vec<u8>>, StateError>)
        ensures
            self.view().available ==> value is Ok,
            value matches Ok(v) ==> option_bytes(v) == find(self.view().pairs, key@),
    ;

    /// Returns the value that `key` had as of `height`.
    fn get_ver(&self, key: &[u8], height: u64) -> (value: Result<Option<Vec<u8>>, StateError>)
        ensures
            self.view().available && self.view().version(height) is Some ==> value is Ok,
            value matches Ok(v) ==> {
                &&& self.view().version(height) is Some
                &&& option_bytes(v) == find(self.view().version(height)->0, key@)
            },
    ;

    /// Returns the pairs whose keys lie in the range from `lower` on up to, and without, `upper`.
    fn range(&self, lower: &[u8], upper: &[u8], order: IterOrder) -> (entries: Vec<KValue>)
        ensures
            lists_range(entries_of(entries@), self.view().pairs, lower@, upper@, order),
    ;

    /// Commits the batch as the version of `height`; `flush` asks that it reach the disk at once.
    ///
    /// A store need not stand the deletion of a key that it does not hold.
    fn commit(&mut self, batch: KVBatch, height: u64, flush: bool) -> (done: Result<(), StateError>)
        requires
            !batch_deletes_absent(entries_of(batch@), old(self).view().pairs),
        ensures
            old(self).view().available ==> done is Ok,
            done is Ok ==> committed(
                old(self).view(),
                final(self).view(),
                changes_of(entries_of(batch@)),
                height,
            ),
    ;

    /// Returns the height of the last commit.
    fn height(&self) -> (height: Result<u64, StateError>)
        ensures
            self.view().available ==> height is Ok,
            height matches Ok(h) ==> h == self.view().height,
    ;

    /// Returns the root hash as of the last commit.
    fn root_hash(&self) -> (hash: Vec<u8>)
        ensures
            hash@ == self.view().root,
    ;

    /// Makes `target` a copy of what this store held as of `height`.
    fn export(&self, target: &mut Self, height: u64) -> (done: Result<(), StateError>)
        ensures
            self.view().available && old(target).view().available && self.view().version(height) is Some
                ==> done is Ok,
            done is Ok ==> {
                &&& self.view().version(height) is Some
                &&& final(target).view().pairs == self.view().version(height)->0
                &&& final(target).view().height == height
                &&& final(target).view().available == old(target).view().available
            },
            self.view().version(height) is None ==> final(target).view() == old(target).view(),
    ;
}

} // verus!
