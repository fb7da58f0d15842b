//! The chain state: what all states of a chain share.

use super::visitor::{answered, visited, visited_range, walk, Call, Visitor};
use crate::byte_map::{entries_of, option_bytes};
use crate::db::model::{batch_deletes_absent, changes_of, committed, find, StoreView};
use crate::db::{IterOrder, KVBatch, KValue, MerkleDB};
use crate::error::StateError;
use vstd::prelude::*;

verus! {

/// The state of the chain as of its last block, kept in a store.
pub struct ChainState<D: MerkleDB> {
    db: D,
}

/// What a request to a chain state may open: anything, since its store may. Only this module knows
/// that; elsewhere, a function that lists no other set can call nothing but requests to chain states.
pub closed spec fn storing() -> Set<int> {
    Set::full()
}

/// What a store answered to a commit that gave `done`.
pub open spec fn stored(done: Result<(Vec<u8>, u64), StateError>) -> Result<(), StateError> {
    match done {
        Ok(_) => Ok(()),
        Err(e) => Err(e),
    }
}

impl<D: MerkleDB> View for ChainState<D> {
    type V = StoreView;

    open spec fn view(&self) -> StoreView {
        self.store().view()
    }
}

impl<D: MerkleDB> ChainState<D> {
    /// The store that the chain state is kept in.
    pub closed spec fn store(&self) -> D {
        self.db
    }

    /// Whether the store itself may answer a read of `key` with `value`.
    pub open spec fn may_read(&self, key: &[u8], value: Result<Option<Vec<u8>>, StateError>) -> bool {
        call_ensures(D::get, (&self.store(), key), value)
    }

    /// Whether `found` may come from a read of `key` by the store itself: its error, or whether it
    /// found a value.
    pub open spec fn may_tell(&self, key: &[u8], found: Result<bool, StateError>) -> bool {
        match found {
            Ok(b) => exists|v: Option<Vec<u8>>| #[trigger] self.may_read(key, Ok(v)) && b == v is Some,
            Err(e) => self.may_read(key, Err(e)),
        }
    }

    /// Whether the store itself may answer a read of `key` as of `height` with `value`.
    pub open spec fn may_read_ver(
        &self,
        key: &[u8],
        height: u64,
        value: Result<Option<Vec<u8>>, StateError>,
    ) -> bool {
        call_ensures(D::get_ver, (&self.store(), key, height), value)
    }

    /// Whether a read of some key may fail with `error`.
    pub open spec fn may_fail_to_read(&self, error: StateError) -> bool {
        exists|key: &[u8]| #[trigger] self.may_read(key, Err(error))
    }

    /// Whether the store itself may answer a commit of `batch` with `done`.
    pub open spec fn may_commit(
        &self,
        batch: KVBatch,
        height: u64,
        flush: bool,
        done: Result<(), StateError>,
    ) -> bool {
        exists|db: &mut D|
            *db == self.store() && #[trigger] call_ensures(D::commit, (db, batch, height, flush), done)
    }

    /// Whether the store itself may answer an export into the store of `target` with `done`.
    pub open spec fn may_export(&self, target: &Self, height: u64, done: Result<(), StateError>) -> bool {
        exists|db: &mut D|
            *db == target.store() && #[trigger] call_ensures(D::export, (&self.store(), db, height), done)
    }

    /// Whether the store itself may tell that its height is `height`.
    pub open spec fn may_tell_height(&self, height: Result<u64, StateError>) -> bool {
        call_ensures(D::height, (&self.store(),), height)
    }

    /// Creates a chain state that is kept in `db`.
    pub fn new(db: D) -> (cs: Self)
        ensures
            cs@ == db.view(),
            cs.store() == db,
        opens_invariants storing()
    {
        ChainState { db }
    }

    /// Gets the value of `key`, where it has one.
    pub fn get(&self, key: &[u8]) -> (value: Result<Option<Vec<u8>>, StateError>)
        ensures
            self@.available ==> value is Ok,
            value matches Ok(v) ==> option_bytes(v) == find(self@.pairs, key@),
            self.may_read(key, value),
        opens_invariants storing()
    {
        self.db.get(key)
    }

    /// Gets the value that `key` had as of `height`.
    pub fn get_ver(&self, key: &[u8], height: u64) -> (value: Result<Option<Vec<u8>>, StateError>)
        ensures
            self@.available && self@.version(height) is Some ==> value is Ok,
            value matches Ok(v) ==> {
                &&& self@.version(height) is Some
                &&& option_bytes(v) == find(self@.version(height)->0, key@)
            },
            self.may_read_ver(key, height, value),
        opens_invariants storing()
    {
        self.db.get_ver(key, height)
    }

    /// Tells whether `key` has a value.
    pub fn key_exists(&self, key: &[u8]) -> (found: Result<bool, StateError>)
        ensures
            self@.available ==> found is Ok,
            found matches Ok(b) ==> b == self@.pairs.contains_key(key@),
            self.may_tell(key, found),
        opens_invariants storing()
    {
        match self.get(key) {
            Ok(value) => Ok(value.is_some()),
            Err(e) => Err(e),
        }
    }

    /// Calls the visitor on the pairs whose keys lie in the range from `lower` on up to, and without,
    /// `upper`, one after the other until it asks to stop. Tells whether it did.
    pub fn visit<V: Visitor>(&self, lower: &[u8], upper: &[u8], order: IterOrder, visitor: &mut V) -> (stopped: bool)
        requires
            old(visitor).ready(),
        ensures
            final(visitor).ready(),
            final(visitor).rule() == old(visitor).rule(),
            exists|calls: Seq<Call>|
                {
                    &&& #[trigger] visited_range(self@.pairs, lower@, upper@, order, calls, stopped)
                    &&& final(visitor).calls() == old(visitor).calls() + calls
                    &&& answered::<V>(old(visitor).rule(), calls)
                },
        opens_invariants storing()
    {
        let entries = self.db.range(lower, upper, order);
        let stopped = walk(entries, visitor);
        proof {
            let calls = choose|calls: Seq<Call>|
                {
                    &&& #[trigger] visited(entries@, calls, stopped)
                    &&& visitor.calls() == old(visitor).calls() + calls
                    &&& answered::<V>(old(visitor).rule(), calls)
                };
            assert(visited_range(self@.pairs, lower@, upper@, order, calls, stopped));
        }
        stopped
    }

    /// Commits the batch as the block of `height`, and returns the new root hash and the height.
    ///
    /// The store may not stand the deletion of a key that it does not hold, so a batch with such a
    /// deletion is refused.
    pub fn commit(&mut self, batch: KVBatch, height: u64, flush: bool) -> (done: Result<
        (Vec<u8>, u64),
        StateError,
    >)
        ensures
            old(self)@.available && !batch_deletes_absent(entries_of(batch@), old(self)@.pairs) ==> done is Ok,
            done matches Ok(block) ==> {
                &&& block.0@ == final(self)@.root
                &&& block.1 == height
                &&& committed(old(self)@, final(self)@, changes_of(entries_of(batch@)), height)
            },
            batch_deletes_absent(entries_of(batch@), old(self)@.pairs) ==> {
                &&& done is Err
                &&& old(self)@.available ==> done == Err::<(Vec<u8>, u64), StateError>(StateError::AbsentKey)
                &&& final(self)@ == old(self)@
            },
            match done {
                Ok(_) => old(self).may_commit(batch, height, flush, Ok(())),
                Err(e) => {
                    ||| e == StateError::AbsentKey && batch_deletes_absent(entries_of(batch@), old(self)@.pairs)
                    ||| old(self).may_fail_to_read(e)
                    ||| old(self).may_commit(batch, height, flush, Err(e))
                },
            },
            ({
                ||| exists|db: &mut D|
                    {
                        &&& *db == old(self).store()
                        &&& *final(db) == final(self).store()
                        &&& #[trigger] call_ensures(D::commit, (db, batch, height, flush), stored(done))
                    }
                ||| done is Err && *final(self) == *old(self)
            }),
        opens_invariants storing()
    {
        let ghost entries = entries_of(batch@);
        let mut i: usize = 0;
        while i < batch.len()
            invariant
                i <= batch@.len(),
                entries == entries_of(batch@),
                *self == *old(self),
                forall|j: int|
                    0 <= j < i && (#[trigger] entries[j]).1 is None ==> self@.pairs.contains_key(entries[j].0),
            decreases batch@.len() - i,
        {
            let entry = &batch[i];
            if entry.1.is_none() {
                match self.get(entry.0.as_slice()) {
                    Ok(Some(_)) => {},
                    Ok(None) => {
                        assert(entries[i as int].1 is None);
                        return Err(StateError::AbsentKey);
                    },
                    Err(e) => {
                        return Err(e);
                    },
                }
            }
            i = i + 1;
        }
        let result = self.db.commit(batch, height, flush);
        assert(old(self).may_commit(batch, height, flush, result));
        match result {
            Ok(unit) => {
                assert(unit == ());
                Ok((self.db.root_hash(), height))
            },
            Err(e) => Err(e),
        }
    }

    /// Makes `target` a copy of this chain state as of `height`.
    pub fn export(&self, target: &mut ChainState<D>, height: u64) -> (done: Result<(), StateError>)
        ensures
            self@.available && old(target)@.available && self@.version(height) is Some ==> done is Ok,
            done is Ok ==> {
                &&& self@.version(height) is Some
                &&& final(target)@.pairs == self@.version(height)->0
                &&& final(target)@.height == height
                &&& final(target)@.available == old(target)@.available
            },
            self@.version(height) is None ==> final(target)@ == old(target)@,
            self.may_export(old(target), height, done),
            exists|db: &mut D|
                {
                    &&& *db == old(target).store()
                    &&& *final(db) == final(target).store()
                    &&& #[trigger] call_ensures(D::export, (&self.store(), db, height), done)
                },
        opens_invariants storing()
    {
        self.db.export(&mut target.db, height)
    }

    /// Returns the height of the last block.
    pub fn height(&self) -> (height: Result<u64, StateError>)
        ensures
            self@.available ==> height is Ok,
            height matches Ok(h) ==> h == self@.height,
            self.may_tell_height(height),
        opens_invariants storing()
    {
        self.db.height()
    }

    /// Returns the root hash as of the last block.
    pub fn root_hash(&self) -> (hash: Vec<u8>)
        ensures
            hash@ == self@.root,
        opens_invariants storing()
    {
        self.db.root_hash()
    }
}

} // verus!
