//! The state that the stores of an application work on: the chain state, which all states share,
//! under a cache of pending changes, which is a state's own.

pub mod cache;
pub mod chain_state;
pub mod laws;
pub mod lock;
pub mod visitor;

use crate::byte_map::{entries_of, option_bytes};
use crate::db::model::{
    changes_of_listing, committed, deletes_absent, find, listing_deletes_absent, overlay, Changes, StoreView,
};
use crate::db::{IterOrder, KVBatch, KValue, MerkleDB};
use crate::error::StateError;
use crate::listing::lists;
use cache::{all_storable, caching, storable, with_prefix, CacheView};
pub use cache::{KVMap, KVecMap, SessionedCache};
use chain_state::{stored, storing};
pub use chain_state::ChainState;
use lock::{reading, sharing, writing, Shared};
use parking_lot::RwLock;
use std::sync::Arc;
use visitor::{answered, visited_range, walked_range, Call};
pub use visitor::{Callback, Visitor};
use vstd::prelude::*;

verus! {

/// Whether `value` is what reading `key` gives over a store with the given contents: the pending
/// change of `key`, or else the value in the store. Only a read that reaches the store can fail.
pub open spec fn get_answer(
    cache: CacheView,
    store: StoreView,
    key: Seq<u8>,
    value: Result<Option<Vec<u8>>, StateError>,
) -> bool {
    &&& cache.cur.contains_key(key) || store.available ==> value is Ok
    &&& value matches Ok(v) ==> option_bytes(v) == find(overlay(store.pairs, cache.cur), key)
}

/// Whether `value` is what the store gives for `key` as of `height`.
pub open spec fn version_answer(
    store: StoreView,
    key: Seq<u8>,
    height: u64,
    value: Result<Option<Vec<u8>>, StateError>,
) -> bool {
    &&& store.available && store.version(height) is Some ==> value is Ok
    &&& value matches Ok(v) ==> {
        &&& store.version(height) is Some
        &&& option_bytes(v) == find(store.version(height)->0, key)
    }
}

/// Whether `found` tells whether `key` has a value over a store with the given contents: by the
/// pending change of `key`, or else by the store. Only a query that reaches the store can fail.
pub open spec fn exists_answer(
    cache: CacheView,
    store: StoreView,
    key: Seq<u8>,
    found: Result<bool, StateError>,
) -> bool {
    &&& cache.cur.contains_key(key) || store.available ==> found is Ok
    &&& found matches Ok(b) ==> b == overlay(store.pairs, cache.cur).contains_key(key)
}

/// Whether a deletion of `key` turns the cache `pre` into `post`: a key of the store is marked as
/// deleted, another is forgotten; where the store fails, nothing changes.
pub open spec fn delete_answer(
    pre: CacheView,
    post: CacheView,
    store: StoreView,
    key: Seq<u8>,
    done: Result<(), StateError>,
) -> bool {
    &&& store.available ==> done is Ok
    &&& post == if done is Err {
        pre
    } else if store.pairs.contains_key(key) {
        pre.change(key, None)
    } else {
        pre.forget(key)
    }
}

/// Whether `done` comes from where the result of a deletion may come from: it fails with the error
/// of a read of `key` by the store of `cs`, and succeeds where that read does.
pub open spec fn delete_origin<D: MerkleDB>(cs: &ChainState<D>, key: &[u8], done: Result<(), StateError>) -> bool {
    match done {
        Ok(_) => exists|v: Option<Vec<u8>>| #[trigger] cs.may_read(key, Ok(v)),
        Err(e) => cs.may_read(key, Err(e)),
    }
}

/// Whether a commit of the changes at `height` turns the store `pre` into `post` and gives `done`:
/// the new root hash and the height. Changes that delete a key which the store lacks are refused.
pub open spec fn commit_answer(
    changes: Changes,
    pre: StoreView,
    post: StoreView,
    height: u64,
    done: Result<(Vec<u8>, u64), StateError>,
) -> bool {
    &&& pre.available && !deletes_absent(changes, pre.pairs) ==> done is Ok
    &&& done matches Ok(block) ==> {
        &&& block.0@ == post.root
        &&& block.1 == height
        &&& committed(pre, post, changes, height)
    }
    &&& deletes_absent(changes, pre.pairs) ==> {
        &&& done is Err
        &&& pre.available ==> done == Err::<(Vec<u8>, u64), StateError>(StateError::AbsentKey)
        &&& post == pre
    }
}

/// Whether `done` comes from where the result of a commit may come from: from the commit of a batch
/// that lists the changes by the store of `cs`, from a read that this store failed to serve, or
/// from the refusal of a deletion.
pub open spec fn commit_origin<D: MerkleDB>(
    cs: &ChainState<D>,
    changes: Changes,
    height: u64,
    done: Result<(Vec<u8>, u64), StateError>,
) -> bool {
    match done {
        Ok(_) => exists|batch: KVBatch|
            lists(entries_of(batch@), changes) && #[trigger] cs.may_commit(batch, height, true, Ok(())),
        Err(e) => {
            ||| e == StateError::AbsentKey && deletes_absent(changes, cs@.pairs)
            ||| cs.may_fail_to_read(e)
            ||| exists|batch: KVBatch|
                lists(entries_of(batch@), changes) && #[trigger] cs.may_commit(batch, height, true, Err(e))
        },
    }
}

/// Whether an export as of `height` turns the store `pre` into `post`, a copy of that version.
pub open spec fn export_answer(
    source: StoreView,
    pre: StoreView,
    post: StoreView,
    height: u64,
    done: Result<(), StateError>,
) -> bool {
    &&& source.available && pre.available && source.version(height) is Some ==> done is Ok
    &&& done is Ok ==> {
        &&& source.version(height) is Some
        &&& post.pairs == source.version(height)->0
        &&& post.height == height
        &&& post.available == pre.available
    }
    &&& source.version(height) is None ==> post == pre
}

/// Whether `height` is the height of the store.
pub open spec fn height_answer(store: StoreView, height: Result<u64, StateError>) -> bool {
    &&& store.available ==> height is Ok
    &&& height matches Ok(h) ==> h == store.height
}

/// Deletes `key` in a cache over the chain state `cs`.
fn delete_in<D: MerkleDB>(cache: &mut SessionedCache, cs: &ChainState<D>, key: &[u8]) -> (done: Result<
    (),
    StateError,
>)
    ensures
        delete_answer(old(cache)@, final(cache)@, cs@, key@, done),
        delete_origin(cs, key, done),
    opens_invariants caching().union(storing())
{
    match cs.get(key) {
        Ok(Some(_)) => cache.delete(key),
        Ok(None) => cache.remove(key),
        Err(e) => {
            return Err(e);
        },
    }
    Ok(())
}

/// Commits the changes of a cache to the chain state `cs` as the block of `height`, and clears the
/// cache.
fn commit_in<D: MerkleDB>(cache: &mut SessionedCache, cs: &mut ChainState<D>, height: u64) -> (done: Result<
    (Vec<u8>, u64),
    StateError,
>)
    ensures
        final(cache)@ == CacheView::empty(old(cache)@.is_merkle),
        commit_answer(old(cache)@.cur, old(cs)@, final(cs)@, height, done),
        commit_origin(old(cs), old(cache)@.cur, height, done),
        ({
            ||| exists|db: &mut D, batch: KVBatch|
                {
                    &&& *db == old(cs).store()
                    &&& *final(db) == final(cs).store()
                    &&& lists(entries_of(batch@), old(cache)@.cur)
                    &&& #[trigger] call_ensures(D::commit, (db, batch, height, true), stored(done))
                }
            ||| done is Err && *final(cs) == *old(cs)
        }),
        all_storable(old(cache)@.cur, old(cache)@.is_merkle),
    opens_invariants caching().union(storing())
{
    let batch = cache.commit();
    *cache = SessionedCache::new(cache.is_merkle());
    proof {
        changes_of_listing(entries_of(batch@), old(cache)@.cur);
        listing_deletes_absent(entries_of(batch@), old(cache)@.cur, cs@.pairs);
    }
    cs.commit(batch, height, true)
}

/// A reference to the chain state, and a cache that collects the changes of a block and serves to
/// simulate transactions.
///
/// The header of each request tells, by what it may open, what it does besides working on its
/// arguments: whether it works on a cache, reads the chain state through the lock, writes to it, or
/// makes another handle of the lock. Only a commit writes, and it makes no other handle.
#[verifier::reject_recursive_types(D)]
pub struct State<D: MerkleDB> {
    chain_state: Shared<ChainState<D>>,
    cache: SessionedCache,
}

impl<D: MerkleDB> View for State<D> {
    type V = CacheView;

    closed spec fn view(&self) -> CacheView {
        self.cache@
    }
}

impl<D: MerkleDB> State<D> {
    /// The chain state that this state refers to.
    pub closed spec fn shared(&self) -> Arc<RwLock<ChainState<D>>> {
        self.chain_state.lock()
    }

    /// What was written to the chain state through this state: the chain state right before and right
    /// after each write, in the order of the writes. Nothing else is ever written through it.
    pub closed spec fn written(&self) -> Seq<(ChainState<D>, ChainState<D>)> {
        self.chain_state.written()
    }

    /// Creates a state with the same chain state and a copy of the cache.
    pub fn substate(&self) -> (state: Self)
        ensures
            state.shared() == self.shared(),
            state.written() == Seq::<(ChainState<D>, ChainState<D>)>::empty(),
            state@ == self@,
        opens_invariants sharing().union(caching())
    {
        State { chain_state: self.chain_state.share(), cache: self.cache.duplicate() }
    }

    /// Creates a state with a new cache over a shared chain state.
    pub fn new(cs: Arc<RwLock<ChainState<D>>>, is_merkle: bool) -> (state: Self)
        ensures
            state.shared() == cs,
            state.written() == Seq::<(ChainState<D>, ChainState<D>)>::empty(),
            state@ == CacheView::empty(is_merkle),
        opens_invariants sharing().union(caching())
    {
        State { chain_state: Shared::new(cs), cache: SessionedCache::new(is_merkle) }
    }

    /// Creates a state with the same chain state and a copy of the cache.
    pub fn copy(&self) -> (state: Self)
        ensures
            state.shared() == self.shared(),
            state.written() == Seq::<(ChainState<D>, ChainState<D>)>::empty(),
            state@ == self@,
        opens_invariants sharing().union(caching())
    {
        State { chain_state: self.chain_state.share(), cache: self.cache.duplicate() }
    }

    /// Returns the chain state.
    pub fn chain_state(&self) -> (cs: Arc<RwLock<ChainState<D>>>)
        ensures
            cs == self.shared(),
        opens_invariants sharing()
    {
        self.chain_state.inner()
    }

    /// Returns the pending change of `key`, where there is one.
    fn pending(&self, key: &[u8]) -> (change: Option<Option<Vec<u8>>>)
        ensures
            change is Some == self@.cur.contains_key(key@),
            change matches Some(v) ==> option_bytes(v) == self@.cur[key@],
        opens_invariants caching()
    {
        if self.cache.deleted(key) {
            return Some(None);
        }
        if self.cache.hasv(key) {
            return Some(self.cache.getv(key));
        }
        None
    }

    /// Gets the value of `key` over the chain state `cs`.
    pub fn get_from(&self, cs: &ChainState<D>, key: &[u8]) -> (value: Result<Option<Vec<u8>>, StateError>)
        ensures
            get_answer(self@, cs@, key@, value),
            !self@.cur.contains_key(key@) ==> cs.may_read(key, value),
        opens_invariants caching().union(storing())
    {
        match self.pending(key) {
            Some(change) => Ok(change),
            None => cs.get(key),
        }
    }

    /// Gets the value of `key`: the latest in the cache or, where the cache has no record of the
    /// key, the one in the chain state.
    pub fn get(&self, key: &[u8]) -> (value: Result<Option<Vec<u8>>, StateError>)
        ensures
            self@.cur.contains_key(key@) ==> (value matches Ok(v) && option_bytes(v) == self@.cur[key@]),
            !self@.cur.contains_key(key@) ==> exists|cs: ChainState<D>| #[trigger]
                cs.may_read(key, value) && get_answer(self@, cs@, key@, value),
        opens_invariants caching().union(reading())
    {
        match self.pending(key) {
            Some(change) => Ok(change),
            None => self.chain_state.read(
                key,
                |cs: &ChainState<D>, key: &[u8]| -> (value: Result<Option<Vec<u8>>, StateError>)
                    ensures
                        cs.may_read(key, value),
                        cs@.available ==> value is Ok,
                        value matches Ok(v) ==> option_bytes(v) == find(cs@.pairs, key@),
                    { cs.get(key) }
            ),
        }
    }

    /// Gets the value that `key` had as of `height` in the chain state.
    pub fn get_ver(&self, key: &[u8], height: u64) -> (value: Result<Option<Vec<u8>>, StateError>)
        ensures
            exists|cs: ChainState<D>| #[trigger]
                cs.may_read_ver(key, height, value) && version_answer(cs@, key@, height, value),
        opens_invariants reading()
    {
        self.chain_state.read(
            key,
            |cs: &ChainState<D>, key: &[u8]| -> (value: Result<Option<Vec<u8>>, StateError>)
                ensures
                    cs.may_read_ver(key, height, value),
                    version_answer(cs@, key@, height, value),
                { cs.get_ver(key, height) }
        )
    }

    /// Queries whether `key` has a value over the chain state `cs`.
    pub fn exists_in(&self, cs: &ChainState<D>, key: &[u8]) -> (found: Result<bool, StateError>)
        ensures
            exists_answer(self@, cs@, key@, found),
            !self@.cur.contains_key(key@) ==> cs.may_tell(key, found),
        opens_invariants caching().union(storing())
    {
        match self.pending(key) {
            Some(Some(_)) => Ok(true),
            Some(None) => Ok(false),
            None => cs.key_exists(key),
        }
    }

    /// Queries whether `key` has a value: by the cache or, where the cache has no record of the key,
    /// by the chain state. A key whose deletion is pending has none.
    pub fn key_exists(&self, key: &[u8]) -> (found: Result<bool, StateError>)
        ensures
            self@.cur.contains_key(key@) ==> found == Ok::<bool, StateError>(self@.cur[key@] is Some),
            !self@.cur.contains_key(key@) ==> exists|cs: ChainState<D>| #[trigger]
                cs.may_tell(key, found) && exists_answer(self@, cs@, key@, found),
        opens_invariants caching().union(reading())
    {
        match self.pending(key) {
            Some(Some(_)) => Ok(true),
            Some(None) => Ok(false),
            None => self.chain_state.read(
                key,
                |cs: &ChainState<D>, key: &[u8]| -> (found: Result<bool, StateError>)
                    ensures
                        cs.may_tell(key, found),
                        cs@.available ==> found is Ok,
                        found matches Ok(b) ==> b == cs@.pairs.contains_key(key@),
                    { cs.key_exists(key) }
            ),
        }
    }

    /// Sets the value of `key` in the cache.
    pub fn set(&mut self, key: &[u8], value: Vec<u8>) -> (done: Result<(), StateError>)
        ensures
            final(self).shared() == old(self).shared(),
            final(self).written() == old(self).written(),
            done == if storable(key@, value@, old(self)@.is_merkle) {
                Ok::<(), StateError>(())
            } else {
                Err::<(), StateError>(StateError::InvalidKeyValue)
            },
            final(self)@ == if done is Ok {
                old(self)@.change(key@, Some(value@))
            } else {
                old(self)@
            },
        opens_invariants caching()
    {
        if self.cache.put(key, value) {
            Ok(())
        } else {
            Err(StateError::InvalidKeyValue)
        }
    }

    /// Deletes `key` over the chain state `cs`.
    pub fn delete_from(&mut self, cs: &ChainState<D>, key: &[u8]) -> (done: Result<(), StateError>)
        ensures
            final(self).shared() == old(self).shared(),
            final(self).written() == old(self).written(),
            delete_answer(old(self)@, final(self)@, cs@, key@, done),
            delete_origin(cs, key, done),
        opens_invariants caching().union(storing())
    {
        delete_in(&mut self.cache, cs, key)
    }

    /// Deletes `key`. The deletion of a key is represented by `None` in place of its value.
    ///
    /// A store need not stand the deletion of a key that it does not hold. So the chain state is
    /// queried first: a key that is found there is marked as deleted; of another key the record is
    /// removed from the cache.
    pub fn delete(&mut self, key: &[u8]) -> (done: Result<(), StateError>)
        ensures
            final(self).shared() == old(self).shared(),
            final(self).written() == old(self).written(),
            exists|cs: ChainState<D>| #[trigger]
                delete_answer(old(self)@, final(self)@, cs@, key@, done) && delete_origin(&cs, key, done),
        opens_invariants reading()
    {
        let done = self.chain_state.read(
            &mut self.cache,
            |cs: &ChainState<D>, cache: &mut SessionedCache| -> (done: Result<(), StateError>)
                ensures
                    delete_answer(old(cache)@, final(cache)@, cs@, key@, done),
                    delete_origin(cs, key, done),
                { delete_in(cache, cs, key) }
        );
        proof {
            let cs = choose|cs: ChainState<D>| #[trigger]
                delete_answer(old(self).cache@, self.cache@, cs@, key@, done) && delete_origin(&cs, key, done);
            assert(delete_answer(old(self)@, self@, cs@, key@, done));
        }
        done
    }

    /// Calls the visitor on the pairs of the chain state whose keys lie in the range from `lower` on
    /// up to, and without, `upper`, one after the other until it asks to stop. Tells whether it did.
    pub fn visit<V: Visitor>(&self, lower: &[u8], upper: &[u8], order: IterOrder, visitor: &mut V) -> (stopped: bool)
        requires
            old(visitor).ready(),
        ensures
            final(visitor).ready(),
            final(visitor).rule() == old(visitor).rule(),
            exists|cs: ChainState<D>, calls: Seq<Call>|
                {
                    &&& #[trigger] visited_range(cs@.pairs, lower@, upper@, order, calls, stopped)
                    &&& final(visitor).calls() == old(visitor).calls() + calls
                    &&& answered::<V>(old(visitor).rule(), calls)
                },
        opens_invariants reading()
    {
        self.chain_state.read(
            visitor,
            |cs: &ChainState<D>, visitor: &mut V| -> (stopped: bool)
                requires
                    old(visitor).ready(),
                ensures
                    final(visitor).ready(),
                    final(visitor).rule() == old(visitor).rule(),
                    exists|calls: Seq<Call>|
                        {
                            &&& #[trigger] visited_range(cs@.pairs, lower@, upper@, order, calls, stopped)
                            &&& final(visitor).calls() == old(visitor).calls() + calls
                            &&& answered::<V>(old(visitor).rule(), calls)
                        },
                { cs.visit(lower, upper, order, visitor) }
        )
    }

    /// Calls `func` on the pairs of the chain state whose keys lie in the range from `lower` on up
    /// to, and without, `upper`, until it returns `true`. Tells whether it did. The calls are those of
    /// [`Self::visit`]; what `func` does besides answering is not stated.
    pub fn iterate<F: FnMut(KValue) -> bool>(
        &self,
        lower: &[u8],
        upper: &[u8],
        order: IterOrder,
        func: &mut F,
    ) -> (stopped: bool)
        requires
            forall|entry: KValue| call_requires(*old(func), (entry,)),
        ensures
            exists|cs: ChainState<D>| #[trigger]
                walked_range(*old(func), cs@.pairs, lower@, upper@, order, stopped),
        opens_invariants reading()
    {
        let mut callback = Callback::new(func);
        let stopped = self.visit(lower, upper, order, &mut callback);
        proof {
            let (cs, calls) = choose|cs: ChainState<D>, calls: Seq<Call>|
                {
                    &&& #[trigger] visited_range(cs@.pairs, lower@, upper@, order, calls, stopped)
                    &&& answered::<Callback<F>>(*old(func), calls)
                };
            assert(walked_range(*old(func), cs@.pairs, lower@, upper@, order, stopped));
        }
        stopped
    }

    /// Applies the pending changes to keys with the given prefix to `map`.
    pub fn iterate_cache(&self, prefix: &[u8], map: &mut KVecMap)
        ensures
            final(map)@ == overlay(old(map)@, with_prefix(self@.cur, prefix@)),
        opens_invariants caching()
    {
        self.cache.iter_prefix(prefix, map)
    }

    /// Commits the changes to the chain state `cs` as the block of `height`, and clears the cache.
    pub fn commit_to(&mut self, cs: &mut ChainState<D>, height: u64) -> (done: Result<(Vec<u8>, u64), StateError>)
        ensures
            final(self).shared() == old(self).shared(),
            final(self).written() == old(self).written(),
            final(self)@ == CacheView::empty(old(self)@.is_merkle),
            commit_answer(old(self)@.cur, old(cs)@, final(cs)@, height, done),
            commit_origin(old(cs), old(self)@.cur, height, done),
            ({
                ||| exists|db: &mut D, batch: KVBatch|
                    {
                        &&& *db == old(cs).store()
                        &&& *final(db) == final(cs).store()
                        &&& lists(entries_of(batch@), old(self)@.cur)
                        &&& #[trigger] call_ensures(D::commit, (db, batch, height, true), stored(done))
                    }
                ||| done is Err && *final(cs) == *old(cs)
            }),
            all_storable(old(self)@.cur, old(self)@.is_merkle),
        opens_invariants caching().union(storing())
    {
        commit_in(&mut self.cache, cs, height)
    }

    /// Commits the changes to the chain state as the block of `height`, and clears the cache.
    /// Returns the new root hash and the height. No pair that is too long for a Merkle tree is
    /// among the changes of a state that is meant for one.
    ///
    /// Changes that delete a key which the chain state lacks are refused. That can only happen
    /// where the key has been deleted through another holder of the chain state in the meantime.
    pub fn commit(&mut self, height: u64) -> (done: Result<(Vec<u8>, u64), StateError>)
        ensures
            final(self).shared() == old(self).shared(),
            final(self)@ == CacheView::empty(old(self)@.is_merkle),
            exists|before: ChainState<D>, after: ChainState<D>|
                {
                    &&& final(self).written() == old(self).written().push((before, after))
                    &&& #[trigger] commit_answer(old(self)@.cur, before@, after@, height, done)
                    &&& commit_origin(&before, old(self)@.cur, height, done)
                    &&& ({
                        ||| exists|db: &mut D, batch: KVBatch|
                            {
                                &&& *db == before.store()
                                &&& *final(db) == after.store()
                                &&& lists(entries_of(batch@), old(self)@.cur)
                                &&& #[trigger] call_ensures(D::commit, (db, batch, height, true), stored(done))
                            }
                        ||| done is Err && after == before
                    })
                },
            all_storable(old(self)@.cur, old(self)@.is_merkle),
        opens_invariants writing()
    {
        self.chain_state.write(
            &mut self.cache,
            |cs: &mut ChainState<D>, cache: &mut SessionedCache| -> (told: (
                Result<(Vec<u8>, u64), StateError>,
                Ghost<(ChainState<D>, ChainState<D>)>,
            ))
                ensures
                    told.1@ == (*old(cs), *final(cs)),
                    final(cache)@ == CacheView::empty(old(cache)@.is_merkle),
                    commit_answer(old(cache)@.cur, old(cs)@, final(cs)@, height, told.0),
                    commit_origin(old(cs), old(cache)@.cur, height, told.0),
                    ({
                        ||| exists|db: &mut D, batch: KVBatch|
                            {
                                &&& *db == old(cs).store()
                                &&& *final(db) == final(cs).store()
                                &&& lists(entries_of(batch@), old(cache)@.cur)
                                &&& #[trigger] call_ensures(D::commit, (db, batch, height, true), stored(told.0))
                            }
                        ||| told.0 is Err && *final(cs) == *old(cs)
                    }),
                    all_storable(old(cache)@.cur, old(cache)@.is_merkle),
                {
                    let ghost before = *cs;
                    let done = commit_in(cache, cs, height);
                    (done, Ghost((before, *cs)))
                }
        )
    }

    /// Commits the current session: its changes survive a later discard. Returns all changes of the
    /// block in order of their keys.
    pub fn commit_session(&mut self) -> (batch: KVBatch)
        ensures
            final(self).shared() == old(self).shared(),
            final(self).written() == old(self).written(),
            final(self)@ == old(self)@.commit(),
            lists(entries_of(batch@), old(self)@.cur),
            all_storable(old(self)@.cur, old(self)@.is_merkle),
        opens_invariants caching()
    {
        self.cache.commit()
    }

    /// Discards the current session: the cache is again what it was after the last committed one.
    pub fn discard_session(&mut self)
        ensures
            final(self).shared() == old(self).shared(),
            final(self).written() == old(self).written(),
            final(self)@ == old(self)@.discard(),
        opens_invariants caching()
    {
        self.cache.discard()
    }

    /// Makes `cs` a copy of the chain state as of `height`.
    pub fn export(&self, cs: &mut ChainState<D>, height: u64) -> (done: Result<(), StateError>)
        ensures
            exists|source: ChainState<D>| #[trigger]
                export_answer(source@, old(cs)@, final(cs)@, height, done) && source.may_export(
                    old(cs),
                    height,
                    done,
                ) && exists|db: &mut D|
                    {
                        &&& *db == old(cs).store()
                        &&& *final(db) == final(cs).store()
                        &&& #[trigger] call_ensures(D::export, (&source.store(), db, height), done)
                    },
        opens_invariants reading()
    {
        self.chain_state.read(
            cs,
            |source: &ChainState<D>, cs: &mut ChainState<D>| -> (done: Result<(), StateError>)
                ensures
                    export_answer(source@, old(cs)@, final(cs)@, height, done),
                    source.may_export(old(cs), height, done),
                    exists|db: &mut D|
                        {
                            &&& *db == old(cs).store()
                            &&& *final(db) == final(cs).store()
                            &&& #[trigger] call_ensures(D::export, (&source.store(), db, height), done)
                        },
                { source.export(cs, height) }
        )
    }

    /// Tells whether `key` was changed in the current block.
    pub fn touched(&self, key: &[u8]) -> (touched: bool)
        ensures
            touched == self@.cur.contains_key(key@),
        opens_invariants caching()
    {
        self.cache.touched(key)
    }

    /// Returns the height of the chain state.
    pub fn height(&self) -> (height: Result<u64, StateError>)
        ensures
            exists|cs: ChainState<D>| #[trigger] height_answer(cs@, height) && cs.may_tell_height(height),
        opens_invariants reading()
    {
        self.chain_state.read(
            (),
            |cs: &ChainState<D>, _nothing: ()| -> (height: Result<u64, StateError>)
                ensures
                    height_answer(cs@, height),
                    cs.may_tell_height(height),
                { cs.height() }
        )
    }

    /// Returns the root hash of the last commit.
    pub fn root_hash(&self) -> (hash: Vec<u8>)
        ensures
            exists|cs: ChainState<D>| hash@ == (#[trigger] cs@).root,
        opens_invariants reading()
    {
        self.chain_state.read(
            (),
            |cs: &ChainState<D>, _nothing: ()| -> (hash: Vec<u8>)
                ensures
                    hash@ == cs@.root,
                { cs.root_hash() }
        )
    }
}

} // verus!
