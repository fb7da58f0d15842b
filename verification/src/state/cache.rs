//! The cache of a state: the changes that are pending in the current block.

use crate::byte_map::{entries_of, option_bytes, ByteMap, Stored};
use crate::bytes::{has_prefix, starts_with};
use crate::db::model::{overlay, overlay_step, Changes};
pub use crate::db::KVecMap;
use crate::db::KVBatch;
use crate::listing::{has_key, listed_at, lists, position};
use vstd::prelude::*;

verus! {

/// The longest key that a Merkle tree can hold.
pub const MAX_KEY_LEN: usize = 255;

/// The longest value that a Merkle tree can hold.
pub const MAX_VALUE_LEN: usize = 65535;

/// A map from keys to their pending changes: a new value, or `None` for a deletion.
pub type KVMap = ByteMap<Option<Vec<u8>>>;

/// Whether the pair can be stored: a Merkle tree limits the lengths, another store does not.
pub open spec fn storable(key: Seq<u8>, value: Seq<u8>, is_merkle: bool) -> bool {
    is_merkle ==> key.len() <= MAX_KEY_LEN && value.len() <= MAX_VALUE_LEN
}

/// Whether each pair that the changes set can be stored.
pub open spec fn all_storable(changes: Changes, is_merkle: bool) -> bool {
    forall|k: Seq<u8>| #[trigger]
        changes.contains_key(k) && changes[k] is Some ==> storable(k, changes[k]->0, is_merkle)
}

/// The changes to keys with the given prefix.
pub open spec fn with_prefix(changes: Changes, prefix: Seq<u8>) -> Changes {
    Map::new(|k: Seq<u8>| changes.contains_key(k) && starts_with(k, prefix), |k: Seq<u8>| changes[k])
}

/// What a cache holds.
#[verifier::ext_equal]
pub struct CacheView {
    /// All changes of the block, with those of the current session.
    pub cur: Changes,
    /// The changes of the block as of the last committed session.
    pub base: Changes,
    /// Whether the pairs are meant for a Merkle tree.
    pub is_merkle: bool,
}

impl CacheView {
    /// A cache without changes.
    pub open spec fn empty(is_merkle: bool) -> Self {
        CacheView { cur: Changes::empty(), base: Changes::empty(), is_merkle }
    }

    /// The cache after a change to `key` in the current session.
    pub open spec fn change(self, key: Seq<u8>, value: Option<Seq<u8>>) -> Self {
        CacheView { cur: self.cur.insert(key, value), ..self }
    }

    /// The cache after the change to `key` is taken back.
    pub open spec fn forget(self, key: Seq<u8>) -> Self {
        CacheView { cur: self.cur.remove(key), ..self }
    }

    /// The cache after the current session is committed.
    pub open spec fn commit(self) -> Self {
        CacheView { base: self.cur, ..self }
    }

    /// The cache after the current session is discarded.
    pub open spec fn discard(self) -> Self {
        CacheView { cur: self.base, ..self }
    }
}

/// What a request to a cache may open. Only this module knows which set that is; elsewhere, a function
/// that lists no other set can call nothing but requests to caches.
pub closed spec fn caching() -> Set<int> {
    Set::full()
}

/// A cache of changes with a session that can be committed or discarded.
pub struct SessionedCache {
    cur: KVMap,
    base: KVMap,
    is_merkle: bool,
}

impl View for SessionedCache {
    type V = CacheView;

    closed spec fn view(&self) -> CacheView {
        CacheView { cur: self.cur@, base: self.base@, is_merkle: self.is_merkle }
    }
}

impl Clone for SessionedCache {
    fn clone(&self) -> (copy: Self)
        ensures
            copy@ == self@,
    {
        self.duplicate()
    }
}

impl SessionedCache {
    #[verifier::type_invariant]
    spec fn within_limits(self) -> bool {
        &&& all_storable(self.cur@, self.is_merkle)
        &&& all_storable(self.base@, self.is_merkle)
    }

    /// Creates a cache without changes.
    pub fn new(is_merkle: bool) -> (cache: Self)
        ensures
            cache@ == CacheView::empty(is_merkle),
        opens_invariants caching()
    {
        SessionedCache { cur: KVMap::new(), base: KVMap::new(), is_merkle }
    }

    /// Returns a copy of the cache.
    pub fn duplicate(&self) -> (copy: Self)
        ensures
            copy@ == self@,
        opens_invariants caching()
    {
        proof {
            use_type_invariant(self);
        }
        SessionedCache { cur: self.cur.clone(), base: self.base.clone(), is_merkle: self.is_merkle }
    }

    /// Tells whether the pairs are meant for a Merkle tree.
    pub fn is_merkle(&self) -> (is_merkle: bool)
        ensures
            is_merkle == self@.is_merkle,
        opens_invariants caching()
    {
        self.is_merkle
    }

    /// Tells whether the pair can be stored.
    fn check_kv(key: &[u8], value: &Vec<u8>, is_merkle: bool) -> (valid: bool)
        ensures
            valid == storable(key@, value@, is_merkle),
        opens_invariants caching()
    {
        !is_merkle || (key.len() <= MAX_KEY_LEN && value.len() <= MAX_VALUE_LEN)
    }

    /// Sets the value of `key`, and tells whether the pair was accepted.
    pub fn put(&mut self, key: &[u8], value: Vec<u8>) -> (accepted: bool)
        ensures
            accepted == storable(key@, value@, old(self)@.is_merkle),
            final(self)@ == if accepted {
                old(self)@.change(key@, Some(value@))
            } else {
                old(self)@
            },
        opens_invariants caching()
    {
        proof {
            use_type_invariant(&*self);
        }
        if !Self::check_kv(key, &value, self.is_merkle) {
            return false;
        }
        let mut cur = KVMap::new();
        std::mem::swap(&mut cur, &mut self.cur);
        cur.insert(key, Some(value));
        self.cur = cur;
        true
    }

    /// Marks `key` as deleted.
    pub fn delete(&mut self, key: &[u8])
        ensures
            final(self)@ == old(self)@.change(key@, None),
        opens_invariants caching()
    {
        proof {
            use_type_invariant(&*self);
        }
        let mut cur = KVMap::new();
        std::mem::swap(&mut cur, &mut self.cur);
        cur.insert(key, None);
        self.cur = cur;
    }

    /// Removes the record of `key` from the cache.
    pub fn remove(&mut self, key: &[u8])
        ensures
            final(self)@ == old(self)@.forget(key@),
        opens_invariants caching()
    {
        proof {
            use_type_invariant(&*self);
        }
        let mut cur = KVMap::new();
        std::mem::swap(&mut cur, &mut self.cur);
        cur.remove(key);
        self.cur = cur;
    }

    /// Commits the current session, and returns all changes of the block in order of their keys.
    pub fn commit(&mut self) -> (batch: KVBatch)
        ensures
            lists(entries_of(batch@), old(self)@.cur),
            all_storable(old(self)@.cur, old(self)@.is_merkle),
            final(self)@ == old(self)@.commit(),
        opens_invariants caching()
    {
        proof {
            use_type_invariant(&*self);
        }
        self.base = self.cur.clone();
        self.cur.to_entries()
    }

    /// Discards the current session.
    pub fn discard(&mut self)
        ensures
            final(self)@ == old(self)@.discard(),
        opens_invariants caching()
    {
        proof {
            use_type_invariant(&*self);
        }
        self.cur = self.base.clone();
    }

    /// Tells whether `key` was changed in the current block.
    pub fn touched(&self, key: &[u8]) -> (touched: bool)
        ensures
            touched == self@.cur.contains_key(key@),
        opens_invariants caching()
    {
        self.cur.contains_key(key)
    }

    /// Tells whether `key` is marked as deleted.
    pub fn deleted(&self, key: &[u8]) -> (deleted: bool)
        ensures
            deleted == (self@.cur.contains_key(key@) && self@.cur[key@] is None),
        opens_invariants caching()
    {
        match self.cur.get(key) {
            Some(change) => change.is_none(),
            None => false,
        }
    }

    /// Tells whether `key` has a pending value.
    pub fn hasv(&self, key: &[u8]) -> (found: bool)
        ensures
            found == (self@.cur.contains_key(key@) && self@.cur[key@] is Some),
        opens_invariants caching()
    {
        match self.cur.get(key) {
            Some(change) => change.is_some(),
            None => false,
        }
    }

    /// Returns the pending value of `key`, where it has one.
    pub fn getv(&self, key: &[u8]) -> (value: Option<Vec<u8>>)
        ensures
            option_bytes(value) == if self@.cur.contains_key(key@) {
                self@.cur[key@]
            } else {
                None
            },
        opens_invariants caching()
    {
        match self.cur.get(key) {
            Some(change) => change.duplicate(),
            None => None,
        }
    }

    /// Applies the changes to keys with the given prefix to `map`.
    pub fn iter_prefix(&self, prefix: &[u8], map: &mut KVecMap)
        ensures
            final(map)@ == overlay(old(map)@, with_prefix(self@.cur, prefix@)),
        opens_invariants caching()
    {
        let all = self.cur.entries();
        let ghost s = entries_of(all@);
        let ghost pairs = map@;
        let ghost mut done: Changes = Changes::empty();
        assert(overlay(pairs, done) =~= pairs);
        let mut i: usize = 0;
        while i < all.len()
            invariant
                i <= all@.len(),
                s == entries_of(all@),
                lists(s, self@.cur),
                map@ == overlay(pairs, done),
                forall|k: Seq<u8>| #[trigger]
                    done.contains_key(k) ==> with_prefix(self@.cur, prefix@).contains_key(k) && done[k]
                        == self@.cur[k],
                forall|j: int| 0 <= j < i && starts_with((#[trigger] s[j]).0, prefix@) ==> done.contains_key(s[j].0),
            decreases all@.len() - i,
        {
            let entry = &all[i];
            proof {
                listed_at(s, i as int);
            }
            if has_prefix(entry.0.as_slice(), prefix) {
                proof {
                    overlay_step(pairs, done, s[i as int].0, s[i as int].1);
                    done = done.insert(s[i as int].0, s[i as int].1);
                }
                match &entry.1 {
                    Some(value) => {
                        map.insert(entry.0.as_slice(), value.duplicate());
                    },
                    None => {
                        map.remove(entry.0.as_slice());
                    },
                }
            }
            i = i + 1;
        }
        assert forall|k: Seq<u8>| with_prefix(self@.cur, prefix@).contains_key(k) implies done.contains_key(k) by {
            assert(has_key(s, k));
            let p = position(s, k);
            assert(s[p].0 == k);
        }
        assert(done =~= with_prefix(self@.cur, prefix@));
    }
}

} // verus!
