//! A store in memory.

use super::model::{changes_of, in_range, overlay, overlay_step, Changes, IterOrder, Pairs, StoreView};
use super::{KVBatch, KValue, KVecMap, MerkleDB};
use crate::byte_map::{entries_of, Stored};
use crate::bytes::{bytes_less, bytes_lt, bytes_lt_transitive};
use crate::error::StateError;
use crate::listing::{ascending, has_key, listed_at, listed_is, lists, position};
use vstd::prelude::*;

verus! {

/// The pairs as of `height` in a history of pairs, each entry with the height from which it held.
pub open spec fn history_at(history: Seq<(u64, Pairs)>, height: u64) -> Option<Pairs>
    decreases history.len(),
{
    if history.len() == 0 {
        None
    } else if history.last().0 <= height {
        Some(history.last().1)
    } else {
        history_at(history.drop_last(), height)
    }
}

/// A store that keeps its pairs and all their versions in memory. It has no Merkle tree, so its
/// root hash is empty.
pub struct MemoryDB {
    pairs: KVecMap,
    height: u64,
    history: Vec<(u64, KVecMap)>,
}

/// A store in memory serves every request that it can serve, and its root hash is empty.
pub proof fn memory_view(db: MemoryDB)
    ensures
        db.view().available,
        db.view().root == Seq::<u8>::empty(),
{
}

spec fn history_view(history: Seq<(u64, KVecMap)>) -> Seq<(u64, Pairs)> {
    Seq::new(history.len(), |i: int| (history[i].0, history[i].1@))
}

/// Returns the entries in reverse order.
fn reversed(entries: Vec<KValue>) -> (result: Vec<KValue>)
    ensures
        entries_of(result@) == entries_of(entries@).reverse(),
{
    let mut rest = entries;
    let mut result: Vec<KValue> = Vec::new();
    let ghost all = entries@;
    let ghost mut left: int = all.len() as int;
    while rest.len() > 0
        invariant
            left == rest@.len(),
            left + result@.len() == all.len(),
            rest@ =~= all.take(left),
            forall|i: int| 0 <= i < result@.len() ==> result@[i] == all[all.len() - 1 - i],
        decreases rest@.len(),
    {
        match rest.pop() {
            Some(entry) => {
                result.push(entry);
            },
            None => {},
        }
        proof {
            left = left - 1;
        }
    }
    assert(entries_of(result@) =~= entries_of(all).reverse());
    result
}

impl MemoryDB {
    /// Returns a store without pairs, at height 0.
    pub fn new() -> (db: Self)
        ensures
            db.view() == (StoreView {
                pairs: Pairs::empty(),
                height: 0,
                root: Seq::<u8>::empty(),
                versions: Map::<u64, Pairs>::empty(),
                available: true,
            }),
    {
        let db = MemoryDB { pairs: KVecMap::new(), height: 0, history: Vec::new() };
        assert(db.view().versions =~= Map::<u64, Pairs>::empty());
        db
    }

    /// Returns the pairs as of `height`, where they are kept.
    fn version_at(&self, height: u64) -> (pairs: Option<&KVecMap>)
        ensures
            match pairs {
                Some(p) => self.view().version(height) == Some(p@),
                None => self.view().version(height) is None,
            },
    {
        if height >= self.height {
            return Some(&self.pairs);
        }
        let ghost all = history_view(self.history@);
        let mut i: usize = self.history.len();
        assert(all.take(all.len() as int) =~= all);
        while i > 0
            invariant
                i <= self.history@.len(),
                height < self.height,
                all == history_view(self.history@),
                history_at(all, height) == history_at(all.take(i as int), height),
            decreases i,
        {
            assert(all.take(i as int).drop_last() =~= all.take(i - 1));
            if self.history[i - 1].0 <= height {
                return Some(&self.history[i - 1].1);
            }
            i = i - 1;
        }
        None
    }

    /// Returns the pairs of the range in ascending order of the keys.
    fn ascending_range(&self, lower: &[u8], upper: &[u8]) -> (entries: Vec<KValue>)
        ensures
            lists(entries_of(entries@), in_range(self.pairs@, lower@, upper@)),
    {
        let all = self.pairs.entries();
        let ghost s = entries_of(all@);
        let ghost m = in_range(self.pairs@, lower@, upper@);
        let mut result: Vec<KValue> = Vec::new();
        let mut i: usize = 0;
        while i < all.len()
            invariant
                i <= all@.len(),
                s == entries_of(all@),
                lists(s, self.pairs@),
                m == in_range(self.pairs@, lower@, upper@),
                ascending(entries_of(result@)),
                forall|j: int|
                    0 <= j < result@.len() ==> m.contains_key((#[trigger] entries_of(result@)[j]).0)
                        && m[entries_of(result@)[j].0] == entries_of(result@)[j].1,
                forall|j: int|
                    0 <= j < result@.len() && i < s.len() ==> bytes_lt(
                        (#[trigger] entries_of(result@)[j]).0,
                        s[i as int].0,
                    ),
                forall|j: int|
                    0 <= j < i && m.contains_key((#[trigger] s[j]).0) ==> has_key(
                        entries_of(result@),
                        s[j].0,
                    ),
            decreases all@.len() - i,
        {
            let entry = &all[i];
            let ghost before = entries_of(result@);
            proof {
                listed_at(s, i as int);
            }
            if !bytes_less(entry.0.as_slice(), lower) && bytes_less(entry.0.as_slice(), upper) {
                result.push((entry.0.duplicate(), entry.1.duplicate()));
                assert(entries_of(result@) =~= before.push(s[i as int]));
                assert(entries_of(result@)[before.len() as int].0 == s[i as int].0);
                assert forall|j: int| 0 <= j < i && m.contains_key((#[trigger] s[j]).0) implies has_key(
                    entries_of(result@),
                    s[j].0,
                ) by {
                    let p = position(before, s[j].0);
                    assert(entries_of(result@)[p].0 == s[j].0);
                }
            }
            assert forall|j: int| 0 <= j < result@.len() && i + 1 < s.len() implies bytes_lt(
                (#[trigger] entries_of(result@)[j]).0,
                s[i + 1].0,
            ) by {
                assert(bytes_lt(s[i as int].0, s[i + 1].0));
                if j < before.len() {
                    assert(entries_of(result@)[j] == before[j]);
                    bytes_lt_transitive(before[j].0, s[i as int].0, s[i + 1].0);
                }
            }
            i = i + 1;
        }
        assert forall|k: Seq<u8>| #[trigger] m.contains_key(k) implies has_key(entries_of(result@), k) by {
            let p = position(s, k);
            assert(has_key(s, k));
            assert(s[p].0 == k);
        }
        proof {
            listed_is(entries_of(result@), m);
        }
        result
    }
}

impl MerkleDB for MemoryDB {
    closed spec fn view(&self) -> StoreView {
        let history = history_view(self.history@);
        StoreView {
            pairs: self.pairs@,
            height: self.height,
            root: Seq::<u8>::empty(),
            versions: Map::new(
                |h: u64| history_at(history, h) is Some,
                |h: u64| history_at(history, h)->0,
            ),
            available: true,
        }
    }

    fn get(&self, key: &[u8]) -> (value: Result<Option<Vec<u8>>, StateError>) {
        match self.pairs.get(key) {
            Some(value) => Ok(Some(value.duplicate())),
            None => Ok(None),
        }
    }

    fn get_ver(&self, key: &[u8], height: u64) -> (value: Result<Option<Vec<u8>>, StateError>)
        ensures
            value matches Err(e) ==> e == StateError::NoVersion,
    {
        match self.version_at(height) {
            Some(pairs) => match pairs.get(key) {
                Some(value) => Ok(Some(value.duplicate())),
                None => Ok(None),
            },
            None => Err(StateError::NoVersion),
        }
    }

    fn range(&self, lower: &[u8], upper: &[u8], order: IterOrder) -> (entries: Vec<KValue>) {
        let ascending_entries = self.ascending_range(lower, upper);
        match order {
            IterOrder::Asc => ascending_entries,
            IterOrder::Desc => {
                let ghost s = entries_of(ascending_entries@);
                assert(s.reverse().reverse() =~= s);
                reversed(ascending_entries)
            },
        }
    }

    fn commit(&mut self, batch: KVBatch, height: u64, _flush: bool) -> (done: Result<(), StateError>)
        ensures
            forall|h: u64| h < height ==> #[trigger] final(self).view().version(h) == old(self).view().version(h),
    {
        let ghost pre = self.view();
        let ghost old_history = history_view(self.history@);
        let ghost entries = entries_of(batch@);
        let kept = self.pairs.clone();
        while self.history.len() > 0 && self.history[self.history.len() - 1].0 >= height
            invariant
                self.pairs@ == pre.pairs,
                self.height == pre.height,
                forall|h: u64|
                    h < height ==> #[trigger] history_at(history_view(self.history@), h) == history_at(
                        old_history,
                        h,
                    ),
            decreases self.history@.len(),
        {
            let ghost before = history_view(self.history@);
            let _ = self.history.pop();
            let ghost after = history_view(self.history@);
            assert(after =~= before.drop_last());
            assert forall|h: u64| h < height implies #[trigger] history_at(after, h) == history_at(old_history, h) by {
                assert(history_at(before, h) == history_at(old_history, h));
            }
        }
        let ghost trimmed = history_view(self.history@);
        if self.height < height {
            self.history.push((self.height, kept));
            assert(history_view(self.history@).drop_last() =~= trimmed);
        }
        let mut i: usize = 0;
        assert(entries.take(0) =~= Seq::empty());
        assert(overlay(pre.pairs, Changes::empty()) =~= pre.pairs);
        let ghost history = self.history@;
        while i < batch.len()
            invariant
                i <= batch@.len(),
                entries == entries_of(batch@),
                self.history@ == history,
                self.height == pre.height,
                self.pairs@ == overlay(pre.pairs, changes_of(entries.take(i as int))),
            decreases batch@.len() - i,
        {
            let entry = &batch[i];
            proof {
                let before = entries.take(i as int);
                let after = entries.take(i + 1);
                assert(after.drop_last() =~= before);
                overlay_step(pre.pairs, changes_of(before), entries[i as int].0, entries[i as int].1);
            }
            match &entry.1 {
                Some(value) => {
                    self.pairs.insert(entry.0.as_slice(), value.duplicate());
                },
                None => {
                    self.pairs.remove(entry.0.as_slice());
                },
            }
            i = i + 1;
        }
        assert(entries.take(i as int) =~= entries);
        self.height = height;
        assert forall|h: u64| h < height implies #[trigger] self.view().version(h) == pre.version(h) by {
            assert(history_at(trimmed, h) == history_at(old_history, h));
        }
        Ok(())
    }

    fn height(&self) -> (height: Result<u64, StateError>) {
        Ok(self.height)
    }

    fn root_hash(&self) -> (hash: Vec<u8>)
        ensures
            hash@ == Seq::<u8>::empty(),
    {
        Vec::new()
    }

    /// The copy keeps no version of an earlier height.
    fn export(&self, target: &mut Self, height: u64) -> (done: Result<(), StateError>)
        ensures
            done is Ok ==> final(target).view().versions == Map::<u64, Pairs>::empty(),
            done matches Err(e) ==> e == StateError::NoVersion,
    {
        match self.version_at(height) {
            Some(pairs) => {
                target.pairs = pairs.clone();
                target.height = height;
                target.history = Vec::new();
                assert(target.view().versions =~= Map::<u64, Pairs>::empty());
                Ok(())
            },
            None => Err(StateError::NoVersion),
        }
    }
}

} // verus!
