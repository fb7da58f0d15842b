//! What a store holds, as a mathematical value, and how a batch changes it.

use crate::bytes::{bytes_lt, bytes_lt_asymmetric, bytes_lt_total};
use crate::listing::{has_key, listed_at, listed_remove, lists, lists_each_once, position};
use vstd::prelude::*;

verus! {

/// The pairs of a store: the value of each key that has one.
pub type Pairs = Map<Seq<u8>, Seq<u8>>;

/// Changes to pairs: a key is given a value, or deleted by `None`.
pub type Changes = Map<Seq<u8>, Option<Seq<u8>>>;

/// The order in which a range of keys is walked.
#[derive(Clone, Copy, Debug, PartialEq, Eq, Structural)]
pub enum IterOrder {
    Asc,
    Desc,
}

/// What a store holds.
#[verifier::ext_equal]
pub struct StoreView {
    /// The pairs as of the last commit.
    pub pairs: Pairs,
    /// The height of the last commit, 0 before the first.
    pub height: u64,
    /// The root hash as of the last commit.
    pub root: Seq<u8>,
    /// The pairs as of each earlier height that the store still keeps.
    pub versions: Map<u64, Pairs>,
    /// Whether the store serves every request that it can serve. A store that may fail for
    /// reasons of its own, such as a broken disk, promises nothing here.
    pub available: bool,
}

impl StoreView {
    /// The pairs as of `height`, where the store keeps them.
    pub open spec fn version(self, height: u64) -> Option<Pairs> {
        if height >= self.height {
            Some(self.pairs)
        } else if self.versions.contains_key(height) {
            Some(self.versions[height])
        } else {
            None
        }
    }
}

/// The value of `key`, where it has one.
pub open spec fn find(pairs: Pairs, key: Seq<u8>) -> Option<Seq<u8>> {
    if pairs.contains_key(key) {
        Some(pairs[key])
    } else {
        None
    }
}

/// The pairs after the changes.
pub open spec fn overlay(pairs: Pairs, changes: Changes) -> Pairs {
    Map::new(
        |k: Seq<u8>| if changes.contains_key(k) { changes[k] is Some } else { pairs.contains_key(k) },
        |k: Seq<u8>| if changes.contains_key(k) { changes[k]->0 } else { pairs[k] },
    )
}

/// The changes that a batch makes, the later entries over the earlier.
pub open spec fn changes_of(batch: Seq<(Seq<u8>, Option<Seq<u8>>)>) -> Changes
    decreases batch.len(),
{
    if batch.len() == 0 {
        Map::empty()
    } else {
        changes_of(batch.drop_last()).insert(batch.last().0, batch.last().1)
    }
}

/// Whether the changes delete a key that has no value.
pub open spec fn deletes_absent(changes: Changes, pairs: Pairs) -> bool {
    exists|k: Seq<u8>| #[trigger] changes.contains_key(k) && changes[k] is None && !pairs.contains_key(k)
}

/// Whether an entry of the batch deletes a key that has no value.
pub open spec fn batch_deletes_absent(batch: Seq<(Seq<u8>, Option<Seq<u8>>)>, pairs: Pairs) -> bool {
    exists|i: int| 0 <= i < batch.len() && (#[trigger] batch[i]).1 is None && !pairs.contains_key(batch[i].0)
}

/// Whether a store that held `pre` holds `post` once the changes are committed at `height`.
/// Earlier versions may be dropped, but none is altered; without changes the root hash stays.
pub open spec fn committed(pre: StoreView, post: StoreView, changes: Changes, height: u64) -> bool {
    &&& post.pairs == overlay(pre.pairs, changes)
    &&& post.height == height
    &&& post.available == pre.available
    &&& changes == Changes::empty() ==> post.root == pre.root
    &&& forall|h: u64| h < height && #[trigger] post.version(h) is Some ==> post.version(h) == pre.version(h)
}

/// The pairs whose keys lie in the range from `lower` on up to, and without, `upper`.
pub open spec fn in_range(pairs: Pairs, lower: Seq<u8>, upper: Seq<u8>) -> Pairs {
    Map::new(
        |k: Seq<u8>| pairs.contains_key(k) && !bytes_lt(k, lower) && bytes_lt(k, upper),
        |k: Seq<u8>| pairs[k],
    )
}

/// Whether `entries` are the pairs of the range, each once, in the given order of the keys.
pub open spec fn lists_range(
    entries: Seq<(Seq<u8>, Seq<u8>)>,
    pairs: Pairs,
    lower: Seq<u8>,
    upper: Seq<u8>,
    order: IterOrder,
) -> bool {
    match order {
        IterOrder::Asc => lists(entries, in_range(pairs, lower, upper)),
        IterOrder::Desc => lists(entries.reverse(), in_range(pairs, lower, upper)),
    }
}

/// A key has after the changes what they give it, nothing if they delete it, and what it had before
/// if they do not speak of it.
pub proof fn overlay_by_key(pairs: Pairs, changes: Changes, key: Seq<u8>)
    ensures
        !changes.contains_key(key) ==> {
            &&& overlay(pairs, changes).contains_key(key) == pairs.contains_key(key)
            &&& pairs.contains_key(key) ==> overlay(pairs, changes)[key] == pairs[key]
        },
        changes.contains_key(key) && changes[key] is None ==> !overlay(pairs, changes).contains_key(key),
        forall|value: Seq<u8>|
            changes.contains_key(key) && changes[key] == Some(value) ==> overlay(pairs, changes).contains_key(key)
                && #[trigger] overlay(pairs, changes)[key] == value,
{
}

/// A key is found with the value that it has, and not found where it has none.
pub proof fn find_by_key(pairs: Pairs, key: Seq<u8>)
    ensures
        pairs.contains_key(key) ==> find(pairs, key) == Some(pairs[key]),
        !pairs.contains_key(key) ==> find(pairs, key) is None,
{
}

/// A range has the pairs whose keys are its lower bound or come after it, and come before its upper
/// bound.
pub proof fn in_range_by_key(pairs: Pairs, lower: Seq<u8>, upper: Seq<u8>, key: Seq<u8>)
    ensures
        in_range(pairs, lower, upper).contains_key(key) == (pairs.contains_key(key) && (key == lower || bytes_lt(
            lower,
            key,
        )) && bytes_lt(key, upper)),
        in_range(pairs, lower, upper).contains_key(key) ==> in_range(pairs, lower, upper)[key] == pairs[key],
{
    bytes_lt_total(lower, key);
    if bytes_lt(lower, key) {
        bytes_lt_asymmetric(lower, key);
    }
    if bytes_lt(key, lower) {
        bytes_lt_asymmetric(key, lower);
    }
}

/// The entries of a range come in ascending order of the keys, or in descending order where that is
/// asked for; they are the pairs of the range, and each pair of the range is among them.
pub proof fn range_by_entry(
    entries: Seq<(Seq<u8>, Seq<u8>)>,
    pairs: Pairs,
    lower: Seq<u8>,
    upper: Seq<u8>,
    order: IterOrder,
)
    requires
        lists_range(entries, pairs, lower, upper, order),
    ensures
        forall|i: int, j: int|
            0 <= i < j < entries.len() ==> if order == IterOrder::Asc {
                bytes_lt((#[trigger] entries[i]).0, (#[trigger] entries[j]).0)
            } else {
                bytes_lt(entries[j].0, entries[i].0)
            },
        forall|i: int|
            0 <= i < entries.len() ==> {
                let (key, value) = #[trigger] entries[i];
                &&& pairs.contains_key(key)
                &&& pairs[key] == value
                &&& key == lower || bytes_lt(lower, key)
                &&& bytes_lt(key, upper)
            },
        forall|key: Seq<u8>| #[trigger]
            pairs.contains_key(key) && (key == lower || bytes_lt(lower, key)) && bytes_lt(key, upper) ==> exists|
                i: int,
            |
                0 <= i < entries.len() && (#[trigger] entries[i]).0 == key,
{
    let m = in_range(pairs, lower, upper);
    let s = match order {
        IterOrder::Asc => entries,
        IterOrder::Desc => entries.reverse(),
    };
    let n = entries.len() as int;
    lists_each_once(s, m);
    assert forall|i: int, j: int| 0 <= i < j < entries.len() implies if order == IterOrder::Asc {
        bytes_lt((#[trigger] entries[i]).0, (#[trigger] entries[j]).0)
    } else {
        bytes_lt(entries[j].0, entries[i].0)
    } by {
        if order == IterOrder::Desc {
            assert(s[n - 1 - j] == entries[j] && s[n - 1 - i] == entries[i]);
        }
    }
    assert forall|i: int| 0 <= i < entries.len() implies {
        let (key, value) = #[trigger] entries[i];
        &&& pairs.contains_key(key)
        &&& pairs[key] == value
        &&& key == lower || bytes_lt(lower, key)
        &&& bytes_lt(key, upper)
    } by {
        let p = if order == IterOrder::Asc { i } else { n - 1 - i };
        assert(s[p] == entries[i]);
        assert(m.contains_key(s[p].0));
        in_range_by_key(pairs, lower, upper, entries[i].0);
    }
    assert forall|key: Seq<u8>| #[trigger] pairs.contains_key(key) && (key == lower || bytes_lt(lower, key))
        && bytes_lt(key, upper) implies exists|i: int| 0 <= i < entries.len() && (#[trigger] entries[i]).0 == key by {
        in_range_by_key(pairs, lower, upper, key);
        assert(m.contains_key(key));
        let p = choose|p: int| 0 <= p < s.len() && (#[trigger] s[p]).0 == key;
        let i = if order == IterOrder::Asc { p } else { n - 1 - p };
        assert(entries[i].0 == key);
    }
}

/// A batch changes a key as the last entry with that key says.
pub proof fn changes_of_last_entry(batch: Seq<(Seq<u8>, Option<Seq<u8>>)>, last: int)
    requires
        0 <= last < batch.len(),
        forall|j: int| last < j < batch.len() ==> (#[trigger] batch[j]).0 != batch[last].0,
    ensures
        changes_of(batch).contains_key(batch[last].0),
        changes_of(batch)[batch[last].0] == batch[last].1,
    decreases batch.len(),
{
    if last < batch.len() - 1 {
        let rest = batch.drop_last();
        assert forall|j: int| last < j < rest.len() implies (#[trigger] rest[j]).0 != rest[last].0 by {
            assert(batch[j].0 != batch[last].0);
        }
        changes_of_last_entry(rest, last);
        assert(batch[batch.len() - 1].0 != batch[last].0);
    }
}

/// A batch changes no key that none of its entries has.
pub proof fn changes_of_no_entry(batch: Seq<(Seq<u8>, Option<Seq<u8>>)>, key: Seq<u8>)
    requires
        forall|j: int| 0 <= j < batch.len() ==> (#[trigger] batch[j]).0 != key,
    ensures
        !changes_of(batch).contains_key(key),
    decreases batch.len(),
{
    if batch.len() > 0 {
        let rest = batch.drop_last();
        assert forall|j: int| 0 <= j < rest.len() implies (#[trigger] rest[j]).0 != key by {
            assert(batch[j].0 != key);
        }
        changes_of_no_entry(rest, key);
        assert(batch[batch.len() - 1].0 != key);
    }
}

/// Changes delete no absent key exactly where every key that they delete has a value.
pub proof fn deletes_absent_by_key(changes: Changes, pairs: Pairs)
    ensures
        !deletes_absent(changes, pairs) == forall|key: Seq<u8>| #[trigger]
            changes.contains_key(key) ==> changes[key] is Some || pairs.contains_key(key),
{
}

/// A batch deletes no absent key exactly where every entry gives a value or has a key with one.
pub proof fn batch_deletes_absent_by_entry(batch: Seq<(Seq<u8>, Option<Seq<u8>>)>, pairs: Pairs)
    ensures
        !batch_deletes_absent(batch, pairs) == forall|i: int|
            0 <= i < batch.len() ==> (#[trigger] batch[i]).1 is Some || pairs.contains_key(batch[i].0),
{
}

/// Once changes are committed at a height, the pairs as of that height and of every later one are
/// the changed pairs; the pairs as of an earlier height are what they were, where they are kept.
pub proof fn committed_by_height(pre: StoreView, post: StoreView, changes: Changes, height: u64, at: u64, key: Seq<u8>)
    requires
        committed(pre, post, changes, height),
    ensures
        post.height == height,
        post.available == pre.available,
        changes == Changes::empty() ==> post.root == pre.root && post.pairs == pre.pairs,
        at >= height ==> {
            &&& post.version(at) == Some(post.pairs)
            &&& !changes.contains_key(key) ==> post.pairs.contains_key(key) == pre.pairs.contains_key(key)
            &&& !changes.contains_key(key) && pre.pairs.contains_key(key) ==> post.pairs[key] == pre.pairs[key]
            &&& changes.contains_key(key) ==> post.pairs.contains_key(key) == changes[key] is Some
            &&& changes.contains_key(key) && changes[key] is Some ==> Some(post.pairs[key]) == changes[key]
        },
        at < height && post.version(at) is Some ==> post.version(at) == pre.version(at),
        pre.height <= at < height && post.version(at) is Some ==> post.version(at) == Some(pre.pairs),
{
    overlay_by_key(pre.pairs, changes, key);
    if changes == Changes::empty() {
        assert(post.pairs =~= pre.pairs);
    }
}

/// Giving one more key a value, or deleting one more, changes the pairs at that key only.
pub proof fn overlay_step(pairs: Pairs, changes: Changes, key: Seq<u8>, value: Option<Seq<u8>>)
    ensures
        overlay(pairs, changes.insert(key, value)) == match value {
            Some(v) => overlay(pairs, changes).insert(key, v),
            None => overlay(pairs, changes).remove(key),
        },
{
    match value {
        Some(v) => {
            assert(overlay(pairs, changes.insert(key, value)) =~= overlay(pairs, changes).insert(key, v));
        },
        None => {
            assert(overlay(pairs, changes.insert(key, value)) =~= overlay(pairs, changes).remove(key));
        },
    }
}

/// A batch that lists changes makes these changes.
pub proof fn changes_of_listing(batch: Seq<(Seq<u8>, Option<Seq<u8>>)>, changes: Changes)
    requires
        lists(batch, changes),
    ensures
        changes_of(batch) == changes,
    decreases batch.len(),
{
    if batch.len() == 0 {
        assert(changes =~= Changes::empty());
    } else {
        let last = batch.last();
        listed_remove(batch, batch.len() - 1);
        assert(batch.remove(batch.len() - 1) =~= batch.drop_last());
        changes_of_listing(batch.drop_last(), changes.remove(last.0));
        listed_at(batch, batch.len() - 1);
        assert(changes.remove(last.0).insert(last.0, last.1) =~= changes);
    }
}

/// A batch that lists changes deletes an absent key exactly where the changes do.
pub proof fn listing_deletes_absent(batch: Seq<(Seq<u8>, Option<Seq<u8>>)>, changes: Changes, pairs: Pairs)
    requires
        lists(batch, changes),
    ensures
        batch_deletes_absent(batch, pairs) == deletes_absent(changes, pairs),
{
    if batch_deletes_absent(batch, pairs) {
        let i = choose|i: int|
            0 <= i < batch.len() && (#[trigger] batch[i]).1 is None && !pairs.contains_key(batch[i].0);
        listed_at(batch, i);
        assert(changes.contains_key(batch[i].0));
    }
    if deletes_absent(changes, pairs) {
        let k = choose|k: Seq<u8>|
            #[trigger] changes.contains_key(k) && changes[k] is None && !pairs.contains_key(k);
        assert(has_key(batch, k));
        let i = position(batch, k);
        listed_at(batch, i);
        assert(batch[i].1 is None);
    }
}

} // verus!
