//! What holds of several requests to a state taken together.

use super::cache::{storable, with_prefix, CacheView};
use super::chain_state::ChainState;
use super::visitor::{entries_met, visited, visited_range, Call};
use super::{
    commit_answer, delete_answer, delete_origin, exists_answer, export_answer, get_answer, height_answer, version_answer,
    KVecMap, State,
};
use crate::byte_map::{entries_of, option_bytes};
use crate::bytes::{bytes_lt, starts_with, starts_with_rest};
use crate::db::memory::{memory_view, MemoryDB};
use crate::db::model::{
    committed_by_height, deletes_absent, deletes_absent_by_key, find, in_range, lists_range, overlay, overlay_by_key,
    range_by_entry, Changes, IterOrder, Pairs, StoreView,
};
use crate::db::{KVBatch, KValue, MerkleDB};
use crate::error::StateError;
use crate::listing::{listing_unique, lists, lists_each_once};
use parking_lot::RwLock;
use std::sync::Arc;
use vstd::prelude::*;

verus! {

/// What a read of a state gives.
pub type Value = Result<Option<Vec<u8>>, StateError>;

/// What a commit gives.
pub type Block = Result<(Vec<u8>, u64), StateError>;

/// A read gives back what was set last, whatever the store holds.
pub proof fn set_then_get(pre: CacheView, key: Seq<u8>, value: Seq<u8>, store: StoreView, got: Value)
    requires
        get_answer(pre.change(key, Some(value)), store, key, got),
    ensures
        got matches Ok(v) && option_bytes(v) == Some(value),
{
}

/// A deleted key has no value.
pub proof fn delete_then_get(pre: CacheView, post: CacheView, key: Seq<u8>, store: StoreView, got: Value)
    requires
        delete_answer(pre, post, store, key, Ok(())),
        get_answer(post, store, key, got),
    ensures
        got matches Ok(v) ==> v is None,
        store.pairs.contains_key(key) || store.available ==> got is Ok,
{
}

/// Setting or deleting a key leaves the values of the other keys.
pub proof fn others_unchanged(
    pre: CacheView,
    post: CacheView,
    key: Seq<u8>,
    other: Seq<u8>,
    store: StoreView,
    before: Value,
    after: Value,
)
    requires
        ({
            ||| exists|value: Seq<u8>| post == pre.change(key, Some(value))
            ||| exists|done: Result<(), StateError>| delete_answer(pre, post, store, key, done)
        }),
        key != other,
        get_answer(pre, store, other, before),
        get_answer(post, store, other, after),
        before is Ok,
        after is Ok,
    ensures
        option_bytes(before->Ok_0) == option_bytes(after->Ok_0),
{
    assert(pre.cur.contains_key(other) == post.cur.contains_key(other));
    assert(pre.cur.contains_key(other) ==> pre.cur[other] == post.cur[other]);
}

/// A commit changes no value that a state shows: what was read through the cache before is read
/// from the store after.
pub proof fn commit_keeps_values(
    cache: CacheView,
    pre: StoreView,
    post: StoreView,
    height: u64,
    done: Block,
    key: Seq<u8>,
    before: Value,
    after: Value,
)
    requires
        commit_answer(cache.cur, pre, post, height, done),
        done is Ok,
        get_answer(cache, pre, key, before),
        get_answer(CacheView::empty(cache.is_merkle), post, key, after),
        before is Ok,
        after is Ok,
    ensures
        option_bytes(before->Ok_0) == option_bytes(after->Ok_0),
{
    assert(overlay(post.pairs, Changes::empty()) =~= post.pairs);
}

/// A commit without pending changes succeeds on an available store, leaves its pairs, and gives
/// the root hash that it had.
pub proof fn commit_of_nothing(pre: StoreView, post: StoreView, height: u64, done: Block)
    requires
        commit_answer(Changes::empty(), pre, post, height, done),
    ensures
        pre.available ==> done is Ok,
        done matches Ok(block) ==> block.0@ == pre.root && post.pairs == pre.pairs,
{
    assert(overlay(pre.pairs, Changes::empty()) =~= pre.pairs);
    assert(!deletes_absent(Changes::empty(), pre.pairs));
}

/// A commit to a store in memory gives an empty root hash, whatever the changes.
pub proof fn memory_commit_root(
    pre: ChainState<MemoryDB>,
    post: ChainState<MemoryDB>,
    changes: Changes,
    height: u64,
    done: Block,
)
    requires
        commit_answer(changes, pre@, post@, height, done),
    ensures
        done matches Ok(block) ==> block.0@ == Seq::<u8>::empty(),
        !deletes_absent(changes, pre@.pairs) ==> done is Ok,
{
    memory_view(pre.store());
    memory_view(post.store());
}

/// A key counts as changed in the current block when it is set or marked as deleted, no longer
/// when its record is removed, and no key does after a commit.
pub proof fn touched_within_block(pre: CacheView, key: Seq<u8>, value: Option<Seq<u8>>)
    ensures
        pre.change(key, value).cur.contains_key(key),
        !pre.forget(key).cur.contains_key(key),
        !CacheView::empty(pre.is_merkle).cur.contains_key(key),
{
}

/// A change to the cache within a session.
pub enum Step {
    /// A key is given a value, or marked as deleted.
    Change(Seq<u8>, Option<Seq<u8>>),
    /// The record of a key is removed.
    Forget(Seq<u8>),
}

/// The cache after the steps of a session.
pub open spec fn after_steps(cache: CacheView, steps: Seq<Step>) -> CacheView
    decreases steps.len(),
{
    if steps.len() == 0 {
        cache
    } else {
        let before = after_steps(cache, steps.drop_last());
        match steps.last() {
            Step::Change(key, value) => before.change(key, value),
            Step::Forget(key) => before.forget(key),
        }
    }
}

/// Discarding a session takes back all its steps, and nothing that was committed before.
pub proof fn discard_undoes_session(cache: CacheView, steps: Seq<Step>)
    ensures
        after_steps(cache.commit(), steps).discard() == cache.commit(),
    decreases steps.len(),
{
    if steps.len() > 0 {
        discard_undoes_session(cache, steps.drop_last());
    }
}

/// Committing a session changes no value that a state shows, and a discard right after it changes
/// nothing.
pub proof fn session_commit_keeps_values(cache: CacheView, store: StoreView, key: Seq<u8>, got: Value)
    ensures
        get_answer(cache.commit(), store, key, got) == get_answer(cache, store, key, got),
        cache.commit().discard() == cache.commit(),
        cache.commit().commit() == cache.commit(),
{
}

/// A key exists exactly where a read finds a value.
pub proof fn exists_where_found(cache: CacheView, store: StoreView, key: Seq<u8>, found: Result<bool, StateError>, got: Value)
    requires
        exists_answer(cache, store, key, found),
        get_answer(cache, store, key, got),
        found is Ok,
        got is Ok,
    ensures
        found->Ok_0 == got->Ok_0 is Some,
{
}

/// A deleted key does not exist.
pub proof fn delete_then_exists(
    pre: CacheView,
    post: CacheView,
    key: Seq<u8>,
    store: StoreView,
    found: Result<bool, StateError>,
)
    requires
        delete_answer(pre, post, store, key, Ok(())),
        exists_answer(post, store, key, found),
    ensures
        found matches Ok(b) ==> !b,
        store.pairs.contains_key(key) || store.available ==> found is Ok,
{
}

/// Whether a request to a state, over a store that stays as it is, turns the cache `pre` into
/// `post`: a set, a deletion, or the end of a session.
pub open spec fn requested(pre: CacheView, post: CacheView, store: StoreView) -> bool {
    ||| post == pre
    ||| exists|key: Seq<u8>, value: Seq<u8>|
        storable(key, value, pre.is_merkle) && post == #[trigger] pre.change(key, Some(value))
    ||| exists|key: Seq<u8>, done: Result<(), StateError>| #[trigger] delete_answer(pre, post, store, key, done)
    ||| post == pre.commit()
    ||| post == pre.discard()
}

/// Whether neither the block nor what a discard returns to deletes a key that the store lacks.
pub open spec fn deletes_present_only(cache: CacheView, pairs: Pairs) -> bool {
    !deletes_absent(cache.cur, pairs) && !deletes_absent(cache.base, pairs)
}

/// A new cache deletes nothing, so nothing that the store lacks.
pub proof fn new_cache_deletes_present_only(is_merkle: bool, pairs: Pairs)
    ensures
        deletes_present_only(CacheView::empty(is_merkle), pairs),
{
}

/// No request makes a cache delete a key that the store lacks.
pub proof fn requests_delete_present_only(pre: CacheView, post: CacheView, store: StoreView)
    requires
        requested(pre, post, store),
        deletes_present_only(pre, store.pairs),
    ensures
        deletes_present_only(post, store.pairs),
{
    assert forall|k: Seq<u8>| #[trigger] post.cur.contains_key(k) && post.cur[k] is None implies store.pairs.contains_key(
        k,
    ) by {
        if pre.cur.contains_key(k) && pre.cur[k] is None {
        } else if pre.base.contains_key(k) && pre.base[k] is None {
        } else {
            assert(post != pre && post != pre.commit() && post != pre.discard());
        }
    }
    assert forall|k: Seq<u8>| #[trigger] post.base.contains_key(k) && post.base[k] is None implies store.pairs.contains_key(
        k,
    ) by {
        assert(post.base == pre.base || post.base == pre.cur);
        if pre.cur.contains_key(k) && pre.cur[k] is None {
        } else {
            assert(pre.base.contains_key(k) && pre.base[k] is None);
        }
    }
}

/// A cache that deletes only what the store holds is committed by an available store.
pub proof fn present_deletions_commit(cache: CacheView, pre: StoreView, post: StoreView, height: u64, done: Block)
    requires
        deletes_present_only(cache, pre.pairs),
        commit_answer(cache.cur, pre, post, height, done),
        pre.available,
    ensures
        done is Ok,
{
}

/// A read as of the height of a commit gives what the commit wrote.
pub proof fn commit_then_get_ver(
    cache: CacheView,
    pre: StoreView,
    post: StoreView,
    height: u64,
    done: Block,
    key: Seq<u8>,
    got: Value,
)
    requires
        commit_answer(cache.cur, pre, post, height, done),
        done is Ok,
        version_answer(post, key, height, got),
    ensures
        got matches Ok(v) ==> option_bytes(v) == find(overlay(pre.pairs, cache.cur), key),
        pre.available ==> got is Ok,
{
}

/// A later commit leaves what is read as of an earlier height, as long as the store keeps it.
pub proof fn later_commit_keeps_version(
    first: StoreView,
    second: StoreView,
    third: StoreView,
    changes: Changes,
    later_changes: Changes,
    height: u64,
    later_height: u64,
    done: Block,
    later_done: Block,
    key: Seq<u8>,
    got: Value,
)
    requires
        commit_answer(changes, first, second, height, done),
        done is Ok,
        commit_answer(later_changes, second, third, later_height, later_done),
        later_done is Ok,
        height < later_height,
        version_answer(third, key, height, got),
    ensures
        got matches Ok(v) ==> option_bytes(v) == find(overlay(first.pairs, changes), key),
{
    if got is Ok {
        assert(third.version(height) is Some);
        assert(third.version(height) == second.version(height));
    }
}

/// An exported chain state shows, for every key, what the source shows as of the export's height. It
/// can be read if the store that it was exported to could be.
pub proof fn export_then_get(
    source: StoreView,
    pre: StoreView,
    post: StoreView,
    height: u64,
    done: Result<(), StateError>,
    is_merkle: bool,
    key: Seq<u8>,
    got: Value,
    versioned: Value,
)
    requires
        export_answer(source, pre, post, height, done),
        done is Ok,
        get_answer(CacheView::empty(is_merkle), post, key, got),
        version_answer(source, key, height, versioned),
    ensures
        source.version(height) is Some,
        pre.available ==> got is Ok,
        source.available ==> versioned is Ok,
        got matches Ok(v) ==> option_bytes(v) == find(source.version(height)->0, key),
        versioned matches Ok(v) ==> option_bytes(v) == find(source.version(height)->0, key),
{
    assert(overlay(post.pairs, Changes::empty()) =~= post.pairs);
}

/// The pairs whose keys have the given prefix.
pub open spec fn pairs_with_prefix(pairs: Pairs, prefix: Seq<u8>) -> Pairs {
    Map::new(|k: Seq<u8>| pairs.contains_key(k) && starts_with(k, prefix), |k: Seq<u8>| pairs[k])
}

/// Walking the store and then the cache for a prefix gathers exactly the pairs with that prefix
/// that a state shows.
pub proof fn prefix_walk_is_complete(pairs: Pairs, changes: Changes, prefix: Seq<u8>)
    ensures
        overlay(pairs_with_prefix(pairs, prefix), with_prefix(changes, prefix)) == pairs_with_prefix(
            overlay(pairs, changes),
            prefix,
        ),
{
    assert(overlay(pairs_with_prefix(pairs, prefix), with_prefix(changes, prefix)) =~= pairs_with_prefix(
        overlay(pairs, changes),
        prefix,
    ));
}

/// The entries of a range are determined by the pairs, the bounds and the order, and walking the
/// range in the other order meets them in reverse.
pub proof fn range_is_determined(
    entries: Seq<(Seq<u8>, Seq<u8>)>,
    others: Seq<(Seq<u8>, Seq<u8>)>,
    pairs: Pairs,
    lower: Seq<u8>,
    upper: Seq<u8>,
)
    requires
        lists_range(entries, pairs, lower, upper, IterOrder::Asc),
    ensures
        lists_range(others, pairs, lower, upper, IterOrder::Asc) == (others == entries),
        lists_range(others, pairs, lower, upper, IterOrder::Desc) == (others == entries.reverse()),
{
    let m = in_range(pairs, lower, upper);
    if lists(others, m) {
        listing_unique(others, entries, m);
    }
    if lists(others.reverse(), m) {
        listing_unique(others.reverse(), entries, m);
        assert(others.reverse().reverse() =~= others);
    }
    assert(entries.reverse().reverse() =~= entries);
}

/// A walk calls its visitor on the entries of the range from the first one on, in order, each once
/// and nothing else. It ends with the first call that asks to stop, or else with the last entry.
pub proof fn walk_meets_range_in_order(
    entries: Seq<(Seq<u8>, Seq<u8>)>,
    pairs: Pairs,
    lower: Seq<u8>,
    upper: Seq<u8>,
    order: IterOrder,
    calls: Seq<Call>,
    stopped: bool,
)
    requires
        lists_range(entries, pairs, lower, upper, order),
        visited_range(pairs, lower, upper, order, calls, stopped),
    ensures
        calls.len() <= entries.len(),
        entries_met(calls) == entries.take(calls.len() as int),
        forall|i: int| 0 <= i < calls.len() - 1 ==> !(#[trigger] calls[i]).1,
        stopped == (calls.len() > 0 && calls.last().1),
        !stopped ==> calls.len() == entries.len(),
{
    let listed = choose|listed: Seq<KValue>|
        lists_range(entries_of(listed), pairs, lower, upper, order) && #[trigger] visited(listed, calls, stopped);
    let m = in_range(pairs, lower, upper);
    match order {
        IterOrder::Asc => {
            listing_unique(entries_of(listed), entries, m);
        },
        IterOrder::Desc => {
            listing_unique(entries_of(listed).reverse(), entries.reverse(), m);
            assert(entries_of(listed).reverse().reverse() =~= entries_of(listed));
            assert(entries.reverse().reverse() =~= entries);
        },
    }
    assert(entries_of(listed) == entries);
    assert(entries_met(calls) =~= entries.take(calls.len() as int));
}

/// Two walks over the same range whose visitors answer alike meet the same entries and end alike,
/// whether the range is walked on a chain state or through a state with pending changes.
pub proof fn walks_agree(
    pairs: Pairs,
    lower: Seq<u8>,
    upper: Seq<u8>,
    order: IterOrder,
    calls: Seq<Call>,
    stopped: bool,
    others: Seq<Call>,
    other_stopped: bool,
)
    requires
        visited_range(pairs, lower, upper, order, calls, stopped),
        visited_range(pairs, lower, upper, order, others, other_stopped),
        forall|i: int| 0 <= i < calls.len() && i < others.len() ==> (#[trigger] calls[i]).1 == (#[trigger] others[i]).1,
    ensures
        entries_met(calls) == entries_met(others),
        stopped == other_stopped,
{
    let listed = choose|listed: Seq<KValue>|
        lists_range(entries_of(listed), pairs, lower, upper, order) && #[trigger] visited(listed, calls, stopped);
    let entries = entries_of(listed);
    walk_meets_range_in_order(entries, pairs, lower, upper, order, calls, stopped);
    walk_meets_range_in_order(entries, pairs, lower, upper, order, others, other_stopped);
    if calls.len() < others.len() {
        assert(stopped);
        assert(calls.last().1 == others[calls.len() - 1].1);
    } else if others.len() < calls.len() {
        assert(other_stopped);
        assert(others.last().1 == calls[others.len() - 1].1);
    } else if calls.len() > 0 {
        assert(calls.last().1 == others[calls.len() - 1].1);
    }
}

/// Whether `value` is the value that `key` has among the pairs, and is none where it has none.
pub open spec fn holds(pairs: Pairs, key: Seq<u8>, value: Option<Vec<u8>>) -> bool {
    match value {
        Some(bytes) => pairs.contains_key(key) && pairs[key] == bytes@,
        None => !pairs.contains_key(key),
    }
}

/// A set is accepted exactly where the state is not meant for a Merkle tree, or the key has at most
/// 255 bytes and the value at most 65535, one independently of the other. The key is then the only
/// one whose pending change differs. A refused set changes nothing, and no set writes to the chain
/// state.
pub proof fn set_within_limits<D: MerkleDB>(
    state: &mut State<D>,
    key: &[u8],
    value: Vec<u8>,
    done: Result<(), StateError>,
    other: Seq<u8>,
)
    requires
        call_ensures(State::<D>::set, (state, key, value), done),
    ensures
        done is Ok == (!old(state)@.is_merkle || (key@.len() <= 255 && value@.len() <= 65535)),
        done matches Err(e) ==> e == StateError::InvalidKeyValue && final(state)@ == old(state)@,
        done is Ok ==> final(state)@.cur.contains_key(key@) && final(state)@.cur[key@] == Some(value@),
        other != key@ ==> final(state)@.cur.contains_key(other) == old(state)@.cur.contains_key(other),
        other != key@ ==> final(state)@.cur[other] == old(state)@.cur[other],
        final(state)@.base == old(state)@.base,
        final(state)@.is_merkle == old(state)@.is_merkle,
        final(state).shared() == old(state).shared(),
        final(state).written() == old(state).written(),
{
}

/// A read gives the pending value of the key, or none where its deletion is pending. Where nothing is
/// pending, it gives what the store of some chain state answers: the value that the key has there.
pub proof fn get_by_key<D: MerkleDB>(state: &State<D>, key: &[u8], got: Value)
    requires
        call_ensures(State::<D>::get, (state, key), got),
    ensures
        state@.cur.contains_key(key@) ==> match state@.cur[key@] {
            Some(value) => got matches Ok(Some(bytes)) && bytes@ == value,
            None => got matches Ok(None),
        },
        !state@.cur.contains_key(key@) ==> exists|cs: ChainState<D>|
            {
                &&& call_ensures(D::get, (&(#[trigger] cs.store()), key), got)
                &&& cs@.available ==> got is Ok
                &&& got matches Ok(value) ==> holds(cs@.pairs, key@, value)
            },
{
    if !state@.cur.contains_key(key@) {
        let cs = choose|cs: ChainState<D>| #[trigger] cs.may_read(key, got) && get_answer(state@, cs@, key@, got);
        overlay_by_key(cs@.pairs, state@.cur, key@);
        assert(call_ensures(D::get, (&cs.store(), key), got));
    }
}

/// A read as of a height gives what the store of some chain state answers: the value that the key has
/// in its pairs if the height is not below its own, and in the kept pairs of that height otherwise.
pub proof fn get_ver_by_height<D: MerkleDB>(state: &State<D>, key: &[u8], height: u64, got: Value)
    requires
        call_ensures(State::<D>::get_ver, (state, key, height), got),
    ensures
        exists|cs: ChainState<D>|
            {
                &&& call_ensures(D::get_ver, (&(#[trigger] cs.store()), key, height), got)
                &&& height >= cs@.height ==> {
                    &&& cs@.available ==> got is Ok
                    &&& got matches Ok(value) ==> holds(cs@.pairs, key@, value)
                }
                &&& height < cs@.height ==> {
                    &&& cs@.available && cs@.versions.contains_key(height) ==> got is Ok
                    &&& got is Ok ==> cs@.versions.contains_key(height)
                    &&& got matches Ok(value) ==> holds(cs@.versions[height], key@, value)
                }
            },
{
    let cs = choose|cs: ChainState<D>| #[trigger]
        cs.may_read_ver(key, height, got) && version_answer(cs@, key@, height, got);
    assert(call_ensures(D::get_ver, (&cs.store(), key, height), got));
}

/// A key exists where its pending change is a value, not where it is a deletion, and where nothing is
/// pending if the store of some chain state has a value for it.
pub proof fn exists_by_key<D: MerkleDB>(state: &State<D>, key: &[u8], found: Result<bool, StateError>)
    requires
        call_ensures(State::<D>::key_exists, (state, key), found),
    ensures
        state@.cur.contains_key(key@) ==> found == Ok::<bool, StateError>(state@.cur[key@] is Some),
        !state@.cur.contains_key(key@) ==> exists|cs: ChainState<D>|
            {
                &&& cs@.available ==> found is Ok
                &&& found matches Ok(b) ==> b == cs@.pairs.contains_key(key@)
                &&& found matches Err(e) ==> call_ensures(D::get, (&(#[trigger] cs.store()), key), Err(e))
            },
{
    if !state@.cur.contains_key(key@) {
        let cs = choose|cs: ChainState<D>| #[trigger]
            cs.may_tell(key, found) && exists_answer(state@, cs@, key@, found);
        overlay_by_key(cs@.pairs, state@.cur, key@);
        assert(found matches Err(e) ==> call_ensures(D::get, (&cs.store(), key), Err(e)));
    }
}

/// A deletion marks a key that some chain state holds as deleted, and takes back what is pending for
/// a key that it does not hold. It changes nothing else, fails only with the error of a read by the
/// store, and writes nothing to the chain state.
pub proof fn delete_by_key<D: MerkleDB>(
    state: &mut State<D>,
    key: &[u8],
    done: Result<(), StateError>,
    other: Seq<u8>,
)
    requires
        call_ensures(State::<D>::delete, (state, key), done),
    ensures
        exists|cs: ChainState<D>|
            {
                &&& (#[trigger] cs@).available ==> done is Ok
                &&& done is Ok && cs@.pairs.contains_key(key@) ==> {
                    &&& final(state)@.cur.contains_key(key@)
                    &&& final(state)@.cur[key@] is None
                }
                &&& done is Ok && !cs@.pairs.contains_key(key@) ==> !final(state)@.cur.contains_key(key@)
                &&& done matches Err(e) ==> call_ensures(D::get, (&cs.store(), key), Err(e))
            },
        done is Err ==> final(state)@ == old(state)@,
        other != key@ ==> final(state)@.cur.contains_key(other) == old(state)@.cur.contains_key(other),
        other != key@ && old(state)@.cur.contains_key(other) ==> final(state)@.cur[other] == old(state)@.cur[other],
        final(state)@.base == old(state)@.base,
        final(state)@.is_merkle == old(state)@.is_merkle,
        final(state).shared() == old(state).shared(),
        final(state).written() == old(state).written(),
{
    assert(exists|cs: ChainState<D>| #[trigger]
        delete_answer(old(state)@, final(state)@, cs@, key@, done) && delete_origin(&cs, key, done));
}

/// A key is touched exactly where a change of it is pending.
pub proof fn touched_by_key<D: MerkleDB>(state: &State<D>, key: &[u8], touched: bool)
    requires
        call_ensures(State::<D>::touched, (state, key), touched),
    ensures
        touched == state@.cur.contains_key(key@),
{
}

/// Gathering the pending changes for a prefix gives a key of the map its pending value, or takes it
/// out if its deletion is pending, where the prefix can be completed to the key; it leaves every other
/// key of the map.
pub proof fn iterate_cache_by_key<D: MerkleDB>(state: &State<D>, prefix: &[u8], map: &mut KVecMap, key: Seq<u8>)
    requires
        call_ensures(State::<D>::iterate_cache, (state, prefix, map), ()),
    ensures
        state@.cur.contains_key(key) && (exists|rest: Seq<u8>| key == #[trigger] (prefix@ + rest)) ==> {
            &&& final(map)@.contains_key(key) == state@.cur[key] is Some
            &&& state@.cur[key] is Some ==> Some(final(map)@[key]) == state@.cur[key]
        },
        !(state@.cur.contains_key(key) && exists|rest: Seq<u8>| key == #[trigger] (prefix@ + rest)) ==> {
            &&& final(map)@.contains_key(key) == old(map)@.contains_key(key)
            &&& old(map)@.contains_key(key) ==> final(map)@[key] == old(map)@[key]
        },
{
    starts_with_rest(key, prefix@);
    overlay_by_key(old(map)@, with_prefix(state@.cur, prefix@), key);
}

/// Committing a session gives all pending changes, each once and in the order of the keys, keeps them
/// pending, and makes them what a discard returns to. Each pair that a state for a Merkle tree hands
/// out keeps to the limits of the tree.
pub proof fn commit_session_by_key<D: MerkleDB>(state: &mut State<D>, batch: KVBatch)
    requires
        call_ensures(State::<D>::commit_session, (state,), batch),
    ensures
        final(state)@.cur == old(state)@.cur,
        final(state)@.base == old(state)@.cur,
        final(state)@.is_merkle == old(state)@.is_merkle,
        final(state).shared() == old(state).shared(),
        final(state).written() == old(state).written(),
        forall|i: int, j: int|
            0 <= i < j < batch@.len() ==> bytes_lt((#[trigger] batch@[i]).0@, (#[trigger] batch@[j]).0@),
        forall|i: int|
            0 <= i < batch@.len() ==> {
                let (key, value) = #[trigger] batch@[i];
                &&& old(state)@.cur.contains_key(key@)
                &&& match value {
                    Some(bytes) => old(state)@.cur[key@] == Some(bytes@),
                    None => old(state)@.cur[key@] is None,
                }
                &&& old(state)@.is_merkle ==> (value matches Some(bytes) ==> key@.len() <= 255 && bytes@.len() <= 65535)
            },
        forall|key: Seq<u8>| #[trigger]
            old(state)@.cur.contains_key(key) ==> exists|i: int|
                0 <= i < batch@.len() && (#[trigger] batch@[i]).0@ == key,
{
    let s = entries_of(batch@);
    let cur = old(state)@.cur;
    lists_each_once(s, cur);
    assert forall|i: int, j: int| 0 <= i < j < batch@.len() implies bytes_lt(
        (#[trigger] batch@[i]).0@,
        (#[trigger] batch@[j]).0@,
    ) by {
        assert(bytes_lt(s[i].0, s[j].0));
    }
    assert forall|i: int| 0 <= i < batch@.len() implies {
        let (key, value) = #[trigger] batch@[i];
        &&& cur.contains_key(key@)
        &&& match value {
            Some(bytes) => cur[key@] == Some(bytes@),
            None => cur[key@] is None,
        }
        &&& old(state)@.is_merkle ==> (value matches Some(bytes) ==> key@.len() <= 255 && bytes@.len() <= 65535)
    } by {
        assert(s[i].0 == batch@[i].0@);
        assert(cur.contains_key(s[i].0));
    }
    assert forall|key: Seq<u8>| #[trigger] cur.contains_key(key) implies exists|i: int|
        0 <= i < batch@.len() && (#[trigger] batch@[i]).0@ == key by {
        let i = choose|i: int| 0 <= i < s.len() && (#[trigger] s[i]).0 == key;
        assert(batch@[i].0@ == key);
    }
}

/// Discarding a session makes the pending changes again those of the last committed session.
pub proof fn discard_session_by_key<D: MerkleDB>(state: &mut State<D>)
    requires
        call_ensures(State::<D>::discard_session, (state,), ()),
    ensures
        final(state)@.cur == old(state)@.base,
        final(state)@.base == old(state)@.base,
        final(state)@.is_merkle == old(state)@.is_merkle,
        final(state).shared() == old(state).shared(),
        final(state).written() == old(state).written(),
{
}

/// Whether a state whose pending changes were `changes` has written `step` in a block of `height`: the
/// chain state after it has for each key what is pending for it, and for every other key what the
/// chain state before it had.
pub open spec fn persists<D: MerkleDB>(step: (ChainState<D>, ChainState<D>), changes: Changes, height: u64) -> bool {
    &&& step.1@.height == height
    &&& forall|key: Seq<u8>| #[trigger]
        step.1@.pairs.contains_key(key) == if changes.contains_key(key) {
            changes[key] is Some
        } else {
            step.0@.pairs.contains_key(key)
        }
    &&& forall|key: Seq<u8>| #[trigger]
        step.1@.pairs.contains_key(key) ==> step.1@.pairs[key] == if changes.contains_key(key) {
            changes[key]->0
        } else {
            step.0@.pairs[key]
        }
}

/// Whether a commit of the changes that wrote `step` gives `done`: the root hash of what was written
/// and the height, once the changes are persisted. Where the store serves its requests, a commit fails
/// only if a key that it deletes is absent, and then leaves what it found.
pub open spec fn persists_or_refuses<D: MerkleDB>(
    step: (ChainState<D>, ChainState<D>),
    changes: Changes,
    height: u64,
    done: Block,
) -> bool {
    &&& done matches Ok(block) ==> {
        &&& persists(step, changes, height)
        &&& block.0@ == step.1@.root
        &&& block.1 == height
        &&& changes == Changes::empty() ==> block.0@ == step.0@.root
        &&& step.1@.available == step.0@.available
    }
    &&& step.0@.available ==> done is Err == exists|key: Seq<u8>| #[trigger]
        changes.contains_key(key) && changes[key] is None && !step.0@.pairs.contains_key(key)
    &&& step.0@.available && done is Err ==> {
        &&& step.1@ == step.0@
        &&& done == Err::<(Vec<u8>, u64), StateError>(StateError::AbsentKey)
    }
}

/// What a commit answers tells that its changes are persisted or refused.
proof fn answer_persists_or_refuses<D: MerkleDB>(
    step: (ChainState<D>, ChainState<D>),
    changes: Changes,
    height: u64,
    done: Block,
)
    requires
        commit_answer(changes, step.0@, step.1@, height, done),
    ensures
        persists_or_refuses(step, changes, height, done),
{
    assert forall|key: Seq<u8>| done is Ok implies #[trigger] step.1@.pairs.contains_key(key)
        == if changes.contains_key(key) {
        changes[key] is Some
    } else {
        step.0@.pairs.contains_key(key)
    } by {
        overlay_by_key(step.0@.pairs, changes, key);
    }
    deletes_absent_by_key(changes, step.0@.pairs);
}

/// A commit writes to the chain state once. What it writes there, and leaves there until another
/// holder writes, is the chain state that it found with the pending changes and no others, at the
/// given height. The cache is empty afterwards.
pub proof fn commit_persists<D: MerkleDB>(state: &mut State<D>, height: u64, done: Block)
    requires
        call_ensures(State::<D>::commit, (state, height), done),
    ensures
        exists|step: (ChainState<D>, ChainState<D>)|
            {
                &&& final(state).written() == old(state).written().push(step)
                &&& #[trigger] persists_or_refuses(step, old(state)@.cur, height, done)
            },
        final(state)@.cur == Changes::empty(),
        final(state)@.base == Changes::empty(),
        final(state)@.is_merkle == old(state)@.is_merkle,
        final(state).shared() == old(state).shared(),
{
    assert forall|before: ChainState<D>, after: ChainState<D>| #[trigger]
        commit_answer(old(state)@.cur, before@, after@, height, done) implies persists_or_refuses(
        (before, after),
        old(state)@.cur,
        height,
        done,
    ) by {
        answer_persists_or_refuses((before, after), old(state)@.cur, height, done);
    }
}

/// With no other holder of the chain state, each key reads after a commit as it read before: what the
/// state shows over the chain state that the commit found, it shows over the one that it left.
pub proof fn commit_keeps_reads<D: MerkleDB>(
    state: &mut State<D>,
    height: u64,
    done: Block,
    step: (ChainState<D>, ChainState<D>),
    key: &[u8],
    before: Value,
    after: Value,
)
    requires
        call_ensures(State::<D>::commit, (state, height), done),
        done is Ok,
        final(state).written().last() == step,
        call_ensures(State::<D>::get_from, (&*old(state), &step.0, key), before),
        call_ensures(State::<D>::get_from, (&*final(state), &step.1, key), after),
    ensures
        final(state).written() == old(state).written().push(step),
        step.0@.available ==> before is Ok && after is Ok,
        before matches Ok(b) ==> (after matches Ok(a) ==> match b {
            Some(bytes) => a matches Some(others) && others@ == bytes@,
            None => a is None,
        }),
        after matches Ok(value) ==> holds(step.1@.pairs, key@, value),
{
    let cur = old(state)@.cur;
    assert forall|old_cs: ChainState<D>, new_cs: ChainState<D>| #[trigger]
        commit_answer(cur, old_cs@, new_cs@, height, done) implies persists_or_refuses(
        (old_cs, new_cs),
        cur,
        height,
        done,
    ) by {
        answer_persists_or_refuses((old_cs, new_cs), cur, height, done);
    }
    assert(persists(step, cur, height));
    overlay_by_key(step.0@.pairs, cur, key@);
    overlay_by_key(step.1@.pairs, Changes::empty(), key@);
}

/// Whether the steps follow one another with nobody else writing in between: each finds what the one
/// before it left.
pub open spec fn undisturbed<D: MerkleDB>(steps: Seq<(ChainState<D>, ChainState<D>)>) -> bool {
    forall|i: int| 0 < i < steps.len() ==> (#[trigger] steps[i]).0 == steps[i - 1].1
}

/// With no other holder of the chain state, a read as of the height of a block gives what that block
/// left, whatever blocks of greater heights came later, as long as the store keeps that version.
pub proof fn get_ver_of_block<D: MerkleDB>(
    steps: Seq<(ChainState<D>, ChainState<D>)>,
    changes: Seq<Changes>,
    heights: Seq<u64>,
    done: Seq<Block>,
    at: int,
    key: &[u8],
    got: Value,
)
    requires
        undisturbed(steps),
        steps.len() == changes.len(),
        steps.len() == heights.len(),
        steps.len() == done.len(),
        forall|i: int|
            0 <= i < steps.len() ==> (#[trigger] done[i]) is Ok && commit_answer(
                changes[i],
                steps[i].0@,
                steps[i].1@,
                heights[i],
                done[i],
            ),
        forall|i: int, j: int| 0 <= i < j < steps.len() ==> #[trigger] heights[i] < #[trigger] heights[j],
        0 <= at < steps.len(),
        call_ensures(ChainState::<D>::get_ver, (&steps.last().1, key, heights[at]), got),
    ensures
        got matches Ok(value) ==> {
            &&& holds(steps[at].1@.pairs, key@, value)
            &&& changes[at].contains_key(key@) ==> match value {
                Some(bytes) => changes[at][key@] == Some(bytes@),
                None => changes[at][key@] is None,
            }
        },
        at == steps.len() - 1 && steps[at].1@.available ==> got is Ok,
{
    assert(commit_answer(changes[at], steps[at].0@, steps[at].1@, heights[at], done[at]));
    answer_persists_or_refuses(steps[at], changes[at], heights[at], done[at]);
    committed_by_height(steps[at].0@, steps[at].1@, changes[at], heights[at], heights[at], key@);
    if got is Ok {
        version_of_block(steps, changes, heights, done, at, steps.len() - 1);
    }
}

/// The pairs as of the height of a block, where they are still kept after a later one, are what the
/// block left.
proof fn version_of_block<D: MerkleDB>(
    steps: Seq<(ChainState<D>, ChainState<D>)>,
    changes: Seq<Changes>,
    heights: Seq<u64>,
    done: Seq<Block>,
    at: int,
    last: int,
)
    requires
        undisturbed(steps),
        steps.len() == changes.len(),
        steps.len() == heights.len(),
        steps.len() == done.len(),
        forall|i: int|
            0 <= i < steps.len() ==> (#[trigger] done[i]) is Ok && commit_answer(
                changes[i],
                steps[i].0@,
                steps[i].1@,
                heights[i],
                done[i],
            ),
        forall|i: int, j: int| 0 <= i < j < steps.len() ==> #[trigger] heights[i] < #[trigger] heights[j],
        0 <= at <= last < steps.len(),
        steps[last].1@.version(heights[at]) is Some,
    ensures
        steps[last].1@.version(heights[at]) == Some(steps[at].1@.pairs),
    decreases last - at,
{
    assert(commit_answer(changes[last], steps[last].0@, steps[last].1@, heights[last], done[last]));
    if at < last {
        assert(heights[at] < heights[last]);
        assert(steps[last].0 == steps[last - 1].1);
        version_of_block(steps, changes, heights, done, at, last - 1);
    }
}

/// A new state has no pending changes and has written nothing; a copy has the pending changes of the
/// state that it was made from, and has written nothing itself. All refer to the same chain state.
pub proof fn copies_agree<D: MerkleDB>(
    cs: Arc<RwLock<ChainState<D>>>,
    is_merkle: bool,
    state: State<D>,
    copy: State<D>,
    substate: State<D>,
    shared: Arc<RwLock<ChainState<D>>>,
)
    requires
        call_ensures(State::<D>::new, (cs, is_merkle), state),
        call_ensures(State::<D>::copy, (&state,), copy),
        call_ensures(State::<D>::substate, (&state,), substate),
        call_ensures(State::<D>::chain_state, (&state,), shared),
    ensures
        state@.cur == Changes::empty(),
        state@.base == Changes::empty(),
        state@.is_merkle == is_merkle,
        copy@ == state@,
        substate@ == state@,
        shared == cs,
        copy.shared() == cs,
        substate.shared() == cs,
        state.written().len() == 0,
        copy.written().len() == 0,
        substate.written().len() == 0,
{
}

/// An export makes the target, for each key, what the chain state was as of the height: what it is,
/// where the height is not below its own, and the kept version of that height otherwise. It has that
/// height, and can be read if it could be before.
pub proof fn export_by_key<D: MerkleDB>(
    cs: &ChainState<D>,
    target: &mut ChainState<D>,
    height: u64,
    done: Result<(), StateError>,
    key: Seq<u8>,
)
    requires
        call_ensures(ChainState::<D>::export, (cs, target, height), done),
    ensures
        done is Ok ==> {
            let pairs = if height >= cs@.height {
                cs@.pairs
            } else {
                cs@.versions[height]
            };
            &&& height >= cs@.height || cs@.versions.contains_key(height)
            &&& final(target)@.pairs.contains_key(key) == pairs.contains_key(key)
            &&& pairs.contains_key(key) ==> final(target)@.pairs[key] == pairs[key]
            &&& final(target)@.height == height
            &&& final(target)@.available == old(target)@.available
        },
        cs@.available && old(target)@.available && (height >= cs@.height || cs@.versions.contains_key(height))
            ==> done is Ok,
        height < cs@.height && !cs@.versions.contains_key(height) ==> done is Err && final(target)@ == old(target)@,
{
}

/// Reading the height or the root hash right after a commit gives the height of the commit and the
/// hash that it returned, with no other holder of the chain state.
pub proof fn commit_then_height<D: MerkleDB>(
    state: &mut State<D>,
    height: u64,
    done: Block,
    told: Result<u64, StateError>,
    hash: Vec<u8>,
)
    requires
        call_ensures(State::<D>::commit, (state, height), done),
        call_ensures(ChainState::<D>::height, (&final(state).written().last().1,), told),
        call_ensures(ChainState::<D>::root_hash, (&final(state).written().last().1,), hash),
    ensures
        done matches Ok(block) ==> {
            &&& block.1 == height
            &&& told matches Ok(h) ==> h == height
            &&& hash@ == block.0@
        },
{
    assert forall|before: ChainState<D>, after: ChainState<D>| #[trigger]
        commit_answer(old(state)@.cur, before@, after@, height, done) implies persists_or_refuses(
        (before, after),
        old(state)@.cur,
        height,
        done,
    ) by {
        answer_persists_or_refuses((before, after), old(state)@.cur, height, done);
    }
}

/// A walk calls the visitor on pairs of the range with their values, in ascending order of the keys or
/// in descending order where that is asked for. It ends with the first call that asks to stop; a pair
/// of the range that it has not met comes after all that it met, and there is none if no call asked to
/// stop.
pub proof fn walk_in_byte_order(
    pairs: Pairs,
    lower: Seq<u8>,
    upper: Seq<u8>,
    order: IterOrder,
    calls: Seq<Call>,
    stopped: bool,
)
    requires
        visited_range(pairs, lower, upper, order, calls, stopped),
    ensures
        forall|i: int|
            0 <= i < calls.len() ==> {
                let (key, value) = (#[trigger] calls[i]).0;
                &&& pairs.contains_key(key@)
                &&& pairs[key@] == value@
                &&& key@ == lower || bytes_lt(lower, key@)
                &&& bytes_lt(key@, upper)
            },
        forall|i: int, j: int|
            0 <= i < j < calls.len() ==> if order == IterOrder::Asc {
                bytes_lt((#[trigger] calls[i]).0.0@, (#[trigger] calls[j]).0.0@)
            } else {
                bytes_lt(calls[j].0.0@, calls[i].0.0@)
            },
        forall|i: int| 0 <= i < calls.len() ==> (#[trigger] calls[i]).1 == (stopped && i == calls.len() - 1),
        stopped ==> calls.len() > 0,
        forall|key: Seq<u8>| #[trigger]
            pairs.contains_key(key) && (key == lower || bytes_lt(lower, key)) && bytes_lt(key, upper) ==> {
                ||| exists|i: int| 0 <= i < calls.len() && (#[trigger] calls[i]).0.0@ == key
                ||| stopped && if order == IterOrder::Asc {
                    bytes_lt(calls.last().0.0@, key)
                } else {
                    bytes_lt(key, calls.last().0.0@)
                }
            },
{
    let listed = choose|listed: Seq<KValue>|
        lists_range(entries_of(listed), pairs, lower, upper, order) && #[trigger] visited(listed, calls, stopped);
    let entries = entries_of(listed);
    range_by_entry(entries, pairs, lower, upper, order);
    assert forall|i: int| 0 <= i < calls.len() implies {
        let (key, value) = (#[trigger] calls[i]).0;
        &&& pairs.contains_key(key@)
        &&& pairs[key@] == value@
        &&& key@ == lower || bytes_lt(lower, key@)
        &&& bytes_lt(key@, upper)
    } by {
        assert(entries[i] == (calls[i].0.0@, calls[i].0.1@));
    }
    assert forall|i: int, j: int| 0 <= i < j < calls.len() implies if order == IterOrder::Asc {
        bytes_lt((#[trigger] calls[i]).0.0@, (#[trigger] calls[j]).0.0@)
    } else {
        bytes_lt(calls[j].0.0@, calls[i].0.0@)
    } by {
        assert(entries[i].0 == calls[i].0.0@ && entries[j].0 == calls[j].0.0@);
    }
    assert forall|key: Seq<u8>| #[trigger] pairs.contains_key(key) && (key == lower || bytes_lt(lower, key))
        && bytes_lt(key, upper) implies {
        ||| exists|i: int| 0 <= i < calls.len() && (#[trigger] calls[i]).0.0@ == key
        ||| stopped && if order == IterOrder::Asc {
            bytes_lt(calls.last().0.0@, key)
        } else {
            bytes_lt(key, calls.last().0.0@)
        }
    } by {
        let i = choose|i: int| 0 <= i < entries.len() && (#[trigger] entries[i]).0 == key;
        if i < calls.len() {
            assert(calls[i].0.0@ == key);
        } else {
            assert(entries[calls.len() - 1].0 == calls.last().0.0@);
        }
    }
}

/// A store in memory keeps every version: a read as of the height of a commit gives, after a later
/// commit of a greater height, what the first one left.
pub proof fn memory_keeps_versions(
    db: &mut MemoryDB,
    batch: KVBatch,
    height: u64,
    flush: bool,
    done: Result<(), StateError>,
    at: u64,
    key: &[u8],
    before: Value,
    after: Value,
)
    requires
        call_ensures(<MemoryDB as MerkleDB>::commit, (db, batch, height, flush), done),
        at < height,
        call_ensures(<MemoryDB as MerkleDB>::get_ver, (&*old(db), key, at), before),
        call_ensures(<MemoryDB as MerkleDB>::get_ver, (&*final(db), key, at), after),
    ensures
        old(db).view().height <= at ==> before is Ok,
        before is Ok == after is Ok,
        before matches Ok(b) ==> (after matches Ok(a) && match b {
            Some(bytes) => a matches Some(others) && others@ == bytes@,
            None => a is None,
        }),
{
    memory_view(*old(db));
    memory_view(*final(db));
    assert(final(db).view().version(at) == old(db).view().version(at));
}

/// Over a given chain state, a read gives the pending value of the key, or none where its deletion is
/// pending, or else the value that the key has in the chain state; a key exists where a read gives a
/// value.
pub proof fn get_from_by_key<D: MerkleDB>(
    state: &State<D>,
    cs: &ChainState<D>,
    key: &[u8],
    got: Value,
    found: Result<bool, StateError>,
)
    requires
        call_ensures(State::<D>::get_from, (state, cs, key), got),
        call_ensures(State::<D>::exists_in, (state, cs, key), found),
    ensures
        state@.cur.contains_key(key@) || cs@.available ==> got is Ok && found is Ok,
        got matches Ok(value) ==> if state@.cur.contains_key(key@) {
            match state@.cur[key@] {
                Some(pending) => value matches Some(bytes) && bytes@ == pending,
                None => value is None,
            }
        } else {
            holds(cs@.pairs, key@, value)
        },
        found matches Ok(b) ==> b == if state@.cur.contains_key(key@) {
            state@.cur[key@] is Some
        } else {
            cs@.pairs.contains_key(key@)
        },
        got is Err ==> call_ensures(D::get, (&cs.store(), key), got),
        found matches Err(e) ==> call_ensures(D::get, (&cs.store(), key), Err(e)),
{
    overlay_by_key(cs@.pairs, state@.cur, key@);
}

/// Over a given chain state, a deletion marks a key that the chain state holds as deleted, and takes
/// back what is pending for another; a later read of the key over it finds nothing.
pub proof fn delete_from_by_key<D: MerkleDB>(
    state: &mut State<D>,
    cs: &ChainState<D>,
    key: &[u8],
    done: Result<(), StateError>,
    got: Value,
)
    requires
        call_ensures(State::<D>::delete_from, (state, cs, key), done),
        call_ensures(State::<D>::get_from, (&*final(state), cs, key), got),
    ensures
        cs@.available ==> done is Ok,
        done is Err ==> final(state)@ == old(state)@,
        done is Ok ==> {
            &&& final(state)@.cur.contains_key(key@) == cs@.pairs.contains_key(key@)
            &&& cs@.pairs.contains_key(key@) ==> final(state)@.cur[key@] is None
            &&& got matches Ok(value) ==> value is None
        },
        final(state)@.cur.remove(key@) =~= old(state)@.cur.remove(key@),
        final(state)@.base == old(state)@.base,
        final(state)@.is_merkle == old(state)@.is_merkle,
        final(state).written() == old(state).written(),
{
    overlay_by_key(cs@.pairs, final(state)@.cur, key@);
}

/// Over a given chain state, a commit persists the pending changes there or refuses them, and clears
/// the cache.
pub proof fn commit_to_persists<D: MerkleDB>(state: &mut State<D>, cs: &mut ChainState<D>, height: u64, done: Block)
    requires
        call_ensures(State::<D>::commit_to, (state, cs, height), done),
    ensures
        persists_or_refuses((*old(cs), *final(cs)), old(state)@.cur, height, done),
        final(state)@.cur == Changes::empty(),
        final(state)@.base == Changes::empty(),
        final(state)@.is_merkle == old(state)@.is_merkle,
        final(state).written() == old(state).written(),
{
    assert forall|before: ChainState<D>, after: ChainState<D>| #[trigger]
        commit_answer(old(state)@.cur, before@, after@, height, done) implies persists_or_refuses(
        (before, after),
        old(state)@.cur,
        height,
        done,
    ) by {
        answer_persists_or_refuses((before, after), old(state)@.cur, height, done);
    }
}

/// A commit hands the pending changes to the store once, as a batch in the order of the keys that is
/// to be flushed, and passes on what the store answers. Otherwise it fails, leaves the store, and
/// tells that a deleted key is absent or why the store could not be read. No pair of a state for a
/// Merkle tree is over the limits of the tree.
pub proof fn commit_reaches_store_once<D: MerkleDB>(state: &mut State<D>, height: u64, done: Block)
    requires
        call_ensures(State::<D>::commit, (state, height), done),
    ensures
        exists|before: ChainState<D>, after: ChainState<D>|
            {
                &&& final(state).written() == #[trigger] old(state).written().push((before, after))
                &&& ({
                    ||| exists|db: &mut D, batch: KVBatch, answer: Result<(), StateError>|
                        {
                            &&& *db == before.store()
                            &&& *final(db) == after.store()
                            &&& lists(entries_of(batch@), old(state)@.cur)
                            &&& #[trigger] call_ensures(D::commit, (db, batch, height, true), answer)
                            &&& answer is Ok == done is Ok
                            &&& answer matches Err(e) ==> done == Err::<(Vec<u8>, u64), StateError>(e)
                        }
                    ||| done is Err && after == before
                })
            },
        forall|key: Seq<u8>| #[trigger]
            old(state)@.cur.contains_key(key) && old(state)@.is_merkle ==> (old(state)@.cur[key] matches Some(value)
                ==> key.len() <= 255 && value.len() <= 65535),
{
}

/// An export makes the target a copy of what some chain state was as of the height, and passes on what
/// its store answers.
pub proof fn export_of_shared<D: MerkleDB>(
    state: &State<D>,
    target: &mut ChainState<D>,
    height: u64,
    done: Result<(), StateError>,
)
    requires
        call_ensures(State::<D>::export, (state, target, height), done),
    ensures
        exists|source: ChainState<D>|
            {
                let kept = height >= source@.height || source@.versions.contains_key(height);
                let pairs = if height >= source@.height {
                    source@.pairs
                } else {
                    source@.versions[height]
                };
                &&& (#[trigger] source@).available && old(target)@.available && kept ==> done is Ok
                &&& done is Ok ==> {
                    &&& kept
                    &&& final(target)@.pairs == pairs
                    &&& final(target)@.height == height
                    &&& final(target)@.available == old(target)@.available
                }
                &&& !kept ==> done is Err && final(target)@ == old(target)@
                &&& exists|db: &mut D|
                    {
                        &&& *db == old(target).store()
                        &&& *final(db) == final(target).store()
                        &&& #[trigger] call_ensures(D::export, (&source.store(), db, height), done)
                    }
            },
{
}

/// The height and the root hash that a state tells are those of some chain state, as its store tells
/// them.
pub proof fn height_of_shared<D: MerkleDB>(state: &State<D>, told: Result<u64, StateError>, hash: Vec<u8>)
    requires
        call_ensures(State::<D>::height, (state,), told),
        call_ensures(State::<D>::root_hash, (state,), hash),
    ensures
        exists|cs: ChainState<D>|
            {
                &&& (#[trigger] cs@).available ==> told is Ok
                &&& told matches Ok(h) ==> h == cs@.height
                &&& call_ensures(D::height, (&cs.store(),), told)
            },
        exists|cs: ChainState<D>| (#[trigger] cs@).root == hash@,
{
    let cs = choose|cs: ChainState<D>| #[trigger] height_answer(cs@, told) && cs.may_tell_height(told);
    assert(cs@.available ==> told is Ok);
}

/// A walk with a function calls it on the pairs of the range as [`walk_in_byte_order`] tells, and ends
/// as its answers say.
pub proof fn iterate_by_answers<D: MerkleDB, F: FnMut(KValue) -> bool>(
    cs: &ChainState<D>,
    lower: &[u8],
    upper: &[u8],
    order: IterOrder,
    func: &mut F,
    stopped: bool,
)
    requires
        call_ensures(ChainState::<D>::iterate::<F>, (cs, lower, upper, order, func), stopped),
    ensures
        exists|calls: Seq<Call>|
            {
                &&& #[trigger] visited_range(cs@.pairs, lower@, upper@, order, calls, stopped)
                &&& forall|i: int|
                    0 <= i < calls.len() ==> call_ensures(*old(func), ((#[trigger] calls[i]).0,), calls[i].1)
            },
{
}

/// A walk with a function through a state is one over the pairs of some chain state, whatever is
/// pending.
pub proof fn iterate_of_shared<D: MerkleDB, F: FnMut(KValue) -> bool>(
    state: &State<D>,
    lower: &[u8],
    upper: &[u8],
    order: IterOrder,
    func: &mut F,
    stopped: bool,
)
    requires
        call_ensures(State::<D>::iterate::<F>, (state, lower, upper, order, func), stopped),
    ensures
        exists|cs: ChainState<D>, calls: Seq<Call>|
            {
                &&& #[trigger] visited_range(cs@.pairs, lower@, upper@, order, calls, stopped)
                &&& forall|i: int|
                    0 <= i < calls.len() ==> call_ensures(*old(func), ((#[trigger] calls[i]).0,), calls[i].1)
            },
{
}

/// What a chain state may answer is what its store may answer.
pub proof fn answers_of_store<D: MerkleDB>(
    cs: ChainState<D>,
    key: &[u8],
    height: u64,
    got: Value,
    error: StateError,
    told: Result<u64, StateError>,
)
    ensures
        cs.may_read(key, got) == call_ensures(D::get, (&cs.store(), key), got),
        cs.may_read_ver(key, height, got) == call_ensures(D::get_ver, (&cs.store(), key, height), got),
        cs.may_tell_height(told) == call_ensures(D::height, (&cs.store(),), told),
        cs.may_tell(key, Err(error)) == call_ensures(D::get, (&cs.store(), key), Err(error)),
        cs.may_fail_to_read(error) == exists|other: &[u8]| #[trigger]
            call_ensures(D::get, (&cs.store(), other), Err(error)),
        cs@ == cs.store().view(),
{
    if exists|other: &[u8]| #[trigger] call_ensures(D::get, (&cs.store(), other), Err(error)) {
        let other = choose|other: &[u8]| #[trigger] call_ensures(D::get, (&cs.store(), other), Err(error));
        assert(cs.may_read(other, Err(error)));
    }
    if cs.may_fail_to_read(error) {
        let other = choose|other: &[u8]| #[trigger] cs.may_read(other, Err(error));
        assert(call_ensures(D::get, (&cs.store(), other), Err::<Option<Vec<u8>>, StateError>(error)));
    }
}

} // verus!
