use chain_storage::bytes::{bytes_equal, bytes_less, has_prefix};
use chain_storage::db::{IterOrder, KVBatch, KValue, MemoryDB, MerkleDB, StoreView};
use chain_storage::error::StateError;
use chain_storage::state::{Callback, ChainState, KVMap, KVecMap, SessionedCache, State};
use parking_lot::RwLock;
use std::sync::Arc;

fn shared() -> Arc<RwLock<ChainState<MemoryDB>>> {
    Arc::new(RwLock::new(ChainState::new(MemoryDB::new())))
}

fn filled(pairs: &[(&[u8], &[u8])], height: u64) -> State<MemoryDB> {
    let mut state = State::new(shared(), true);
    for (key, value) in pairs {
        state.set(key, value.to_vec()).unwrap();
    }
    state.commit(height).unwrap();
    state
}

/// A store that fails on every request that can fail.
struct BrokenDB;

fn broken<T>() -> Result<T, StateError> {
    Err(StateError::Storage("broken disk".to_string()))
}

impl MerkleDB for BrokenDB {
    /// The model of the store, which only proofs speak of.
    fn view(&self) -> StoreView {
        unreachable!()
    }

    fn get(&self, _key: &[u8]) -> Result<Option<Vec<u8>>, StateError> {
        broken()
    }

    fn get_ver(&self, _key: &[u8], _height: u64) -> Result<Option<Vec<u8>>, StateError> {
        broken()
    }

    fn range(&self, _lower: &[u8], _upper: &[u8], _order: IterOrder) -> Vec<KValue> {
        Vec::new()
    }

    fn commit(&mut self, _batch: KVBatch, _height: u64, _flush: bool) -> Result<(), StateError> {
        broken()
    }

    fn height(&self) -> Result<u64, StateError> {
        broken()
    }

    fn root_hash(&self) -> Vec<u8> {
        b"root".to_vec()
    }

    fn export(&self, _target: &mut Self, _height: u64) -> Result<(), StateError> {
        broken()
    }
}

#[test]
fn what_is_set_last_is_read() {
    let mut state = filled(&[(b"a", b"1"), (b"b", b"2")], 1);
    state.set(b"a", b"3".to_vec()).unwrap();
    state.set(b"a", b"4".to_vec()).unwrap();
    assert_eq!(state.get(b"a"), Ok(Some(b"4".to_vec())));
    assert_eq!(state.get(b"b"), Ok(Some(b"2".to_vec())));
}

#[test]
fn a_refused_pair_changes_nothing() {
    let mut state = State::new(shared(), true);
    state.set(b"k", b"old".to_vec()).unwrap();
    assert_eq!(state.set(b"k", vec![0; 65536]), Err(StateError::InvalidKeyValue));
    assert_eq!(state.set(&vec![0; 256], Vec::new()), Err(StateError::InvalidKeyValue));
    assert_eq!(state.get(b"k"), Ok(Some(b"old".to_vec())));
    assert!(!state.touched(&vec![0; 256]));
    assert_eq!(StateError::InvalidKeyValue.message(), "Invalid key-value pair detected.");
}

#[test]
fn values_survive_a_commit() {
    let cs = shared();
    let mut state = State::new(cs.clone(), true);
    state.set(b"a", b"1".to_vec()).unwrap();
    state.set(b"", Vec::new()).unwrap();
    assert_eq!(state.commit(7), Ok((Vec::new(), 7)));
    for reader in [&state, &State::new(cs, false)] {
        assert_eq!(reader.get(b"a"), Ok(Some(b"1".to_vec())));
        assert_eq!(reader.get(b""), Ok(Some(Vec::new())));
        assert!(!reader.touched(b"a"));
        assert_eq!(reader.height(), Ok(7));
        assert_eq!(reader.root_hash(), Vec::<u8>::new());
    }
}

#[test]
fn a_deletion_is_pending_until_the_commit() {
    let mut state = filled(&[(b"a", b"1")], 1);
    state.delete(b"a").unwrap();
    assert_eq!(state.get(b"a"), Ok(None));
    assert!(state.touched(b"a"));
    // The key is gone from the state, though the chain state still holds it.
    assert_eq!(state.key_exists(b"a"), Ok(false));
    assert_eq!(state.chain_state().read().key_exists(b"a"), Ok(true));
    state.commit(2).unwrap();
    assert_eq!(state.get(b"a"), Ok(None));
    assert_eq!(state.key_exists(b"a"), Ok(false));
}

#[test]
fn a_key_exists_exactly_where_it_has_a_value() {
    let mut state = filled(&[(b"a", b"1"), (b"b", b"2")], 1);
    state.set(b"c", b"3".to_vec()).unwrap();
    state.delete(b"a").unwrap();
    for key in [b"a", b"b", b"c", b"d"] {
        assert_eq!(state.key_exists(key).unwrap(), state.get(key).unwrap().is_some());
    }
    state.set(b"a", b"4".to_vec()).unwrap();
    assert_eq!(state.key_exists(b"a"), Ok(true));
    state.delete(b"a").unwrap();
    assert_eq!(state.key_exists(b"a"), Ok(false));
    state.discard_session();
    assert_eq!(state.key_exists(b"a"), Ok(true));
    assert_eq!(state.key_exists(b"c"), Ok(false));
}

#[test]
fn deleting_an_absent_key_forgets_its_record() {
    let mut state = filled(&[(b"a", b"1")], 1);
    state.set(b"new", b"2".to_vec()).unwrap();
    state.delete(b"new").unwrap();
    assert!(!state.touched(b"new"));
    assert_eq!(state.get(b"new"), Ok(None));
    assert_eq!(state.commit_session(), Vec::new());
    state.delete(b"never seen").unwrap();
    assert!(state.commit(2).is_ok());
}

#[test]
fn a_deletion_that_another_state_made_first_is_refused() {
    let mut first = filled(&[(b"a", b"1"), (b"b", b"2")], 1);
    let mut second = State::new(first.chain_state(), true);
    first.delete(b"a").unwrap();
    second.delete(b"a").unwrap();
    second.set(b"b", b"3".to_vec()).unwrap();
    first.commit(2).unwrap();
    assert_eq!(second.commit(3), Err(StateError::AbsentKey));
    assert_eq!(StateError::AbsentKey.message(), "The deleted key is not in the store.");
    assert!(!second.touched(b"b"));
    assert_eq!(second.get(b"b"), Ok(Some(b"2".to_vec())));
    assert_eq!(second.height(), Ok(2));
}

#[test]
fn a_discard_takes_back_the_session_only() {
    let mut state = filled(&[(b"a", b"1"), (b"b", b"2")], 1);
    state.set(b"a", b"10".to_vec()).unwrap();
    state.set(b"c", b"30".to_vec()).unwrap();
    state.commit_session();
    state.set(b"a", b"11".to_vec()).unwrap();
    state.delete(b"b").unwrap();
    state.delete(b"c").unwrap();
    state.discard_session();
    assert_eq!(state.get(b"a"), Ok(Some(b"10".to_vec())));
    assert_eq!(state.get(b"b"), Ok(Some(b"2".to_vec())));
    assert_eq!(state.get(b"c"), Ok(Some(b"30".to_vec())));
    assert!(!state.touched(b"b"));
}

#[test]
fn a_session_batch_lists_the_block_in_order() {
    let mut state = filled(&[(b"m", b"1")], 1);
    state.set(b"z", b"26".to_vec()).unwrap();
    state.set(b"b", b"2".to_vec()).unwrap();
    state.commit_session();
    state.delete(b"m").unwrap();
    state.set(b"ab", b"1".to_vec()).unwrap();
    let expected: KVBatch = vec![
        (b"ab".to_vec(), Some(b"1".to_vec())),
        (b"b".to_vec(), Some(b"2".to_vec())),
        (b"m".to_vec(), None),
        (b"z".to_vec(), Some(b"26".to_vec())),
    ];
    assert_eq!(state.commit_session(), expected);
    assert_eq!(state.commit_session(), expected);
}

#[test]
fn copies_share_the_chain_state_but_not_the_cache() {
    let mut state = filled(&[(b"a", b"1")], 1);
    state.set(b"b", b"2".to_vec()).unwrap();
    let mut copy = state.copy();
    let mut sub = state.substate();
    assert_eq!(copy.get(b"b"), Ok(Some(b"2".to_vec())));
    assert_eq!(sub.get(b"b"), Ok(Some(b"2".to_vec())));
    copy.set(b"b", b"3".to_vec()).unwrap();
    sub.delete(b"a").unwrap();
    assert_eq!(state.get(b"b"), Ok(Some(b"2".to_vec())));
    assert_eq!(state.get(b"a"), Ok(Some(b"1".to_vec())));
    copy.commit(2).unwrap();
    assert!(Arc::ptr_eq(&state.chain_state(), &copy.chain_state()));
    assert_eq!(state.height(), Ok(2));
    assert_eq!(State::new(state.chain_state(), true).get(b"b"), Ok(Some(b"3".to_vec())));
}

#[test]
fn earlier_versions_can_be_read() {
    let mut state = filled(&[(b"a", b"1")], 5);
    state.set(b"a", b"2".to_vec()).unwrap();
    state.commit(8).unwrap();
    state.delete(b"a").unwrap();
    state.commit(9).unwrap();
    assert_eq!(state.get_ver(b"a", 4), Ok(None));
    assert_eq!(state.get_ver(b"a", 5), Ok(Some(b"1".to_vec())));
    assert_eq!(state.get_ver(b"a", 7), Ok(Some(b"1".to_vec())));
    assert_eq!(state.get_ver(b"a", 8), Ok(Some(b"2".to_vec())));
    assert_eq!(state.get_ver(b"a", 9), Ok(None));
    assert_eq!(state.get_ver(b"a", 100), Ok(None));
}

#[test]
fn a_commit_at_a_lower_height_starts_over_from_there() {
    let mut state = filled(&[(b"a", b"1")], 5);
    state.set(b"a", b"2".to_vec()).unwrap();
    state.commit(8).unwrap();
    state.set(b"a", b"3".to_vec()).unwrap();
    state.commit(6).unwrap();
    assert_eq!(state.height(), Ok(6));
    assert_eq!(state.get_ver(b"a", 5), Ok(Some(b"1".to_vec())));
    assert_eq!(state.get_ver(b"a", 6), Ok(Some(b"3".to_vec())));
    assert_eq!(state.get_ver(b"a", 7), Ok(Some(b"3".to_vec())));
}

#[test]
fn an_export_is_a_copy_of_its_height() {
    let mut state = filled(&[(b"a", b"1"), (b"b", b"2")], 5);
    state.set(b"a", b"3".to_vec()).unwrap();
    state.commit(6).unwrap();
    let mut target = ChainState::new(MemoryDB::new());
    assert_eq!(state.export(&mut target, 5), Ok(()));
    assert_eq!(target.get(b"a"), Ok(Some(b"1".to_vec())));
    assert_eq!(target.get(b"b"), Ok(Some(b"2".to_vec())));
    assert_eq!(target.height(), Ok(5));

    // The copy keeps no version before its own height.
    let copy = State::new(Arc::new(RwLock::new(target)), true);
    assert_eq!(copy.get_ver(b"a", 4), Err(StateError::NoVersion));
    let mut other = ChainState::new(MemoryDB::new());
    assert_eq!(copy.export(&mut other, 4), Err(StateError::NoVersion));
    assert_eq!(other.height(), Ok(0));
    assert_eq!(StateError::NoVersion.message(), "No version is kept for this height.");
}

fn keys_met(state: &State<MemoryDB>, lower: &[u8], upper: &[u8], order: IterOrder, last: &[u8]) -> (Vec<Vec<u8>>, bool) {
    let mut met: Vec<Vec<u8>> = Vec::new();
    let mut func = |entry: KValue| {
        met.push(entry.0.clone());
        entry.0 == last
    };
    let stopped = state.iterate(lower, upper, order, &mut func);
    (met, stopped)
}

#[test]
fn a_range_is_walked_in_order_until_stopped() {
    let mut state = filled(&[(b"a", b"1"), (b"b", b"2"), (b"ba", b"3"), (b"c", b"4"), (b"d", b"5")], 1);
    state.set(b"bb", b"6".to_vec()).unwrap();
    let (met, stopped) = keys_met(&state, b"b", b"d", IterOrder::Asc, b"");
    assert_eq!(met, vec![b"b".to_vec(), b"ba".to_vec(), b"c".to_vec()]);
    assert!(!stopped);
    let (met, stopped) = keys_met(&state, b"b", b"d", IterOrder::Desc, b"");
    assert_eq!(met, vec![b"c".to_vec(), b"ba".to_vec(), b"b".to_vec()]);
    assert!(!stopped);
    let (met, stopped) = keys_met(&state, b"a", b"z", IterOrder::Asc, b"ba");
    assert_eq!(met, vec![b"a".to_vec(), b"b".to_vec(), b"ba".to_vec()]);
    assert!(stopped);
    let (met, stopped) = keys_met(&state, b"d", b"a", IterOrder::Asc, b"");
    assert!(met.is_empty());
    assert!(!stopped);
}

#[test]
fn a_state_and_its_chain_state_are_walked_alike() {
    let chain = shared();
    let mut state = State::new(chain.clone(), true);
    for (key, value) in [(b"a", b"1"), (b"b", b"2"), (b"c", b"3")] {
        state.set(key, value.to_vec()).unwrap();
    }
    state.commit(1).unwrap();
    state.set(b"aa", b"4".to_vec()).unwrap();
    state.set(b"b", b"5".to_vec()).unwrap();
    state.delete(b"c").unwrap();
    for order in [IterOrder::Asc, IterOrder::Desc] {
        let mut through_state: Vec<KValue> = Vec::new();
        let mut on_chain_state: Vec<KValue> = Vec::new();
        let mut func = |entry: KValue| {
            through_state.push(entry);
            through_state.len() == 2
        };
        assert!(state.visit(b"a", b"z", order, &mut Callback::new(&mut func)));
        let mut func = |entry: KValue| {
            on_chain_state.push(entry);
            on_chain_state.len() == 2
        };
        assert!(chain.read().iterate(b"a", b"z", order, &mut func));
        let (key, value) = if matches!(order, IterOrder::Asc) { (b"a", b"1") } else { (b"c", b"3") };
        assert_eq!(through_state, vec![(key.to_vec(), value.to_vec()), (b"b".to_vec(), b"2".to_vec())]);
        assert_eq!(through_state, on_chain_state);
    }
}

#[test]
fn a_walk_without_entries_makes_no_call() {
    let state = filled(&[(b"a", b"1"), (b"d", b"2")], 1);
    let mut count = 0;
    let mut func = |_entry: KValue| {
        count += 1;
        true
    };
    assert!(!state.visit(b"b", b"c", IterOrder::Asc, &mut Callback::new(&mut func)));
    assert_eq!(count, 0);
}

#[test]
fn an_export_leaves_pending_changes_out() {
    let mut state = filled(&[(b"a", b"1"), (b"b", b"2")], 3);
    state.set(b"a", b"9".to_vec()).unwrap();
    state.set(b"c", b"8".to_vec()).unwrap();
    state.delete(b"b").unwrap();
    let mut target = ChainState::new(MemoryDB::new());
    assert_eq!(state.export(&mut target, 3), Ok(()));
    for key in [b"a", b"b", b"c"] {
        assert_eq!(target.get(key), state.get_ver(key, 3));
    }
    assert_eq!(target.get(b"a"), Ok(Some(b"1".to_vec())));
    assert_eq!(target.get(b"b"), Ok(Some(b"2".to_vec())));
    assert_eq!(target.get(b"c"), Ok(None));
}

#[test]
fn cache_changes_are_applied_to_a_prefix() {
    let mut state = filled(&[(b"p_1", b"1"), (b"p_2", b"2"), (b"q_1", b"3")], 1);
    state.set(b"p_1", b"10".to_vec()).unwrap();
    state.set(b"p_3", b"30".to_vec()).unwrap();
    state.set(b"q_2", b"40".to_vec()).unwrap();
    state.delete(b"p_2").unwrap();
    let mut map = KVecMap::new();
    let mut gather = |entry: KValue| {
        map.insert(&entry.0, entry.1);
        false
    };
    state.iterate(b"p_", b"p`", IterOrder::Asc, &mut gather);
    state.iterate_cache(b"p_", &mut map);
    let expected: Vec<KValue> = vec![
        (b"p_1".to_vec(), b"10".to_vec()),
        (b"p_3".to_vec(), b"30".to_vec()),
    ];
    assert_eq!(map.to_entries(), expected);
}

#[test]
fn an_empty_commit_keeps_pairs_and_root() {
    let mut state = filled(&[(b"a", b"1")], 1);
    let root = state.root_hash();
    assert_eq!(state.commit(2), Ok((root.clone(), 2)));
    assert_eq!(state.root_hash(), root);
    assert_eq!(state.get(b"a"), Ok(Some(b"1".to_vec())));
}

#[test]
fn failures_of_the_store_are_passed_on() {
    let mut state = State::new(Arc::new(RwLock::new(ChainState::new(BrokenDB))), true);
    let failure = || StateError::Storage("broken disk".to_string());
    assert_eq!(failure().message(), "broken disk");
    state.set(b"a", b"1".to_vec()).unwrap();
    // What the cache knows needs no store.
    assert_eq!(state.get(b"a"), Ok(Some(b"1".to_vec())));
    assert_eq!(state.key_exists(b"a"), Ok(true));
    assert_eq!(state.get(b"b"), Err(failure()));
    assert_eq!(state.key_exists(b"b"), Err(failure()));
    assert_eq!(state.get_ver(b"a", 1), Err(failure()));
    assert_eq!(state.height(), Err(failure()));
    assert_eq!(state.root_hash(), b"root".to_vec());
    assert_eq!(state.delete(b"a"), Err(failure()));
    assert_eq!(state.get(b"a"), Ok(Some(b"1".to_vec())));
    let mut target = ChainState::new(BrokenDB);
    assert_eq!(state.export(&mut target, 1), Err(failure()));
    // The cache is cleared even where the commit fails.
    assert_eq!(state.commit(1), Err(failure()));
    assert!(!state.touched(b"a"));
}

#[test]
fn a_cache_tells_values_from_deletions() {
    let mut cache = SessionedCache::new(false);
    assert!(!cache.is_merkle());
    assert!(cache.put(b"a", vec![1; 70000]));
    cache.delete(b"b");
    assert!(cache.hasv(b"a") && !cache.deleted(b"a") && cache.touched(b"a"));
    assert!(!cache.hasv(b"b") && cache.deleted(b"b") && cache.touched(b"b"));
    assert!(!cache.hasv(b"c") && !cache.deleted(b"c") && !cache.touched(b"c"));
    assert_eq!(cache.getv(b"a"), Some(vec![1; 70000]));
    assert_eq!(cache.getv(b"b"), None);
    cache.remove(b"b");
    assert!(!cache.touched(b"b"));
    let copy = cache.clone();
    cache.discard();
    assert!(!cache.touched(b"a") && copy.touched(b"a"));
}

#[test]
fn a_map_keeps_its_keys_in_order() {
    let mut map = KVMap::new();
    for key in [b"m".to_vec(), b"a".to_vec(), b"z".to_vec(), b"mm".to_vec(), b"a".to_vec()] {
        map.insert(&key, Some(key.clone()));
    }
    map.insert(b"z", None);
    map.remove(b"m");
    map.remove(b"absent");
    assert!(map.contains_key(b"a") && !map.contains_key(b"m"));
    assert_eq!(map.get(b"z"), Some(&None));
    let keys: Vec<Vec<u8>> = map.entries().iter().map(|e| e.0.clone()).collect();
    assert_eq!(keys, vec![b"a".to_vec(), b"mm".to_vec(), b"z".to_vec()]);
    assert_eq!(&map.clone().to_entries(), map.entries());
}

#[test]
fn bytes_are_ordered_like_slices() {
    let samples: Vec<&[u8]> = vec![b"", b"\x00", b"a", b"a\x00", b"ab", b"b", b"\xff", b"\xff\xff"];
    for x in &samples {
        for y in &samples {
            assert_eq!(bytes_less(x, y), x < y);
            assert_eq!(bytes_equal(x, y), x == y);
            assert_eq!(has_prefix(x, y), x.starts_with(y));
        }
    }
}
