use chain_storage::db::{IterOrder, KVBatch, KValue, MemoryDB, MerkleDB, StoreView};
use chain_storage::error::StateError;
use chain_storage::state::{ChainState, State};
use parking_lot::RwLock;
use std::collections::hash_map::DefaultHasher;
use std::collections::BTreeMap;
use std::hash::{Hash, Hasher};
use std::sync::Arc;

type Pairs = BTreeMap<Vec<u8>, Vec<u8>>;

/// A temporary store with a root hash over its pairs.
struct TempFinDB {
    pairs: Pairs,
    height: u64,
    versions: BTreeMap<u64, Pairs>,
}

impl TempFinDB {
    fn open() -> Self {
        TempFinDB {
            pairs: Pairs::new(),
            height: 0,
            versions: BTreeMap::new(),
        }
    }

    fn version(&self, height: u64) -> Option<&Pairs> {
        if height >= self.height {
            Some(&self.pairs)
        } else {
            self.versions.range(..=height).next_back().map(|(_, pairs)| pairs)
        }
    }
}

impl MerkleDB for TempFinDB {
    /// The model of the store, which only proofs speak of.
    fn view(&self) -> StoreView {
        unreachable!()
    }

    fn get(&self, key: &[u8]) -> Result<Option<Vec<u8>>, StateError> {
        Ok(self.pairs.get(key).cloned())
    }

    fn get_ver(&self, key: &[u8], height: u64) -> Result<Option<Vec<u8>>, StateError> {
        match self.version(height) {
            Some(pairs) => Ok(pairs.get(key).cloned()),
            None => Err(StateError::NoVersion),
        }
    }

    fn range(&self, lower: &[u8], upper: &[u8], order: IterOrder) -> Vec<KValue> {
        let mut entries: Vec<KValue> = self
            .pairs
            .iter()
            .filter(|(k, _)| lower <= k.as_slice() && k.as_slice() < upper)
            .map(|(k, v)| (k.clone(), v.clone()))
            .collect();
        if order == IterOrder::Desc {
            entries.reverse();
        }
        entries
    }

    fn commit(&mut self, batch: KVBatch, height: u64, _flush: bool) -> Result<(), StateError> {
        self.versions = self.versions.range(..height).map(|(h, p)| (*h, p.clone())).collect();
        if self.height < height {
            self.versions.insert(self.height, self.pairs.clone());
        }
        for (key, value) in batch {
            match value {
                Some(value) => {
                    assert!(key.len() <= 255 && value.len() <= 65535);
                    self.pairs.insert(key, value);
                }
                None => {
                    self.pairs.remove(&key).expect("the deleted key is not in the store");
                }
            }
        }
        self.height = height;
        Ok(())
    }

    fn height(&self) -> Result<u64, StateError> {
        Ok(self.height)
    }

    fn root_hash(&self) -> Vec<u8> {
        let mut hasher = DefaultHasher::new();
        self.pairs.hash(&mut hasher);
        hasher.finish().to_be_bytes().to_vec()
    }

    fn export(&self, target: &mut Self, height: u64) -> Result<(), StateError> {
        match self.version(height) {
            Some(pairs) => {
                target.pairs = pairs.clone();
                target.height = height;
                target.versions = BTreeMap::new();
                Ok(())
            }
            None => Err(StateError::NoVersion),
        }
    }
}

/// create chain state of `FinDB`
fn gen_cs() -> Arc<RwLock<ChainState<TempFinDB>>> {
    Arc::new(RwLock::new(ChainState::new(TempFinDB::open())))
}

/// create chain state without a Merkle tree
fn gen_cs_rocks() -> Arc<RwLock<ChainState<MemoryDB>>> {
    Arc::new(RwLock::new(ChainState::new(MemoryDB::new())))
}

fn test_get_impl<D: MerkleDB>(cs: Arc<RwLock<ChainState<D>>>) {
    //Setup
    let mut state = State::new(cs.clone(), true);

    //Set some kv pairs
    state.set(b"prefix_validator_1", b"v10".to_vec()).unwrap();
    state.set(b"prefix_delegator_1", b"v20".to_vec()).unwrap();

    //Get the values
    assert_eq!(state.get(b"prefix_validator_1").unwrap(), Some(b"v10".to_vec()));
    assert_eq!(state.get(b"prefix_delegator_1").unwrap(), Some(b"v20".to_vec()));
    assert_eq!(state.get(b"prefix_validator_2").unwrap(), None);

    //Commit and create new state - Simulate new block
    let _res = state.commit(89);
    state = State::new(cs, true);

    //Should get this value from the chain state as the state cache is empty
    assert_eq!(state.get(b"prefix_validator_1").unwrap(), Some(b"v10".to_vec()));
}

#[test]
fn test_get() {
    test_get_impl(gen_cs());
}

#[test]
fn test_get_rocks() {
    test_get_impl(gen_cs_rocks());
}

fn test_exists_impl<D: MerkleDB>(cs: Arc<RwLock<ChainState<D>>>) {
    //Setup
    let mut state = State::new(cs, true);

    //Set some kv pairs
    state.set(b"prefix_validator_1", b"v10".to_vec()).unwrap();
    state.set(b"prefix_delegator_1", b"v20".to_vec()).unwrap();

    //Get the values
    assert!(state.key_exists(b"prefix_validator_1").unwrap());
    assert!(state.key_exists(b"prefix_delegator_1").unwrap());
    assert!(!state.key_exists(b"prefix_validator_2").unwrap());

    //Commit and create new state - Simulate new block
    let _res = state.commit(89);

    //Should get this value from the chain state as the state cache is empty
    assert!(state.key_exists(b"prefix_validator_1").unwrap());
}

#[test]
fn test_exists() {
    test_exists_impl(gen_cs());
}

#[test]
fn test_exists_rocks() {
    test_exists_impl(gen_cs_rocks());
}

fn test_set_impl<D: MerkleDB>(cs: Arc<RwLock<ChainState<D>>>) {
    //Setup
    let mut state = State::new(cs, true);

    //Set some kv pairs
    state.set(b"prefix_validator_1", b"v10".to_vec()).unwrap();
    state.set(b"prefix_delegator_1", b"v20".to_vec()).unwrap();

    //Get the values
    assert_eq!(state.get(b"prefix_validator_1").unwrap(), Some(b"v10".to_vec()));
    assert_eq!(state.get(b"prefix_delegator_1").unwrap(), Some(b"v20".to_vec()));
    assert_eq!(state.get(b"prefix_validator_2").unwrap(), None);
}

#[test]
fn test_set() {
    test_set_impl(gen_cs());
}

#[test]
fn test_set_rocks() {
    test_set_impl(gen_cs_rocks());
}

#[test]
fn test_set_big_kv_checked() {
    // Setup
    let mut state = State::new(gen_cs(), true);

    // Set maximum valid key and value
    let max_key = "k".repeat(u8::MAX as usize).as_bytes().to_vec();
    let max_val = "v".repeat(u16::MAX as usize).as_bytes().to_vec();
    state.set(&max_key, max_val.clone()).unwrap();
    assert_eq!(state.get(&max_key).unwrap(), Some(max_val));

    // Set invalid key and value
    let big_key = "k".repeat(u8::MAX as usize + 1).as_bytes().to_vec();
    let big_val = "v".repeat(u16::MAX as usize + 1).as_bytes().to_vec();
    assert!(state.set(&big_key, b"v10".to_vec()).is_err());
    assert!(state.set(b"key10", big_val).is_err());
    assert_eq!(state.get(&big_key).unwrap(), None);
    assert_eq!(state.get(b"key10").unwrap(), None);
}

#[test]
#[should_panic]
fn test_set_big_key_unchecked_panic() {
    // Setup
    let mut state = State::new(gen_cs(), true);

    // Set maximum valid key and value
    let max_key = "k".repeat(u8::MAX as usize).as_bytes().to_vec();
    let max_val = "v".repeat(u16::MAX as usize).as_bytes().to_vec();
    state.set(&max_key, max_val.clone()).unwrap();
    assert_eq!(state.get(&max_key).unwrap(), Some(max_val));

    // Set a big key
    let big_key = "k".repeat(u8::MAX as usize + 1).as_bytes().to_vec();
    assert!(state.set(&big_key, b"v10".to_vec()).is_ok());

    // Panic on commit
    state.commit(1).unwrap();
}

#[test]
#[should_panic]
fn test_set_big_value_unchecked_panic() {
    // Setup
    let mut state = State::new(gen_cs(), true);

    // Set a big value
    let big_val = "v".repeat(u16::MAX as usize + 1).as_bytes().to_vec();
    assert!(state.set(b"key10", big_val).is_ok());

    // Panic on commit
    state.commit(1).unwrap();
}

#[test]
fn test_rocksdb_set_big_value_unchecked() {
    // Make sure is_merkle flag is false
    let mut state = State::new(gen_cs_rocks(), false);

    // Set a big value
    let big_val = "v".repeat(u16::MAX as usize + 1).as_bytes().to_vec();
    assert!(state.set(b"key10", big_val).is_ok());

    // commit
    state.commit(1).unwrap();
}

#[test]
fn test_rocksdb_set_big_key_unchecked() {
    // Make sure is_merkle flag is false
    let mut state = State::new(gen_cs_rocks(), false);

    // Set maximum valid key and value
    let max_key = "k".repeat(u8::MAX as usize).as_bytes().to_vec();
    let max_val = "v".repeat(u16::MAX as usize).as_bytes().to_vec();
    state.set(&max_key, max_val.clone()).unwrap();
    assert_eq!(state.get(&max_key).unwrap(), Some(max_val));

    // Set a big key
    let big_key = "k".repeat(u8::MAX as usize + 1).as_bytes().to_vec();
    assert!(state.set(&big_key, b"v10".to_vec()).is_ok());

    // commit
    state.commit(1).unwrap();
}

fn test_delete_impl<D: MerkleDB>(cs: Arc<RwLock<ChainState<D>>>) {
    //Setup
    let mut state = State::new(cs, true);

    //Set some kv pairs
    state.set(b"prefix_validator_1", b"v10".to_vec()).unwrap();
    state.set(b"prefix_validator_2", b"v20".to_vec()).unwrap();
    state.set(b"prefix_validator_3", b"v30".to_vec()).unwrap();

    //Get the values
    assert_eq!(state.get(b"prefix_validator_1").unwrap(), Some(b"v10".to_vec()));
    assert_eq!(state.get(b"prefix_validator_2").unwrap(), Some(b"v20".to_vec()));
    assert_eq!(state.get(b"prefix_validator_3").unwrap(), Some(b"v30".to_vec()));

    // ----------- Commit and clear cache - Simulate new block -----------
    let _res = state.commit(89);

    //Should get this value from the chain state as the state cache is empty
    assert_eq!(state.get(b"prefix_validator_1").unwrap(), Some(b"v10".to_vec()));

    state.set(b"prefix_validator_4", b"v40".to_vec()).unwrap();
    let _res = state.delete(b"prefix_validator_4");

    println!("test_delete Batch after delete: {:?}", state.commit_session());

    //Delete key from chain state
    let _res2 = state.delete(b"prefix_validator_3");

    // ----------- Commit and clear cache - Simulate new block -----------
    let _res1 = state.commit(90);

    //Should get this value from the chain state as the state cache is empty
    assert_eq!(state.get(b"prefix_validator_1").unwrap(), Some(b"v10".to_vec()));
    assert_eq!(state.get(b"prefix_validator_2").unwrap(), Some(b"v20".to_vec()));
    assert_eq!(state.get(b"prefix_validator_3").unwrap(), None);
}

#[test]
fn test_delete() {
    test_delete_impl(gen_cs());
}

#[test]
fn test_delete_rocks() {
    test_delete_impl(gen_cs_rocks());
}

fn test_get_deleted_impl<D: MerkleDB>(cs: Arc<RwLock<ChainState<D>>>) {
    let mut state = State::new(cs, true);

    //Set some kv pairs
    state.set(b"prefix_validator_1", b"v10".to_vec()).unwrap();
    state.set(b"prefix_validator_2", b"v20".to_vec()).unwrap();
    state.set(b"prefix_validator_3", b"v30".to_vec()).unwrap();

    let _res = state.commit(89);

    //Should detect the key as deleted from the cache and return None without querying db
    let _res2 = state.delete(b"prefix_validator_3");
    assert_eq!(state.get(b"prefix_validator_3").unwrap(), None);
}

#[test]
fn test_get_deleted() {
    test_get_deleted_impl(gen_cs());
}

#[test]
fn test_get_deleted_rocks() {
    test_get_deleted_impl(gen_cs_rocks());
}

#[test]
fn test_commit() {
    //Setup
    let mut state = State::new(gen_cs(), true);

    //Set some kv pairs
    state.set(b"prefix_validator_1", b"v10".to_vec()).unwrap();
    state.set(b"prefix_validator_2", b"v10".to_vec()).unwrap();

    //Commit state to db
    let (app_hash1, height1) = state.commit(90).unwrap();

    //Modify a value in the db
    state.set(b"prefix_validator_2", b"v20".to_vec()).unwrap();
    assert_eq!(height1, 90);

    //Commit state to db
    let (app_hash2, height2) = state.commit(91).unwrap();

    //Root hashes must be different
    assert_ne!(app_hash1, app_hash2);
    assert_eq!(height2, 91);

    //Commit state to db
    let (app_hash3, height3) = state.commit(92).unwrap();

    // Root hashes must be equal
    assert_eq!(app_hash2, app_hash3);
    assert_eq!(height3, 92)
}

#[test]
fn test_commit_rocks() {
    //Setup
    let mut state = State::new(gen_cs_rocks(), true);

    //Set some kv pairs
    state.set(b"prefix_validator_1", b"v10".to_vec()).unwrap();
    state.set(b"prefix_validator_2", b"v10".to_vec()).unwrap();

    //Commit state to db
    let (app_hash1, height1) = state.commit(90).unwrap();

    //Modify a value in the db
    state.set(b"prefix_validator_2", b"v20".to_vec()).unwrap();
    assert_eq!(height1, 90);

    //Commit state to db
    let (app_hash2, height2) = state.commit(91).unwrap();

    //Without a Merkle tree the root hashes are equal
    assert_eq!(app_hash1, app_hash2);
    assert_eq!(height2, 91);

    //Commit state to db
    let (app_hash3, height3) = state.commit(92).unwrap();

    // Root hashes must be equal
    assert_eq!(app_hash2, app_hash3);
    assert_eq!(height3, 92)
}

#[test]
fn test_root_hash() {
    //Setup
    let mut state = State::new(gen_cs(), true);

    //Set some kv pairs
    state.set(b"prefix_validator_1", b"v10".to_vec()).unwrap();
    state.set(b"prefix_validator_2", b"v10".to_vec()).unwrap();

    //Commit state to db
    let (app_hash1, _height) = state.commit(90).unwrap();

    //Modify a value in the db
    state.set(b"prefix_validator_2", b"v20".to_vec()).unwrap();

    //Commit state to db
    let (app_hash2, _height) = state.commit(91).unwrap();

    //Root hashes must be different
    assert_ne!(app_hash1, app_hash2);

    //Commit state to db
    let (app_hash3, _height) = state.commit(92).unwrap();

    // Root hashes must be equal
    assert_eq!(app_hash2, app_hash3);
}

fn test_iterate_impl<D: MerkleDB>(cs: Arc<RwLock<ChainState<D>>>) {
    let mut state = State::new(cs, true);
    let mut count = 0;

    state.set(b"prefix_validator_1", b"v10".to_vec()).unwrap();
    state.set(b"prefix_validator_2", b"v10".to_vec()).unwrap();
    state.set(b"prefix_3", b"v10".to_vec()).unwrap();
    state.set(b"prefix_4", b"v10".to_vec()).unwrap();
    state.set(b"prefix_validator_5", b"v10".to_vec()).unwrap();
    state.set(b"prefix_validator_6", b"v10".to_vec()).unwrap();
    state.set(b"prefix_7", b"v10".to_vec()).unwrap();
    state.set(b"prefix_validator_8", b"v10".to_vec()).unwrap();

    // ----------- Commit state to db and clear cache -----------
    let res1 = state.commit(55).unwrap();
    assert_eq!(res1.1, 55);

    let mut func_iter = |entry: KValue| {
        println!("Key: {:?}, Value: {:?}", entry.0, entry.1);
        count += 1;
        false
    };
    state.iterate(
        &b"prefix_validator_".to_vec(),
        &b"prefix_validator~".to_vec(),
        IterOrder::Asc,
        &mut func_iter,
    );
    assert_eq!(count, 5);
}

#[test]
fn test_iterate() {
    test_iterate_impl(gen_cs());
}

#[test]
fn test_iterate_rocks() {
    test_iterate_impl(gen_cs_rocks());
}
