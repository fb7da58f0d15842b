//! What can go wrong.

use vstd::prelude::*;

verus! {

/// Why a request was not served.
#[derive(Debug, PartialEq, Eq)]
pub enum StateError {
    /// The key or the value is longer than a Merkle tree can hold.
    InvalidKeyValue,
    /// A batch deletes a key that the store does not hold.
    AbsentKey,
    /// The store does not keep the version of the requested height.
    NoVersion,
    /// The store itself failed, for the reason given.
    Storage(String),
}

impl StateError {
    /// Returns the error as a line of text.
    pub fn message(&self) -> (text: String)
        ensures
            text@ == match *self {
                StateError::InvalidKeyValue => "Invalid key-value pair detected."@,
                StateError::AbsentKey => "The deleted key is not in the store."@,
                StateError::NoVersion => "No version is kept for this height."@,
                StateError::Storage(reason) => reason@,
            },
    {
        match self {
            StateError::InvalidKeyValue => "Invalid key-value pair detected.".to_owned(),
            StateError::AbsentKey => "The deleted key is not in the store.".to_owned(),
            StateError::NoVersion => "No version is kept for this height.".to_owned(),
            StateError::Storage(reason) => reason.clone(),
        }
    }
}

} // verus!
