//! Maps keyed by byte strings, kept in ascending order of their keys.

use crate::bytes::{bytes_equal, bytes_less, bytes_lt, bytes_lt_total, bytes_lt_transitive};
use crate::listing::{ascending, listed, listed_absent, listed_at, listed_insert, listed_remove, listed_update, lists};
use vstd::prelude::*;
use vstd::slice::slice_to_vec;

verus! {

/// A value that a map can hold and hand out copies of.
pub trait Stored: Sized {
    /// What the value stands for.
    type Model;

    /// What this value stands for.
    spec fn model(&self) -> Self::Model;

    /// Returns another value that stands for the same.
    fn duplicate(&self) -> (copy: Self)
        ensures
            copy.model() == self.model(),
    ;
}

impl Stored for Vec<u8> {
    type Model = Seq<u8>;

    open spec fn model(&self) -> Seq<u8> {
        self@
    }

    fn duplicate(&self) -> (copy: Self) {
        slice_to_vec(self.as_slice())
    }
}

/// The bytes of an optional value.
pub open spec fn option_bytes(v: Option<Vec<u8>>) -> Option<Seq<u8>> {
    match v {
        Some(bytes) => Some(bytes@),
        None => None,
    }
}

impl Stored for Option<Vec<u8>> {
    type Model = Option<Seq<u8>>;

    open spec fn model(&self) -> Option<Seq<u8>> {
        option_bytes(*self)
    }

    fn duplicate(&self) -> (copy: Self) {
        match self {
            Some(bytes) => Some(bytes.duplicate()),
            None => None,
        }
    }
}

/// The keys and values that a sequence of entries stands for.
pub open spec fn entries_of<V: Stored>(s: Seq<(Vec<u8>, V)>) -> Seq<(Seq<u8>, V::Model)> {
    Seq::new(s.len(), |i: int| (s[i].0@, s[i].1.model()))
}

/// A value stands for its bytes, an optional one for its bytes where it has any, and an entry for the
/// bytes of its key with what its value stands for.
pub proof fn entries_by_bytes<V: Stored>(bytes: Vec<u8>, value: Option<Vec<u8>>, s: Seq<(Vec<u8>, V)>, i: int)
    ensures
        bytes.model() == bytes@,
        value matches Some(b) ==> value.model() == Some(b@),
        value is None ==> value.model() is None,
        option_bytes(value) == value.model(),
        entries_of(s).len() == s.len(),
        0 <= i < s.len() ==> entries_of(s)[i].0 == s[i].0@ && entries_of(s)[i].1 == s[i].1.model(),
{
}

/// A map from byte strings to values.
pub struct ByteMap<V: Stored> {
    entries: Vec<(Vec<u8>, V)>,
}

impl<V: Stored> View for ByteMap<V> {
    type V = Map<Seq<u8>, V::Model>;

    closed spec fn view(&self) -> Map<Seq<u8>, V::Model> {
        listed(entries_of(self.entries@))
    }
}

impl<V: Stored> ByteMap<V> {
    #[verifier::type_invariant]
    spec fn in_order(self) -> bool {
        ascending(entries_of(self.entries@))
    }

    /// Returns a map without entries.
    pub fn new() -> (map: Self)
        ensures
            map@ == Map::<Seq<u8>, V::Model>::empty(),
    {
        let map = ByteMap { entries: Vec::new() };
        assert(map@ =~= Map::<Seq<u8>, V::Model>::empty());
        map
    }

    /// Returns the number of keys that come before `key`.
    fn rank(entries: &Vec<(Vec<u8>, V)>, key: &[u8]) -> (p: usize)
        requires
            ascending(entries_of(entries@)),
        ensures
            p <= entries@.len(),
            forall|i: int| 0 <= i < p ==> bytes_lt((#[trigger] entries_of(entries@)[i]).0, key@),
            forall|i: int|
                p <= i < entries@.len() ==> !bytes_lt((#[trigger] entries_of(entries@)[i]).0, key@),
    {
        let ghost s = entries_of(entries@);
        let mut low: usize = 0;
        let mut high: usize = entries.len();
        while low < high
            invariant
                low <= high <= entries@.len(),
                s == entries_of(entries@),
                ascending(s),
                forall|i: int| 0 <= i < low ==> bytes_lt((#[trigger] s[i]).0, key@),
                forall|i: int| high <= i < s.len() ==> !bytes_lt((#[trigger] s[i]).0, key@),
            decreases high - low,
        {
            let middle: usize = low + (high - low) / 2;
            assert(s[middle as int].0 == entries@[middle as int].0@);
            if bytes_less(entries[middle].0.as_slice(), key) {
                assert forall|i: int| 0 <= i < middle + 1 implies bytes_lt((#[trigger] s[i]).0, key@) by {
                    if i < middle {
                        bytes_lt_transitive(s[i].0, s[middle as int].0, key@);
                    }
                }
                low = middle + 1;
            } else {
                assert forall|i: int| middle <= i < s.len() implies !bytes_lt((#[trigger] s[i]).0, key@) by {
                    if middle < i && bytes_lt(s[i].0, key@) {
                        bytes_lt_transitive(s[middle as int].0, s[i].0, key@);
                    }
                }
                high = middle;
            }
        }
        low
    }

    /// Returns the position at which `key` stands or, where it is absent, at which it belongs,
    /// and whether it is there.
    fn find(entries: &Vec<(Vec<u8>, V)>, key: &[u8]) -> (found: (usize, bool))
        requires
            ascending(entries_of(entries@)),
        ensures
            found.0 <= entries@.len(),
            found.1 == listed(entries_of(entries@)).contains_key(key@),
            found.1 ==> found.0 < entries@.len() && entries@[found.0 as int].0@ == key@,
            !found.1 ==> {
                let s = entries_of(entries@);
                &&& forall|i: int| 0 <= i < found.0 ==> bytes_lt((#[trigger] s[i]).0, key@)
                &&& forall|i: int| found.0 <= i < s.len() ==> bytes_lt(key@, (#[trigger] s[i]).0)
            },
    {
        let p = Self::rank(entries, key);
        let ghost s = entries_of(entries@);
        if p < entries.len() && bytes_equal(entries[p].0.as_slice(), key) {
            proof {
                listed_at(s, p as int);
            }
            (p, true)
        } else {
            assert forall|i: int| p <= i < s.len() implies bytes_lt(key@, (#[trigger] s[i]).0) by {
                bytes_lt_total(s[p as int].0, key@);
                if p < i {
                    bytes_lt_transitive(key@, s[p as int].0, s[i].0);
                }
            }
            proof {
                listed_absent(s, p as int, key@);
            }
            (p, false)
        }
    }

    /// Returns the value of `key`, where it has one.
    pub fn get(&self, key: &[u8]) -> (value: Option<&V>)
        ensures
            match value {
                Some(v) => self@.contains_key(key@) && v.model() == self@[key@],
                None => !self@.contains_key(key@),
            },
    {
        proof {
            use_type_invariant(self);
        }
        let (p, found) = Self::find(&self.entries, key);
        if found {
            proof {
                listed_at(entries_of(self.entries@), p as int);
            }
            Some(&self.entries[p].1)
        } else {
            None
        }
    }

    /// Tells whether `key` has a value.
    pub fn contains_key(&self, key: &[u8]) -> (found: bool)
        ensures
            found == self@.contains_key(key@),
    {
        proof {
            use_type_invariant(self);
        }
        Self::find(&self.entries, key).1
    }

    /// Gives `key` the value `value`.
    pub fn insert(&mut self, key: &[u8], value: V)
        ensures
            final(self)@ == old(self)@.insert(key@, value.model()),
    {
        proof {
            use_type_invariant(&*self);
        }
        let (p, found) = Self::find(&self.entries, key);
        let ghost s = entries_of(self.entries@);
        let mut entries: Vec<(Vec<u8>, V)> = Vec::new();
        std::mem::swap(&mut entries, &mut self.entries);
        let entry = (slice_to_vec(key), value);
        if found {
            entries.set(p, entry);
            proof {
                listed_update(s, p as int, value.model());
                assert(entries_of(entries@) =~= s.update(p as int, (key@, value.model())));
            }
        } else {
            entries.insert(p, entry);
            proof {
                listed_insert(s, p as int, key@, value.model());
                assert(entries_of(entries@) =~= s.insert(p as int, (key@, value.model())));
            }
        }
        self.entries = entries;
    }

    /// Leaves `key` without a value.
    pub fn remove(&mut self, key: &[u8])
        ensures
            final(self)@ == old(self)@.remove(key@),
    {
        proof {
            use_type_invariant(&*self);
        }
        let (p, found) = Self::find(&self.entries, key);
        if found {
            let ghost s = entries_of(self.entries@);
            let mut entries: Vec<(Vec<u8>, V)> = Vec::new();
            std::mem::swap(&mut entries, &mut self.entries);
            entries.remove(p);
            proof {
                listed_remove(s, p as int);
                assert(entries_of(entries@) =~= s.remove(p as int));
            }
            self.entries = entries;
        } else {
            assert(self@ =~= old(self)@.remove(key@));
        }
    }

    /// Returns the entries in ascending order of their keys.
    pub fn entries(&self) -> (entries: &Vec<(Vec<u8>, V)>)
        ensures
            lists(entries_of(entries@), self@),
    {
        proof {
            use_type_invariant(self);
        }
        &self.entries
    }

    /// Returns a listing of the map: its entries in ascending order of their keys.
    pub fn to_entries(&self) -> (copy: Vec<(Vec<u8>, V)>)
        ensures
            lists(entries_of(copy@), self@),
    {
        proof {
            use_type_invariant(self);
        }
        let mut copy: Vec<(Vec<u8>, V)> = Vec::new();
        let mut i: usize = 0;
        while i < self.entries.len()
            invariant
                i <= self.entries@.len(),
                entries_of(copy@) =~= entries_of(self.entries@).take(i as int),
            decreases self.entries@.len() - i,
        {
            let entry = &self.entries[i];
            let ghost before = entries_of(copy@);
            copy.push((entry.0.duplicate(), entry.1.duplicate()));
            assert(entries_of(copy@) =~= before.push(entries_of(self.entries@)[i as int]));
            i = i + 1;
        }
        assert(entries_of(copy@) =~= entries_of(self.entries@));
        copy
    }
}

impl<V: Stored> Clone for ByteMap<V> {
    fn clone(&self) -> (copy: Self)
        ensures
            copy@ == self@,
    {
        ByteMap { entries: self.to_entries() }
    }
}

} // verus!
