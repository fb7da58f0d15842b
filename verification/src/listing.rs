//! Listings: sequences of keyed entries in ascending order of their keys, and
//! the maps that they list.

use crate::bytes::{bytes_lt, bytes_lt_asymmetric, bytes_lt_irreflexive, bytes_lt_transitive};
use vstd::prelude::*;

verus! {

/// Whether the keys of `s` strictly ascend, so that no key occurs twice.
pub open spec fn ascending<W>(s: Seq<(Seq<u8>, W)>) -> bool {
    forall|i: int, j: int| 0 <= i < j < s.len() ==> bytes_lt(#[trigger] s[i].0, #[trigger] s[j].0)
}

/// Whether some entry of `s` has the key `k`.
pub open spec fn has_key<W>(s: Seq<(Seq<u8>, W)>, k: Seq<u8>) -> bool {
    exists|i: int| 0 <= i < s.len() && #[trigger] s[i].0 == k
}

/// A position in `s` of an entry with the key `k`, where there is one.
pub open spec fn position<W>(s: Seq<(Seq<u8>, W)>, k: Seq<u8>) -> int {
    choose|i: int| 0 <= i < s.len() && #[trigger] s[i].0 == k
}

/// The map from each key of `s` to the value of its entry.
pub open spec fn listed<W>(s: Seq<(Seq<u8>, W)>) -> Map<Seq<u8>, W> {
    Map::new(|k: Seq<u8>| has_key(s, k), |k: Seq<u8>| s[position(s, k)].1)
}

/// Whether `s` lists the map `m`: each of its entries once, in ascending order of the keys.
pub open spec fn lists<W>(s: Seq<(Seq<u8>, W)>, m: Map<Seq<u8>, W>) -> bool {
    ascending(s) && listed(s) == m
}

/// A sequence lists a map exactly where its keys come one before the other, it has an entry for each
/// key of the map and for no other, and each entry has the value that the map has for its key.
pub proof fn lists_each_once<W>(s: Seq<(Seq<u8>, W)>, m: Map<Seq<u8>, W>)
    ensures
        lists(s, m) == {
            &&& forall|i: int, j: int| 0 <= i < j < s.len() ==> bytes_lt((#[trigger] s[i]).0, (#[trigger] s[j]).0)
            &&& forall|k: Seq<u8>| #[trigger]
                m.contains_key(k) == exists|i: int| 0 <= i < s.len() && (#[trigger] s[i]).0 == k
            &&& forall|i: int| 0 <= i < s.len() ==> m[(#[trigger] s[i]).0] == s[i].1
        },
{
    if lists(s, m) {
        assert forall|i: int, j: int| 0 <= i < j < s.len() implies bytes_lt(
            (#[trigger] s[i]).0,
            (#[trigger] s[j]).0,
        ) by {
            assert(bytes_lt(s[i].0, s[j].0));
        }
        assert forall|k: Seq<u8>| #[trigger] m.contains_key(k) == exists|i: int|
            0 <= i < s.len() && (#[trigger] s[i]).0 == k by {
            assert(m.contains_key(k) == has_key(s, k));
        }
        assert forall|i: int| 0 <= i < s.len() implies m[(#[trigger] s[i]).0] == s[i].1 by {
            listed_at(s, i);
        }
    }
    if {
        &&& forall|i: int, j: int| 0 <= i < j < s.len() ==> bytes_lt((#[trigger] s[i]).0, (#[trigger] s[j]).0)
        &&& forall|k: Seq<u8>| #[trigger]
            m.contains_key(k) == exists|i: int| 0 <= i < s.len() && (#[trigger] s[i]).0 == k
        &&& forall|i: int| 0 <= i < s.len() ==> m[(#[trigger] s[i]).0] == s[i].1
    } {
        assert(ascending(s));
        assert forall|i: int| 0 <= i < s.len() implies m.contains_key((#[trigger] s[i]).0) && m[s[i].0]
            == s[i].1 by {
            assert(s[i].0 == s[i].0);
        }
        assert forall|k: Seq<u8>| #[trigger] m.contains_key(k) implies has_key(s, k) by {
            let i = choose|i: int| 0 <= i < s.len() && (#[trigger] s[i]).0 == k;
            assert(s[i].0 == k);
        }
        listed_is(s, m);
    }
}

/// Each entry of an ascending sequence is an entry of the map that it lists.
pub proof fn listed_at<W>(s: Seq<(Seq<u8>, W)>, i: int)
    requires
        ascending(s),
        0 <= i < s.len(),
    ensures
        listed(s).contains_key(s[i].0),
        listed(s)[s[i].0] == s[i].1,
{
    let k = s[i].0;
    let p = position(s, k);
    assert(s[i].0 == k);
    if p != i {
        bytes_lt_irreflexive(k);
        if p < i {
            assert(bytes_lt(s[p].0, s[i].0));
        } else {
            assert(bytes_lt(s[i].0, s[p].0));
        }
    }
}

/// A map is the one that `s` lists when it agrees with `s` entry by entry.
pub proof fn listed_is<W>(s: Seq<(Seq<u8>, W)>, m: Map<Seq<u8>, W>)
    requires
        ascending(s),
        forall|i: int| 0 <= i < s.len() ==> m.contains_key((#[trigger] s[i]).0) && m[s[i].0] == s[i].1,
        forall|k: Seq<u8>| #[trigger] m.contains_key(k) ==> has_key(s, k),
    ensures
        listed(s) == m,
{
    assert forall|k: Seq<u8>| #[trigger] listed(s).contains_key(k) == m.contains_key(k) by {
        if has_key(s, k) {
            let i = position(s, k);
            assert(m.contains_key(s[i].0));
        }
    }
    assert forall|k: Seq<u8>| #[trigger] listed(s).contains_key(k) implies listed(s)[k] == m[k] by {
        let i = position(s, k);
        assert(m[s[i].0] == s[i].1);
    }
    assert(listed(s) =~= m);
}

/// Replacing the value of the entry at `p` replaces the value of its key in the map.
pub proof fn listed_update<W>(s: Seq<(Seq<u8>, W)>, p: int, w: W)
    requires
        ascending(s),
        0 <= p < s.len(),
    ensures
        ascending(s.update(p, (s[p].0, w))),
        listed(s.update(p, (s[p].0, w))) == listed(s).insert(s[p].0, w),
{
    let k = s[p].0;
    let t = s.update(p, (k, w));
    let m = listed(s).insert(k, w);
    assert forall|i: int, j: int| 0 <= i < j < t.len() implies bytes_lt(#[trigger] t[i].0, #[trigger] t[j].0) by {
        assert(t[i].0 == s[i].0 && t[j].0 == s[j].0);
    }
    assert forall|i: int| 0 <= i < t.len() implies m.contains_key((#[trigger] t[i]).0) && m[t[i].0] == t[i].1 by {
        listed_at(s, i);
        if i < p {
            bytes_lt_asymmetric(s[i].0, s[p].0);
        } else if p < i {
            bytes_lt_asymmetric(s[p].0, s[i].0);
        }
    }
    assert forall|q: Seq<u8>| #[trigger] m.contains_key(q) implies has_key(t, q) by {
        if q == k {
            assert(t[p].0 == q);
        } else {
            let i = position(s, q);
            assert(t[i].0 == q);
        }
    }
    listed_is(t, m);
}

/// Putting an entry where its key belongs adds it to the map.
pub proof fn listed_insert<W>(s: Seq<(Seq<u8>, W)>, p: int, k: Seq<u8>, w: W)
    requires
        ascending(s),
        0 <= p <= s.len(),
        forall|i: int| 0 <= i < p ==> bytes_lt((#[trigger] s[i]).0, k),
        forall|i: int| p <= i < s.len() ==> bytes_lt(k, (#[trigger] s[i]).0),
    ensures
        ascending(s.insert(p, (k, w))),
        listed(s.insert(p, (k, w))) == listed(s).insert(k, w),
{
    let t = s.insert(p, (k, w));
    let m = listed(s).insert(k, w);
    assert forall|i: int, j: int| 0 <= i < j < t.len() implies bytes_lt(#[trigger] t[i].0, #[trigger] t[j].0) by {
        let si = if i < p { s[i] } else { s[i - 1] };
        let sj = if j < p { s[j] } else { s[j - 1] };
        assert(i == p || t[i] == si);
        assert(j == p || t[j] == sj);
    }
    assert forall|i: int| 0 <= i < t.len() implies m.contains_key((#[trigger] t[i]).0) && m[t[i].0] == t[i].1 by {
        if i < p {
            listed_at(s, i);
            bytes_lt_asymmetric(s[i].0, k);
        } else if p < i {
            listed_at(s, i - 1);
            bytes_lt_asymmetric(k, s[i - 1].0);
        }
    }
    assert forall|q: Seq<u8>| #[trigger] m.contains_key(q) implies has_key(t, q) by {
        if q == k {
            assert(t[p].0 == q);
        } else {
            let i = position(s, q);
            if i < p {
                assert(t[i].0 == q);
            } else {
                assert(t[i + 1].0 == q);
            }
        }
    }
    listed_is(t, m);
}

/// Taking an entry out removes its key from the map.
pub proof fn listed_remove<W>(s: Seq<(Seq<u8>, W)>, p: int)
    requires
        ascending(s),
        0 <= p < s.len(),
    ensures
        ascending(s.remove(p)),
        listed(s.remove(p)) == listed(s).remove(s[p].0),
{
    let k = s[p].0;
    let t = s.remove(p);
    let m = listed(s).remove(k);
    assert forall|i: int, j: int| 0 <= i < j < t.len() implies bytes_lt(#[trigger] t[i].0, #[trigger] t[j].0) by {
        let si = if i < p { s[i] } else { s[i + 1] };
        let sj = if j < p { s[j] } else { s[j + 1] };
        assert(t[i] == si && t[j] == sj);
    }
    assert forall|i: int| 0 <= i < t.len() implies m.contains_key((#[trigger] t[i]).0) && m[t[i].0] == t[i].1 by {
        if i < p {
            listed_at(s, i);
            bytes_lt_asymmetric(s[i].0, s[p].0);
        } else {
            listed_at(s, i + 1);
            bytes_lt_asymmetric(s[p].0, s[i + 1].0);
        }
    }
    assert forall|q: Seq<u8>| #[trigger] m.contains_key(q) implies has_key(t, q) by {
        let i = position(s, q);
        if i < p {
            assert(t[i].0 == q);
        } else {
            assert(t[i - 1].0 == q);
        }
    }
    listed_is(t, m);
}

/// A key that belongs between two neighbours of an ascending sequence is not in its map.
pub proof fn listed_absent<W>(s: Seq<(Seq<u8>, W)>, p: int, k: Seq<u8>)
    requires
        0 <= p <= s.len(),
        forall|i: int| 0 <= i < p ==> bytes_lt((#[trigger] s[i]).0, k),
        forall|i: int| p <= i < s.len() ==> bytes_lt(k, (#[trigger] s[i]).0),
    ensures
        !listed(s).contains_key(k),
{
    if has_key(s, k) {
        let i = position(s, k);
        assert(s[i].0 == k);
        bytes_lt_irreflexive(k);
    }
}

/// A map has one listing only.
pub proof fn listing_unique<W>(s: Seq<(Seq<u8>, W)>, t: Seq<(Seq<u8>, W)>, m: Map<Seq<u8>, W>)
    requires
        lists(s, m),
        lists(t, m),
    ensures
        s == t,
    decreases s.len() + t.len(),
{
    if s.len() == 0 && t.len() == 0 {
        assert(s =~= t);
    } else if s.len() == 0 {
        listed_at(t, 0);
        assert(has_key(s, t[0].0));
    } else if t.len() == 0 {
        listed_at(s, 0);
        assert(has_key(t, s[0].0));
    } else {
        let x = s.last();
        let y = t.last();
        listed_at(s, s.len() - 1);
        listed_at(t, t.len() - 1);
        assert(has_key(t, x.0));
        assert(has_key(s, y.0));
        let i = position(t, x.0);
        let j = position(s, y.0);
        bytes_lt_irreflexive(x.0);
        if x.0 != y.0 {
            assert(bytes_lt(t[i].0, t.last().0));
            assert(bytes_lt(s[j].0, s.last().0));
            bytes_lt_transitive(x.0, y.0, x.0);
        }
        listed_remove(s, s.len() - 1);
        listed_remove(t, t.len() - 1);
        listing_unique(s.remove(s.len() - 1), t.remove(t.len() - 1), m.remove(x.0));
        assert(s =~= s.remove(s.len() - 1).push(x));
        assert(t =~= t.remove(t.len() - 1).push(y));
    }
}

} // verus!
