//! Byte strings and their order.

use vstd::prelude::*;

verus! {

/// The lexicographic order on byte strings, in which a proper prefix comes first.
pub open spec fn bytes_lt(a: Seq<u8>, b: Seq<u8>) -> bool
    decreases a.len(),
{
    if b.len() == 0 {
        false
    } else if a.len() == 0 {
        true
    } else if a[0] != b[0] {
        a[0] < b[0]
    } else {
        bytes_lt(a.drop_first(), b.drop_first())
    }
}

/// Whether `key` starts with `prefix`.
pub open spec fn starts_with(key: Seq<u8>, prefix: Seq<u8>) -> bool {
    prefix.len() <= key.len() && key.take(prefix.len() as int) == prefix
}

/// No byte string comes before itself.
pub proof fn bytes_lt_irreflexive(a: Seq<u8>)
    ensures
        !bytes_lt(a, a),
    decreases a.len(),
{
    if a.len() > 0 {
        bytes_lt_irreflexive(a.drop_first());
    }
}

/// The order is transitive.
pub proof fn bytes_lt_transitive(a: Seq<u8>, b: Seq<u8>, c: Seq<u8>)
    requires
        bytes_lt(a, b),
        bytes_lt(b, c),
    ensures
        bytes_lt(a, c),
    decreases a.len(),
{
    if a.len() > 0 && a[0] == b[0] && b[0] == c[0] {
        bytes_lt_transitive(a.drop_first(), b.drop_first(), c.drop_first());
    }
}

/// Of two different byte strings, one comes before the other.
pub proof fn bytes_lt_total(a: Seq<u8>, b: Seq<u8>)
    ensures
        a == b || bytes_lt(a, b) || bytes_lt(b, a),
    decreases a.len(),
{
    if a.len() == 0 && b.len() == 0 {
        assert(a =~= b);
    } else if a.len() > 0 && b.len() > 0 && a[0] == b[0] {
        bytes_lt_total(a.drop_first(), b.drop_first());
        if a.drop_first() == b.drop_first() {
            assert(a =~= seq![a[0]] + a.drop_first());
            assert(b =~= seq![b[0]] + b.drop_first());
        }
    }
}

/// Of two byte strings, at most one comes before the other.
pub proof fn bytes_lt_asymmetric(a: Seq<u8>, b: Seq<u8>)
    requires
        bytes_lt(a, b),
    ensures
        !bytes_lt(b, a),
        a != b,
{
    bytes_lt_irreflexive(a);
    if bytes_lt(b, a) {
        bytes_lt_transitive(a, b, a);
    }
}

/// One byte string comes before another exactly where it is a proper prefix of the other, or where
/// the two agree up to some place and have the smaller and the greater byte there.
pub proof fn bytes_lt_first_difference(a: Seq<u8>, b: Seq<u8>)
    ensures
        bytes_lt(a, b) == {
            ||| a.len() < b.len() && b.take(a.len() as int) == a
            ||| exists|i: int|
                0 <= i < a.len() && i < b.len() && a.take(i) == b.take(i) && #[trigger] a[i] < #[trigger] b[i]
        },
    decreases a.len(),
{
    if a.len() == 0 {
        assert(b.take(0) =~= a);
    } else if b.len() > 0 {
        let (c, d) = (a.drop_first(), b.drop_first());
        bytes_lt_first_difference(c, d);
        if a[0] == b[0] {
            if c.len() < d.len() && d.take(c.len() as int) == c {
                assert(b.take(a.len() as int) =~= seq![b[0]] + d.take(c.len() as int));
                assert(a =~= seq![a[0]] + c);
            }
            if a.len() < b.len() && b.take(a.len() as int) == a {
                assert(d.take(c.len() as int) =~= b.take(a.len() as int).drop_first());
            }
            if exists|i: int|
                0 <= i < c.len() && i < d.len() && c.take(i) == d.take(i) && #[trigger] c[i] < #[trigger] d[i] {
                let i = choose|i: int|
                    0 <= i < c.len() && i < d.len() && c.take(i) == d.take(i) && #[trigger] c[i] < #[trigger] d[i];
                assert(a.take(i + 1) =~= seq![a[0]] + c.take(i));
                assert(b.take(i + 1) =~= seq![b[0]] + d.take(i));
                assert(a[i + 1] < b[i + 1]);
            }
            if exists|i: int|
                0 <= i < a.len() && i < b.len() && a.take(i) == b.take(i) && #[trigger] a[i] < #[trigger] b[i] {
                let i = choose|i: int|
                    0 <= i < a.len() && i < b.len() && a.take(i) == b.take(i) && #[trigger] a[i] < #[trigger] b[i];
                assert(c.take(i - 1) =~= a.take(i).drop_first());
                assert(d.take(i - 1) =~= b.take(i).drop_first());
                assert(c[i - 1] < d[i - 1]);
            }
        } else {
            if a.len() < b.len() && b.take(a.len() as int) == a {
                assert(b.take(a.len() as int)[0] == a[0]);
            }
            if exists|i: int|
                0 <= i < a.len() && i < b.len() && a.take(i) == b.take(i) && #[trigger] a[i] < #[trigger] b[i] {
                let i = choose|i: int|
                    0 <= i < a.len() && i < b.len() && a.take(i) == b.take(i) && #[trigger] a[i] < #[trigger] b[i];
                if i > 0 {
                    assert(a.take(i)[0] == b.take(i)[0]);
                }
            }
            assert(a.take(0) =~= b.take(0));
            if a[0] < b[0] {
                assert(bytes_lt(a, b));
            }
        }
    }
}

/// A byte string starts with a prefix exactly where the prefix can be completed to it, that is where
/// the two agree at each place of the prefix.
pub proof fn starts_with_rest(key: Seq<u8>, prefix: Seq<u8>)
    ensures
        starts_with(key, prefix) == exists|rest: Seq<u8>| key == #[trigger] (prefix + rest),
        starts_with(key, prefix) == (prefix.len() <= key.len() && forall|j: int|
            0 <= j < prefix.len() ==> #[trigger] key[j] == prefix[j]),
{
    if starts_with(key, prefix) {
        let rest = key.skip(prefix.len() as int);
        assert(key =~= prefix + rest);
        assert forall|j: int| 0 <= j < prefix.len() implies #[trigger] key[j] == prefix[j] by {
            assert(key.take(prefix.len() as int)[j] == key[j]);
        }
    }
    if exists|rest: Seq<u8>| key == #[trigger] (prefix + rest) {
        let rest = choose|rest: Seq<u8>| key == #[trigger] (prefix + rest);
        assert(key.take(prefix.len() as int) =~= prefix);
    }
    if prefix.len() <= key.len() && forall|j: int| 0 <= j < prefix.len() ==> #[trigger] key[j] == prefix[j] {
        assert(key.take(prefix.len() as int) =~= prefix);
    }
}

/// A comparison tells whether the first byte string is a proper prefix of the second, or has the
/// smaller byte at the first place where they differ.
pub proof fn less_by_first_difference(a: &[u8], b: &[u8], less: bool)
    requires
        call_ensures(bytes_less, (a, b), less),
    ensures
        less == {
            ||| a@.len() < b@.len() && b@.take(a@.len() as int) == a@
            ||| exists|i: int|
                0 <= i < a@.len() && i < b@.len() && a@.take(i) == b@.take(i) && #[trigger] a@[i] < #[trigger] b@[i]
        },
{
    bytes_lt_first_difference(a@, b@);
}

/// A test for a prefix tells whether the prefix can be completed to the byte string.
pub proof fn prefix_by_rest(key: &[u8], prefix: &[u8], found: bool)
    requires
        call_ensures(has_prefix, (key, prefix), found),
    ensures
        found == exists|rest: Seq<u8>| key@ == #[trigger] (prefix@ + rest),
{
    starts_with_rest(key@, prefix@);
}

/// Tells whether `a` comes before `b`.
pub fn bytes_less(a: &[u8], b: &[u8]) -> (less: bool)
    ensures
        less == bytes_lt(a@, b@),
{
    let mut i: usize = 0;
    assert(a@.skip(0) =~= a@ && b@.skip(0) =~= b@);
    while i < a.len() && i < b.len()
        invariant
            i <= a.len(),
            i <= b.len(),
            bytes_lt(a@, b@) == bytes_lt(a@.skip(i as int), b@.skip(i as int)),
        decreases a.len() - i,
    {
        if a[i] != b[i] {
            return a[i] < b[i];
        }
        assert(a@.skip(i as int).drop_first() =~= a@.skip(i + 1));
        assert(b@.skip(i as int).drop_first() =~= b@.skip(i + 1));
        i = i + 1;
    }
    i < b.len()
}

/// Tells whether `a` and `b` hold the same bytes.
pub fn bytes_equal(a: &[u8], b: &[u8]) -> (equal: bool)
    ensures
        equal == (a@ == b@),
{
    if a.len() != b.len() {
        return false;
    }
    let mut i: usize = 0;
    while i < a.len()
        invariant
            i <= a.len(),
            a.len() == b.len(),
            forall|j: int| 0 <= j < i ==> a@[j] == b@[j],
        decreases a.len() - i,
    {
        if a[i] != b[i] {
            return false;
        }
        i = i + 1;
    }
    assert(a@ =~= b@);
    true
}

/// Tells whether `key` starts with `prefix`.
pub fn has_prefix(key: &[u8], prefix: &[u8]) -> (found: bool)
    ensures
        found == starts_with(key@, prefix@),
{
    if key.len() < prefix.len() {
        return false;
    }
    let mut i: usize = 0;
    while i < prefix.len()
        invariant
            i <= prefix.len(),
            prefix.len() <= key.len(),
            forall|j: int| 0 <= j < i ==> key@[j] == prefix@[j],
        decreases prefix.len() - i,
    {
        if key[i] != prefix[i] {
            assert(key@.take(prefix@.len() as int)[i as int] != prefix@[i as int]);
            return false;
        }
        i = i + 1;
    }
    assert(key@.take(prefix@.len() as int) =~= prefix@);
    true
}

} // verus!
