//! The reader-writer lock around what states share.

use parking_lot::RwLock;
use std::sync::Arc;
use vstd::prelude::*;

verus! {

/// The raw lock of `parking_lot`, which names the lock's flavour in its type.
#[verifier::external_type_specification]
#[verifier::external_body]
pub struct ExRawRwLock(parking_lot::RawRwLock);

/// The reader-writer lock that `parking_lot::RwLock` stands for. What it protects can be changed
/// through any of its holders at any time, so a lock tells nothing about the value inside; two
/// locks are equal only where they are the same lock.
#[verifier::external_type_specification]
#[verifier::external_body]
#[verifier::reject_recursive_types(R)]
#[verifier::reject_recursive_types(T)]
pub struct ExRwLock<R, T: ?Sized>(parking_lot::lock_api::RwLock<R, T>);

/// Calls `f` on the protected value while `parking_lot::RwLock::read` holds the lock, and hands
/// `arg` on to it.
///
/// What is claimed: `f` is called once, on some value of the protected type and on `arg`, and what
/// it returns is returned. Which value that is depends on the other holders of the lock, and
/// nothing is claimed of it. The call waits until no writer holds the lock; a thread that already
/// holds it may wait forever.
#[verifier::external_body]
fn read_with<T, A, Out, F: FnOnce(&T, A) -> Out>(lock: &RwLock<T>, arg: A, f: F) -> (out: Out)
    requires
        forall|value: &T| #[trigger] call_requires(f, (value, arg)),
    ensures
        exists|value: &T| #[trigger] call_ensures(f, (value, arg), out),
{
    f(&*lock.read(), arg)
}

/// Calls `f` on the protected value while `parking_lot::RwLock::write` holds the lock, and hands
/// `arg` on to it. What `f` leaves there is the protected value from then on.
///
/// What is claimed: `f` is called once, on some value of the protected type and on `arg`, and what
/// it returns is returned. Which value that is depends on the other holders of the lock, and
/// nothing is claimed of it. The call waits until nobody else holds the lock; a thread that already
/// holds it waits forever.
#[verifier::external_body]
fn write_with<T, A, Out, F: FnOnce(&mut T, A) -> Out>(lock: &RwLock<T>, arg: A, f: F) -> (out: Out)
    requires
        forall|value: &mut T| #[trigger] call_requires(f, (value, arg)),
    ensures
        exists|value: &mut T| #[trigger] call_ensures(f, (value, arg), out),
{
    f(&mut *lock.write(), arg)
}

/// What a function that reads through a lock may open: anything, since what it runs under the lock
/// is its caller's. Only this module knows that. Elsewhere, a function that lists no other set than
/// this one can call nothing that writes through a lock, shares one, or lists nothing; so its header
/// tells that all it does to a lock is to read. The header does not speak of what runs under the lock,
/// which cannot get hold of the same lock for a write while the read lasts.
pub closed spec fn reading() -> Set<int> {
    Set::full()
}

/// What a function that writes through a lock may open, kept from other modules like [`reading`].
pub closed spec fn writing() -> Set<int> {
    Set::full()
}

/// What a function that makes another handle of a lock may open, kept from other modules like
/// [`reading`].
pub closed spec fn sharing() -> Set<int> {
    Set::full()
}

/// A handle of a lock. It records what was written through it.
#[verifier::reject_recursive_types(T)]
pub struct Shared<T> {
    lock: Arc<RwLock<T>>,
    written: Ghost<Seq<(T, T)>>,
}

impl<T> Shared<T> {
    /// The lock.
    pub closed spec fn lock(&self) -> Arc<RwLock<T>> {
        self.lock
    }

    /// What was written through this handle: the protected value right before and right after each
    /// write, in the order of the writes.
    pub closed spec fn written(&self) -> Seq<(T, T)> {
        self.written@
    }

    /// Makes a handle of the lock.
    pub fn new(lock: Arc<RwLock<T>>) -> (shared: Self)
        ensures
            shared.lock() == lock,
            shared.written() == Seq::<(T, T)>::empty(),
        opens_invariants sharing()
    {
        Shared { lock, written: Ghost(Seq::empty()) }
    }

    /// Makes another handle of the same lock.
    pub fn share(&self) -> (shared: Self)
        ensures
            shared.lock() == self.lock(),
            shared.written() == Seq::<(T, T)>::empty(),
        opens_invariants sharing()
    {
        Shared { lock: self.lock.clone(), written: Ghost(Seq::empty()) }
    }

    /// Returns the lock.
    pub fn inner(&self) -> (lock: Arc<RwLock<T>>)
        ensures
            lock == self.lock(),
        opens_invariants sharing()
    {
        self.lock.clone()
    }

    /// Calls `f` once, on the protected value and on `arg`.
    pub fn read<A, Out, F: FnOnce(&T, A) -> Out>(&self, arg: A, f: F) -> (out: Out)
        requires
            forall|value: &T| #[trigger] call_requires(f, (value, arg)),
        ensures
            exists|value: &T| #[trigger] call_ensures(f, (value, arg), out),
        opens_invariants reading()
    {
        read_with(&self.lock, arg, f)
    }

    /// Calls `f` once, on the protected value, which it may change, and on `arg`. Besides its result
    /// `f` tells, for proofs only, what it found and what it left.
    pub fn write<A, Out, F: FnOnce(&mut T, A) -> (Out, Ghost<(T, T)>)>(&mut self, arg: A, f: F) -> (out: Out)
        requires
            forall|value: &mut T| #[trigger] call_requires(f, (value, arg)),
            forall|value: &mut T, told: (Out, Ghost<(T, T)>)| #[trigger]
                call_ensures(f, (value, arg), told) ==> told.1@ == (*value, *final(value)),
        ensures
            final(self).lock() == old(self).lock(),
            exists|value: &mut T, step: (T, T)|
                {
                    &&& #[trigger] call_ensures(f, (value, arg), (out, Ghost(step)))
                    &&& step == (*value, *final(value))
                    &&& final(self).written() == old(self).written().push(step)
                },
        opens_invariants writing()
    {
        let (out, step) = write_with(&self.lock, arg, f);
        self.written = Ghost(self.written@.push(step@));
        out
    }
}

} // verus!
