//! Walks over a range of pairs, and what is called on the way.

use super::chain_state::{storing, ChainState};
use crate::byte_map::entries_of;
use crate::db::model::{lists_range, IterOrder, Pairs};
use crate::db::{KValue, MerkleDB};
use vstd::prelude::*;

verus! {

/// A call of a visitor: the entry, and whether it asked to stop.
pub type Call = (KValue, bool);

/// What a walk calls on the entries that it meets.
pub trait Visitor<E = KValue>: Sized {
    /// What decides how the visitor may answer; it stays the same from call to call.
    type Rule;

    /// The rule of this visitor.
    spec fn rule(&self) -> Self::Rule;

    /// Whether a visitor with the given rule may answer `stop` on `entry`.
    spec fn may_answer(rule: Self::Rule, entry: E, stop: bool) -> bool;

    /// Whether the visitor can be called.
    spec fn ready(&self) -> bool;

    /// All calls that were made so far.
    spec fn calls(&self) -> Seq<(E, bool)>;

    /// Takes the entry, and tells whether the walk is to stop.
    fn visit(&mut self, entry: E) -> (stop: bool)
        requires
            old(self).ready(),
        ensures
            final(self).ready(),
            final(self).rule() == old(self).rule(),
            final(self).calls() == old(self).calls().push((entry, stop)),
            Self::may_answer(old(self).rule(), entry, stop),
    ;
}

/// A function as a visitor. It knows nothing of the entries, so all that it can do with one is to hand
/// it to the function, once.
pub struct Callback<'a, F: FnMut(E) -> bool, E = KValue> {
    func: &'a mut F,
    made: Ghost<Seq<(E, bool)>>,
}

impl<'a, F: FnMut(E) -> bool, E> Callback<'a, F, E> {
    /// Returns a visitor that calls `func`.
    pub fn new(func: &'a mut F) -> (callback: Self)
        ensures
            callback.rule() == *old(func),
            callback.ready() == forall|entry: E| call_requires(*old(func), (entry,)),
            callback.calls() == Seq::<(E, bool)>::empty(),
        opens_invariants none
    {
        let ghost f = *func;
        let callback = Callback { func, made: Ghost(Seq::empty()) };
        proof {
            if callback.ready() {
                assert forall|entry: E| call_requires(f, (entry,)) by {
                    assert(call_requires(*callback.func, (entry,)));
                }
            }
            if forall|entry: E| call_requires(f, (entry,)) {
                assert forall|entry: E| call_requires(*callback.func, (entry,)) by {
                    assert(call_requires(f, (entry,)));
                }
            }
        }
        callback
    }
}

impl<'a, F: FnMut(E) -> bool, E> Visitor<E> for Callback<'a, F, E> {
    type Rule = F;

    closed spec fn rule(&self) -> F {
        *self.func
    }

    open spec fn may_answer(rule: F, entry: E, stop: bool) -> bool {
        call_ensures(rule, (entry,), stop)
    }

    closed spec fn ready(&self) -> bool {
        forall|entry: E| call_requires(*self.func, (entry,))
    }

    closed spec fn calls(&self) -> Seq<(E, bool)> {
        self.made@
    }

    fn visit(&mut self, entry: E) -> (stop: bool) {
        let stop = (self.func)(entry);
        self.made = Ghost(self.made@.push((entry, stop)));
        stop
    }
}

/// Whether `calls` are the calls of a walk over `entries`: on one entry after the other, each once
/// and no other, until a call asks to stop or there are no more. `stopped` tells which.
pub open spec fn visited(entries: Seq<KValue>, calls: Seq<Call>, stopped: bool) -> bool {
    &&& calls.len() <= entries.len()
    &&& forall|i: int| 0 <= i < calls.len() ==> (#[trigger] calls[i]).0 == entries[i]
    &&& forall|i: int| 0 <= i < calls.len() ==> (#[trigger] calls[i]).1 == (stopped && i == calls.len() - 1)
    &&& if stopped {
        calls.len() > 0
    } else {
        calls.len() == entries.len()
    }
}

/// The entries that the calls were made on.
pub open spec fn entries_met(calls: Seq<Call>) -> Seq<(Seq<u8>, Seq<u8>)> {
    Seq::new(calls.len(), |i: int| (calls[i].0.0@, calls[i].0.1@))
}

/// Whether `calls` are the calls of a walk over the range of pairs, in the given order.
pub open spec fn visited_range(
    pairs: Pairs,
    lower: Seq<u8>,
    upper: Seq<u8>,
    order: IterOrder,
    calls: Seq<Call>,
    stopped: bool,
) -> bool {
    exists|entries: Seq<KValue>|
        lists_range(entries_of(entries), pairs, lower, upper, order) && #[trigger] visited(entries, calls, stopped)
}

/// Whether a visitor with the given rule may have answered each of the calls as it did.
pub open spec fn answered<V: Visitor>(rule: V::Rule, calls: Seq<Call>) -> bool {
    forall|i: int| 0 <= i < calls.len() ==> V::may_answer(rule, (#[trigger] calls[i]).0, calls[i].1)
}

/// Whether `stopped` tells how a walk of `f` over the range of pairs ended.
pub open spec fn walked_range<F: FnMut(KValue) -> bool>(
    f: F,
    pairs: Pairs,
    lower: Seq<u8>,
    upper: Seq<u8>,
    order: IterOrder,
    stopped: bool,
) -> bool {
    exists|calls: Seq<Call>| #[trigger]
        visited_range(pairs, lower, upper, order, calls, stopped) && forall|i: int|
            0 <= i < calls.len() ==> call_ensures(f, ((#[trigger] calls[i]).0,), calls[i].1)
}

/// Calls the visitor on the entries one after the other until it asks to stop. Tells whether it did.
pub fn walk<V: Visitor>(entries: Vec<KValue>, visitor: &mut V) -> (stopped: bool)
    requires
        old(visitor).ready(),
    ensures
        final(visitor).ready(),
        final(visitor).rule() == old(visitor).rule(),
        exists|calls: Seq<Call>|
            {
                &&& #[trigger] visited(entries@, calls, stopped)
                &&& final(visitor).calls() == old(visitor).calls() + calls
                &&& answered::<V>(old(visitor).rule(), calls)
            },
{
    let ghost all = entries@;
    let ghost mut calls: Seq<Call> = Seq::empty();
    assert(visitor.calls() =~= old(visitor).calls() + calls);
    for entry in met: entries
        invariant
            met.seq() == all,
            visitor.ready(),
            visitor.rule() == old(visitor).rule(),
            visitor.calls() == old(visitor).calls() + calls,
            answered::<V>(old(visitor).rule(), calls),
            calls.len() == met.index(),
            forall|i: int| 0 <= i < calls.len() ==> #[trigger] calls[i] == (all[i], false),
    {
        let stop = visitor.visit(entry);
        proof {
            let before = calls;
            calls = calls.push((entry, stop));
            assert(old(visitor).calls() + calls =~= (old(visitor).calls() + before).push((entry, stop)));
        }
        if stop {
            assert(visited(all, calls, true));
            return true;
        }
    }
    assert(visited(all, calls, false));
    false
}

impl<D: MerkleDB> ChainState<D> {
    /// Calls `func` on the pairs whose keys lie in the range from `lower` on up to, and without,
    /// `upper`, until it returns `true`. Tells whether it did. The calls are those of [`Self::visit`];
    /// what `func` does besides answering is not stated.
    pub fn iterate<F: FnMut(KValue) -> bool>(
        &self,
        lower: &[u8],
        upper: &[u8],
        order: IterOrder,
        func: &mut F,
    ) -> (stopped: bool)
        requires
            forall|entry: KValue| call_requires(*old(func), (entry,)),
        ensures
            walked_range(*old(func), self@.pairs, lower@, upper@, order, stopped),
        opens_invariants storing()
    {
        let mut callback = Callback::new(func);
        self.visit(lower, upper, order, &mut callback)
    }
}

} // verus!
