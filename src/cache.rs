//! The cache facade: the store and the one way the reconciliation loop
//! writes to it. A caller that shares the cache between readers and the loop
//! puts it behind one reader-writer lock, so that each step of the loop is a
//! single write and a reader sees the store as it was before or after it.
use vstd::prelude::*;
use crate::reconcile::{next_action, next_state, next_store, Action, Event, Reconciler};
use crate::store::Store;

verus! {

/// The cache's store of last committed values.
pub struct StreamCache {
    results: Store,
}

impl View for StreamCache {
    type V = Map<Seq<char>, u64>;

    closed spec fn view(&self) -> Map<Seq<char>, u64> {
        self.results@
    }
}

impl StreamCache {
    pub closed spec fn wf(&self) -> bool {
        self.results.wf()
    }

    /// A cache with an empty store.
    pub fn new() -> (c: StreamCache)
        ensures
            c.wf(),
            c@ == Map::<Seq<char>, u64>::empty(),
    {
        StreamCache { results: Store::new() }
    }

    /// The last committed value of `key`, or `None` if it has not been seen.
    pub fn get(&self, key: &str) -> (r: Option<u64>)
        requires
            self.wf(),
        ensures
            r == (if self@.contains_key(key@) { Some(self@[key@]) } else { None::<u64> }),
    {
        self.results.read(key)
    }

    /// Makes one step of the loop `control` on the store.
    pub fn apply(&mut self, control: &mut Reconciler, event: Event, jitter: u64) -> (a: Action)
        requires
            old(self).wf(),
        ensures
            final(self).wf(),
            final(self)@ == next_store(*old(control), old(self)@, event),
            *final(control) == next_state(*old(control), event),
            a == next_action(*old(control), event, jitter),
    {
        control.step(&mut self.results, event, jitter)
    }
}

} // verus!
