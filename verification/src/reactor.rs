use std::collections::HashMap;
use vstd::prelude::*;

use crate::runtime::Waker;

verus! {

broadcast use vstd::std_specs::hash::group_hash_axioms;

/// Translates OS readiness reports into task wake-ups.
///
/// The reactor keeps a map from each watched file descriptor to the waker of
/// the operation parked on it (or `None` when the descriptor is watched but
/// nothing is parked yet). The OS-side calls that add or delete a descriptor
/// from the event multiplexer, and the blocking wait itself, are the caller's
/// responsibility; the reactor owns only the bookkeeping that turns "this fd
/// became ready" into "wake that task".
pub struct Reactor {
    interest_set: HashMap<i32, Option<Waker>>,
}

impl Reactor {
    /// The interest map: watched fd to optional parked waker.
    pub closed spec fn interests(self) -> Map<i32, Option<Waker>> {
        self.interest_set@
    }

    pub fn new() -> (r: Self)
        ensures
            r.interests() == Map::<i32, Option<Waker>>::empty(),
    {
        Reactor { interest_set: HashMap::new() }
    }

    /// Record that `fd` is watched, with no waker parked yet. The OS-side
    /// registration of `fd` with the multiplexer is the caller's.
    pub fn register_interest(&mut self, fd: i32)
        ensures
            final(self).interests() == old(self).interests().insert(fd, None::<Waker>),
    {
        self.interest_set.insert(fd, None);
    }

    /// Associate a waker with a watched fd. A second registration for the same
    /// fd overwrites the first: last writer wins, so at most one operation may
    /// be outstanding per descriptor.
    pub fn register_wake(&mut self, fd: i32, waker: Waker)
        ensures
            final(self).interests() == old(self).interests().insert(fd, Some(waker)),
    {
        self.interest_set.insert(fd, Some(waker));
    }

    /// Remove `fd` from the interest map. The owner of the descriptor must call
    /// this exactly once before closing it; the OS-side deletion from the
    /// multiplexer is likewise the caller's.
    pub fn unregister_interest(&mut self, fd: i32)
        ensures
            final(self).interests() == old(self).interests().remove(fd),
    {
        self.interest_set.remove(&fd);
    }

    /// The waker currently registered for `fd`, if any.
    pub fn waker_for(&self, fd: i32) -> (r: Option<Waker>)
        ensures
            r == (if self.interests().contains_key(fd) {
                self.interests()[fd]
            } else {
                None::<Waker>
            }),
    {
        match self.interest_set.get(&fd) {
            Some(w) => *w,
            None => None,
        }
    }
}

} // verus!
