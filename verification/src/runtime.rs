use std::collections::VecDeque;
use vstd::prelude::*;

use crate::channel::{spec_close, spec_send, ChanCell};
use crate::future::Poll;
use crate::reactor::Reactor;

verus! {

/// A notification handle bound to one task. Invoking it schedules that task to
/// be polled again by appending the task's id to the ready queue. Wakers are
/// plain values: whatever a task is waiting on stores a copy and wakes it when
/// the awaited event happens.
#[derive(Clone, Copy)]
pub struct Waker {
    pub task_id: usize,
}

impl Waker {
    pub fn new(task_id: usize) -> (r: Waker)
        ensures
            r.task_id == task_id,
    {
        Waker { task_id }
    }

    /// Wake the task: append its id to the ready queue. The queue is not
    /// deduplicated, so an id may appear more than once; the executor skips
    /// entries whose task is already gone.
    pub fn wake<T>(&self, sched: &mut Scheduler<T>)
        ensures
            final(sched).ready_ids() == old(sched).ready_ids().push(self.task_id),
            final(sched).cells() == old(sched).cells(),
            final(sched).results() == old(sched).results(),
            final(sched).interests() == old(sched).interests(),
            final(sched).trace() == old(sched).trace(),
    {
        sched.ready.push_back(self.task_id);
    }
}

/// The ghost history of one engine run: every poll the executor has made (the
/// task id and what its future returned), and, for each completed task, the
/// value its future returned. Polls never touch it — only the executor's own
/// bookkeeping writes it — so contracts can tie what comes out of a result
/// cell to what the task's future actually returned.
pub struct Trace<T> {
    /// The polls the executor has made, in order: task id and outcome.
    pub polls: Seq<(usize, Poll<T>)>,
    /// For each task that has completed, the value its future returned, whether
    /// or not a handle was still there to receive it.
    pub delivered: Map<int, T>,
}

/// The shared scheduling context: the FIFO ready queue, the arena of oneshot
/// channel cells, the arena of task result cells, and the reactor's interest
/// map. Instead of thread-local executor and reactor singletons, this one
/// explicit object is handed down through every spawn and poll call, so that
/// whatever a task is waiting on can reach the queue and the cells.
pub struct Scheduler<T> {
    ready: VecDeque<usize>,
    cells: Vec<ChanCell<T>>,
    results: Vec<ChanCell<T>>,
    reactor: Reactor,
    trace: Ghost<Trace<T>>,
}

impl<T> Scheduler<T> {
    /// The ready queue, front first.
    pub closed spec fn ready_ids(self) -> Seq<usize> {
        self.ready@
    }

    /// The oneshot channel cells, in order of creation.
    pub closed spec fn cells(self) -> Seq<ChanCell<T>> {
        self.cells@
    }

    /// The task result cells, indexed by task id.
    pub closed spec fn results(self) -> Seq<ChanCell<T>> {
        self.results@
    }

    /// The reactor's interest map: watched fd to optional parked waker.
    pub closed spec fn interests(self) -> Map<i32, Option<Waker>> {
        self.reactor.interests()
    }

    /// The ghost history of this run: polls made and values delivered.
    pub closed spec fn trace(self) -> Trace<T> {
        self.trace@
    }

    pub fn new() -> (r: Self)
        ensures
            r.ready_ids() == Seq::<usize>::empty(),
            r.cells() == Seq::<ChanCell<T>>::empty(),
            r.results() == Seq::<ChanCell<T>>::empty(),
            r.interests() == Map::<i32, Option<Waker>>::empty(),
            r.trace().polls == Seq::<(usize, Poll<T>)>::empty(),
            r.trace().delivered == Map::<int, T>::empty(),
    {
        Scheduler {
            ready: VecDeque::new(),
            cells: Vec::new(),
            results: Vec::new(),
            reactor: Reactor::new(),
            trace: Ghost(Trace { polls: Seq::empty(), delivered: Map::empty() }),
        }
    }

    /// Pop the front of the ready queue.
    pub(crate) fn pop_ready(&mut self) -> (r: Option<usize>)
        ensures
            final(self).cells() == old(self).cells(),
            final(self).results() == old(self).results(),
            final(self).interests() == old(self).interests(),
            final(self).trace() == old(self).trace(),
            old(self).ready_ids().len() == 0 ==> r is None
                && final(self).ready_ids() == old(self).ready_ids(),
            old(self).ready_ids().len() > 0 ==> r == Some(old(self).ready_ids()[0])
                && final(self).ready_ids() == old(self).ready_ids().drop_first(),
    {
        self.ready.pop_front()
    }

    /// Append a fresh channel cell; returns its index.
    pub(crate) fn push_cell(&mut self, c: ChanCell<T>) -> (i: usize)
        ensures
            i == old(self).cells().len(),
            final(self).cells() == old(self).cells().push(c),
            final(self).ready_ids() == old(self).ready_ids(),
            final(self).results() == old(self).results(),
            final(self).interests() == old(self).interests(),
            final(self).trace() == old(self).trace(),
    {
        let i = self.cells.len();
        self.cells.push(c);
        i
    }

    /// Replace channel cell `i`, returning what was there.
    pub(crate) fn replace_cell(&mut self, i: usize, c: ChanCell<T>) -> (r: ChanCell<T>)
        requires
            i < old(self).cells().len(),
        ensures
            r == old(self).cells()[i as int],
            final(self).cells() == old(self).cells().update(i as int, c),
            final(self).ready_ids() == old(self).ready_ids(),
            final(self).results() == old(self).results(),
            final(self).interests() == old(self).interests(),
            final(self).trace() == old(self).trace(),
    {
        let mut tmp = c;
        core::mem::swap(&mut self.cells[i], &mut tmp);
        tmp
    }

    /// Append a fresh result cell; returns its index.
    pub(crate) fn push_result(&mut self, c: ChanCell<T>) -> (i: usize)
        ensures
            i == old(self).results().len(),
            final(self).results() == old(self).results().push(c),
            final(self).ready_ids() == old(self).ready_ids(),
            final(self).cells() == old(self).cells(),
            final(self).interests() == old(self).interests(),
            final(self).trace() == old(self).trace(),
    {
        let i = self.results.len();
        self.results.push(c);
        i
    }

    /// Replace result cell `i`, returning what was there.
    pub(crate) fn replace_result(&mut self, i: usize, c: ChanCell<T>) -> (r: ChanCell<T>)
        requires
            i < old(self).results().len(),
        ensures
            r == old(self).results()[i as int],
            final(self).results() == old(self).results().update(i as int, c),
            final(self).ready_ids() == old(self).ready_ids(),
            final(self).cells() == old(self).cells(),
            final(self).interests() == old(self).interests(),
            final(self).trace() == old(self).trace(),
    {
        let mut tmp = c;
        core::mem::swap(&mut self.results[i], &mut tmp);
        tmp
    }

    /// Record, in the ghost history, one poll the executor made.
    pub(crate) fn log_poll(&mut self, id: usize, outcome: Ghost<Poll<T>>)
        ensures
            final(self).trace().polls == old(self).trace().polls.push((id, outcome@)),
            final(self).trace().delivered == old(self).trace().delivered,
            final(self).ready_ids() == old(self).ready_ids(),
            final(self).cells() == old(self).cells(),
            final(self).results() == old(self).results(),
            final(self).interests() == old(self).interests(),
    {
        proof {
            let t = self.trace@;
            self.trace@ = Trace { polls: t.polls.push((id, outcome@)), delivered: t.delivered };
        }
    }

    /// Deliver a completed task's result into its result cell, wake a parked
    /// awaiter, and record the returned value in the ghost history. A cell
    /// already closed (its handle was dropped) discards the value; the history
    /// records it either way.
    pub(crate) fn deliver(&mut self, id: usize, v: T)
        requires
            id < old(self).results().len(),
            old(self).results()[id as int].value is None || old(self).results()[id as int].closed,
        ensures
            final(self).results() == old(self).results().update(
                id as int,
                ({
                    let c = old(self).results()[id as int];
                    if c.closed {
                        c
                    } else {
                        spec_close(spec_send(c, v).0)
                    }
                }),
            ),
            final(self).ready_ids() == ({
                let c = old(self).results()[id as int];
                if !c.closed && c.waker is Some {
                    old(self).ready_ids().push(c.waker->0.task_id)
                } else {
                    old(self).ready_ids()
                }
            }),
            final(self).cells() == old(self).cells(),
            final(self).interests() == old(self).interests(),
            final(self).trace().polls == old(self).trace().polls,
            final(self).trace().delivered == old(self).trace().delivered.insert(id as int, v),
            !old(self).results()[id as int].closed ==> final(self).results()[id as int].value
                == Some(v),
    {
        let ghost res0 = self.results();
        let ghost vv = v;
        proof {
            let t = self.trace@;
            self.trace@ = Trace { polls: t.polls, delivered: t.delivered.insert(id as int, vv) };
        }
        let c = self.replace_result(id, ChanCell::new());
        let ChanCell { value, waker, closed } = c;
        if closed {
            let _ = self.replace_result(id, ChanCell { value, waker, closed });
        } else {
            let _ = self.replace_result(id, ChanCell { value: Some(v), waker: None, closed: true });
            if let Some(w) = waker {
                self.ready.push_back(w.task_id);
            }
        }
        proof {
            let c0 = res0[id as int];
            assert(self.results() =~= res0.update(
                id as int,
                if c0.closed {
                    c0
                } else {
                    spec_close(spec_send(c0, vv).0)
                },
            ));
        }
    }

    /// How many channel cells exist.
    pub fn cells_len(&self) -> (n: usize)
        ensures
            n == self.cells().len(),
    {
        self.cells.len()
    }

    /// How many ids are queued to run.
    pub fn ready_len(&self) -> (n: usize)
        ensures
            n == self.ready_ids().len(),
    {
        self.ready.len()
    }

    /// How many result cells exist.
    pub fn results_len(&self) -> (n: usize)
        ensures
            n == self.results().len(),
    {
        self.results.len()
    }

    /// Record that `fd` is watched, with no waker parked yet (the OS-side
    /// registration with the multiplexer is the caller's).
    pub fn register_interest(&mut self, fd: i32)
        ensures
            final(self).interests() == old(self).interests().insert(fd, None::<Waker>),
            final(self).ready_ids() == old(self).ready_ids(),
            final(self).cells() == old(self).cells(),
            final(self).results() == old(self).results(),
            final(self).trace() == old(self).trace(),
    {
        self.reactor.register_interest(fd);
    }

    /// Associate a waker with a watched fd; last writer wins.
    pub fn register_wake(&mut self, fd: i32, waker: Waker)
        ensures
            final(self).interests() == old(self).interests().insert(fd, Some(waker)),
            final(self).ready_ids() == old(self).ready_ids(),
            final(self).cells() == old(self).cells(),
            final(self).results() == old(self).results(),
            final(self).trace() == old(self).trace(),
    {
        self.reactor.register_wake(fd, waker);
    }

    /// Remove `fd` from the interest map (the OS-side deletion is the
    /// caller's). Must be done exactly once before the fd's owner closes it.
    pub fn unregister_interest(&mut self, fd: i32)
        ensures
            final(self).interests() == old(self).interests().remove(fd),
            final(self).ready_ids() == old(self).ready_ids(),
            final(self).cells() == old(self).cells(),
            final(self).results() == old(self).results(),
            final(self).trace() == old(self).trace(),
    {
        self.reactor.unregister_interest(fd);
    }

    /// The waker currently registered for `fd`, if any.
    pub fn waker_for(&self, fd: i32) -> (r: Option<Waker>)
        ensures
            r == (if self.interests().contains_key(fd) {
                self.interests()[fd]
            } else {
                None::<Waker>
            }),
    {
        self.reactor.waker_for(fd)
    }

    /// For every fd the OS reported ready, wake the waker registered for it, in
    /// order. Wakers are invoked by reference: the registration stays, so a fd
    /// can fire again after a later registration.
    pub fn wake_ready(&mut self, fds: &Vec<i32>)
        ensures
            final(self).ready_ids() == old(self).ready_ids()
                + woken_ids(old(self).interests(), fds@),
            final(self).cells() == old(self).cells(),
            final(self).results() == old(self).results(),
            final(self).interests() == old(self).interests(),
            final(self).trace() == old(self).trace(),
    {
        let n = fds.len();
        let mut k: usize = 0;
        while k < n
            invariant
                k <= n,
                n == fds@.len(),
                self.reactor == old(self).reactor,
                self.cells() == old(self).cells(),
                self.results() == old(self).results(),
                self.trace() == old(self).trace(),
                self.ready_ids() == old(self).ready_ids()
                    + woken_ids(self.reactor.interests(), fds@.subrange(0, k as int)),
            decreases n - k,
        {
            let ghost prefix = fds@.subrange(0, k as int);
            let fd = fds[k];
            match self.reactor.waker_for(fd) {
                Some(w) => {
                    self.ready.push_back(w.task_id);
                },
                None => {},
            }
            proof {
                let longer = fds@.subrange(0, k + 1int);
                assert(longer.drop_last() =~= prefix);
                assert(longer.last() == fds@[k as int]);
            }
            k += 1;
        }
        proof {
            assert(fds@.subrange(0, n as int) =~= fds@);
        }
    }
}

/// The task ids that dispatching the given ready fds appends to the ready
/// queue: for each reported fd, in order, the id of the waker registered for
/// it, if one is.
pub open spec fn woken_ids(m: Map<i32, Option<Waker>>, fds: Seq<i32>) -> Seq<usize>
    decreases fds.len(),
{
    if fds.len() == 0 {
        Seq::empty()
    } else {
        let rest = woken_ids(m, fds.drop_last());
        let fd = fds.last();
        if m.contains_key(fd) && m[fd] is Some {
            rest.push(m[fd]->0.task_id)
        } else {
            rest
        }
    }
}

} // verus!
