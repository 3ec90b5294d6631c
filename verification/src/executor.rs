use vstd::prelude::*;

use crate::channel::{
    cell_evolves, lemma_cell_evolves_trans, recv_step, result_cell_evolves, spec_close, spec_recv,
    spec_try_recv, ChanCell, Error,
};
use crate::future::{lemma_sched_evolves_refl, sched_evolves, Poll, Step};
use crate::runtime::{Scheduler, Waker};

verus! {

/// Stable identity of a scheduled computation: a slab index, allocated in
/// increasing order and never reused within a run.
pub type TaskId = usize;

/// A boxed, type-erased unit of work: a task id together with the computation
/// the executor drives to completion.
#[verifier::reject_recursive_types(T)]
pub struct Task<T> {
    id: TaskId,
    fut: Box<dyn Step<T>>,
}

/// A caller-held handle for a spawned task's result; awaiting it polls the
/// task's private result cell. Dropping the handle (see [`JoinHandle::close`])
/// does not cancel the task: the result, once computed, is discarded.
pub struct JoinHandle {
    task_id: TaskId,
}

/// Owns the set of spawned tasks and drives them to completion: a slab of
/// tasks keyed by [`TaskId`], plus (inside the [`Scheduler`]) the FIFO ready
/// queue and the per-task result cells.
#[verifier::reject_recursive_types(T)]
pub struct Executor<T> {
    pub sched: Scheduler<T>,
    pub tasks: Vec<Option<Task<T>>>,
}

/// The task ids of a slice of the poll history, in order.
pub open spec fn polled_ids<T>(pass: Seq<(usize, Poll<T>)>) -> Seq<usize> {
    pass.map(|k: int, e: (usize, Poll<T>)| e.0)
}

/// `a` is `b` with some elements left out, order kept.
pub open spec fn subsequence_of(a: Seq<usize>, b: Seq<usize>) -> bool
    decreases a.len() + b.len(),
{
    if a.len() == 0 {
        true
    } else if b.len() == 0 {
        false
    } else if a[0] == b[0] {
        subsequence_of(a.drop_first(), b.drop_first())
    } else {
        subsequence_of(a, b.drop_first())
    }
}

proof fn lemma_subseq_push_both(a: Seq<usize>, b: Seq<usize>, x: usize)
    requires
        subsequence_of(a, b),
    ensures
        subsequence_of(a.push(x), b.push(x)),
    decreases a.len() + b.len(),
{
    let a2 = a.push(x);
    let b2 = b.push(x);
    if a.len() == 0 {
        if b.len() == 0 {
            assert(a2.drop_first() =~= a);
            assert(b2.drop_first() =~= b);
            assert(a2[0] == b2[0]);
            assert(subsequence_of(a2.drop_first(), b2.drop_first()));
            assert(subsequence_of(a2, b2));
        } else {
            assert(b2.drop_first() =~= b.drop_first().push(x));
            if a2[0] == b2[0] {
                assert(a2.drop_first() =~= a);
                assert(subsequence_of(a2.drop_first(), b2.drop_first()));
                assert(subsequence_of(a2, b2));
            } else {
                assert(subsequence_of(a, b.drop_first()));
                lemma_subseq_push_both(a, b.drop_first(), x);
                assert(subsequence_of(a2, b2));
            }
        }
    } else {
        assert(b.len() > 0);
        assert(a2.drop_first() =~= a.drop_first().push(x));
        assert(b2.drop_first() =~= b.drop_first().push(x));
        assert(a2[0] == a[0]);
        assert(b2[0] == b[0]);
        if a[0] == b[0] {
            lemma_subseq_push_both(a.drop_first(), b.drop_first(), x);
            assert(subsequence_of(a2, b2));
        } else {
            lemma_subseq_push_both(a, b.drop_first(), x);
            assert(subsequence_of(a2, b2));
        }
    }
}

proof fn lemma_subseq_push_right(a: Seq<usize>, b: Seq<usize>, x: usize)
    requires
        subsequence_of(a, b),
    ensures
        subsequence_of(a, b.push(x)),
    decreases a.len() + b.len(),
{
    let b2 = b.push(x);
    if a.len() == 0 {
        assert(subsequence_of(a, b2));
    } else {
        assert(b.len() > 0);
        assert(b2.drop_first() =~= b.drop_first().push(x));
        assert(b2[0] == b[0]);
        if a[0] == b[0] {
            lemma_subseq_push_right(a.drop_first(), b.drop_first(), x);
            assert(subsequence_of(a, b2));
        } else {
            lemma_subseq_push_right(a, b.drop_first(), x);
            assert(subsequence_of(a, b2));
        }
    }
}

proof fn lemma_prefix_drop_first(a: Seq<usize>, b: Seq<usize>)
    requires
        a.is_prefix_of(b),
        a.len() > 0,
    ensures
        a.drop_first().is_prefix_of(b.drop_first()),
{
    assert(a.drop_first() =~= b.drop_first().subrange(0, a.drop_first().len() as int));
}

proof fn lemma_contains_after_drop(s: Seq<usize>, x: usize)
    requires
        s.len() > 0,
        s.contains(x),
        s[0] != x,
    ensures
        s.drop_first().contains(x),
{
    let j = choose|j: int| 0 <= j < s.len() && s[j] == x;
    assert(s.drop_first()[j - 1] == x);
}

impl JoinHandle {
    /// The id of the task this handle joins.
    pub closed spec fn id(self) -> int {
        self.task_id as int
    }

    pub fn task_id(&self) -> (r: TaskId)
        ensures
            r == self.id(),
    {
        self.task_id
    }

    /// Poll the handle: resolves to `Ok(v)` once the task has delivered `v`,
    /// resolves to `Err(ChannelClosed)` if the result cell was closed without
    /// a value, and otherwise parks the current waker. A handle that refers
    /// outside the scheduler's result arena never resolves.
    pub fn poll<T>(&self, sched: &mut Scheduler<T>, cur: Waker) -> (r: Poll<Result<T, Error>>)
        ensures
            self.id() < old(sched).results().len() ==> {
                &&& final(sched).results() == old(sched).results().update(
                    self.id(),
                    spec_recv(old(sched).results()[self.id()], cur).0,
                )
                &&& r == spec_recv(old(sched).results()[self.id()], cur).1
                &&& final(sched).cells() == old(sched).cells()
                &&& final(sched).ready_ids() == old(sched).ready_ids()
                &&& final(sched).interests() == old(sched).interests()
                &&& final(sched).trace() == old(sched).trace()
            },
            self.id() >= old(sched).results().len() ==> *final(sched) == *old(sched)
                && r is Pending,
    {
        if self.task_id >= sched.results_len() {
            return Poll::Pending;
        }
        let ghost res0 = old(sched).results();
        let c = sched.replace_result(self.task_id, ChanCell::new());
        let (c2, r) = recv_step(c, cur);
        let _ = sched.replace_result(self.task_id, c2);
        proof {
            assert(sched.results() =~= res0.update(self.id(), spec_recv(res0[self.id()], cur).0));
        }
        r
    }

    /// Take the task's result if it has been delivered; consuming it closes
    /// the cell, so a result is handed out at most once.
    pub fn try_recv<T>(&self, sched: &mut Scheduler<T>) -> (r: Option<T>)
        ensures
            self.id() < old(sched).results().len() ==> {
                &&& final(sched).results() == old(sched).results().update(
                    self.id(),
                    spec_try_recv(old(sched).results()[self.id()]).0,
                )
                &&& r == spec_try_recv(old(sched).results()[self.id()]).1
                &&& final(sched).cells() == old(sched).cells()
                &&& final(sched).ready_ids() == old(sched).ready_ids()
                &&& final(sched).interests() == old(sched).interests()
                &&& final(sched).trace() == old(sched).trace()
            },
            self.id() >= old(sched).results().len() ==> *final(sched) == *old(sched) && r is None,
    {
        if self.task_id >= sched.results_len() {
            return None;
        }
        let ghost res0 = old(sched).results();
        let c = sched.replace_result(self.task_id, ChanCell::new());
        let ChanCell { value, waker, closed } = c;
        let r = match value {
            Some(v) => {
                let _ = sched.replace_result(
                    self.task_id,
                    ChanCell { value: None, waker, closed: true },
                );
                Some(v)
            },
            None => {
                let _ = sched.replace_result(self.task_id, ChanCell { value: None, waker, closed });
                None
            },
        };
        proof {
            assert(sched.results() =~= res0.update(self.id(), spec_try_recv(res0[self.id()]).0));
        }
        r
    }

    /// Drop the handle: the result cell is closed. The task, if still running,
    /// runs to completion; its result is discarded at delivery.
    pub fn close<T>(self, sched: &mut Scheduler<T>)
        ensures
            self.id() < old(sched).results().len() ==> {
                &&& final(sched).results() == old(sched).results().update(
                    self.id(),
                    spec_close(old(sched).results()[self.id()]),
                )
                &&& final(sched).cells() == old(sched).cells()
                &&& final(sched).ready_ids() == old(sched).ready_ids()
                &&& final(sched).interests() == old(sched).interests()
                &&& final(sched).trace() == old(sched).trace()
            },
            self.id() >= old(sched).results().len() ==> *final(sched) == *old(sched),
    {
        if self.task_id >= sched.results_len() {
            return ;
        }
        let ghost res0 = old(sched).results();
        let c = sched.replace_result(self.task_id, ChanCell::new());
        let ChanCell { value, waker, closed: _ } = c;
        let _ = sched.replace_result(self.task_id, ChanCell { value, waker, closed: true });
        proof {
            assert(sched.results() =~= res0.update(self.id(), spec_close(res0[self.id()])));
        }
    }
}

impl<T> Executor<T> {
    /// How many task ids have been allocated (live or completed).
    pub closed spec fn task_count(self) -> int {
        self.tasks@.len() as int
    }

    /// Whether task `i` is still in the table.
    pub closed spec fn task_live(self, i: int) -> bool {
        0 <= i < self.tasks@.len() && self.tasks@[i] is Some
    }

    /// Well-formed: result cells align one-to-one with task slots; every task
    /// in the table is stored under its own id; a task still in the table has
    /// neither delivered a result into its cell nor been recorded as
    /// completed; and a result cell holding a value holds exactly the value
    /// the ghost history records for that task.
    pub closed spec fn wf(self) -> bool {
        &&& self.sched.results().len() == self.tasks@.len()
        &&& (forall|i: int| self.task_live(i) ==> (#[trigger] self.tasks@[i])->0.id == i)
        &&& (forall|i: int| #[trigger] self.task_live(i) ==> self.sched.results()[i].value is None)
        &&& (forall|i: int|
            #[trigger] self.task_live(i) ==> !self.sched.trace().delivered.contains_key(i))
        &&& (forall|i: int|
            #[trigger] self.sched.trace().delivered.contains_key(i) ==> 0 <= i
                < self.tasks@.len())
        &&& (forall|i: int|
            0 <= i < self.sched.results().len() && (#[trigger] self.sched.results()[i]).value
                is Some ==> self.sched.trace().delivered.contains_key(i)
                && Some(self.sched.trace().delivered[i]) == self.sched.results()[i].value)
    }

    pub fn new() -> (r: Self)
        ensures
            r.wf(),
            r.task_count() == 0,
            r.sched.ready_ids() == Seq::<usize>::empty(),
            r.sched.cells() == Seq::<ChanCell<T>>::empty(),
            r.sched.results() == Seq::<ChanCell<T>>::empty(),
            r.sched.interests() == Map::<i32, Option<Waker>>::empty(),
            r.sched.trace().polls == Seq::<(usize, Poll<T>)>::empty(),
            r.sched.trace().delivered == Map::<int, T>::empty(),
    {
        Executor { sched: Scheduler::new(), tasks: Vec::new() }
    }

    /// Whether the task with the given id is still in the table.
    pub fn is_task_live(&self, id: TaskId) -> (r: bool)
        ensures
            r == self.task_live(id as int),
    {
        if id >= self.tasks.len() {
            false
        } else {
            self.tasks[id].is_some()
        }
    }

    /// Allocate a fresh task id, create the task's private result cell, insert
    /// the task into the table, and enqueue its id. Never fails. The returned
    /// handle's await forwards to the result cell.
    pub fn spawn(&mut self, fut: Box<dyn Step<T>>) -> (h: JoinHandle)
        requires
            old(self).wf(),
        ensures
            final(self).wf(),
            h.id() == old(self).task_count(),
            final(self).task_count() == old(self).task_count() + 1,
            final(self).task_live(h.id()),
            forall|i: int|
                i != h.id() ==> #[trigger] final(self).task_live(i) == old(self).task_live(i),
            final(self).sched.cells() == old(self).sched.cells(),
            final(self).sched.results() == old(self).sched.results().push(ChanCell::empty()),
            final(self).sched.ready_ids() == old(self).sched.ready_ids().push(h.id() as usize),
            final(self).sched.interests() == old(self).sched.interests(),
            final(self).sched.trace() == old(self).sched.trace(),
    {
        let id = self.tasks.len();
        let _ = self.sched.push_result(ChanCell::new());
        let task = Task { id, fut };
        self.tasks.push(None);
        let mut slot = Some(task);
        core::mem::swap(&mut self.tasks[id], &mut slot);
        let w = Waker::new(id);
        w.wake(&mut self.sched);
        proof {
            assert forall|i: int|
                i != id as int implies #[trigger] self.task_live(i) == old(self).task_live(i) by {
                if 0 <= i < old(self).tasks@.len() {
                    assert(self.tasks@[i] == old(self).tasks@[i]);
                }
            }
            assert forall|i: int| #[trigger] self.task_live(i) implies self.tasks@[i]->0.id == i
                && self.sched.results()[i].value is None
                && !self.sched.trace().delivered.contains_key(i) by {
                if i == id as int {
                    assert(self.sched.results()[i] == ChanCell::<T>::empty());
                } else {
                    assert(self.tasks@[i] == old(self).tasks@[i]);
                    assert(old(self).task_live(i));
                    assert(self.sched.results()[i] == old(self).sched.results()[i]);
                }
            }
            assert forall|i: int|
                0 <= i < self.sched.results().len() && (#[trigger] self.sched.results()[i]).value
                    is Some implies self.sched.trace().delivered.contains_key(i) && Some(
                self.sched.trace().delivered[i],
            ) == self.sched.results()[i].value by {
                assert(i < old(self).sched.results().len());
                assert(self.sched.results()[i] == old(self).sched.results()[i]);
            }
        }
        JoinHandle { task_id: id }
    }

    /// Drain the ready queue as currently populated: pop as many ids as were
    /// queued on entry, one at a time; poll each id's task once with a fresh
    /// waker bound to its id; deliver the result and remove the task when it
    /// completes, and leave it parked when it is pending. Ids whose task is
    /// already gone (stale or duplicate wakes) are skipped. The queue is never
    /// held across a poll, so a poll may wake any task, including the one
    /// being polled; such wakes queue up for the next drain.
    ///
    /// The contract speaks through the ghost poll history: the pass's polls
    /// are, in order, a subsequence of the entry queue; every queued task
    /// still in the table is polled; a `Ready(v)` outcome removes the task
    /// and records exactly `v` as its delivery; and a pass over a queue of
    /// only stale ids leaves the queue empty.
    pub fn run(&mut self)
        requires
            old(self).wf(),
        ensures
            final(self).wf(),
            final(self).task_count() == old(self).task_count(),
            forall|i: int| #[trigger] final(self).task_live(i) ==> old(self).task_live(i),
            old(self).sched.cells().len() <= final(self).sched.cells().len(),
            forall|i: int|
                0 <= i < old(self).sched.cells().len() ==> cell_evolves(
                    old(self).sched.cells()[i],
                    #[trigger] final(self).sched.cells()[i],
                ),
            final(self).sched.results().len() == old(self).sched.results().len(),
            forall|i: int|
                0 <= i < old(self).sched.results().len() ==> cell_evolves(
                    old(self).sched.results()[i],
                    #[trigger] final(self).sched.results()[i],
                ),
            forall|i: int|
                old(self).task_live(i) && !(#[trigger] final(self).task_live(i)) ==> (
                final(self).sched.results()[i].value is Some
                    || final(self).sched.results()[i].closed),
            old(self).sched.trace().polls.is_prefix_of(final(self).sched.trace().polls),
            forall|i: int|
                #[trigger] old(self).sched.trace().delivered.contains_key(i) ==> final(self).sched.trace().delivered.contains_key(i) && final(self).sched.trace().delivered[i] == old(self).sched.trace().delivered[i],
            ({
                let q0 = old(self).sched.ready_ids();
                let pass = final(self).sched.trace().polls.skip(
                    old(self).sched.trace().polls.len() as int,
                );
                &&& subsequence_of(polled_ids(pass), q0)
                &&& (forall|k: int| 0 <= k < pass.len() ==> q0.contains((#[trigger] pass[k]).0))
                &&& (forall|id: usize|
                    #[trigger] q0.contains(id) && old(self).task_live(id as int) ==> exists|k: int|
                        0 <= k < pass.len() && (#[trigger] pass[k]).0 == id)
                &&& (forall|k: int|
                    0 <= k < pass.len() ==> ((#[trigger] pass[k]).1 matches Poll::Ready(v) ==> !final(self).task_live(pass[k].0 as int) && final(self).sched.trace().delivered.contains_key(
                        pass[k].0 as int,
                    ) && final(self).sched.trace().delivered[pass[k].0 as int] == v))
                &&& (forall|i: int|
                    old(self).task_live(i) && !(#[trigger] final(self).task_live(i)) ==> final(self).sched.trace().delivered.contains_key(i) && (exists|k: int|
                        0 <= k < pass.len() && (#[trigger] pass[k]).0 as int == i))
                &&& ((forall|id: usize| #[trigger] q0.contains(id) ==> !old(self).task_live(
                    id as int,
                )) ==> final(self).sched.ready_ids() == Seq::<usize>::empty())
            }),
    {
        let ghost q0 = self.sched.ready_ids();
        let ghost l0 = self.sched.trace().polls;
        let ghost n0 = q0.len() as int;
        let mut remaining = self.sched.ready_len();
        proof {
            let pass = self.sched.trace().polls.skip(l0.len() as int);
            assert(pass =~= Seq::<(usize, Poll<T>)>::empty());
            assert(polled_ids(pass) =~= Seq::<usize>::empty());
            assert(subsequence_of(polled_ids(pass), q0.take(n0 - remaining)));
            assert(q0.skip(n0 - remaining) =~= q0);
        }
        while remaining > 0
            invariant
                self.wf(),
                q0 == old(self).sched.ready_ids(),
                l0 == old(self).sched.trace().polls,
                n0 == q0.len() as int,
                remaining <= n0,
                self.task_count() == old(self).task_count(),
                forall|i: int| #[trigger] self.task_live(i) ==> old(self).task_live(i),
                old(self).sched.cells().len() <= self.sched.cells().len(),
                forall|i: int|
                    0 <= i < old(self).sched.cells().len() ==> cell_evolves(
                        old(self).sched.cells()[i],
                        #[trigger] self.sched.cells()[i],
                    ),
                self.sched.results().len() == old(self).sched.results().len(),
                forall|i: int|
                    0 <= i < old(self).sched.results().len() ==> cell_evolves(
                        old(self).sched.results()[i],
                        #[trigger] self.sched.results()[i],
                    ),
                forall|i: int|
                    old(self).task_live(i) && !(#[trigger] self.task_live(i)) ==> (
                    self.sched.results()[i].value is Some || self.sched.results()[i].closed),
                l0.is_prefix_of(self.sched.trace().polls),
                forall|i: int|
                    #[trigger] old(self).sched.trace().delivered.contains_key(i) ==> self.sched.trace().delivered.contains_key(
                        i,
                    ) && self.sched.trace().delivered[i] == old(self).sched.trace().delivered[i],
                q0.skip(n0 - remaining).is_prefix_of(self.sched.ready_ids()),
                (forall|id: usize| #[trigger] q0.contains(id) ==> !old(self).task_live(id as int))
                    ==> self.sched.ready_ids() == q0.skip(n0 - remaining),
                ({
                    let pass = self.sched.trace().polls.skip(l0.len() as int);
                    &&& subsequence_of(polled_ids(pass), q0.take(n0 - remaining))
                    &&& (forall|k: int| 0 <= k < pass.len() ==> q0.contains((#[trigger] pass[k]).0))
                    &&& (forall|id: usize|
                        #[trigger] q0.contains(id) && old(self).task_live(id as int) ==> (exists|
                            k: int,
                        |
                            0 <= k < pass.len() && (#[trigger] pass[k]).0 == id) || (self.task_live(
                            id as int,
                        ) && q0.skip(n0 - remaining).contains(id)))
                    &&& (forall|k: int|
                        0 <= k < pass.len() ==> ((#[trigger] pass[k]).1 matches Poll::Ready(v)
                            ==> !self.task_live(pass[k].0 as int)
                                && self.sched.trace().delivered.contains_key(pass[k].0 as int)
                                && self.sched.trace().delivered[pass[k].0 as int] == v))
                    &&& (forall|i: int|
                        old(self).task_live(i) && !(#[trigger] self.task_live(i))
                            ==> self.sched.trace().delivered.contains_key(i) && (exists|k: int|
                            0 <= k < pass.len() && (#[trigger] pass[k]).0 as int == i))
                }),
            decreases remaining,
        {
            let ghost s0 = *self;
            let ghost p = n0 - remaining;
            let ghost pass0 = s0.sched.trace().polls.skip(l0.len() as int);
            remaining -= 1;
            let id = match self.sched.pop_ready() {
                Some(id) => id,
                None => {
                    // unreachable: the queue still holds the entry snapshot's
                    // unprocessed tail, so it cannot be empty here
                    proof {
                        assert(false);
                    }
                    0
                },
            };
            proof {
                assert(q0.skip(p)[0] == q0[p]);
                assert(id == q0[p]);
                assert(q0.contains(id));
                assert(q0.skip(p + 1) =~= q0.skip(p).drop_first());
                lemma_prefix_drop_first(q0.skip(p), s0.sched.ready_ids());
                assert(q0.take(p + 1) =~= q0.take(p).push(id));
            }
            if id >= self.tasks.len() {
                proof {
                    lemma_table_untouched(s0, *self, *old(self));
                    lemma_subseq_push_right(polled_ids(pass0), q0.take(p), id);
                    assert forall|idq: usize|
                        #[trigger] q0.contains(idq) && old(self).task_live(idq as int) && !(exists|
                            k: int,
                        |
                            0 <= k < pass0.len() && (#[trigger] pass0[k]).0 == idq) implies (
                    self.task_live(idq as int) && q0.skip(p + 1).contains(idq)) by {
                        assert(s0.task_live(idq as int) && q0.skip(p).contains(idq));
                        assert(idq != id);
                        lemma_contains_after_drop(q0.skip(p), idq);
                    }
                    assert forall|k: int|
                        0 <= k < pass0.len() implies ((#[trigger] pass0[k]).1 matches Poll::Ready(u)
                        ==> !self.task_live(pass0[k].0 as int)
                            && self.sched.trace().delivered.contains_key(pass0[k].0 as int)
                            && self.sched.trace().delivered[pass0[k].0 as int] == u) by {
                        if pass0[k].1 is Ready {
                            assert(!s0.task_live(pass0[k].0 as int));
                            assert(self.tasks@[pass0[k].0 as int]
                                == s0.tasks@[pass0[k].0 as int]);
                        }
                    }
                    assert forall|i: int|
                        old(self).task_live(i) && !(#[trigger] self.task_live(i)) implies self.sched.trace().delivered.contains_key(
                        i,
                    ) && (exists|k: int|
                        0 <= k < pass0.len() && (#[trigger] pass0[k]).0 as int == i) by {
                        assert(!s0.task_live(i));
                    }
                }
                continue ;
            }
            let mut slot: Option<Task<T>> = None;
            core::mem::swap(&mut self.tasks[id], &mut slot);
            match slot {
                None => {
                    proof {
                        assert(self.tasks@ =~= s0.tasks@);
                        lemma_table_untouched(s0, *self, *old(self));
                        lemma_subseq_push_right(polled_ids(pass0), q0.take(p), id);
                        assert forall|idq: usize|
                            #[trigger] q0.contains(idq) && old(self).task_live(idq as int) && !(
                        exists|k: int|
                            0 <= k < pass0.len() && (#[trigger] pass0[k]).0 == idq) implies (
                        self.task_live(idq as int) && q0.skip(p + 1).contains(idq)) by {
                            assert(s0.task_live(idq as int) && q0.skip(p).contains(idq));
                            assert(idq != id);
                            lemma_contains_after_drop(q0.skip(p), idq);
                        }
                        assert forall|k: int|
                            0 <= k < pass0.len() implies ((#[trigger] pass0[k]).1 matches Poll::Ready(u)
                            ==> !self.task_live(pass0[k].0 as int)
                                && self.sched.trace().delivered.contains_key(pass0[k].0 as int)
                                && self.sched.trace().delivered[pass0[k].0 as int] == u) by {
                            if pass0[k].1 is Ready {
                                assert(!s0.task_live(pass0[k].0 as int));
                                assert(self.tasks@[pass0[k].0 as int]
                                    == s0.tasks@[pass0[k].0 as int]);
                            }
                        }
                        assert forall|i: int|
                            old(self).task_live(i) && !(#[trigger] self.task_live(i)) implies self.sched.trace().delivered.contains_key(
                            i,
                        ) && (exists|k: int|
                            0 <= k < pass0.len() && (#[trigger] pass0[k]).0 as int == i) by {
                            assert(!s0.task_live(i));
                        }
                    }
                },
                Some(mut task) => {
                    proof {
                        assert(s0.task_live(id as int));
                        assert(s0.tasks@[id as int]->0.id == id);
                        assert(task.id == id);
                        assert(s0.sched.results()[id as int].value is None);
                        assert(!s0.sched.trace().delivered.contains_key(id as int));
                        assert(old(self).task_live(id as int));
                        assert(!old(self).sched.trace().delivered.contains_key(id as int));
                    }
                    let ghost pre = self.sched;
                    let w = Waker::new(id);
                    let r = task.fut.poll(&mut self.sched, w);
                    self.sched.log_poll(id, Ghost(r));
                    let ghost mid = self.sched;
                    proof {
                        assert(mid.trace().polls =~= l0 + pass0.push((id, r)));
                        assert(mid.trace().polls.skip(l0.len() as int) =~= pass0.push((id, r)));
                        assert(polled_ids(pass0.push((id, r))) =~= polled_ids(pass0).push(id));
                        lemma_subseq_push_both(polled_ids(pass0), q0.take(p), id);
                        assert forall|i: int|
                            0 <= i < old(self).sched.cells().len() implies cell_evolves(
                            old(self).sched.cells()[i],
                            #[trigger] mid.cells()[i],
                        ) by {
                            assert(cell_evolves(pre.cells()[i], mid.cells()[i]));
                            lemma_cell_evolves_trans(
                                old(self).sched.cells()[i],
                                pre.cells()[i],
                                mid.cells()[i],
                            );
                        }
                        assert forall|i: int|
                            0 <= i < old(self).sched.results().len() implies cell_evolves(
                            old(self).sched.results()[i],
                            #[trigger] mid.results()[i],
                        ) by {
                            assert(result_cell_evolves(pre.results()[i], mid.results()[i]));
                            lemma_cell_evolves_trans(
                                old(self).sched.results()[i],
                                pre.results()[i],
                                mid.results()[i],
                            );
                        }
                        assert forall|i: int| #[trigger] s0.task_live(i) implies mid.results()[i].value
                            is None by {
                            assert(s0.sched.results()[i].value is None);
                            assert(result_cell_evolves(pre.results()[i], mid.results()[i]));
                        }
                        assert forall|i: int|
                            old(self).task_live(i) && !(#[trigger] s0.task_live(i)) implies (
                        mid.results()[i].value is Some || mid.results()[i].closed) by {
                            assert(s0.sched.results()[i].value is Some
                                || s0.sched.results()[i].closed);
                            assert(result_cell_evolves(pre.results()[i], mid.results()[i]));
                        }
                        // the pass over only stale entries cannot include this one
                        if forall|idq: usize| #[trigger] q0.contains(idq) ==> !old(self).task_live(
                            idq as int,
                        ) {
                            assert(!old(self).task_live(id as int));
                            assert(false);
                        }
                    }
                    match r {
                        Poll::Ready(v) => {
                            let ghost vv = v;
                            self.sched.deliver(id, v);
                            proof {
                                assert forall|i: int|
                                    0 <= i < old(self).sched.results().len() implies cell_evolves(
                                    old(self).sched.results()[i],
                                    #[trigger] self.sched.results()[i],
                                ) by {
                                    if i == id as int {
                                        assert(cell_evolves(
                                            mid.results()[i],
                                            self.sched.results()[i],
                                        ));
                                        lemma_cell_evolves_trans(
                                            old(self).sched.results()[i],
                                            mid.results()[i],
                                            self.sched.results()[i],
                                        );
                                    } else {
                                        assert(self.sched.results()[i] == mid.results()[i]);
                                    }
                                }
                                assert forall|i: int|
                                    0 <= i < old(self).sched.cells().len() implies cell_evolves(
                                    old(self).sched.cells()[i],
                                    #[trigger] self.sched.cells()[i],
                                ) by {
                                    assert(self.sched.cells()[i] == mid.cells()[i]);
                                }
                                assert forall|i: int| #[trigger] self.task_live(i) implies old(self).task_live(i) by {
                                    assert(i != id as int);
                                    assert(self.tasks@[i] == s0.tasks@[i]);
                                    assert(s0.task_live(i));
                                }
                                assert forall|i: int| #[trigger] self.task_live(i) implies self.tasks@[i]->0.id
                                    == i && self.sched.results()[i].value is None
                                    && !self.sched.trace().delivered.contains_key(i) by {
                                    assert(i != id as int);
                                    assert(self.tasks@[i] == s0.tasks@[i]);
                                    assert(s0.task_live(i));
                                    assert(s0.tasks@[i]->0.id == i);
                                    assert(mid.results()[i].value is None);
                                    assert(self.sched.results()[i] == mid.results()[i]);
                                    assert(!s0.sched.trace().delivered.contains_key(i));
                                }
                                assert forall|i: int|
                                    #[trigger] self.sched.trace().delivered.contains_key(i) implies 0
                                    <= i < self.tasks@.len() by {
                                    if i != id as int {
                                        assert(s0.sched.trace().delivered.contains_key(i));
                                    }
                                }
                                assert forall|i: int|
                                    0 <= i < self.sched.results().len() && (
                                #[trigger] self.sched.results()[i]).value is Some implies self.sched.trace().delivered.contains_key(
                                    i,
                                ) && Some(self.sched.trace().delivered[i])
                                    == self.sched.results()[i].value by {
                                    if i != id as int {
                                        assert(self.sched.results()[i] == mid.results()[i]);
                                        assert(result_cell_evolves(
                                            pre.results()[i],
                                            mid.results()[i],
                                        ));
                                        assert(s0.sched.results()[i].value is Some);
                                        assert(s0.sched.results()[i].value
                                            == self.sched.results()[i].value);
                                        assert(s0.sched.trace().delivered.contains_key(i));
                                    }
                                }
                                assert forall|i: int|
                                    old(self).task_live(i) && !(#[trigger] self.task_live(i))
                                    implies (self.sched.results()[i].value is Some
                                    || self.sched.results()[i].closed) by {
                                    if i != id as int {
                                        assert(self.tasks@[i] == s0.tasks@[i]);
                                        assert(!s0.task_live(i));
                                        assert(self.sched.results()[i] == mid.results()[i]);
                                    }
                                }
                                // pass facts after this poll and delivery
                                let passn = self.sched.trace().polls.skip(l0.len() as int);
                                assert(passn =~= pass0.push((id, Poll::Ready(vv))));
                                assert forall|k: int|
                                    0 <= k < passn.len() implies q0.contains(
                                    (#[trigger] passn[k]).0,
                                ) by {
                                    if k < pass0.len() {
                                        assert(passn[k] == pass0[k]);
                                    }
                                }
                                assert forall|k: int|
                                    0 <= k < passn.len() implies ((#[trigger] passn[k]).1 matches Poll::Ready(u)
                                    ==> !self.task_live(passn[k].0 as int)
                                        && self.sched.trace().delivered.contains_key(
                                        passn[k].0 as int,
                                    ) && self.sched.trace().delivered[passn[k].0 as int] == u) by {
                                    if k < pass0.len() {
                                        assert(passn[k] == pass0[k]);
                                        if pass0[k].1 is Ready {
                                            assert(!s0.task_live(pass0[k].0 as int));
                                            assert(pass0[k].0 as int != id as int);
                                            assert(self.tasks@[pass0[k].0 as int]
                                                == s0.tasks@[pass0[k].0 as int]);
                                        }
                                    }
                                }
                                assert forall|idq: usize|
                                    #[trigger] q0.contains(idq) && old(self).task_live(idq as int)
                                        && !(exists|k: int|
                                        0 <= k < passn.len() && (#[trigger] passn[k]).0 == idq) implies (
                                self.task_live(idq as int) && q0.skip(p + 1).contains(idq)) by {
                                    assert(passn[passn.len() - 1].0 == id);
                                    assert(idq != id);
                                    assert forall|k: int|
                                        0 <= k < pass0.len() implies (#[trigger] pass0[k]).0
                                        != idq by {
                                        assert(passn[k] == pass0[k]);
                                    }
                                    assert(!(exists|k: int|
                                        0 <= k < pass0.len() && (#[trigger] pass0[k]).0 == idq));
                                    assert(s0.task_live(idq as int) && q0.skip(p).contains(idq));
                                    assert(self.tasks@[idq as int] == s0.tasks@[idq as int]);
                                    lemma_contains_after_drop(q0.skip(p), idq);
                                }
                                assert forall|i: int|
                                    old(self).task_live(i) && !(#[trigger] self.task_live(i))
                                    implies self.sched.trace().delivered.contains_key(i) && (
                                exists|k: int|
                                    0 <= k < passn.len() && (#[trigger] passn[k]).0 as int == i) by {
                                    if i == id as int {
                                        assert(passn[passn.len() - 1].0 as int == i);
                                    } else {
                                        assert(self.tasks@[i] == s0.tasks@[i]);
                                        assert(!s0.task_live(i));
                                        assert(s0.sched.trace().delivered.contains_key(i));
                                        let k0 = choose|k: int|
                                            0 <= k < pass0.len() && (#[trigger] pass0[k]).0 as int
                                                == i;
                                        assert(passn[k0].0 as int == i);
                                    }
                                }
                            }
                        },
                        Poll::Pending => {
                            let mut back: Option<Task<T>> = Some(task);
                            core::mem::swap(&mut self.tasks[id], &mut back);
                            proof {
                                assert(self.tasks@[id as int]->0.id == id);
                                assert forall|i: int| #[trigger] self.task_live(i) implies old(self).task_live(i) by {
                                    if i != id as int {
                                        assert(self.tasks@[i] == s0.tasks@[i]);
                                    }
                                    assert(s0.task_live(i));
                                }
                                assert forall|i: int| #[trigger] self.task_live(i) implies self.tasks@[i]->0.id
                                    == i && self.sched.results()[i].value is None
                                    && !self.sched.trace().delivered.contains_key(i) by {
                                    if i != id as int {
                                        assert(self.tasks@[i] == s0.tasks@[i]);
                                        assert(s0.task_live(i));
                                        assert(s0.tasks@[i]->0.id == i);
                                    }
                                    assert(s0.task_live(i));
                                    assert(mid.results()[i].value is None);
                                    assert(!s0.sched.trace().delivered.contains_key(i));
                                }
                                assert forall|i: int|
                                    0 <= i < self.sched.results().len() && (
                                #[trigger] self.sched.results()[i]).value is Some implies self.sched.trace().delivered.contains_key(
                                    i,
                                ) && Some(self.sched.trace().delivered[i])
                                    == self.sched.results()[i].value by {
                                    assert(result_cell_evolves(pre.results()[i], mid.results()[i]));
                                    assert(s0.sched.results()[i].value is Some);
                                    assert(s0.sched.results()[i].value
                                        == self.sched.results()[i].value);
                                    assert(s0.sched.trace().delivered.contains_key(i));
                                }
                                assert forall|i: int|
                                    old(self).task_live(i) && !(#[trigger] self.task_live(i))
                                    implies (self.sched.results()[i].value is Some
                                    || self.sched.results()[i].closed) by {
                                    assert(self.tasks@[i] == s0.tasks@[i]);
                                    assert(!s0.task_live(i));
                                }
                                // pass facts after this poll
                                let passn = self.sched.trace().polls.skip(l0.len() as int);
                                assert(passn =~= pass0.push((id, Poll::<T>::Pending)));
                                assert forall|k: int|
                                    0 <= k < passn.len() implies q0.contains(
                                    (#[trigger] passn[k]).0,
                                ) by {
                                    if k < pass0.len() {
                                        assert(passn[k] == pass0[k]);
                                    }
                                }
                                assert forall|k: int|
                                    0 <= k < passn.len() implies ((#[trigger] passn[k]).1 matches Poll::Ready(u)
                                    ==> !self.task_live(passn[k].0 as int)
                                        && self.sched.trace().delivered.contains_key(
                                        passn[k].0 as int,
                                    ) && self.sched.trace().delivered[passn[k].0 as int] == u) by {
                                    if k < pass0.len() {
                                        assert(passn[k] == pass0[k]);
                                        if pass0[k].1 is Ready {
                                            assert(!s0.task_live(pass0[k].0 as int));
                                            assert(pass0[k].0 as int != id as int);
                                            assert(self.tasks@[pass0[k].0 as int]
                                                == s0.tasks@[pass0[k].0 as int]);
                                        }
                                    }
                                }
                                assert forall|idq: usize|
                                    #[trigger] q0.contains(idq) && old(self).task_live(idq as int)
                                        && !(exists|k: int|
                                        0 <= k < passn.len() && (#[trigger] passn[k]).0 == idq) implies (
                                self.task_live(idq as int) && q0.skip(p + 1).contains(idq)) by {
                                    assert(passn[passn.len() - 1].0 == id);
                                    assert(idq != id);
                                    assert forall|k: int|
                                        0 <= k < pass0.len() implies (#[trigger] pass0[k]).0
                                        != idq by {
                                        assert(passn[k] == pass0[k]);
                                    }
                                    assert(!(exists|k: int|
                                        0 <= k < pass0.len() && (#[trigger] pass0[k]).0 == idq));
                                    assert(s0.task_live(idq as int) && q0.skip(p).contains(idq));
                                    assert(self.tasks@[idq as int] == s0.tasks@[idq as int]);
                                    lemma_contains_after_drop(q0.skip(p), idq);
                                }
                                assert forall|i: int|
                                    old(self).task_live(i) && !(#[trigger] self.task_live(i))
                                    implies self.sched.trace().delivered.contains_key(i) && (
                                exists|k: int|
                                    0 <= k < passn.len() && (#[trigger] passn[k]).0 as int == i) by {
                                    assert(self.tasks@[i] == s0.tasks@[i]);
                                    assert(!s0.task_live(i));
                                    assert(s0.sched.trace().delivered.contains_key(i));
                                    let k0 = choose|k: int|
                                        0 <= k < pass0.len() && (#[trigger] pass0[k]).0 as int == i;
                                    assert(passn[k0].0 as int == i);
                                }
                            }
                        },
                    }
                },
            }
        }
        proof {
            assert(remaining == 0);
            assert(q0.take(n0 - remaining) =~= q0);
            assert(q0.skip(n0 - remaining) =~= Seq::<usize>::empty());
            let pass = self.sched.trace().polls.skip(l0.len() as int);
            assert(subsequence_of(polled_ids(pass), q0.take(n0 - remaining)));
            assert(q0.take(n0 - remaining) == q0);
            assert(subsequence_of(polled_ids(pass), q0));
            assert forall|id: usize|
                #[trigger] q0.contains(id) && old(self).task_live(id as int) implies exists|k: int|
                0 <= k < pass.len() && (#[trigger] pass[k]).0 == id by {
                assert(!q0.skip(n0 - remaining).contains(id));
            }
            if forall|id: usize| #[trigger] q0.contains(id) ==> !old(self).task_live(id as int) {
                assert(self.sched.ready_ids() == q0.skip(n0 - remaining));
                assert(self.sched.ready_ids() =~= Seq::<usize>::empty());
            }
        }
    }

    /// Spawn the computation, then drain the ready queue repeatedly, at most
    /// `passes` times, until the task has left the table, and take its
    /// delivered result: `Ok(v)` holds exactly the value the task's future
    /// returned, as the ghost history records. Fails with `NoValue` in the
    /// fatal case where the task completed without a deliverable result (its
    /// cell was closed without a value), and with `Incomplete` when the task
    /// is still parked once the queue goes quiet or the pass budget runs out:
    /// external readiness can only arrive between drains, from the caller's
    /// own waiting loop (see `Scheduler::wake_ready`).
    pub fn block_on(&mut self, fut: Box<dyn Step<T>>, passes: usize) -> (r: Result<
        T,
        BlockOnError,
    >)
        requires
            old(self).wf(),
        ensures
            final(self).wf(),
            final(self).task_count() == old(self).task_count() + 1,
            passes > 0 ==> (exists|k: int|
                old(self).sched.trace().polls.len() <= k < final(self).sched.trace().polls.len()
                    && (#[trigger] final(self).sched.trace().polls[k]).0 as int == old(
                    self,
                ).task_count()),
            (r matches Ok(v) ==> {
                &&& !final(self).task_live(old(self).task_count())
                &&& final(self).sched.trace().delivered.contains_key(old(self).task_count())
                &&& final(self).sched.trace().delivered[old(self).task_count()] == v
                &&& final(self).sched.results()[old(self).task_count()].closed
                &&& final(self).sched.results()[old(self).task_count()].value is None
            }),
            r == Err::<T, BlockOnError>(BlockOnError::NoValue) ==> !final(self).task_live(
                old(self).task_count(),
            ) && final(self).sched.results()[old(self).task_count()].closed,
            r == Err::<T, BlockOnError>(BlockOnError::Incomplete) ==> final(self).task_live(
                old(self).task_count(),
            ),
    {
        let h = self.spawn(fut);
        let id = h.task_id();
        let ghost idx = h.id();
        let ghost l1 = self.sched.trace().polls;
        proof {
            assert(self.sched.ready_ids()[self.sched.ready_ids().len() - 1] == id);
            assert(self.sched.ready_ids().contains(id));
        }
        let mut left = passes;
        while left > 0
            invariant
                self.wf(),
                self.task_count() == old(self).task_count() + 1,
                idx == id as int,
                idx == old(self).task_count(),
                0 <= idx < self.task_count(),
                h.id() == idx,
                self.task_live(idx),
                left <= passes,
                l1 == old(self).sched.trace().polls,
                l1.is_prefix_of(self.sched.trace().polls),
                left == passes ==> self.sched.ready_ids().contains(id),
                left < passes ==> (exists|k: int|
                    l1.len() <= k < self.sched.trace().polls.len() && (
                    #[trigger] self.sched.trace().polls[k]).0 == id),
            decreases left,
        {
            let ghost sh = *self;
            self.run();
            left -= 1;
            proof {
                // entries of the poll history never change once written
                assert forall|k: int|
                    0 <= k < sh.sched.trace().polls.len() implies #[trigger] self.sched.trace().polls[k]
                    == sh.sched.trace().polls[k] by {
                    assert(sh.sched.trace().polls =~= self.sched.trace().polls.subrange(
                        0,
                        sh.sched.trace().polls.len() as int,
                    ));
                }
                assert(l1 =~= self.sched.trace().polls.subrange(0, l1.len() as int));
                if left + 1 < passes {
                    let k1 = choose|k: int|
                        l1.len() <= k < sh.sched.trace().polls.len() && (
                        #[trigger] sh.sched.trace().polls[k]).0 == id;
                    assert(self.sched.trace().polls[k1].0 == id);
                } else {
                    // the first drain: the spawn had queued the task, so it was polled
                    let q0 = sh.sched.ready_ids();
                    let pass = self.sched.trace().polls.skip(sh.sched.trace().polls.len() as int);
                    assert(q0.contains(id));
                    assert(sh.task_live(idx));
                    let k0 = choose|k: int| 0 <= k < pass.len() && (#[trigger] pass[k]).0 == id;
                    assert(pass[k0] == self.sched.trace().polls[sh.sched.trace().polls.len()
                        + k0]);
                }
                assert(exists|k: int|
                    l1.len() <= k < self.sched.trace().polls.len() && (
                    #[trigger] self.sched.trace().polls[k]).0 == id);
            }
            if !self.is_task_live(id) {
                let ghost s1 = *self;
                let taken = h.try_recv(&mut self.sched);
                proof {
                    assert(s1.sched.results()[idx].value is Some || s1.sched.results()[idx].closed);
                    if s1.sched.results()[idx].value is Some {
                        assert(s1.sched.trace().delivered.contains_key(idx));
                        assert(Some(s1.sched.trace().delivered[idx])
                            == s1.sched.results()[idx].value);
                    }
                    assert forall|i: int| #[trigger] self.task_live(i) implies self.tasks@[i]->0.id
                        == i && self.sched.results()[i].value is None
                        && !self.sched.trace().delivered.contains_key(i) by {
                        assert(s1.task_live(i));
                        assert(s1.tasks@[i]->0.id == i);
                        assert(i != idx);
                        assert(self.sched.results()[i] == s1.sched.results()[i]);
                    }
                    assert forall|i: int|
                        0 <= i < self.sched.results().len() && (
                    #[trigger] self.sched.results()[i]).value is Some implies self.sched.trace().delivered.contains_key(
                        i,
                    ) && Some(self.sched.trace().delivered[i]) == self.sched.results()[i].value by {
                        assert(i != idx);
                        assert(self.sched.results()[i] == s1.sched.results()[i]);
                    }
                    assert(self.wf());
                    assert(!self.task_live(idx));
                }
                return match taken {
                    Some(v) => Ok(v),
                    None => Err(BlockOnError::NoValue),
                };
            }
            if self.sched.ready_len() == 0 {
                return Err(BlockOnError::Incomplete);
            }
        }
        Err(BlockOnError::Incomplete)
    }
}

/// Re-establish the run loop's task facts for an iteration that changed only
/// the ready queue: the task table, both cell arenas and the ghost history are
/// as they were at the top of the iteration.
proof fn lemma_table_untouched<T>(s0: Executor<T>, now: Executor<T>, entry: Executor<T>)
    requires
        s0.wf(),
        forall|i: int| #[trigger] s0.task_live(i) ==> entry.task_live(i),
        forall|i: int|
            entry.task_live(i) && !(#[trigger] s0.task_live(i)) ==> (s0.sched.results()[i].value
                is Some || s0.sched.results()[i].closed),
        now.tasks@ == s0.tasks@,
        now.sched.results() == s0.sched.results(),
        now.sched.trace() == s0.sched.trace(),
    ensures
        now.wf(),
        forall|i: int| #[trigger] now.task_live(i) ==> entry.task_live(i),
        forall|i: int|
            entry.task_live(i) && !(#[trigger] now.task_live(i)) ==> (now.sched.results()[i].value
                is Some || now.sched.results()[i].closed),
{
    assert forall|i: int| #[trigger] now.task_live(i) implies entry.task_live(i) by {
        assert(s0.task_live(i));
    }
    assert forall|i: int| #[trigger] now.task_live(i) implies now.tasks@[i]->0.id == i
        && now.sched.results()[i].value is None && !now.sched.trace().delivered.contains_key(
        i,
    ) by {
        assert(s0.task_live(i));
        assert(s0.tasks@[i]->0.id == i);
    }
    assert forall|i: int|
        #[trigger] now.sched.trace().delivered.contains_key(i) implies 0 <= i
        < now.tasks@.len() by {
        assert(s0.sched.trace().delivered.contains_key(i));
    }
    assert forall|i: int|
        entry.task_live(i) && !(#[trigger] now.task_live(i)) implies (now.sched.results()[i].value
            is Some || now.sched.results()[i].closed) by {
        assert(!s0.task_live(i));
    }
}

/// Why `block_on` gave up.
#[derive(Debug, PartialEq, Eq, Structural)]
pub enum BlockOnError {
    /// The task completed, but no value was deliverable: its result cell was
    /// closed. The engine's bookkeeping cannot be trusted past this point.
    NoValue,
    /// The task is still parked: the ready queue went quiet, or the pass
    /// budget ran out, before it completed.
    Incomplete,
}

/// Spawn a computation on the given executor: the explicit-context form of the
/// ambient spawn call.
pub fn spawn<T>(e: &mut Executor<T>, fut: Box<dyn Step<T>>) -> (h: JoinHandle)
    requires
        old(e).wf(),
    ensures
        final(e).wf(),
        h.id() == old(e).task_count(),
        final(e).task_count() == old(e).task_count() + 1,
        final(e).task_live(h.id()),
        final(e).sched.ready_ids() == old(e).sched.ready_ids().push(h.id() as usize),
        final(e).sched.cells() == old(e).sched.cells(),
        final(e).sched.results() == old(e).sched.results().push(ChanCell::empty()),
        final(e).sched.interests() == old(e).sched.interests(),
        final(e).sched.trace() == old(e).sched.trace(),
{
    e.spawn(fut)
}

/// Drain the ready queue of the given executor once: the explicit-context form
/// of the ambient "make progress" call, with `Executor::run`'s contract.
pub fn make_progress<T>(e: &mut Executor<T>)
    requires
        old(e).wf(),
    ensures
        final(e).wf(),
        final(e).task_count() == old(e).task_count(),
        forall|i: int| #[trigger] final(e).task_live(i) ==> old(e).task_live(i),
        forall|i: int|
            old(e).task_live(i) && !(#[trigger] final(e).task_live(i)) ==> (
            final(e).sched.results()[i].value is Some || final(e).sched.results()[i].closed),
        forall|i: int|
            old(e).task_live(i) && !(#[trigger] final(e).task_live(i)) ==> final(e).sched.trace().delivered.contains_key(i),
        old(e).sched.trace().polls.is_prefix_of(final(e).sched.trace().polls),
        ({
            let q0 = old(e).sched.ready_ids();
            let pass = final(e).sched.trace().polls.skip(old(e).sched.trace().polls.len() as int);
            &&& subsequence_of(polled_ids(pass), q0)
            &&& (forall|id: usize|
                #[trigger] q0.contains(id) && old(e).task_live(id as int) ==> exists|k: int|
                    0 <= k < pass.len() && (#[trigger] pass[k]).0 == id)
            &&& (forall|k: int|
                0 <= k < pass.len() ==> ((#[trigger] pass[k]).1 matches Poll::Ready(v) ==> !final(e).task_live(pass[k].0 as int) && final(e).sched.trace().delivered.contains_key(
                    pass[k].0 as int,
                ) && final(e).sched.trace().delivered[pass[k].0 as int] == v))
            &&& ((forall|id: usize| #[trigger] q0.contains(id) ==> !old(e).task_live(id as int))
                ==> final(e).sched.ready_ids() == Seq::<usize>::empty())
        }),
{
    e.run()
}

/// A computation that awaits another task's join handle and completes with
/// the child's result, propagated unchanged; if the child's result cell was
/// closed without a value, it completes with a fallback value instead.
pub struct AwaitJoin<T> {
    handle: JoinHandle,
    fallback: Option<T>,
}

impl<T> AwaitJoin<T> {
    /// The handle this computation awaits.
    pub closed spec fn handle(self) -> JoinHandle {
        self.handle
    }

    /// The fallback still held for the closed-without-a-value case.
    pub closed spec fn fallback(self) -> Option<T> {
        self.fallback
    }

    pub fn new(handle: JoinHandle, fallback: T) -> (r: Self)
        ensures
            r.handle() == handle,
            r.fallback() == Some(fallback),
    {
        AwaitJoin { handle, fallback: Some(fallback) }
    }
}

impl<T> Step<T> for AwaitJoin<T> {
    fn poll(&mut self, sched: &mut Scheduler<T>, cur: Waker) -> (r: Poll<T>)
        ensures
            sched_evolves(*old(sched), *final(sched)),
            final(self).handle() == old(self).handle(),
            ({
                let id = old(self).handle().id();
                if id < old(sched).results().len() {
                    let step = spec_recv(old(sched).results()[id], cur);
                    &&& final(sched).results() == old(sched).results().update(id, step.0)
                    &&& final(sched).cells() == old(sched).cells()
                    &&& final(sched).ready_ids() == old(sched).ready_ids()
                    &&& final(sched).interests() == old(sched).interests()
                    &&& final(sched).trace() == old(sched).trace()
                    &&& (match step.1 {
                        Poll::Ready(res) => match res {
                            Ok(v) => r == Poll::Ready(v) && final(self).fallback() == old(self).fallback(),
                            Err(_) => (match old(self).fallback() {
                                Some(f) => r == Poll::Ready(f) && final(self).fallback() is None,
                                None => r is Pending && final(self).fallback() is None,
                            }),
                        },
                        Poll::Pending => r is Pending && final(self).fallback() == old(self).fallback(),
                    })
                } else {
                    &&& r is Pending
                    &&& *final(sched) == *old(sched)
                    &&& final(self).fallback() == old(self).fallback()
                }
            }),
    {
        let ghost pre = *sched;
        let polled = self.handle.poll(sched, cur);
        proof {
            lemma_join_poll_evolves(pre, *sched, self.handle, cur);
        }
        match polled {
            Poll::Ready(res) => match res {
                Ok(v) => Poll::Ready(v),
                Err(_) => match self.fallback.take() {
                    Some(f) => Poll::Ready(f),
                    None => Poll::Pending,
                },
            },
            Poll::Pending => Poll::Pending,
        }
    }
}

/// One poll of a join handle is a legal evolution of the scheduling context:
/// it can only consume the result cell, close it, or park a waker in it.
proof fn lemma_join_poll_evolves<T>(
    pre: Scheduler<T>,
    post: Scheduler<T>,
    h: JoinHandle,
    cur: Waker,
)
    requires
        h.id() < pre.results().len() ==> {
            &&& post.results() == pre.results().update(
                h.id(),
                spec_recv(pre.results()[h.id()], cur).0,
            )
            &&& post.cells() == pre.cells()
            &&& post.ready_ids() == pre.ready_ids()
            &&& post.trace() == pre.trace()
        },
        h.id() >= pre.results().len() ==> post == pre,
    ensures
        sched_evolves(pre, post),
{
    lemma_sched_evolves_refl(pre);
    if h.id() < pre.results().len() {
        assert(pre.ready_ids() =~= post.ready_ids().subrange(0, pre.ready_ids().len() as int));
        assert forall|i: int| 0 <= i < pre.results().len() implies result_cell_evolves(
            pre.results()[i],
            #[trigger] post.results()[i],
        ) by {
            if i == h.id() {
                assert(result_cell_evolves(pre.results()[i], spec_recv(pre.results()[i], cur).0));
            }
        }
    }
}

/// A task still in the table has not delivered its result, so awaiting its
/// join handle cannot yield a value: a parent awaiting the handle resolves
/// only after the child's computation fully completes.
pub proof fn lemma_join_pending_while_live<T>(e: Executor<T>, h: JoinHandle, cur: Waker)
    requires
        e.wf(),
        e.task_live(h.id()),
    ensures
        forall|v: T|
            spec_recv(e.sched.results()[h.id()], cur).1 != Poll::<Result<T, Error>>::Ready(Ok(v)),
{
    assert(e.sched.results()[h.id()].value is None);
}

/// The child's return value is propagated unchanged: a result cell holding a
/// delivered value resolves, on the next poll of the join handle, to exactly
/// that value.
pub proof fn lemma_join_yields_delivered<T>(c: ChanCell<T>, v: T, cur: Waker)
    requires
        c.value == Some(v),
    ensures
        spec_recv(c, cur).1 == Poll::<Result<T, Error>>::Ready(Ok(v)),
{
}

} // verus!
