use vstd::prelude::*;

use crate::channel::{
    cell_evolves, lemma_cell_evolves_refl, lemma_ops_evolve_cell, result_cell_evolves, spec_close,
    spec_recv, spec_send, Receiver, Sender,
};
use crate::runtime::{Scheduler, Waker};

verus! {

/// The result of polling a computation: either its final value, or a signal
/// that it is not done yet and has arranged to be woken.
pub enum Poll<T> {
    Ready(T),
    Pending,
}

/// What any poll may do to the shared scheduling context. A poll may wake
/// tasks (append to the ready queue, never reorder or drop what is queued),
/// create channels, and operate on channel cells through their handles; every
/// cell changes only by legal channel operations. Result cells are consumed or
/// closed at most, never filled, and the ghost history of polls and deliveries
/// is untouched: only the executor delivers into result cells and writes the
/// history.
pub open spec fn sched_evolves<T>(pre: Scheduler<T>, post: Scheduler<T>) -> bool {
    &&& pre.ready_ids().is_prefix_of(post.ready_ids())
    &&& pre.cells().len() <= post.cells().len()
    &&& (forall|i: int|
        0 <= i < pre.cells().len() ==> cell_evolves(pre.cells()[i], #[trigger] post.cells()[i]))
    &&& post.results().len() == pre.results().len()
    &&& (forall|i: int|
        0 <= i < pre.results().len() ==> result_cell_evolves(
            pre.results()[i],
            #[trigger] post.results()[i],
        ))
    &&& post.trace() == pre.trace()
}

pub proof fn lemma_sched_evolves_refl<T>(a: Scheduler<T>)
    ensures
        sched_evolves(a, a),
{
    assert(a.ready_ids() =~= a.ready_ids().subrange(0, a.ready_ids().len() as int));
}

pub proof fn lemma_sched_evolves_trans<T>(a: Scheduler<T>, b: Scheduler<T>, c: Scheduler<T>)
    requires
        sched_evolves(a, b),
        sched_evolves(b, c),
    ensures
        sched_evolves(a, c),
{
    assert(a.ready_ids() =~= c.ready_ids().subrange(0, a.ready_ids().len() as int));
}

/// A unit of cooperative work, polled by the executor. `cur` is the waker
/// bound to the task being polled: whatever the computation waits on stores it
/// and invokes it when the task should run again. A poll must leave the
/// scheduling context legally evolved (see [`sched_evolves`]).
pub trait Step<T> {
    fn poll(&mut self, sched: &mut Scheduler<T>, cur: Waker) -> (r: Poll<T>)
        ensures
            sched_evolves(*old(sched), *final(sched)),
    ;
}

/// A computation that is already done: its first poll yields the stored value.
pub struct Immediate<T> {
    value: Option<T>,
}

impl<T> Immediate<T> {
    /// The value still to be handed out.
    pub closed spec fn pending_value(self) -> Option<T> {
        self.value
    }

    pub fn new(value: T) -> (r: Self)
        ensures
            r.pending_value() == Some(value),
    {
        Immediate { value: Some(value) }
    }
}

impl<T> Step<T> for Immediate<T> {
    fn poll(&mut self, sched: &mut Scheduler<T>, cur: Waker) -> (r: Poll<T>)
        ensures
            sched_evolves(*old(sched), *final(sched)),
            *final(sched) == *old(sched),
            final(self).pending_value() is None,
            r == (match old(self).pending_value() {
                Some(v) => Poll::Ready(v),
                None => Poll::<T>::Pending,
            }),
    {
        proof {
            lemma_sched_evolves_refl(*old(sched));
        }
        match self.value.take() {
            Some(v) => Poll::Ready(v),
            None => Poll::Pending,
        }
    }
}

/// A computation that sends a value through a oneshot sender, drops the
/// sender, and completes with an output value, all on its first poll.
pub struct SendThen<T> {
    tx: Option<Sender>,
    payload: Option<T>,
    output: Option<T>,
}

impl<T> SendThen<T> {
    /// The sender still armed for the first poll.
    pub closed spec fn sender(self) -> Option<Sender> {
        self.tx
    }

    /// The value still waiting to be sent.
    pub closed spec fn payload(self) -> Option<T> {
        self.payload
    }

    /// The value the computation will complete with.
    pub closed spec fn output(self) -> Option<T> {
        self.output
    }

    pub fn new(tx: Sender, payload: T, output: T) -> (r: Self)
        ensures
            r.sender() == Some(tx),
            r.payload() == Some(payload),
            r.output() == Some(output),
    {
        SendThen { tx: Some(tx), payload: Some(payload), output: Some(output) }
    }
}

impl<T> Step<T> for SendThen<T> {
    fn poll(&mut self, sched: &mut Scheduler<T>, cur: Waker) -> (r: Poll<T>)
        ensures
            sched_evolves(*old(sched), *final(sched)),
            r == (match old(self).output() {
                Some(v) => Poll::Ready(v),
                None => Poll::<T>::Pending,
            }),
            final(self).sender() is None,
            final(self).output() is None,
            ({
                match old(self).sender() {
                    None => *final(sched) == *old(sched) && final(self).payload() == old(
                        self,
                    ).payload(),
                    Some(tx) => {
                        if tx.ch() < old(sched).cells().len() {
                            let c0 = old(sched).cells()[tx.ch()];
                            &&& final(self).payload() is None
                            &&& final(sched).results() == old(sched).results()
                            &&& final(sched).interests() == old(sched).interests()
                            &&& final(sched).trace() == old(sched).trace()
                            &&& (match old(self).payload() {
                                Some(p) => {
                                    &&& final(sched).cells() == old(sched).cells().update(
                                        tx.ch(),
                                        spec_close(spec_send(c0, p).0),
                                    )
                                    &&& final(sched).ready_ids() == (if !c0.closed && c0.value
                                        is None && c0.waker is Some {
                                        old(sched).ready_ids().push(c0.waker->0.task_id)
                                    } else {
                                        old(sched).ready_ids()
                                    })
                                },
                                None => {
                                    &&& final(sched).cells() == old(sched).cells().update(
                                        tx.ch(),
                                        spec_close(c0),
                                    )
                                    &&& final(sched).ready_ids() == old(sched).ready_ids()
                                },
                            })
                        } else {
                            &&& *final(sched) == *old(sched)
                            &&& final(self).payload() == old(self).payload()
                        }
                    },
                }
            }),
    {
        let ghost pre = *sched;
        proof {
            lemma_sched_evolves_refl(pre);
        }
        if let Some(tx) = self.tx.take() {
            if tx.is_valid_for(sched) {
                let ghost ch = tx.ch();
                let ghost c0 = pre.cells()[ch];
                if let Some(p) = self.payload.take() {
                    let ghost pp = p;
                    let _ = tx.send(sched, p);
                    proof {
                        assert(pre.ready_ids() =~= sched.ready_ids().subrange(
                            0,
                            pre.ready_ids().len() as int,
                        ));
                        lemma_send_evolves(pre, *sched, tx, pp);
                    }
                }
                let ghost mid = *sched;
                tx.close(sched);
                proof {
                    lemma_close_evolves::<T>(mid, *sched, ch);
                    lemma_sched_evolves_trans(pre, mid, *sched);
                    assert(sched.cells() =~= pre.cells().update(
                        ch,
                        spec_close(mid.cells()[ch]),
                    ));
                }
            }
        }
        match self.output.take() {
            Some(v) => Poll::Ready(v),
            None => Poll::Pending,
        }
    }
}

/// A computation that awaits a oneshot receiver and completes with the
/// received value; if the channel closes without a value, it completes with a
/// fallback value instead.
pub struct RecvOr<T> {
    rx: Receiver,
    fallback: Option<T>,
}

impl<T> RecvOr<T> {
    /// The receiver this computation awaits.
    pub closed spec fn receiver(self) -> Receiver {
        self.rx
    }

    /// The fallback still held for the channel-closed case.
    pub closed spec fn fallback(self) -> Option<T> {
        self.fallback
    }

    pub fn new(rx: Receiver, fallback: T) -> (r: Self)
        ensures
            r.receiver() == rx,
            r.fallback() == Some(fallback),
    {
        RecvOr { rx, fallback: Some(fallback) }
    }
}

impl<T> Step<T> for RecvOr<T> {
    fn poll(&mut self, sched: &mut Scheduler<T>, cur: Waker) -> (r: Poll<T>)
        ensures
            sched_evolves(*old(sched), *final(sched)),
            final(self).receiver() == old(self).receiver(),
            ({
                let ch = old(self).receiver().ch();
                if ch < old(sched).cells().len() {
                    let step = spec_recv(old(sched).cells()[ch], cur);
                    &&& final(sched).cells() == old(sched).cells().update(ch, step.0)
                    &&& final(sched).ready_ids() == old(sched).ready_ids()
                    &&& final(sched).results() == old(sched).results()
                    &&& final(sched).interests() == old(sched).interests()
                    &&& final(sched).trace() == old(sched).trace()
                    &&& (match step.1 {
                        Poll::Ready(res) => match res {
                            Ok(v) => r == Poll::Ready(v) && final(self).fallback() == old(
                                self,
                            ).fallback(),
                            Err(_) => (match old(self).fallback() {
                                Some(f) => r == Poll::Ready(f) && final(self).fallback() is None,
                                None => r is Pending && final(self).fallback() is None,
                            }),
                        },
                        Poll::Pending => r is Pending && final(self).fallback() == old(
                            self,
                        ).fallback(),
                    })
                } else {
                    &&& r is Pending
                    &&& *final(sched) == *old(sched)
                    &&& final(self).fallback() == old(self).fallback()
                }
            }),
    {
        let ghost pre = *sched;
        proof {
            lemma_sched_evolves_refl(pre);
        }
        if !self.rx.is_valid_for(sched) {
            return Poll::Pending;
        }
        let polled = self.rx.poll(sched, cur);
        proof {
            lemma_recv_evolves(pre, *sched, self.rx, cur);
        }
        match polled {
            Poll::Ready(res) => match res {
                Ok(v) => Poll::Ready(v),
                Err(_) => match self.fallback.take() {
                    Some(f) => Poll::Ready(f),
                    None => Poll::Pending,
                },
            },
            Poll::Pending => Poll::Pending,
        }
    }
}

/// The scheduling context evolves legally across one `send` through a valid
/// sender handle.
proof fn lemma_send_evolves<T>(pre: Scheduler<T>, post: Scheduler<T>, tx: Sender, p: T)
    requires
        0 <= tx.ch() < pre.cells().len(),
        post.cells() == pre.cells().update(
            tx.ch(),
            spec_send(pre.cells()[tx.ch()], p).0,
        ),
        pre.ready_ids().is_prefix_of(post.ready_ids()),
        post.results() == pre.results(),
        post.trace() == pre.trace(),
    ensures
        sched_evolves(pre, post),
{
    assert forall|i: int| 0 <= i < pre.cells().len() implies cell_evolves(
        pre.cells()[i],
        #[trigger] post.cells()[i],
    ) by {
        if i == tx.ch() {
            lemma_ops_evolve_cell(pre.cells()[i], p, Waker { task_id: 0 });
        } else {
            lemma_cell_evolves_refl(pre.cells()[i]);
        }
    }
    assert forall|i: int| 0 <= i < pre.results().len() implies result_cell_evolves(
        pre.results()[i],
        #[trigger] post.results()[i],
    ) by {
        lemma_cell_evolves_refl(pre.results()[i]);
    }
}

/// The scheduling context evolves legally across one close of a channel cell.
proof fn lemma_close_evolves<T>(pre: Scheduler<T>, post: Scheduler<T>, ch: int)
    requires
        0 <= ch < pre.cells().len(),
        post.cells() == pre.cells().update(ch, spec_close(pre.cells()[ch])),
        post.ready_ids() == pre.ready_ids(),
        post.results() == pre.results(),
        post.trace() == pre.trace(),
    ensures
        sched_evolves(pre, post),
{
    lemma_sched_evolves_refl(pre);
    assert forall|i: int| 0 <= i < pre.cells().len() implies cell_evolves(
        pre.cells()[i],
        #[trigger] post.cells()[i],
    ) by {
        lemma_cell_evolves_refl(pre.cells()[i]);
    }
    assert forall|i: int| 0 <= i < pre.results().len() implies result_cell_evolves(
        pre.results()[i],
        #[trigger] post.results()[i],
    ) by {
        lemma_cell_evolves_refl(pre.results()[i]);
    }
}

/// The scheduling context evolves legally across one receiver poll.
proof fn lemma_recv_evolves<T>(pre: Scheduler<T>, post: Scheduler<T>, rx: Receiver, cur: Waker)
    requires
        0 <= rx.ch() < pre.cells().len(),
        post.cells() == pre.cells().update(
            rx.ch(),
            spec_recv(pre.cells()[rx.ch()], cur).0,
        ),
        post.ready_ids() == pre.ready_ids(),
        post.results() == pre.results(),
        post.trace() == pre.trace(),
    ensures
        sched_evolves(pre, post),
{
    lemma_sched_evolves_refl(pre);
    assert forall|i: int| 0 <= i < pre.cells().len() implies cell_evolves(
        pre.cells()[i],
        #[trigger] post.cells()[i],
    ) by {
        if i == rx.ch() {
            lemma_ops_evolve_cell(pre.cells()[i], pre.cells()[i].value->0, cur);
        } else {
            lemma_cell_evolves_refl(pre.cells()[i]);
        }
    }
    assert forall|i: int| 0 <= i < pre.results().len() implies result_cell_evolves(
        pre.results()[i],
        #[trigger] post.results()[i],
    ) by {
        lemma_cell_evolves_refl(pre.results()[i]);
    }
}

} // verus!
