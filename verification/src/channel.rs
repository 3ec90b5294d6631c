use vstd::prelude::*;

use crate::future::Poll;
use crate::runtime::{Scheduler, Waker};

verus! {

/// Errors a oneshot channel reports.
#[derive(Debug, PartialEq, Eq, Structural)]
pub enum Error {
    /// The peer handle was dropped, or a value was already delivered.
    ChannelClosed,
    /// A value is already pending and unconsumed. A second send is rejected
    /// rather than overwriting, so at most one value is ever stored.
    DuplicateSend,
}

/// The one-slot mailbox shared by a `Sender`/`Receiver` pair: an optional
/// value, an optional parked waker, and a monotonic `closed` flag. Cells live
/// in an arena inside the [`Scheduler`]; the two handles refer to their cell by
/// index, which replaces shared ownership of one mutable allocation.
pub struct ChanCell<T> {
    pub value: Option<T>,
    pub waker: Option<Waker>,
    pub closed: bool,
}

impl<T> ChanCell<T> {
    /// The state a cell has when the channel is created.
    pub open spec fn empty() -> ChanCell<T> {
        ChanCell { value: None, waker: None, closed: false }
    }

    pub fn new() -> (r: Self)
        ensures
            r == Self::empty(),
    {
        ChanCell { value: None, waker: None, closed: false }
    }
}

/// One legal evolution of a channel cell, as any sequence of sends, receives
/// and closes may cause: the `closed` flag is monotonic, a closed empty cell
/// stays empty, and a pending value is never overwritten; it can only leave by
/// being consumed, which also closes the cell.
pub open spec fn cell_evolves<T>(a: ChanCell<T>, b: ChanCell<T>) -> bool {
    &&& (a.closed ==> b.closed)
    &&& (a.closed && a.value is None ==> b.value is None)
    &&& (a.value is Some ==> b.value == a.value || (b.value is None && b.closed))
}

/// A task's result cell additionally is never filled from inside a poll: only
/// the executor delivers into it when the task completes. A poll may still
/// consume it (awaiting a join handle) or close it (dropping one).
pub open spec fn result_cell_evolves<T>(a: ChanCell<T>, b: ChanCell<T>) -> bool {
    &&& cell_evolves(a, b)
    &&& (a.value is None ==> b.value is None)
}

pub proof fn lemma_cell_evolves_refl<T>(a: ChanCell<T>)
    ensures
        cell_evolves(a, a),
        result_cell_evolves(a, a),
{
}

pub proof fn lemma_cell_evolves_trans<T>(a: ChanCell<T>, b: ChanCell<T>, c: ChanCell<T>)
    requires
        cell_evolves(a, b),
        cell_evolves(b, c),
    ensures
        cell_evolves(a, c),
{
}

/// A value, once consumed, never reappears: across any legal evolution, a cell
/// whose pending value was taken stays empty forever, so a delivery is
/// received at most once.
pub proof fn lemma_value_consumed_once<T>(a: ChanCell<T>, b: ChanCell<T>, c: ChanCell<T>)
    requires
        cell_evolves(a, b),
        cell_evolves(b, c),
        a.value is Some,
        b.value is None,
    ensures
        c.value is None,
{
}

/// What `send` leaves in the cell and returns. On success the pending waker is
/// taken (the caller wakes it); a closed cell rejects with `ChannelClosed`, an
/// unconsumed pending value with `DuplicateSend`.
pub open spec fn spec_send<T>(c: ChanCell<T>, v: T) -> (ChanCell<T>, Result<(), Error>) {
    if c.closed {
        (c, Err(Error::ChannelClosed))
    } else if c.value is Some {
        (c, Err(Error::DuplicateSend))
    } else {
        ((ChanCell { value: Some(v), waker: None, closed: false }), Ok(()))
    }
}

/// What one receiver poll leaves in the cell and returns. A pending value is
/// taken and the cell closed, whether or not it was already closed; an empty
/// closed cell reports `ChannelClosed`; otherwise the current waker is parked
/// and the poll is pending.
pub open spec fn spec_recv<T>(c: ChanCell<T>, cur: Waker) -> (ChanCell<T>, Poll<Result<T, Error>>) {
    if c.value is Some {
        (
            (ChanCell { value: None, waker: c.waker, closed: true }),
            Poll::Ready(Ok(c.value->0)),
        )
    } else if c.closed {
        (c, Poll::Ready(Err(Error::ChannelClosed)))
    } else {
        ((ChanCell { value: None, waker: Some(cur), closed: false }), Poll::Pending)
    }
}

/// What `try_recv` leaves in the cell and returns: a pending value is taken
/// and the cell closed; otherwise nothing changes.
pub open spec fn spec_try_recv<T>(c: ChanCell<T>) -> (ChanCell<T>, Option<T>) {
    if c.value is Some {
        ((ChanCell { value: None, waker: c.waker, closed: true }), Some(c.value->0))
    } else {
        (c, None::<T>)
    }
}

/// What dropping either handle leaves in the cell: closing is idempotent and
/// touches nothing else.
pub open spec fn spec_close<T>(c: ChanCell<T>) -> ChanCell<T> {
    ChanCell { value: c.value, waker: c.waker, closed: true }
}

/// The sending half of a oneshot channel. There is exactly one per channel; it
/// is not cloneable.
pub struct Sender {
    ch: usize,
}

/// The receiving half of a oneshot channel.
pub struct Receiver {
    ch: usize,
}

/// Create a oneshot channel: one fresh empty cell in the scheduler's arena,
/// and the pair of handles referring to it.
pub fn oneshot<T>(sched: &mut Scheduler<T>) -> (r: (Sender, Receiver))
    ensures
        r.0.ch() == old(sched).cells().len(),
        r.1.ch() == r.0.ch(),
        final(sched).cells() == old(sched).cells().push(ChanCell::empty()),
        final(sched).ready_ids() == old(sched).ready_ids(),
        final(sched).results() == old(sched).results(),
        final(sched).interests() == old(sched).interests(),
        final(sched).trace() == old(sched).trace(),
{
    let ch = sched.push_cell(ChanCell::new());
    (Sender { ch }, Receiver { ch })
}

/// Close a cell in place: used when either handle is dropped.
fn close_cell<T>(sched: &mut Scheduler<T>, ch: usize)
    requires
        ch < old(sched).cells().len(),
    ensures
        final(sched).cells() == old(sched).cells().update(
            ch as int,
            spec_close(old(sched).cells()[ch as int]),
        ),
        final(sched).ready_ids() == old(sched).ready_ids(),
        final(sched).results() == old(sched).results(),
        final(sched).interests() == old(sched).interests(),
        final(sched).trace() == old(sched).trace(),
{
    let c = sched.replace_cell(ch, ChanCell::new());
    let ChanCell { value, waker, closed: _ } = c;
    let _ = sched.replace_cell(ch, ChanCell { value, waker, closed: true });
    proof {
        assert(sched.cells() =~= old(sched).cells().update(
            ch as int,
            spec_close(old(sched).cells()[ch as int]),
        ));
    }
}

impl Sender {
    /// Which cell this handle refers to.
    pub closed spec fn ch(self) -> int {
        self.ch as int
    }

    /// Whether this handle refers to a cell of the given scheduler.
    pub fn is_valid_for<T>(&self, sched: &Scheduler<T>) -> (r: bool)
        ensures
            r == (self.ch() < sched.cells().len()),
            0 <= self.ch(),
    {
        self.ch < sched.cells_len()
    }

    /// Send a value. On success the value is stored and, if a receiver is
    /// parked, it is woken. Fails with `ChannelClosed` once the cell is closed
    /// (receiver gone, sender dropped, or a delivered value already consumed)
    /// and with `DuplicateSend` while an unconsumed value is pending.
    pub fn send<T>(&self, sched: &mut Scheduler<T>, value: T) -> (r: Result<(), Error>)
        requires
            self.ch() < old(sched).cells().len(),
        ensures
            final(sched).cells() == old(sched).cells().update(
                self.ch(),
                spec_send(old(sched).cells()[self.ch()], value).0,
            ),
            r == spec_send(old(sched).cells()[self.ch()], value).1,
            final(sched).ready_ids() == ({
                let c = old(sched).cells()[self.ch()];
                if !c.closed && c.value is None && c.waker is Some {
                    old(sched).ready_ids().push(c.waker->0.task_id)
                } else {
                    old(sched).ready_ids()
                }
            }),
            final(sched).results() == old(sched).results(),
            final(sched).interests() == old(sched).interests(),
            final(sched).trace() == old(sched).trace(),
    {
        let ghost cells0 = old(sched).cells();
        let c = sched.replace_cell(self.ch, ChanCell::new());
        let ChanCell { value: v0, waker: w0, closed: cl0 } = c;
        let r = if cl0 {
            let _ = sched.replace_cell(self.ch, ChanCell { value: v0, waker: w0, closed: cl0 });
            Err(Error::ChannelClosed)
        } else if v0.is_some() {
            let _ = sched.replace_cell(self.ch, ChanCell { value: v0, waker: w0, closed: cl0 });
            Err(Error::DuplicateSend)
        } else {
            let _ = sched.replace_cell(
                self.ch,
                ChanCell { value: Some(value), waker: None, closed: false },
            );
            if let Some(w) = w0 {
                w.wake(sched);
            }
            Ok(())
        };
        proof {
            assert(sched.cells() =~= cells0.update(
                self.ch(),
                spec_send(cells0[self.ch()], value).0,
            ));
        }
        r
    }

    /// Drop the sending half: the cell is closed. A receiver that later polls
    /// an empty closed cell resolves to `ChannelClosed`. Closing twice (here
    /// impossible, since `close` consumes the handle) would be a no-op.
    pub fn close<T>(self, sched: &mut Scheduler<T>)
        requires
            self.ch() < old(sched).cells().len(),
        ensures
            final(sched).cells() == old(sched).cells().update(
                self.ch(),
                spec_close(old(sched).cells()[self.ch()]),
            ),
            final(sched).ready_ids() == old(sched).ready_ids(),
            final(sched).results() == old(sched).results(),
            final(sched).interests() == old(sched).interests(),
            final(sched).trace() == old(sched).trace(),
    {
        close_cell(sched, self.ch);
    }
}

/// Apply one receiver poll to a cell value, returning the new cell and the
/// poll's result.
pub(crate) fn recv_step<T>(c: ChanCell<T>, cur: Waker) -> (r: (ChanCell<T>, Poll<Result<T, Error>>))
    ensures
        r == spec_recv(c, cur),
{
    let ChanCell { value, waker, closed } = c;
    match value {
        Some(v) => (
            ChanCell { value: None, waker, closed: true },
            Poll::Ready(Ok(v)),
        ),
        None => {
            if closed {
                (ChanCell { value: None, waker, closed }, Poll::Ready(Err(Error::ChannelClosed)))
            } else {
                (ChanCell { value: None, waker: Some(cur), closed: false }, Poll::Pending)
            }
        },
    }
}

impl Receiver {
    /// Which cell this handle refers to.
    pub closed spec fn ch(self) -> int {
        self.ch as int
    }

    /// Whether this handle refers to a cell of the given scheduler.
    pub fn is_valid_for<T>(&self, sched: &Scheduler<T>) -> (r: bool)
        ensures
            r == (self.ch() < sched.cells().len()),
            0 <= self.ch(),
    {
        self.ch < sched.cells_len()
    }

    /// Take the value if one is pending; consuming it closes the channel, so
    /// nothing can be delivered twice. Returns `None` when no value is there,
    /// whether or not the channel is closed.
    pub fn try_recv<T>(&self, sched: &mut Scheduler<T>) -> (r: Option<T>)
        requires
            self.ch() < old(sched).cells().len(),
        ensures
            final(sched).cells() == old(sched).cells().update(
                self.ch(),
                spec_try_recv(old(sched).cells()[self.ch()]).0,
            ),
            r == spec_try_recv(old(sched).cells()[self.ch()]).1,
            final(sched).ready_ids() == old(sched).ready_ids(),
            final(sched).results() == old(sched).results(),
            final(sched).interests() == old(sched).interests(),
            final(sched).trace() == old(sched).trace(),
    {
        let ghost cells0 = old(sched).cells();
        let c = sched.replace_cell(self.ch, ChanCell::new());
        let ChanCell { value, waker, closed } = c;
        let r = match value {
            Some(v) => {
                let _ = sched.replace_cell(self.ch, ChanCell { value: None, waker, closed: true });
                Some(v)
            },
            None => {
                let _ = sched.replace_cell(self.ch, ChanCell { value: None, waker, closed });
                None
            },
        };
        proof {
            assert(sched.cells() =~= cells0.update(
                self.ch(),
                spec_try_recv(cells0[self.ch()]).0,
            ));
        }
        r
    }

    /// Poll the receiving half: a pending value resolves to `Ok` and closes
    /// the channel; an empty closed cell resolves to `Err(ChannelClosed)`;
    /// otherwise the current waker is parked and the poll is pending.
    pub fn poll<T>(&self, sched: &mut Scheduler<T>, cur: Waker) -> (r: Poll<Result<T, Error>>)
        requires
            self.ch() < old(sched).cells().len(),
        ensures
            final(sched).cells() == old(sched).cells().update(
                self.ch(),
                spec_recv(old(sched).cells()[self.ch()], cur).0,
            ),
            r == spec_recv(old(sched).cells()[self.ch()], cur).1,
            final(sched).ready_ids() == old(sched).ready_ids(),
            final(sched).results() == old(sched).results(),
            final(sched).interests() == old(sched).interests(),
            final(sched).trace() == old(sched).trace(),
    {
        let ghost cells0 = old(sched).cells();
        let c = sched.replace_cell(self.ch, ChanCell::new());
        let (c2, r) = recv_step(c, cur);
        let _ = sched.replace_cell(self.ch, c2);
        proof {
            assert(sched.cells() =~= cells0.update(
                self.ch(),
                spec_recv(cells0[self.ch()], cur).0,
            ));
        }
        r
    }

    /// Drop the receiving half: the cell is closed, and a later `send` fails
    /// with `ChannelClosed`.
    pub fn close<T>(self, sched: &mut Scheduler<T>)
        requires
            self.ch() < old(sched).cells().len(),
        ensures
            final(sched).cells() == old(sched).cells().update(
                self.ch(),
                spec_close(old(sched).cells()[self.ch()]),
            ),
            final(sched).ready_ids() == old(sched).ready_ids(),
            final(sched).results() == old(sched).results(),
            final(sched).interests() == old(sched).interests(),
            final(sched).trace() == old(sched).trace(),
    {
        close_cell(sched, self.ch);
    }
}

/// A value sent into a fresh channel is received exactly once: the first poll
/// of the receiver yields `Ok(v)`, and any later poll yields
/// `Err(ChannelClosed)`.
pub proof fn lemma_send_then_recv<T>(v: T, cur1: Waker, cur2: Waker)
    ensures
        ({
            let (c1, r1) = spec_send(ChanCell::<T>::empty(), v);
            let (c2, r2) = spec_recv(c1, cur1);
            let (c3, r3) = spec_recv(c2, cur2);
            &&& r1 == Ok::<(), Error>(())
            &&& r2 == Poll::Ready(Ok::<T, Error>(v))
            &&& r3 == Poll::Ready(Err::<T, Error>(Error::ChannelClosed))
        }),
{
}

/// Dropping the sender of a fresh channel before any send makes the receiver
/// resolve to `Err(ChannelClosed)`.
pub proof fn lemma_drop_sender_then_recv<T>(cur: Waker)
    ensures
        spec_recv(spec_close(ChanCell::<T>::empty()), cur).1 == Poll::Ready(
            Err::<T, Error>(Error::ChannelClosed),
        ),
{
}

/// Dropping the receiver of a fresh channel makes a subsequent send fail with
/// `Err(ChannelClosed)`, whether or not the receiver was polled first.
pub proof fn lemma_drop_receiver_then_send<T>(v: T, cur: Waker)
    ensures
        spec_send(spec_close(ChanCell::<T>::empty()), v).1 == Err::<(), Error>(
            Error::ChannelClosed,
        ),
        spec_send(spec_close(spec_recv(ChanCell::<T>::empty(), cur).0), v).1 == Err::<(), Error>(
            Error::ChannelClosed,
        ),
{
}

/// Every channel operation is a legal cell evolution, so the `closed` flag is
/// monotonic and a pending value is never overwritten, whatever sequence of
/// operations runs.
pub proof fn lemma_ops_evolve_cell<T>(c: ChanCell<T>, v: T, cur: Waker)
    ensures
        cell_evolves(c, spec_send(c, v).0),
        cell_evolves(c, spec_recv(c, cur).0),
        cell_evolves(c, spec_try_recv(c).0),
        cell_evolves(c, spec_close(c)),
{
}

} // verus!
