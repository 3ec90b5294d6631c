use vstd::prelude::*;

use crate::future::Poll;
use crate::runtime::{woken_ids, Scheduler, Waker};
use crate::sys::{AcceptOutcome, OsError, SocketAddrV4};

verus! {

/// A listening TCP socket, carried as its raw descriptor. Creating it —
/// socket, bind, listen, and adding the descriptor to the OS multiplexer —
/// is I/O and stays with the caller; the listener hands the descriptor to
/// accept futures.
pub struct TcpListener {
    fd: i32,
}

impl View for TcpListener {
    type V = i32;

    closed spec fn view(&self) -> i32 {
        self.fd
    }
}

impl TcpListener {
    /// Wrap an already-listening descriptor.
    pub fn from_fd(fd: i32) -> (r: Self)
        ensures
            r@ == fd,
    {
        TcpListener { fd }
    }

    /// The raw descriptor.
    pub fn as_raw_fd(&self) -> (r: i32)
        ensures
            r == self@,
    {
        self.fd
    }

    /// A future that accepts one connection on this listener.
    pub fn accept(&self) -> (r: AcceptFuture)
        ensures
            r@ == self@,
    {
        AcceptFuture { fd: self.fd }
    }
}

/// A pending accept on a listening descriptor: couples one non-blocking
/// accept attempt to reactor registration.
pub struct AcceptFuture {
    fd: i32,
}

impl View for AcceptFuture {
    type V = i32;

    closed spec fn view(&self) -> i32 {
        self.fd
    }
}

impl AcceptFuture {
    /// Decide the poll's outcome from one non-blocking accept attempt, which
    /// the caller has made and reports here. Success resolves to the new
    /// descriptor and the peer's address. A would-block registers exactly one
    /// waker — the current one — for the listening fd and stays pending; once
    /// the OS reports the fd ready and the wakers are dispatched (see
    /// `Scheduler::wake_ready`), the task is queued to poll again. Any other
    /// OS error resolves to that error at once, not retried.
    pub fn poll<T>(&self, attempt: AcceptOutcome, sched: &mut Scheduler<T>, cur: Waker) -> (r: Poll<
        Result<(i32, SocketAddrV4), OsError>,
    >)
        ensures
            final(sched).cells() == old(sched).cells(),
            final(sched).results() == old(sched).results(),
            final(sched).ready_ids() == old(sched).ready_ids(),
            final(sched).trace() == old(sched).trace(),
            attempt matches AcceptOutcome::Accepted(fd, addr) ==> r == Poll::<
                Result<(i32, SocketAddrV4), OsError>,
            >::Ready(Ok((fd, addr))) && final(sched).interests() == old(sched).interests(),
            attempt is WouldBlock ==> r is Pending && final(sched).interests() == old(
                sched,
            ).interests().insert(self@, Some(cur)),
            attempt matches AcceptOutcome::Failed(e) ==> r == Poll::<
                Result<(i32, SocketAddrV4), OsError>,
            >::Ready(Err(e)) && final(sched).interests() == old(sched).interests(),
    {
        match attempt {
            AcceptOutcome::Accepted(fd, addr) => Poll::Ready(Ok((fd, addr))),
            AcceptOutcome::WouldBlock => {
                sched.register_wake(self.fd, cur);
                Poll::Pending
            },
            AcceptOutcome::Failed(e) => Poll::Ready(Err(e)),
        }
    }
}

/// Dispatching a single ready fd wakes exactly the waker registered for it:
/// the task parked by a pending accept is queued to be polled again.
pub proof fn lemma_ready_fd_wakes(m: Map<i32, Option<Waker>>, fd: i32, w: Waker)
    requires
        m.contains_key(fd),
        m[fd] == Some(w),
    ensures
        woken_ids(m, seq![fd]) == seq![w.task_id],
{
    let s = seq![fd];
    assert(s.drop_last() =~= Seq::<i32>::empty());
    assert(woken_ids(m, s.drop_last()) == Seq::<usize>::empty());
    assert(woken_ids(m, s) =~= seq![w.task_id]);
}

} // verus!
