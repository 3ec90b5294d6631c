use core::marker::PhantomData;
use vstd::prelude::*;

use crate::sys::OsError;

verus! {

/// An owned raw file descriptor. The syscalls on it — send, recv, close —
/// are I/O and stay with the caller; the wrapper gives the bare integer a
/// typed identity.
#[derive(Debug)]
pub struct RawFd(i32);

impl View for RawFd {
    type V = i32;

    closed spec fn view(&self) -> i32 {
        self.0
    }
}

impl RawFd {
    pub fn new(i: i32) -> (r: Self)
        ensures
            r@ == i,
    {
        RawFd(i)
    }

    pub fn inner(&self) -> (r: i32)
        ensures
            r == self@,
    {
        self.0
    }
}

/// Lifecycle stage tags for [`Socket`]: a socket starts unbound and advances
/// through bind, listen or connect; an operation out of order is rejected at
/// compile time.
#[derive(Debug)]
pub struct Unbound;

#[derive(Debug)]
pub struct Bound;

#[derive(Debug)]
pub struct Connected;

#[derive(Debug)]
pub struct Listening;

/// A socket whose lifecycle stage is tracked in its type. Each transition
/// interprets the return of the corresponding syscall, which the caller
/// makes: a non-negative return advances the state, a negative one is the OS
/// error and the socket is given up.
#[derive(Debug)]
pub struct Socket<S> {
    fd: RawFd,
    state: PhantomData<S>,
}

impl<S> View for Socket<S> {
    type V = i32;

    closed spec fn view(&self) -> i32 {
        self.fd@
    }
}

impl<S> Socket<S> {
    /// Give up the typed state and take the descriptor.
    pub fn into_inner(self) -> (r: RawFd)
        ensures
            r@ == self@,
    {
        self.fd
    }
}

impl Socket<Unbound> {
    /// Wrap the return of the socket-creation syscall: a fresh descriptor
    /// yields an unbound socket.
    pub fn new(res: i32) -> (r: Result<Socket<Unbound>, OsError>)
        ensures
            res >= 0 ==> (r matches Ok(s) && s@ == res),
            res < 0 ==> r == Err::<Socket<Unbound>, OsError>(OsError { code: res }),
    {
        if res < 0 {
            Err(OsError { code: res })
        } else {
            Ok(Socket { fd: RawFd::new(res), state: PhantomData })
        }
    }

    /// Advance to bound on a successful bind syscall return.
    pub fn bind(self, res: i32) -> (r: Result<Socket<Bound>, OsError>)
        ensures
            res >= 0 ==> (r matches Ok(s) && s@ == self@),
            res < 0 ==> r == Err::<Socket<Bound>, OsError>(OsError { code: res }),
    {
        if res < 0 {
            Err(OsError { code: res })
        } else {
            Ok(Socket { fd: self.into_inner(), state: PhantomData })
        }
    }

    /// Advance straight to connected on a successful connect syscall return.
    pub fn connect(self, res: i32) -> (r: Result<Socket<Connected>, OsError>)
        ensures
            res >= 0 ==> (r matches Ok(s) && s@ == self@),
            res < 0 ==> r == Err::<Socket<Connected>, OsError>(OsError { code: res }),
    {
        connect_socket(self, res)
    }
}

impl Socket<Bound> {
    /// Advance to listening on a successful listen syscall return.
    pub fn listen(self, res: i32) -> (r: Result<Socket<Listening>, OsError>)
        ensures
            res >= 0 ==> (r matches Ok(s) && s@ == self@),
            res < 0 ==> r == Err::<Socket<Listening>, OsError>(OsError { code: res }),
    {
        if res < 0 {
            Err(OsError { code: res })
        } else {
            Ok(Socket { fd: self.into_inner(), state: PhantomData })
        }
    }

    /// Advance to connected on a successful connect syscall return.
    pub fn connect(self, res: i32) -> (r: Result<Socket<Connected>, OsError>)
        ensures
            res >= 0 ==> (r matches Ok(s) && s@ == self@),
            res < 0 ==> r == Err::<Socket<Connected>, OsError>(OsError { code: res }),
    {
        connect_socket(self, res)
    }
}

impl Socket<Listening> {
    /// Wrap the return of the accept syscall: a non-negative return is the
    /// connected peer's fresh descriptor. The listener itself stays
    /// listening.
    pub fn accept(&self, res: i32) -> (r: Result<RawFd, OsError>)
        ensures
            res >= 0 ==> (r matches Ok(fd) && fd@ == res),
            res < 0 ==> r == Err::<RawFd, OsError>(OsError { code: res }),
    {
        if res < 0 {
            Err(OsError { code: res })
        } else {
            Ok(RawFd::new(res))
        }
    }
}

impl Socket<Connected> {
    /// Interpret the return of a recv on the connected socket: a non-negative
    /// return is the number of bytes received.
    pub fn recv(&self, res: isize) -> (r: Result<usize, OsError>)
        ensures
            res >= 0 ==> r == Ok::<usize, OsError>(res as usize),
            res < 0 ==> r == Err::<usize, OsError>(OsError { code: res as i32 }),
    {
        if res < 0 {
            Err(OsError { code: res as i32 })
        } else {
            Ok(res as usize)
        }
    }
}

/// The shared connect transition: from either an unbound or a bound socket.
fn connect_socket<S>(socket: Socket<S>, res: i32) -> (r: Result<Socket<Connected>, OsError>)
    ensures
        res >= 0 ==> (r matches Ok(s) && s@ == socket@),
        res < 0 ==> r == Err::<Socket<Connected>, OsError>(OsError { code: res }),
{
    if res < 0 {
        Err(OsError { code: res })
    } else {
        Ok(Socket { fd: socket.into_inner(), state: PhantomData })
    }
}

} // verus!
