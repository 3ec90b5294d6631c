use vstd::prelude::*;

use crate::socket::RawFd;
use crate::sys::OsError;

verus! {

/// An owned event-multiplexer descriptor. The create, add, delete and wait
/// syscalls on it are the caller's I/O; the wrapper types the descriptor.
pub struct EpollFd(RawFd);

impl View for EpollFd {
    type V = i32;

    closed spec fn view(&self) -> i32 {
        self.0@
    }
}

impl EpollFd {
    /// Wrap the return of the multiplexer-creation syscall.
    pub fn new(res: i32) -> (r: Result<EpollFd, OsError>)
        ensures
            res >= 0 ==> (r matches Ok(e) && e@ == res),
            res < 0 ==> r == Err::<EpollFd, OsError>(OsError { code: res }),
    {
        if res < 0 {
            Err(OsError { code: res })
        } else {
            Ok(EpollFd(RawFd::new(res)))
        }
    }

    /// The raw descriptor, for the caller's multiplexer syscalls.
    pub fn as_raw(&self) -> (r: i32)
        ensures
            r == self@,
    {
        self.0.inner()
    }
}

} // verus!
