use vstd::prelude::*;

use crate::future::Poll;
use crate::sys::OsError;

verus! {

/// Capability to read available bytes into a buffer: resolves to the number
/// of bytes read, or an OS error. Implementations follow the engine's
/// non-blocking-retry pattern: a would-block becomes `Pending` (after
/// arranging a wake), never an error.
pub trait AsyncRead {
    fn read(&mut self, buf: &mut Vec<u8>) -> (r: Poll<Result<usize, OsError>>);
}

/// Capability to write bytes from the window `[from, to)` of a buffer:
/// resolves to the number of bytes written, or an OS error, with would-block
/// absorbed into `Pending` as for reads.
pub trait AsyncWrite {
    fn write(&mut self, buf: &Vec<u8>, from: usize, to: usize) -> (r: Poll<Result<usize, OsError>>);
}

} // verus!
