use vstd::prelude::*;

verus! {

/// What the echo loop needs next from its driver: fill the buffer with a
/// read, or write the still-unwritten window `[from, to)` of the buffer.
#[derive(Debug, PartialEq, Eq, Structural)]
pub enum EchoOp {
    Read,
    Write { from: usize, to: usize },
}

/// Echoes what is read back to the writer: the state machine of the copy
/// loop, driven by the outcomes of the caller's reads and writes (through the
/// `AsyncRead` and `AsyncWrite` capabilities). A read fills the buffer; the
/// written window then advances until it reaches the read count, and the loop
/// reads again, indefinitely.
pub struct Echo {
    buf: Vec<u8>,
    cap: usize,
    bytes_read: usize,
    bytes_written: usize,
    writing: bool,
}

impl Echo {
    /// The most bytes one read may hand in.
    pub closed spec fn capacity(self) -> int {
        self.cap as int
    }

    /// The bytes of the chunk being echoed.
    pub closed spec fn data(self) -> Seq<u8> {
        self.buf@
    }

    /// How many bytes the last read produced.
    pub closed spec fn read_count(self) -> int {
        self.bytes_read as int
    }

    /// How many of them have been written back so far.
    pub closed spec fn written_count(self) -> int {
        self.bytes_written as int
    }

    /// Whether the loop is writing the current chunk (else it wants a read).
    pub closed spec fn is_writing(self) -> bool {
        self.writing
    }

    /// Well-formed: the written prefix never passes the read count, which is
    /// the chunk's length and never passes the buffer's capacity.
    pub open spec fn wf(self) -> bool {
        &&& 0 <= self.written_count() <= self.read_count()
        &&& self.read_count() == self.data().len()
        &&& self.read_count() <= self.capacity()
    }

    pub fn new(buf_size: usize) -> (r: Self)
        ensures
            r.wf(),
            r.capacity() == buf_size,
            !r.is_writing(),
            r.read_count() == 0,
            r.written_count() == 0,
    {
        Echo { buf: Vec::new(), cap: buf_size, bytes_read: 0, bytes_written: 0, writing: false }
    }

    /// What the driver must do next.
    pub fn next_op(&self) -> (r: EchoOp)
        requires
            self.wf(),
        ensures
            !self.is_writing() ==> r == EchoOp::Read,
            self.is_writing() ==> (r matches EchoOp::Write { from, to } && from
                == self.written_count() && to == self.read_count()),
    {
        if self.writing {
            EchoOp::Write { from: self.bytes_written, to: self.bytes_read }
        } else {
            EchoOp::Read
        }
    }

    /// Record a completed read: the chunk becomes the buffer and the loop
    /// turns to writing it. A read of nothing turns straight back to reading,
    /// as the copy loop does on an idle peer.
    pub fn on_read(&mut self, data: Vec<u8>)
        requires
            old(self).wf(),
            !old(self).is_writing(),
            data@.len() <= old(self).capacity(),
        ensures
            final(self).wf(),
            final(self).capacity() == old(self).capacity(),
            final(self).data() == data@,
            final(self).read_count() == data@.len(),
            final(self).written_count() == 0,
            final(self).is_writing() == (data@.len() > 0),
    {
        let n = data.len();
        self.buf = data;
        self.bytes_read = n;
        self.bytes_written = 0;
        self.writing = n > 0;
    }

    /// Record that `n` more bytes of the window were written; once the whole
    /// chunk is out, the loop turns back to reading.
    pub fn on_write(&mut self, n: usize)
        requires
            old(self).wf(),
            old(self).is_writing(),
            n <= old(self).read_count() - old(self).written_count(),
        ensures
            final(self).wf(),
            final(self).capacity() == old(self).capacity(),
            final(self).data() == old(self).data(),
            final(self).read_count() == old(self).read_count(),
            final(self).written_count() == old(self).written_count() + n,
            final(self).is_writing() == (old(self).written_count() + n < old(self).read_count()),
    {
        self.bytes_written = self.bytes_written + n;
        self.writing = self.bytes_written < self.bytes_read;
    }

    /// The buffer the write window refers to.
    pub fn buffer(&self) -> (r: &Vec<u8>)
        ensures
            r@ == self.data(),
    {
        &self.buf
    }
}

} // verus!
