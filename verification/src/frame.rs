//! Newline framing of the control channel: a bounded byte buffer that
//! is fed raw reads and yields one message line at a time. A line
//! longer than the limit fails the connection with a framing error.

use vstd::prelude::*;

verus! {

/// Upper bound on a single frame, 64 KiB.
pub const MAX_FRAME_LEN: usize = 65536;

pub open spec fn no_newline(s: Seq<u8>) -> bool {
    forall|i: int| 0 <= i < s.len() ==> #[trigger] s[i] != 10
}

#[derive(Debug, PartialEq)]
pub enum FrameStep {
    /// One complete line, without its newline terminator.
    Frame(Vec<u8>),
    /// No newline buffered yet; read more bytes.
    NeedMore,
    /// The buffered line exceeds [`MAX_FRAME_LEN`]; the connection
    /// must be failed.
    Overflow,
}

/// Buffer between the raw byte stream and the message grammar.
pub struct FrameBuffer {
    buf: Vec<u8>,
}

impl FrameBuffer {
    pub closed spec fn view(&self) -> Seq<u8> {
        self.buf@
    }

    pub fn new() -> (r: FrameBuffer)
        ensures
            r@ == Seq::<u8>::empty(),
    {
        FrameBuffer { buf: Vec::new() }
    }

    /// Append one raw read to the buffer.
    pub fn feed(&mut self, chunk: &[u8])
        ensures
            final(self)@ == old(self)@ + chunk@,
    {
        self.buf.extend_from_slice(chunk);
    }

    /// The bytes still buffered; after the handshake they are replayed
    /// ahead of the raw stream so that no data is lost.
    pub fn into_rest(self) -> (r: Vec<u8>)
        ensures
            r@ == self@,
    {
        self.buf
    }

    /// Take the next complete line out of the buffer, if one is there.
    pub fn next_frame(&mut self) -> (r: FrameStep)
        ensures
            match r {
                FrameStep::Frame(f) => no_newline(f@) && old(self)@ == f@ + seq![10u8]
                    + final(self)@,
                FrameStep::NeedMore => final(self)@ == old(self)@ && no_newline(old(self)@)
                    && old(self)@.len() <= MAX_FRAME_LEN,
                FrameStep::Overflow => final(self)@ == old(self)@ && no_newline(old(self)@)
                    && old(self)@.len() > MAX_FRAME_LEN,
            },
    {
        let mut i: usize = 0;
        let mut found: bool = false;
        while i < self.buf.len() && !found
            invariant
                i <= self.buf@.len(),
                self.buf@ == old(self)@,
                found ==> i < self.buf@.len() && self.buf@[i as int] == 10,
                forall|t: int| 0 <= t < i ==> #[trigger] self.buf@[t] != 10,
            decreases self.buf@.len() - i + (if found { 0int } else { 1int }),
        {
            if self.buf[i] == 10 {
                found = true;
            } else {
                i += 1;
            }
        }
        if !found {
            if self.buf.len() > MAX_FRAME_LEN {
                return FrameStep::Overflow;
            }
            return FrameStep::NeedMore;
        }
        let mut tail = self.buf.split_off(i + 1);
        self.buf.pop();
        core::mem::swap(&mut self.buf, &mut tail);
        proof {
            assert(old(self)@ =~= tail@ + seq![10u8] + self.buf@);
        }
        FrameStep::Frame(tail)
    }
}

} // verus!
