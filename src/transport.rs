//! The byte-level boundary between a socket and the protocol engine.
//!
//! A `Transport` holds the bytes received from the wire until the engine takes
//! them, within a fixed input window, and the bytes the engine produced until
//! they are pulled for sending. The socket side uses `push`, `capacity`,
//! `pull` and the two closes; the engine side uses `take_input` and
//! `queue_output`.
//!
//! The protocol engine itself is not part of this crate. `Transport` stands
//! in for its byte interface, and `DEFAULT_WINDOW` is this crate's choice
//! of input window, not a figure taken from any engine.
use vstd::prelude::*;
use crate::sys::{ErrorCode, PN_EOS};

verus! {

/// The default input window of a transport, in bytes.
pub const DEFAULT_WINDOW: usize = 16384;

pub struct Transport {
    window: usize,
    input: Vec<u8>,
    output: Vec<u8>,
    head_closed: bool,
    tail_closed: bool,
}

impl Transport {
    /// The bytes received and not yet taken by the engine.
    pub closed spec fn spec_input(&self) -> Seq<u8> {
        self.input@
    }

    /// The bytes the engine produced and not yet pulled.
    pub closed spec fn spec_output(&self) -> Seq<u8> {
        self.output@
    }

    /// How many received bytes the transport holds at most.
    pub closed spec fn spec_window(&self) -> nat {
        self.window as nat
    }

    /// Whether the sending side is closed.
    pub closed spec fn spec_head_closed(&self) -> bool {
        self.head_closed
    }

    /// Whether the receiving side is closed.
    pub closed spec fn spec_tail_closed(&self) -> bool {
        self.tail_closed
    }

    pub closed spec fn wf(&self) -> bool {
        self.input@.len() <= self.window && self.window <= i64::MAX
    }

    /// What `capacity` reports: end of stream once the receiving side is
    /// closed, else the room left in the input window.
    pub open spec fn spec_capacity(&self) -> int {
        if self.spec_tail_closed() {
            PN_EOS as int
        } else {
            self.spec_window() - self.spec_input().len()
        }
    }

    /// An open transport with an empty input window of `DEFAULT_WINDOW` bytes.
    pub fn new() -> (r: Transport)
        ensures
            r.wf(),
            r.spec_window() == DEFAULT_WINDOW,
            r.spec_input() == Seq::<u8>::empty(),
            r.spec_output() == Seq::<u8>::empty(),
            !r.spec_head_closed(),
            !r.spec_tail_closed(),
    {
        Transport::with_window(DEFAULT_WINDOW)
    }

    /// An open transport with an empty input window of `window` bytes.
    pub fn with_window(window: usize) -> (r: Transport)
        requires
            window <= i64::MAX,
        ensures
            r.wf(),
            r.spec_window() == window,
            r.spec_input() == Seq::<u8>::empty(),
            r.spec_output() == Seq::<u8>::empty(),
            !r.spec_head_closed(),
            !r.spec_tail_closed(),
    {
        Transport { window, input: Vec::new(), output: Vec::new(), head_closed: false, tail_closed: false }
    }

    /// How many more received bytes the transport takes, or `PN_EOS` once
    /// its receiving side is closed.
    pub fn capacity(&self) -> (r: i64)
        requires
            self.wf(),
        ensures
            r == self.spec_capacity(),
    {
        if self.tail_closed {
            PN_EOS as i64
        } else {
            (self.window - self.input.len()) as i64
        }
    }

    /// Whether the transport takes more received bytes now.
    pub fn has_capacity(&self) -> (r: bool)
        requires
            self.wf(),
        ensures
            r == (self.spec_capacity() > 0),
    {
        self.capacity() > 0
    }

    /// Hands received bytes to the transport: as many as its window has room
    /// for, in order. Returns how many it took; fails with `Eos` once the
    /// receiving side is closed.
    pub fn push(&mut self, bytes: &[u8]) -> (r: Result<usize, ErrorCode>)
        requires
            old(self).wf(),
        ensures
            final(self).wf(),
            final(self).spec_window() == old(self).spec_window(),
            final(self).spec_output() == old(self).spec_output(),
            final(self).spec_head_closed() == old(self).spec_head_closed(),
            final(self).spec_tail_closed() == old(self).spec_tail_closed(),
            old(self).spec_tail_closed() ==> r == Err::<usize, ErrorCode>(ErrorCode::Eos)
                && final(self).spec_input() == old(self).spec_input(),
            !old(self).spec_tail_closed() ==> match r {
                Ok(n) => {
                    &&& n == vstd::math::min(
                        bytes@.len() as int,
                        old(self).spec_window() - old(self).spec_input().len(),
                    )
                    &&& final(self).spec_input() == old(self).spec_input() + bytes@.take(n as int)
                },
                Err(_) => false,
            },
    {
        if self.tail_closed {
            return Err(ErrorCode::Eos);
        }
        let room = self.window - self.input.len();
        let n = if bytes.len() < room { bytes.len() } else { room };
        let ghost start = self.input@;
        let mut i: usize = 0;
        while i < n
            invariant
                i <= n <= bytes@.len(),
                n <= room,
                room == self.window - start.len(),
                start.len() <= self.window,
                self.input@ == start + bytes@.take(i as int),
                self.window == old(self).window,
                self.output == old(self).output,
                self.head_closed == old(self).head_closed,
                self.tail_closed == old(self).tail_closed,
            decreases n - i,
        {
            self.input.push(bytes[i]);
            i = i + 1;
            assert(self.input@ =~= start + bytes@.take(i as int));
        }
        Ok(n)
    }

    /// Takes the bytes ready to send.
    pub fn pull(&mut self) -> (r: Vec<u8>)
        requires
            old(self).wf(),
        ensures
            final(self).wf(),
            r@ == old(self).spec_output(),
            final(self).spec_output() == Seq::<u8>::empty(),
            final(self).spec_input() == old(self).spec_input(),
            final(self).spec_window() == old(self).spec_window(),
            final(self).spec_head_closed() == old(self).spec_head_closed(),
            final(self).spec_tail_closed() == old(self).spec_tail_closed(),
    {
        let mut taken: Vec<u8> = Vec::new();
        std::mem::swap(&mut taken, &mut self.output);
        taken
    }

    /// Closes the sending side: output queued after this is dropped.
    pub fn close_head(&mut self)
        requires
            old(self).wf(),
        ensures
            final(self).wf(),
            final(self).spec_head_closed(),
            final(self).spec_tail_closed() == old(self).spec_tail_closed(),
            final(self).spec_input() == old(self).spec_input(),
            final(self).spec_output() == old(self).spec_output(),
            final(self).spec_window() == old(self).spec_window(),
    {
        self.head_closed = true;
    }

    /// Closes the receiving side: `push` fails and `capacity` reports end of stream.
    pub fn close_tail(&mut self)
        requires
            old(self).wf(),
        ensures
            final(self).wf(),
            final(self).spec_tail_closed(),
            final(self).spec_head_closed() == old(self).spec_head_closed(),
            final(self).spec_input() == old(self).spec_input(),
            final(self).spec_output() == old(self).spec_output(),
            final(self).spec_window() == old(self).spec_window(),
    {
        self.tail_closed = true;
    }

    /// Closes both sides.
    pub fn close(&mut self)
        requires
            old(self).wf(),
        ensures
            final(self).wf(),
            final(self).spec_head_closed(),
            final(self).spec_tail_closed(),
            final(self).spec_input() == old(self).spec_input(),
            final(self).spec_output() == old(self).spec_output(),
            final(self).spec_window() == old(self).spec_window(),
    {
        self.close_head();
        self.close_tail();
    }

    /// Engine side: takes every received byte, which frees the input window.
    pub fn take_input(&mut self) -> (r: Vec<u8>)
        requires
            old(self).wf(),
        ensures
            final(self).wf(),
            r@ == old(self).spec_input(),
            final(self).spec_input() == Seq::<u8>::empty(),
            final(self).spec_output() == old(self).spec_output(),
            final(self).spec_window() == old(self).spec_window(),
            final(self).spec_head_closed() == old(self).spec_head_closed(),
            final(self).spec_tail_closed() == old(self).spec_tail_closed(),
    {
        let mut taken: Vec<u8> = Vec::new();
        std::mem::swap(&mut taken, &mut self.input);
        taken
    }

    /// Engine side: queues bytes to send, unless the sending side is closed.
    pub fn queue_output(&mut self, bytes: &[u8])
        requires
            old(self).wf(),
        ensures
            final(self).wf(),
            final(self).spec_output() == if old(self).spec_head_closed() {
                old(self).spec_output()
            } else {
                old(self).spec_output() + bytes@
            },
            final(self).spec_input() == old(self).spec_input(),
            final(self).spec_window() == old(self).spec_window(),
            final(self).spec_head_closed() == old(self).spec_head_closed(),
            final(self).spec_tail_closed() == old(self).spec_tail_closed(),
    {
        if self.head_closed {
            return;
        }
        let ghost start = self.output@;
        let mut i: usize = 0;
        while i < bytes.len()
            invariant
                i <= bytes@.len(),
                self.output@ == start + bytes@.take(i as int),
                self.input@.len() <= self.window <= i64::MAX,
                self.window == old(self).window,
                self.input == old(self).input,
                self.head_closed == old(self).head_closed,
                self.tail_closed == old(self).tail_closed,
            decreases bytes@.len() - i,
        {
            self.output.push(bytes[i]);
            i = i + 1;
            assert(self.output@ =~= start + bytes@.take(i as int));
        }
        assert(bytes@.take(i as int) =~= bytes@);
    }
}

} // verus!
