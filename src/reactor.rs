//! The decisions of a single-threaded, edge-triggered, one-shot reactor.
//!
//! The caller owns the sockets and the poller. For each readiness event it
//! asks `route` which operation to try, performs it without blocking, and
//! hands its outcome to `ConnectionTable::dispatch`. Every handler returns the
//! next interest set of its connection, or says that the connection is gone,
//! so that the caller always re-registers or deregisters the socket.
use vstd::prelude::*;
use crate::transport::Transport;
use crate::endpoint::Connection;

verus! {

/// The token of the listening socket; no connection ever has it.
pub const LISTENER: usize = 0;

/// The size of each connection's read buffer.
pub const READ_BUFFER_SIZE: usize = 2048;

/// How many connections the table holds at once.
pub const MAX_CONNECTIONS: usize = 128;

/// The readiness a socket is registered for.
#[derive(Clone, Copy, Debug, PartialEq, Eq, Structural)]
pub struct Interest {
    pub readable: bool,
    pub writable: bool,
    pub hup: bool,
}

impl Interest {
    /// Readable only.
    pub fn readable() -> (r: Interest)
        ensures
            r == (Interest { readable: true, writable: false, hup: false }),
    {
        Interest { readable: true, writable: false, hup: false }
    }

    /// Hang-up only: the interest of a connection before it is registered.
    pub fn hup() -> (r: Interest)
        ensures
            r == (Interest { readable: false, writable: false, hup: true }),
    {
        Interest { readable: false, writable: false, hup: true }
    }
}

/// The kind of a readiness event.
#[derive(Clone, Copy, Debug, PartialEq, Eq, Structural)]
pub enum Readiness {
    Readable,
    Writable,
}

/// The operation that a readiness event calls for.
#[derive(Clone, Copy, Debug, PartialEq, Eq, Structural)]
pub enum Route {
    /// Accept on the listening socket.
    Accept,
    /// Read from the connection with this token.
    Read(usize),
    /// Write to the connection with this token.
    Write(usize),
}

/// The outcome of a non-blocking accept.
#[derive(Clone, Copy, Debug, PartialEq, Eq, Structural)]
pub enum AcceptEvent {
    WouldBlock,
    Accepted,
}

/// The outcome of a non-blocking read into a connection's read buffer.
#[derive(Clone, Copy, Debug, PartialEq, Eq, Structural)]
pub enum ReadEvent {
    WouldBlock,
    /// This many bytes were read into the front of the read buffer.
    Read(usize),
    Error,
}

/// The outcome of a non-blocking write of a connection's pending bytes.
#[derive(Clone, Copy, Debug, PartialEq, Eq, Structural)]
pub enum WriteEvent {
    WouldBlock,
    /// This many bytes from the front of the pending bytes were written.
    Wrote(usize),
    Error,
}

/// The outcome of an operation, as handed to `ConnectionTable::dispatch`.
#[derive(Clone, Copy, Debug, PartialEq, Eq, Structural)]
pub enum IoEvent {
    Accept(AcceptEvent),
    Read(ReadEvent),
    Write(WriteEvent),
}

/// What a connection handler decided.
#[derive(Clone, Copy, Debug, PartialEq, Eq, Structural)]
pub enum Disposition {
    /// Re-register the socket with this interest.
    Rearm(Interest),
    /// The connection is torn down: deregister and drop the socket.
    Close,
}

/// What one dispatch did.
#[derive(Clone, Copy, Debug, PartialEq, Eq, Structural)]
pub enum Outcome {
    /// A connection was added under this token, with readable interest.
    Accepted(usize),
    /// Nothing to do: an accept would block.
    Idle,
    /// The accepted socket has no room in the table; drop it.
    Full,
    /// The connection with this token is to be re-registered with this interest.
    Rearm(usize, Interest),
    /// The connection with this token was torn down.
    Closed(usize),
    /// The token names no connection, or the outcome does not fit the token.
    Ignored,
}

/// The operation for a readiness event: accept for the listener, else a read
/// or a write on the connection, by the kind of the event.
pub fn route(token: usize, kind: Readiness) -> (r: Route)
    ensures
        token == LISTENER ==> r == Route::Accept,
        token != LISTENER ==> r == (match kind {
            Readiness::Readable => Route::Read(token),
            Readiness::Writable => Route::Write(token),
        }),
{
    if token == LISTENER {
        Route::Accept
    } else {
        match kind {
            Readiness::Readable => Route::Read(token),
            Readiness::Writable => Route::Write(token),
        }
    }
}

/// One accepted connection: its read buffer, the bytes waiting to be written,
/// its interest set and the transport bound to it.
pub struct ConnectionSlot {
    token: usize,
    read_buf: Vec<u8>,
    write_buf: Vec<u8>,
    written: usize,
    interest: Interest,
    connection: Connection,
    transport: Transport,
}

impl ConnectionSlot {
    pub closed spec fn spec_token(&self) -> usize {
        self.token
    }

    pub closed spec fn spec_interest(&self) -> Interest {
        self.interest
    }

    /// The bytes queued for writing and not yet written.
    pub closed spec fn spec_pending(&self) -> Seq<u8> {
        self.write_buf@.subrange(self.written as int, self.write_buf@.len() as int)
    }

    pub closed spec fn spec_transport(&self) -> Transport {
        self.transport
    }

    /// The contents of the read buffer.
    pub closed spec fn spec_read_buf(&self) -> Seq<u8> {
        self.read_buf@
    }

    pub closed spec fn wf(&self) -> bool {
        &&& self.read_buf@.len() == READ_BUFFER_SIZE
        &&& self.written <= self.write_buf@.len()
        &&& self.transport.wf()
    }

    /// A slot for a new connection under `token`, with an empty write buffer,
    /// readable interest and a fresh transport of `window` bytes.
    pub fn new(token: usize, window: usize) -> (r: ConnectionSlot)
        requires
            window <= i64::MAX,
        ensures
            r.wf(),
            r.spec_token() == token,
            r.spec_interest() == (Interest { readable: true, writable: false, hup: false }),
            r.spec_pending() == Seq::<u8>::empty(),
            r.spec_transport().spec_window() == window,
            r.spec_transport().spec_input() == Seq::<u8>::empty(),
            r.spec_transport().spec_output() == Seq::<u8>::empty(),
            !r.spec_transport().spec_tail_closed(),
            !r.spec_transport().spec_head_closed(),
            r.spec_read_buf().len() == READ_BUFFER_SIZE,
    {
        let read_buf = vec![0u8; READ_BUFFER_SIZE];
        let r = ConnectionSlot {
            token,
            read_buf,
            write_buf: Vec::new(),
            written: 0,
            interest: Interest::readable(),
            connection: Connection::new(),
            transport: Transport::with_window(window),
        };
        assert(r.spec_pending() =~= Seq::<u8>::empty());
        r
    }

    pub fn token(&self) -> (r: usize)
        ensures
            r == self.spec_token(),
    {
        self.token
    }

    pub fn interest(&self) -> (r: Interest)
        ensures
            r == self.spec_interest(),
    {
        self.interest
    }

    pub closed spec fn spec_connection(&self) -> Connection {
        self.connection
    }

    /// The protocol connection bound to this slot's transport.
    pub fn connection(&self) -> (r: &Connection)
        ensures
            *r == self.spec_connection(),
    {
        &self.connection
    }

    pub fn transport(&self) -> (r: &Transport)
        ensures
            *r == self.spec_transport(),
    {
        &self.transport
    }

    /// The bytes waiting to be written, for the caller's write.
    pub fn pending(&self) -> (r: &[u8])
        requires
            self.wf(),
        ensures
            r@ == self.spec_pending(),
    {
        let n = self.write_buf.len();
        slice_range(self.write_buf.as_slice(), self.written, n)
    }

    /// The read buffer, for the caller's read.
    pub fn read_buffer_mut(&mut self) -> (r: &mut [u8])
        requires
            old(self).wf(),
        ensures
            r@ == old(self).spec_read_buf(),
            r@.len() == READ_BUFFER_SIZE,
    {
        self.read_buf.as_mut_slice()
    }

    /// How many bytes the next read may take: the read buffer's size, or less
    /// where the transport has less room.
    pub fn read_limit(&self) -> (r: usize)
        requires
            self.wf(),
        ensures
            r <= READ_BUFFER_SIZE,
            r as int <= self.spec_transport().spec_capacity() || r == 0,
            (r == READ_BUFFER_SIZE) || (r as int == self.spec_transport().spec_capacity()) || (
            r == 0 && self.spec_transport().spec_capacity() <= 0),
    {
        let c = self.transport.capacity();
        if c <= 0 {
            0
        } else if c < READ_BUFFER_SIZE as i64 {
            c as usize
        } else {
            READ_BUFFER_SIZE
        }
    }
}

/// The interest a connection declares after each event: readable while its
/// transport has room for input, writable while bytes wait to be written.
pub open spec fn next_interest(slot: ConnectionSlot) -> Interest {
    Interest {
        readable: slot.spec_transport().spec_capacity() > 0,
        writable: slot.spec_pending().len() > 0,
        hup: slot.spec_interest().hup,
    }
}

/// Backpressure: whenever a connection's transport has no room for input, the
/// interest it declares is not readable; it turns readable again only on an
/// event after which the transport has room.
pub proof fn lemma_no_read_without_capacity(slot: ConnectionSlot)
    ensures
        slot.spec_transport().spec_capacity() <= 0 ==> !next_interest(slot).readable,
        slot.spec_transport().spec_capacity() > 0 ==> next_interest(slot).readable,
{
}

/// A connection declares write interest exactly while it has bytes left to
/// write: after a short write it stays writable, after the write that drains
/// it, it does not.
pub proof fn lemma_write_interest(slot: ConnectionSlot)
    ensures
        next_interest(slot).writable <==> slot.spec_pending().len() > 0,
{
}

/// The slot keeps its token and its transport's window across an event.
pub open spec fn same_connection(pre: ConnectionSlot, post: ConnectionSlot) -> bool {
    &&& post.spec_token() == pre.spec_token()
    &&& post.spec_transport().spec_window() == pre.spec_transport().spec_window()
}

/// Whether a read outcome tears the connection down: a read error, a read
/// of zero bytes, a count beyond the read buffer, or more bytes than the
/// transport has room for.
pub open spec fn read_closes(pre: ConnectionSlot, ev: ReadEvent) -> bool {
    match ev {
        ReadEvent::WouldBlock => false,
        ReadEvent::Error => true,
        ReadEvent::Read(n) => n == 0 || n > READ_BUFFER_SIZE || pre.spec_transport().spec_capacity() < n,
    }
}

/// Whether a write outcome tears the connection down: a write error, or a
/// count beyond the pending bytes.
pub open spec fn write_closes(pre: ConnectionSlot, ev: WriteEvent) -> bool {
    match ev {
        WriteEvent::WouldBlock => false,
        WriteEvent::Error => true,
        WriteEvent::Wrote(n) => n > pre.spec_pending().len(),
    }
}

/// The slot after an event that keeps the connection: the transport holds
/// `input`, the transport's output has moved behind `pending`, both sides
/// of the transport are as open as before, and the interest is
/// `next_interest`.
pub open spec fn moved_on(pre: ConnectionSlot, post: ConnectionSlot, input: Seq<u8>, pending: Seq<u8>) -> bool {
    &&& same_connection(pre, post)
    &&& post.spec_transport().spec_input() == input
    &&& post.spec_pending() == pending + pre.spec_transport().spec_output()
    &&& post.spec_transport().spec_output() == Seq::<u8>::empty()
    &&& post.spec_transport().spec_head_closed() == pre.spec_transport().spec_head_closed()
    &&& post.spec_transport().spec_tail_closed() == pre.spec_transport().spec_tail_closed()
    &&& post.spec_interest() == next_interest(post)
}

/// What a read outcome that keeps the connection does: the bytes read, if
/// any, join the transport's input.
pub open spec fn read_effect(pre: ConnectionSlot, post: ConnectionSlot, ev: ReadEvent) -> bool {
    moved_on(
        pre,
        post,
        match ev {
            ReadEvent::Read(n) => pre.spec_transport().spec_input() + pre.spec_read_buf().take(n as int),
            _ => pre.spec_transport().spec_input(),
        },
        pre.spec_pending(),
    )
}

/// What a write outcome that keeps the connection does: the bytes written,
/// if any, leave the pending bytes.
pub open spec fn write_effect(pre: ConnectionSlot, post: ConnectionSlot, ev: WriteEvent) -> bool {
    moved_on(
        pre,
        post,
        pre.spec_transport().spec_input(),
        match ev {
            WriteEvent::Wrote(n) => pre.spec_pending().skip(n as int),
            _ => pre.spec_pending(),
        },
    )
}

/// A handler's result that re-arms the connection carries, and leaves in the
/// slot, the interest that `next_interest` gives.
pub open spec fn rearmed(post: ConnectionSlot, d: Disposition) -> bool {
    d == Disposition::Rearm(next_interest(post)) && post.spec_interest() == next_interest(post)
}

impl ConnectionSlot {
    /// Moves what the transport has to send behind the pending bytes, and sets
    /// the interest that follows.
    fn rearm(&mut self) -> (d: Disposition)
        requires
            old(self).wf(),
        ensures
            final(self).wf(),
            same_connection(*old(self), *final(self)),
            rearmed(*final(self), d),
            final(self).spec_pending() == old(self).spec_pending() + old(self).spec_transport().spec_output(),
            final(self).spec_transport().spec_output() == Seq::<u8>::empty(),
            final(self).spec_transport().spec_input() == old(self).spec_transport().spec_input(),
            final(self).spec_transport().spec_tail_closed() == old(self).spec_transport().spec_tail_closed(),
            final(self).spec_transport().spec_head_closed() == old(self).spec_transport().spec_head_closed(),
    {
        let ghost before = self.spec_pending();
        let mut out = self.transport.pull();
        if out.len() > 0 {
            if self.written == self.write_buf.len() {
                self.write_buf = out;
                self.written = 0;
            } else {
                self.write_buf.append(&mut out);
            }
        }
        assert(self.spec_pending() =~= before + old(self).spec_transport().spec_output());
        self.interest = Interest {
            readable: self.transport.has_capacity(),
            writable: self.written < self.write_buf.len(),
            hup: self.interest.hup,
        };
        Disposition::Rearm(self.interest)
    }

    /// Handles a readable event, given the outcome of the read into the read
    /// buffer. Bytes read go to the transport, and what the transport has to
    /// send joins the pending bytes. A read of zero bytes, a read error, or a
    /// read that the transport cannot take whole, tears the connection down.
    pub fn readable(&mut self, ev: ReadEvent) -> (d: Disposition)
        requires
            old(self).wf(),
        ensures
            final(self).wf(),
            same_connection(*old(self), *final(self)),
            read_closes(*old(self), ev) ==> d == Disposition::Close,
            !read_closes(*old(self), ev) ==> rearmed(*final(self), d) && read_effect(*old(self), *final(self), ev),
    {
        match ev {
            ReadEvent::WouldBlock => {
                let d = self.rearm();
                assert(moved_on(
                    *old(self),
                    *self,
                    old(self).spec_transport().spec_input(),
                    old(self).spec_pending(),
                ));
                assert(read_effect(*old(self), *self, ev));
                assert(rearmed(*self, d));
                d
            },
            ReadEvent::Error => {
                self.transport.close();
                Disposition::Close
            },
            ReadEvent::Read(n) => {
                if n == 0 || n > READ_BUFFER_SIZE || self.transport.capacity() < n as i64 {
                    self.transport.close();
                    return Disposition::Close;
                }
                let data = slice_range(self.read_buf.as_slice(), 0, n);
                match self.transport.push(data) {
                    Ok(_) => {},
                    Err(_) => {
                        return Disposition::Close;
                    },
                }
                assert(self.read_buf@.subrange(0, n as int) =~= self.read_buf@.take(n as int));
                let ghost mid = *self;
                let d = self.rearm();
                assert(mid.spec_transport().spec_head_closed() == old(self).spec_transport().spec_head_closed());
                assert(mid.spec_transport().spec_output() == old(self).spec_transport().spec_output());
                assert(mid.spec_pending() == old(self).spec_pending());
                assert(old(self).spec_read_buf() == mid.read_buf@);
                assert(self.spec_transport().spec_input() == old(self).spec_transport().spec_input()
                    + old(self).spec_read_buf().take(n as int));
                assert(self.spec_pending() == old(self).spec_pending() + old(self).spec_transport().spec_output());
                assert(read_effect(*old(self), *self, ev));
                d
            },
        }
    }

    /// Handles a writable event, given the outcome of the write of the pending
    /// bytes. Bytes written leave the pending bytes; once none are left the
    /// write buffer is released. A write error, or a count beyond the pending
    /// bytes, tears the connection down.
    pub fn writable(&mut self, ev: WriteEvent) -> (d: Disposition)
        requires
            old(self).wf(),
        ensures
            final(self).wf(),
            same_connection(*old(self), *final(self)),
            write_closes(*old(self), ev) ==> d == Disposition::Close,
            !write_closes(*old(self), ev) ==> rearmed(*final(self), d) && write_effect(*old(self), *final(self), ev),
    {
        match ev {
            WriteEvent::WouldBlock => self.rearm(),
            WriteEvent::Error => {
                self.transport.close();
                Disposition::Close
            },
            WriteEvent::Wrote(n) => {
                if n > self.write_buf.len() - self.written {
                    self.transport.close();
                    return Disposition::Close;
                }
                let ghost before = self.spec_pending();
                self.written = self.written + n;
                if self.written == self.write_buf.len() {
                    self.write_buf = Vec::new();
                    self.written = 0;
                }
                assert(self.spec_pending() =~= before.skip(n as int));
                self.rearm()
            },
        }
    }

    /// Re-evaluates the interest after the protocol engine took input or
    /// queued output: readable again once the transport has room.
    pub fn resume(&mut self) -> (d: Disposition)
        requires
            old(self).wf(),
        ensures
            final(self).wf(),
            same_connection(*old(self), *final(self)),
            rearmed(*final(self), d),
            moved_on(
                *old(self),
                *final(self),
                old(self).spec_transport().spec_input(),
                old(self).spec_pending(),
            ),
    {
        self.rearm()
    }

    /// Engine side: takes the bytes received on this connection.
    pub fn take_input(&mut self) -> (r: Vec<u8>)
        requires
            old(self).wf(),
        ensures
            final(self).wf(),
            same_connection(*old(self), *final(self)),
            r@ == old(self).spec_transport().spec_input(),
            final(self).spec_transport().spec_input() == Seq::<u8>::empty(),
            final(self).spec_transport().spec_tail_closed() == old(self).spec_transport().spec_tail_closed(),
            final(self).spec_pending() == old(self).spec_pending(),
            final(self).spec_interest() == old(self).spec_interest(),
    {
        self.transport.take_input()
    }

    /// Engine side: queues bytes to send on this connection.
    pub fn queue_output(&mut self, bytes: &[u8])
        requires
            old(self).wf(),
        ensures
            final(self).wf(),
            same_connection(*old(self), *final(self)),
            final(self).spec_transport().spec_output() == if old(self).spec_transport().spec_head_closed() {
                old(self).spec_transport().spec_output()
            } else {
                old(self).spec_transport().spec_output() + bytes@
            },
            final(self).spec_transport().spec_input() == old(self).spec_transport().spec_input(),
            final(self).spec_transport().spec_tail_closed() == old(self).spec_transport().spec_tail_closed(),
            final(self).spec_pending() == old(self).spec_pending(),
            final(self).spec_interest() == old(self).spec_interest(),
    {
        self.transport.queue_output(bytes)
    }
}

/// What a readable event on `token` does to the table: no other connection
/// changes; an unknown token is ignored; the connection closes and leaves the
/// table exactly where `read_closes` says so, else it is re-armed as
/// `read_effect` says.
pub open spec fn read_handled(pre: ConnectionTable, post: ConnectionTable, token: usize, ev: ReadEvent, r: Outcome) -> bool {
    &&& post.spec_window() == pre.spec_window()
    &&& forall|u: int| u != token ==> #[trigger] post.spec_slot(u) == pre.spec_slot(u)
    &&& match pre.spec_slot(token as int) {
        None => r == Outcome::Ignored && post == pre,
        Some(s) => if read_closes(s, ev) {
            r == Outcome::Closed(token) && post.spec_slot(token as int).is_none()
        } else {
            match post.spec_slot(token as int) {
                Some(p) => r == Outcome::Rearm(token, next_interest(p)) && read_effect(s, p, ev),
                None => false,
            }
        },
    }
}

/// What a writable event on `token` does to the table, as `read_handled`
/// says for reads, with `write_closes` and `write_effect`.
pub open spec fn write_handled(pre: ConnectionTable, post: ConnectionTable, token: usize, ev: WriteEvent, r: Outcome) -> bool {
    &&& post.spec_window() == pre.spec_window()
    &&& forall|u: int| u != token ==> #[trigger] post.spec_slot(u) == pre.spec_slot(u)
    &&& match pre.spec_slot(token as int) {
        None => r == Outcome::Ignored && post == pre,
        Some(s) => if write_closes(s, ev) {
            r == Outcome::Closed(token) && post.spec_slot(token as int).is_none()
        } else {
            match post.spec_slot(token as int) {
                Some(p) => r == Outcome::Rearm(token, next_interest(p)) && write_effect(s, p, ev),
                None => false,
            }
        },
    }
}

/// The accepted connections, each under its own token. Token `LISTENER` is
/// never given out; a token is free again once its connection is torn down.
pub struct ConnectionTable {
    slots: Vec<Option<ConnectionSlot>>,
    window: usize,
}

impl ConnectionTable {
    /// The connection under `token`, if any.
    pub closed spec fn spec_slot(&self, token: int) -> Option<ConnectionSlot> {
        if 1 <= token <= self.slots@.len() {
            self.slots@[token - 1]
        } else {
            None
        }
    }

    /// The input window given to each new connection's transport.
    pub closed spec fn spec_window(&self) -> nat {
        self.window as nat
    }

    pub closed spec fn wf(&self) -> bool {
        &&& self.slots@.len() <= MAX_CONNECTIONS
        &&& self.window <= i64::MAX
        &&& forall|i: int|
            0 <= i < self.slots@.len() ==> match #[trigger] self.slots@[i] {
                Some(s) => s.wf() && s.spec_token() == i + 1,
                None => true,
            }
    }

    /// An empty table whose connections get transports of `window` bytes.
    pub fn new(window: usize) -> (r: ConnectionTable)
        requires
            window <= i64::MAX,
        ensures
            r.wf(),
            r.spec_window() == window,
            forall|t: int| r.spec_slot(t).is_none(),
    {
        ConnectionTable { slots: Vec::new(), window }
    }

    /// Handles an accept on the listening socket. On success the connection
    /// gets the lowest free token, a fresh transport and readable interest; no
    /// other connection changes. Where all `MAX_CONNECTIONS` tokens are taken
    /// the result is `Full` and nothing changes.
    pub fn accept(&mut self, ev: AcceptEvent) -> (r: Outcome)
        requires
            old(self).wf(),
        ensures
            final(self).wf(),
            final(self).spec_window() == old(self).spec_window(),
            ev == AcceptEvent::WouldBlock ==> r == Outcome::Idle && *final(self) == *old(self),
            ev == AcceptEvent::Accepted ==> match r {
                Outcome::Accepted(t) => {
                    &&& t != LISTENER
                    &&& old(self).spec_slot(t as int).is_none()
                    &&& forall|u: int| 1 <= u < t ==> old(self).spec_slot(u).is_some()
                    &&& match final(self).spec_slot(t as int) {
                        Some(s) => {
                            &&& s.spec_token() == t
                            &&& s.spec_interest() == (Interest { readable: true, writable: false, hup: false })
                            &&& s.spec_pending() == Seq::<u8>::empty()
                            &&& s.spec_transport().spec_input() == Seq::<u8>::empty()
                            &&& s.spec_transport().spec_window() == old(self).spec_window()
                            &&& !s.spec_transport().spec_tail_closed()
                        },
                        None => false,
                    }
                    &&& forall|u: int| u != t ==> #[trigger] final(self).spec_slot(u) == old(self).spec_slot(u)
                },
                Outcome::Full => {
                    &&& forall|u: int| 1 <= u <= MAX_CONNECTIONS ==> old(self).spec_slot(u).is_some()
                    &&& *final(self) == *old(self)
                },
                _ => false,
            },
    {
        match ev {
            AcceptEvent::WouldBlock => Outcome::Idle,
            AcceptEvent::Accepted => {
                let mut i: usize = 0;
                while i < self.slots.len()
                    invariant
                        self.wf(),
                        *self == *old(self),
                        ev == AcceptEvent::Accepted,
                        i <= self.slots@.len(),
                        forall|j: int| 0 <= j < i ==> self.slots@[j].is_some(),
                    decreases self.slots@.len() - i,
                {
                    if self.slots[i].is_none() {
                        let slot = ConnectionSlot::new(i + 1, self.window);
                        self.slots[i] = Some(slot);
                        assert(forall|j: int| 0 <= j < i ==> old(self).slots@[j].is_some());
                        return Outcome::Accepted(i + 1);
                    }
                    i = i + 1;
                }
                if self.slots.len() < MAX_CONNECTIONS {
                    let t = self.slots.len() + 1;
                    let slot = ConnectionSlot::new(t, self.window);
                    self.slots.push(Some(slot));
                    Outcome::Accepted(t)
                } else {
                    Outcome::Full
                }
            },
        }
    }

    /// The place of the connection under `token`, if there is one.
    fn index_of(&self, token: usize) -> (r: Option<usize>)
        requires
            self.wf(),
        ensures
            match r {
                Some(i) => i + 1 == token && i < self.slots@.len() && self.spec_slot(token as int).is_some(),
                None => self.spec_slot(token as int).is_none(),
            },
    {
        if token == 0 || token > self.slots.len() {
            return None;
        }
        let i = token - 1;
        if self.slots[i].is_some() {
            Some(i)
        } else {
            None
        }
    }

    /// Handles a readable event on the connection under `token`, as
    /// `ConnectionSlot::readable` does. A connection that closes leaves the
    /// table; no other connection changes.
    pub fn conn_readable(&mut self, token: usize, ev: ReadEvent) -> (r: Outcome)
        requires
            old(self).wf(),
        ensures
            final(self).wf(),
            read_handled(*old(self), *final(self), token, ev, r),
    {
        match self.index_of(token) {
            None => Outcome::Ignored,
            Some(i) => {
                let taken = self.slots[i].take();
                match taken {
                    Some(slot) => {
                        let mut slot = slot;
                        let d = slot.readable(ev);
                        self.settle(i, slot, d)
                    },
                    None => Outcome::Ignored,
                }
            },
        }
    }

    /// Handles a writable event on the connection under `token`, as
    /// `ConnectionSlot::writable` does. A connection that closes leaves the
    /// table; no other connection changes.
    pub fn conn_writable(&mut self, token: usize, ev: WriteEvent) -> (r: Outcome)
        requires
            old(self).wf(),
        ensures
            final(self).wf(),
            write_handled(*old(self), *final(self), token, ev, r),
    {
        match self.index_of(token) {
            None => Outcome::Ignored,
            Some(i) => {
                let taken = self.slots[i].take();
                match taken {
                    Some(slot) => {
                        let mut slot = slot;
                        let d = slot.writable(ev);
                        self.settle(i, slot, d)
                    },
                    None => Outcome::Ignored,
                }
            },
        }
    }

    /// Puts a slot back after its handler ran, or leaves its place empty where
    /// the handler closed it.
    fn settle(&mut self, i: usize, slot: ConnectionSlot, d: Disposition) -> (r: Outcome)
        requires
            i < old(self).slots@.len(),
            old(self).slots@.len() <= MAX_CONNECTIONS,
            old(self).window <= i64::MAX,
            forall|j: int|
                0 <= j < old(self).slots@.len() && j != i ==> match #[trigger] old(self).slots@[j] {
                    Some(s) => s.wf() && s.spec_token() == j + 1,
                    None => true,
                },
            slot.wf(),
            slot.spec_token() == i + 1,
            d == Disposition::Close || rearmed(slot, d),
        ensures
            final(self).wf(),
            final(self).window == old(self).window,
            final(self).slots@.len() == old(self).slots@.len(),
            forall|j: int| 0 <= j < old(self).slots@.len() && j != i ==> #[trigger] final(self).slots@[j] == old(self).slots@[j],
            d == Disposition::Close ==> r == Outcome::Closed((i + 1) as usize) && final(self).slots@[i as int].is_none(),
            d != Disposition::Close ==> match d {
                Disposition::Rearm(x) => r == Outcome::Rearm((i + 1) as usize, x) && final(self).slots@[i as int] == Some(slot),
                _ => false,
            },
    {
        match d {
            Disposition::Close => {
                self.slots[i] = None;
                Outcome::Closed(i + 1)
            },
            Disposition::Rearm(x) => {
                self.slots[i] = Some(slot);
                Outcome::Rearm(i + 1, x)
            },
        }
    }

    /// The connection under `token`, if any.
    pub fn slot(&self, token: usize) -> (r: Option<&ConnectionSlot>)
        requires
            self.wf(),
        ensures
            match self.spec_slot(token as int) {
                Some(s) => r == Some(&s),
                None => r.is_none(),
            },
    {
        match self.index_of(token) {
            Some(i) => self.slots[i].as_ref(),
            None => None,
        }
    }

    /// The read buffer of the connection under `token`, for the caller's read.
    pub fn read_buffer_mut(&mut self, token: usize) -> (r: Option<&mut [u8]>)
        requires
            old(self).wf(),
        ensures
            r.is_some() == old(self).spec_slot(token as int).is_some(),
            match (r, old(self).spec_slot(token as int)) {
                (Some(b), Some(s)) => b@ == s.spec_read_buf() && b@.len() == READ_BUFFER_SIZE,
                _ => true,
            },
    {
        match self.index_of(token) {
            Some(i) => match self.slots[i].as_mut() {
                Some(s) => Some(s.read_buffer_mut()),
                None => None,
            },
            None => None,
        }
    }

    /// How many connections the table holds.
    pub fn len(&self) -> (r: usize)
        requires
            self.wf(),
        ensures
            r == Set::new(|t: int| self.spec_slot(t).is_some()).len(),
    {
        let mut n: usize = 0;
        let mut i: usize = 0;
        proof {
            assert(Set::new(|t: int| 1 <= t <= 0 && self.spec_slot(t).is_some()) =~= Set::<int>::empty());
        }
        while i < self.slots.len()
            invariant
                self.wf(),
                i <= self.slots@.len(),
                n <= i,
                n == Set::new(|t: int| 1 <= t <= i && self.spec_slot(t).is_some()).len(),
            decreases self.slots@.len() - i,
        {
            let ghost before = Set::new(|t: int| 1 <= t <= i && self.spec_slot(t).is_some());
            let ghost after = Set::new(|t: int| 1 <= t <= i + 1 && self.spec_slot(t).is_some());
            proof {
                vstd::set_lib::lemma_int_range(1, i + 1);
                vstd::set_lib::lemma_len_subset(before, vstd::set_lib::set_int_range(1, i + 1));
            }
            if self.slots[i].is_some() {
                proof {
                    assert(after =~= before.insert(i + 1));
                }
                n = n + 1;
            } else {
                proof {
                    assert(after =~= before);
                }
            }
            i = i + 1;
        }
        proof {
            assert(Set::new(|t: int| 1 <= t <= i && self.spec_slot(t).is_some()) =~= Set::new(
                |t: int| self.spec_slot(t).is_some(),
            ));
        }
        n
    }

    /// Tears down the connection under `token`: its slot, buffers and
    /// transport go. No other connection changes.
    pub fn close(&mut self, token: usize) -> (r: Outcome)
        requires
            old(self).wf(),
        ensures
            final(self).wf(),
            final(self).spec_window() == old(self).spec_window(),
            forall|u: int| u != token ==> #[trigger] final(self).spec_slot(u) == old(self).spec_slot(u),
            final(self).spec_slot(token as int).is_none(),
            old(self).spec_slot(token as int).is_none() ==> r == Outcome::Ignored,
            old(self).spec_slot(token as int).is_some() ==> r == Outcome::Closed(token),
    {
        match self.index_of(token) {
            None => Outcome::Ignored,
            Some(i) => {
                self.slots[i] = None;
                Outcome::Closed(token)
            },
        }
    }

    /// Re-evaluates the interest of the connection under `token`, as
    /// `ConnectionSlot::resume` does.
    pub fn resume(&mut self, token: usize) -> (r: Outcome)
        requires
            old(self).wf(),
        ensures
            final(self).wf(),
            final(self).spec_window() == old(self).spec_window(),
            forall|u: int| u != token ==> #[trigger] final(self).spec_slot(u) == old(self).spec_slot(u),
            match old(self).spec_slot(token as int) {
                None => r == Outcome::Ignored && *final(self) == *old(self),
                Some(s) => match r {
                    Outcome::Rearm(t, i) => t == token && match final(self).spec_slot(token as int) {
                        Some(post) => {
                            &&& post.spec_interest() == i
                            &&& i == next_interest(post)
                            &&& post.spec_transport().spec_input() == s.spec_transport().spec_input()
                            &&& post.spec_pending() == s.spec_pending() + s.spec_transport().spec_output()
                        },
                        None => false,
                    },
                    _ => false,
                },
            },
    {
        match self.index_of(token) {
            None => Outcome::Ignored,
            Some(i) => {
                let taken = self.slots[i].take();
                match taken {
                    Some(slot) => {
                        let mut slot = slot;
                        let d = slot.resume();
                        self.settle(i, slot, d)
                    },
                    None => Outcome::Ignored,
                }
            },
        }
    }

    /// Engine side: takes the bytes received on the connection under `token`.
    pub fn take_input(&mut self, token: usize) -> (r: Option<Vec<u8>>)
        requires
            old(self).wf(),
        ensures
            final(self).wf(),
            final(self).spec_window() == old(self).spec_window(),
            forall|u: int| u != token ==> #[trigger] final(self).spec_slot(u) == old(self).spec_slot(u),
            match old(self).spec_slot(token as int) {
                None => r.is_none() && *final(self) == *old(self),
                Some(s) => match (r, final(self).spec_slot(token as int)) {
                    (Some(b), Some(post)) => {
                        &&& b@ == s.spec_transport().spec_input()
                        &&& post.spec_transport().spec_input() == Seq::<u8>::empty()
                        &&& post.spec_pending() == s.spec_pending()
                        &&& post.spec_interest() == s.spec_interest()
                    },
                    _ => false,
                },
            },
    {
        match self.index_of(token) {
            None => None,
            Some(i) => {
                let taken = self.slots[i].take();
                match taken {
                    Some(slot) => {
                        let mut slot = slot;
                        let b = slot.take_input();
                        self.slots[i] = Some(slot);
                        Some(b)
                    },
                    None => None,
                }
            },
        }
    }

    /// Engine side: queues bytes to send on the connection under `token`;
    /// `resume` then moves them to the pending bytes. False where no
    /// connection has that token.
    pub fn queue_output(&mut self, token: usize, bytes: &[u8]) -> (r: bool)
        requires
            old(self).wf(),
        ensures
            final(self).wf(),
            final(self).spec_window() == old(self).spec_window(),
            forall|u: int| u != token ==> #[trigger] final(self).spec_slot(u) == old(self).spec_slot(u),
            r == old(self).spec_slot(token as int).is_some(),
            match (old(self).spec_slot(token as int), final(self).spec_slot(token as int)) {
                (None, _) => *final(self) == *old(self),
                (Some(s), Some(post)) => {
                    &&& post.spec_transport().spec_output() == if s.spec_transport().spec_head_closed() {
                        s.spec_transport().spec_output()
                    } else {
                        s.spec_transport().spec_output() + bytes@
                    }
                    &&& post.spec_pending() == s.spec_pending()
                    &&& post.spec_interest() == s.spec_interest()
                },
                _ => false,
            },
    {
        match self.index_of(token) {
            None => false,
            Some(i) => {
                let taken = self.slots[i].take();
                match taken {
                    Some(slot) => {
                        let mut slot = slot;
                        slot.queue_output(bytes);
                        self.slots[i] = Some(slot);
                        true
                    },
                    None => false,
                }
            },
        }
    }

    /// Handles the outcome of the operation that `route` chose for an event
    /// on `token`: exactly one handler runs. An accept outcome belongs to the
    /// listener, a read or write outcome to a connection; any other pairing
    /// is ignored and changes nothing.
    pub fn dispatch(&mut self, token: usize, ev: IoEvent) -> (r: Outcome)
        requires
            old(self).wf(),
        ensures
            final(self).wf(),
            final(self).spec_window() == old(self).spec_window(),
            token == LISTENER ==> match ev {
                IoEvent::Accept(AcceptEvent::WouldBlock) => r == Outcome::Idle && *final(self) == *old(self),
                IoEvent::Accept(AcceptEvent::Accepted) => match r {
                    Outcome::Accepted(t) => t != LISTENER && old(self).spec_slot(t as int).is_none()
                        && final(self).spec_slot(t as int).is_some(),
                    Outcome::Full => *final(self) == *old(self),
                    _ => false,
                },
                _ => r == Outcome::Ignored && *final(self) == *old(self),
            },
            token != LISTENER ==> match ev {
                IoEvent::Accept(_) => r == Outcome::Ignored && *final(self) == *old(self),
                IoEvent::Read(e) => read_handled(*old(self), *final(self), token, e, r),
                IoEvent::Write(e) => write_handled(*old(self), *final(self), token, e, r),
            },
    {
        if token == LISTENER {
            match ev {
                IoEvent::Accept(a) => self.accept(a),
                _ => Outcome::Ignored,
            }
        } else {
            match ev {
                IoEvent::Accept(_) => Outcome::Ignored,
                IoEvent::Read(e) => self.conn_readable(token, e),
                IoEvent::Write(e) => self.conn_writable(token, e),
            }
        }
    }
} // impl ConnectionTable

/// A view of `s[a..b]`.
fn slice_range(s: &[u8], a: usize, b: usize) -> (r: &[u8])
    requires
        a <= b <= s@.len(),
    ensures
        r@ == s@.subrange(a as int, b as int),
{
    let (_, tail) = s.split_at(a);
    let (mid, _) = tail.split_at(b - a);
    assert(mid@ =~= s@.subrange(a as int, b as int));
    mid
}

} // verus!
