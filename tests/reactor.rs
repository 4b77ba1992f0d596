use rust_proton::endpoint::{Connection, EndpointState, State};
use rust_proton::reactor::{
    route, AcceptEvent, ConnectionTable, Disposition, Interest, IoEvent, Outcome, ReadEvent, Readiness,
    Route, WriteEvent, LISTENER, MAX_CONNECTIONS, READ_BUFFER_SIZE,
};
use rust_proton::sys::{StateFlags, LOCAL_ACTIVE_BITS, REMOTE_CLOSED_BITS};
use rust_proton::transport::Transport;

fn readable_only() -> Interest {
    Interest { readable: true, writable: false, hup: false }
}

fn read(table: &mut ConnectionTable, token: usize, bytes: &[u8]) -> Outcome {
    let buf = table.read_buffer_mut(token).unwrap();
    buf[..bytes.len()].copy_from_slice(bytes);
    table.conn_readable(token, ReadEvent::Read(bytes.len()))
}

#[test]
fn accept_adds_one_readable_connection() {
    let mut table = ConnectionTable::new(64);
    assert_eq!(0, table.len());
    let r = table.dispatch(LISTENER, IoEvent::Accept(AcceptEvent::Accepted));
    assert_eq!(Outcome::Accepted(1), r);
    assert_eq!(1, table.len());
    let slot = table.slot(1).unwrap();
    assert_eq!(1, slot.token());
    assert_eq!(readable_only(), slot.interest());
    assert!(slot.pending().is_empty());
    assert!(table.slot(LISTENER).is_none());
}

#[test]
fn accept_would_block_is_idle() {
    let mut table = ConnectionTable::new(64);
    assert_eq!(Outcome::Idle, table.dispatch(LISTENER, IoEvent::Accept(AcceptEvent::WouldBlock)));
    assert_eq!(0, table.len());
}

#[test]
fn freed_token_is_reused() {
    let mut table = ConnectionTable::new(64);
    assert_eq!(Outcome::Accepted(1), table.accept(AcceptEvent::Accepted));
    assert_eq!(Outcome::Accepted(2), table.accept(AcceptEvent::Accepted));
    assert_eq!(Outcome::Closed(1), table.close(1));
    assert_eq!(Outcome::Ignored, table.close(1));
    assert_eq!(Outcome::Accepted(1), table.accept(AcceptEvent::Accepted));
    assert_eq!(Outcome::Accepted(3), table.accept(AcceptEvent::Accepted));
}

#[test]
fn full_table_refuses_accept() {
    let mut table = ConnectionTable::new(64);
    for t in 1..=MAX_CONNECTIONS {
        assert_eq!(Outcome::Accepted(t), table.accept(AcceptEvent::Accepted));
    }
    assert_eq!(Outcome::Full, table.accept(AcceptEvent::Accepted));
    assert_eq!(MAX_CONNECTIONS, table.len());
}

#[test]
fn route_by_token_and_kind() {
    assert_eq!(Route::Accept, route(LISTENER, Readiness::Readable));
    assert_eq!(Route::Read(3), route(3, Readiness::Readable));
    assert_eq!(Route::Write(3), route(3, Readiness::Writable));
}

#[test]
fn mismatched_events_are_ignored() {
    let mut table = ConnectionTable::new(64);
    table.accept(AcceptEvent::Accepted);
    assert_eq!(Outcome::Ignored, table.dispatch(LISTENER, IoEvent::Read(ReadEvent::WouldBlock)));
    assert_eq!(Outcome::Ignored, table.dispatch(1, IoEvent::Accept(AcceptEvent::Accepted)));
    assert_eq!(Outcome::Ignored, table.dispatch(9, IoEvent::Read(ReadEvent::Read(1))));
    assert_eq!(1, table.len());
}

#[test]
fn read_feeds_transport_and_keeps_readable() {
    let mut table = ConnectionTable::new(64);
    table.accept(AcceptEvent::Accepted);
    assert_eq!(Outcome::Rearm(1, readable_only()), read(&mut table, 1, b"hello"));
    assert_eq!(59, table.slot(1).unwrap().transport().capacity());
    assert_eq!(Some(b"hello".to_vec()), table.take_input(1));
    assert_eq!(
        Outcome::Rearm(1, readable_only()),
        table.dispatch(1, IoEvent::Read(ReadEvent::WouldBlock))
    );
}

#[test]
fn exhausted_capacity_withdraws_readable_until_room_returns() {
    let mut table = ConnectionTable::new(4);
    table.accept(AcceptEvent::Accepted);
    assert_eq!(4, table.slot(1).unwrap().read_limit());
    let no_read = Interest { readable: false, writable: false, hup: false };
    assert_eq!(Outcome::Rearm(1, no_read), read(&mut table, 1, b"abcd"));
    assert!(!table.slot(1).unwrap().transport().has_capacity());
    assert_eq!(0, table.slot(1).unwrap().read_limit());
    assert_eq!(Outcome::Rearm(1, no_read), table.conn_writable(1, WriteEvent::WouldBlock));
    assert_eq!(Outcome::Rearm(1, no_read), table.resume(1));
    assert_eq!(Some(b"abcd".to_vec()), table.take_input(1));
    assert_eq!(Outcome::Rearm(1, readable_only()), table.resume(1));
}

#[test]
fn short_write_keeps_writable_then_drain_turns_readable() {
    let mut table = ConnectionTable::new(64);
    table.accept(AcceptEvent::Accepted);
    assert!(table.queue_output(1, b"0123456789"));
    let both = Interest { readable: true, writable: true, hup: false };
    assert_eq!(Outcome::Rearm(1, both), table.resume(1));
    assert_eq!(b"0123456789".to_vec(), table.slot(1).unwrap().pending().to_vec());
    assert_eq!(Outcome::Rearm(1, both), table.conn_writable(1, WriteEvent::Wrote(4)));
    assert_eq!(b"456789".to_vec(), table.slot(1).unwrap().pending().to_vec());
    assert_eq!(Outcome::Rearm(1, both), table.conn_writable(1, WriteEvent::WouldBlock));
    assert_eq!(Outcome::Rearm(1, readable_only()), table.conn_writable(1, WriteEvent::Wrote(6)));
    assert!(table.slot(1).unwrap().pending().is_empty());
}

#[test]
fn write_beyond_pending_or_error_closes() {
    let mut table = ConnectionTable::new(64);
    table.accept(AcceptEvent::Accepted);
    table.accept(AcceptEvent::Accepted);
    table.queue_output(1, b"ab");
    table.resume(1);
    assert_eq!(Outcome::Closed(1), table.conn_writable(1, WriteEvent::Wrote(3)));
    assert_eq!(Outcome::Closed(2), table.dispatch(2, IoEvent::Write(WriteEvent::Error)));
    assert_eq!(0, table.len());
}

#[test]
fn zero_byte_read_tears_down_only_that_connection() {
    let mut table = ConnectionTable::new(64);
    table.accept(AcceptEvent::Accepted);
    table.accept(AcceptEvent::Accepted);
    table.queue_output(2, b"xy");
    table.resume(2);
    let before = table.slot(2).unwrap().interest();
    let pending_before = table.slot(2).unwrap().pending().to_vec();
    assert_eq!(Outcome::Closed(1), table.dispatch(1, IoEvent::Read(ReadEvent::Read(0))));
    assert!(table.slot(1).is_none());
    let other = table.slot(2).unwrap();
    assert_eq!(before, other.interest());
    assert_eq!(pending_before, other.pending().to_vec());
    assert_eq!(1, table.len());
}

#[test]
fn read_error_tears_down() {
    let mut table = ConnectionTable::new(64);
    table.accept(AcceptEvent::Accepted);
    assert_eq!(Outcome::Closed(1), table.conn_readable(1, ReadEvent::Error));
    assert_eq!(Outcome::Ignored, table.conn_readable(1, ReadEvent::WouldBlock));
}

#[test]
fn read_beyond_capacity_tears_down() {
    let mut table = ConnectionTable::new(2);
    table.accept(AcceptEvent::Accepted);
    assert_eq!(Outcome::Closed(1), read(&mut table, 1, b"abc"));
    table.accept(AcceptEvent::Accepted);
    assert_eq!(Outcome::Closed(1), table.conn_readable(1, ReadEvent::Read(READ_BUFFER_SIZE + 1)));
}

#[test]
fn transport_push_capacity_pull_close() {
    let mut t = Transport::with_window(3);
    assert_eq!(3, t.capacity());
    assert_eq!(Ok(2), t.push(b"ab"));
    assert_eq!(Ok(1), t.push(b"cd"));
    assert_eq!(0, t.capacity());
    assert!(!t.has_capacity());
    t.queue_output(b"out");
    assert_eq!(b"out".to_vec(), t.pull());
    assert!(t.pull().is_empty());
    assert_eq!(b"abc".to_vec(), t.take_input());
    t.close_tail();
    assert_eq!(-1, t.capacity());
    assert_eq!(Err(rust_proton::sys::ErrorCode::Eos), t.push(b"x"));
    t.close_head();
    t.queue_output(b"late");
    assert!(t.pull().is_empty());
}

#[test]
fn state_flags_split_by_side() {
    let f = StateFlags { bits: 0b0010_0010 };
    assert_eq!(StateFlags { bits: 0b0000_0010 }, f.local_state());
    assert_eq!(StateFlags { bits: 0b0010_0000 }, f.remote_state());
}

#[test]
fn endpoint_state_reads_each_side() {
    assert_eq!(EndpointState(State::Active, State::Closed), EndpointState::from_bits(LOCAL_ACTIVE_BITS | REMOTE_CLOSED_BITS));
    assert_eq!(EndpointState(State::Uninit, State::Active), EndpointState::from_bits(0b01_0001));
    assert_eq!(EndpointState(State::Uninit, State::Uninit), EndpointState::from_bits(0));
}

#[test]
fn endpoint_state_round_trips_through_flags() {
    let states = [State::Uninit, State::Active, State::Closed];
    for l in states {
        for r in states {
            let s = EndpointState(l, r);
            assert_eq!(s, EndpointState::from_bits(s.as_bits()));
            assert_eq!(s, EndpointState::from_flags(&s.as_flags()));
        }
    }
    assert_eq!(0b01_0010, EndpointState(State::Active, State::Active).as_bits());
    assert!(State::Active.is_active());
    assert!(State::Closed.is_closed());
    assert!(!State::Uninit.is_active());
}

#[test]
fn new_connection_is_uninitialised() {
    assert_eq!(EndpointState(State::Uninit, State::Uninit), Connection::new().state());
}

#[test]
fn rearm_disposition_names_interest() {
    let d = Disposition::Rearm(Interest::readable());
    assert_eq!(Disposition::Rearm(readable_only()), d);
    assert!(Interest::hup().hup);
}

#[test]
fn default_transport_window() {
    let t = Transport::new();
    assert_eq!(rust_proton::transport::DEFAULT_WINDOW as i64, t.capacity());
    assert!(t.has_capacity());
}
