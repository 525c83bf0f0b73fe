use rmux_core::event::{
    new_data_event, new_fin_event, new_ping_event, new_shutdown_event, new_window_update_event,
    Event, Header, FLAG_DATA, FLAG_FIN, FLAG_PING, FLAG_SYN, FLAG_WIN_UPDATE,
};
use rmux_core::handshake::SessionError;
use rmux_core::session::Session;
use rmux_core::stream::StreamState;

fn session(now: u64) -> Session {
    Session::new(String::from("main"), 7, 1, now, 30, 1024, 64)
}

fn syn(id: u32) -> Event {
    Event { header: Header::new(FLAG_SYN, id, 0), body: Vec::new(), local: false }
}

#[test]
fn deadline_expiry() {
    let mut s = session(1000);
    assert_eq!(s.deadline, 1060);
    let id = s.create_stream(100, 1000).unwrap();
    s.dispatch(syn(2), 1001).unwrap();
    assert_eq!(s.streams.len(), 2);
    assert_eq!(s.tick(1060), Ok(()));
    assert_eq!(s.tick(1061), Err(SessionError::SessionExpired));
    assert_eq!(s.closed, Some(SessionError::SessionExpired));
    assert!(s.streams.is_empty());
    assert!(s.outbound.is_empty());
    assert_eq!(s.check_open(), Err(SessionError::SessionClosed));
    assert_eq!(s.dispatch(new_data_event(id, b"x", false), 1062), Err(SessionError::SessionClosed));
    assert_eq!(s.create_stream(100, 1062), None);
}

#[test]
fn idle_session_sends_one_ping() {
    let mut s = session(0);
    assert_eq!(s.tick(10), Ok(()));
    assert!(s.outbound.is_empty());
    assert_eq!(s.tick(30), Ok(()));
    assert_eq!(s.outbound.len(), 1);
    assert_eq!(s.outbound[0].header.flags(), FLAG_PING);
    assert_eq!(s.outbound[0].header.stream_id, 0);
    assert_eq!(s.tick(31), Ok(()));
    assert_eq!(s.tick(59), Ok(()));
    assert_eq!(s.outbound.len(), 1);
    let ev = s.next_outbound(59).unwrap();
    assert_eq!(ev.header.flags(), FLAG_PING);
    assert_eq!(s.last_send, 59);
    assert_eq!(s.tick(60), Ok(()));
    assert!(s.outbound.is_empty());
}

#[test]
fn local_streams_take_odd_ids() {
    let mut s = session(0);
    assert_eq!(s.create_stream(10, 0), Some(1));
    assert_eq!(s.create_stream(10, 0), Some(3));
    assert_eq!(s.create_stream(10, 0), Some(5));
    let ids: Vec<u32> = s.outbound.iter().map(|e| e.header.stream_id).collect();
    assert_eq!(ids, vec![1, 3, 5]);
    assert!(s.outbound.iter().all(|e| e.header.flags() == FLAG_SYN));
    assert!(s.streams.iter().all(|st| st.state == StreamState::Open));
}

#[test]
fn full_queue_refuses_new_stream() {
    let mut s = Session::new(String::from("q"), 1, 1, 0, 30, 1024, 1);
    assert_eq!(s.create_stream(10, 0), Some(1));
    assert_eq!(s.create_stream(10, 0), None);
    assert!(!s.enqueue(new_ping_event(0, true)));
    s.next_outbound(1).unwrap();
    assert!(s.enqueue(new_ping_event(0, true)));
}

#[test]
fn dispatch_routes_by_stream() {
    let mut s = session(0);
    s.dispatch(syn(2), 1).unwrap();
    s.dispatch(syn(4), 1).unwrap();
    s.dispatch(new_data_event(4, b"four", false), 2).unwrap();
    s.dispatch(new_data_event(2, b"two", false), 2).unwrap();
    s.dispatch(new_window_update_event(2, 50, false), 2).unwrap();
    let two = &s.streams[s.find(2).unwrap()];
    assert_eq!(two.inbound, b"two".to_vec());
    assert_eq!(two.send_credit, 1024 + 50);
    assert_eq!(s.streams[s.find(4).unwrap()].inbound, b"four".to_vec());
    s.dispatch(new_fin_event(4, false), 3).unwrap();
    assert_eq!(s.streams[s.find(4).unwrap()].state, StreamState::HalfClosedRemote);
}

#[test]
fn dispatch_drops_unknown_streams_and_flags() {
    let mut s = session(0);
    s.dispatch(new_data_event(99, b"lost", false), 1).unwrap();
    s.dispatch(new_fin_event(99, false), 1).unwrap();
    s.dispatch(new_ping_event(0, false), 1).unwrap();
    let odd = Event { header: Header { flag_len: 0x4000_0000, stream_id: 1 }, body: Vec::new(), local: false };
    s.dispatch(odd, 1).unwrap();
    assert!(s.streams.is_empty());
    assert!(s.closed.is_none());
}

#[test]
fn duplicate_syn_is_a_violation() {
    let mut s = session(0);
    s.dispatch(syn(2), 1).unwrap();
    assert_eq!(s.dispatch(syn(2), 1), Err(SessionError::ProtocolViolation));
    assert_eq!(s.closed, Some(SessionError::ProtocolViolation));
    assert!(s.streams.is_empty());
}

#[test]
fn overrun_is_a_violation() {
    let mut s = Session::new(String::from("w"), 1, 1, 0, 30, 4, 8);
    s.dispatch(syn(2), 1).unwrap();
    assert_eq!(s.dispatch(new_data_event(2, b"12345", false), 1), Err(SessionError::ProtocolViolation));
    assert_eq!(s.closed, Some(SessionError::ProtocolViolation));
}

#[test]
fn peer_shutdown_closes_session() {
    let mut s = session(0);
    s.create_stream(10, 0).unwrap();
    assert_eq!(s.dispatch(new_shutdown_event(0, false), 1), Err(SessionError::SessionClosed));
    assert_eq!(s.closed, Some(SessionError::SessionClosed));
    assert!(s.streams.is_empty());
    assert_eq!(s.tick(2), Err(SessionError::SessionClosed));
}

#[test]
fn closed_drained_streams_are_collected() {
    let mut s = session(0);
    s.dispatch(syn(2), 1).unwrap();
    s.dispatch(syn(4), 1).unwrap();
    s.dispatch(new_fin_event(2, false), 2).unwrap();
    let i = s.find(2).unwrap();
    s.streams[i].close_local(2).unwrap();
    assert_eq!(s.streams[i].state, StreamState::Closed);
    s.tick(3).unwrap();
    assert_eq!(s.streams.len(), 1);
    assert!(s.find(2).is_none());
    assert!(s.find(4).is_some());
}

#[test]
fn round_trip_data_through_sessions() {
    let mut a = session(0);
    let mut b = session(0);
    a.dispatch(syn(101), 1).unwrap();
    b.dispatch(syn(101), 1).unwrap();
    assert_eq!(a.write_stream(101, b"hello,world", 32 * 1024, 2), Ok(11));
    assert_eq!(a.outbound.len(), 1);
    let ev = a.next_outbound(2).unwrap();
    assert_eq!(ev.header.flags(), FLAG_DATA);
    assert_eq!(ev.header.stream_id, 101);
    assert_eq!(ev.header.len(), 11);
    b.dispatch(ev, 3).unwrap();
    let echo = b.read_stream(101, 64).unwrap();
    assert_eq!(b.write_stream(101, &echo, 32 * 1024, 3), Ok(11));
    a.dispatch(b.next_outbound(3).unwrap(), 4).unwrap();
    assert_eq!(a.read_stream(101, 64).unwrap(), b"hello,world".to_vec());
}

#[test]
fn session_write_takes_one_segment() {
    let mut s = session(0);
    let id = s.create_stream(100, 0).unwrap();
    s.next_outbound(0).unwrap();
    assert_eq!(s.write_stream(id, &[1u8; 50], 16, 1), Ok(16));
    assert_eq!(s.write_stream(id, &[1u8; 50], 128, 1), Ok(50));
    assert_eq!(s.write_stream(id, &[1u8; 50], 128, 1), Ok(34));
    assert_eq!(s.write_stream(id, &[1u8; 50], 128, 1), Ok(0));
    assert_eq!(s.outbound.len(), 3);
    assert_eq!(s.write_stream(77, b"x", 16, 1), Err(SessionError::SessionClosed));
}

#[test]
fn session_read_queues_window_update() {
    let mut s = Session::new(String::from("r"), 1, 1, 0, 30, 8, 8);
    s.dispatch(syn(2), 0).unwrap();
    s.dispatch(new_data_event(2, b"abcdefgh", false), 0).unwrap();
    assert_eq!(s.read_stream(2, 3).unwrap(), b"abc".to_vec());
    assert!(s.outbound.is_empty());
    assert_eq!(s.read_stream(2, 3).unwrap(), b"def".to_vec());
    assert_eq!(s.outbound.len(), 1);
    assert_eq!(s.outbound[0].header.flags(), FLAG_WIN_UPDATE);
    assert_eq!(s.outbound[0].header.len(), 6);
    assert_eq!(s.read_stream(9, 3), Err(SessionError::SessionClosed));
}

#[test]
fn session_close_queues_fin_and_retires_id() {
    let mut s = session(0);
    s.dispatch(syn(2), 0).unwrap();
    assert_eq!(s.close_stream(2, 1), Ok(true));
    assert_eq!(s.outbound.last().unwrap().header.flags(), FLAG_FIN);
    assert_eq!(s.close_stream(2, 1), Ok(false));
    s.dispatch(new_fin_event(2, false), 2).unwrap();
    s.tick(3).unwrap();
    assert!(s.find(2).is_none());
    assert_eq!(s.retired, vec![2]);
    assert_eq!(s.dispatch(syn(2), 4), Err(SessionError::ProtocolViolation));
}
