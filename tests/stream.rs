use rmux_core::event::{FLAG_DATA, FLAG_FIN, FLAG_SYN, FLAG_WIN_UPDATE};
use rmux_core::handshake::SessionError;
use rmux_core::stream::{Stream, StreamState};

fn open_pair(id: u32, window: u32) -> (Stream, Stream) {
    let mut a = Stream::new(id, window, window, 0);
    let mut b = Stream::new(id, window, window, 0);
    let syn = a.open_local(1).unwrap();
    assert_eq!(syn.header.flags(), FLAG_SYN);
    assert_eq!(syn.header.stream_id, id);
    assert!(b.open_remote(1));
    (a, b)
}

#[test]
fn round_trip_data() {
    let (mut a, mut b) = open_pair(101, 65536);
    let (evs, n) = a.write(b"hello,world", 32 * 1024, 2);
    assert_eq!(n, 11);
    assert_eq!(evs.len(), 1);
    assert_eq!(evs[0].header.flags(), FLAG_DATA);
    assert_eq!(evs[0].header.stream_id, 101);
    assert_eq!(evs[0].header.len(), 11);
    assert_eq!(a.send_credit, 65536 - 11);
    // the peer echoes the body back
    b.on_remote_data(&evs[0].body, 3).unwrap();
    let (echo, _) = b.read(100);
    let (back, _) = b.write(&echo, 32 * 1024, 4);
    for ev in &back {
        a.on_remote_data(&ev.body, 5).unwrap();
    }
    let (got, _) = a.read(100);
    assert_eq!(got, b"hello,world".to_vec());
}

#[test]
fn writes_are_segmented_in_order() {
    let (mut a, mut b) = open_pair(3, 1000);
    let data: Vec<u8> = (0..250u32).map(|i| i as u8).collect();
    let (evs, n) = a.write(&data, 64, 1);
    assert_eq!(n, 250);
    assert_eq!(evs.iter().map(|e| e.body.len()).collect::<Vec<_>>(), vec![64, 64, 64, 58]);
    for ev in &evs {
        b.on_remote_data(&ev.body, 2).unwrap();
    }
    assert_eq!(b.inbound, data);
}

#[test]
fn write_stops_at_credit() {
    let mut a = Stream::new(5, 100, 10, 0);
    a.open_local(0).unwrap();
    let (evs, n) = a.write(b"0123456789abcdef", 4, 1);
    assert_eq!(n, 10);
    assert_eq!(evs.len(), 3);
    assert_eq!(a.send_credit, 0);
    let (evs, n) = a.write(b"more", 4, 2);
    assert_eq!((evs.len(), n), (0, 0));
    a.on_window_update(6, 3);
    assert_eq!(a.send_credit, 6);
    a.on_window_update(u32::MAX, 3);
    assert_eq!(a.send_credit, u32::MAX);
}

#[test]
fn inbound_never_exceeds_window() {
    let (_, mut b) = open_pair(7, 10);
    b.on_remote_data(b"12345678", 1).unwrap();
    assert_eq!(b.on_remote_data(b"abc", 2), Err(SessionError::ProtocolViolation));
    assert_eq!(b.inbound, b"12345678".to_vec());
    b.on_remote_data(b"ab", 2).unwrap();
    assert_eq!(b.inbound.len(), 10);
}

#[test]
fn window_update_after_half_window_read() {
    let (_, mut b) = open_pair(9, 10);
    b.on_remote_data(b"0123456789", 1).unwrap();
    let (got, upd) = b.read(3);
    assert_eq!(got, b"012".to_vec());
    assert!(upd.is_none());
    assert_eq!(b.unacked, 3);
    // unacked bytes still count against what the peer may send
    assert_eq!(b.on_remote_data(b"x", 2), Err(SessionError::ProtocolViolation));
    let (got, upd) = b.read(2);
    assert_eq!(got, b"34".to_vec());
    let upd = upd.unwrap();
    assert_eq!(upd.header.flags(), FLAG_WIN_UPDATE);
    assert_eq!(upd.header.len(), 5);
    assert_eq!(b.unacked, 0);
    b.on_remote_data(b"abcde", 3).unwrap();
    assert_eq!(b.inbound, b"56789abcde".to_vec());
}

#[test]
fn lifecycle_transitions() {
    let (mut a, mut b) = open_pair(11, 10);
    let fin = a.close_local(2).unwrap();
    assert_eq!(fin.header.flags(), FLAG_FIN);
    assert_eq!(a.state, StreamState::HalfClosedLocal);
    assert!(a.close_local(2).is_none());
    let (evs, n) = a.write(b"late", 4, 3);
    assert_eq!((evs.len(), n), (0, 0));
    b.on_remote_fin(2).unwrap();
    assert_eq!(b.state, StreamState::HalfClosedRemote);
    assert_eq!(b.on_remote_data(b"x", 3), Err(SessionError::ProtocolViolation));
    b.close_local(3).unwrap();
    assert_eq!(b.state, StreamState::Closed);
    a.on_remote_fin(4).unwrap();
    assert_eq!(a.state, StreamState::Closed);
    assert!(a.is_drained());
    assert_eq!(a.on_remote_fin(5), Err(SessionError::ProtocolViolation));
}

#[test]
fn idle_stream_refuses_fin_and_data() {
    let mut s = Stream::new(1, 10, 10, 0);
    assert!(s.close_local(1).is_none());
    assert_eq!(s.on_remote_fin(1), Err(SessionError::ProtocolViolation));
    assert_eq!(s.on_remote_data(b"a", 1), Err(SessionError::ProtocolViolation));
    assert!(s.open_remote(1));
    assert!(!s.open_remote(1));
    assert!(s.open_local(1).is_none());
}

#[test]
fn abandon_closes_and_sends_fin_once() {
    let (mut a, _) = open_pair(13, 10);
    let fin = a.abandon(2).unwrap();
    assert_eq!(fin.header.flags(), FLAG_FIN);
    assert_eq!(a.state, StreamState::Closed);
    assert!(a.abandon(3).is_none());
    let (_, mut b) = open_pair(15, 10);
    b.close_local(1).unwrap();
    assert!(b.abandon(2).is_none());
    assert_eq!(b.state, StreamState::Closed);
}

#[test]
fn eof_after_remote_fin_and_drain() {
    let (_, mut b) = open_pair(17, 10);
    b.on_remote_data(b"ab", 1).unwrap();
    b.on_remote_fin(2).unwrap();
    assert!(!b.at_eof());
    let (got, _) = b.read(10);
    assert_eq!(got, b"ab".to_vec());
    assert!(b.at_eof());
}
