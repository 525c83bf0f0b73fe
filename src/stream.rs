//! One logical stream: its lifecycle and its windowed flow control.
use crate::event::{
    new_data_event, new_fin_event, new_window_update_event, Event, FLAG_DATA, FLAG_FIN,
    FLAG_WIN_UPDATE, MAX_BODY_LEN,
};
use crate::handshake::SessionError;
use vstd::prelude::*;

verus! {

#[derive(Clone, Copy, Debug, PartialEq, Eq, Structural)]
pub enum StreamState {
    Idle,
    Open,
    HalfClosedLocal,
    HalfClosedRemote,
    Closed,
}

/// State after this side sends `FIN`; `None` where no `FIN` may be sent.
pub open spec fn after_local_fin(s: StreamState) -> Option<StreamState> {
    match s {
        StreamState::Open => Some(StreamState::HalfClosedLocal),
        StreamState::HalfClosedRemote => Some(StreamState::Closed),
        _ => None,
    }
}

/// State after the peer's `FIN`; `None` where it is out of place.
pub open spec fn after_remote_fin(s: StreamState) -> Option<StreamState> {
    match s {
        StreamState::Open => Some(StreamState::HalfClosedRemote),
        StreamState::HalfClosedLocal => Some(StreamState::Closed),
        _ => None,
    }
}

/// Whether this side may still send data.
pub open spec fn can_send(s: StreamState) -> bool {
    s == StreamState::Open || s == StreamState::HalfClosedRemote
}

/// Whether the peer may still send data.
pub open spec fn can_receive(s: StreamState) -> bool {
    s == StreamState::Open || s == StreamState::HalfClosedLocal
}

/// The inbound buffer after the peer's `DATA`, or `None` when it would
/// overrun the receive window.
pub open spec fn receive(inbound: Seq<u8>, window: nat, data: Seq<u8>) -> Option<Seq<u8>> {
    if inbound.len() + data.len() <= window {
        Some(inbound + data)
    } else {
        None
    }
}

/// The inbound buffer after a run of `DATA` bodies, one after another.
pub open spec fn receive_all(inbound: Seq<u8>, window: nat, segs: Seq<Seq<u8>>) -> Option<Seq<u8>>
    decreases segs.len(),
{
    if segs.len() == 0 {
        Some(inbound)
    } else {
        match receive(inbound, window, segs[0]) {
            Some(next) => receive_all(next, window, segs.subrange(1, segs.len() as int)),
            None => None,
        }
    }
}

/// A run of segments laid end to end.
pub open spec fn concat(segs: Seq<Seq<u8>>) -> Seq<u8>
    decreases segs.len(),
{
    if segs.len() == 0 {
        Seq::empty()
    } else {
        segs[0] + concat(segs.subrange(1, segs.len() as int))
    }
}

proof fn lemma_concat_push(segs: Seq<Seq<u8>>, s: Seq<u8>)
    ensures
        concat(segs.push(s)) == concat(segs) + s,
    decreases segs.len(),
{
    if segs.len() == 0 {
        assert(segs.push(s).subrange(1, 1) =~= Seq::<Seq<u8>>::empty());
        assert(concat(segs.push(s).subrange(1, 1)) == Seq::<u8>::empty());
        assert(concat(segs.push(s)) =~= s);
    } else {
        let tail = segs.subrange(1, segs.len() as int);
        lemma_concat_push(tail, s);
        assert(segs.push(s).subrange(1, segs.len() + 1 as int) =~= tail.push(s));
        assert(concat(segs.push(s)) =~= segs[0] + (concat(tail) + s));
    }
}

/// Bytes that one side writes, carried by its `DATA` events in order, land
/// in the peer's inbound buffer in the same order with none lost, as long
/// as they fit the peer's receive window.
pub proof fn lemma_stream_delivery(inbound: Seq<u8>, window: nat, segs: Seq<Seq<u8>>)
    requires
        inbound.len() + concat(segs).len() <= window,
    ensures
        receive_all(inbound, window, segs) == Some(inbound + concat(segs)),
    decreases segs.len(),
{
    if segs.len() == 0 {
        assert(inbound + concat(segs) =~= inbound);
    } else {
        let tail = segs.subrange(1, segs.len() as int);
        assert(concat(segs) == segs[0] + concat(tail));
        lemma_stream_delivery(inbound + segs[0], window, tail);
        assert(inbound + segs[0] + concat(tail) =~= inbound + concat(segs));
    }
}

/// The bodies of a run of events.
pub open spec fn bodies(evs: Seq<Event>) -> Seq<Seq<u8>> {
    Seq::new(evs.len(), |i: int| evs[i].body@)
}

pub struct Stream {
    pub id: u32,
    pub state: StreamState,
    /// Bytes received and not yet read by the caller.
    pub inbound: Vec<u8>,
    /// Most bytes the inbound buffer may hold.
    pub recv_window: u32,
    /// Bytes the peer will currently accept from this side.
    pub send_credit: u32,
    /// Bytes read since the last `WINDOW_UPDATE` was issued; the peer's
    /// credit is the window less these and the buffered bytes.
    pub unacked: u32,
    /// Time of the last event on this stream, in seconds.
    pub last_activity: u64,
}

impl Stream {
    pub open spec fn wf(&self) -> bool {
        &&& 0 < self.recv_window <= MAX_BODY_LEN
        &&& self.inbound@.len() + self.unacked <= self.recv_window
    }

    /// A stream in `IDLE` with an empty buffer.
    pub fn new(id: u32, recv_window: u32, send_credit: u32, now: u64) -> (r: Stream)
        requires
            0 < recv_window <= MAX_BODY_LEN,
        ensures
            r.wf(),
            r.id == id,
            r.state == StreamState::Idle,
            r.inbound@.len() == 0,
            r.recv_window == recv_window,
            r.send_credit == send_credit,
            r.unacked == 0,
            r.last_activity == now,
    {
        Stream {
            id,
            state: StreamState::Idle,
            inbound: Vec::new(),
            recv_window,
            send_credit,
            unacked: 0,
            last_activity: now,
        }
    }

    /// Opens the stream from this side (`IDLE` to `OPEN`), giving the `SYN`
    /// to send; `None` and no change in any other state.
    pub fn open_local(&mut self, now: u64) -> (r: Option<Event>)
        ensures
            old(self).wf() ==> final(self).wf(),
            (r is Some) == (old(self).state == StreamState::Idle),
            r is Some ==> final(self).state == StreamState::Open && final(self).last_activity == now,
            r matches Some(ev) ==> ev.header.spec_flags() == crate::event::FLAG_SYN
                && ev.header.stream_id == old(self).id && ev.body@.len() == 0 && ev.local,
            r is None ==> *final(self) == *old(self),
            final(self).id == old(self).id,
            final(self).inbound == old(self).inbound,
            final(self).recv_window == old(self).recv_window,
            final(self).send_credit == old(self).send_credit,
            final(self).unacked == old(self).unacked,
    {
        if self.state != StreamState::Idle {
            return None;
        }
        self.state = StreamState::Open;
        self.last_activity = now;
        Some(crate::event::new_syn_event(self.id, true))
    }

    /// Accepts the peer's `SYN` (`IDLE` to `OPEN`); `false` and no change in
    /// any other state.
    pub fn open_remote(&mut self, now: u64) -> (r: bool)
        ensures
            old(self).wf() ==> final(self).wf(),
            r == (old(self).state == StreamState::Idle),
            r ==> final(self).state == StreamState::Open && final(self).last_activity == now,
            !r ==> *final(self) == *old(self),
            final(self).id == old(self).id,
            final(self).inbound == old(self).inbound,
            final(self).recv_window == old(self).recv_window,
            final(self).send_credit == old(self).send_credit,
            final(self).unacked == old(self).unacked,
    {
        if self.state != StreamState::Idle {
            return false;
        }
        self.state = StreamState::Open;
        self.last_activity = now;
        true
    }

    /// Half-closes the writing side, giving the `FIN` to send, where the
    /// state allows it; otherwise `None` and no change.
    pub fn close_local(&mut self, now: u64) -> (r: Option<Event>)
        ensures
            old(self).wf() ==> final(self).wf(),
            (r is Some) == (after_local_fin(old(self).state) is Some),
            r is Some ==> final(self).state == after_local_fin(old(self).state)->Some_0
                && final(self).last_activity == now,
            r matches Some(ev) ==> ev.header.spec_flags() == FLAG_FIN && ev.header.stream_id
                == old(self).id && ev.body@.len() == 0 && ev.local,
            r is None ==> *final(self) == *old(self),
            final(self).id == old(self).id,
            final(self).inbound == old(self).inbound,
            final(self).recv_window == old(self).recv_window,
            final(self).send_credit == old(self).send_credit,
            final(self).unacked == old(self).unacked,
    {
        let next = match self.state {
            StreamState::Open => StreamState::HalfClosedLocal,
            StreamState::HalfClosedRemote => StreamState::Closed,
            _ => {
                return None;
            },
        };
        self.state = next;
        self.last_activity = now;
        Some(new_fin_event(self.id, true))
    }

    /// Takes the peer's `FIN`. Out of place, it is a protocol violation and
    /// changes nothing.
    pub fn on_remote_fin(&mut self, now: u64) -> (r: Result<(), SessionError>)
        ensures
            old(self).wf() ==> final(self).wf(),
            r is Ok == (after_remote_fin(old(self).state) is Some),
            r is Ok ==> final(self).state == after_remote_fin(old(self).state)->Some_0
                && final(self).last_activity == now,
            r is Err ==> r == Err::<(), SessionError>(SessionError::ProtocolViolation) && *final(self) == *old(self),
            final(self).id == old(self).id,
            final(self).inbound == old(self).inbound,
            final(self).recv_window == old(self).recv_window,
            final(self).send_credit == old(self).send_credit,
            final(self).unacked == old(self).unacked,
    {
        let next = match self.state {
            StreamState::Open => StreamState::HalfClosedRemote,
            StreamState::HalfClosedLocal => StreamState::Closed,
            _ => {
                return Err(SessionError::ProtocolViolation);
            },
        };
        self.state = next;
        self.last_activity = now;
        Ok(())
    }

    /// Appends the body of the peer's `DATA`. Data the peer may not send
    /// now, or that goes beyond the credit it was given, is a protocol
    /// violation and changes nothing.
    pub fn on_remote_data(&mut self, data: &[u8], now: u64) -> (r: Result<(), SessionError>)
        requires
            old(self).wf(),
        ensures
            final(self).wf(),
            r is Ok == (can_receive(old(self).state)
                && receive(old(self).inbound@, (old(self).recv_window - old(self).unacked) as nat, data@) is Some),
            r is Ok ==> final(self).inbound@ == receive(old(self).inbound@, (old(self).recv_window - old(self).unacked) as nat, data@)->Some_0
                && final(self).last_activity == now,
            r is Err ==> r == Err::<(), SessionError>(SessionError::ProtocolViolation) && *final(self) == *old(self),
            final(self).id == old(self).id,
            final(self).state == old(self).state,
            final(self).recv_window == old(self).recv_window,
            final(self).send_credit == old(self).send_credit,
            final(self).unacked == old(self).unacked,
    {
        if !(self.state == StreamState::Open || self.state == StreamState::HalfClosedLocal) {
            return Err(SessionError::ProtocolViolation);
        }
        if data.len() > self.recv_window as usize - self.unacked as usize - self.inbound.len() {
            return Err(SessionError::ProtocolViolation);
        }
        let mut i: usize = 0;
        let ghost start = self.inbound@;
        while i < data.len()
            invariant
                i <= data@.len(),
                start.len() + data@.len() + self.unacked <= self.recv_window,
                self.inbound@ == start + data@.subrange(0, i as int),
                self.id == old(self).id,
                self.state == old(self).state,
                self.recv_window == old(self).recv_window,
                self.send_credit == old(self).send_credit,
                self.unacked == old(self).unacked,
                self.last_activity == old(self).last_activity,
                start == old(self).inbound@,
            decreases data@.len() - i,
        {
            self.inbound.push(data[i]);
            i = i + 1;
            assert(self.inbound@ =~= start + data@.subrange(0, i as int));
        }
        assert(data@.subrange(0, i as int) =~= data@);
        self.last_activity = now;
        Ok(())
    }

    /// Adds the peer's `WINDOW_UPDATE` credit, saturating at the largest u32.
    pub fn on_window_update(&mut self, credit: u32, now: u64)
        ensures
            old(self).wf() ==> final(self).wf(),
            final(self).send_credit == if old(self).send_credit + credit > u32::MAX {
                u32::MAX as int
            } else {
                old(self).send_credit + credit
            },
            final(self).last_activity == now,
            final(self).id == old(self).id,
            final(self).state == old(self).state,
            final(self).inbound == old(self).inbound,
            final(self).recv_window == old(self).recv_window,
            final(self).unacked == old(self).unacked,
    {
        self.send_credit = self.send_credit.saturating_add(credit);
        self.last_activity = now;
    }

    /// Cuts as much of `data` as the send credit allows into `DATA` events of
    /// at most `relay_buf_size` bytes, in order, and spends the credit. Where
    /// this side may not send, nothing is written.
    pub fn write(&mut self, data: &[u8], relay_buf_size: u32, now: u64) -> (r: (Vec<Event>, usize))
        requires
            0 < relay_buf_size <= MAX_BODY_LEN,
        ensures
            old(self).wf() ==> final(self).wf(),
            r.1 == if can_send(old(self).state) {
                if data@.len() < old(self).send_credit {
                    data@.len() as int
                } else {
                    old(self).send_credit as int
                }
            } else {
                0
            },
            concat(bodies(r.0@)) == data@.subrange(0, r.1 as int),
            0 < r.1 <= relay_buf_size ==> r.0@.len() == 1,
            forall|i: int| 0 <= i < r.0@.len() ==> {
                &&& (#[trigger] r.0@[i]).header.spec_flags() == FLAG_DATA
                &&& r.0@[i].header.stream_id == old(self).id
                &&& 0 < r.0@[i].body@.len() <= relay_buf_size
                &&& r.0@[i].wf()
                &&& r.0@[i].local
            },
            final(self).send_credit == old(self).send_credit - r.1,
            r.1 > 0 ==> final(self).last_activity == now,
            r.1 == 0 ==> final(self).last_activity == old(self).last_activity,
            final(self).id == old(self).id,
            final(self).state == old(self).state,
            final(self).inbound == old(self).inbound,
            final(self).recv_window == old(self).recv_window,
            final(self).unacked == old(self).unacked,
    {
        let mut evs: Vec<Event> = Vec::new();
        if !(self.state == StreamState::Open || self.state == StreamState::HalfClosedRemote) {
            assert(bodies(evs@) =~= Seq::<Seq<u8>>::empty());
            assert(data@.subrange(0, 0) =~= Seq::<u8>::empty());
            return (evs, 0);
        }
        let total: usize = if data.len() < self.send_credit as usize {
            data.len()
        } else {
            self.send_credit as usize
        };
        let mut done: usize = 0;
        assert(bodies(evs@) =~= Seq::<Seq<u8>>::empty());
        assert(data@.subrange(0, 0) =~= Seq::<u8>::empty());
        while done < total
            invariant
                done <= total <= data@.len(),
                total <= old(self).send_credit,
                0 < relay_buf_size <= MAX_BODY_LEN,
                concat(bodies(evs@)) == data@.subrange(0, done as int),
                total <= relay_buf_size ==> (evs@.len() == 0 && done == 0) || (evs@.len() == 1 && done == total),
                forall|i: int| 0 <= i < evs@.len() ==> {
                    &&& (#[trigger] evs@[i]).header.spec_flags() == FLAG_DATA
                    &&& evs@[i].header.stream_id == self.id
                    &&& 0 < evs@[i].body@.len() <= relay_buf_size
                    &&& evs@[i].wf()
                    &&& evs@[i].local
                },
                *self == *old(self),
            decreases total - done,
        {
            let n: usize = if total - done < relay_buf_size as usize {
                total - done
            } else {
                relay_buf_size as usize
            };
            let seg = slice_of(data, done, done + n);
            let ev = new_data_event(self.id, seg.as_slice(), true);
            let ghost before = evs@;
            evs.push(ev);
            proof {
                assert(bodies(evs@) =~= bodies(before).push(seg@));
                lemma_concat_push(bodies(before), seg@);
                assert(data@.subrange(0, (done + n) as int) =~= data@.subrange(0, done as int) + seg@);
            }
            done = done + n;
        }
        self.send_credit = self.send_credit - total as u32;
        if total > 0 {
            self.last_activity = now;
        }
        (evs, total)
    }

    /// Hands up to `max` buffered bytes to the caller, front first. Once the
    /// bytes read since the last update reach half the window, gives the
    /// `WINDOW_UPDATE` that credits them back.
    pub fn read(&mut self, max: usize) -> (r: (Vec<u8>, Option<Event>))
        requires
            old(self).wf(),
        ensures
            final(self).wf(),
            r.0@ == old(self).inbound@.subrange(0, r.0@.len() as int),
            r.0@.len() == if old(self).inbound@.len() < max {
                old(self).inbound@.len() as int
            } else {
                max as int
            },
            final(self).inbound@ == old(self).inbound@.subrange(r.0@.len() as int, old(self).inbound@.len() as int),
            ({
                let acc = old(self).unacked + r.0@.len();
                if acc * 2 >= old(self).recv_window && acc > 0 {
                    &&& r.1 matches Some(ev)
                    &&& ev.header.spec_flags() == FLAG_WIN_UPDATE
                    &&& ev.header.spec_len() == acc
                    &&& ev.header.stream_id == old(self).id
                    &&& ev.body@.len() == 0
                    &&& final(self).unacked == 0
                } else {
                    r.1 is None && final(self).unacked == acc
                }
            }),
            final(self).id == old(self).id,
            final(self).state == old(self).state,
            final(self).recv_window == old(self).recv_window,
            final(self).send_credit == old(self).send_credit,
            final(self).last_activity == old(self).last_activity,
    {
        let have = self.inbound.len();
        let n: usize = if have < max {
            have
        } else {
            max
        };
        let out = slice_of(self.inbound.as_slice(), 0, n);
        let rest = slice_of(self.inbound.as_slice(), n, have);
        self.inbound = rest;
        let acc: u32 = self.unacked + n as u32;
        if acc as u64 * 2 >= self.recv_window as u64 && acc > 0 {
            self.unacked = 0;
            (out, Some(new_window_update_event(self.id, acc, true)))
        } else {
            self.unacked = acc;
            (out, None)
        }
    }

    /// The caller gave the stream up: it is `CLOSED` at once, and a `FIN`
    /// is given where this side had not sent one yet.
    pub fn abandon(&mut self, now: u64) -> (r: Option<Event>)
        ensures
            old(self).wf() ==> final(self).wf(),
            final(self).state == StreamState::Closed,
            (r is Some) == can_send(old(self).state),
            r matches Some(ev) ==> ev.header.spec_flags() == FLAG_FIN && ev.header.stream_id
                == old(self).id && ev.body@.len() == 0 && ev.local,
            r is Some ==> final(self).last_activity == now,
            r is None ==> final(self).last_activity == old(self).last_activity,
            final(self).id == old(self).id,
            final(self).inbound == old(self).inbound,
            final(self).recv_window == old(self).recv_window,
            final(self).send_credit == old(self).send_credit,
            final(self).unacked == old(self).unacked,
    {
        let fin = if self.state == StreamState::Open || self.state == StreamState::HalfClosedRemote {
            self.last_activity = now;
            Some(new_fin_event(self.id, true))
        } else {
            None
        };
        self.state = StreamState::Closed;
        fin
    }

    /// Whether a read has reached the end: the peer sent `FIN` (or the stream
    /// closed) and every buffered byte was read.
    pub fn at_eof(&self) -> (r: bool)
        ensures
            r == ((self.state == StreamState::HalfClosedRemote || self.state == StreamState::Closed)
                && self.inbound@.len() == 0),
    {
        (self.state == StreamState::HalfClosedRemote || self.state == StreamState::Closed)
            && self.inbound.len() == 0
    }

    pub open spec fn is_drained_spec(&self) -> bool {
        self.state == StreamState::Closed && self.inbound@.len() == 0
    }

    /// Whether the stream may be dropped: closed, and nothing left to read.
    pub fn is_drained(&self) -> (r: bool)
        ensures
            r == self.is_drained_spec(),
    {
        self.state == StreamState::Closed && self.inbound.len() == 0
    }
}

pub(crate) fn slice_of(s: &[u8], from: usize, to: usize) -> (r: Vec<u8>)
    requires
        from <= to <= s@.len(),
    ensures
        r@ == s@.subrange(from as int, to as int),
{
    let mut v: Vec<u8> = Vec::new();
    let mut i: usize = from;
    while i < to
        invariant
            from <= i <= to <= s@.len(),
            v@ == s@.subrange(from as int, i as int),
        decreases to - i,
    {
        v.push(s[i]);
        i = i + 1;
        assert(v@ =~= s@.subrange(from as int, i as int));
    }
    v
}

} // verus!
