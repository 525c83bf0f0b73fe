//! The session driver's decisions: the stream registry, dispatch of inbound
//! events, the outbound queue, idle pings and the lifetime deadline. The
//! caller runs the transport and the clock and hands events and times in.
use crate::event::{
    new_ping_event, Event, FLAG_DATA, FLAG_FIN, FLAG_PING, FLAG_SHUTDOWN, FLAG_SYN,
    FLAG_WIN_UPDATE, MAX_BODY_LEN,
};
use crate::handshake::SessionError;
use crate::stream::{bodies, concat, receive, Stream, StreamState};
use vstd::prelude::*;

verus! {

/// Whether a tick at `now` finds the session idle since `last_send`.
pub open spec fn idle_due(last_send: u64, idle_interval: u64, now: u64) -> bool {
    now >= last_send + idle_interval
}

/// Whether a tick at `now` finds the session past its deadline.
pub open spec fn expired(deadline: u64, now: u64) -> bool {
    now > deadline
}

/// After a tick that found the session idle, a second tick within the idle
/// interval finds it busy: each idle spell yields exactly one `PING`.
pub proof fn lemma_one_ping_per_idle_spell(last_send: u64, idle_interval: u64, t1: u64, t2: u64)
    requires
        idle_interval > 0,
        t1 <= t2 < t1 + idle_interval,
    ensures
        idle_due(last_send, idle_interval, t1) ==> !idle_due(t1, idle_interval, t2),
{
}

/// Whether the registry holds a stream with id `id`.
pub open spec fn holds(streams: Seq<Stream>, id: u32) -> bool {
    exists|i: int| 0 <= i < streams.len() && (#[trigger] streams[i]).id == id
}

pub struct Session {
    pub id: u32,
    pub name: String,
    pub streams: Vec<Stream>,
    /// Next id for a stream this side opens; always odd.
    pub next_local_id: u32,
    /// Events waiting for the writer, oldest first.
    pub outbound: Vec<Event>,
    pub max_outbound: usize,
    /// Absolute expiry time, in seconds.
    pub deadline: u64,
    /// Time the writer last took an event, or the last `PING` was queued.
    pub last_send: u64,
    pub idle_interval: u64,
    /// Receive window given to each new stream.
    pub recv_window: u32,
    /// Ids of streams that were dropped; the peer may not open them again
    /// in this session.
    pub retired: Vec<u32>,
    /// Why the session ended, once it has.
    pub closed: Option<SessionError>,
}

fn contains_id(ids: &Vec<u32>, id: u32) -> (r: bool)
    ensures
        r == ids@.contains(id),
{
    let mut i: usize = 0;
    while i < ids.len()
        invariant
            i <= ids@.len(),
            forall|j: int| 0 <= j < i ==> ids@[j] != id,
        decreases ids@.len() - i,
    {
        if ids[i] == id {
            assert(ids@[i as int] == id);
            return true;
        }
        i = i + 1;
    }
    false
}

impl Session {
    proof fn lemma_unique_index(&self, i: int, id: u32)
        requires
            self.wf(),
            0 <= i < self.streams@.len(),
            self.streams@[i].id == id,
        ensures
            forall|k: int| 0 <= k < self.streams@.len() && (#[trigger] self.streams@[k]).id == id ==> k == i,
    {
        assert forall|k: int| 0 <= k < self.streams@.len() && (#[trigger] self.streams@[k]).id == id implies k == i by {
            if k < i {
                assert(self.streams@[k].id != self.streams@[i].id);
            } else if k > i {
                assert(self.streams@[i].id != self.streams@[k].id);
            }
        }
    }

    proof fn lemma_update_keeps_wf(&self, before: Seq<Stream>, i: int)
        requires
            0 <= i < before.len(),
            self.streams@.len() == before.len(),
            forall|k: int| 0 <= k < before.len() && k != i ==> self.streams@[k] == before[k],
            self.streams@[i].id == before[i].id,
            self.streams@[i].wf(),
            forall|k: int| 0 <= k < before.len() ==> (#[trigger] before[k]).wf(),
            forall|a: int, b: int| 0 <= a < b < before.len() ==> (#[trigger] before[a]).id != (#[trigger] before[b]).id,
            self.next_local_id % 2 == 1,
            0 < self.recv_window <= MAX_BODY_LEN,
            self.closed is None,
        ensures
            self.wf(),
    {
        assert forall|a: int, b: int| 0 <= a < b < self.streams@.len() implies
            (#[trigger] self.streams@[a]).id != (#[trigger] self.streams@[b]).id by {
            assert(self.streams@[a].id == before[a].id);
            assert(self.streams@[b].id == before[b].id);
        }
        assert forall|k: int| 0 <= k < self.streams@.len() implies (#[trigger] self.streams@[k]).wf() by {
            if k != i {
                assert(self.streams@[k] == before[k]);
            }
        }
    }

    pub open spec fn wf(&self) -> bool {
        &&& self.next_local_id % 2 == 1
        &&& 0 < self.recv_window <= MAX_BODY_LEN
        &&& forall|i: int| 0 <= i < self.streams@.len() ==> (#[trigger] self.streams@[i]).wf()
        &&& forall|i: int, j: int|
            0 <= i < j < self.streams@.len() ==> (#[trigger] self.streams@[i]).id != (#[trigger] self.streams@[j]).id
        &&& self.closed is Some ==> self.streams@.len() == 0 && self.outbound@.len() == 0
    }

    /// A session that completed its handshake at `now`; it expires
    /// `max_alive_mins` minutes later.
    pub fn new(
        name: String,
        id: u32,
        max_alive_mins: u32,
        now: u64,
        idle_interval: u64,
        recv_window: u32,
        max_outbound: usize,
    ) -> (r: Session)
        requires
            0 < recv_window <= MAX_BODY_LEN,
        ensures
            r.wf(),
            r.id == id,
            r.name == name,
            r.deadline == if now + max_alive_mins * 60 > u64::MAX {
                u64::MAX as int
            } else {
                now + max_alive_mins * 60
            },
            r.last_send == now,
            r.idle_interval == idle_interval,
            r.recv_window == recv_window,
            r.max_outbound == max_outbound,
            r.streams@.len() == 0,
            r.outbound@.len() == 0,
            r.next_local_id == 1,
            r.retired@.len() == 0,
            r.closed is None,
    {
        let secs: u64 = max_alive_mins as u64 * 60;
        Session {
            id,
            name,
            streams: Vec::new(),
            next_local_id: 1,
            outbound: Vec::new(),
            max_outbound,
            deadline: now.saturating_add(secs),
            last_send: now,
            idle_interval,
            recv_window,
            retired: Vec::new(),
            closed: None,
        }
    }

    /// Ends the session with `e`: every stream and pending event is dropped.
    pub fn fail(&mut self, e: SessionError)
        requires
            old(self).wf(),
        ensures
            final(self).wf(),
            final(self).closed == Some(e),
            final(self).streams@.len() == 0,
            final(self).outbound@.len() == 0,
            final(self).deadline == old(self).deadline,
            final(self).last_send == old(self).last_send,
            final(self).idle_interval == old(self).idle_interval,
            final(self).id == old(self).id,
            final(self).next_local_id == old(self).next_local_id,
            final(self).recv_window == old(self).recv_window,
            final(self).max_outbound == old(self).max_outbound,
    {
        self.closed = Some(e);
        self.streams.clear();
        self.outbound.clear();
    }

    /// What a stream operation sees: `SessionClosed` once the session ended.
    pub fn check_open(&self) -> (r: Result<(), SessionError>)
        ensures
            r is Ok == (self.closed is None),
            r is Err ==> r == Err::<(), SessionError>(SessionError::SessionClosed),
    {
        if self.closed.is_some() {
            Err(SessionError::SessionClosed)
        } else {
            Ok(())
        }
    }

    /// Position of stream `id` in the registry.
    pub fn find(&self, id: u32) -> (r: Option<usize>)
        ensures
            r matches Some(i) ==> i < self.streams@.len() && self.streams@[i as int].id == id,
            r is None ==> !holds(self.streams@, id),
    {
        let mut i: usize = 0;
        while i < self.streams.len()
            invariant
                i <= self.streams@.len(),
                forall|j: int| 0 <= j < i ==> (#[trigger] self.streams@[j]).id != id,
            decreases self.streams@.len() - i,
        {
            if self.streams[i].id == id {
                return Some(i);
            }
            i = i + 1;
        }
        None
    }

    /// Queues an event for the writer; `false` when the queue is full or the
    /// session has ended.
    pub fn enqueue(&mut self, ev: Event) -> (r: bool)
        ensures
            r == (old(self).closed is None && old(self).outbound@.len() < old(self).max_outbound),
            r ==> final(self).outbound@ == old(self).outbound@.push(ev),
            !r ==> final(self).outbound@ == old(self).outbound@,
            final(self).streams == old(self).streams,
            final(self).closed == old(self).closed,
            final(self).next_local_id == old(self).next_local_id,
            final(self).recv_window == old(self).recv_window,
            final(self).deadline == old(self).deadline,
            final(self).last_send == old(self).last_send,
            final(self).idle_interval == old(self).idle_interval,
            final(self).max_outbound == old(self).max_outbound,
    {
        if self.closed.is_some() || self.outbound.len() >= self.max_outbound {
            return false;
        }
        self.outbound.push(ev);
        true
    }

    /// The writer takes the oldest pending event at `now`.
    pub fn next_outbound(&mut self, now: u64) -> (r: Option<Event>)
        ensures
            (r is Some) == (old(self).outbound@.len() > 0),
            r matches Some(ev) ==> ev == old(self).outbound@[0] && final(self).outbound@ == old(
                self,
            ).outbound@.subrange(1, old(self).outbound@.len() as int) && final(self).last_send == now,
            r is None ==> final(self).outbound@ == old(self).outbound@ && final(self).last_send == old(
                self,
            ).last_send,
            final(self).streams == old(self).streams,
            final(self).closed == old(self).closed,
            final(self).deadline == old(self).deadline,
    {
        if self.outbound.len() == 0 {
            return None;
        }
        let ev = self.outbound.remove(0);
        self.last_send = now;
        assert(old(self).outbound@.remove(0) =~= old(self).outbound@.subrange(1, old(self).outbound@.len() as int));
        Some(ev)
    }

    /// Opens a stream from this side: it takes the next odd id, enters
    /// `OPEN`, and its `SYN` is queued. `None` when the session has ended,
    /// the queue is full, or the odd ids are spent.
    pub fn create_stream(&mut self, send_credit: u32, now: u64) -> (r: Option<u32>)
        requires
            old(self).wf(),
            forall|i: int| 0 <= i < old(self).streams@.len() ==>
                (#[trigger] old(self).streams@[i]).id % 2 == 1 ==> old(self).streams@[i].id < old(self).next_local_id,
        ensures
            final(self).wf(),
            (r is Some) == (old(self).closed is None && old(self).outbound@.len() < old(self).max_outbound
                && old(self).next_local_id < u32::MAX),
            r matches Some(id) ==> {
                &&& id == old(self).next_local_id
                &&& final(self).next_local_id == id + 2
                &&& final(self).streams@.len() == old(self).streams@.len() + 1
                &&& final(self).streams@.subrange(0, old(self).streams@.len() as int) == old(self).streams@
                &&& final(self).streams@.last().id == id
                &&& final(self).streams@.last().state == StreamState::Open
                &&& final(self).streams@.last().send_credit == send_credit
                &&& final(self).outbound@.len() == old(self).outbound@.len() + 1
                &&& final(self).outbound@.last().header.spec_flags() == FLAG_SYN
                &&& final(self).outbound@.last().header.stream_id == id
            },
            r is None ==> final(self).streams == old(self).streams && final(self).outbound == old(self).outbound
                && final(self).next_local_id == old(self).next_local_id,
            final(self).closed == old(self).closed,
            final(self).deadline == old(self).deadline,
            forall|i: int| 0 <= i < final(self).streams@.len() ==>
                (#[trigger] final(self).streams@[i]).id % 2 == 1 ==> final(self).streams@[i].id < final(self).next_local_id,
    {
        if self.closed.is_some() || self.outbound.len() >= self.max_outbound || self.next_local_id == u32::MAX {
            return None;
        }
        let id = self.next_local_id;
        let mut s = Stream::new(id, self.recv_window, send_credit, now);
        let syn = match s.open_local(now) {
            Some(e) => e,
            None => {
                return None;
            },
        };
        self.outbound.push(syn);
        self.streams.push(s);
        self.next_local_id = id + 2;
        assert(self.streams@.subrange(0, old(self).streams@.len() as int) =~= old(self).streams@);
        Some(id)
    }

    /// Writes the front of `data` on stream `id`: one `DATA` event of at most
    /// `relay_buf_size` bytes, as far as the stream's credit allows, queued
    /// for the writer. `Ok(0)` when the queue is full or nothing may be sent;
    /// `SessionClosed` when the session ended or the stream is gone.
    pub fn write_stream(&mut self, id: u32, data: &[u8], relay_buf_size: u32, now: u64) -> (r: Result<usize, SessionError>)
        requires
            old(self).wf(),
            0 < relay_buf_size <= MAX_BODY_LEN,
        ensures
            final(self).wf(),
            final(self).closed == old(self).closed,
            final(self).deadline == old(self).deadline,
            old(self).closed is Some || !holds(old(self).streams@, id) ==> r == Err::<usize, SessionError>(
                SessionError::SessionClosed) && *final(self) == *old(self),
            old(self).closed is None && holds(old(self).streams@, id) && old(self).outbound@.len() >= old(self).max_outbound
                ==> r == Ok::<usize, SessionError>(0) && *final(self) == *old(self),
            old(self).closed is None && old(self).outbound@.len() < old(self).max_outbound ==> forall|i: int|
                0 <= i < old(self).streams@.len() && (#[trigger] old(self).streams@[i]).id == id ==> {
                    let st = old(self).streams@[i];
                    let want: int = if data@.len() < relay_buf_size { data@.len() as int } else { relay_buf_size as int };
                    let n: int = if !crate::stream::can_send(st.state) {
                        0
                    } else if want < st.send_credit {
                        want
                    } else {
                        st.send_credit as int
                    };
                    &&& r == Ok::<usize, SessionError>(n as usize)
                    &&& final(self).streams@.len() == old(self).streams@.len()
                    &&& final(self).streams@[i].send_credit == st.send_credit - n
                    &&& final(self).streams@[i].inbound == st.inbound
                    &&& final(self).streams@[i].state == st.state
                    &&& n == 0 ==> final(self).outbound@ == old(self).outbound@
                    &&& n > 0 ==> {
                        &&& final(self).outbound@.len() == old(self).outbound@.len() + 1
                        &&& final(self).outbound@.subrange(0, old(self).outbound@.len() as int) == old(self).outbound@
                        &&& final(self).outbound@.last().header.spec_flags() == FLAG_DATA
                        &&& final(self).outbound@.last().header.stream_id == id
                        &&& final(self).outbound@.last().body@ == data@.subrange(0, n)
                    }
                },
    {
        if self.closed.is_some() {
            return Err(SessionError::SessionClosed);
        }
        let i = match self.find(id) {
            Some(i) => i,
            None => {
                return Err(SessionError::SessionClosed);
            },
        };
        if self.outbound.len() >= self.max_outbound {
            return Ok(0);
        }
        proof {
            self.lemma_unique_index(i as int, id);
        }
        let want: usize = if data.len() < relay_buf_size as usize {
            data.len()
        } else {
            relay_buf_size as usize
        };
        let front = crate::stream::slice_of(data, 0, want);
        let mut st = self.streams.remove(i);
        let (mut evs, n) = st.write(front.as_slice(), relay_buf_size, now);
        self.streams.insert(i, st);
        proof {
            assert(self.streams@ =~= old(self).streams@.update(i as int, st));
            self.lemma_update_keeps_wf(old(self).streams@, i as int);
        }
        if n > 0 {
            proof {
                let bs = bodies(evs@);
                assert(bs.subrange(1, 1) =~= Seq::<Seq<u8>>::empty());
                assert(concat(bs.subrange(1, 1)) == Seq::<u8>::empty());
                assert(concat(bs) =~= evs@[0].body@);
                assert(data@.subrange(0, n as int) =~= front@.subrange(0, n as int));
            }
            let ev = evs.remove(0);
            self.outbound.push(ev);
            assert(self.outbound@.subrange(0, old(self).outbound@.len() as int) =~= old(self).outbound@);
        }
        Ok(n)
    }

    /// Reads up to `max` bytes from stream `id`, queueing the
    /// `WINDOW_UPDATE` the read gives, if any. Nothing is read while the
    /// queue is full; `SessionClosed` when the session ended or the stream
    /// is gone.
    pub fn read_stream(&mut self, id: u32, max: usize) -> (r: Result<Vec<u8>, SessionError>)
        requires
            old(self).wf(),
        ensures
            final(self).wf(),
            final(self).closed == old(self).closed,
            final(self).deadline == old(self).deadline,
            old(self).closed is Some || !holds(old(self).streams@, id) ==> r == Err::<Vec<u8>, SessionError>(
                SessionError::SessionClosed) && *final(self) == *old(self),
            old(self).closed is None && holds(old(self).streams@, id) && old(self).outbound@.len() >= old(self).max_outbound
                ==> (r matches Ok(v) && v@.len() == 0) && *final(self) == *old(self),
            old(self).closed is None && old(self).outbound@.len() < old(self).max_outbound ==> forall|i: int|
                0 <= i < old(self).streams@.len() && (#[trigger] old(self).streams@[i]).id == id ==> {
                    let st = old(self).streams@[i];
                    let n: int = if st.inbound@.len() < max { st.inbound@.len() as int } else { max as int };
                    let acc = st.unacked + n;
                    &&& (r matches Ok(v) && v@ == st.inbound@.subrange(0, n))
                    &&& final(self).streams@.len() == old(self).streams@.len()
                    &&& final(self).streams@[i].inbound@ == st.inbound@.subrange(n, st.inbound@.len() as int)
                    &&& final(self).streams@[i].state == st.state
                    &&& if acc * 2 >= st.recv_window && acc > 0 {
                        &&& final(self).outbound@.len() == old(self).outbound@.len() + 1
                        &&& final(self).outbound@.subrange(0, old(self).outbound@.len() as int) == old(self).outbound@
                        &&& final(self).outbound@.last().header.spec_flags() == FLAG_WIN_UPDATE
                        &&& final(self).outbound@.last().header.spec_len() == acc
                        &&& final(self).outbound@.last().header.stream_id == id
                        &&& final(self).streams@[i].unacked == 0
                    } else {
                        final(self).outbound@ == old(self).outbound@ && final(self).streams@[i].unacked == acc
                    }
                },
    {
        if self.closed.is_some() {
            return Err(SessionError::SessionClosed);
        }
        let i = match self.find(id) {
            Some(i) => i,
            None => {
                return Err(SessionError::SessionClosed);
            },
        };
        if self.outbound.len() >= self.max_outbound {
            return Ok(Vec::new());
        }
        proof {
            self.lemma_unique_index(i as int, id);
        }
        let mut st = self.streams.remove(i);
        let (bytes, upd) = st.read(max);
        self.streams.insert(i, st);
        proof {
            assert(self.streams@ =~= old(self).streams@.update(i as int, st));
            self.lemma_update_keeps_wf(old(self).streams@, i as int);
        }
        if let Some(ev) = upd {
            self.outbound.push(ev);
            assert(self.outbound@.subrange(0, old(self).outbound@.len() as int) =~= old(self).outbound@);
        }
        Ok(bytes)
    }

    /// Half-closes stream `id` from this side, queueing its `FIN`. `Ok(false)`
    /// when the queue is full or the stream's state allows no `FIN`;
    /// `SessionClosed` when the session ended or the stream is gone.
    pub fn close_stream(&mut self, id: u32, now: u64) -> (r: Result<bool, SessionError>)
        requires
            old(self).wf(),
        ensures
            final(self).wf(),
            final(self).closed == old(self).closed,
            final(self).deadline == old(self).deadline,
            old(self).closed is Some || !holds(old(self).streams@, id) ==> r == Err::<bool, SessionError>(
                SessionError::SessionClosed) && *final(self) == *old(self),
            old(self).closed is None && holds(old(self).streams@, id) && old(self).outbound@.len() >= old(self).max_outbound
                ==> r == Ok::<bool, SessionError>(false) && *final(self) == *old(self),
            old(self).closed is None && old(self).outbound@.len() < old(self).max_outbound ==> forall|i: int|
                0 <= i < old(self).streams@.len() && (#[trigger] old(self).streams@[i]).id == id ==> {
                    let st = old(self).streams@[i];
                    &&& r == Ok::<bool, SessionError>(crate::stream::after_local_fin(st.state) is Some)
                    &&& final(self).streams@.len() == old(self).streams@.len()
                    &&& final(self).streams@[i].inbound == st.inbound
                    &&& if crate::stream::after_local_fin(st.state) is Some {
                        &&& final(self).streams@[i].state == crate::stream::after_local_fin(st.state)->Some_0
                        &&& final(self).outbound@.len() == old(self).outbound@.len() + 1
                        &&& final(self).outbound@.subrange(0, old(self).outbound@.len() as int) == old(self).outbound@
                        &&& final(self).outbound@.last().header.spec_flags() == FLAG_FIN
                        &&& final(self).outbound@.last().header.stream_id == id
                    } else {
                        final(self).streams@[i].state == st.state && final(self).outbound@ == old(self).outbound@
                    }
                },
    {
        if self.closed.is_some() {
            return Err(SessionError::SessionClosed);
        }
        let i = match self.find(id) {
            Some(i) => i,
            None => {
                return Err(SessionError::SessionClosed);
            },
        };
        if self.outbound.len() >= self.max_outbound {
            return Ok(false);
        }
        proof {
            self.lemma_unique_index(i as int, id);
        }
        let mut st = self.streams.remove(i);
        let fin = st.close_local(now);
        self.streams.insert(i, st);
        proof {
            assert(self.streams@ =~= old(self).streams@.update(i as int, st));
            self.lemma_update_keeps_wf(old(self).streams@, i as int);
        }
        match fin {
            Some(ev) => {
                self.outbound.push(ev);
                assert(self.outbound@.subrange(0, old(self).outbound@.len() as int) =~= old(self).outbound@);
                Ok(true)
            },
            None => Ok(false),
        }
    }

    /// Takes one inbound event. `SHUTDOWN` on stream 0 ends the session with
    /// `SessionClosed`. A `SYN` for an id already held, or a `FIN` or `DATA`
    /// its stream may not take, is a protocol violation and ends the session.
    /// Events for unknown streams, `PING`, and unknown flags are dropped.
    pub fn dispatch(&mut self, ev: Event, now: u64) -> (r: Result<(), SessionError>)
        requires
            old(self).wf(),
        ensures
            final(self).wf(),
            final(self).deadline == old(self).deadline,
            old(self).closed is Some ==> r == Err::<(), SessionError>(SessionError::SessionClosed)
                && *final(self) == *old(self),
            r matches Err(e) ==> final(self).closed is Some,
            old(self).closed is None ==> {
                let f = ev.header.spec_flags();
                let id = ev.header.stream_id;
                &&& f == FLAG_SHUTDOWN && id == 0 ==> r == Err::<(), SessionError>(SessionError::SessionClosed)
                    && final(self).closed == Some(SessionError::SessionClosed)
                &&& f == FLAG_SYN && (holds(old(self).streams@, id) || old(self).retired@.contains(id))
                    ==> r == Err::<(), SessionError>(SessionError::ProtocolViolation)
                &&& f == FLAG_SYN && !holds(old(self).streams@, id) && !old(self).retired@.contains(id) ==> r is Ok
                    && final(self).streams@ == old(self).streams@.push(final(self).streams@.last())
                    && final(self).streams@.last().id == id
                    && final(self).streams@.last().state == StreamState::Open
                &&& (f == FLAG_DATA || f == FLAG_FIN || f == FLAG_WIN_UPDATE) && !holds(old(self).streams@, id)
                    ==> r is Ok && final(self).streams == old(self).streams
                &&& f == FLAG_PING || !crate::event::known_flag(f) ==> r is Ok && *final(self) == *old(self)
                &&& f == FLAG_DATA ==> forall|i: int| 0 <= i < old(self).streams@.len()
                    && (#[trigger] old(self).streams@[i]).id == id ==> {
                        let s = old(self).streams@[i];
                        let got = receive(s.inbound@, (s.recv_window - s.unacked) as nat, ev.body@);
                        if crate::stream::can_receive(s.state) && got is Some {
                            r is Ok && final(self).streams@[i].inbound@ == got->Some_0
                                && final(self).streams@.len() == old(self).streams@.len()
                        } else {
                            r == Err::<(), SessionError>(SessionError::ProtocolViolation)
                        }
                    }
            },
    {
        if self.closed.is_some() {
            return Err(SessionError::SessionClosed);
        }
        let f = ev.header.flags();
        let id = ev.header.stream_id;
        if f == FLAG_SHUTDOWN {
            if id == 0 {
                self.fail(SessionError::SessionClosed);
                return Err(SessionError::SessionClosed);
            }
            return Ok(());
        }
        if f == FLAG_PING || f < FLAG_SYN || f > FLAG_SHUTDOWN {
            return Ok(());
        }
        let found = self.find(id);
        if f == FLAG_SYN {
            if found.is_some() || contains_id(&self.retired, id) {
                self.fail(SessionError::ProtocolViolation);
                return Err(SessionError::ProtocolViolation);
            }
            let mut s = Stream::new(id, self.recv_window, self.recv_window, now);
            let _ = s.open_remote(now);
            self.streams.push(s);
            proof {
                assert forall|i: int, j: int|
                    0 <= i < j < self.streams@.len() implies (#[trigger] self.streams@[i]).id
                        != (#[trigger] self.streams@[j]).id by {
                    if j == self.streams@.len() - 1 {
                        assert(old(self).streams@[i].id != id);
                    } else {
                        assert(self.streams@[i] == old(self).streams@[i]);
                        assert(self.streams@[j] == old(self).streams@[j]);
                    }
                }
                assert(self.streams@ =~= old(self).streams@.push(self.streams@.last()));
            }
            return Ok(());
        }
        let i = match found {
            Some(i) => i,
            None => {
                return Ok(());
            },
        };
        let mut s = self.streams.remove(i);
        let res = if f == FLAG_DATA {
            s.on_remote_data(ev.body.as_slice(), now)
        } else if f == FLAG_FIN {
            s.on_remote_fin(now)
        } else {
            s.on_window_update(ev.header.len(), now);
            Ok(())
        };
        self.streams.insert(i, s);
        proof {
            assert(self.streams@ =~= old(self).streams@.update(i as int, s));
            assert forall|a: int, b: int|
                0 <= a < b < self.streams@.len() implies (#[trigger] self.streams@[a]).id
                    != (#[trigger] self.streams@[b]).id by {
                assert(old(self).streams@[a].id == self.streams@[a].id);
                assert(old(self).streams@[b].id == self.streams@[b].id);
            }
            if f == FLAG_DATA {
                assert forall|k: int| 0 <= k < old(self).streams@.len()
                    && (#[trigger] old(self).streams@[k]).id == id implies k == i by {
                    if k != i {
                        if k < i {
                            assert(old(self).streams@[k].id != old(self).streams@[i as int].id);
                        } else {
                            assert(old(self).streams@[i as int].id != old(self).streams@[k].id);
                        }
                    }
                }
            }
        }
        match res {
            Ok(()) => Ok(()),
            Err(e) => {
                self.fail(e);
                Err(e)
            },
        }
    }

    /// The housekeeper's round at `now`. Past the deadline the session ends
    /// with `SessionExpired`. Otherwise, after an idle spell one `PING` is
    /// queued, and closed streams with nothing left to read are dropped.
    pub fn tick(&mut self, now: u64) -> (r: Result<(), SessionError>)
        requires
            old(self).wf(),
        ensures
            final(self).wf(),
            old(self).closed is Some ==> r == Err::<(), SessionError>(SessionError::SessionClosed)
                && *final(self) == *old(self),
            old(self).closed is None && expired(old(self).deadline, now) ==> r == Err::<(), SessionError>(
                SessionError::SessionExpired) && final(self).closed == Some(SessionError::SessionExpired)
                && final(self).streams@.len() == 0,
            old(self).closed is None && !expired(old(self).deadline, now) ==> {
                &&& r is Ok
                &&& final(self).closed is None
                &&& if idle_due(old(self).last_send, old(self).idle_interval, now) {
                    &&& final(self).outbound@.len() == old(self).outbound@.len() + 1
                    &&& final(self).outbound@.subrange(0, old(self).outbound@.len() as int) == old(self).outbound@
                    &&& final(self).outbound@.last().header.spec_flags() == FLAG_PING
                    &&& final(self).outbound@.last().header.stream_id == 0
                    &&& final(self).last_send == now
                } else {
                    final(self).outbound@ == old(self).outbound@ && final(self).last_send == old(self).last_send
                }
                &&& forall|i: int| 0 <= i < final(self).streams@.len() ==>
                    !(#[trigger] final(self).streams@[i]).is_drained_spec()
                &&& forall|i: int| 0 <= i < old(self).streams@.len() && !(#[trigger] old(self).streams@[i]).is_drained_spec()
                    ==> final(self).streams@.contains(old(self).streams@[i])
                &&& forall|i: int| 0 <= i < old(self).streams@.len() && (#[trigger] old(self).streams@[i]).is_drained_spec()
                    ==> final(self).retired@.contains(old(self).streams@[i].id)
            },
            final(self).deadline == old(self).deadline,
            final(self).idle_interval == old(self).idle_interval,
    {
        if self.closed.is_some() {
            return Err(SessionError::SessionClosed);
        }
        if now > self.deadline {
            self.fail(SessionError::SessionExpired);
            return Err(SessionError::SessionExpired);
        }
        if now >= self.last_send && now - self.last_send >= self.idle_interval {
            self.outbound.push(new_ping_event(0, true));
            self.last_send = now;
            assert(self.outbound@.subrange(0, old(self).outbound@.len() as int) =~= old(self).outbound@);
        }
        let ghost before = self.streams@;
        let ghost queued = self.outbound@;
        let ghost sent = self.last_send;
        let mut i: usize = 0;
        assert forall|m: int| 0 <= m < before.len() && (#[trigger] before[m]).is_drained_spec()
            implies self.retired@.contains(before[m].id)
            || exists|j: int| 0 <= j < self.streams@.len() && self.streams@[j] == before[m] by {
            assert(self.streams@[m] == before[m]);
        }
        while i < self.streams.len()
            invariant
                self.wf(),
                self.closed is None,
                self.deadline == old(self).deadline,
                self.idle_interval == old(self).idle_interval,
                self.outbound@ == queued,
                self.last_send == sent,
                i <= self.streams@.len(),
                forall|k: int| 0 <= k < i ==> !(#[trigger] self.streams@[k]).is_drained_spec(),
                forall|m: int| 0 <= m < before.len() && !(#[trigger] before[m]).is_drained_spec()
                    ==> self.streams@.contains(before[m]),
                forall|m: int| 0 <= m < before.len() && (#[trigger] before[m]).is_drained_spec()
                    ==> self.retired@.contains(before[m].id)
                    || exists|j: int| i <= j < self.streams@.len() && self.streams@[j] == before[m],
            decreases self.streams@.len() - i,
        {
            if self.streams[i].is_drained() {
                let ghost pre = self.streams@;
                let ghost old_retired = self.retired@;
                let gone = self.streams.remove(i);
                self.retired.push(gone.id);
                assert(self.retired@ == old_retired.push(gone.id));
                assert(forall|x: u32| old_retired.contains(x) ==> self.retired@.contains(x)) by {
                    assert forall|x: u32| old_retired.contains(x) implies self.retired@.contains(x) by {
                        let k = choose|k: int| 0 <= k < old_retired.len() && old_retired[k] == x;
                        assert(self.retired@[k] == x);
                    }
                }
                proof {
                    assert forall|m: int| 0 <= m < before.len() && !(#[trigger] before[m]).is_drained_spec()
                        implies self.streams@.contains(before[m]) by {
                        let j = choose|j: int| 0 <= j < pre.len() && pre[j] == before[m];
                        if j < i {
                            assert(self.streams@[j] == before[m]);
                        } else {
                            assert(j != i);
                            assert(self.streams@[j - 1] == before[m]);
                        }
                    }
                    assert forall|m: int| 0 <= m < before.len() && (#[trigger] before[m]).is_drained_spec()
                        implies self.retired@.contains(before[m].id)
                        || exists|j: int| i <= j < self.streams@.len() && self.streams@[j] == before[m] by {
                        if !self.retired@.contains(before[m].id) {
                            assert(!old_retired.contains(before[m].id));
                            let j = choose|j: int| i <= j < pre.len() && pre[j] == before[m];
                            if j == i {
                                assert(self.retired@[self.retired@.len() - 1] == before[m].id);
                            } else {
                                assert(self.streams@[j - 1] == before[m]);
                            }
                        }
                    }
                    assert forall|a: int, b: int| 0 <= a < b < self.streams@.len() implies
                        (#[trigger] self.streams@[a]).id != (#[trigger] self.streams@[b]).id by {
                        let a2 = if a < i { a } else { a + 1 };
                        let b2 = if b < i { b } else { b + 1 };
                        assert(self.streams@[a] == pre[a2]);
                        assert(self.streams@[b] == pre[b2]);
                    }
                    assert forall|k: int| 0 <= k < self.streams@.len() implies (#[trigger] self.streams@[k]).wf() by {
                        let k2 = if k < i { k } else { k + 1 };
                        assert(self.streams@[k] == pre[k2]);
                    }
                }
            } else {
                proof {
                    assert forall|m: int| 0 <= m < before.len() && (#[trigger] before[m]).is_drained_spec()
                        implies self.retired@.contains(before[m].id)
                        || exists|j: int| i + 1 <= j < self.streams@.len() && self.streams@[j] == before[m] by {
                        if !self.retired@.contains(before[m].id) {
                            let j = choose|j: int| i <= j < self.streams@.len() && self.streams@[j] == before[m];
                            assert(j != i);
                        }
                    }
                }
                i = i + 1;
            }
        }
        Ok(())
    }
}

} // verus!
