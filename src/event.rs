//! Events, the protocol unit, and their plain wire layout:
//! `flag_len` (u32 LE) ‖ `stream_id` (u32 LE) ‖ body.
use vstd::bytes::*;
use vstd::prelude::*;

verus! {

pub const EVENT_HEADER_LEN: usize = 8;

/// Largest body length the 24-bit length field can carry.
pub const MAX_BODY_LEN: u32 = 0xFFFFFF;

pub const FLAG_SYN: u8 = 1;
pub const FLAG_FIN: u8 = 2;
pub const FLAG_DATA: u8 = 3;
pub const FLAG_WIN_UPDATE: u8 = 4;
pub const FLAG_PING: u8 = 5;
pub const FLAG_AUTH: u8 = 6;
pub const FLAG_SHUTDOWN: u8 = 7;

#[derive(Clone, Copy, Debug, PartialEq, Eq, Structural)]
pub struct Header {
    pub flag_len: u32,
    pub stream_id: u32,
}

pub open spec fn pack_flag_len(flag: u8, len: u32) -> u32 {
    (flag as int * 0x1000000 + len as int) as u32
}

/// Flags whose events carry a body on the wire.
pub open spec fn carries_body(flag: u8) -> bool {
    flag == FLAG_DATA || flag == FLAG_AUTH
}

/// The flags of the protocol; anything else is a protocol violation.
pub open spec fn known_flag(flag: u8) -> bool {
    FLAG_SYN <= flag && flag <= FLAG_SHUTDOWN
}

impl Header {
    pub open spec fn spec_flags(self) -> u8 {
        (self.flag_len / 0x1000000) as u8
    }

    pub open spec fn spec_len(self) -> u32 {
        self.flag_len % 0x1000000
    }

    /// Whether the body follows the header on the wire.
    pub open spec fn has_body(self) -> bool {
        carries_body(self.spec_flags()) && self.spec_len() > 0
    }

    pub fn new(flag: u8, stream_id: u32, len: u32) -> (r: Header)
        requires
            len <= MAX_BODY_LEN,
        ensures
            r.flag_len == pack_flag_len(flag, len),
            r.stream_id == stream_id,
            r.spec_flags() == flag,
            r.spec_len() == len,
    {
        let flag_len: u32 = flag as u32 * 0x1000000 + len;
        Header { flag_len, stream_id }
    }

    /// The flag tag, the high 8 bits of `flag_len`.
    pub fn flags(&self) -> (r: u8)
        ensures
            r == self.spec_flags(),
    {
        (self.flag_len / 0x1000000) as u8
    }

    /// The body length, the low 24 bits of `flag_len`.
    pub fn len(&self) -> (r: u32)
        ensures
            r == self.spec_len(),
    {
        self.flag_len % 0x1000000
    }
}

pub struct Event {
    pub header: Header,
    pub body: Vec<u8>,
    /// Whether the event was made on this side rather than read off the wire.
    pub local: bool,
}

impl Event {
    /// The body matches the length field, and only a body-carrying flag has one.
    pub open spec fn wf(&self) -> bool {
        if carries_body(self.header.spec_flags()) {
            self.body@.len() == self.header.spec_len()
        } else {
            self.body@.len() == 0
        }
    }
}

/// The plain layout of a header and body.
pub open spec fn plain_frame(h: Header, body: Seq<u8>) -> Seq<u8> {
    spec_u32_to_le_bytes(h.flag_len) + spec_u32_to_le_bytes(h.stream_id) + body
}

/// The header read from the first eight bytes, in the plain layout.
pub open spec fn plain_header(buf: Seq<u8>) -> Header {
    Header {
        flag_len: spec_u32_from_le_bytes(buf.subrange(0, 4)),
        stream_id: spec_u32_from_le_bytes(buf.subrange(4, 8)),
    }
}

/// Outcome of reading one event from the front of a buffer.
pub enum Parsed {
    /// The header, the body, and how many bytes the event took.
    Event(Header, Seq<u8>, nat),
    /// This many more bytes are needed.
    Need(nat),
}

/// Reading one event in the plain layout from the front of `buf`.
pub open spec fn plain_parse(buf: Seq<u8>) -> Parsed {
    if buf.len() < 8 {
        Parsed::Need((8 - buf.len()) as nat)
    } else {
        let h = plain_header(buf);
        if !h.has_body() {
            Parsed::Event(h, Seq::empty(), 8)
        } else if buf.len() < 8 + h.spec_len() {
            Parsed::Need((8 + h.spec_len() - buf.len()) as nat)
        } else {
            Parsed::Event(h, buf.subrange(8, 8 + h.spec_len()), (8 + h.spec_len()) as nat)
        }
    }
}

/// Reading `n` events one after another from the front of `buf`: the events
/// and what is left, or `None` when the bytes run short.
pub open spec fn plain_parse_n(buf: Seq<u8>, n: nat) -> Option<(Seq<(Header, Seq<u8>)>, Seq<u8>)>
    decreases n,
{
    if n == 0 {
        Some((Seq::empty(), buf))
    } else {
        match plain_parse(buf) {
            Parsed::Event(h, b, used) => match plain_parse_n(buf.subrange(used as int, buf.len() as int), (n - 1) as nat) {
                Some((evs, rest)) => Some((seq![(h, b)].add(evs), rest)),
                None => None,
            },
            Parsed::Need(_) => None,
        }
    }
}

/// The frames of a list of events, laid end to end.
pub open spec fn plain_frames(evs: Seq<(Header, Seq<u8>)>) -> Seq<u8>
    decreases evs.len(),
{
    if evs.len() == 0 {
        Seq::empty()
    } else {
        plain_frame(evs[0].0, evs[0].1) + plain_frames(evs.subrange(1, evs.len() as int))
    }
}

pub open spec fn frame_ok(h: Header, body: Seq<u8>) -> bool {
    if carries_body(h.spec_flags()) {
        body.len() == h.spec_len()
    } else {
        body.len() == 0
    }
}

/// A plain frame read back from the front of any buffer gives its event and
/// takes exactly its own bytes.
pub proof fn lemma_plain_round_trip(h: Header, body: Seq<u8>, rest: Seq<u8>)
    requires
        frame_ok(h, body),
    ensures
        plain_parse(plain_frame(h, body) + rest) == Parsed::Event(h, body, plain_frame(h, body).len()),
        plain_frame(h, body).len() == 8 + body.len(),
{
    lemma_auto_spec_u32_to_from_le_bytes();
    let f = plain_frame(h, body);
    let buf = f + rest;
    assert(spec_u32_to_le_bytes(h.flag_len).len() == 4);
    assert(spec_u32_to_le_bytes(h.stream_id).len() == 4);
    assert(f.len() == 8 + body.len());
    assert(buf.subrange(0, 4) =~= spec_u32_to_le_bytes(h.flag_len));
    assert(buf.subrange(4, 8) =~= spec_u32_to_le_bytes(h.stream_id));
    assert(plain_header(buf) == h);
    if h.has_body() {
        assert(buf.subrange(8, 8 + h.spec_len()) =~= body);
    } else {
        assert(body =~= Seq::<u8>::empty());
    }
}

/// Parsing the concatenated frames of well-formed events gives back the same
/// events, in order, and leaves nothing behind.
pub proof fn lemma_plain_parse_concat(evs: Seq<(Header, Seq<u8>)>)
    requires
        forall|i: int| 0 <= i < evs.len() ==> frame_ok(#[trigger] evs[i].0, evs[i].1),
    ensures
        plain_parse_n(plain_frames(evs), evs.len()) == Some((evs, Seq::<u8>::empty())),
    decreases evs.len(),
{
    if evs.len() > 0 {
        let tail = evs.subrange(1, evs.len() as int);
        assert forall|i: int| 0 <= i < tail.len() implies frame_ok(#[trigger] tail[i].0, tail[i].1) by {
            assert(tail[i] == evs[i + 1]);
        }
        lemma_plain_parse_concat(tail);
        assert(frame_ok(evs[0].0, evs[0].1));
        lemma_plain_round_trip(evs[0].0, evs[0].1, plain_frames(tail));
        let buf = plain_frames(evs);
        let used = plain_frame(evs[0].0, evs[0].1).len();
        assert(buf.subrange(used as int, buf.len() as int) =~= plain_frames(tail));
        assert(seq![(evs[0].0, evs[0].1)].add(tail) =~= evs);
    }
}

/// A `SYN` opening `stream_id`.
pub fn new_syn_event(stream_id: u32, local: bool) -> (r: Event)
    ensures
        r.header.spec_flags() == FLAG_SYN,
        r.header.spec_len() == 0,
        r.header.stream_id == stream_id,
        r.body@.len() == 0,
        r.local == local,
        r.wf(),
{
    Event { header: Header::new(FLAG_SYN, stream_id, 0), body: Vec::new(), local }
}

pub fn new_fin_event(stream_id: u32, local: bool) -> (r: Event)
    ensures
        r.header.spec_flags() == FLAG_FIN,
        r.header.spec_len() == 0,
        r.header.stream_id == stream_id,
        r.body@.len() == 0,
        r.local == local,
        r.wf(),
{
    Event { header: Header::new(FLAG_FIN, stream_id, 0), body: Vec::new(), local }
}

pub fn new_ping_event(stream_id: u32, local: bool) -> (r: Event)
    ensures
        r.header.spec_flags() == FLAG_PING,
        r.header.spec_len() == 0,
        r.header.stream_id == stream_id,
        r.body@.len() == 0,
        r.local == local,
        r.wf(),
{
    Event { header: Header::new(FLAG_PING, stream_id, 0), body: Vec::new(), local }
}

pub fn new_shutdown_event(stream_id: u32, local: bool) -> (r: Event)
    ensures
        r.header.spec_flags() == FLAG_SHUTDOWN,
        r.header.spec_len() == 0,
        r.header.stream_id == stream_id,
        r.body@.len() == 0,
        r.local == local,
        r.wf(),
{
    Event { header: Header::new(FLAG_SHUTDOWN, stream_id, 0), body: Vec::new(), local }
}

/// A `WINDOW_UPDATE` crediting `credit` bytes back; the credit rides in the
/// length field, so no body follows.
pub fn new_window_update_event(stream_id: u32, credit: u32, local: bool) -> (r: Event)
    requires
        credit <= MAX_BODY_LEN,
    ensures
        r.header.spec_flags() == FLAG_WIN_UPDATE,
        r.header.spec_len() == credit,
        r.header.stream_id == stream_id,
        r.body@.len() == 0,
        r.local == local,
        r.wf(),
{
    Event { header: Header::new(FLAG_WIN_UPDATE, stream_id, credit), body: Vec::new(), local }
}

fn copy_bytes(s: &[u8]) -> (r: Vec<u8>)
    ensures
        r@ == s@,
{
    let mut v: Vec<u8> = Vec::new();
    let mut i: usize = 0;
    while i < s.len()
        invariant
            i <= s@.len(),
            v@ == s@.subrange(0, i as int),
        decreases s@.len() - i,
    {
        v.push(s[i]);
        i = i + 1;
        assert(v@ =~= s@.subrange(0, i as int));
    }
    assert(v@ =~= s@);
    v
}

pub fn new_data_event(stream_id: u32, body: &[u8], local: bool) -> (r: Event)
    requires
        body@.len() <= MAX_BODY_LEN,
    ensures
        r.header.spec_flags() == FLAG_DATA,
        r.header.spec_len() == body@.len(),
        r.header.stream_id == stream_id,
        r.body@ == body@,
        r.local == local,
        r.wf(),
{
    let h = Header::new(FLAG_DATA, stream_id, body.len() as u32);
    Event { header: h, body: copy_bytes(body), local }
}

pub fn new_auth_event(stream_id: u32, body: Vec<u8>) -> (r: Event)
    requires
        body@.len() <= MAX_BODY_LEN,
    ensures
        r.header.spec_flags() == FLAG_AUTH,
        r.header.spec_len() == body@.len(),
        r.header.stream_id == stream_id,
        r.body@ == body@,
        r.local,
        r.wf(),
{
    let h = Header::new(FLAG_AUTH, stream_id, body.len() as u32);
    Event { header: h, body, local: true }
}

} // verus!
