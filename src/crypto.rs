//! The per-direction cipher context: seals and opens one event at a time,
//! advancing its nonce by one on each success.
use crate::buffer::{buf_advance, buf_at, buf_len, buf_put, buf_view};
use crate::cipher::{
    aead_open_into, aead_seal, aead_seal_into, skip32_dec, skip32_decode, skip32_enc,
    skip32_encode,
};
use crate::event::{
    carries_body, lemma_plain_round_trip, plain_frame, plain_parse, Event, Header, Parsed,
    MAX_BODY_LEN,
};
use vstd::bytes::*;
use vstd::prelude::*;
use vstd::string::*;

verus! {

pub const METHOD_CHACHA20_POLY1305: &'static str = "chacha20poly1305";

pub const METHOD_NONE: &'static str = "none";

/// The cipher a context runs.
#[derive(Clone, Copy, Debug, PartialEq, Eq, Structural)]
pub enum Method {
    /// Identity: the plain layout, for testing.
    Plain,
    /// SKIP32-hidden header, ChaCha20-Poly1305-sealed body.
    ChaCha20Poly1305,
}

pub open spec fn none_name() -> Seq<u8> {
    seq![110u8, 111u8, 110u8, 101u8]
}

pub open spec fn chacha_name() -> Seq<u8> {
    seq![
        99u8, 104u8, 97u8, 99u8, 104u8, 97u8, 50u8, 48u8,
        112u8, 111u8, 108u8, 121u8, 49u8, 51u8, 48u8, 53u8,
    ]
}

/// The method a configuration name selects, if any.
pub open spec fn method_named(name: Seq<u8>) -> Option<Method> {
    if name == none_name() {
        Some(Method::Plain)
    } else if name == chacha_name() {
        Some(Method::ChaCha20Poly1305)
    } else {
        None
    }
}

fn bytes_equal(a: &[u8], b: &Vec<u8>) -> (r: bool)
    ensures
        r == (a@ == b@),
{
    if a.len() != b.len() {
        return false;
    }
    let mut i: usize = 0;
    while i < a.len()
        invariant
            a@.len() == b@.len(),
            i <= a@.len(),
            a@.subrange(0, i as int) == b@.subrange(0, i as int),
        decreases a@.len() - i,
    {
        if a[i] != b[i] {
            assert(a@[i as int] != b@[i as int]);
            return false;
        }
        assert(a@.subrange(0, i + 1) =~= a@.subrange(0, i as int).push(a@[i as int]));
        assert(b@.subrange(0, i + 1) =~= b@.subrange(0, i as int).push(b@[i as int]));
        i = i + 1;
    }
    assert(a@ =~= a@.subrange(0, i as int));
    assert(b@ =~= b@.subrange(0, i as int));
    true
}

impl Method {
    /// The method named `name` in a configuration.
    pub fn from_name(name: &str) -> (r: Option<Method>)
        ensures
            r == method_named(name.spec_bytes()),
    {
        let b = name.as_bytes();
        let none_v: Vec<u8> = vec![110u8, 111u8, 110u8, 101u8];
        let chacha_v: Vec<u8> = vec![
            99u8, 104u8, 97u8, 99u8, 104u8, 97u8, 50u8, 48u8,
            112u8, 111u8, 108u8, 121u8, 49u8, 51u8, 48u8, 53u8,
        ];
        assert(none_v@ =~= none_name());
        assert(chacha_v@ =~= chacha_name());
        if bytes_equal(b, &none_v) {
            Some(Method::Plain)
        } else if bytes_equal(b, &chacha_v) {
            Some(Method::ChaCha20Poly1305)
        } else {
            None
        }
    }
}

/// A pre-shared key padded with `F` up to 32 bytes.
pub open spec fn padded_key(k: Seq<u8>) -> Seq<u8> {
    if k.len() >= 32 {
        k
    } else {
        k + Seq::new((32 - k.len()) as nat, |_i: int| 70u8)
    }
}

/// The 10-byte SKIP32 key of a frame: two key bytes, then the nonce (LE).
pub open spec fn header_key(key: Seq<u8>, nonce: u64) -> Seq<u8> {
    key.subrange(0, 2) + spec_u64_to_le_bytes(nonce)
}

/// The 12-byte AEAD nonce: the leading bytes of the 128-bit LE counter.
pub open spec fn aead_nonce(nonce: u64) -> Seq<u8> {
    spec_u64_to_le_bytes(nonce) + seq![0u8, 0u8, 0u8, 0u8]
}

/// Whether the body is sealed and sent after the header.
pub open spec fn sends_body(h: Header, body: Seq<u8>) -> bool {
    carries_body(h.spec_flags()) && body.len() > 0
}

/// The bytes `encrypt` appends for one event.
pub open spec fn sealed_frame(m: Method, key: Seq<u8>, nonce: u64, h: Header, body: Seq<u8>) -> Seq<u8> {
    match m {
        Method::Plain => plain_frame(h, body),
        Method::ChaCha20Poly1305 => {
            let hk = header_key(key, nonce);
            spec_u32_to_le_bytes(skip32_enc(hk, h.flag_len)) + spec_u32_to_le_bytes(
                skip32_enc(hk, h.stream_id),
            ) + if sends_body(h, body) {
                aead_seal(key.subrange(0, 32), aead_nonce(nonce), body)
            } else {
                Seq::empty()
            }
        },
    }
}

/// The plaintext that a sealed input opens to, if it is the seal of one.
pub open spec fn aead_open(key: Seq<u8>, nonce: Seq<u8>, sealed: Seq<u8>) -> Option<Seq<u8>> {
    if exists|p: Seq<u8>| aead_seal(key, nonce, p) == sealed {
        Some(choose|p: Seq<u8>| aead_seal(key, nonce, p) == sealed)
    } else {
        None
    }
}

/// Outcome of opening one event at the front of a buffer.
pub enum Decrypted {
    /// The header, the body, and how many bytes the event took.
    Event(Header, Seq<u8>, nat),
    /// This many more bytes are needed.
    Need(nat),
    /// The body failed authentication.
    Failed,
}

/// The header hidden in the first eight bytes of a sealed frame.
pub open spec fn sealed_header(key: Seq<u8>, nonce: u64, buf: Seq<u8>) -> Header {
    let hk = header_key(key, nonce);
    Header {
        flag_len: skip32_dec(hk, spec_u32_from_le_bytes(buf.subrange(0, 4))),
        stream_id: skip32_dec(hk, spec_u32_from_le_bytes(buf.subrange(4, 8))),
    }
}

/// Opening one event from the front of `buf` at the given nonce.
pub open spec fn decrypt_spec(m: Method, key: Seq<u8>, nonce: u64, buf: Seq<u8>) -> Decrypted {
    match m {
        Method::Plain => match plain_parse(buf) {
            Parsed::Event(h, b, used) => Decrypted::Event(h, b, used),
            Parsed::Need(n) => Decrypted::Need(n),
        },
        Method::ChaCha20Poly1305 => if buf.len() < 8 {
            Decrypted::Need((8 - buf.len()) as nat)
        } else {
            let h = sealed_header(key, nonce, buf);
            let total = 8 + h.spec_len() + 16;
            if !h.has_body() {
                Decrypted::Event(h, Seq::empty(), 8)
            } else if buf.len() < total {
                Decrypted::Need((total - buf.len()) as nat)
            } else {
                match aead_open(key.subrange(0, 32), aead_nonce(nonce), buf.subrange(8, total)) {
                    Some(p) => Decrypted::Event(h, p, total as nat),
                    None => Decrypted::Failed,
                }
            }
        },
    }
}

/// Why no event could be opened.
#[derive(Clone, Copy, Debug, PartialEq, Eq, Structural)]
pub enum DecryptError {
    /// Not an error: this many more bytes must be read first.
    Need(u32),
    /// The body failed authentication; the session must end.
    Failed,
}

/// What `decrypt` returns and leaves in the buffer, against `decrypt_spec`.
pub open spec fn decrypt_agrees(d: Decrypted, r: Result<Event, DecryptError>, before: Seq<u8>, after: Seq<u8>) -> bool {
    match d {
        Decrypted::Event(h, b, used) => match r {
            Ok(ev) => ev.header == h && ev.body@ == b && !ev.local
                && after == before.subrange(used as int, before.len() as int),
            Err(_) => false,
        },
        Decrypted::Need(n) => r == Err::<Event, DecryptError>(DecryptError::Need(n as u32)) && after == before,
        Decrypted::Failed => r == Err::<Event, DecryptError>(DecryptError::Failed) && after == before,
    }
}

pub struct CryptoContext {
    /// The padded secret key, at least 32 bytes.
    pub key: Vec<u8>,
    pub encrypt_nonce: u64,
    pub decrypt_nonce: u64,
    pub method: Method,
}

impl CryptoContext {
    pub open spec fn wf(&self) -> bool {
        self.key@.len() >= 32
    }

    /// A context for `method` with key `k` padded to 32 bytes, both nonces at
    /// `nonce`. An unknown method name is a caller error.
    pub fn new(method: &str, k: &str, nonce: u64) -> (r: CryptoContext)
        requires
            method_named(method.spec_bytes()) is Some,
        ensures
            r.wf(),
            r.method == method_named(method.spec_bytes())->Some_0,
            r.key@ == padded_key(k.spec_bytes()),
            r.encrypt_nonce == nonce,
            r.decrypt_nonce == nonce,
    {
        let kb = k.as_bytes();
        let mut key: Vec<u8> = Vec::new();
        let mut i: usize = 0;
        while i < kb.len()
            invariant
                i <= kb@.len(),
                key@ == kb@.subrange(0, i as int),
            decreases kb@.len() - i,
        {
            key.push(kb[i]);
            i = i + 1;
            assert(key@ =~= kb@.subrange(0, i as int));
        }
        assert(kb@.subrange(0, kb@.len() as int) =~= kb@);
        while key.len() < 32
            invariant
                kb@.len() <= key@.len() <= 32 || key@.len() == kb@.len(),
                key@.subrange(0, kb@.len() as int) == kb@,
                forall|j: int| kb@.len() <= j < key@.len() ==> key@[j] == 70u8,
            decreases 32 - key@.len(),
        {
            key.push(70u8);
        }
        assert(key@ =~= padded_key(kb@));
        let m = match Method::from_name(method) {
            Some(m) => m,
            None => Method::Plain,
        };
        CryptoContext { key, encrypt_nonce: nonce, decrypt_nonce: nonce, method: m }
    }

    /// Seals `ev` onto the back of `out` and advances the outbound nonce.
    /// A well-formed event comes back out of `decrypt` at the same nonce,
    /// whatever follows it in the buffer.
    pub fn encrypt(&mut self, ev: &Event, out: &mut bytes::BytesMut)
        requires
            old(self).wf(),
            old(self).encrypt_nonce < u64::MAX,
            ev.body@.len() <= MAX_BODY_LEN,
        ensures
            final(self).wf(),
            final(self).key == old(self).key,
            final(self).method == old(self).method,
            final(self).decrypt_nonce == old(self).decrypt_nonce,
            final(self).encrypt_nonce == old(self).encrypt_nonce + 1,
            buf_view(*final(out)) == buf_view(*old(out)) + sealed_frame(
                old(self).method, old(self).key@, old(self).encrypt_nonce, ev.header, ev.body@),
            ev.wf() ==> forall|rest: Seq<u8>|
                #[trigger] decrypt_spec(old(self).method, old(self).key@, old(self).encrypt_nonce,
                    sealed_frame(old(self).method, old(self).key@, old(self).encrypt_nonce, ev.header, ev.body@) + rest)
                    == Decrypted::Event(ev.header, ev.body@,
                    sealed_frame(old(self).method, old(self).key@, old(self).encrypt_nonce, ev.header, ev.body@).len()),
    {
        match self.method {
            Method::Plain => {
                none_encrypt_event(self, ev, out);
                proof {
                    if ev.wf() {
                        assert forall|rest: Seq<u8>| #[trigger] decrypt_spec(Method::Plain, self.key@, self.encrypt_nonce,
                            plain_frame(ev.header, ev.body@) + rest)
                            == Decrypted::Event(ev.header, ev.body@, plain_frame(ev.header, ev.body@).len()) by {
                            lemma_plain_round_trip(ev.header, ev.body@, rest);
                        }
                    }
                }
            },
            Method::ChaCha20Poly1305 => chacha20poly1305_encrypt_event(self, ev, out),
        }
        self.encrypt_nonce = self.encrypt_nonce + 1;
    }

    /// Opens one event from the front of `buf`. On success the event's bytes
    /// leave the buffer and the inbound nonce advances by one; otherwise
    /// neither changes.
    pub fn decrypt(&mut self, buf: &mut bytes::BytesMut) -> (r: Result<Event, DecryptError>)
        requires
            old(self).wf(),
            old(self).decrypt_nonce < u64::MAX,
        ensures
            final(self).wf(),
            final(self).key == old(self).key,
            final(self).method == old(self).method,
            final(self).encrypt_nonce == old(self).encrypt_nonce,
            final(self).decrypt_nonce == if r is Ok {
                old(self).decrypt_nonce + 1
            } else {
                old(self).decrypt_nonce as int
            },
            decrypt_agrees(
                decrypt_spec(old(self).method, old(self).key@, old(self).decrypt_nonce, buf_view(*old(buf))),
                r, buf_view(*old(buf)), buf_view(*final(buf))),
    {
        let r = match self.method {
            Method::Plain => none_decrypt_event(self, buf),
            Method::ChaCha20Poly1305 => chacha20poly1305_decrypt_event(self, buf),
        };
        if r.is_ok() {
            self.decrypt_nonce = self.decrypt_nonce + 1;
        }
        r
    }

    /// Sets both nonces to `nonce`.
    pub fn reset(&mut self, nonce: u64)
        ensures
            final(self).key == old(self).key,
            final(self).method == old(self).method,
            final(self).encrypt_nonce == nonce,
            final(self).decrypt_nonce == nonce,
    {
        self.decrypt_nonce = nonce;
        self.encrypt_nonce = nonce;
    }
}

fn copy_out(buf: &bytes::BytesMut, from: usize, to: usize) -> (r: Vec<u8>)
    requires
        from <= to <= buf_view(*buf).len(),
    ensures
        r@ == buf_view(*buf).subrange(from as int, to as int),
{
    let mut v: Vec<u8> = Vec::new();
    let mut i: usize = from;
    while i < to
        invariant
            from <= i <= to <= buf_view(*buf).len(),
            v@ == buf_view(*buf).subrange(from as int, i as int),
        decreases to - i,
    {
        v.push(buf_at(buf, i));
        i = i + 1;
        assert(v@ =~= buf_view(*buf).subrange(from as int, i as int));
    }
    v
}

fn read_u32_le(buf: &bytes::BytesMut, at: usize) -> (r: u32)
    requires
        at <= 4,
        at + 4 <= buf_view(*buf).len(),
    ensures
        r == spec_u32_from_le_bytes(buf_view(*buf).subrange(at as int, at + 4)),
{
    let v = copy_out(buf, at, at + 4);
    u32_from_le_bytes(v.as_slice())
}

/// Writes `ev` in the plain layout at the back of `out`.
pub fn none_encrypt_event(ctx: &CryptoContext, ev: &Event, out: &mut bytes::BytesMut)
    ensures
        buf_view(*final(out)) == buf_view(*old(out)) + plain_frame(ev.header, ev.body@),
{
    let a = u32_to_le_bytes(ev.header.flag_len);
    let b = u32_to_le_bytes(ev.header.stream_id);
    buf_put(out, a.as_slice());
    buf_put(out, b.as_slice());
    if ev.body.len() > 0 {
        buf_put(out, ev.body.as_slice());
    }
    assert(buf_view(*final(out)) =~= buf_view(*old(out)) + plain_frame(ev.header, ev.body@));
}

/// Reads one event in the plain layout from the front of `buf`.
pub fn none_decrypt_event(ctx: &CryptoContext, buf: &mut bytes::BytesMut) -> (r: Result<Event, DecryptError>)
    ensures
        decrypt_agrees(decrypt_spec(Method::Plain, ctx.key@, ctx.decrypt_nonce, buf_view(*old(buf))),
            r, buf_view(*old(buf)), buf_view(*final(buf))),
{
    let have = buf_len(buf);
    if have < 8 {
        return Err(DecryptError::Need((8 - have) as u32));
    }
    let h = Header { flag_len: read_u32_le(buf, 0), stream_id: read_u32_le(buf, 4) };
    let flags = h.flags();
    let len = h.len();
    if (flags != crate::event::FLAG_DATA && flags != crate::event::FLAG_AUTH) || len == 0 {
        buf_advance(buf, 8);
        return Ok(Event { header: h, body: Vec::new(), local: false });
    }
    let dlen = len as usize;
    if have - 8 < dlen {
        return Err(DecryptError::Need((dlen + 8 - have) as u32));
    }
    let body = copy_out(buf, 8, 8 + dlen);
    buf_advance(buf, 8 + dlen);
    Ok(Event { header: h, body, local: false })
}

fn header_key_bytes(key: &Vec<u8>, nonce: u64) -> (r: [u8; 10])
    requires
        key@.len() >= 2,
    ensures
        r@ == header_key(key@, nonce),
{
    let n = u64_to_le_bytes(nonce);
    let r: [u8; 10] = [key[0], key[1], n[0], n[1], n[2], n[3], n[4], n[5], n[6], n[7]];
    assert(r@ =~= header_key(key@, nonce));
    r
}

fn aead_nonce_bytes(nonce: u64) -> (r: Vec<u8>)
    ensures
        r@ == aead_nonce(nonce),
        r@.len() == 12,
{
    let mut n = u64_to_le_bytes(nonce);
    n.push(0u8);
    n.push(0u8);
    n.push(0u8);
    n.push(0u8);
    assert(n@ =~= aead_nonce(nonce));
    n
}

fn key32(key: &Vec<u8>) -> (r: Vec<u8>)
    requires
        key@.len() >= 32,
    ensures
        r@ == key@.subrange(0, 32),
{
    let mut v: Vec<u8> = Vec::new();
    let mut i: usize = 0;
    while i < 32
        invariant
            i <= 32 <= key@.len(),
            v@ == key@.subrange(0, i as int),
        decreases 32 - i,
    {
        v.push(key[i]);
        i = i + 1;
        assert(v@ =~= key@.subrange(0, i as int));
    }
    v
}

/// Seals `ev` at the context's outbound nonce onto the back of `out`.
pub fn chacha20poly1305_encrypt_event(ctx: &CryptoContext, ev: &Event, out: &mut bytes::BytesMut)
    requires
        ctx.wf(),
        ev.body@.len() <= MAX_BODY_LEN,
    ensures
        buf_view(*final(out)) == buf_view(*old(out)) + sealed_frame(
            Method::ChaCha20Poly1305, ctx.key@, ctx.encrypt_nonce, ev.header, ev.body@),
        ev.wf() ==> forall|rest: Seq<u8>|
            #[trigger] decrypt_spec(Method::ChaCha20Poly1305, ctx.key@, ctx.encrypt_nonce,
                sealed_frame(Method::ChaCha20Poly1305, ctx.key@, ctx.encrypt_nonce, ev.header, ev.body@) + rest)
                == Decrypted::Event(ev.header, ev.body@,
                sealed_frame(Method::ChaCha20Poly1305, ctx.key@, ctx.encrypt_nonce, ev.header, ev.body@).len()),
{
    let sk = header_key_bytes(&ctx.key, ctx.encrypt_nonce);
    let e1 = skip32_encode(&sk, ev.header.flag_len);
    let e2 = skip32_encode(&sk, ev.header.stream_id);
    let a = u32_to_le_bytes(e1);
    let b = u32_to_le_bytes(e2);
    buf_put(out, a.as_slice());
    buf_put(out, b.as_slice());
    let flags = ev.header.flags();
    let ghost m = ctx.key@;
    let ghost nonce = ctx.encrypt_nonce;
    let ghost frame = sealed_frame(Method::ChaCha20Poly1305, m, nonce, ev.header, ev.body@);
    if (flags == crate::event::FLAG_DATA || flags == crate::event::FLAG_AUTH) && ev.body.len() > 0 {
        let k = key32(&ctx.key);
        let n = aead_nonce_bytes(ctx.encrypt_nonce);
        let mut sealed: Vec<u8> = vec![0u8; ev.body.len() + 16];
        aead_seal_into(k.as_slice(), n.as_slice(), ev.body.as_slice(), sealed.as_mut_slice());
        buf_put(out, sealed.as_slice());
        assert(buf_view(*final(out)) =~= buf_view(*old(out)) + frame);
        proof {
            if ev.wf() {
                lemma_auto_spec_u32_to_from_le_bytes();
                assert forall|rest: Seq<u8>| #[trigger] decrypt_spec(Method::ChaCha20Poly1305, m, nonce, frame + rest)
                    == Decrypted::Event(ev.header, ev.body@, frame.len()) by {
                    let buf = frame + rest;
                    assert(spec_u32_to_le_bytes(e1).len() == 4);
                    assert(spec_u32_to_le_bytes(e2).len() == 4);
                    assert(buf.subrange(0, 4) =~= spec_u32_to_le_bytes(e1));
                    assert(buf.subrange(4, 8) =~= spec_u32_to_le_bytes(e2));
                    assert(sealed_header(m, nonce, buf) == ev.header);
                    let total = 8 + ev.header.spec_len() + 16;
                    assert(buf.subrange(8, total) =~= sealed@);
                    assert(aead_seal(m.subrange(0, 32), aead_nonce(nonce), ev.body@) == sealed@);
                    assert(aead_open(m.subrange(0, 32), aead_nonce(nonce), sealed@) == Some(ev.body@));
                }
            }
        }
    } else {
        assert(buf_view(*final(out)) =~= buf_view(*old(out)) + frame);
        proof {
            if ev.wf() {
                lemma_auto_spec_u32_to_from_le_bytes();
                assert forall|rest: Seq<u8>| #[trigger] decrypt_spec(Method::ChaCha20Poly1305, m, nonce, frame + rest)
                    == Decrypted::Event(ev.header, ev.body@, frame.len()) by {
                    let buf = frame + rest;
                    assert(spec_u32_to_le_bytes(e1).len() == 4);
                    assert(spec_u32_to_le_bytes(e2).len() == 4);
                    assert(buf.subrange(0, 4) =~= spec_u32_to_le_bytes(e1));
                    assert(buf.subrange(4, 8) =~= spec_u32_to_le_bytes(e2));
                    assert(sealed_header(m, nonce, buf) == ev.header);
                    assert(ev.body@ =~= Seq::<u8>::empty());
                }
            }
        }
    }
}

/// Opens one sealed event at the context's inbound nonce from the front of `buf`.
pub fn chacha20poly1305_decrypt_event(ctx: &CryptoContext, buf: &mut bytes::BytesMut) -> (r: Result<Event, DecryptError>)
    requires
        ctx.wf(),
    ensures
        decrypt_agrees(decrypt_spec(Method::ChaCha20Poly1305, ctx.key@, ctx.decrypt_nonce, buf_view(*old(buf))),
            r, buf_view(*old(buf)), buf_view(*final(buf))),
{
    let have = buf_len(buf);
    if have < 8 {
        return Err(DecryptError::Need((8 - have) as u32));
    }
    let sk = header_key_bytes(&ctx.key, ctx.decrypt_nonce);
    let w1 = read_u32_le(buf, 0);
    let w2 = read_u32_le(buf, 4);
    let h = Header { flag_len: skip32_decode(&sk, w1), stream_id: skip32_decode(&sk, w2) };
    let flags = h.flags();
    let len = h.len();
    if (flags != crate::event::FLAG_DATA && flags != crate::event::FLAG_AUTH) || len == 0 {
        buf_advance(buf, 8);
        assert(Seq::<u8>::empty() =~= Seq::<u8>::empty());
        return Ok(Event { header: h, body: Vec::new(), local: false });
    }
    let dlen = len as usize;
    if have - 8 < dlen + 16 {
        return Err(DecryptError::Need((dlen + 8 + 16 - have) as u32));
    }
    let sealed = copy_out(buf, 8, 8 + dlen + 16);
    let k = key32(&ctx.key);
    let n = aead_nonce_bytes(ctx.decrypt_nonce);
    let mut body: Vec<u8> = vec![0u8; dlen];
    let ok = aead_open_into(k.as_slice(), n.as_slice(), sealed.as_slice(), body.as_mut_slice());
    if !ok {
        return Err(DecryptError::Failed);
    }
    proof {
        let p = choose|p: Seq<u8>| aead_seal(k@, n@, p) == sealed@;
        assert(aead_seal(k@, n@, body@) == sealed@);
        assert(aead_seal(k@, n@, p) == sealed@);
    }
    buf_advance(buf, 8 + dlen + 16);
    Ok(Event { header: h, body, local: false })
}

} // verus!
