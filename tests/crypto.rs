use bytes::BytesMut;
use rmux_core::crypto::{CryptoContext, DecryptError, Method, METHOD_CHACHA20_POLY1305};
use rmux_core::event::{
    new_data_event, new_fin_event, Header, EVENT_HEADER_LEN, FLAG_DATA, FLAG_FIN, FLAG_SYN,
};
use std::str;

const KEY: &str = "21321321321321312321321321212asdfasdasdas1";

#[test]
fn test_crypto1() {
    let ev = new_fin_event(100, false);
    let mut ctx = CryptoContext::new(METHOD_CHACHA20_POLY1305, KEY, 21321312);
    let mut buf = BytesMut::new();
    ctx.encrypt(&ev, &mut buf);
    println!("encoded buf len:{} {}", buf.capacity(), buf.len());

    let r = ctx.decrypt(&mut buf).unwrap();
    assert_eq!(r.header.stream_id, 100);
    assert_eq!(r.header.len(), 0);
    assert_eq!(buf.len(), 0);
}

#[test]
fn test_crypto2() {
    let s = "hello,world";
    let ev = new_data_event(100, s.as_bytes(), false);
    let mut ctx = CryptoContext::new(METHOD_CHACHA20_POLY1305, KEY, 21321312);
    let mut buf = BytesMut::new();
    ctx.encrypt(&ev, &mut buf);
    println!(
        "encoded buf len:{} {} {} {}",
        buf.capacity(),
        buf.len(),
        ev.header.flag_len,
        ev.header.stream_id
    );

    let r = ctx.decrypt(&mut buf).unwrap();
    println!("decode event len:{} {}", r.header.flag_len, r.header.stream_id);
    assert_eq!(r.header.stream_id, 100);
    assert_eq!(r.header.flags(), FLAG_DATA);
    assert_eq!(buf.len(), 0);
    assert_eq!(str::from_utf8(&r.body[..]).unwrap(), s);
}

#[test]
fn test_crypto3() {
    let ev = new_fin_event(100, false);
    let mut ctx = CryptoContext::new("none", KEY, 21321312);
    let mut buf = BytesMut::new();
    ctx.encrypt(&ev, &mut buf);
    println!("encoded buf len:{} {}", buf.capacity(), buf.len());

    let r = ctx.decrypt(&mut buf).unwrap();
    assert_eq!(r.header.stream_id, 100);
    assert_eq!(r.header.len(), 0);
    assert_eq!(buf.len(), 0);
}

#[test]
fn test_crypto4() {
    let s = "hello,world";
    let ev = new_data_event(100, s.as_bytes(), false);
    let mut ctx = CryptoContext::new("none", KEY, 21321312);
    let mut buf = BytesMut::new();
    ctx.encrypt(&ev, &mut buf);
    println!(
        "encoded buf len:{} {} {} {}",
        buf.capacity(),
        buf.len(),
        ev.header.flag_len,
        ev.header.stream_id
    );

    let r = ctx.decrypt(&mut buf).unwrap();
    println!("decode event len:{} {}", r.header.flag_len, r.header.stream_id);
    assert_eq!(r.header.stream_id, 100);
    assert_eq!(r.header.flags(), FLAG_DATA);
    assert_eq!(buf.len(), 0);
    assert_eq!(str::from_utf8(&r.body[..]).unwrap(), s);
}

#[test]
fn method_names() {
    assert_eq!(Method::from_name("none"), Some(Method::Plain));
    assert_eq!(Method::from_name("chacha20poly1305"), Some(Method::ChaCha20Poly1305));
    assert_eq!(Method::from_name("aes"), None);
    assert_eq!(Method::from_name(""), None);
}

#[test]
fn key_is_padded_with_f() {
    let ctx = CryptoContext::new("none", "key", 5);
    let mut want = b"key".to_vec();
    want.resize(32, b'F');
    assert_eq!(ctx.key, want);
    assert_eq!(ctx.encrypt_nonce, 5);
    assert_eq!(ctx.decrypt_nonce, 5);
    let long = CryptoContext::new("none", KEY, 0);
    assert_eq!(long.key, KEY.as_bytes().to_vec());
}

#[test]
fn plain_layout_is_exact() {
    let ev = new_data_event(0x01020304, b"ab", true);
    let mut ctx = CryptoContext::new("none", "k", 9);
    let mut buf = BytesMut::new();
    ctx.encrypt(&ev, &mut buf);
    assert_eq!(&buf[..], &[2, 0, 0, 3, 4, 3, 2, 1, b'a', b'b'][..]);
    assert_eq!(ctx.encrypt_nonce, 10);
    assert_eq!(ctx.decrypt_nonce, 9);
}

#[test]
fn header_fields_pack_flag_and_length() {
    let h = Header::new(FLAG_SYN, 7, 0x123456);
    assert_eq!(h.flag_len, 0x01123456);
    assert_eq!(h.flags(), FLAG_SYN);
    assert_eq!(h.len(), 0x123456);
    assert_eq!(EVENT_HEADER_LEN, 8);
}

#[test]
fn sealed_frame_hides_header_and_body() {
    let ev = new_data_event(100, b"hello,world", true);
    let mut ctx = CryptoContext::new(METHOD_CHACHA20_POLY1305, KEY, 3);
    let mut buf = BytesMut::new();
    ctx.encrypt(&ev, &mut buf);
    assert_eq!(buf.len(), 8 + 11 + 16);
    let plain_header: Vec<u8> = [ev.header.flag_len.to_le_bytes(), ev.header.stream_id.to_le_bytes()].concat();
    assert_ne!(&buf[0..8], &plain_header[..]);
    assert_ne!(&buf[8..19], b"hello,world");
}

#[test]
fn round_trip_both_methods_advances_both_nonces() {
    for m in ["none", METHOD_CHACHA20_POLY1305] {
        let mut tx = CryptoContext::new(m, "key", 40);
        let mut rx = CryptoContext::new(m, "key", 40);
        let mut wire = BytesMut::new();
        let a = new_data_event(1, b"first", true);
        let b = new_fin_event(1, true);
        let c = new_data_event(3, &[7u8; 300], true);
        tx.encrypt(&a, &mut wire);
        tx.encrypt(&b, &mut wire);
        tx.encrypt(&c, &mut wire);
        assert_eq!(tx.encrypt_nonce, 43);
        for want in [&a, &b, &c] {
            let got = rx.decrypt(&mut wire).unwrap();
            assert_eq!(got.header, want.header);
            assert_eq!(got.body, want.body);
            assert!(!got.local);
        }
        assert_eq!(rx.decrypt_nonce, 43);
        assert_eq!(wire.len(), 0);
    }
}

#[test]
fn short_header_asks_for_the_rest() {
    let mut ctx = CryptoContext::new("none", "key", 0);
    let mut buf = BytesMut::from(&[1u8, 2, 3][..]);
    assert_eq!(ctx.decrypt(&mut buf).err(), Some(DecryptError::Need(5)));
    assert_eq!(buf.len(), 3);
    assert_eq!(ctx.decrypt_nonce, 0);
}

#[test]
fn short_sealed_body_asks_for_body_and_tag() {
    let mut tx = CryptoContext::new(METHOD_CHACHA20_POLY1305, "key", 0);
    let mut rx = CryptoContext::new(METHOD_CHACHA20_POLY1305, "key", 0);
    let mut wire = BytesMut::new();
    tx.encrypt(&new_data_event(5, b"0123456789", true), &mut wire);
    let mut part = BytesMut::from(&wire[0..12]);
    assert_eq!(rx.decrypt(&mut part).err(), Some(DecryptError::Need(8 + 10 + 16 - 12)));
    assert_eq!(rx.decrypt_nonce, 0);
}

#[test]
fn fragmented_decrypt() {
    let body: Vec<u8> = (0..5000u32).map(|i| (i % 251) as u8).collect();
    for m in ["none", METHOD_CHACHA20_POLY1305] {
        let mut tx = CryptoContext::new(m, "key", 11);
        let mut rx = CryptoContext::new(m, "key", 11);
        let mut wire = BytesMut::new();
        tx.encrypt(&new_data_event(9, &body, true), &mut wire);
        let cuts = [3usize, 5, 100, 900, 1000, 2500];
        let mut pieces = Vec::new();
        let mut at = 0;
        for c in cuts {
            pieces.push(wire[at..at + c].to_vec());
            at += c;
        }
        pieces.push(wire[at..].to_vec());
        assert_eq!(pieces.len(), 7);
        let mut buf = BytesMut::new();
        let mut events = Vec::new();
        for p in pieces {
            buf.extend_from_slice(&p);
            match rx.decrypt(&mut buf) {
                Ok(ev) => events.push(ev),
                Err(DecryptError::Need(n)) => assert!(n > 0),
                Err(DecryptError::Failed) => panic!("authentication failed"),
            }
        }
        assert_eq!(events.len(), 1);
        assert_eq!(events[0].body, body);
        assert_eq!(events[0].header.stream_id, 9);
        assert_eq!(buf.len(), 0);
    }
}

#[test]
fn aead_tamper_is_refused() {
    let mut tx = CryptoContext::new(METHOD_CHACHA20_POLY1305, "key", 77);
    let mut rx = CryptoContext::new(METHOD_CHACHA20_POLY1305, "key", 77);
    let mut wire = BytesMut::new();
    tx.encrypt(&new_data_event(2, b"payload", true), &mut wire);
    let last = wire.len() - 1;
    wire[last] ^= 1;
    let before = wire.len();
    assert_eq!(rx.decrypt(&mut wire).err(), Some(DecryptError::Failed));
    assert_eq!(rx.decrypt_nonce, 77);
    assert_eq!(wire.len(), before);
}

#[test]
fn body_bit_flip_is_refused() {
    let mut tx = CryptoContext::new(METHOD_CHACHA20_POLY1305, "key", 1);
    let mut wire = BytesMut::new();
    tx.encrypt(&new_data_event(2, b"payload", true), &mut wire);
    for i in 8..wire.len() {
        for bit in 0..8 {
            let mut rx = CryptoContext::new(METHOD_CHACHA20_POLY1305, "key", 1);
            let mut copy = wire.clone();
            copy[i] ^= 1 << bit;
            assert_eq!(rx.decrypt(&mut copy).err(), Some(DecryptError::Failed));
        }
    }
}

#[test]
fn wrong_nonce_is_refused() {
    let mut tx = CryptoContext::new(METHOD_CHACHA20_POLY1305, "key", 1);
    let mut rx = CryptoContext::new(METHOD_CHACHA20_POLY1305, "key", 2);
    let mut wire = BytesMut::new();
    tx.encrypt(&new_data_event(2, b"payload", true), &mut wire);
    // the header no longer reads back, so the payload never comes out
    match rx.decrypt(&mut wire) {
        Ok(ev) => assert_ne!(ev.body, b"payload".to_vec()),
        Err(_) => {}
    }
}

#[test]
fn reset_sets_both_nonces() {
    let mut ctx = CryptoContext::new("none", "key", 3);
    ctx.reset(42);
    assert_eq!(ctx.encrypt_nonce, 42);
    assert_eq!(ctx.decrypt_nonce, 42);
}

#[test]
fn flagless_body_is_not_read() {
    let mut ctx = CryptoContext::new("none", "key", 0);
    let mut buf = BytesMut::from(&[5u8, 0, 0, FLAG_FIN, 1, 0, 0, 0, 9, 9, 9, 9, 9][..]);
    let ev = ctx.decrypt(&mut buf).unwrap();
    assert_eq!(ev.header.flags(), FLAG_FIN);
    assert_eq!(ev.header.len(), 5);
    assert!(ev.body.is_empty());
    assert_eq!(buf.len(), 5);
}
