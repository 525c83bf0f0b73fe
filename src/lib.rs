//! Core of a multiplexing tunnel client: the event codec, the per-direction
//! cipher context, the session handshake, the per-stream state machine and
//! the session housekeeping rules.

pub mod buffer;
pub mod cipher;
pub mod crypto;
pub mod event;
pub mod handshake;
pub mod session;
pub mod stream;
