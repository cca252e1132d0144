//! A tunnel over what looks like media streams: the protocol, the sessions, and the rules by
//! which a server and its clients act.
//!
//! The library decides and computes. It holds no sockets, no timers and no locks: packets,
//! times and events come in as plain values, and what is to be done goes out as plain values.
//!
//! - The wire: [`rtp`] headers, [`wire`] packets in two modes, [`replay`] windows, and the
//!   ciphers in [`crypto`].
//! - The server's data path: [`engine`] with its [`session`]s, the [`stream`]s that it watches
//!   over, and the [`effect`]s that it leaves behind.
//! - The server's control side: the [`desk`] with its [`registry`], [`admission`] of clients,
//!   [`access`], [`credentials`], [`epoch`]s and [`traffic`].
//! - The client: the [`dispatcher`], its [`scheduler`] and [`queue`]s, and the [`tun`] device.
//! - For observers: [`dpi`], [`perf`] and [`diagnostics`].
//!
//! What holds across these parts is stated and proved in [`laws`].

pub mod access;
pub mod admission;
pub mod bytes;
pub mod class;
pub mod control;
pub mod credentials;
pub mod crypto;
pub mod desk;
pub mod diagnostics;
pub mod dispatcher;
pub mod dpi;
pub mod effect;
pub mod endpoint;
pub mod engine;
pub mod epoch;
pub mod getconf;
pub mod laws;
pub mod model;
pub mod perf;
pub mod queue;
pub mod registry;
pub mod replay;
pub mod rtp;
pub mod scheduler;
pub mod session;
pub mod slots;
pub mod stream;
pub mod table;
pub mod text;
pub mod traffic;
pub mod tun;
pub mod wire;
