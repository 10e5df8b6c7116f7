//! The protocol side of a Mumble voice bot.

pub mod client;
pub mod clock;
pub mod config;
pub mod connector;
pub mod cursor;
pub mod gst;
pub mod handshake;
pub mod lex;
pub mod mumble;
pub mod network;
pub mod pcm;
pub mod protocol;
pub mod session;
pub mod speech;
pub mod tcp;
pub mod text;
pub mod udp;
pub mod util;
pub mod varint;
pub mod wire;
