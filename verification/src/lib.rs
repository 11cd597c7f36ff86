//! Discovery and monitoring of Minecraft Java Edition servers.
//!
//! The library holds what the scanner decides and computes: the codec of the
//! status protocol, the shuffled IPv4 address generator, the blacklist, the
//! reading of a status, the player delta, and the steps of the probe engine,
//! of the server store, of the fan-out and of the rescanner. Sockets and the
//! database belong to the program around it, which hands each event to the
//! library and does what the library asks for next.
//!
//! An IPv4 address is a `u32`, its first octet in the most significant byte.

pub mod config;
pub mod error;

pub mod varint;
pub mod be16;
pub mod string;
pub mod packets;

pub mod permute;
pub mod text;
pub mod net;
pub mod blacklist;
pub mod enumerate;

pub mod uuid;
pub mod json;
pub mod status;
pub mod delta;

pub mod store;
pub mod probe;
pub mod fanout;
pub mod rescan;
