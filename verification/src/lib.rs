//! Client driver for a key-value store's binary wire protocol: typed
//! argument serialization, command/reply codec, connection handshake and
//! request/reply rules, and sentinel-based master discovery.

pub mod args;
pub mod codec;
pub mod connection;
pub mod decode;
pub mod command;
pub mod sentinel;
pub mod digits;
