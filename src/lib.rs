//! Host-side driver core for an ESP-AT Wi-Fi co-processor.
//!
//! The library holds the verified logic of the driver: the URC framing and
//! decoding of the byte stream ([`urc`]), the session state that the decoded
//! events mutate ([`wifi`]), the encoding of the outgoing AT commands
//! ([`commands`]), the address forms ([`net`]) and the decisions that the
//! socket operations take on command results and events ([`stack`]). The
//! blocking loop that moves bytes and polls a timer drives these functions
//! from outside.
pub mod bytes;
pub mod commands;
pub mod keywords;
pub mod net;
pub mod round_trip;
pub mod stack;
pub mod urc;
pub mod wifi;
