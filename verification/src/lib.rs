//! Core of a room-based chat server.
//!
//! The library holds everything that can be stated and proved about the
//! server: the wire codec (a small JSON object grammar, with parsing and
//! serialization proved inverse to each other), the typed commands of the
//! protocol, and the room registry with its membership and fan-out rules.
//! The sockets, threads and channels that feed it live outside, in the
//! binary: they hand the library plain strings and connection identifiers
//! and write back the lines the library tells them to.

pub mod commands;
pub mod json;
pub mod registry;
pub mod settings;
pub mod state;
