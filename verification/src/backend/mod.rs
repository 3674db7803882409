//! The QuantumLink v2 initiator: pairing with a device or reconnecting to it, the framing of
//! its transport, and the requests it serves and makes.
//!
//! On the wire a QL2 record is cut into chunks, and each chunk travels as one frame behind a
//! four-byte length.

pub mod args;
pub mod benchmark;
pub mod bridge;
pub mod chat;
pub mod config;
pub mod framing;
pub mod invite;
pub mod session;
pub mod state_file;
pub mod status;
pub mod transfer;
