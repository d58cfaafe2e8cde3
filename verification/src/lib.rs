//! Core of an identity-addressed message relay: the wire codec for
//! `Transfer` records, the per-connection session state machine, and the
//! registry that maps live identities to session handles.
//!
//! Everything here is transport-agnostic: the surrounding program owns the
//! connections and streams and hands this library plain byte values.

pub mod common;
pub mod utf8;
pub mod server_session;
pub mod client_session;
pub mod client_listen;
pub mod server;
