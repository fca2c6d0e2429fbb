//! Core of a room-based signaling relay.
//!
//! Peers connect, join named rooms, and exchange opaque negotiation
//! payloads (offers, answers, connectivity candidates). This crate holds
//! the verified heart of the relay: the client and room registries, the
//! per-connection session state machine, and the router that decides, for
//! every inbound signal, who receives what. Transport, serialization and
//! process bootstrap live outside this crate.

pub mod clients;
pub mod ids;
pub mod laws;
pub mod message;
pub mod rooms;
pub mod session;
pub mod text;
