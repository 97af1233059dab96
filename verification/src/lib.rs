//! Packet-bridging engine of a point-to-point IP tunnel.
//!
//! Raw IP packets read from a virtual network interface are carried over a
//! multiplexed secure transport: TCP packets travel on one reliable stream per
//! flow, everything else as unreliable messages. This crate holds the verified
//! core — packet classification, the per-flow stream table, the inbound frame
//! codec, and the session lifecycle rules — while the surrounding process owns
//! the device and the transport I/O.

use vstd::prelude::*;

pub mod classifier;
pub mod errors;
pub mod flow_table;
pub mod frame;
pub mod outbound;
pub mod session;

verus! {

/// Largest packet handled per interface read, in bytes.
pub const MTU: usize = 1500;

} // verus!
