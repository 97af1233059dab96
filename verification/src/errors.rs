//! Error taxonomy of the tunnel, with its containment rules.
//!
//! Configuration and device errors are fatal at startup; transport errors and
//! interface I/O errors end the current session; a failure scoped to one flow
//! stream or to one inbound frame is contained there and the session goes on.

use vstd::prelude::*;

verus! {

/// Every failure class the tunnel distinguishes.
#[derive(PartialEq, Eq, Structural, Clone, Copy, Debug)]
pub enum TunnelError {
    /// Bad interface name or unreadable credential; fatal at startup.
    Config,
    /// Device open or provisioning failure; fatal at startup.
    Device,
    /// Handshake failure or connection reset; ends the current session.
    Transport,
    /// Open or write failure on one flow's outbound stream; the flow retries
    /// on its next packet.
    FlowStream,
    /// Malformed or truncated inbound stream; only that stream's decoding
    /// stops.
    Frame,
    /// Interface read or write failure at runtime; ends the whole session.
    FatalIo,
}

/// The errors contained at flow or stream granularity: the session survives
/// them.
pub open spec fn spec_recoverable(e: TunnelError) -> bool {
    e == TunnelError::FlowStream || e == TunnelError::Frame
}

impl TunnelError {
    /// Whether the error is contained at flow or stream granularity, leaving
    /// the session running.
    pub fn is_recoverable(&self) -> (r: bool)
        ensures
            r == spec_recoverable(*self),
    {
        match self {
            TunnelError::FlowStream => true,
            TunnelError::Frame => true,
            _ => false,
        }
    }

    /// Whether the error ends the current session (but not the process: a
    /// listening role may accept a further connection).
    pub fn ends_session(&self) -> (r: bool)
        ensures
            r == (*self == TunnelError::Transport || *self == TunnelError::FatalIo),
    {
        match self {
            TunnelError::Transport => true,
            TunnelError::FatalIo => true,
            _ => false,
        }
    }

    /// Whether the error is fatal at startup, before any session begins.
    pub fn is_startup_fatal(&self) -> (r: bool)
        ensures
            r == (*self == TunnelError::Config || *self == TunnelError::Device),
    {
        match self {
            TunnelError::Config => true,
            TunnelError::Device => true,
            _ => false,
        }
    }
}

/// Accept an interface name only when it leaves room for the platform's
/// terminating byte within its fixed name buffer.
pub fn validate_interface_name_len(name_len: usize, name_buf_len: usize) -> (r: Result<
    (),
    TunnelError,
>)
    ensures
        r is Ok <==> name_len < name_buf_len,
        r is Err ==> r->Err_0 == TunnelError::Config,
{
    if name_len < name_buf_len {
        Ok(())
    } else {
        Err(TunnelError::Config)
    }
}

} // verus!
