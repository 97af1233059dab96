//! Connection lifecycle: the states of one session and its transitions.
//!
//! A session is `Active` once the transport handshake completes. Any failure
//! that is not contained at flow or frame granularity moves it to `Closing`,
//! which closes the transport connection; the closure signal — fired by that
//! close or by the peer — moves every dependent task to `Closed`, which is
//! terminal. The surrounding process drives its tasks by these transitions.

use vstd::prelude::*;

use crate::errors::TunnelError;
use crate::errors::spec_recoverable;

verus! {

/// The states of one connection's session, in lifecycle order.
#[derive(PartialEq, Eq, Structural, Clone, Copy, Debug)]
pub enum SessionState {
    /// Both bridges run; packets flow.
    Active,
    /// A session-ending failure was seen; the transport close was issued.
    Closing,
    /// The closure signal fired; every task exits.
    Closed,
}

/// What the lifecycle manager reacts to.
#[derive(PartialEq, Eq, Structural, Clone, Copy, Debug)]
pub enum SessionEvent {
    /// A bridge reported this error.
    Failure(TunnelError),
    /// The connection's closure signal fired.
    ClosureSignal,
}

/// The transition function: next state, and whether to close the transport
/// connection now with an application error code.
pub open spec fn spec_session_step(s: SessionState, e: SessionEvent) -> (SessionState, bool) {
    match e {
        SessionEvent::ClosureSignal => (SessionState::Closed, false),
        SessionEvent::Failure(err) => if s == SessionState::Active && !spec_recoverable(err) {
            (SessionState::Closing, true)
        } else {
            (s, false)
        },
    }
}

/// Advance the session by one observed event. A failure contained at flow or
/// frame granularity changes nothing; any other failure in an active session
/// moves it to `Closing` and asks for the transport close; the closure signal
/// ends the session from any state.
pub fn session_step(s: SessionState, e: SessionEvent) -> (r: (SessionState, bool))
    ensures
        r == spec_session_step(s, e),
{
    match e {
        SessionEvent::ClosureSignal => (SessionState::Closed, false),
        SessionEvent::Failure(err) => {
            if s == SessionState::Active && !err.is_recoverable() {
                (SessionState::Closing, true)
            } else {
                (s, false)
            }
        },
    }
}

/// Position of a state in the lifecycle order.
pub open spec fn state_rank(s: SessionState) -> int {
    match s {
        SessionState::Active => 0,
        SessionState::Closing => 1,
        SessionState::Closed => 2,
    }
}

/// The lifecycle only moves forward, closure is terminal, and the closure
/// signal ends the session from every state — so once it fires, no task that
/// follows these transitions keeps running.
pub proof fn lemma_lifecycle_terminal(s: SessionState, e: SessionEvent)
    ensures
        state_rank(spec_session_step(s, e).0) >= state_rank(s),
        s == SessionState::Closed ==> spec_session_step(s, e).0 == SessionState::Closed,
        e == SessionEvent::ClosureSignal ==> spec_session_step(s, e).0 == SessionState::Closed,
{
}

/// The transport close is issued exactly once: only an active session asks
/// for it, and the step that asks leaves `Active` for good.
pub proof fn lemma_close_issued_once(s: SessionState, e: SessionEvent)
    ensures
        spec_session_step(s, e).1 ==> s == SessionState::Active && spec_session_step(s, e).0
            != SessionState::Active,
        spec_session_step(s, e).1 <==> (s == SessionState::Active && (e matches
        SessionEvent::Failure(err) && !spec_recoverable(err))),
{
}

} // verus!
