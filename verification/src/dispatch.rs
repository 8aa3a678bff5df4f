//! The per-request dispatch lifecycle.
//!
//! Each accepted request moves through a fixed sequence of phases:
//! accepted from the network, submitted to the worker pool, handler
//! running, reply being transmitted, done. The worker loop drives the
//! phase forward one event at a time; any out-of-order event is a
//! programming error local to that one unit of work.

use vstd::prelude::*;

verus! {

/// The phase a single request's unit of work is in.
#[derive(Clone, Copy, Debug, PartialEq, Eq, Structural)]
pub enum DispatchState {
    /// Taken from the network, not yet handed to the pool.
    Accepted,
    /// Submitted to the worker pool, waiting for a worker.
    Dispatched,
    /// A worker is running the user handler.
    HandlerRunning,
    /// The handler returned; the reply is being transmitted.
    Responding,
    /// The reply went out; the unit of work is finished.
    Done,
}

/// An event in the life of a single request's unit of work.
#[derive(Clone, Copy, Debug, PartialEq, Eq, Structural)]
pub enum DispatchEvent {
    /// The accept loop submitted the work to the pool.
    Submitted,
    /// A worker picked the work up and invoked the handler.
    HandlerStarted,
    /// The handler returned a response.
    HandlerReturned,
    /// The response was transmitted on the request's connection.
    ResponseSent,
}

/// The phase that follows `s` on event `e`, if `e` is in order.
pub open spec fn next_state(s: DispatchState, e: DispatchEvent) -> Option<DispatchState> {
    match (s, e) {
        (DispatchState::Accepted, DispatchEvent::Submitted) => Some(DispatchState::Dispatched),
        (DispatchState::Dispatched, DispatchEvent::HandlerStarted) => Some(
            DispatchState::HandlerRunning,
        ),
        (DispatchState::HandlerRunning, DispatchEvent::HandlerReturned) => Some(
            DispatchState::Responding,
        ),
        (DispatchState::Responding, DispatchEvent::ResponseSent) => Some(DispatchState::Done),
        _ => None,
    }
}

/// Advances one unit of work by one event. An out-of-order event is
/// rejected and leaves the caller to fail that unit of work alone.
pub fn advance(s: DispatchState, e: DispatchEvent) -> (r: Option<DispatchState>)
    ensures
        r == next_state(s, e),
{
    match (s, e) {
        (DispatchState::Accepted, DispatchEvent::Submitted) => Some(DispatchState::Dispatched),
        (DispatchState::Dispatched, DispatchEvent::HandlerStarted) => Some(
            DispatchState::HandlerRunning,
        ),
        (DispatchState::HandlerRunning, DispatchEvent::HandlerReturned) => Some(
            DispatchState::Responding,
        ),
        (DispatchState::Responding, DispatchEvent::ResponseSent) => Some(DispatchState::Done),
        _ => None,
    }
}

/// `Done` is terminal: no event moves a finished unit of work again, so
/// a request that has been replied to is never re-dispatched.
pub proof fn lemma_done_is_terminal(e: DispatchEvent)
    ensures
        next_state(DispatchState::Done, e) is None,
{
}

/// Each phase is left by exactly one event: the lifecycle is a single
/// forward chain with no branch and no way back.
pub proof fn lemma_lifecycle_linear(s: DispatchState, e1: DispatchEvent, e2: DispatchEvent)
    requires
        next_state(s, e1) is Some,
        next_state(s, e2) is Some,
    ensures
        e1 == e2,
        next_state(s, e1) == next_state(s, e2),
{
}

} // verus!
