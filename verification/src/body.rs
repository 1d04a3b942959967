//! The body-rewrite state machine.
//!
//! When a replacement payload is configured, the filter must not forward any
//! original body bytes: every non-terminal chunk is paused, and only on the
//! terminal chunk is the whole observed body overwritten with the payload.
//! `Inactive` means no replacement is configured and every chunk passes
//! through; `AwaitingEnd` is entered at header-phase completion; `Completed`
//! is terminal for the request.

use vstd::prelude::*;

verus! {

/// The control decision handed back to the host after a callback.
#[derive(Clone, Copy, PartialEq, Eq, Structural, Debug)]
pub enum Action {
    /// Let the host proceed with the current data.
    Continue,
    /// Defer forwarding; the host will call again with more data.
    Pause,
}

/// The live state of the body rewriter for one request.
#[derive(Clone, Copy, PartialEq, Eq, Structural, Debug)]
pub enum RewriteState {
    /// No replacement configured: chunks pass through unmodified.
    Inactive,
    /// Replacement configured and announced; waiting for the terminal chunk.
    AwaitingEnd,
    /// The terminal chunk was processed and the payload substituted.
    Completed,
}

/// The state after one body chunk.
pub open spec fn spec_body_next_state(state: RewriteState, end_of_stream: bool) -> RewriteState {
    match state {
        RewriteState::Inactive => RewriteState::Inactive,
        _ => if end_of_stream {
            RewriteState::Completed
        } else {
            state
        },
    }
}

/// The decision returned for one body chunk.
pub open spec fn spec_body_action(state: RewriteState, end_of_stream: bool) -> Action {
    match state {
        RewriteState::Inactive => Action::Continue,
        _ => if end_of_stream {
            Action::Continue
        } else {
            Action::Pause
        },
    }
}

/// The observed body after one chunk: untouched until the terminal chunk of
/// an active rewrite, then exactly the configured payload.
pub open spec fn spec_body_after(
    state: RewriteState,
    end_of_stream: bool,
    observed: Seq<u8>,
    payload: Seq<u8>,
) -> Seq<u8> {
    match state {
        RewriteState::Inactive => observed,
        _ => if end_of_stream {
            payload
        } else {
            observed
        },
    }
}

} // verus!

verus! {

/// The outcome of driving the rewriter over a whole sequence of body chunks.
pub ghost struct BodyRun {
    pub state: RewriteState,
    pub observed: Seq<u8>,
    pub decisions: Seq<Action>,
}

/// Drive the rewriter over one body chunk per end-of-stream flag, collecting
/// every decision and the body finally observed.
pub open spec fn spec_body_run(
    state: RewriteState,
    payload: Seq<u8>,
    observed: Seq<u8>,
    flags: Seq<bool>,
) -> BodyRun
    decreases flags.len(),
{
    if flags.len() == 0 {
        BodyRun { state, observed, decisions: Seq::empty() }
    } else {
        let first = spec_body_action(state, flags[0]);
        let rest = spec_body_run(
            spec_body_next_state(state, flags[0]),
            payload,
            spec_body_after(state, flags[0], observed, payload),
            flags.skip(1),
        );
        BodyRun {
            state: rest.state,
            observed: rest.observed,
            decisions: seq![first] + rest.decisions,
        }
    }
}

} // verus!
