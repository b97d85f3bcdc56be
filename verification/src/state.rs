use vstd::prelude::*;

verus! {

/// How many sessions there are, as far as the filter is concerned.
#[derive(Debug, Clone, Copy, PartialEq, Eq, Structural)]
pub struct State {
    pub transport_sessions: usize,
    pub pending_sessions: usize,
}

impl State {
    /// A state without sessions.
    pub fn new() -> (state: State)
        ensures
            state.transport_sessions == 0,
            state.pending_sessions == 0,
    {
        State { transport_sessions: 0, pending_sessions: 0 }
    }

    /// The number of established transport sessions.
    pub fn transport_sessions_count(&self) -> (count: usize)
        ensures
            count == self.transport_sessions,
    {
        self.transport_sessions
    }

    /// The number of handshakes that are under way.
    pub fn pending_sessions_count(&self) -> (count: usize)
        ensures
            count == self.pending_sessions,
    {
        self.pending_sessions
    }
}

} // verus!
