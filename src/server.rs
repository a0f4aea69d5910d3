//! Decisions of the server process, one event at a time: which initial load
//! to run, when to serve, when to start the query server, and when to stop.
//! The caller performs each action and reports back what happened.
use vstd::prelude::*;

verus! {

/// Seconds to wait for a shutdown signal between two rounds of serving.
pub const WAIT_SECS: u64 = 5;

#[derive(Clone, Copy, PartialEq, Eq, Structural)]
pub enum Phase {
    /// Connected upstream, store opened, index not yet loaded.
    Start,
    /// The initial load is running.
    Loading,
    /// Steady state: update, notify, wait.
    Serving,
    /// The loop is over.
    Stopped,
}

#[derive(Clone, Copy, PartialEq, Eq, Structural)]
pub struct ServerState {
    pub phase: Phase,
    /// Catch up block by block instead of a bulk import.
    pub skip_bulk_import: bool,
    /// The query server has been started.
    pub rpc_started: bool,
}

#[derive(Clone, Copy, PartialEq, Eq, Structural)]
pub enum Event {
    /// The process is up and the index is loaded.
    Begin,
    /// The initial load and the switch to durable mode are done.
    LoadDone,
    /// The wait ended with no shutdown signal.
    Timeout,
    /// A shutdown signal arrived while waiting.
    Shutdown,
    /// A step failed.
    Failed,
}

#[derive(Clone, Copy, PartialEq, Eq, Structural)]
pub enum Action {
    /// Fetch blocks one by one, then run a full compaction.
    IncrementalLoad,
    /// Import the block files in bulk.
    BulkLoad,
    /// Apply updates, refresh the unconfirmed view, start the query server
    /// if asked, notify subscribers, then wait for a shutdown signal.
    Serve { start_rpc: bool, wait_secs: u64 },
    /// End the process, with a failure status unless `success`.
    Exit { success: bool },
    /// Nothing to do.
    Idle,
}

impl ServerState {
    /// The state before the first event.
    pub fn new(skip_bulk_import: bool) -> (r: ServerState)
        ensures
            r.phase == Phase::Start,
            r.skip_bulk_import == skip_bulk_import,
            !r.rpc_started,
    {
        ServerState { phase: Phase::Start, skip_bulk_import, rpc_started: false }
    }
}

/// The next state of the server and the action to perform for `event`.
pub fn run_server(state: ServerState, event: Event) -> (r: (ServerState, Action))
    ensures
        r.0.skip_bulk_import == state.skip_bulk_import,
        state.phase == Phase::Stopped ==> r == (state, Action::Idle),
        state.phase != Phase::Stopped && event == Event::Failed ==> r == (
            ServerState { phase: Phase::Stopped, ..state },
            Action::Exit { success: false },
        ),
        state.phase == Phase::Start && event == Event::Begin ==> r == (
            ServerState { phase: Phase::Loading, ..state },
            if state.skip_bulk_import {
                Action::IncrementalLoad
            } else {
                Action::BulkLoad
            },
        ),
        state.phase == Phase::Loading && event == Event::LoadDone ==> r == (
            ServerState { phase: Phase::Serving, rpc_started: true, ..state },
            Action::Serve { start_rpc: !state.rpc_started, wait_secs: WAIT_SECS },
        ),
        state.phase == Phase::Serving && event == Event::Timeout ==> r == (
            ServerState { rpc_started: true, ..state },
            Action::Serve { start_rpc: !state.rpc_started, wait_secs: WAIT_SECS },
        ),
        state.phase == Phase::Serving && event == Event::Shutdown ==> r == (
            ServerState { phase: Phase::Stopped, ..state },
            Action::Exit { success: true },
        ),
        !(state.phase == Phase::Stopped || event == Event::Failed || (state.phase == Phase::Start
            && event == Event::Begin) || (state.phase == Phase::Loading && event
            == Event::LoadDone) || (state.phase == Phase::Serving && (event == Event::Timeout
            || event == Event::Shutdown))) ==> r == (state, Action::Idle),
{
    match (state.phase, event) {
        (Phase::Stopped, _) => (state, Action::Idle),
        (_, Event::Failed) => (ServerState { phase: Phase::Stopped, ..state }, Action::Exit { success: false }),
        (Phase::Start, Event::Begin) => {
            let action = if state.skip_bulk_import {
                Action::IncrementalLoad
            } else {
                Action::BulkLoad
            };
            (ServerState { phase: Phase::Loading, ..state }, action)
        },
        (Phase::Loading, Event::LoadDone) => (
            ServerState { phase: Phase::Serving, rpc_started: true, ..state },
            Action::Serve { start_rpc: !state.rpc_started, wait_secs: WAIT_SECS },
        ),
        (Phase::Serving, Event::Timeout) => (
            ServerState { rpc_started: true, ..state },
            Action::Serve { start_rpc: !state.rpc_started, wait_secs: WAIT_SECS },
        ),
        (Phase::Serving, Event::Shutdown) => (
            ServerState { phase: Phase::Stopped, ..state },
            Action::Exit { success: true },
        ),
        _ => (state, Action::Idle),
    }
}

} // verus!
