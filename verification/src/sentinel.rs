//! Sentinel master discovery: the decision core of resolving the live
//! master address for a named service through an ordered list of
//! monitoring endpoints.
//!
//! The caller owns the I/O: it connects to the endpoint an action names,
//! queries the master address, validates the candidate's role, and hands
//! the outcome back as a [`SentinelEvent`]. The machine decides what to do
//! next: query the next endpoint, wait and rescan the whole list after a
//! failed role validation, succeed, or terminate with one of the two
//! failure causes.

use vstd::prelude::*;

verus! {

/// Configuration of a monitored deployment: the ordered sentinel
/// endpoints, the monitored service's name, and how long to wait after a
/// candidate fails role validation before rescanning.
pub struct SentinelConfig {
    pub instances: Vec<(String, u16)>,
    pub service_name: String,
    pub wait_between_failures_ms: u64,
}

/// The outcome of examining one sentinel endpoint.
#[derive(Clone, Copy, PartialEq, Eq, Structural, Debug)]
pub enum SentinelEvent {
    /// Connecting to the endpoint failed.
    ConnectFailed,
    /// The master-address query failed with an I/O or protocol error.
    QueryFailed,
    /// The endpoint answered that it does not know the service.
    ServiceUnknown,
    /// The endpoint named a candidate whose reported role is master.
    CandidateMaster,
    /// The endpoint named a candidate whose reported role is not master.
    CandidateReplica,
}

/// Where a discovery run stands.
#[derive(Clone, Copy, PartialEq, Eq, Structural, Debug)]
pub struct DiscoveryState {
    /// The index of the endpoint the next event reports on.
    pub next_index: usize,
    /// Whether any sentinel has answered a master-address query this run.
    pub any_answer: bool,
}

/// What the caller must do next.
#[derive(Clone, Copy, PartialEq, Eq, Structural, Debug)]
pub enum DiscoveryAction {
    /// Examine the endpoint at this index: connect, query the master
    /// address, and validate any candidate's role.
    Query(usize),
    /// A candidate failed role validation: wait the configured time, then
    /// scan the whole endpoint list again from the start.
    WaitThenRestart,
    /// A candidate's role is master: keep its connection.
    Succeed,
    /// The run is over and no sentinel ever answered a query.
    FailUnreachable,
    /// The run is over; at least one sentinel answered, but none currently
    /// names a valid master for the service.
    FailServiceUnknown,
}

/// Whether the event is an answer from a sentinel to the master-address
/// query. An endpoint that answers "service unknown" did answer, and is
/// not counted toward "unreachable".
pub open spec fn is_answer(e: SentinelEvent) -> bool {
    match e {
        SentinelEvent::ServiceUnknown => true,
        SentinelEvent::CandidateMaster => true,
        SentinelEvent::CandidateReplica => true,
        SentinelEvent::ConnectFailed => false,
        SentinelEvent::QueryFailed => false,
    }
}

/// The transition relation of one discovery step: from the current state
/// and the outcome of examining endpoint `state.next_index`, the next
/// state and the next action.
pub open spec fn discovery_step_spec(
    state: DiscoveryState,
    n_endpoints: usize,
    event: SentinelEvent,
) -> (DiscoveryState, DiscoveryAction) {
    match event {
        SentinelEvent::CandidateMaster => (
            DiscoveryState { next_index: state.next_index, any_answer: true },
            DiscoveryAction::Succeed,
        ),
        SentinelEvent::CandidateReplica => (
            DiscoveryState { next_index: 0, any_answer: true },
            DiscoveryAction::WaitThenRestart,
        ),
        _ => {
            let answered = state.any_answer || is_answer(event);
            if state.next_index + 1 < n_endpoints {
                (
                    DiscoveryState {
                        next_index: (state.next_index + 1) as usize,
                        any_answer: answered,
                    },
                    DiscoveryAction::Query((state.next_index + 1) as usize),
                )
            } else {
                (
                    DiscoveryState { next_index: state.next_index, any_answer: answered },
                    if answered {
                        DiscoveryAction::FailServiceUnknown
                    } else {
                        DiscoveryAction::FailUnreachable
                    },
                )
            }
        },
    }
}

/// Begin a discovery run over `n_endpoints` sentinel endpoints. An empty
/// endpoint list terminates at once: nothing was reachable.
pub fn discovery_start(n_endpoints: usize) -> (r: (DiscoveryState, DiscoveryAction))
    ensures
        r.0 == (DiscoveryState { next_index: 0, any_answer: false }),
        n_endpoints == 0 ==> r.1 == DiscoveryAction::FailUnreachable,
        n_endpoints > 0 ==> r.1 == DiscoveryAction::Query(0usize),
{
    let state = DiscoveryState { next_index: 0, any_answer: false };
    if n_endpoints == 0 {
        (state, DiscoveryAction::FailUnreachable)
    } else {
        (state, DiscoveryAction::Query(0))
    }
}

/// Advance the run by the outcome of examining one endpoint.
pub fn discovery_step(
    state: DiscoveryState,
    n_endpoints: usize,
    event: SentinelEvent,
) -> (r: (DiscoveryState, DiscoveryAction))
    requires
        state.next_index < n_endpoints,
    ensures
        r == discovery_step_spec(state, n_endpoints, event),
        r.1 matches DiscoveryAction::Query(i) ==> i == r.0.next_index && i < n_endpoints,
        r.1 == DiscoveryAction::WaitThenRestart ==> r.0.next_index < n_endpoints,
{
    match event {
        SentinelEvent::CandidateMaster => (
            DiscoveryState { next_index: state.next_index, any_answer: true },
            DiscoveryAction::Succeed,
        ),
        SentinelEvent::CandidateReplica => (
            DiscoveryState { next_index: 0, any_answer: true },
            DiscoveryAction::WaitThenRestart,
        ),
        _ => {
            let answered = state.any_answer || matches!(event, SentinelEvent::ServiceUnknown);
            if state.next_index + 1 < n_endpoints {
                (
                    DiscoveryState { next_index: state.next_index + 1, any_answer: answered },
                    DiscoveryAction::Query(state.next_index + 1),
                )
            } else {
                (
                    DiscoveryState { next_index: state.next_index, any_answer: answered },
                    if answered {
                        DiscoveryAction::FailServiceUnknown
                    } else {
                        DiscoveryAction::FailUnreachable
                    },
                )
            }
        },
    }
}

/// The outcome of running the machine from `state` through `events`, one
/// event per examined endpoint, stopping at the first action that is not a
/// query. While events remain to be seen the run is still querying.
pub open spec fn run_outcome(
    state: DiscoveryState,
    n_endpoints: usize,
    events: Seq<SentinelEvent>,
) -> DiscoveryAction
    decreases events.len(),
{
    if events.len() == 0 {
        DiscoveryAction::Query(state.next_index)
    } else {
        let step = discovery_step_spec(state, n_endpoints, events[0]);
        if step.1 is Query {
            run_outcome(step.0, n_endpoints, events.drop_first())
        } else {
            step.1
        }
    }
}

/// Discovery terminates when nothing answers: a run in which every
/// remaining endpoint fails to answer (connect or query error) ends after
/// one pass over the list, and if no sentinel answered earlier it reports
/// every endpoint unreachable rather than hanging or giving a vaguer cause.
pub proof fn lemma_unanswered_run_terminates(
    state: DiscoveryState,
    n_endpoints: usize,
    events: Seq<SentinelEvent>,
)
    requires
        state.next_index < n_endpoints,
        !state.any_answer,
        events.len() == n_endpoints - state.next_index,
        forall|i: int| 0 <= i < events.len() ==> !is_answer(#[trigger] events[i]),
    ensures
        run_outcome(state, n_endpoints, events) == DiscoveryAction::FailUnreachable,
    decreases events.len(),
{
    let step = discovery_step_spec(state, n_endpoints, events[0]);
    if state.next_index + 1 < n_endpoints {
        lemma_unanswered_run_terminates(step.0, n_endpoints, events.drop_first());
    }
}

} // verus!
