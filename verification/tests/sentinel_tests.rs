//! Sentinel discovery scenarios, driven through the decision machine as a
//! caller would drive it.

use rustis::sentinel::{
    discovery_start, discovery_step, DiscoveryAction, DiscoveryState, SentinelEvent,
};

/// Drive the machine over a fixed list of per-endpoint outcomes, counting
/// how often each endpoint is examined; returns the terminal action.
fn run(n: usize, events: &[SentinelEvent]) -> (DiscoveryAction, Vec<usize>) {
    let mut queries: Vec<usize> = Vec::new();
    let (mut state, mut action) = discovery_start(n);
    let mut fed = 0;
    loop {
        match action {
            DiscoveryAction::Query(i) => {
                queries.push(i);
                assert!(fed < events.len(), "ran out of scripted events");
                let (s2, a2) = discovery_step(state, n, events[fed]);
                fed += 1;
                state = s2;
                action = a2;
            }
            DiscoveryAction::WaitThenRestart => {
                // the caller sleeps the configured wait here, then rescans
                action = DiscoveryAction::Query(state.next_index);
            }
            other => return (other, queries),
        }
    }
}

#[test]
fn unknown_service_then_valid_master_succeeds_not_unreachable() {
    // endpoint A answers "unknown service", endpoint B names a master
    // whose role checks out: success via B, and the run was never
    // classified as unreachable.
    let (outcome, queries) = run(
        2,
        &[SentinelEvent::ServiceUnknown, SentinelEvent::CandidateMaster],
    );
    assert_eq!(outcome, DiscoveryAction::Succeed);
    assert_eq!(queries, vec![0, 1]);
}

#[test]
fn unknown_service_everywhere_reports_service_not_known() {
    let (outcome, _) = run(
        2,
        &[SentinelEvent::ServiceUnknown, SentinelEvent::ServiceUnknown],
    );
    assert_eq!(outcome, DiscoveryAction::FailServiceUnknown);
}

#[test]
fn every_endpoint_unreachable_terminates_with_unreachable() {
    // every endpoint errors on connect: the run terminates after one pass
    // and reports every sentinel unreachable.
    let (outcome, queries) = run(
        3,
        &[
            SentinelEvent::ConnectFailed,
            SentinelEvent::ConnectFailed,
            SentinelEvent::ConnectFailed,
        ],
    );
    assert_eq!(outcome, DiscoveryAction::FailUnreachable);
    assert_eq!(queries, vec![0, 1, 2]);
}

#[test]
fn empty_endpoint_list_fails_unreachable_at_once() {
    let (state, action) = discovery_start(0);
    assert_eq!(action, DiscoveryAction::FailUnreachable);
    assert_eq!(state, DiscoveryState { next_index: 0, any_answer: false });
}

#[test]
fn replica_once_then_master_retries_full_list_exactly_once() {
    // the first round's candidate reports the replica role: the machine
    // waits, then rescans the whole endpoint list from the start; the
    // second round resolves. The full list is retried exactly once.
    let (outcome, queries) = run(
        2,
        &[
            SentinelEvent::CandidateReplica,
            SentinelEvent::ServiceUnknown,
            SentinelEvent::CandidateMaster,
        ],
    );
    assert_eq!(outcome, DiscoveryAction::Succeed);
    assert_eq!(queries, vec![0, 0, 1]);
}

#[test]
fn replica_verdict_demands_the_configured_wait() {
    let (state, action) = discovery_step(
        DiscoveryState { next_index: 1, any_answer: false },
        3,
        SentinelEvent::CandidateReplica,
    );
    assert_eq!(action, DiscoveryAction::WaitThenRestart);
    assert_eq!(state, DiscoveryState { next_index: 0, any_answer: true });
}

#[test]
fn query_error_is_not_an_answer() {
    let (state, action) = discovery_step(
        DiscoveryState { next_index: 0, any_answer: false },
        2,
        SentinelEvent::QueryFailed,
    );
    assert_eq!(action, DiscoveryAction::Query(1));
    assert!(!state.any_answer);
}
