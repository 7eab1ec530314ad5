//! The client's reconnect supervisor: a state machine over the connect /
//! serve / back-off loop. A failed connect is retried at once; a session
//! that ends for any reason fires `DISCONNECTED`, waits a fixed interval,
//! and reconnects. There is no terminal state and no retry limit.

use vstd::prelude::*;

verus! {

/// The fixed wait after a session ends, in seconds.
pub const BACKOFF_SECS: u64 = 2;

/// Where the supervisor stands.
#[derive(Clone, Copy, Debug, PartialEq, Eq, Structural)]
pub enum SupervisorState {
    Connecting,
    Connected,
    Backoff,
}

/// What the supervisor's loop observed.
#[derive(Clone, Copy, Debug, PartialEq, Eq, Structural)]
pub enum SupervisorEvent {
    ConnectFailed,
    ConnectOpened,
    SessionEnded,
    BackoffElapsed,
}

/// What the supervisor's loop must do next.
#[derive(Clone, Copy, Debug, PartialEq, Eq, Structural)]
pub enum SupervisorAction {
    /// Try to open the connection now, with no delay.
    AttemptConnect,
    /// Fire `CONNECTED` through the pipeline, then serve the session.
    FireConnectedAndServe,
    /// Fire `DISCONNECTED` through the pipeline, then wait
    /// `BACKOFF_SECS` seconds.
    FireDisconnectedThenWait,
    /// Nothing: the event does not belong to this state.
    Hold,
}

/// The transition table: a connect failure while connecting retries at
/// once; a successful connect fires `CONNECTED` and serves; a session end
/// fires `DISCONNECTED` and backs off; an elapsed backoff reconnects.
/// Any other pairing is ignored where it stands.
pub open spec fn spec_supervisor_step(s: SupervisorState, e: SupervisorEvent) -> (
    SupervisorState,
    SupervisorAction,
) {
    match (s, e) {
        (SupervisorState::Connecting, SupervisorEvent::ConnectFailed) => (
            SupervisorState::Connecting,
            SupervisorAction::AttemptConnect,
        ),
        (SupervisorState::Connecting, SupervisorEvent::ConnectOpened) => (
            SupervisorState::Connected,
            SupervisorAction::FireConnectedAndServe,
        ),
        (SupervisorState::Connected, SupervisorEvent::SessionEnded) => (
            SupervisorState::Backoff,
            SupervisorAction::FireDisconnectedThenWait,
        ),
        (SupervisorState::Backoff, SupervisorEvent::BackoffElapsed) => (
            SupervisorState::Connecting,
            SupervisorAction::AttemptConnect,
        ),
        _ => (s, SupervisorAction::Hold),
    }
}

/// One step of the supervisor.
pub fn supervisor_step(s: SupervisorState, e: SupervisorEvent) -> (r: (
    SupervisorState,
    SupervisorAction,
))
    ensures
        r == spec_supervisor_step(s, e),
{
    match (s, e) {
        (SupervisorState::Connecting, SupervisorEvent::ConnectFailed) => (
            SupervisorState::Connecting,
            SupervisorAction::AttemptConnect,
        ),
        (SupervisorState::Connecting, SupervisorEvent::ConnectOpened) => (
            SupervisorState::Connected,
            SupervisorAction::FireConnectedAndServe,
        ),
        (SupervisorState::Connected, SupervisorEvent::SessionEnded) => (
            SupervisorState::Backoff,
            SupervisorAction::FireDisconnectedThenWait,
        ),
        (SupervisorState::Backoff, SupervisorEvent::BackoffElapsed) => (
            SupervisorState::Connecting,
            SupervisorAction::AttemptConnect,
        ),
        _ => (s, SupervisorAction::Hold),
    }
}

/// The state after a whole run of events.
pub open spec fn spec_run(s: SupervisorState, events: Seq<SupervisorEvent>) -> SupervisorState
    decreases events.len(),
{
    if events.len() == 0 {
        s
    } else {
        spec_run(spec_supervisor_step(s, events[0]).0, events.drop_first())
    }
}

/// The actions a whole run of events asks for, in order.
pub open spec fn spec_actions(s: SupervisorState, events: Seq<SupervisorEvent>) -> Seq<
    SupervisorAction,
>
    decreases events.len(),
{
    if events.len() == 0 {
        Seq::empty()
    } else {
        seq![spec_supervisor_step(s, events[0]).1] + spec_actions(
            spec_supervisor_step(s, events[0]).0,
            events.drop_first(),
        )
    }
}

/// How often `a` occurs in `acts`.
pub open spec fn count_action(acts: Seq<SupervisorAction>, a: SupervisorAction) -> int
    decreases acts.len(),
{
    if acts.len() == 0 {
        0int
    } else {
        (if acts[0] == a {
            1int
        } else {
            0int
        }) + count_action(acts.drop_first(), a)
    }
}

/// One when the state is `Connected`, else zero.
pub open spec fn connected_one(s: SupervisorState) -> int {
    if s is Connected {
        1int
    } else {
        0int
    }
}

/// `CONNECTED` and `DISCONNECTED` alternate: over any run, the counts of
/// the two lifecycle actions differ exactly by whether the run starts and
/// ends connected.
pub proof fn lemma_lifecycle_balance(s: SupervisorState, events: Seq<SupervisorEvent>)
    ensures
        count_action(spec_actions(s, events), SupervisorAction::FireConnectedAndServe)
            + connected_one(s) == count_action(
            spec_actions(s, events),
            SupervisorAction::FireDisconnectedThenWait,
        ) + connected_one(spec_run(s, events)),
    decreases events.len(),
{
    if events.len() > 0 {
        let step = spec_supervisor_step(s, events[0]);
        lemma_lifecycle_balance(step.0, events.drop_first());
        assert(spec_actions(s, events)[0] == step.1);
        assert(spec_actions(s, events).drop_first() =~= spec_actions(
            step.0,
            events.drop_first(),
        ));
    }
}

/// Once connected, `CONNECTED` fires again only after `DISCONNECTED` has
/// fired: in any run from `Connected`, a `FireConnectedAndServe` action is
/// preceded by a `FireDisconnectedThenWait`.
pub proof fn lemma_reconnect_order(events: Seq<SupervisorEvent>)
    ensures
        forall|i: int|
            0 <= i < spec_actions(SupervisorState::Connected, events).len() && spec_actions(
                SupervisorState::Connected,
                events,
            )[i] == SupervisorAction::FireConnectedAndServe ==> exists|j: int|
                0 <= j < i && spec_actions(SupervisorState::Connected, events)[j]
                    == SupervisorAction::FireDisconnectedThenWait,
    decreases events.len(),
{
    let acts = spec_actions(SupervisorState::Connected, events);
    if events.len() > 0 {
        let step = spec_supervisor_step(SupervisorState::Connected, events[0]);
        assert(acts[0] == step.1);
        assert(acts.drop_first() =~= spec_actions(step.0, events.drop_first()));
        if events[0] == SupervisorEvent::SessionEnded {
            assert(acts[0] == SupervisorAction::FireDisconnectedThenWait);
            assert forall|i: int|
                0 <= i < acts.len() && acts[i] == SupervisorAction::FireConnectedAndServe
                implies exists|j: int|
                    0 <= j < i && acts[j] == SupervisorAction::FireDisconnectedThenWait by {
                assert(acts[0] == SupervisorAction::FireDisconnectedThenWait);
                assert(i != 0);
            }
        } else {
            assert(step.0 == SupervisorState::Connected);
            assert(step.1 == SupervisorAction::Hold);
            lemma_reconnect_order(events.drop_first());
            assert forall|i: int|
                0 <= i < acts.len() && acts[i] == SupervisorAction::FireConnectedAndServe
                implies exists|j: int|
                    0 <= j < i && acts[j] == SupervisorAction::FireDisconnectedThenWait by {
                assert(i != 0);
                let rest = spec_actions(SupervisorState::Connected, events.drop_first());
                assert(acts[i] == rest[i - 1]);
                let j0 = choose|j0: int|
                    0 <= j0 < i - 1 && rest[j0] == SupervisorAction::FireDisconnectedThenWait;
                assert(acts[j0 + 1] == SupervisorAction::FireDisconnectedThenWait);
            }
        }
    }
}

} // verus!
