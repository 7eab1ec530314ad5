//! Lifecycle parameters, inbound dispatch, the reconnect supervisor, and
//! interceptor answers.

use wsrouter::interceptor::{intercept_outcome, Interceptor, InterceptorResult, InterceptorType};
use wsrouter::session::{inbound_command, lifecycle_params};
use wsrouter::supervisor::{
    supervisor_step, SupervisorAction, SupervisorEvent, SupervisorState, BACKOFF_SECS,
};

#[test]
fn server_lifecycle_params_carry_the_uuid() {
    let params = lifecycle_params(Some(42));
    assert_eq!(params.len(), 1);
    let text = params.get(&"uuid".to_string()).expect("a uuid binding");
    assert_eq!(text.len(), 36);
    let parsed = uuid::Uuid::parse_str(text).expect("a well-formed uuid");
    assert_eq!(parsed.as_u128(), 42);
}

#[test]
fn client_lifecycle_params_are_empty() {
    let params = lifecycle_params(None);
    assert_eq!(params.len(), 0);
}

#[test]
fn server_inbound_command_gets_the_uuid_injected() {
    let (name, params) = inbound_command("@PING #k 'v'".to_string(), Some(7));
    assert_eq!(name, "PING");
    assert_eq!(params.get(&"k".to_string()), Some(&"v".to_string()));
    let text = params.get(&"uuid".to_string()).expect("a uuid binding");
    assert_eq!(uuid::Uuid::parse_str(text).unwrap().as_u128(), 7);
}

#[test]
fn server_inbound_command_overrides_a_spoofed_uuid() {
    let spoofed = uuid::Uuid::from_u128(1).to_string();
    let wire = format!("@PING #uuid '{}'", spoofed);
    let (_, params) = inbound_command(wire, Some(9));
    let text = params.get(&"uuid".to_string()).expect("a uuid binding");
    assert_eq!(uuid::Uuid::parse_str(text).unwrap().as_u128(), 9);
}

#[test]
fn client_inbound_command_has_no_uuid() {
    let (name, params) = inbound_command("@PONG".to_string(), None);
    assert_eq!(name, "PONG");
    assert_eq!(params.get(&"uuid".to_string()), None);
}

#[test]
fn concurrent_dispatches_do_not_share_parameters() {
    let (_, params_a) = inbound_command("@A #who 'alice'".to_string(), Some(1));
    let (_, params_b) = inbound_command("@B #who 'bob'".to_string(), Some(1));
    let rt = tokio::runtime::Builder::new_multi_thread()
        .worker_threads(2)
        .build()
        .expect("a runtime");
    let task_a = rt.spawn(async move {
        let mut params = params_a;
        params.insert("seen".to_string(), "a".to_string());
        assert_eq!(params.get(&"who".to_string()), Some(&"alice".to_string()));
        assert_eq!(params.get(&"seen".to_string()), Some(&"a".to_string()));
    });
    let task_b = rt.spawn(async move {
        let mut params = params_b;
        params.insert("seen".to_string(), "b".to_string());
        assert_eq!(params.get(&"who".to_string()), Some(&"bob".to_string()));
        assert_eq!(params.get(&"seen".to_string()), Some(&"b".to_string()));
    });
    rt.block_on(async {
        task_a.await.expect("task a");
        task_b.await.expect("task b");
    });
}

#[test]
fn supervisor_retries_at_once_while_connecting() {
    let (state, action) = supervisor_step(
        SupervisorState::Connecting,
        SupervisorEvent::ConnectFailed,
    );
    assert_eq!(state, SupervisorState::Connecting);
    assert_eq!(action, SupervisorAction::AttemptConnect);
}

#[test]
fn supervisor_fires_connected_on_open() {
    let (state, action) = supervisor_step(
        SupervisorState::Connecting,
        SupervisorEvent::ConnectOpened,
    );
    assert_eq!(state, SupervisorState::Connected);
    assert_eq!(action, SupervisorAction::FireConnectedAndServe);
}

#[test]
fn disconnect_fires_then_connected_fires_again_after_backoff() {
    let (state, action) = supervisor_step(SupervisorState::Connected, SupervisorEvent::SessionEnded);
    assert_eq!(state, SupervisorState::Backoff);
    assert_eq!(action, SupervisorAction::FireDisconnectedThenWait);
    assert_eq!(BACKOFF_SECS, 2);
    let (state, action) = supervisor_step(state, SupervisorEvent::BackoffElapsed);
    assert_eq!(state, SupervisorState::Connecting);
    assert_eq!(action, SupervisorAction::AttemptConnect);
    let (state, action) = supervisor_step(state, SupervisorEvent::ConnectOpened);
    assert_eq!(state, SupervisorState::Connected);
    assert_eq!(action, SupervisorAction::FireConnectedAndServe);
}

#[test]
fn supervisor_ignores_events_out_of_state() {
    let (state, action) = supervisor_step(SupervisorState::Connected, SupervisorEvent::ConnectFailed);
    assert_eq!(state, SupervisorState::Connected);
    assert_eq!(action, SupervisorAction::Hold);
}

#[test]
fn interceptor_pass_keeps_the_rewritten_text() {
    let out = intercept_outcome(InterceptorResult::Pass("rewritten".to_string()));
    assert_eq!(out, Some("rewritten".to_string()));
}

#[test]
fn interceptor_cancel_drops_the_frame() {
    let out = intercept_outcome(InterceptorResult::Cancel);
    assert_eq!(out, None);
}

#[test]
fn interceptor_keeps_its_direction() {
    let incoming = Interceptor::new(InterceptorType::INCOMING);
    assert!(incoming.kind == InterceptorType::INCOMING);
    let outgoing = Interceptor::new(InterceptorType::OUTGOING);
    assert!(outgoing.kind == InterceptorType::OUTGOING);
}
