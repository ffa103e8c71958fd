use emit::protocol::ProtocolState;

/// Sends what an exit hands back, as the server loop does, onto `sent`.
fn deliver(report: Option<(&'static str, i32)>, sent: &mut Vec<(&'static str, i32)>) {
    if let Some(report) = report {
        sent.push(report);
    }
}

#[test]
fn exit_after_shutdown_reports_success() {
    let mut sent = Vec::new();
    let mut state = ProtocolState::Running("client");
    state.shutdown();
    deliver(state.exit(), &mut sent);
    assert_eq!(sent, [("client", 0)]);
}

#[test]
fn exit_without_shutdown_reports_failure() {
    let mut sent = Vec::new();
    let mut state = ProtocolState::Running("client");
    deliver(state.exit(), &mut sent);
    assert_eq!(sent, [("client", 1)]);
}

#[test]
fn repeated_exit_keeps_first_result() {
    let mut sent = Vec::new();
    let mut state = ProtocolState::Running("client");
    deliver(state.exit(), &mut sent);
    deliver(state.exit(), &mut sent);
    assert_eq!(sent, [("client", 1)]);
}

#[test]
fn requests_are_told_apart_by_method() {
    let mut state = ProtocolState::new("client");
    assert_eq!(state.on_request("textDocument/hover"), None);
    assert!(matches!(state, ProtocolState::Running("client")));
    assert_eq!(state.on_request("shutdown"), None);
    assert!(matches!(state, ProtocolState::Shutdown("client")));
    assert_eq!(state.on_request("shutdown"), None);
    assert_eq!(state.on_request("exit"), Some(("client", 0)));
    assert!(matches!(state, ProtocolState::Exited));
    assert_eq!(state.on_request("exit"), None);
    state.shutdown();
    assert!(matches!(state, ProtocolState::Exited));
}

use emit::protocol::{MessageAction, RpcError, ServeState};

#[test]
fn serving_stops_with_the_code_the_shutdown_earned() {
    let mut state = ServeState::new();
    assert_eq!(state.on_message(Some("initialize"), true), MessageAction::Dispatch);
    state.after_dispatch("initialize", true);
    assert_eq!(state.on_message(Some("exit"), false), MessageAction::Stop(1));
    state.after_dispatch("shutdown", false);
    assert_eq!(state.on_message(Some("exit"), false), MessageAction::Stop(1));
    state.after_dispatch("shutdown", true);
    assert_eq!(state.on_message(Some("exit"), false), MessageAction::Stop(0));
}

#[test]
fn messages_without_a_method_are_refused_or_skipped() {
    let state = ServeState::new();
    assert_eq!(state.on_message(None, true), MessageAction::RejectMissingMethod);
    assert_eq!(state.on_message(None, false), MessageAction::Ignore);
    let error = RpcError::invalid_request("Request has no method");
    assert_eq!((error.code, error.message.as_str()), (-32600, "Request has no method"));
}

#[test]
fn protocol_errors_carry_their_codes() {
    let missing = RpcError::method_not_found("textDocument/frobnicate");
    assert_eq!(missing.code, -32601);
    assert_eq!(missing.message, "Method not found: textDocument/frobnicate");
    assert_eq!(RpcError::invalid_params("bad").code, -32602);
}
