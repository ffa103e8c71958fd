//! Where a language-server session stands between `shutdown` and `exit`.
//!
//! The protocol asks a server to exit with code 0 when a `shutdown` request
//! came before `exit`, and with 1 otherwise; only the first `exit` decides.
//! The state holds the channel end `S` that the exit code goes out on; the
//! transitions hand that end back with the code, and the caller sends it.

use crate::text::same_text;
use vstd::prelude::*;

verus! {

/// The session's phase, holding the end the exit code is sent on until it
/// has been sent.
pub enum ProtocolState<S> {
    Running(S),
    Shutdown(S),
    Exited,
}

/// The state after a `shutdown` request.
pub open spec fn after_shutdown<S>(state: ProtocolState<S>) -> ProtocolState<S> {
    match state {
        ProtocolState::Running(sender) => ProtocolState::Shutdown(sender),
        ProtocolState::Shutdown(sender) => ProtocolState::Shutdown(sender),
        ProtocolState::Exited => ProtocolState::Exited,
    }
}

/// What an `exit` in this state sends, and on which end: 0 after a
/// shutdown, 1 without one, nothing once exited.
pub open spec fn exit_report<S>(state: ProtocolState<S>) -> Option<(S, i32)> {
    match state {
        ProtocolState::Running(sender) => Some((sender, 1i32)),
        ProtocolState::Shutdown(sender) => Some((sender, 0i32)),
        ProtocolState::Exited => None,
    }
}

/// The protocol requests that move the session along.
pub open spec fn request_effect<S>(state: ProtocolState<S>, method: Seq<char>) -> (ProtocolState<S>, Option<(S, i32)>) {
    if method == "shutdown"@ {
        (after_shutdown(state), None)
    } else if method == "exit"@ {
        (ProtocolState::Exited, exit_report(state))
    } else {
        (state, None)
    }
}

impl<S> ProtocolState<S> {
    /// A session that has neither shut down nor exited.
    pub fn new(sender: S) -> (state: Self)
        ensures
            state == ProtocolState::Running(sender),
    {
        ProtocolState::Running(sender)
    }

    /// Records a `shutdown` request.
    pub fn shutdown(&mut self)
        ensures
            *final(self) == after_shutdown(*old(self)),
    {
        let mut current = ProtocolState::Exited;
        std::mem::swap(&mut current, self);
        *self = match current {
            ProtocolState::Running(sender) | ProtocolState::Shutdown(sender) => ProtocolState::Shutdown(sender),
            ProtocolState::Exited => ProtocolState::Exited,
        };
    }

    /// Records an `exit` request, and hands back the end to send the exit
    /// code on, with the code, unless an earlier `exit` already did.
    pub fn exit(&mut self) -> (sent: Option<(S, i32)>)
        ensures
            *final(self) == ProtocolState::<S>::Exited,
            sent == exit_report(*old(self)),
    {
        let mut current = ProtocolState::Exited;
        std::mem::swap(&mut current, self);
        match current {
            ProtocolState::Running(sender) => Some((sender, 1)),
            ProtocolState::Shutdown(sender) => Some((sender, 0)),
            ProtocolState::Exited => None,
        }
    }

    /// Records a request by its method name: `shutdown` and `exit` move the
    /// session, every other method leaves it as it is.
    pub fn on_request(&mut self, method: &str) -> (sent: Option<(S, i32)>)
        ensures
            (*final(self), sent) == request_effect(*old(self), method@),
    {
        if same_text(method, "shutdown") {
            proof {
                reveal_strlit("shutdown");
            }
            self.shutdown();
            None
        } else if same_text(method, "exit") {
            proof {
                reveal_strlit("shutdown");
                reveal_strlit("exit");
            }
            self.exit()
        } else {
            None
        }
    }
}

/// The sender a session still holds, if it has not exited.
pub open spec fn held_sender<S>(state: ProtocolState<S>) -> Option<S> {
    match state {
        ProtocolState::Running(sender) => Some(sender),
        ProtocolState::Shutdown(sender) => Some(sender),
        ProtocolState::Exited => None,
    }
}

/// An `exit` reports success exactly when a `shutdown` came first: from a
/// running session, exiting straight away sends 1, and exiting after a
/// shutdown sends 0, both on the session's own end.
pub proof fn law_exit_code_tells_whether_shutdown_came_first<S>(sender: S)
    ensures
        exit_report(ProtocolState::Running(sender)) == Some((sender, 1i32)),
        exit_report(after_shutdown(ProtocolState::Running(sender))) == Some((sender, 0i32)),
        exit_report(after_shutdown(after_shutdown(ProtocolState::Running(sender)))) == Some((sender, 0i32)),
{
}

/// Only the first `exit` reports: once a session has exited, a further
/// `exit` sends nothing and a `shutdown` leaves it exited.
pub proof fn law_only_the_first_exit_reports<S>(state: ProtocolState<S>, method: Seq<char>)
    ensures
        exit_report(state) is Some <==> held_sender(state) is Some,
        exit_report(request_effect(state, "exit"@).0) is None,
        request_effect(request_effect(state, "exit"@).0, method).1 is None,
        request_effect(request_effect(state, "exit"@).0, method).0 == ProtocolState::<S>::Exited
            || method != "shutdown"@ && method != "exit"@,
{
    reveal_strlit("exit");
    reveal_strlit("shutdown");
    assert("exit"@.len() != "shutdown"@.len());
}

/// Requests other than `shutdown` and `exit` leave the session as it is.
pub proof fn law_other_requests_change_nothing<S>(state: ProtocolState<S>, method: Seq<char>)
    requires
        method != "shutdown"@,
        method != "exit"@,
    ensures
        request_effect(state, method) == (state, None::<(S, i32)>),
{
}

} // verus!

verus! {

/// A protocol error answered to a request: a code and a message.
#[derive(Debug, Clone, PartialEq, Eq)]
pub struct RpcError {
    pub code: i32,
    pub message: String,
}

impl RpcError {
    /// The request's parameters could not be read.
    pub fn invalid_params(message: &str) -> (error: Self)
        ensures
            error.code == -32602,
            error.message@ == message@,
    {
        RpcError { code: -32602, message: String::from_str(message) }
    }

    /// No handler serves the method.
    pub fn method_not_found(method: &str) -> (error: Self)
        ensures
            error.code == -32601,
            error.message@ == "Method not found: "@ + method@,
    {
        let mut message = String::from_str("Method not found: ");
        message.append(method);
        RpcError { code: -32601, message }
    }

    /// The message is not a valid request.
    pub fn invalid_request(message: &str) -> (error: Self)
        ensures
            error.code == -32600,
            error.message@ == message@,
    {
        RpcError { code: -32600, message: String::from_str(message) }
    }
}

/// What the server does with a message it has read.
#[derive(Debug, Clone, Copy, PartialEq, Eq, Structural)]
pub enum MessageAction {
    /// Stop serving, with this exit code.
    Stop(i32),
    /// Answer the request that names no method with an invalid-request
    /// error.
    RejectMissingMethod,
    /// Skip a notification that names no method.
    Ignore,
    /// Hand the message to its handler.
    Dispatch,
}

/// What the server does with a message, given whether a shutdown has
/// succeeded: `exit` stops it (with 0 after a shutdown, 1 otherwise), a
/// message without a method is refused if it is a request and skipped if
/// not, and anything else goes to its handler.
pub open spec fn message_action(shutdown_received: bool, method: Option<Seq<char>>, has_id: bool) -> MessageAction {
    match method {
        None => if has_id {
            MessageAction::RejectMissingMethod
        } else {
            MessageAction::Ignore
        },
        Some(name) => if name == "exit"@ {
            MessageAction::Stop(if shutdown_received {
                0i32
            } else {
                1i32
            })
        } else {
            MessageAction::Dispatch
        },
    }
}

/// The server's memory between messages: whether a shutdown succeeded.
#[derive(Debug, Clone, Copy, PartialEq, Eq, Structural)]
pub struct ServeState {
    pub shutdown_received: bool,
}

impl ServeState {
    pub fn new() -> (state: Self)
        ensures
            !state.shutdown_received,
    {
        ServeState { shutdown_received: false }
    }

    /// What to do with a message naming `method` (if it names one), that is
    /// a request when `has_id`.
    pub fn on_message(&self, method: Option<&str>, has_id: bool) -> (action: MessageAction)
        ensures
            action == message_action(
                self.shutdown_received,
                match method {
                    Some(m) => Some(m@),
                    None => None,
                },
                has_id,
            ),
    {
        match method {
            None => if has_id {
                MessageAction::RejectMissingMethod
            } else {
                MessageAction::Ignore
            },
            Some(name) => if same_text(name, "exit") {
                MessageAction::Stop(if self.shutdown_received {
                    0
                } else {
                    1
                })
            } else {
                MessageAction::Dispatch
            },
        }
    }

    /// Records how the handler answered `method`: a successful `shutdown`
    /// is remembered.
    pub fn after_dispatch(&mut self, method: &str, succeeded: bool)
        ensures
            final(self).shutdown_received == (old(self).shutdown_received || (method@ == "shutdown"@ && succeeded)),
    {
        if succeeded && same_text(method, "shutdown") {
            self.shutdown_received = true;
        }
    }
}

/// The server stops with 0 for `exit` exactly when a shutdown succeeded
/// before it.
pub proof fn law_exit_after_successful_shutdown(state: ServeState, method: Seq<char>, succeeded: bool, has_id: bool)
    ensures
        message_action(
            state.shutdown_received || (method == "shutdown"@ && succeeded),
            Some("exit"@),
            has_id,
        ) == MessageAction::Stop(
            if state.shutdown_received || (method == "shutdown"@ && succeeded) {
                0i32
            } else {
                1i32
            },
        ),
        message_action(false, Some("exit"@), has_id) == MessageAction::Stop(1i32),
        message_action(true, Some("exit"@), has_id) == MessageAction::Stop(0i32),
{
}

} // verus!
