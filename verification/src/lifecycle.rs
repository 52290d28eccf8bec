//! The lifecycle state machine: initialize, initialized, shutdown, exit.
//! These checks are the central enforcement point; no handler runs unless
//! the current state admits the message.

use vstd::prelude::*;

verus! {

/// The connection lifecycle states, in protocol order. Exited is absorbing.
#[derive(PartialEq, Eq, Structural, Clone, Copy, Debug)]
pub enum ServerState {
    Uninitialized,
    Initializing,
    Running,
    ShuttingDown,
    Exited,
}

/// The position of a state in the lifecycle order.
pub open spec fn state_rank(s: ServerState) -> int {
    match s {
        ServerState::Uninitialized => 0,
        ServerState::Initializing => 1,
        ServerState::Running => 2,
        ServerState::ShuttingDown => 3,
        ServerState::Exited => 4,
    }
}

/// The lifecycle's decision on an incoming request.
#[derive(PartialEq, Eq, Structural, Clone, Copy, Debug)]
pub enum RequestGate {
    AcceptInitialize,
    AcceptShutdown,
    AcceptDispatch,
    RejectNotInitialized,
    RejectInvalidRequest,
    DropRequest,
}

/// The lifecycle's decision on an incoming notification.
#[derive(PartialEq, Eq, Structural, Clone, Copy, Debug)]
pub enum NotificationGate {
    BecomeRunning,
    ExitClean,
    ExitAbnormal,
    DispatchNote,
    DropNote,
}

/// The request rule. Before the handshake only initialize is admitted;
/// initialize may not repeat; shutdown is admitted while running and
/// answered again while shutting down; everything else while shutting down
/// is refused but keeps the connection open; an exited server is silent.
pub open spec fn spec_request_gate(s: ServerState, is_init: bool, is_shutdown: bool) -> (
    ServerState,
    RequestGate,
) {
    match s {
        ServerState::Uninitialized => if is_init {
            (ServerState::Initializing, RequestGate::AcceptInitialize)
        } else {
            (s, RequestGate::RejectNotInitialized)
        },
        ServerState::Initializing => if is_init {
            (s, RequestGate::RejectInvalidRequest)
        } else {
            (s, RequestGate::RejectNotInitialized)
        },
        ServerState::Running => if is_init {
            (s, RequestGate::RejectInvalidRequest)
        } else if is_shutdown {
            (ServerState::ShuttingDown, RequestGate::AcceptShutdown)
        } else {
            (s, RequestGate::AcceptDispatch)
        },
        ServerState::ShuttingDown => if is_shutdown {
            (s, RequestGate::AcceptShutdown)
        } else {
            (s, RequestGate::RejectInvalidRequest)
        },
        ServerState::Exited => (s, RequestGate::DropRequest),
    }
}

/// The notification rule. Exit always exits, cleanly only after shutdown;
/// initialized completes the handshake; other notifications are dispatched
/// while running and dropped elsewhere.
pub open spec fn spec_notification_gate(
    s: ServerState,
    is_initialized: bool,
    is_exit: bool,
) -> (ServerState, NotificationGate) {
    match s {
        ServerState::Exited => (s, NotificationGate::DropNote),
        _ => if is_exit {
            if s == ServerState::ShuttingDown {
                (ServerState::Exited, NotificationGate::ExitClean)
            } else {
                (ServerState::Exited, NotificationGate::ExitAbnormal)
            }
        } else if is_initialized {
            if s == ServerState::Initializing {
                (ServerState::Running, NotificationGate::BecomeRunning)
            } else {
                (s, NotificationGate::DropNote)
            }
        } else {
            if s == ServerState::Running {
                (s, NotificationGate::DispatchNote)
            } else {
                (s, NotificationGate::DropNote)
            }
        },
    }
}

/// Decides an incoming request's treatment from the current state.
pub fn request_gate(s: ServerState, is_init: bool, is_shutdown: bool) -> (r: (
    ServerState,
    RequestGate,
))
    ensures
        r == spec_request_gate(s, is_init, is_shutdown),
{
    match s {
        ServerState::Uninitialized => if is_init {
            (ServerState::Initializing, RequestGate::AcceptInitialize)
        } else {
            (s, RequestGate::RejectNotInitialized)
        },
        ServerState::Initializing => if is_init {
            (s, RequestGate::RejectInvalidRequest)
        } else {
            (s, RequestGate::RejectNotInitialized)
        },
        ServerState::Running => if is_init {
            (s, RequestGate::RejectInvalidRequest)
        } else if is_shutdown {
            (ServerState::ShuttingDown, RequestGate::AcceptShutdown)
        } else {
            (s, RequestGate::AcceptDispatch)
        },
        ServerState::ShuttingDown => if is_shutdown {
            (s, RequestGate::AcceptShutdown)
        } else {
            (s, RequestGate::RejectInvalidRequest)
        },
        ServerState::Exited => (s, RequestGate::DropRequest),
    }
}

/// Decides an incoming notification's treatment from the current state.
pub fn notification_gate(s: ServerState, is_initialized: bool, is_exit: bool) -> (r: (
    ServerState,
    NotificationGate,
))
    ensures
        r == spec_notification_gate(s, is_initialized, is_exit),
{
    match s {
        ServerState::Exited => (s, NotificationGate::DropNote),
        _ => if is_exit {
            if s == ServerState::ShuttingDown {
                (ServerState::Exited, NotificationGate::ExitClean)
            } else {
                (ServerState::Exited, NotificationGate::ExitAbnormal)
            }
        } else if is_initialized {
            if s == ServerState::Initializing {
                (ServerState::Running, NotificationGate::BecomeRunning)
            } else {
                (s, NotificationGate::DropNote)
            }
        } else {
            if s == ServerState::Running {
                (s, NotificationGate::DispatchNote)
            } else {
                (s, NotificationGate::DropNote)
            }
        },
    }
}

/// Lifecycle transitions never move backwards, and Exited is absorbing.
pub proof fn lemma_transitions_monotonic(
    s: ServerState,
    is_init: bool,
    is_shutdown: bool,
    is_initialized: bool,
    is_exit: bool,
)
    ensures
        state_rank(spec_request_gate(s, is_init, is_shutdown).0) >= state_rank(s),
        state_rank(spec_notification_gate(s, is_initialized, is_exit).0) >= state_rank(s),
        s == ServerState::Exited ==> spec_request_gate(s, is_init, is_shutdown).0 == s
            && spec_notification_gate(s, is_initialized, is_exit).0 == s,
{
}

} // verus!
