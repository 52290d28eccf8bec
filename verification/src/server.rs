//! The server core: one step of the loop. A step takes the next decoded
//! message, threads it through the lifecycle rules, the duplicate-id policy,
//! the dispatcher and the correlator, and says what the loop must do: write
//! a reply, stay silent, or terminate. The loop itself — reading framed
//! bytes and writing them — lives outside, around this core.

use vstd::prelude::*;
use crate::json::{Json, JsonV};
use crate::message::{Message, MessageV, RequestId, RequestIdV, ErrorObj, ErrorObjV, bytes_eq};
use crate::lifecycle::{
    ServerState, RequestGate, NotificationGate, spec_request_gate, spec_notification_gate,
    request_gate, notification_gate,
};
use crate::correlator::{Correlator, PendingV, idx_of};
use crate::dispatch::{
    Registry, HandlerKind, spec_dispatch_outcome, dispatch, dispatch_notification, find_method,
};
use crate::protocol::{
    CODE_NOT_INITIALIZED, CODE_INVALID_REQUEST, kw_initialize, kw_initialized, kw_shutdown,
    kw_exit, kw_goto_definition, kw_code_action, kw_msg_not_initialized, kw_msg_invalid_request,
    capabilities_json, initialize_bytes, initialized_bytes, shutdown_bytes, exit_bytes,
    goto_definition_bytes, code_action_bytes, msg_not_initialized_bytes,
    msg_invalid_request_bytes, build_capabilities,
};

verus! {

/// What the loop must do after a step.
pub enum Action {
    Reply(Message),
    Silent,
    Exit(bool),
}

/// The model of an action; the flag on an exit says whether it was clean.
pub enum ActionV {
    Reply(MessageV),
    Silent,
    Exit(bool),
}

impl View for Action {
    type V = ActionV;

    open spec fn view(&self) -> ActionV {
        match self {
            Action::Reply(m) => ActionV::Reply(m@),
            Action::Silent => ActionV::Silent,
            Action::Exit(clean) => ActionV::Exit(*clean),
        }
    }
}

/// The models of the answered-id list.
pub open spec fn view_id_seq(s: Seq<RequestId>) -> Seq<RequestIdV>
    decreases s.len(),
{
    if s.len() == 0 {
        seq![]
    } else {
        seq![s[0]@] + view_id_seq(s.skip(1))
    }
}

/// The model of the answered-id list, id by id.
pub proof fn lemma_view_id_seq(s: Seq<RequestId>)
    ensures
        view_id_seq(s).len() == s.len(),
        forall|i: int| 0 <= i < s.len() ==> #[trigger] view_id_seq(s)[i] == s[i]@,
    decreases s.len(),
{
    if s.len() > 0 {
        lemma_view_id_seq(s.skip(1));
    }
}

/// Whether an id is among the ids already answered.
pub open spec fn id_in(s: Seq<RequestIdV>, id: RequestIdV) -> bool
    decreases s.len(),
{
    s.len() > 0 && (s[0] == id || id_in(s.skip(1), id))
}

/// The model of the whole server.
pub struct ServerV {
    pub state: ServerState,
    pub registry: Seq<(Seq<u8>, HandlerKind)>,
    pub next_id: u64,
    pub pending: Seq<PendingV>,
    pub seen: Seq<RequestIdV>,
}

/// A success response.
pub open spec fn ok_response(id: RequestIdV, r: JsonV) -> MessageV {
    MessageV::Response { id, outcome: Ok(r) }
}

/// An error response.
pub open spec fn err_response(id: RequestIdV, code: i64, msg: Seq<u8>) -> MessageV {
    MessageV::Response { id, outcome: Err(ErrorObjV { code, message: msg }) }
}

/// One step of the server, mathematically. Requests go through the
/// lifecycle rule first — a rejected request leaves the server exactly as
/// it was — then through the duplicate-id policy: an id already answered on
/// this connection is refused with the invalid-request error and records
/// nothing. Notifications never produce a reply. Responses go to the
/// correlator; an unknown id changes nothing.
pub open spec fn spec_step(pre: ServerV, m: MessageV) -> (ServerV, ActionV) {
    match m {
        MessageV::Request { id, method, params } => {
            let gate = spec_request_gate(
                pre.state,
                method == kw_initialize(),
                method == kw_shutdown(),
            );
            match gate.1 {
                RequestGate::DropRequest => (pre, ActionV::Silent),
                RequestGate::RejectNotInitialized => (
                    pre,
                    ActionV::Reply(
                        err_response(id, CODE_NOT_INITIALIZED, kw_msg_not_initialized()),
                    ),
                ),
                RequestGate::RejectInvalidRequest => (
                    pre,
                    ActionV::Reply(
                        err_response(id, CODE_INVALID_REQUEST, kw_msg_invalid_request()),
                    ),
                ),
                _ => {
                    if id_in(pre.seen, id) {
                        (
                            pre,
                            ActionV::Reply(
                                err_response(id, CODE_INVALID_REQUEST, kw_msg_invalid_request()),
                            ),
                        )
                    } else {
                        let post = ServerV { state: gate.0, seen: pre.seen.push(id), ..pre };
                        match gate.1 {
                            RequestGate::AcceptInitialize => (
                                post,
                                ActionV::Reply(ok_response(id, capabilities_json())),
                            ),
                            RequestGate::AcceptShutdown => (
                                post,
                                ActionV::Reply(ok_response(id, JsonV::Null)),
                            ),
                            _ => (
                                post,
                                ActionV::Reply(
                                    MessageV::Response {
                                        id,
                                        outcome: spec_dispatch_outcome(
                                            pre.registry,
                                            method,
                                            params,
                                        ),
                                    },
                                ),
                            ),
                        }
                    }
                },
            }
        },
        MessageV::Notification { method, params } => {
            let gate = spec_notification_gate(
                pre.state,
                method == kw_initialized(),
                method == kw_exit(),
            );
            let post = ServerV { state: gate.0, ..pre };
            match gate.1 {
                NotificationGate::ExitClean => (post, ActionV::Exit(true)),
                NotificationGate::ExitAbnormal => (post, ActionV::Exit(false)),
                _ => (post, ActionV::Silent),
            }
        },
        MessageV::Response { id, outcome } => {
            match id {
                RequestIdV::Num(v) => if v >= 0 {
                    match idx_of(pre.pending, v as u64) {
                        Some(j) => (
                            ServerV { pending: pre.pending.remove(j), ..pre },
                            ActionV::Silent,
                        ),
                        None => (pre, ActionV::Silent),
                    }
                } else {
                    (pre, ActionV::Silent)
                },
                RequestIdV::Text(_) => (pre, ActionV::Silent),
            }
        },
    }
}

/// The registry the server starts with: the two advertised capabilities.
pub open spec fn default_registry() -> Seq<(Seq<u8>, HandlerKind)> {
    seq![
        (kw_goto_definition(), HandlerKind::EmptyDefinition),
        (kw_code_action(), HandlerKind::EmptyCodeAction),
    ]
}

/// The server: lifecycle state, handler registry, request correlator, and
/// the ids already answered on this connection.
pub struct Server {
    pub state: ServerState,
    pub registry: Registry,
    pub correlator: Correlator,
    pub seen: Vec<RequestId>,
}

/// The model of a server.
pub open spec fn server_view(s: Server) -> ServerV {
    ServerV {
        state: s.state,
        registry: s.registry.entries_view(),
        next_id: s.correlator.next_id,
        pending: s.correlator.pending_view(),
        seen: view_id_seq(s.seen@),
    }
}

/// A copy of a correlation key.
pub fn clone_id(id: &RequestId) -> (r: RequestId)
    ensures
        r@ == id@,
{
    match id {
        RequestId::Num(n) => RequestId::Num(*n),
        RequestId::Text(t) => RequestId::Text(crate::json::clone_bytes(t)),
    }
}

/// Exact equality of correlation keys.
pub fn id_eq(a: &RequestId, b: &RequestId) -> (r: bool)
    ensures
        r == (a@ == b@),
{
    match (a, b) {
        (RequestId::Num(x), RequestId::Num(y)) => *x == *y,
        (RequestId::Text(x), RequestId::Text(y)) => bytes_eq(x, y),
        _ => false,
    }
}

/// Whether an id was already answered.
#[verifier::loop_isolation(false)]
fn contains_id(seen: &Vec<RequestId>, id: &RequestId) -> (r: bool)
    ensures
        r == id_in(view_id_seq(seen@), id@),
{
    proof {
        lemma_view_id_seq(seen@);
    }
    let mut i: usize = 0;
    while i < seen.len()
        invariant
            i <= seen@.len(),
            forall|j: int| 0 <= j < i ==> #[trigger] view_id_seq(seen@)[j] != id@,
        decreases seen@.len() - i,
    {
        if id_eq(&seen[i], id) {
            proof {
                lemma_id_in_present(view_id_seq(seen@), id@, i as int);
            }
            return true;
        }
        i = i + 1;
    }
    proof {
        lemma_id_in_absent(view_id_seq(seen@), id@);
    }
    false
}

/// An id at some index is in the list.
pub proof fn lemma_id_in_present(s: Seq<RequestIdV>, id: RequestIdV, i: int)
    requires
        0 <= i < s.len(),
        s[i] == id,
    ensures
        id_in(s, id),
    decreases i,
{
    if i > 0 {
        assert(s.skip(1)[i - 1] == s[i]);
        lemma_id_in_present(s.skip(1), id, i - 1);
    }
}

/// An id at no index is not in the list.
pub proof fn lemma_id_in_absent(s: Seq<RequestIdV>, id: RequestIdV)
    requires
        forall|j: int| 0 <= j < s.len() ==> #[trigger] s[j] != id,
    ensures
        !id_in(s, id),
    decreases s.len(),
{
    if s.len() > 0 {
        assert forall|j: int| 0 <= j < s.skip(1).len() implies #[trigger] s.skip(1)[j] != id by {
            assert(s.skip(1)[j] == s[j + 1]);
        }
        lemma_id_in_absent(s.skip(1), id);
    }
}

impl Server {
    /// A fresh server for one connection: uninitialized, with the default
    /// registry, an empty pending table, and no answered ids.
    pub fn new() -> (s: Server)
        ensures
            s.correlator.wf(),
            server_view(s) == (ServerV {
                state: ServerState::Uninitialized,
                registry: default_registry(),
                next_id: 0,
                pending: Seq::<PendingV>::empty(),
                seen: Seq::<RequestIdV>::empty(),
            }),
    {
        let mut registry = Registry::new();
        assert(find_method(Seq::<(Seq<u8>, HandlerKind)>::empty(), kw_goto_definition()) is None);
        let ok1 = registry.register(goto_definition_bytes(), HandlerKind::EmptyDefinition);
        proof {
            let v1 = registry.entries_view();
            assert(v1 =~= seq![(kw_goto_definition(), HandlerKind::EmptyDefinition)]);
            assert(v1[0].0 != kw_code_action());
            assert(v1.skip(1) =~= Seq::<(Seq<u8>, HandlerKind)>::empty());
            assert(find_method(v1.skip(1), kw_code_action()) is None);
            assert(find_method(v1, kw_code_action()) is None);
        }
        let ok2 = registry.register(code_action_bytes(), HandlerKind::EmptyCodeAction);
        let s = Server {
            state: ServerState::Uninitialized,
            registry,
            correlator: Correlator::new(),
            seen: Vec::new(),
        };
        proof {
            assert(s.registry.entries_view() =~= default_registry());
            lemma_view_id_seq(s.seen@);
            assert(view_id_seq(s.seen@) =~= Seq::<RequestIdV>::empty());
        }
        s
    }

    /// One step of the server loop.
    pub fn step(&mut self, m: Message) -> (a: Action)
        requires
            old(self).correlator.wf(),
        ensures
            final(self).correlator.wf(),
            (server_view(*final(self)), a@) == spec_step(server_view(*old(self)), m@),
    {
        match m {
            Message::Request { id, method, params } => {
                let is_init = bytes_eq(&method, &initialize_bytes());
                let is_shutdown = bytes_eq(&method, &shutdown_bytes());
                let gate = request_gate(self.state, is_init, is_shutdown);
                match gate.1 {
                    RequestGate::DropRequest => Action::Silent,
                    RequestGate::RejectNotInitialized => Action::Reply(
                        Message::Response {
                            id,
                            outcome: Err(
                                ErrorObj {
                                    code: CODE_NOT_INITIALIZED,
                                    message: msg_not_initialized_bytes(),
                                },
                            ),
                        },
                    ),
                    RequestGate::RejectInvalidRequest => Action::Reply(
                        Message::Response {
                            id,
                            outcome: Err(
                                ErrorObj {
                                    code: CODE_INVALID_REQUEST,
                                    message: msg_invalid_request_bytes(),
                                },
                            ),
                        },
                    ),
                    _ => {
                        if contains_id(&self.seen, &id) {
                            Action::Reply(
                                Message::Response {
                                    id,
                                    outcome: Err(
                                        ErrorObj {
                                            code: CODE_INVALID_REQUEST,
                                            message: msg_invalid_request_bytes(),
                                        },
                                    ),
                                },
                            )
                        } else {
                            let ghost prev_seen = self.seen@;
                            let id2 = clone_id(&id);
                            self.seen.push(id2);
                            self.state = gate.0;
                            proof {
                                lemma_view_id_push(prev_seen, id2, self.seen@);
                            }
                            match gate.1 {
                                RequestGate::AcceptInitialize => Action::Reply(
                                    Message::Response { id, outcome: Ok(build_capabilities()) },
                                ),
                                RequestGate::AcceptShutdown => Action::Reply(
                                    Message::Response { id, outcome: Ok(Json::Null) },
                                ),
                                _ => Action::Reply(
                                    dispatch(&self.registry, id, &method, &params),
                                ),
                            }
                        }
                    },
                }
            },
            Message::Notification { method, params } => {
                let is_initialized = bytes_eq(&method, &initialized_bytes());
                let is_exit = bytes_eq(&method, &exit_bytes());
                let gate = notification_gate(self.state, is_initialized, is_exit);
                self.state = gate.0;
                match gate.1 {
                    NotificationGate::ExitClean => Action::Exit(true),
                    NotificationGate::ExitAbnormal => Action::Exit(false),
                    NotificationGate::DispatchNote => {
                        let _handled = dispatch_notification(&self.registry, &method, &params);
                        Action::Silent
                    },
                    _ => Action::Silent,
                }
            },
            Message::Response { id, outcome } => {
                let _resolved = self.correlator.resolve(&id);
                Action::Silent
            },
        }
    }

    /// Sends one outgoing request: a fresh, never-repeating id is allocated
    /// and registered as pending, and the request message is handed back to
    /// be framed and written. Nothing is sent when the id space is spent.
    pub fn send_request(&mut self, method: Vec<u8>, params: Json, issued_at: u64) -> (r: Option<
        Message,
    >)
        requires
            old(self).correlator.wf(),
        ensures
            final(self).correlator.wf(),
            final(self).state == old(self).state,
            final(self).registry.entries_view() == old(self).registry.entries_view(),
            view_id_seq(final(self).seen@) == view_id_seq(old(self).seen@),
            match r {
                Some(msg) => {
                    &&& msg@ == (MessageV::Request {
                        id: RequestIdV::Num(old(self).correlator.next_id as i64),
                        method: method@,
                        params: params@,
                    })
                    &&& old(self).correlator.next_id <= i64::MAX as u64
                    &&& final(self).correlator.pending_view() == old(
                        self,
                    ).correlator.pending_view().push(
                        PendingV {
                            id: old(self).correlator.next_id,
                            method: method@,
                            issued_at,
                        },
                    )
                    &&& forall|i: int|
                        0 <= i < old(self).correlator.pending_view().len() ==> (#[trigger] old(
                            self
                        ).correlator.pending_view()[i]).id != old(self).correlator.next_id
                },
                None => old(self).correlator.next_id > i64::MAX as u64 && final(
                    self
                ).correlator.pending_view() == old(self).correlator.pending_view(),
            },
    {
        if self.correlator.next_id > 9223372036854775807u64 {
            return None;
        }
        let mkey = crate::json::clone_bytes(&method);
        match self.correlator.send_request(mkey, issued_at) {
            Some(id) => Some(
                Message::Request { id: RequestId::Num(id as i64), method, params },
            ),
            None => None,
        }
    }
}

/// Modelling a pushed id pushes its model.
pub proof fn lemma_view_id_push(prev: Seq<RequestId>, id: RequestId, cur: Seq<RequestId>)
    requires
        cur.len() == prev.len() + 1,
        forall|i: int| 0 <= i < prev.len() ==> cur[i] == prev[i],
        cur[prev.len() as int] == id,
    ensures
        view_id_seq(cur) == view_id_seq(prev).push(id@),
{
    lemma_view_id_seq(prev);
    lemma_view_id_seq(cur);
    assert(view_id_seq(cur) =~= view_id_seq(prev).push(id@));
}

/// Every request that reaches a live server is answered by exactly one
/// response, and that response carries the request's own id.
pub proof fn lemma_request_one_response(
    pre: ServerV,
    id: RequestIdV,
    method: Seq<u8>,
    params: JsonV,
)
    requires
        pre.state != ServerState::Exited,
    ensures
        ({
            let a = spec_step(pre, MessageV::Request { id, method, params }).1;
            a matches ActionV::Reply(resp) && resp matches MessageV::Response {
                id: rid,
                outcome: _,
            } && rid == id
        }),
{
}

/// No notification is ever answered.
pub proof fn lemma_notification_no_reply(pre: ServerV, method: Seq<u8>, params: JsonV)
    ensures
        !(spec_step(pre, MessageV::Notification { method, params }).1 is Reply),
{
}

/// A request other than initialize, received before initialize, is answered
/// with the server-not-initialized error, and the server does not change.
pub proof fn lemma_uninitialized_rejected(
    pre: ServerV,
    id: RequestIdV,
    method: Seq<u8>,
    params: JsonV,
)
    requires
        pre.state == ServerState::Uninitialized,
        method != kw_initialize(),
    ensures
        spec_step(pre, MessageV::Request { id, method, params }) == (
            pre,
            ActionV::Reply(err_response(id, CODE_NOT_INITIALIZED, kw_msg_not_initialized())),
        ),
{
}

/// After initialize and initialized the server runs, and a go-to-definition
/// request is answered with the empty result list, whatever its parameters.
pub proof fn lemma_handshake_then_definition(
    pre: ServerV,
    id1: RequestIdV,
    params1: JsonV,
    params2: JsonV,
    id2: RequestIdV,
    params3: JsonV,
)
    requires
        pre.state == ServerState::Uninitialized,
        pre.registry == default_registry(),
        !id_in(pre.seen, id1),
        !id_in(pre.seen.push(id1), id2),
    ensures
        ({
            let r1 = spec_step(
                pre,
                MessageV::Request { id: id1, method: kw_initialize(), params: params1 },
            );
            let r2 = spec_step(
                r1.0,
                MessageV::Notification { method: kw_initialized(), params: params2 },
            );
            let r3 = spec_step(
                r2.0,
                MessageV::Request { id: id2, method: kw_goto_definition(), params: params3 },
            );
            &&& r1.1 == ActionV::Reply(ok_response(id1, capabilities_json()))
            &&& r2.0.state == ServerState::Running
            &&& r3.1 == ActionV::Reply(ok_response(id2, JsonV::Arr(Seq::<JsonV>::empty())))
            &&& r3.0.state == ServerState::Running
        }),
{
    assert(kw_initialize() != kw_shutdown());
    assert(kw_goto_definition() != kw_initialize());
    assert(kw_goto_definition() != kw_shutdown());
    assert(find_method(default_registry(), kw_goto_definition()) == Some(
        HandlerKind::EmptyDefinition,
    ));
}

/// Shutdown is acknowledged and exit then ends the loop cleanly.
pub proof fn lemma_shutdown_then_exit(pre: ServerV, id: RequestIdV, params1: JsonV, params2: JsonV)
    requires
        pre.state == ServerState::Running,
        !id_in(pre.seen, id),
    ensures
        ({
            let r1 = spec_step(
                pre,
                MessageV::Request { id, method: kw_shutdown(), params: params1 },
            );
            let r2 = spec_step(
                r1.0,
                MessageV::Notification { method: kw_exit(), params: params2 },
            );
            &&& r1.1 == ActionV::Reply(ok_response(id, JsonV::Null))
            &&& r1.0.state == ServerState::ShuttingDown
            &&& r2.1 == ActionV::Exit(true)
            &&& r2.0.state == ServerState::Exited
        }),
{
    assert(kw_shutdown() != kw_initialize());
    assert(kw_exit() != kw_initialized());
}

/// Exit without a prior shutdown still exits, but abnormally.
pub proof fn lemma_exit_without_shutdown(pre: ServerV, params: JsonV)
    requires
        pre.state != ServerState::ShuttingDown,
        pre.state != ServerState::Exited,
    ensures
        ({
            let r = spec_step(pre, MessageV::Notification { method: kw_exit(), params });
            r.1 == ActionV::Exit(false) && r.0.state == ServerState::Exited
        }),
{
    assert(kw_exit() != kw_initialized());
}

/// A request id that was already answered on this connection is refused,
/// deterministically, with the invalid-request error; nothing changes, so
/// the first request's answer stands alone.
pub proof fn lemma_duplicate_id_rejected(
    pre: ServerV,
    id: RequestIdV,
    method: Seq<u8>,
    params: JsonV,
)
    requires
        pre.state == ServerState::Running,
        id_in(pre.seen, id),
    ensures
        spec_step(pre, MessageV::Request { id, method, params }) == (
            pre,
            ActionV::Reply(err_response(id, CODE_INVALID_REQUEST, kw_msg_invalid_request())),
        ),
{
}

/// A response naming an id this side never sent is dropped: the server is
/// unchanged and the loop goes on.
pub proof fn lemma_unknown_response_dropped(
    pre: ServerV,
    id: RequestIdV,
    outcome: Result<JsonV, ErrorObjV>,
)
    requires
        match id {
            RequestIdV::Num(v) => v < 0 || idx_of(pre.pending, v as u64) is None,
            RequestIdV::Text(_) => true,
        },
    ensures
        spec_step(pre, MessageV::Response { id, outcome }) == (pre, ActionV::Silent),
{
}

/// The models of a list of messages.
pub open spec fn view_msg_seq(s: Seq<Message>) -> Seq<MessageV>
    decreases s.len(),
{
    if s.len() == 0 {
        seq![]
    } else {
        seq![s[0]@] + view_msg_seq(s.skip(1))
    }
}

/// The model of a message list, message by message.
pub proof fn lemma_view_msg_seq(s: Seq<Message>)
    ensures
        view_msg_seq(s).len() == s.len(),
        forall|i: int| 0 <= i < s.len() ==> #[trigger] view_msg_seq(s)[i] == s[i]@,
    decreases s.len(),
{
    if s.len() > 0 {
        lemma_view_msg_seq(s.skip(1));
    }
}

/// The server loop, mathematically: messages are taken in order; replies
/// are collected in order; the first exit ends the loop with its status and
/// the rest of the queue is never looked at.
pub open spec fn spec_run(pre: ServerV, msgs: Seq<MessageV>) -> (ServerV, Seq<MessageV>, Option<
    bool,
>)
    decreases msgs.len(),
{
    if msgs.len() == 0 {
        (pre, seq![], None)
    } else {
        let r = spec_step(pre, msgs[0]);
        match r.1 {
            ActionV::Exit(clean) => (r.0, seq![], Some(clean)),
            ActionV::Reply(resp) => {
                let rec = spec_run(r.0, msgs.skip(1));
                (rec.0, seq![resp] + rec.1, rec.2)
            },
            ActionV::Silent => spec_run(r.0, msgs.skip(1)),
        }
    }
}

impl Server {
    /// Drives the loop over a queue of already-decoded messages: the
    /// decision core of the server loop, with the byte streams factored
    /// out. The replies come back in order; the status says whether an exit
    /// ended the loop, and whether cleanly.
    pub fn run_script(&mut self, msgs: Vec<Message>) -> (r: (Vec<Message>, Option<bool>))
        requires
            old(self).correlator.wf(),
        ensures
            final(self).correlator.wf(),
            ({
                let spec = spec_run(server_view(*old(self)), view_msg_seq(msgs@));
                &&& server_view(*final(self)) == spec.0
                &&& view_msg_seq(r.0@) == spec.1
                &&& r.1 == spec.2
            }),
    {
        let mut replies: Vec<Message> = Vec::new();
        let mut queue = msgs;
        proof {
            lemma_view_msg_seq(replies@);
        }
        loop
            invariant
                self.correlator.wf(),
                spec_run(server_view(*old(self)), view_msg_seq(msgs@)) == ({
                    let rec = spec_run(server_view(*self), view_msg_seq(queue@));
                    (rec.0, view_msg_seq(replies@) + rec.1, rec.2)
                }),
            decreases queue@.len(),
        {
            if queue.len() == 0 {
                proof {
                    assert(view_msg_seq(queue@) =~= Seq::<MessageV>::empty());
                    assert(view_msg_seq(replies@) + Seq::<MessageV>::empty() =~= view_msg_seq(
                        replies@,
                    ));
                }
                return (replies, None);
            }
            let ghost qprev = queue@;
            let m = queue.remove(0);
            proof {
                lemma_view_msg_seq(qprev);
                lemma_view_msg_seq(queue@);
                assert(view_msg_seq(queue@) =~= view_msg_seq(qprev).skip(1));
                assert(m@ == view_msg_seq(qprev)[0]);
            }
            match self.step(m) {
                Action::Silent => {},
                Action::Reply(resp) => {
                    let ghost rprev = replies@;
                    replies.push(resp);
                    proof {
                        lemma_view_msg_seq(rprev);
                        lemma_view_msg_seq(replies@);
                        assert(view_msg_seq(replies@) =~= view_msg_seq(rprev).push(resp@));
                        let rec = spec_run(server_view(*self), view_msg_seq(queue@));
                        assert(view_msg_seq(rprev) + (seq![resp@] + rec.1) =~= view_msg_seq(
                            replies@,
                        ) + rec.1);
                    }
                },
                Action::Exit(clean) => {
                    proof {
                        assert(view_msg_seq(replies@) + Seq::<MessageV>::empty() =~= view_msg_seq(
                            replies@,
                        ));
                    }
                    return (replies, Some(clean));
                },
            }
        }
    }
}

} // verus!
