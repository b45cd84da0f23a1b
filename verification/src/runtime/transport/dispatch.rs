use vstd::prelude::*;

use crate::error::{JSON_RPC_FORWARD_TARGET_GONE, JSON_RPC_FORWARD_TIMEOUT, JSON_RPC_SELF_INVOCATION};
use crate::json::{as_u64_spec, entries_view, JsonNumberView, JsonValue, JsonView};
use crate::runtime::lifecycle::{EventView, LifecycleEvent};
use crate::runtime::services::encoding::opt_member;
use crate::runtime::services::registry::{
    cap_views, caps_not_of_session, caps_of_session, owner_in, CapabilityView, OwnerView,
    RuntimeCapabilityRegistry,
};
use crate::runtime::transport::pending::{
    due_sorted, ids_distinct, involves, keep, lemma_keep, not_involves, pending_views, ForwardView,
    PendingForward, PendingRequests,
};
use crate::runtime::transport::router::{
    error_view, failure_view, message_result, opt_json, read_message, read_outcome, ErrorView,
    JsonRpcError, JsonRpcMessage, JsonRpcRequest, JsonRpcResponse, MessageView, MethodContext,
    RequestView, ResponseView, Router,
};
use crate::runtime::transport::session::SessionId;
use crate::text::{push_str, string_of};

verus! {

/// The request as it is sent on to the session that serves its method:
/// the same method and params, under the given id (none for a notification).
pub open spec fn payload_view(request: RequestView, id: Option<JsonView>) -> JsonView {
    JsonView::Object(
        seq![("jsonrpc"@, JsonView::Str("2.0"@)), ("method"@, JsonView::Str(request.method))] + opt_member(
            "params"@,
            request.params,
        ) + opt_member("id"@, id),
    )
}

/// Builds the request sent on to the serving session.
pub fn request_payload(request: &JsonRpcRequest, id: Option<JsonValue>) -> (r: JsonValue)
    ensures
        r.view() == payload_view(request@, opt_json(id)),
{
    let ghost idv = opt_json(id);
    let mut entries: Vec<(String, JsonValue)> = Vec::new();
    entries.push((string_of("jsonrpc"), JsonValue::from_str("2.0")));
    entries.push((string_of("method"), JsonValue::from_str(request.method.as_str())));
    match &request.params {
        Some(p) => entries.push((string_of("params"), p.copy())),
        None => {},
    }
    match id {
        Some(i) => entries.push((string_of("id"), i)),
        None => {},
    }
    assert(entries_view(entries@) =~= payload_view(request@, idv)->Object_0);
    JsonValue::object(entries)
}

/// What the runtime is to do with a request it received.
pub enum Action {
    /// Nothing is sent.
    Nothing,
    /// Deliver the response to the session.
    Respond(SessionId, JsonRpcResponse),
    /// Answer the request with the runtime's own handler for its method, and
    /// deliver what it answers to the caller.
    Local(MethodContext),
    /// Send `payload` to `owner`; `forward_id` is the waiting forward that
    /// the answer will be matched to (none for a notification).
    Forward { owner: SessionId, payload: JsonValue, forward_id: Option<u64> },
}

pub enum ActionView {
    Nothing,
    Respond(u64, ResponseView),
    Local(u64, RequestView),
    Forward(u64, JsonView, Option<u64>),
}

impl View for Action {
    type V = ActionView;

    open spec fn view(&self) -> ActionView {
        match self {
            Action::Nothing => ActionView::Nothing,
            Action::Respond(s, r) => ActionView::Respond(s.0, r@),
            Action::Local(ctx) => ActionView::Local(ctx.caller.0, ctx.request@),
            Action::Forward { owner, payload, forward_id } => ActionView::Forward(owner.0, payload.view(), *forward_id),
        }
    }
}

/// The id handed to the next forward: one more than the last, wrapping.
pub open spec fn next_forward_id(counter: u64) -> u64 {
    if counter == u64::MAX {
        0
    } else {
        (counter + 1) as u64
    }
}

/// Whether a request is forwarded and an answer awaited: no local handler
/// serves it, another session does, and it has an id.
pub open spec fn awaits_answer(local: bool, owner: Option<OwnerView>, caller: u64, request: RequestView) -> bool {
    &&& !local
    &&& owner matches Some(o) && o.session_id != caller
    &&& !request.notification
}

/// What becomes of a request: answered locally; refused when nobody serves
/// its method or when the caller serves it itself (a notification is never
/// answered); otherwise sent on to the serving session, under `forward_id`
/// when an answer is awaited.
pub open spec fn request_action(
    local: bool,
    owner: Option<OwnerView>,
    caller: u64,
    request: RequestView,
    forward_id: u64,
) -> ActionView {
    if local {
        ActionView::Local(caller, request)
    } else {
        match owner {
            None => if request.notification {
                ActionView::Nothing
            } else {
                ActionView::Respond(
                    caller,
                    failure_view(error_view(-32601, "Method not found: "@ + request.method), request.id),
                )
            },
            Some(o) => if o.session_id == caller {
                if request.notification {
                    ActionView::Nothing
                } else {
                    ActionView::Respond(
                        caller,
                        failure_view(
                            error_view(-32004, "cannot invoke own registered method: "@ + request.method),
                            request.id,
                        ),
                    )
                }
            } else if request.notification {
                ActionView::Forward(o.session_id, payload_view(request, None), None)
            } else {
                ActionView::Forward(
                    o.session_id,
                    payload_view(request, Some(JsonView::Number(JsonNumberView::PosInt(forward_id)))),
                    Some(forward_id),
                )
            },
        }
    }
}

/// The same response, under another id.
pub open spec fn with_id(r: ResponseView, id: JsonView) -> ResponseView {
    ResponseView { jsonrpc: r.jsonrpc, result: r.result, error: r.error, id }
}

/// Whether a message from `caller` is a request that is forwarded with an
/// answer awaited, and whose answer would be due past the largest time.
pub open spec fn deadline_overflows<H: Fn(MethodContext) -> Result<JsonValue, JsonRpcError>>(
    router: Router<H>,
    caps: Seq<CapabilityView>,
    caller: u64,
    message: Result<MessageView, ErrorView>,
    now: u64,
    timeout: u64,
) -> bool {
    &&& message matches Ok(MessageView::Request(req))
    &&& awaits_answer(router.handler(req.method) is Some, owner_in(caps, req.method), caller, req)
    &&& now + timeout > u64::MAX
}

/// What a message from `caller` does: `r` is the action taken, and the
/// waiting forwards go from `before` to `after`. A request is decided by
/// `request_action`, answered locally when `router` serves its method; a
/// response is routed to the caller that waits for it; a message that could
/// not be read is answered with its error and a `null` id.
pub open spec fn inbound_outcome<H: Fn(MethodContext) -> Result<JsonValue, JsonRpcError>>(
    router: Router<H>,
    caps: Seq<CapabilityView>,
    caller: u64,
    message: Result<MessageView, ErrorView>,
    before: PendingRequests,
    after: PendingRequests,
    deadline: u64,
    r: ActionView,
) -> bool {
    match message {
        Err(e) => {
            &&& r == ActionView::Respond(caller, failure_view(e, JsonView::Null))
            &&& after.due() == before.due()
            &&& after.counter() == before.counter()
        },
        Ok(MessageView::Response(resp)) => {
            &&& r == match answer_route(before, caller, resp) {
                Some((s, x)) => ActionView::Respond(s, x),
                None => ActionView::Nothing,
            }
            &&& response_effect(before, after, caller, resp)
        },
        Ok(MessageView::Request(req)) => {
            let local = router.handler(req.method) is Some;
            &&& r == request_action(
                local,
                owner_in(caps, req.method),
                caller,
                req,
                next_forward_id(before.counter()),
            )
            &&& request_effect(before, after, local, owner_in(caps, req.method), caller, req, deadline)
        },
    }
}

/// Responses to deliver, each with the session it goes to.
pub open spec fn deliveries(v: Seq<(SessionId, JsonRpcResponse)>) -> Seq<(u64, ResponseView)> {
    Seq::new(v.len(), |i: int| (v[i].0.0, v[i].1@))
}

/// The error a caller gets for a forward that will not be answered.
pub open spec fn failure_notice(code: int, prefix: Seq<char>, f: ForwardView) -> (u64, ResponseView) {
    (f.caller, failure_view(error_view(code, prefix + f.method), f.original_id))
}

pub open spec fn failure_notices(code: int, prefix: Seq<char>, s: Seq<(u64, ForwardView)>) -> Seq<(u64, ResponseView)> {
    Seq::new(s.len(), |i: int| failure_notice(code, prefix, s[i].1))
}

pub open spec fn events_view(v: Seq<LifecycleEvent>) -> Seq<EventView> {
    Seq::new(v.len(), |i: int| v[i]@)
}

/// One `CapabilityUnregistered` event per capability, in order.
pub open spec fn unregistered_events(session: u64, caps: Seq<CapabilityView>) -> Seq<EventView> {
    Seq::new(caps.len(), |i: int| EventView::CapabilityUnregistered(session, caps[i]))
}

/// The error responses for forwards that will not be answered.
fn notices(forwards: &Vec<(u64, PendingForward)>, code: i64, prefix: &str) -> (r: Vec<(SessionId, JsonRpcResponse)>)
    ensures
        deliveries(r@) == failure_notices(code as int, prefix@, pending_views(forwards@)),
{
    let mut r: Vec<(SessionId, JsonRpcResponse)> = Vec::new();
    let mut i: usize = 0;
    while i < forwards.len()
        invariant
            i <= forwards.len(),
            r@.len() == i,
            forall|j: int| 0 <= j < i ==> (#[trigger] r@[j].0.0, r@[j].1@) == failure_notice(
                code as int,
                prefix@,
                forwards@[j].1@,
            ),
        decreases forwards.len() - i,
    {
        let f = &forwards[i].1;
        let mut message = string_of(prefix);
        push_str(&mut message, f.method.as_str());
        let response = JsonRpcResponse::failure(
            JsonRpcError::server_error(code, message),
            f.original_id.copy(),
        );
        r.push((f.caller, response));
        i = i + 1;
    }
    assert(deliveries(r@) =~= failure_notices(code as int, prefix@, pending_views(forwards@)));
    r
}

/// A response to deliver, by its view.
pub open spec fn delivery(r: Option<(SessionId, JsonRpcResponse)>) -> Option<(u64, ResponseView)> {
    match r {
        Some((s, x)) => Some((s.0, x@)),
        None => None,
    }
}

/// Where a response from `responder` goes: when its id names a waiting
/// forward that was sent to `responder`, to that forward's caller under the
/// caller's own id; otherwise nowhere.
pub open spec fn answer_route(pending: PendingRequests, responder: u64, response: ResponseView) -> Option<
    (u64, ResponseView),
> {
    match as_u64_spec(response.id) {
        Some(id) => match pending.get(id) {
            Some(f) => if f.owner == responder {
                Some((f.caller, with_id(response, f.original_id)))
            } else {
                None
            },
            None => None,
        },
        None => None,
    }
}

/// What a request does to the waiting forwards: one awaiting an answer is
/// recorded under the next forward id, with its caller, owner, the caller's
/// id, its method and its deadline; any other request leaves them as they
/// are.
pub open spec fn request_effect(
    before: PendingRequests,
    after: PendingRequests,
    local: bool,
    owner: Option<OwnerView>,
    caller: u64,
    request: RequestView,
    deadline: u64,
) -> bool {
    if awaits_answer(local, owner, caller, request) {
        let id = next_forward_id(before.counter());
        &&& after.counter() == id
        &&& forall|q: u64| #[trigger]
            after.get(q) == if q == id {
                Some(
                    ForwardView {
                        caller,
                        owner: owner->0.session_id,
                        original_id: request.id,
                        method: request.method,
                        deadline,
                    },
                )
            } else {
                before.get(q)
            }
    } else {
        after.due() == before.due() && after.counter() == before.counter()
    }
}

/// What a response does to the waiting forwards: the forward it answers is
/// done; a response that answers none leaves them as they are.
pub open spec fn response_effect(before: PendingRequests, after: PendingRequests, responder: u64, response: ResponseView) -> bool {
    &&& after.counter() == before.counter()
    &&& if answer_route(before, responder, response) is Some {
        forall|q: u64| #[trigger]
            after.get(q) == if Some(q) == as_u64_spec(response.id) {
                None
            } else {
                before.get(q)
            }
    } else {
        after.due() == before.due()
    }
}

/// Routes requests between sessions: answers those the runtime serves
/// itself, refuses those nobody can serve, and forwards the others to the
/// session that registered the method, matching the answers that come back
/// to the callers that wait for them.
pub struct Dispatcher {
    pending: PendingRequests,
    forward_timeout_ms: u64,
}

impl Dispatcher {
    /// The forwards that wait for an answer.
    pub closed spec fn pending(&self) -> PendingRequests {
        self.pending
    }

    /// How long a forward waits for its answer, in milliseconds.
    pub closed spec fn timeout(&self) -> u64 {
        self.forward_timeout_ms
    }

    pub open spec fn wf(&self) -> bool {
        self.pending().wf()
    }

    /// Whether two states hold the same waiting forwards and counter.
    pub open spec fn same_pending(&self, other: &Dispatcher) -> bool {
        &&& self.pending().due() == other.pending().due()
        &&& self.pending().counter() == other.pending().counter()
    }

    pub fn new(forward_timeout_ms: u64) -> (r: Self)
        ensures
            r.wf(),
            r.pending().due() == Seq::<(u64, ForwardView)>::empty(),
            r.pending().counter() == 0,
            r.timeout() == forward_timeout_ms,
    {
        Dispatcher { pending: PendingRequests::new(), forward_timeout_ms }
    }

    /// How long a forward waits for its answer, in milliseconds.
    pub fn forward_timeout_ms(&self) -> (r: u64)
        ensures
            r == self.timeout(),
    {
        self.forward_timeout_ms
    }

    /// Decides what becomes of a request from `caller`. `local` tells whether
    /// the runtime has its own handler for the method; `now` is the time in
    /// milliseconds, and a forwarded request waits until `now` plus the
    /// timeout for its answer.
    pub fn handle_request(
        &mut self,
        registry: &RuntimeCapabilityRegistry,
        local: bool,
        caller: SessionId,
        request: JsonRpcRequest,
        now: u64,
    ) -> (r: Action)
        requires
            old(self).wf(),
            awaits_answer(local, owner_in(registry@, request@.method), caller.0, request@) ==> now + old(
                self,
            ).timeout() <= u64::MAX,
        ensures
            final(self).wf(),
            final(self).timeout() == old(self).timeout(),
            r@ == request_action(
                local,
                owner_in(registry@, request@.method),
                caller.0,
                request@,
                next_forward_id(old(self).pending().counter()),
            ),
            request_effect(
                old(self).pending(),
                final(self).pending(),
                local,
                owner_in(registry@, request@.method),
                caller.0,
                request@,
                (now + old(self).timeout()) as u64,
            ),
    {
        if local {
            return Action::Local(MethodContext { caller, request });
        }
        let owner = match registry.owner(request.method.as_str()) {
            None => {
                if request.notification {
                    return Action::Nothing;
                }
                let error = JsonRpcError::method_not_found(request.method.as_str());
                return Action::Respond(caller, JsonRpcResponse::failure(error, request.id));
            },
            Some(o) => o,
        };
        if owner.session_id.0 == caller.0 {
            if request.notification {
                return Action::Nothing;
            }
            let mut message = string_of("cannot invoke own registered method: ");
            push_str(&mut message, request.method.as_str());
            let error = JsonRpcError::server_error(JSON_RPC_SELF_INVOCATION, message);
            return Action::Respond(caller, JsonRpcResponse::failure(error, request.id));
        }
        if request.notification {
            let payload = request_payload(&request, None);
            return Action::Forward { owner: owner.session_id, payload, forward_id: None };
        }
        let forward_id = self.pending.next_id();
        let deadline = now + self.forward_timeout_ms;
        let payload = request_payload(&request, Some(JsonValue::from_u64(forward_id)));
        let forward = PendingForward {
            caller,
            owner: owner.session_id,
            original_id: request.id,
            method: request.method,
            deadline,
        };
        self.pending.insert(forward_id, forward);
        Action::Forward { owner: owner.session_id, payload, forward_id: Some(forward_id) }
    }

    /// Decides what becomes of a message from `caller`: a request as
    /// `handle_request` decides, answered locally when `router` serves its
    /// method; a response as `handle_response` routes it; a message that
    /// could not be read is answered with its error and a `null` id.
    pub fn handle_inbound<H: Fn(MethodContext) -> Result<JsonValue, JsonRpcError>>(
        &mut self,
        registry: &RuntimeCapabilityRegistry,
        router: &Router<H>,
        caller: SessionId,
        message: Result<JsonRpcMessage, JsonRpcError>,
        now: u64,
    ) -> (r: Action)
        requires
            old(self).wf(),
            !deadline_overflows(*router, registry@, caller.0, message_result(message), now, old(self).timeout()),
        ensures
            final(self).wf(),
            final(self).timeout() == old(self).timeout(),
            inbound_outcome(
                *router,
                registry@,
                caller.0,
                message_result(message),
                old(self).pending(),
                final(self).pending(),
                (now + old(self).timeout()) as u64,
                r@,
            ),
    {
        match message {
            Err(error) => Action::Respond(caller, JsonRpcResponse::failure(error, JsonValue::Null)),
            Ok(JsonRpcMessage::Response(response)) => match self.handle_response(caller, response) {
                Some((session, routed)) => Action::Respond(session, routed),
                None => Action::Nothing,
            },
            Ok(JsonRpcMessage::Request(request)) => {
                let local = router.has_method(request.method.as_str());
                self.handle_request(registry, local, caller, request, now)
            },
        }
    }

    /// Whether a request from `caller` is forwarded with an answer awaited.
    fn awaits(&self, registry: &RuntimeCapabilityRegistry, local: bool, caller: SessionId, request: &JsonRpcRequest) -> (r:
        bool)
        ensures
            r == awaits_answer(local, owner_in(registry@, request@.method), caller.0, request@),
    {
        if local || request.notification {
            return false;
        }
        match registry.owner(request.method.as_str()) {
            Some(o) => o.session_id.0 != caller.0,
            None => false,
        }
    }

    /// Decides what becomes of a message a session sent as JSON text: the
    /// message `read_message` reads is handled as `handle_inbound` handles
    /// it. Where that message is a forwarded request whose answer would be
    /// due past the largest time, nothing is decided and nothing changes.
    pub fn handle_text<
        H: Fn(MethodContext) -> Result<JsonValue, JsonRpcError>,
        D: Fn(&JsonValue) -> Result<JsonRpcResponse, String>,
    >(
        &mut self,
        registry: &RuntimeCapabilityRegistry,
        router: &Router<H>,
        caller: SessionId,
        source: &str,
        decode: D,
        now: u64,
    ) -> (r: Option<Action>)
        requires
            old(self).wf(),
            forall|v: &JsonValue| #[trigger] call_requires(decode, (v,)),
        ensures
            final(self).wf(),
            final(self).timeout() == old(self).timeout(),
            exists|m: Result<JsonRpcMessage, JsonRpcError>|
                #[trigger] read_outcome(source@, decode, message_result(m)) && match r {
                    None => {
                        &&& deadline_overflows(*router, registry@, caller.0, message_result(m), now, old(self).timeout())
                        &&& final(self).pending() == old(self).pending()
                    },
                    Some(a) => {
                        &&& !deadline_overflows(
                            *router,
                            registry@,
                            caller.0,
                            message_result(m),
                            now,
                            old(self).timeout(),
                        )
                        &&& inbound_outcome(
                            *router,
                            registry@,
                            caller.0,
                            message_result(m),
                            old(self).pending(),
                            final(self).pending(),
                            (now + old(self).timeout()) as u64,
                            a@,
                        )
                    },
                },
    {
        let message = read_message(source, decode);
        let overflow = match &message {
            Ok(JsonRpcMessage::Request(request)) => {
                let local = router.has_method(request.method.as_str());
                self.awaits(registry, local, caller, request) && now.checked_add(self.forward_timeout_ms).is_none()
            },
            _ => false,
        };
        if overflow {
            None
        } else {
            Some(self.handle_inbound(registry, router, caller, message, now))
        }
    }

    /// A forwarded request could not be delivered: the forward is dropped and
    /// its caller gets a "target disconnected" error.
    pub fn forward_failed(&mut self, forward_id: u64) -> (r: Option<(SessionId, JsonRpcResponse)>)
        requires
            old(self).wf(),
        ensures
            final(self).wf(),
            final(self).timeout() == old(self).timeout(),
            final(self).pending().counter() == old(self).pending().counter(),
            match old(self).pending().get(forward_id) {
                Some(f) => r matches Some(x) && (x.0.0, x.1@) == failure_notice(
                    -32002,
                    "forward target disconnected for method "@,
                    f,
                ),
                None => r is None,
            },
            forall|q: u64| #[trigger]
                final(self).pending().get(q) == if q == forward_id {
                    None
                } else {
                    old(self).pending().get(q)
                },
    {
        match self.pending.cancel(forward_id) {
            None => None,
            Some(f) => {
                let mut message = string_of("forward target disconnected for method ");
                push_str(&mut message, f.method.as_str());
                let error = JsonRpcError::server_error(JSON_RPC_FORWARD_TARGET_GONE, message);
                Some((f.caller, JsonRpcResponse::failure(error, f.original_id)))
            },
        }
    }

    /// A response came from `responder`. When its id is that of a forward
    /// sent to `responder`, the forward is done and the response goes to the
    /// caller under the caller's own id; any other response is dropped.
    pub fn handle_response(&mut self, responder: SessionId, response: JsonRpcResponse) -> (r: Option<
        (SessionId, JsonRpcResponse),
    >)
        requires
            old(self).wf(),
        ensures
            final(self).wf(),
            final(self).timeout() == old(self).timeout(),
            final(self).pending().counter() == old(self).pending().counter(),
            delivery(r) == answer_route(old(self).pending(), responder.0, response@),
            response_effect(old(self).pending(), final(self).pending(), responder.0, response@),
    {
        let id = match response.id.as_u64() {
            Some(id) => id,
            None => return None,
        };
        match self.pending.take(id, responder) {
            None => None,
            Some(forward) => {
                let redirected = JsonRpcResponse {
                    jsonrpc: response.jsonrpc,
                    result: response.result,
                    error: response.error,
                    id: forward.original_id,
                };
                Some((forward.caller, redirected))
            },
        }
    }

    /// A session went away. Callers waiting on forwards sent to it get a
    /// "target disconnected" error; forwards it was waiting on are dropped;
    /// its capabilities are unregistered. Returns the responses to deliver
    /// and the events to announce: one per removed capability, then the
    /// disconnection.
    pub fn handle_disconnect(&mut self, registry: &mut RuntimeCapabilityRegistry, session_id: SessionId) -> (r: (
        Vec<(SessionId, JsonRpcResponse)>,
        Vec<LifecycleEvent>,
    ))
        requires
            old(self).wf(),
            old(registry).wf(),
        ensures
            final(self).wf(),
            final(registry).wf(),
            final(self).timeout() == old(self).timeout(),
            final(self).pending().counter() == old(self).pending().counter(),
            deliveries(r.0@) == failure_notices(
                -32002,
                "forward target disconnected for method "@,
                keep(old(self).pending().due(), involves(true, session_id.0)),
            ),
            final(self).pending().due() == keep(
                keep(old(self).pending().due(), not_involves(true, session_id.0)),
                not_involves(false, session_id.0),
            ),
            forall|q: u64| #[trigger]
                final(self).pending().get(q) == match old(self).pending().get(q) {
                    Some(f) => if f.owner == session_id.0 || f.caller == session_id.0 {
                        None
                    } else {
                        Some(f)
                    },
                    None => None,
                },
            final(registry)@ == caps_not_of_session(old(registry)@, session_id.0),
            events_view(r.1@) == unregistered_events(session_id.0, caps_of_session(old(registry)@, session_id.0)).push(
                EventView::SessionDisconnected(session_id.0),
            ),
    {
        let gone = self.pending.drain_owner(session_id);
        let responses = notices(&gone, JSON_RPC_FORWARD_TARGET_GONE, "forward target disconnected for method ");
        let _ = self.pending.drain_caller(session_id);
        let removed = registry.unregister_session(session_id);
        let mut events: Vec<LifecycleEvent> = Vec::new();
        let mut i: usize = 0;
        while i < removed.len()
            invariant
                i <= removed.len(),
                events@.len() == i,
                forall|j: int| 0 <= j < i ==> #[trigger] events@[j]@ == EventView::CapabilityUnregistered(
                    session_id.0,
                    removed@[j]@,
                ),
            decreases removed.len() - i,
        {
            events.push(LifecycleEvent::CapabilityUnregistered { session_id, capability: removed[i].copy() });
            i = i + 1;
        }
        events.push(LifecycleEvent::SessionDisconnected { session_id });
        assert(events_view(events@) =~= unregistered_events(session_id.0, cap_views(removed@)).push(
            EventView::SessionDisconnected(session_id.0),
        ));
        (responses, events)
    }

    /// Drops every forward whose deadline is at or before `now`; each caller
    /// gets a "timed out" error, in the order the forwards came due.
    pub fn reap_expired_pending(&mut self, now: u64) -> (r: Vec<(SessionId, JsonRpcResponse)>)
        requires
            old(self).wf(),
        ensures
            final(self).wf(),
            final(self).timeout() == old(self).timeout(),
            final(self).pending().counter() == old(self).pending().counter(),
            ({
                let due = old(self).pending().due();
                let k = r@.len() as int;
                &&& k <= due.len()
                &&& deliveries(r@) == failure_notices(-32003, "forward timed out for method "@, due.subrange(0, k))
                &&& final(self).pending().due() == due.subrange(k, due.len() as int)
                &&& forall|i: int| 0 <= i < k ==> #[trigger] due[i].1.deadline <= now
                &&& forall|i: int| k <= i < due.len() ==> #[trigger] due[i].1.deadline > now
            }),
    {
        let ghost due = self.pending.due();
        let expired = self.pending.take_expired(now);
        proof {
            let ev = pending_views(expired@);
            let k = ev.len() as int;
            assert(ev =~= due.subrange(0, k)) by {
                assert forall|i: int| 0 <= i < k implies ev[i] == due[i] by {
                    assert((ev + self.pending.due())[i] == ev[i]);
                }
            }
            assert(self.pending.due() =~= due.subrange(k, due.len() as int)) by {
                assert forall|i: int| 0 <= i < self.pending.due().len() implies self.pending.due()[i] == due[k + i] by {
                    assert((ev + self.pending.due())[k + i] == self.pending.due()[i]);
                }
            }
            assert forall|i: int| 0 <= i < k implies #[trigger] due[i].1.deadline <= now by {
                assert(ev[i] == due[i]);
                assert(expired@[i].1@ == ev[i].1);
            }
            assert forall|i: int| k <= i < due.len() implies #[trigger] due[i].1.deadline > now by {
                assert(self.pending.due()[i - k] == due[i]);
            }
        }
        let r = notices(&expired, JSON_RPC_FORWARD_TIMEOUT, "forward timed out for method ");
        assert(deliveries(r@).len() == r@.len());
        assert(r@.len() == expired@.len());
        r
    }

    /// The earliest deadline among the waiting forwards.
    pub fn next_pending_deadline(&self) -> (r: Option<u64>)
        requires
            self.wf(),
        ensures
            match r {
                None => self.pending().due().len() == 0,
                Some(d) => (exists|i: int|
                    0 <= i < self.pending().due().len() && #[trigger] self.pending().due()[i].1.deadline == d)
                    && forall|i: int|
                    0 <= i < self.pending().due().len() ==> d <= #[trigger] self.pending().due()[i].1.deadline,
            },
    {
        self.pending.next_deadline()
    }
}


/// A response that carries the id of a waiting forward reaches the caller
/// of that forward, under the id the caller used, exactly when it comes from
/// the session the request was forwarded to.
pub proof fn lemma_forward_round_trip(
    d: Dispatcher,
    id: u64,
    caller: u64,
    owner: u64,
    request: RequestView,
    deadline: u64,
    responder: u64,
    response: ResponseView,
)
    requires
        d.pending().get(id) == Some(
            ForwardView { caller, owner, original_id: request.id, method: request.method, deadline },
        ),
        as_u64_spec(response.id) == Some(id),
    ensures
        answer_route(d.pending(), responder, response) == if responder == owner {
            Some((caller, with_id(response, request.id)))
        } else {
            None
        },
{
}

/// A forward that no longer waits (answered, timed out, cancelled or
/// dropped on a disconnect) is not answered again.
pub proof fn lemma_settled_forward_is_not_answered(d: Dispatcher, id: u64, responder: u64, response: ResponseView)
    requires
        d.pending().get(id) is None,
        as_u64_spec(response.id) == Some(id),
    ensures
        answer_route(d.pending(), responder, response) is None,
{
}

/// After a session disconnects, no waiting forward involves it, and every
/// forward between other sessions still waits.
pub proof fn lemma_disconnect_clears_session(due: Seq<(u64, ForwardView)>, s: u64)
    requires
        due_sorted(due),
        ids_distinct(due),
    ensures
        forall|x: (u64, ForwardView)| #[trigger]
            keep(keep(due, not_involves(true, s)), not_involves(false, s)).contains(x) <==> due.contains(x)
                && x.1.owner != s && x.1.caller != s,
{
    lemma_keep(due, not_involves(true, s));
    lemma_keep(keep(due, not_involves(true, s)), not_involves(false, s));
}

} // verus!
