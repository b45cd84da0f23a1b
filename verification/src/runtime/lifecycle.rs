use vstd::prelude::*;

use crate::json::{lemma_lookup_at, member, JsonValue, JsonView};
use crate::runtime::services::encoding::{capability_json, capability_to_json, lemma_capability_json_shows};
use crate::runtime::services::registry::{CapabilityView, RegisteredCapability};
use crate::runtime::transport::session::SessionId;
use crate::text::{decimal, string_of};

verus! {

/// Something that happened to the runtime that observers hear about.
#[derive(Debug, PartialEq, Eq)]
#[non_exhaustive]
pub enum LifecycleEvent {
    SessionConnected { session_id: SessionId },
    CapabilityRegistered { session_id: SessionId, capability: RegisteredCapability },
    CapabilityUnregistered { session_id: SessionId, capability: RegisteredCapability },
    SessionDisconnected { session_id: SessionId },
    RuntimeShuttingDown,
}

pub enum EventView {
    SessionConnected(u64),
    CapabilityRegistered(u64, CapabilityView),
    CapabilityUnregistered(u64, CapabilityView),
    SessionDisconnected(u64),
    RuntimeShuttingDown,
}

impl View for LifecycleEvent {
    type V = EventView;

    open spec fn view(&self) -> EventView {
        match self {
            LifecycleEvent::SessionConnected { session_id } => EventView::SessionConnected(session_id.0),
            LifecycleEvent::CapabilityRegistered { session_id, capability } => EventView::CapabilityRegistered(
                session_id.0,
                capability@,
            ),
            LifecycleEvent::CapabilityUnregistered { session_id, capability } => EventView::CapabilityUnregistered(
                session_id.0,
                capability@,
            ),
            LifecycleEvent::SessionDisconnected { session_id } => EventView::SessionDisconnected(session_id.0),
            LifecycleEvent::RuntimeShuttingDown => EventView::RuntimeShuttingDown,
        }
    }
}

impl LifecycleEvent {
    pub fn copy(&self) -> (r: Self)
        ensures
            r@ == self@,
    {
        match self {
            LifecycleEvent::SessionConnected { session_id } => LifecycleEvent::SessionConnected {
                session_id: *session_id,
            },
            LifecycleEvent::CapabilityRegistered { session_id, capability } => LifecycleEvent::CapabilityRegistered {
                session_id: *session_id,
                capability: capability.copy(),
            },
            LifecycleEvent::CapabilityUnregistered { session_id, capability } => LifecycleEvent::CapabilityUnregistered {
                session_id: *session_id,
                capability: capability.copy(),
            },
            LifecycleEvent::SessionDisconnected { session_id } => LifecycleEvent::SessionDisconnected {
                session_id: *session_id,
            },
            LifecycleEvent::RuntimeShuttingDown => LifecycleEvent::RuntimeShuttingDown,
        }
    }
}

impl Clone for LifecycleEvent {
    fn clone(&self) -> (r: Self)
        ensures
            r@ == self@,
    {
        self.copy()
    }
}

/// How a session is named to clients: `session-<n>`.
pub open spec fn session_label(id: u64) -> Seq<char> {
    "session-"@ + decimal(id as nat)
}

/// The notification method that announces an event.
pub open spec fn notification_method(e: EventView) -> Seq<char> {
    match e {
        EventView::SessionConnected(_) => "lifecycle.session_connected"@,
        EventView::CapabilityRegistered(_, _) => "lifecycle.capability_registered"@,
        EventView::CapabilityUnregistered(_, _) => "lifecycle.capability_unregistered"@,
        EventView::SessionDisconnected(_) => "lifecycle.session_disconnected"@,
        EventView::RuntimeShuttingDown => "lifecycle.runtime_shutdown"@,
    }
}

/// The parameters of the notification that announces an event: the session
/// by its label, and the capability where the event concerns one.
pub open spec fn notification_params(e: EventView) -> JsonView {
    match e {
        EventView::SessionConnected(s) => JsonView::Object(seq![("session_id"@, JsonView::Str(session_label(s)))]),
        EventView::CapabilityRegistered(s, c) => JsonView::Object(
            seq![("session_id"@, JsonView::Str(session_label(s))), ("capability"@, capability_json(c))],
        ),
        EventView::CapabilityUnregistered(s, c) => JsonView::Object(
            seq![("session_id"@, JsonView::Str(session_label(s))), ("capability"@, capability_json(c))],
        ),
        EventView::SessionDisconnected(s) => JsonView::Object(seq![("session_id"@, JsonView::Str(session_label(s)))]),
        EventView::RuntimeShuttingDown => JsonView::Object(Seq::empty()),
    }
}

/// The JSON-RPC notification (no id) that announces an event to clients.
pub open spec fn notification_json(e: EventView) -> JsonView {
    JsonView::Object(
        seq![
            ("jsonrpc"@, JsonView::Str("2.0"@)),
            ("method"@, JsonView::Str(notification_method(e))),
            ("params"@, notification_params(e)),
        ],
    )
}

/// A notification about a capability names the session by its label and
/// shows the capability as clients see it, with its version where it has
/// one.
pub proof fn lemma_capability_notification_shows(e: EventView)
    requires
        e is CapabilityRegistered || e is CapabilityUnregistered,
    ensures
        ({
            let (s, c) = match e {
                EventView::CapabilityRegistered(s, c) => (s, c),
                EventView::CapabilityUnregistered(s, c) => (s, c),
                _ => arbitrary(),
            };
            &&& member(notification_params(e), "session_id"@) == Some(JsonView::Str(session_label(s)))
            &&& member(notification_params(e), "capability"@) == Some(capability_json(c))
            &&& c.version matches Some(v) ==> member(capability_json(c), "version"@) == Some(JsonView::Str(v))
        }),
{
    reveal_strlit("session_id");
    reveal_strlit("capability");
    assert("session_id"@[0] != "capability"@[0]);
    let p = notification_params(e)->Object_0;
    lemma_lookup_at(p, "session_id"@, 0);
    lemma_lookup_at(p, "capability"@, 1);
    match e {
        EventView::CapabilityRegistered(_, c) => lemma_capability_json_shows(c),
        EventView::CapabilityUnregistered(_, c) => lemma_capability_json_shows(c),
        _ => {},
    }
}

/// Builds the notification for an event.
pub fn notification_for(event: &LifecycleEvent) -> (r: JsonValue)
    ensures
        r.view() == notification_json(event@),
{
    let mut params: Vec<(String, JsonValue)> = Vec::new();
    let method = match event {
        LifecycleEvent::SessionConnected { session_id } => {
            params.push((string_of("session_id"), JsonValue::String(session_id.label())));
            "lifecycle.session_connected"
        },
        LifecycleEvent::CapabilityRegistered { session_id, capability } => {
            params.push((string_of("session_id"), JsonValue::String(session_id.label())));
            params.push((string_of("capability"), capability_to_json(capability)));
            "lifecycle.capability_registered"
        },
        LifecycleEvent::CapabilityUnregistered { session_id, capability } => {
            params.push((string_of("session_id"), JsonValue::String(session_id.label())));
            params.push((string_of("capability"), capability_to_json(capability)));
            "lifecycle.capability_unregistered"
        },
        LifecycleEvent::SessionDisconnected { session_id } => {
            params.push((string_of("session_id"), JsonValue::String(session_id.label())));
            "lifecycle.session_disconnected"
        },
        LifecycleEvent::RuntimeShuttingDown => "lifecycle.runtime_shutdown",
    };
    assert(crate::json::entries_view(params@) =~= notification_params(event@)->Object_0);
    let params = JsonValue::object(params);
    let mut entries: Vec<(String, JsonValue)> = Vec::new();
    entries.push((string_of("jsonrpc"), JsonValue::from_str("2.0")));
    entries.push((string_of("method"), JsonValue::from_str(method)));
    entries.push((string_of("params"), params));
    assert(crate::json::entries_view(entries@) =~= notification_json(event@)->Object_0);
    JsonValue::object(entries)
}

/// Something that wants to hear about lifecycle events. What an observer
/// does with an event is its own affair; `heard` records which events it
/// has been handed, and implementations define it.
pub trait LifecycleObserver {
    /// Whether this observer has been handed `event`.
    open spec fn heard(&self, event: EventView) -> bool {
        vstd::pervasive::arbitrary::<spec_fn(&Self, EventView) -> bool>()(self, event)
    }

    fn on_event(&self, event: &LifecycleEvent)
        ensures
            self.heard(event@),
    ;
}

/// Hands every event to each registered observer, in the order in which
/// they were registered.
pub struct LifecycleBus<O> {
    observers: Vec<O>,
}

impl<O: LifecycleObserver> LifecycleBus<O> {
    /// The registered observers, in registration order.
    pub closed spec fn observers(&self) -> Seq<O> {
        self.observers@
    }

    pub fn new() -> (r: Self)
        ensures
            r.observers() == Seq::<O>::empty(),
    {
        LifecycleBus { observers: Vec::new() }
    }

    /// Adds an observer after those already registered.
    pub fn register(&mut self, observer: O)
        ensures
            final(self).observers() == old(self).observers().push(observer),
    {
        self.observers.push(observer);
    }

    /// Hands `event` to each observer in turn: afterwards every registered
    /// observer has heard it.
    pub fn emit(&self, event: LifecycleEvent)
        ensures
            forall|i: int| 0 <= i < self.observers().len() ==> #[trigger] self.observers()[i].heard(event@),
    {
        let mut i: usize = 0;
        while i < self.observers.len()
            invariant
                i <= self.observers.len(),
                forall|j: int| 0 <= j < i ==> #[trigger] self.observers@[j].heard(event@),
            decreases self.observers.len() - i,
        {
            self.observers[i].on_event(&event);
            i = i + 1;
        }
    }
}

impl<O: LifecycleObserver> Default for LifecycleBus<O> {
    fn default() -> (r: Self)
        ensures
            r.observers() == Seq::<O>::empty(),
    {
        LifecycleBus::new()
    }
}

} // verus!
