use std::cell::RefCell;

use skillsupport::json::JsonValue;
use skillsupport::runtime::lifecycle::{notification_for, LifecycleBus, LifecycleEvent, LifecycleObserver};
use skillsupport::runtime::services::registry::{RegisteredCapability, RegisteredMethod};
use skillsupport::runtime::transport::session::SessionId;

fn text(value: &JsonValue) -> &str {
    value.as_str().map(|s| s.as_str()).expect("string")
}

#[test]
fn broadcaster_sends_json_rpc_notification() {
    let id = SessionId::new(1);

    let value = notification_for(&LifecycleEvent::SessionConnected { session_id: id });

    assert_eq!(text(value.get("method").expect("method")), "lifecycle.session_connected");
    assert_eq!(
        text(value.get("params").expect("params").get("session_id").expect("session_id")),
        id.label()
    );
}

#[test]
fn capability_events_carry_the_capability() {
    let capability = RegisteredCapability {
        capability: "math".to_string(),
        methods: vec![RegisteredMethod {
            name: "math.add".to_string(),
            contract_sha: None,
            summary: Some("Add".to_string()),
        }],
        session_id: SessionId::new(4),
        version: None,
    };
    let value = notification_for(&LifecycleEvent::CapabilityRegistered {
        session_id: SessionId::new(4),
        capability: capability.clone(),
    });
    assert_eq!(text(value.get("jsonrpc").expect("jsonrpc")), "2.0");
    assert!(value.get("id").is_none());
    let params = value.get("params").expect("params");
    assert_eq!(text(params.get("session_id").expect("session")), "session-4");
    let cap = params.get("capability").expect("capability");
    assert_eq!(text(cap.get("capability").expect("name")), "math");
    assert!(cap.get("version").is_none());
    assert!(cap.get("session_id").is_none());
    let JsonValue::Array(methods) = cap.get("methods").expect("methods") else {
        panic!("methods must be an array");
    };
    assert_eq!(methods.len(), 1);
    assert_eq!(text(methods[0].get("summary").expect("summary")), "Add");
    assert!(methods[0].get("contract_sha").is_none());

    let value = notification_for(&LifecycleEvent::CapabilityUnregistered {
        session_id: SessionId::new(4),
        capability,
    });
    assert_eq!(text(value.get("method").expect("method")), "lifecycle.capability_unregistered");
}

#[test]
fn shutdown_and_disconnect_notifications() {
    let value = notification_for(&LifecycleEvent::RuntimeShuttingDown);
    assert_eq!(text(value.get("method").expect("method")), "lifecycle.runtime_shutdown");
    assert_eq!(value.get("params"), Some(&JsonValue::Object(Vec::new())));
    let value = notification_for(&LifecycleEvent::SessionDisconnected { session_id: SessionId::new(9) });
    assert_eq!(text(value.get("method").expect("method")), "lifecycle.session_disconnected");
}

struct Recorder<'a> {
    name: &'static str,
    seen: &'a RefCell<Vec<String>>,
}

impl LifecycleObserver for Recorder<'_> {
    fn on_event(&self, event: &LifecycleEvent) {
        let kind = match event {
            LifecycleEvent::SessionConnected { .. } => "connected",
            LifecycleEvent::SessionDisconnected { .. } => "disconnected",
            _ => "other",
        };
        self.seen.borrow_mut().push(format!("{}:{}", self.name, kind));
    }
}

#[test]
fn bus_hands_each_event_to_every_observer_in_order() {
    let seen = RefCell::new(Vec::new());
    let mut bus = LifecycleBus::default();
    bus.register(Recorder { name: "a", seen: &seen });
    bus.register(Recorder { name: "b", seen: &seen });
    bus.emit(LifecycleEvent::SessionConnected { session_id: SessionId::new(1) });
    bus.emit(LifecycleEvent::SessionDisconnected { session_id: SessionId::new(1) });
    assert_eq!(
        seen.into_inner(),
        vec!["a:connected", "b:connected", "a:disconnected", "b:disconnected"]
    );
}
