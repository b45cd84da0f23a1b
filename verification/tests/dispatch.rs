use std::cell::RefCell;

use skillsupport::contract::store::{check_refs, check_stored, contract_sha_for_bytes};
use skillsupport::contract::{Contract, ContractSha, ContractStore, ContractStoreError, ExecutionMode};
use skillsupport::json::JsonValue;
use skillsupport::runtime::lifecycle::{notification_for, LifecycleEvent};
use skillsupport::runtime::services::registry::{
    CapabilityRegistration, MethodRef, RuntimeCapabilityRegistry,
};
use skillsupport::runtime::transport::connection::{on_frame, on_read_failure, Frame, Step};
use skillsupport::runtime::transport::dispatch::{request_payload, Action, Dispatcher};
use skillsupport::runtime::transport::methods::{
    contract_method, contracts_method, health_result, methods_result, ping_result,
    register_method, unregister_method, version_result,
};
use skillsupport::runtime::transport::router::{
    finish_request, JsonRpcError, JsonRpcMessage, JsonRpcRequest, JsonRpcResponse, MethodContext,
    Router,
};
use skillsupport::runtime::transport::session::{SessionId, SessionManager};
use skillsupport::VERSION;

/// A contract store kept in memory, keyed by the SHA of each contract's
/// debug form.
#[derive(Default)]
struct MemoryStore {
    entries: RefCell<Vec<(ContractSha, Vec<u8>, Contract)>>,
}

impl ContractStore for MemoryStore {
    fn insert(&self, contract: &Contract) -> Result<ContractSha, ContractStoreError> {
        check_refs(&contract.refs, self)?;
        let bytes = format!("{contract:?}").into_bytes();
        let sha = contract_sha_for_bytes(&bytes);
        let existing = self
            .entries
            .borrow()
            .iter()
            .find(|(stored, _, _)| *stored == sha)
            .map(|(_, bytes, _)| bytes.clone());
        if check_stored(existing, &bytes, sha.clone())? {
            self.entries.borrow_mut().push((sha.clone(), bytes, contract.clone()));
        }
        Ok(sha)
    }

    fn get(&self, sha: &ContractSha) -> Result<Option<Contract>, ContractStoreError> {
        Ok(self
            .entries
            .borrow()
            .iter()
            .find(|(stored, _, _)| stored == sha)
            .map(|(_, _, contract)| contract.clone()))
    }

    fn list(&self) -> Result<Vec<ContractSha>, ContractStoreError> {
        let mut shas: Vec<ContractSha> = self.entries.borrow().iter().map(|(sha, _, _)| sha.clone()).collect();
        shas.sort();
        Ok(shas)
    }
}

/// What a session received.
#[derive(Debug, Clone)]
enum Received {
    Response(JsonRpcResponse),
    Request(JsonValue),
}

/// The runtime's state driven by hand: sessions, registry, dispatcher and
/// contract store, with the messages each session received.
struct Harness {
    sessions: SessionManager,
    registry: RuntimeCapabilityRegistry,
    dispatcher: Dispatcher,
    store: MemoryStore,
    now: u64,
    inbox: Vec<(SessionId, Received)>,
}

impl Harness {
    fn new(forward_timeout_ms: u64) -> Self {
        Harness {
            sessions: SessionManager::new(),
            registry: RuntimeCapabilityRegistry::new(),
            dispatcher: Dispatcher::new(forward_timeout_ms),
            store: MemoryStore::default(),
            now: 1_000,
            inbox: Vec::new(),
        }
    }

    fn connect(&mut self) -> SessionId {
        let id = self.sessions.register(None, self.now);
        self.announce(LifecycleEvent::SessionConnected { session_id: id });
        id
    }

    fn announce(&mut self, event: LifecycleEvent) {
        let notification = notification_for(&event);
        for session in self.sessions.list() {
            if session.transport.disconnected_at.is_none() {
                self.inbox.push((session.id, Received::Request(notification.clone())));
            }
        }
    }

    fn deliver(&mut self, session: SessionId, response: JsonRpcResponse) {
        self.inbox.push((session, Received::Response(response)));
    }

    fn answer_locally(&mut self, context: MethodContext, registration: Option<CapabilityRegistration>) {
        let caller = context.caller;
        let request = context.request;
        let mut events = Vec::new();
        let outcome = match request.method.as_str() {
            "runtime.ping" => Ok(ping_result()),
            "runtime.version" => Ok(version_result()),
            "runtime.health" => Ok(health_result(
                0,
                self.sessions.connected_count(),
                self.registry.capability_count(),
            )),
            "runtime.register" => {
                let params = registration.ok_or_else(|| "missing field `capability`".to_string());
                register_method(&mut self.registry, caller, params, &self.store).map(|(value, event)| {
                    events.push(event);
                    value
                })
            }
            "runtime.unregister" => unregister_method(&mut self.registry, caller, Ok(None)).map(|(value, evs)| {
                events.extend(evs);
                value
            }),
            "runtime.methods" => Ok(methods_result(&self.registry)),
            "runtime.contracts" => contracts_method(&self.store),
            "runtime.contract" => {
                let sha = match &request.params {
                    Some(JsonValue::Object(entries)) => entries
                        .iter()
                        .find(|(key, _)| key == "sha")
                        .and_then(|(_, value)| value.as_str().cloned())
                        .ok_or_else(|| "missing field `sha`".to_string())
                        .and_then(|text| ContractSha::new(text).map_err(|e| e.message())),
                    _ => Err("invalid type".to_string()),
                };
                contract_method(sha, &self.store).map(|contract| JsonValue::String(contract.name))
            }
            _ => Err(JsonRpcError::method_not_found(&request.method)),
        };
        if let Some(response) = finish_request(request, Some(outcome)) {
            self.deliver(caller, response);
        }
        for event in events {
            self.announce(event);
        }
    }

    fn send(&mut self, caller: SessionId, request: JsonRpcRequest) {
        self.send_with(caller, request, None);
    }

    fn send_with(&mut self, caller: SessionId, request: JsonRpcRequest, registration: Option<CapabilityRegistration>) {
        self.sessions.touch(caller, self.now);
        let local = request.method.starts_with("runtime.");
        match self.dispatcher.handle_request(&self.registry, local, caller, request, self.now) {
            Action::Nothing => {}
            Action::Respond(session, response) => self.deliver(session, response),
            Action::Local(context) => self.answer_locally(context, registration),
            Action::Forward { owner, payload, .. } => self.inbox.push((owner, Received::Request(payload))),
        }
    }

    fn respond(&mut self, responder: SessionId, response: JsonRpcResponse) {
        if let Some((caller, response)) = self.dispatcher.handle_response(responder, response) {
            self.deliver(caller, response);
        }
    }

    fn disconnect(&mut self, session: SessionId) {
        self.sessions.mark_disconnected(session, self.now);
        let (responses, events) = self.dispatcher.handle_disconnect(&mut self.registry, session);
        for (caller, response) in responses {
            self.deliver(caller, response);
        }
        for event in events {
            self.announce(event);
        }
    }

    fn tick(&mut self, ms: u64) {
        self.now += ms;
        for (caller, response) in self.dispatcher.reap_expired_pending(self.now) {
            self.deliver(caller, response);
        }
    }

    fn register(&mut self, session: SessionId, capability: &str, methods: &[&str], id: u64) -> JsonRpcResponse {
        let registration = CapabilityRegistration {
            capability: capability.to_string(),
            methods: methods.iter().map(|m| MethodRef::Name(m.to_string())).collect(),
            version: Some("1.0.0".to_string()),
        };
        self.register_with(session, registration, id)
    }

    fn register_with(&mut self, session: SessionId, registration: CapabilityRegistration, id: u64) -> JsonRpcResponse {
        self.send_with(session, request("runtime.register", None, id), Some(registration));
        self.response_for(session, id)
    }

    fn response_for(&self, session: SessionId, id: u64) -> JsonRpcResponse {
        self.inbox
            .iter()
            .rev()
            .find_map(|(to, received)| match received {
                Received::Response(r) if *to == session && r.id == JsonValue::from_u64(id) => Some(r.clone()),
                _ => None,
            })
            .unwrap_or_else(|| panic!("response id {id} was not received"))
    }

    fn requests_for(&self, session: SessionId, method: &str) -> Vec<JsonValue> {
        self.inbox
            .iter()
            .filter_map(|(to, received)| match received {
                Received::Request(v) if *to == session && v.get("method").and_then(|m| m.as_str()).map(|m| m.as_str()) == Some(method) => {
                    Some(v.clone())
                }
                _ => None,
            })
            .collect()
    }
}

fn request(method: &str, params: Option<JsonValue>, id: u64) -> JsonRpcRequest {
    JsonRpcRequest {
        method: method.to_string(),
        params: Some(params.unwrap_or(JsonValue::Null)),
        id: JsonValue::from_u64(id),
        notification: false,
    }
}

fn obj(entries: Vec<(&str, JsonValue)>) -> JsonValue {
    JsonValue::Object(entries.into_iter().map(|(k, v)| (k.to_string(), v)).collect())
}

fn field<'a>(value: &'a JsonValue, key: &str) -> &'a JsonValue {
    value.get(key).unwrap_or_else(|| panic!("no member {key}"))
}

fn success(value: JsonValue, id: JsonValue) -> JsonRpcResponse {
    JsonRpcResponse::success(value, id)
}

fn code(response: &JsonRpcResponse) -> i64 {
    response.error.as_ref().expect("error").code
}

#[test]
fn dev_runtime_answers_builtin_methods_and_reconnects() {
    let mut runtime = Harness::new(2_000);
    let socket = runtime.connect();

    runtime.send(socket, request("runtime.ping", None, 1));
    assert_eq!(runtime.response_for(socket, 1).result, Some(JsonValue::String("pong".to_string())));

    runtime.send(socket, request("runtime.version", None, 2));
    let version = runtime.response_for(socket, 2).result.expect("result");
    assert_eq!(field(&version, "name"), &JsonValue::String("skillsupport".to_string()));
    assert_eq!(field(&version, "version"), &JsonValue::String(VERSION.to_string()));

    runtime.send(socket, request("runtime.health", None, 3));
    let health = runtime.response_for(socket, 3).result.expect("result");
    assert_eq!(field(&health, "status"), &JsonValue::String("ok".to_string()));
    assert_eq!(field(&health, "sessions"), &JsonValue::from_u64(1));
    assert_eq!(runtime.sessions.connected_count(), 1);

    runtime.disconnect(socket);
    assert_eq!(runtime.sessions.connected_count(), 0);
    assert_eq!(runtime.sessions.count(), 1);

    let socket = runtime.connect();
    runtime.send(socket, request("runtime.ping", None, 4));
    assert_eq!(runtime.response_for(socket, 4).result, Some(JsonValue::String("pong".to_string())));
    assert_eq!(runtime.sessions.connected_count(), 1);
    assert_eq!(runtime.sessions.count(), 2);
}

#[test]
fn forwards_registered_methods_between_sessions() {
    let mut runtime = Harness::new(2_000);
    let caller = runtime.connect();
    let capability = runtime.connect();

    runtime.register(capability, "math", &["math.add"], 10);
    let registered = runtime.requests_for(caller, "lifecycle.capability_registered");
    assert_eq!(
        field(field(field(&registered[0], "params"), "capability"), "capability"),
        &JsonValue::String("math".to_string())
    );

    let params = obj(vec![("left", JsonValue::from_u64(2)), ("right", JsonValue::from_u64(3))]);
    runtime.send(caller, request("math.add", Some(params), 11));
    let forwarded = runtime.requests_for(capability, "math.add").pop().expect("forwarded");
    assert_eq!(field(field(&forwarded, "params"), "left"), &JsonValue::from_u64(2));
    runtime.respond(capability, success(JsonValue::from_u64(5), field(&forwarded, "id").clone()));

    let response = runtime.response_for(caller, 11);
    assert_eq!(response.result, Some(JsonValue::from_u64(5)));
}

#[test]
fn concurrent_forwards_do_not_serialize() {
    let mut runtime = Harness::new(2_000);
    let caller = runtime.connect();
    let capability = runtime.connect();
    let count = 64_u64;

    runtime.register(capability, "math", &["math.add"], 20);
    for value in 0..count {
        runtime.send(
            caller,
            request("math.add", Some(obj(vec![("value", JsonValue::from_u64(value))])), 100 + value),
        );
    }
    assert_eq!(runtime.dispatcher.next_pending_deadline(), Some(runtime.now + 2_000));

    let forwarded: Vec<(JsonValue, u64)> = runtime
        .requests_for(capability, "math.add")
        .into_iter()
        .map(|request| {
            let value = field(field(&request, "params"), "value")
                .as_u64()
                .expect("forwarded value should be a u64");
            (field(&request, "id").clone(), value)
        })
        .collect();
    assert_eq!(forwarded.len(), count as usize);

    for (forward_id, value) in forwarded.into_iter().rev() {
        runtime.respond(capability, success(obj(vec![("value", JsonValue::from_u64(value))]), forward_id));
    }

    for value in 0..count {
        let response = runtime.response_for(caller, 100 + value);
        assert_eq!(field(&response.result.expect("result"), "value"), &JsonValue::from_u64(value));
    }
    assert_eq!(runtime.dispatcher.next_pending_deadline(), None);
}

#[test]
fn response_from_non_owner_is_ignored() {
    let mut runtime = Harness::new(2_000);
    let caller = runtime.connect();
    let capability = runtime.connect();
    let intruder = runtime.connect();

    runtime.register(capability, "math", &["math.add"], 60);
    runtime.send(caller, request("math.add", Some(obj(vec![("value", JsonValue::from_u64(5))])), 61));

    let forwarded = runtime.requests_for(capability, "math.add").pop().expect("forwarded");
    let id = field(&forwarded, "id").clone();
    runtime.respond(intruder, success(obj(vec![("value", JsonValue::String("spoofed".to_string()))]), id.clone()));
    runtime.respond(capability, success(obj(vec![("value", JsonValue::from_u64(5))]), id.clone()));

    let response = runtime.response_for(caller, 61);
    assert_eq!(field(&response.result.expect("result"), "value"), &JsonValue::from_u64(5));

    let answers = runtime
        .inbox
        .iter()
        .filter(|(to, received)| *to == caller && matches!(received, Received::Response(r) if r.id == JsonValue::from_u64(61)))
        .count();
    assert_eq!(answers, 1);
    runtime.respond(capability, success(JsonValue::Null, id));
    let answers_after = runtime
        .inbox
        .iter()
        .filter(|(to, received)| *to == caller && matches!(received, Received::Response(r) if r.id == JsonValue::from_u64(61)))
        .count();
    assert_eq!(answers_after, 1);
}

#[test]
fn owner_disconnect_fails_pending_requests() {
    let mut runtime = Harness::new(2_000);
    let caller = runtime.connect();
    let capability = runtime.connect();

    runtime.register(capability, "math", &["math.add"], 70);
    runtime.send(caller, request("math.add", None, 71));
    let _forwarded = runtime.requests_for(capability, "math.add").pop().expect("forwarded");
    runtime.disconnect(capability);

    let response = runtime.response_for(caller, 71);
    assert_eq!(code(&response), -32002);
    assert_eq!(
        response.error.expect("error").message,
        "forward target disconnected for method math.add"
    );
}

#[test]
fn messages_from_one_session_process_in_order() {
    let mut runtime = Harness::new(2_000);
    let client = runtime.connect();

    runtime.register(client, "math", &["math.add"], 80);
    runtime.send(client, request("math.add", None, 81));

    let response = runtime.response_for(client, 81);
    assert_eq!(code(&response), -32004);
    assert_eq!(
        response.error.expect("error").message,
        "cannot invoke own registered method: math.add"
    );
}

#[test]
fn duplicate_registration_is_rejected() {
    let mut runtime = Harness::new(2_000);
    let first = runtime.connect();
    let second = runtime.connect();

    runtime.register(first, "math", &["math.add"], 20);
    let registration = CapabilityRegistration {
        capability: "other".to_string(),
        methods: vec![MethodRef::Name("math.add".to_string())],
        version: None,
    };
    let response = runtime.register_with(second, registration, 21);

    assert_eq!(code(&response), -32001);
}

fn navigate_contract(refs: Vec<ContractSha>) -> Contract {
    Contract {
        name: "browser.navigate".to_string(),
        version: Some("1.0.0".to_string()),
        summary: Some("Navigate the active browser tab to a URL.".to_string()),
        params: Some(obj(vec![
            ("type", JsonValue::String("object".to_string())),
            (
                "properties",
                obj(vec![("url", obj(vec![("type", JsonValue::String("string".to_string()))]))]),
            ),
        ])),
        result: Some(obj(vec![("type", JsonValue::String("object".to_string()))])),
        execution: ExecutionMode::Immediate,
        cancelable: false,
        refs,
    }
}

const MISSING: &str = "sha256:aaaaaaaaaaaaaaaaaaaaaaaaaaaaaaaaaaaaaaaaaaaaaaaaaaaaaaaaaaaaaaaa";

#[test]
fn contract_registration_hydrates_and_reconnects_by_sha() {
    let mut runtime = Harness::new(2_000);
    let caller = runtime.connect();
    let capability = runtime.connect();

    let registration = CapabilityRegistration {
        capability: "browser".to_string(),
        methods: vec![MethodRef::Declared {
            name: "browser.navigate".to_string(),
            contract: navigate_contract(Vec::new()),
        }],
        version: Some("1.0.0".to_string()),
    };
    let registered = runtime.register_with(capability, registration, 22).result.expect("result");
    let JsonValue::Array(methods) = field(&registered, "methods") else {
        panic!("methods must be an array");
    };
    let contract_sha = field(&methods[0], "contract_sha").as_str().expect("contract sha").clone();
    assert!(contract_sha.starts_with("sha256:"));
    assert_eq!(
        field(&methods[0], "summary"),
        &JsonValue::String("Navigate the active browser tab to a URL.".to_string())
    );

    runtime.send(
        caller,
        request("runtime.contract", Some(obj(vec![("sha", JsonValue::String(contract_sha.clone()))])), 23),
    );
    let hydrated = runtime.response_for(caller, 23);
    assert_eq!(hydrated.result, Some(JsonValue::String("browser.navigate".to_string())));

    runtime.send(caller, request("runtime.contracts", None, 26));
    let contracts = runtime.response_for(caller, 26).result.expect("result");
    assert_eq!(field(&contracts, "count"), &JsonValue::from_u64(1));
    assert_eq!(
        field(&contracts, "contracts"),
        &JsonValue::Array(vec![JsonValue::String(contract_sha.clone())])
    );

    runtime.disconnect(capability);
    assert_eq!(runtime.requests_for(caller, "lifecycle.capability_unregistered").len(), 1);

    let capability = runtime.connect();
    let registration = CapabilityRegistration {
        capability: "browser".to_string(),
        methods: vec![MethodRef::Referenced {
            name: "browser.navigate".to_string(),
            contract_sha: ContractSha::new(contract_sha.clone()).expect("valid sha"),
        }],
        version: Some("1.0.0".to_string()),
    };
    let registered = runtime.register_with(capability, registration, 24).result.expect("result");
    let JsonValue::Array(methods) = field(&registered, "methods") else {
        panic!("methods must be an array");
    };
    assert_eq!(
        field(&methods[0], "summary"),
        &JsonValue::String("Navigate the active browser tab to a URL.".to_string())
    );

    runtime.send(caller, request("runtime.methods", None, 25));
    let listed = runtime.response_for(caller, 25).result.expect("result");
    let JsonValue::Array(caps) = field(&listed, "capabilities") else {
        panic!("capabilities must be an array");
    };
    let JsonValue::Array(listed_methods) = field(&caps[0], "methods") else {
        panic!("methods must be an array");
    };
    assert_eq!(field(&listed_methods[0], "contract_sha"), field(&methods[0], "contract_sha"));
}

#[test]
fn unknown_contract_sha_is_rejected() {
    let mut runtime = Harness::new(2_000);
    let capability = runtime.connect();

    let registration = CapabilityRegistration {
        capability: "browser".to_string(),
        methods: vec![MethodRef::Referenced {
            name: "browser.navigate".to_string(),
            contract_sha: ContractSha::new(MISSING.to_string()).expect("valid sha"),
        }],
        version: Some("1.0.0".to_string()),
    };
    let response = runtime.register_with(capability, registration, 27);

    assert_eq!(code(&response), -32009);
}

#[test]
fn dangling_contract_ref_is_rejected() {
    let mut runtime = Harness::new(2_000);
    let capability = runtime.connect();

    let missing = ContractSha::new(MISSING.to_string()).expect("valid sha");
    let registration = CapabilityRegistration {
        capability: "browser".to_string(),
        methods: vec![MethodRef::Declared {
            name: "browser.navigate".to_string(),
            contract: navigate_contract(vec![missing]),
        }],
        version: Some("1.0.0".to_string()),
    };
    let response = runtime.register_with(capability, registration, 28);

    assert_eq!(code(&response), -32010);
}

#[test]
fn disconnect_unregisters_and_reconnect_can_register_same_methods() {
    let mut runtime = Harness::new(2_000);
    let caller = runtime.connect();
    let capability = runtime.connect();

    runtime.register(capability, "browser", &["browser.navigate"], 30);
    assert_eq!(runtime.requests_for(caller, "lifecycle.capability_registered").len(), 1);
    runtime.disconnect(capability);
    let unregistered = runtime.requests_for(caller, "lifecycle.capability_unregistered");
    assert_eq!(
        field(field(field(&unregistered[0], "params"), "capability"), "capability"),
        &JsonValue::String("browser".to_string())
    );

    runtime.send(caller, request("browser.navigate", None, 31));
    assert_eq!(code(&runtime.response_for(caller, 31)), -32601);

    let capability = runtime.connect();
    runtime.register(capability, "browser", &["browser.navigate"], 32);
    runtime.send(caller, request("browser.navigate", None, 33));
    let forwarded = runtime.requests_for(capability, "browser.navigate").pop().expect("forwarded");
    runtime.respond(capability, success(obj(vec![("ok", JsonValue::Bool(true))]), field(&forwarded, "id").clone()));
    let response = runtime.response_for(caller, 33);
    assert_eq!(field(&response.result.expect("result"), "ok"), &JsonValue::Bool(true));
}

#[test]
fn forward_timeout_returns_json_rpc_error() {
    let mut runtime = Harness::new(50);
    let caller = runtime.connect();
    let capability = runtime.connect();

    runtime.register(capability, "slow", &["slow.wait"], 40);
    runtime.send(caller, request("slow.wait", None, 41));
    runtime.tick(49);
    assert!(runtime.inbox.iter().all(|(to, r)| !(*to == caller && matches!(r, Received::Response(x) if x.id == JsonValue::from_u64(41)))));
    runtime.tick(1);

    let response = runtime.response_for(caller, 41);
    assert_eq!(code(&response), -32003);
    assert_eq!(response.error.expect("error").message, "forward timed out for method slow.wait");
}

#[test]
fn unknown_capability_notification_is_ignored() {
    let mut runtime = Harness::new(2_000);
    let capability = runtime.connect();
    let before = runtime.inbox.len();

    let notification = JsonRpcRequest {
        method: "browser.page_loaded".to_string(),
        params: Some(obj(vec![("url", JsonValue::String("https://example.com".to_string()))])),
        id: JsonValue::Null,
        notification: true,
    };
    runtime.send(capability, notification);
    assert_eq!(runtime.inbox.len(), before);

    runtime.send(capability, request("runtime.ping", None, 50));
    assert_eq!(runtime.response_for(capability, 50).result, Some(JsonValue::String("pong".to_string())));
}

#[test]
fn notifications_are_forwarded_without_an_id() {
    let mut runtime = Harness::new(2_000);
    let caller = runtime.connect();
    let capability = runtime.connect();
    runtime.register(capability, "browser", &["browser.page_loaded"], 1);

    let notification = JsonRpcRequest {
        method: "browser.page_loaded".to_string(),
        params: None,
        id: JsonValue::Null,
        notification: true,
    };
    runtime.send(caller, notification);
    let forwarded = runtime.requests_for(capability, "browser.page_loaded").pop().expect("forwarded");
    assert!(forwarded.get("id").is_none());
    assert!(forwarded.get("params").is_none());
    assert_eq!(runtime.dispatcher.next_pending_deadline(), None);
}

#[test]
fn forwarded_requests_carry_a_fresh_id() {
    let request = JsonRpcRequest {
        method: "math.add".to_string(),
        params: Some(JsonValue::from_u64(1)),
        id: JsonValue::String("caller-id".to_string()),
        notification: false,
    };
    let payload = request_payload(&request, Some(JsonValue::from_u64(9)));
    assert_eq!(
        payload,
        obj(vec![
            ("jsonrpc", JsonValue::String("2.0".to_string())),
            ("method", JsonValue::String("math.add".to_string())),
            ("params", JsonValue::from_u64(1)),
            ("id", JsonValue::from_u64(9)),
        ])
    );
}

#[test]
fn undeliverable_forward_fails_the_caller() {
    let mut runtime = Harness::new(2_000);
    let caller = runtime.connect();
    let capability = runtime.connect();
    runtime.register(capability, "math", &["math.add"], 1);
    let action = runtime.dispatcher.handle_request(&runtime.registry, false, caller, request("math.add", None, 2), runtime.now);
    let Action::Forward { forward_id: Some(id), .. } = action else {
        panic!("expected a forward awaiting an answer");
    };
    let (to, response) = runtime.dispatcher.forward_failed(id).expect("failure response");
    assert_eq!(to, caller);
    assert_eq!(code(&response), -32002);
    assert_eq!(response.id, JsonValue::from_u64(2));
    assert!(runtime.dispatcher.forward_failed(id).is_none());
}

#[test]
fn caller_disconnect_drops_its_forwards() {
    let mut runtime = Harness::new(2_000);
    let caller = runtime.connect();
    let capability = runtime.connect();
    runtime.register(capability, "math", &["math.add"], 1);
    runtime.send(caller, request("math.add", None, 2));
    let forwarded = runtime.requests_for(capability, "math.add").pop().expect("forwarded");
    runtime.disconnect(caller);
    assert_eq!(runtime.dispatcher.next_pending_deadline(), None);
    assert!(runtime.dispatcher.handle_response(capability, success(JsonValue::Null, field(&forwarded, "id").clone())).is_none());
}

#[test]
fn unregister_removes_the_callers_capabilities() {
    let mut runtime = Harness::new(2_000);
    let first = runtime.connect();
    let second = runtime.connect();
    runtime.register(first, "math", &["math.add"], 1);
    runtime.register(second, "text", &["text.upper"], 2);
    runtime.send(first, request("runtime.unregister", None, 3));
    let result = runtime.response_for(first, 3).result.expect("result");
    let JsonValue::Array(removed) = field(&result, "unregistered") else {
        panic!("unregistered must be an array");
    };
    assert_eq!(removed.len(), 1);
    assert_eq!(field(&removed[0], "capability"), &JsonValue::String("math".to_string()));
    assert!(runtime.registry.owner("math.add").is_none());
    assert!(runtime.registry.owner("text.upper").is_some());
}

#[test]
fn unregister_by_name_and_bad_params() {
    let mut registry = RuntimeCapabilityRegistry::new();
    let store = MemoryStore::default();
    let session = SessionId::new(1);
    let registration = CapabilityRegistration {
        capability: "math".to_string(),
        methods: vec![MethodRef::Name("math.add".to_string())],
        version: None,
    };
    let (result, event) = register_method(&mut registry, session, Ok(registration), &store).expect("registered");
    assert_eq!(field(&result, "version"), &JsonValue::Null);
    assert!(matches!(event, LifecycleEvent::CapabilityRegistered { .. }));

    let error = register_method(&mut registry, session, Err("invalid type: null".to_string()), &store)
        .expect_err("bad params");
    assert_eq!(error, JsonRpcError::invalid_params("invalid type: null".to_string()));

    let (result, events) = unregister_method(&mut registry, SessionId::new(2), Ok(Some("math".to_string())))
        .expect("answer");
    assert_eq!(result, obj(vec![("unregistered", JsonValue::Array(Vec::new()))]));
    assert!(events.is_empty());
    let (_, events) = unregister_method(&mut registry, session, Ok(Some("math".to_string()))).expect("answer");
    assert_eq!(events.len(), 1);
    assert_eq!(registry.capability_count(), 0);
    let error = unregister_method(&mut registry, session, Err("bad".to_string())).expect_err("bad params");
    assert_eq!(error.code, -32602);
}

#[test]
fn contract_lookups_report_store_outcomes() {
    let store = MemoryStore::default();
    let sha = ContractSha::new(MISSING.to_string()).expect("valid sha");
    let error = contract_method(Ok(sha), &store).expect_err("unknown");
    assert_eq!(error, JsonRpcError::server_error(-32009, format!("unknown contract sha: {MISSING}")));
    let error = contract_method(Err("missing field `sha`".to_string()), &store).expect_err("bad params");
    assert_eq!(error.code, -32602);
    let empty = contracts_method(&store).expect("listing");
    assert_eq!(
        empty,
        obj(vec![("count", JsonValue::from_u64(0)), ("contracts", JsonValue::Array(Vec::new()))])
    );
}

#[test]
fn frames_map_to_connection_steps() {
    assert!(matches!(on_frame(Frame::Text("x".to_string())), Step::Deliver(t) if t == "x"));
    assert!(matches!(on_frame(Frame::Ping(vec![1, 2])), Step::Reply(p) if p == vec![1, 2]));
    assert!(matches!(on_frame(Frame::Pong), Step::Touch));
    assert!(matches!(on_frame(Frame::Close), Step::Close));
    assert!(matches!(on_frame(Frame::Binary), Step::Ignore));
    assert!(matches!(on_frame(Frame::Raw), Step::Ignore));
    assert!(matches!(on_read_failure(true), Step::Ignore));
    assert!(matches!(on_read_failure(false), Step::Close));
}

#[test]
fn inbound_messages_are_routed_by_kind() {
    type Handler = Box<dyn Fn(MethodContext) -> Result<JsonValue, JsonRpcError>>;
    let mut router: Router<Handler> = Router::new();
    router.register("runtime.ping".to_string(), Box::new(|_| Ok(ping_result())));

    let mut runtime = Harness::new(2_000);
    let caller = runtime.connect();
    let capability = runtime.connect();
    runtime.register(capability, "math", &["math.add"], 1);

    let action = runtime.dispatcher.handle_inbound(
        &runtime.registry,
        &router,
        caller,
        Err(JsonRpcError::parse_error()),
        runtime.now,
    );
    let Action::Respond(to, response) = action else {
        panic!("expected an error response");
    };
    assert_eq!(to, caller);
    assert_eq!(response, JsonRpcResponse::failure(JsonRpcError::parse_error(), JsonValue::Null));

    let action = runtime.dispatcher.handle_inbound(
        &runtime.registry,
        &router,
        caller,
        Ok(JsonRpcMessage::Request(request("runtime.ping", None, 2))),
        runtime.now,
    );
    let Action::Local(context) = action else {
        panic!("expected a local answer");
    };
    let answer = router.dispatch_request(context).expect("answer");
    assert_eq!(answer.result, Some(JsonValue::String("pong".to_string())));

    let action = runtime.dispatcher.handle_inbound(
        &runtime.registry,
        &router,
        caller,
        Ok(JsonRpcMessage::Request(request("math.add", None, 3))),
        runtime.now,
    );
    let Action::Forward { owner, forward_id: Some(id), .. } = action else {
        panic!("expected a forward");
    };
    assert_eq!(owner, capability);

    let reply = success(JsonValue::from_u64(7), JsonValue::from_u64(id));
    let action = runtime.dispatcher.handle_inbound(
        &runtime.registry,
        &router,
        caller,
        Ok(JsonRpcMessage::Response(reply.clone())),
        runtime.now,
    );
    assert!(matches!(action, Action::Nothing));
    let action = runtime.dispatcher.handle_inbound(
        &runtime.registry,
        &router,
        capability,
        Ok(JsonRpcMessage::Response(reply)),
        runtime.now,
    );
    let Action::Respond(to, response) = action else {
        panic!("expected the answer to go to the caller");
    };
    assert_eq!(to, caller);
    assert_eq!(response.id, JsonValue::from_u64(3));
    assert_eq!(response.result, Some(JsonValue::from_u64(7)));
}

#[test]
fn inbound_text_is_read_then_routed() {
    type Handler = Box<dyn Fn(MethodContext) -> Result<JsonValue, JsonRpcError>>;
    let mut router: Router<Handler> = Router::new();
    router.register("runtime.ping".to_string(), Box::new(|_| Ok(ping_result())));
    let no_response = |_value: &JsonValue| Err::<JsonRpcResponse, String>("not a response".to_string());

    let mut runtime = Harness::new(2_000);
    let caller = runtime.connect();
    let capability = runtime.connect();
    runtime.register(capability, "math", &["math.add"], 1);

    let action = runtime
        .dispatcher
        .handle_text(&runtime.registry, &router, caller, "{oops", no_response, runtime.now)
        .expect("decided");
    let Action::Respond(to, response) = action else {
        panic!("expected a parse error");
    };
    assert_eq!(to, caller);
    assert_eq!(response, JsonRpcResponse::failure(JsonRpcError::parse_error(), JsonValue::Null));

    let action = runtime
        .dispatcher
        .handle_text(
            &runtime.registry,
            &router,
            caller,
            r#"{"jsonrpc":"2.0","method":"runtime.ping","id":2}"#,
            no_response,
            runtime.now,
        )
        .expect("decided");
    assert!(matches!(action, Action::Local(ref context) if context.request.method == "runtime.ping"));

    let action = runtime
        .dispatcher
        .handle_text(
            &runtime.registry,
            &router,
            caller,
            r#"{"jsonrpc":"2.0","method":"math.add","params":[1,2],"id":3}"#,
            no_response,
            runtime.now,
        )
        .expect("decided");
    let Action::Forward { owner, payload, forward_id: Some(id) } = action else {
        panic!("expected a forward");
    };
    assert_eq!(owner, capability);
    assert_eq!(payload.get("id"), Some(&JsonValue::from_u64(id)));
    assert_eq!(
        payload.get("params"),
        Some(&JsonValue::Array(vec![JsonValue::from_u64(1), JsonValue::from_u64(2)]))
    );

    let answer = |_value: &JsonValue| Ok(success(JsonValue::from_u64(3), JsonValue::from_u64(id)));
    let text = format!(r#"{{"jsonrpc":"2.0","result":3,"id":{id}}}"#);
    let action = runtime
        .dispatcher
        .handle_text(&runtime.registry, &router, capability, &text, answer, runtime.now)
        .expect("decided");
    let Action::Respond(to, response) = action else {
        panic!("expected the answer to go to the caller");
    };
    assert_eq!(to, caller);
    assert_eq!(response.id, JsonValue::from_u64(3));
    assert_eq!(response.result, Some(JsonValue::from_u64(3)));
}

#[test]
fn a_forward_due_past_the_largest_time_is_not_decided() {
    type Handler = Box<dyn Fn(MethodContext) -> Result<JsonValue, JsonRpcError>>;
    let router: Router<Handler> = Router::new();
    let no_response = |_value: &JsonValue| Err::<JsonRpcResponse, String>("not a response".to_string());
    let mut runtime = Harness::new(2_000);
    let caller = runtime.connect();
    let capability = runtime.connect();
    runtime.register(capability, "math", &["math.add"], 1);

    let late = u64::MAX - 1_000;
    let forward = runtime.dispatcher.handle_text(
        &runtime.registry,
        &router,
        caller,
        r#"{"jsonrpc":"2.0","method":"math.add","id":9}"#,
        no_response,
        late,
    );
    assert!(forward.is_none());
    assert_eq!(runtime.dispatcher.next_pending_deadline(), None);

    let notification = runtime
        .dispatcher
        .handle_text(&runtime.registry, &router, caller, r#"{"jsonrpc":"2.0","method":"math.add"}"#, no_response, late)
        .expect("decided");
    assert!(matches!(notification, Action::Forward { forward_id: None, .. }));
    let unknown = runtime
        .dispatcher
        .handle_text(&runtime.registry, &router, caller, r#"{"jsonrpc":"2.0","method":"nope","id":1}"#, no_response, late)
        .expect("decided");
    assert!(matches!(unknown, Action::Respond(_, ref r) if r.error.as_ref().map(|e| e.code) == Some(-32601)));
}
