use vstd::prelude::*;

use crate::contract::models::Contract;
use crate::contract::sha::ContractSha;
use crate::contract::store::{store_error_message, ContractStore, ContractStoreError};
use crate::error::{JSON_RPC_CONTRACT_MISMATCH, JSON_RPC_UNKNOWN_CONTRACT};
use crate::json::{entries_view, lemma_lookup_at, member, values_view, JsonNumberView, JsonValue, JsonView};
use crate::runtime::lifecycle::{EventView, LifecycleEvent};
use crate::runtime::services::encoding::{
    capabilities_json, capabilities_to_json, capability_json, lemma_capabilities_json_shows,
    method_to_json, methods_json,
};
use crate::runtime::services::registry::{
    cap_named, cap_views, caps_not_of_session, caps_of_session, caps_without, lemma_caps_without,
    lemma_owner_cap, lemma_removed_counts, method_views, opt_text, owner_in, register_outcome,
    registry_error_message, registry_wf, CapabilityRegistration, CapabilityView,
    RegistryErrorView, RuntimeCapabilityRegistry,
};
use crate::runtime::transport::dispatch::{events_view, unregistered_events};
use crate::runtime::transport::router::{
    error_view, registry_error_code, registry_error_to_json_rpc, ErrorView, JsonRpcError,
};
use crate::runtime::transport::session::SessionId;
use crate::text::{push_str, string_of};
use crate::VERSION;

verus! {

/// `runtime.ping` answers `"pong"`.
pub fn ping_result() -> (r: JsonValue)
    ensures
        r.view() == JsonView::Str("pong"@),
{
    JsonValue::from_str("pong")
}

/// What `runtime.version` answers.
pub open spec fn version_json() -> JsonView {
    JsonView::Object(seq![("name"@, JsonView::Str("skillsupport"@)), ("version"@, JsonView::Str(VERSION@))])
}

pub fn version_result() -> (r: JsonValue)
    ensures
        r.view() == version_json(),
{
    let mut entries: Vec<(String, JsonValue)> = Vec::new();
    entries.push((string_of("name"), JsonValue::from_str("skillsupport")));
    entries.push((string_of("version"), JsonValue::from_str(VERSION)));
    assert(entries_view(entries@) =~= version_json()->Object_0);
    JsonValue::object(entries)
}

/// What `runtime.health` answers: how long the runtime has run, how many
/// sessions are connected and how many capabilities are registered.
pub open spec fn health_json(uptime_secs: u64, sessions: u64, capabilities: u64) -> JsonView {
    JsonView::Object(
        seq![
            ("status"@, JsonView::Str("ok"@)),
            ("uptime_secs"@, JsonView::Number(JsonNumberView::PosInt(uptime_secs))),
            ("sessions"@, JsonView::Number(JsonNumberView::PosInt(sessions))),
            ("capabilities"@, JsonView::Number(JsonNumberView::PosInt(capabilities))),
        ],
    )
}

pub fn health_result(uptime_secs: u64, sessions: usize, capabilities: usize) -> (r: JsonValue)
    ensures
        r.view() == health_json(uptime_secs, sessions as u64, capabilities as u64),
{
    let mut entries: Vec<(String, JsonValue)> = Vec::new();
    entries.push((string_of("status"), JsonValue::from_str("ok")));
    entries.push((string_of("uptime_secs"), JsonValue::from_u64(uptime_secs)));
    entries.push((string_of("sessions"), JsonValue::from_u64(sessions as u64)));
    entries.push((string_of("capabilities"), JsonValue::from_u64(capabilities as u64)));
    assert(entries_view(entries@) =~= health_json(uptime_secs, sessions as u64, capabilities as u64)->Object_0);
    JsonValue::object(entries)
}

/// What `runtime.register` answers for a registered capability: its name,
/// its methods, and its version (`null` when it has none).
pub open spec fn register_json(c: CapabilityView) -> JsonView {
    JsonView::Object(
        seq![
            ("capability"@, JsonView::Str(c.capability)),
            ("methods"@, JsonView::Array(methods_json(c.methods))),
            (
                "version"@,
                match c.version {
                    Some(v) => JsonView::Str(v),
                    None => JsonView::Null,
                },
            ),
        ],
    )
}

/// The answer to a registration and the event it announces, given what the
/// registry did with it.
pub open spec fn register_reply(session: u64, outcome: Result<CapabilityView, RegistryErrorView>) -> Result<
    (JsonView, EventView),
    ErrorView,
> {
    match outcome {
        Ok(c) => Ok((register_json(c), EventView::CapabilityRegistered(session, c))),
        Err(e) => Err(error_view(registry_error_code(e), registry_error_message(e))),
    }
}

pub open spec fn reply_with_event(r: Result<(JsonValue, LifecycleEvent), JsonRpcError>) -> Result<
    (JsonView, EventView),
    ErrorView,
> {
    match r {
        Ok((v, e)) => Ok((v.view(), e@)),
        Err(e) => Err(e@),
    }
}

/// `runtime.register`: `params` is what decoding the request's params as a
/// registration gave (a decoding failure is an invalid-params error). The
/// registration is made for `caller`; on success the answer describes the
/// registered capability and a `CapabilityRegistered` event is to be
/// announced.
pub fn register_method<S: ContractStore>(
    registry: &mut RuntimeCapabilityRegistry,
    caller: SessionId,
    params: Result<CapabilityRegistration, String>,
    contract_store: &S,
) -> (r: Result<(JsonValue, LifecycleEvent), JsonRpcError>)
    requires
        old(registry).wf(),
    ensures
        final(registry).wf(),
        match params {
            Err(m) => r matches Err(e) && e@ == error_view(-32602, m@) && final(registry)@ == old(registry)@,
            Ok(registration) => exists|outcome: Result<CapabilityView, RegistryErrorView>|
                #[trigger] register_outcome(*contract_store, old(registry)@, final(registry)@, caller.0, registration, outcome)
                    && reply_with_event(r) == register_reply(caller.0, outcome),
        },
{
    let registration = match params {
        Err(message) => return Err(JsonRpcError::invalid_params(message)),
        Ok(registration) => registration,
    };
    let ghost reg = registration;
    match registry.register(caller, registration, contract_store) {
        Err(error) => {
            let ghost outcome = Err(error@);
            let e = registry_error_to_json_rpc(error);
            assert(register_outcome(*contract_store, old(registry)@, registry@, caller.0, reg, outcome));
            Err(e)
        },
        Ok(registered) => {
            let ghost outcome: Result<CapabilityView, RegistryErrorView> = Ok(registered@);
            let mut items: Vec<JsonValue> = Vec::new();
            let mut i: usize = 0;
            while i < registered.methods.len()
                invariant
                    i <= registered.methods.len(),
                    items@.len() == i,
                    forall|j: int| 0 <= j < i ==> #[trigger] items@[j].view() == crate::runtime::services::encoding::method_json(
                        registered.methods@[j]@,
                    ),
                decreases registered.methods.len() - i,
            {
                items.push(method_to_json(&registered.methods[i]));
                i = i + 1;
            }
            assert(values_view(items@) =~= methods_json(method_views(registered.methods@)));
            let version = match &registered.version {
                Some(v) => JsonValue::from_str(v.as_str()),
                None => JsonValue::Null,
            };
            let mut entries: Vec<(String, JsonValue)> = Vec::new();
            entries.push((string_of("capability"), JsonValue::from_str(registered.capability.as_str())));
            entries.push((string_of("methods"), JsonValue::array(items)));
            entries.push((string_of("version"), version));
            assert(entries_view(entries@) =~= register_json(registered@)->Object_0);
            let result = JsonValue::object(entries);
            let event = LifecycleEvent::CapabilityRegistered { session_id: caller, capability: registered };
            assert(register_outcome(*contract_store, old(registry)@, registry@, caller.0, reg, outcome));
            Ok((result, event))
        },
    }
}

/// What `runtime.unregister` answers: the capabilities it removed.
pub open spec fn unregister_json(removed: Seq<CapabilityView>) -> JsonView {
    JsonView::Object(seq![("unregistered"@, JsonView::Array(capabilities_json(removed)))])
}

/// The capabilities `runtime.unregister` removes: the named one when the
/// caller owns it, or, without a name, all of the caller's.
pub open spec fn unregistered_by(caps: Seq<CapabilityView>, caller: u64, capability: Option<Seq<char>>) -> Seq<
    CapabilityView,
> {
    match capability {
        Some(name) => match cap_named(caps, name) {
            Some(c) => if c.session_id == caller {
                seq![c]
            } else {
                Seq::empty()
            },
            None => Seq::empty(),
        },
        None => caps_of_session(caps, caller),
    }
}

/// The registry after `runtime.unregister`.
pub open spec fn after_unregister(caps: Seq<CapabilityView>, caller: u64, capability: Option<Seq<char>>) -> Seq<
    CapabilityView,
> {
    match capability {
        Some(name) => if unregistered_by(caps, caller, capability).len() == 0 {
            caps
        } else {
            caps_without(caps, name)
        },
        None => caps_not_of_session(caps, caller),
    }
}

pub open spec fn reply_with_events(r: Result<(JsonValue, Vec<LifecycleEvent>), JsonRpcError>) -> Result<
    (JsonView, Seq<EventView>),
    ErrorView,
> {
    match r {
        Ok((v, e)) => Ok((v.view(), events_view(e@))),
        Err(e) => Err(e@),
    }
}

/// `runtime.unregister`: `params` is what decoding the request's params
/// gave: the capability to remove, or none to remove all of the caller's.
/// Each removed capability is to be announced by a `CapabilityUnregistered`
/// event.
pub fn unregister_method(
    registry: &mut RuntimeCapabilityRegistry,
    caller: SessionId,
    params: Result<Option<String>, String>,
) -> (r: Result<(JsonValue, Vec<LifecycleEvent>), JsonRpcError>)
    requires
        old(registry).wf(),
    ensures
        final(registry).wf(),
        match params {
            Err(m) => r matches Err(e) && e@ == error_view(-32602, m@) && final(registry)@ == old(registry)@,
            Ok(capability) => {
                let name = match capability {
                    Some(c) => Some(c@),
                    None => None,
                };
                let removed = unregistered_by(old(registry)@, caller.0, name);
                &&& final(registry)@ == after_unregister(old(registry)@, caller.0, name)
                &&& reply_with_events(r) == Ok::<(JsonView, Seq<EventView>), ErrorView>(
                    (unregister_json(removed), unregistered_events(caller.0, removed)),
                )
            },
        },
{
    let capability = match params {
        Err(message) => return Err(JsonRpcError::invalid_params(message)),
        Ok(capability) => capability,
    };
    let removed = match capability {
        Some(name) => match registry.unregister_capability(caller, name.as_str()) {
            Some(c) => {
                let mut v = Vec::new();
                v.push(c);
                v
            },
            None => Vec::new(),
        },
        None => registry.unregister_session(caller),
    };
    let mut events: Vec<LifecycleEvent> = Vec::new();
    let mut i: usize = 0;
    while i < removed.len()
        invariant
            i <= removed.len(),
            events@.len() == i,
            forall|j: int| 0 <= j < i ==> #[trigger] events@[j]@ == EventView::CapabilityUnregistered(
                caller.0,
                removed@[j]@,
            ),
        decreases removed.len() - i,
    {
        events.push(LifecycleEvent::CapabilityUnregistered { session_id: caller, capability: removed[i].copy() });
        i = i + 1;
    }
    assert(events_view(events@) =~= unregistered_events(caller.0, cap_views(removed@)));
    let mut entries: Vec<(String, JsonValue)> = Vec::new();
    entries.push((string_of("unregistered"), capabilities_to_json(&removed)));
    assert(entries_view(entries@) =~= unregister_json(cap_views(removed@))->Object_0);
    let result = JsonValue::object(entries);
    proof {
        assert(cap_views(removed@) =~= unregistered_by(old(registry)@, caller.0, match capability {
            Some(c) => Some(c@),
            None => None,
        }));
    }
    Ok((result, events))
}

/// What `runtime.methods` answers: every registered capability.
pub open spec fn methods_json_of(caps: Seq<CapabilityView>) -> JsonView {
    JsonView::Object(seq![("capabilities"@, JsonView::Array(capabilities_json(caps)))])
}

pub fn methods_result(registry: &RuntimeCapabilityRegistry) -> (r: JsonValue)
    ensures
        r.view() == methods_json_of(registry@),
{
    let caps = registry.list();
    let mut entries: Vec<(String, JsonValue)> = Vec::new();
    entries.push((string_of("capabilities"), capabilities_to_json(&caps)));
    assert(entries_view(entries@) =~= methods_json_of(registry@)->Object_0);
    JsonValue::object(entries)
}

/// The SHAs of a list, as JSON strings.
pub open spec fn shas_json(shas: Seq<ContractSha>) -> Seq<JsonView> {
    Seq::new(shas.len(), |i: int| JsonView::Str(shas[i]@))
}

/// What `runtime.contracts` answers given what listing the store gave: the
/// count and the SHAs, or a contract-mismatch error with the store's message.
pub open spec fn contracts_reply(listed: Result<Vec<ContractSha>, ContractStoreError>) -> Result<JsonView, ErrorView> {
    match listed {
        Ok(shas) => Ok(
            JsonView::Object(
                seq![
                    ("count"@, JsonView::Number(JsonNumberView::PosInt(shas@.len() as u64))),
                    ("contracts"@, JsonView::Array(shas_json(shas@))),
                ],
            ),
        ),
        Err(e) => Err(error_view(-32008, store_error_message(e))),
    }
}

pub open spec fn json_reply(r: Result<JsonValue, JsonRpcError>) -> Result<JsonView, ErrorView> {
    match r {
        Ok(v) => Ok(v.view()),
        Err(e) => Err(e@),
    }
}

pub fn contracts_answer(listed: Result<Vec<ContractSha>, ContractStoreError>) -> (r: Result<JsonValue, JsonRpcError>)
    ensures
        json_reply(r) == contracts_reply(listed),
{
    match listed {
        Err(error) => Err(JsonRpcError::server_error(JSON_RPC_CONTRACT_MISMATCH, error.message())),
        Ok(shas) => {
            let mut items: Vec<JsonValue> = Vec::new();
            let mut i: usize = 0;
            while i < shas.len()
                invariant
                    i <= shas.len(),
                    items@.len() == i,
                    forall|j: int| 0 <= j < i ==> #[trigger] items@[j].view() == JsonView::Str(shas@[j]@),
                decreases shas.len() - i,
            {
                items.push(JsonValue::from_str(shas[i].as_str()));
                i = i + 1;
            }
            assert(values_view(items@) =~= shas_json(shas@));
            let mut entries: Vec<(String, JsonValue)> = Vec::new();
            entries.push((string_of("count"), JsonValue::from_u64(shas.len() as u64)));
            entries.push((string_of("contracts"), JsonValue::array(items)));
            proof {
                let expected = contracts_reply(Ok::<Vec<ContractSha>, ContractStoreError>(shas));
                assert(entries_view(entries@) =~= expected->Ok_0->Object_0);
            }
            Ok(JsonValue::object(entries))
        },
    }
}

/// `runtime.contracts`: lists the store and answers with what it holds.
pub fn contracts_method<S: ContractStore>(contract_store: &S) -> (r: Result<JsonValue, JsonRpcError>)
    ensures
        exists|listed: Result<Vec<ContractSha>, ContractStoreError>|
            #[trigger] contract_store.answers_list(listed) && json_reply(r) == contracts_reply(listed),
{
    let listed = contract_store.list();
    let ghost l = listed;
    let r = contracts_answer(listed);
    assert(contract_store.answers_list(l) && json_reply(r) == contracts_reply(l));
    r
}

/// What `runtime.contract` answers given what reading `sha` from the store
/// gave: the stored contract, an unknown-contract error when there is none,
/// or a contract-mismatch error with the store's message.
pub open spec fn contract_reply(sha: Seq<char>, found: Result<Option<Contract>, ContractStoreError>) -> Result<
    Contract,
    ErrorView,
> {
    match found {
        Ok(Some(c)) => Ok(c),
        Ok(None) => Err(error_view(-32009, "unknown contract sha: "@ + sha)),
        Err(e) => Err(error_view(-32008, store_error_message(e))),
    }
}

pub open spec fn contract_result(r: Result<Contract, JsonRpcError>) -> Result<Contract, ErrorView> {
    match r {
        Ok(c) => Ok(c),
        Err(e) => Err(e@),
    }
}

pub fn contract_answer(sha: &ContractSha, found: Result<Option<Contract>, ContractStoreError>) -> (r: Result<
    Contract,
    JsonRpcError,
>)
    ensures
        contract_result(r) == contract_reply(sha@, found),
{
    match found {
        Err(error) => Err(JsonRpcError::server_error(JSON_RPC_CONTRACT_MISMATCH, error.message())),
        Ok(None) => {
            let mut message = string_of("unknown contract sha: ");
            push_str(&mut message, sha.as_str());
            Err(JsonRpcError::server_error(JSON_RPC_UNKNOWN_CONTRACT, message))
        },
        Ok(Some(contract)) => Ok(contract),
    }
}

/// `runtime.contract`: `params` is what decoding the request's params as a
/// SHA gave (a decoding failure is an invalid-params error); the contract is
/// read from the store.
pub fn contract_method<S: ContractStore>(params: Result<ContractSha, String>, contract_store: &S) -> (r: Result<
    Contract,
    JsonRpcError,
>)
    ensures
        match params {
            Err(m) => r matches Err(e) && e@ == error_view(-32602, m@),
            Ok(sha) => exists|found: Result<Option<Contract>, ContractStoreError>|
                #[trigger] contract_store.answers_get(sha@, found) && contract_result(r) == contract_reply(
                    sha@,
                    found,
                ),
        },
{
    let sha = match params {
        Err(message) => return Err(JsonRpcError::invalid_params(message)),
        Ok(sha) => sha,
    };
    let found = contract_store.get(&sha);
    let ghost f = found;
    let r = contract_answer(&sha, found);
    assert(contract_store.answers_get(sha@, f) && contract_result(r) == contract_reply(sha@, f));
    r
}

/// `runtime.health` reports "ok", the uptime, the number of connected
/// sessions and the number of registered capabilities, each under its own
/// member and each equal to what it was given.
pub proof fn lemma_health_reports(uptime_secs: u64, sessions: u64, capabilities: u64)
    ensures
        member(health_json(uptime_secs, sessions, capabilities), "status"@) == Some(JsonView::Str("ok"@)),
        member(health_json(uptime_secs, sessions, capabilities), "uptime_secs"@) == Some(
            JsonView::Number(JsonNumberView::PosInt(uptime_secs)),
        ),
        member(health_json(uptime_secs, sessions, capabilities), "sessions"@) == Some(
            JsonView::Number(JsonNumberView::PosInt(sessions)),
        ),
        member(health_json(uptime_secs, sessions, capabilities), "capabilities"@) == Some(
            JsonView::Number(JsonNumberView::PosInt(capabilities)),
        ),
{
    reveal_strlit("status");
    reveal_strlit("uptime_secs");
    reveal_strlit("sessions");
    reveal_strlit("capabilities");
    let e = health_json(uptime_secs, sessions, capabilities)->Object_0;
    assert("sessions"@[0] != "status"@[1]);
    assert("capabilities"@.len() != "sessions"@.len() && "capabilities"@.len() != "status"@.len()
        && "capabilities"@.len() != "uptime_secs"@.len());
    assert("sessions"@.len() != "uptime_secs"@.len() && "status"@.len() != "uptime_secs"@.len());
    assert("sessions"@[1] != "status"@[1]);
    lemma_lookup_at(e, "status"@, 0);
    lemma_lookup_at(e, "uptime_secs"@, 1);
    lemma_lookup_at(e, "sessions"@, 2);
    lemma_lookup_at(e, "capabilities"@, 3);
}

/// A successful `runtime.register` answers with the capability's name, one
/// entry per method of the registration, and the version the registration
/// carried (`null` when it carried none); the event it announces is the
/// registration of that capability by the caller.
pub proof fn lemma_register_reply_echoes<S: ContractStore>(
    store: S,
    old_caps: Seq<CapabilityView>,
    new_caps: Seq<CapabilityView>,
    session: u64,
    registration: CapabilityRegistration,
    c: CapabilityView,
)
    requires
        register_outcome(store, old_caps, new_caps, session, registration, Ok(c)),
    ensures
        register_reply(session, Ok(c)) matches Ok((reply, event)) && {
            &&& member(reply, "capability"@) == Some(JsonView::Str(registration.capability@))
            &&& member(reply, "version"@) == Some(
                match registration.version {
                    Some(v) => JsonView::Str(v@),
                    None => JsonView::Null,
                },
            )
            &&& member(reply, "methods"@) matches Some(JsonView::Array(ms)) && ms.len()
                == registration.methods@.len()
            &&& event == EventView::CapabilityRegistered(session, c)
            &&& new_caps == old_caps.push(c)
        },
{
    reveal_strlit("capability");
    reveal_strlit("methods");
    reveal_strlit("version");
    let e = register_json(c)->Object_0;
    assert("version"@[0] != "methods"@[0]);
    assert("version"@.len() != "capability"@.len() && "methods"@.len() != "capability"@.len());
    assert(c.version == opt_text(registration.version));
    lemma_lookup_at(e, "capability"@, 0);
    lemma_lookup_at(e, "methods"@, 1);
    lemma_lookup_at(e, "version"@, 2);
}

/// `runtime.unregister` naming a capability removes at most that one, and
/// only when the caller owns it: every other capability stays as it was,
/// every method keeps its owner unless it belonged to the removed one, and
/// the registry shrinks by exactly what the reply lists.
pub proof fn lemma_unregister_named(caps: Seq<CapabilityView>, caller: u64, name: Seq<char>)
    requires
        registry_wf(caps),
    ensures
        ({
            let after = after_unregister(caps, caller, Some(name));
            let removed = unregistered_by(caps, caller, Some(name));
            let owned = cap_named(caps, name) matches Some(c) && c.session_id == caller;
            &&& removed.len() == if owned { 1int } else { 0int }
            &&& owned ==> removed[0] == cap_named(caps, name)->0
            &&& after.len() + removed.len() == caps.len()
            &&& forall|n: Seq<char>| #[trigger] cap_named(after, n) == if n == name && owned {
                None
            } else {
                cap_named(caps, n)
            }
            &&& forall|q: Seq<char>| #[trigger] owner_in(after, q) == match owner_in(caps, q) {
                Some(o) => if o.capability == name && o.session_id == caller {
                    None
                } else {
                    Some(o)
                },
                None => None,
            }
        }),
{
    let owned = cap_named(caps, name) matches Some(c) && c.session_id == caller;
    lemma_caps_without(caps, name);
    lemma_removed_counts(caps, caller, name);
    if owned {
        assert forall|q: Seq<char>| #[trigger] owner_in(after_unregister(caps, caller, Some(name)), q) == match owner_in(caps, q) {
            Some(o) => if o.capability == name && o.session_id == caller {
                None
            } else {
                Some(o)
            },
            None => None,
        } by {
            if owner_in(caps, q) is Some {
                lemma_owner_cap(caps, q);
            }
        }
    } else {
        assert forall|q: Seq<char>| #[trigger] owner_in(after_unregister(caps, caller, Some(name)), q) == match owner_in(caps, q) {
            Some(o) => if o.capability == name && o.session_id == caller {
                None
            } else {
                Some(o)
            },
            None => None,
        } by {
            if owner_in(caps, q) is Some {
                lemma_owner_cap(caps, q);
            }
        }
    }
}

/// `runtime.methods` lists every registered capability in order, each shown
/// with its version where it has one.
pub proof fn lemma_methods_reply_lists(caps: Seq<CapabilityView>)
    ensures
        member(methods_json_of(caps), "capabilities"@) matches Some(JsonView::Array(items)) && {
            &&& items.len() == caps.len()
            &&& forall|i: int| 0 <= i < caps.len() ==> #[trigger] items[i] == capability_json(caps[i])
            &&& forall|i: int|
                0 <= i < caps.len() ==> (caps[i].version matches Some(v) ==> #[trigger] member(items[i], "version"@)
                    == Some(JsonView::Str(v)))
        },
{
    lemma_lookup_at(methods_json_of(caps)->Object_0, "capabilities"@, 0);
    lemma_capabilities_json_shows(caps);
}

/// `runtime.unregister` answers with every capability it removed, in order,
/// each shown with its version where it has one.
pub proof fn lemma_unregister_reply_lists(removed: Seq<CapabilityView>)
    ensures
        member(unregister_json(removed), "unregistered"@) matches Some(JsonView::Array(items)) && {
            &&& items.len() == removed.len()
            &&& forall|i: int|
                0 <= i < removed.len() ==> (removed[i].version matches Some(v) ==> #[trigger] member(
                    items[i],
                    "version"@,
                ) == Some(JsonView::Str(v)))
        },
{
    lemma_lookup_at(unregister_json(removed)->Object_0, "unregistered"@, 0);
    lemma_capabilities_json_shows(removed);
}

} // verus!
