use vstd::prelude::*;

use crate::json::{lemma_lookup_at, member, values_view, JsonValue, JsonView};
use crate::runtime::services::registry::{
    CapabilityView, MethodView, RegisteredCapability, RegisteredMethod, cap_views, method_views,
};
use crate::text::string_of;

verus! {

/// A member `key: value` when there is a value, nothing otherwise (a field
/// that is left out when it is empty).
pub open spec fn opt_member(key: Seq<char>, value: Option<JsonView>) -> Seq<(Seq<char>, JsonView)> {
    match value {
        Some(v) => seq![(key, v)],
        None => Seq::empty(),
    }
}

/// A text as a JSON string, when there is one.
pub open spec fn opt_str(o: Option<Seq<char>>) -> Option<JsonView> {
    match o {
        Some(s) => Some(JsonView::Str(s)),
        None => None,
    }
}

/// How a registered method is shown to clients: its name, then its contract
/// SHA and summary where it has them.
pub open spec fn method_json(m: MethodView) -> JsonView {
    JsonView::Object(
        seq![("name"@, JsonView::Str(m.name))] + opt_member("contract_sha"@, opt_str(m.contract_sha))
            + opt_member("summary"@, opt_str(m.summary)),
    )
}

pub open spec fn methods_json(ms: Seq<MethodView>) -> Seq<JsonView> {
    Seq::new(ms.len(), |i: int| method_json(ms[i]))
}

/// How a registered capability is shown to clients: its name, its methods
/// and its version where it has one. The owning session is not shown.
pub open spec fn capability_json(c: CapabilityView) -> JsonView {
    JsonView::Object(
        seq![("capability"@, JsonView::Str(c.capability)), ("methods"@, JsonView::Array(methods_json(c.methods)))]
            + opt_member("version"@, opt_str(c.version)),
    )
}

pub open spec fn capabilities_json(cs: Seq<CapabilityView>) -> Seq<JsonView> {
    Seq::new(cs.len(), |i: int| capability_json(cs[i]))
}

/// How a capability is shown to clients: `capability` is its name;
/// `methods` holds one entry per method, in order, each naming the method;
/// and `version` is its version, present exactly when it has one.
pub proof fn lemma_capability_json_shows(c: CapabilityView)
    ensures
        member(capability_json(c), "capability"@) == Some(JsonView::Str(c.capability)),
        member(capability_json(c), "version"@) == match c.version {
            Some(v) => Some(JsonView::Str(v)),
            None => None::<JsonView>,
        },
        member(capability_json(c), "methods"@) matches Some(JsonView::Array(ms)) && ms.len() == c.methods.len() && (
        forall|i: int| 0 <= i < ms.len() ==> #[trigger] member(ms[i], "name"@) == Some(JsonView::Str(c.methods[i].name))),
{
    reveal_strlit("capability");
    reveal_strlit("methods");
    reveal_strlit("version");
    reveal_strlit("name");
    reveal_strlit("contract_sha");
    reveal_strlit("summary");
    let e = capability_json(c)->Object_0;
    let ms = methods_json(c.methods);
    assert("version"@[0] != "methods"@[0]);
    assert(e[0] == ("capability"@, JsonView::Str(c.capability)));
    assert(e[1] == ("methods"@, JsonView::Array(ms)));
    lemma_lookup_at(e, "capability"@, 0);
    lemma_lookup_at(e, "methods"@, 1);
    match c.version {
        Some(v) => {
            assert(e[2] == ("version"@, JsonView::Str(v)));
            lemma_lookup_at(e, "version"@, 2);
        },
        None => {
            assert(e.len() == 2);
            lemma_lookup_at(e, "version"@, -1);
        },
    }
    assert forall|i: int| 0 <= i < ms.len() implies #[trigger] member(ms[i], "name"@) == Some(
        JsonView::Str(c.methods[i].name),
    ) by {
        let m = c.methods[i];
        let me = method_json(m)->Object_0;
        assert(me[0] == ("name"@, JsonView::Str(m.name)));
        assert forall|j: int| 0 < j < me.len() implies #[trigger] me[j].0 != "name"@ by {
            if m.contract_sha is Some && j == 1 {
                assert(me[j].0 == "contract_sha"@);
                assert("contract_sha"@.len() != "name"@.len());
            } else {
                assert(me[j].0 == "summary"@);
                assert("summary"@.len() != "name"@.len());
            }
        }
        lemma_lookup_at(me, "name"@, 0);
    }
}

/// What `runtime.methods` and the lifecycle notifications show of a list of
/// capabilities: one entry per capability, in order, each shown as above.
pub proof fn lemma_capabilities_json_shows(cs: Seq<CapabilityView>)
    ensures
        capabilities_json(cs).len() == cs.len(),
        forall|i: int| 0 <= i < cs.len() ==> #[trigger] capabilities_json(cs)[i] == capability_json(cs[i]),
        forall|i: int| 0 <= i < cs.len() ==> (cs[i].version matches Some(v) ==> #[trigger] member(
            capabilities_json(cs)[i],
            "version"@,
        ) == Some(JsonView::Str(v))),
{
    assert forall|i: int| 0 <= i < cs.len() implies (cs[i].version matches Some(v) ==> #[trigger] member(
        capabilities_json(cs)[i],
        "version"@,
    ) == Some(JsonView::Str(v))) by {
        lemma_capability_json_shows(cs[i]);
    }
}

/// Pushes `key: text` onto `entries` when there is a text.
fn push_opt_str(entries: &mut Vec<(String, JsonValue)>, key: &str, text: Option<&str>)
    ensures
        final(entries)@.len() == old(entries)@.len() + match text { Some(_) => 1int, None => 0int },
        crate::json::entries_view(final(entries)@) == crate::json::entries_view(old(entries)@) + opt_member(
            key@,
            match text {
                Some(t) => Some(JsonView::Str(t@)),
                None => None,
            },
        ),
{
    let ghost before = entries@;
    match text {
        Some(t) => {
            entries.push((string_of(key), JsonValue::from_str(t)));
            assert(crate::json::entries_view(entries@) =~= crate::json::entries_view(before) + seq![(key@, JsonView::Str(t@))]);
        },
        None => {
            assert(crate::json::entries_view(entries@) =~= crate::json::entries_view(before) + Seq::<(Seq<char>, JsonView)>::empty());
        },
    }
}

/// The JSON form of a registered method.
pub fn method_to_json(m: &RegisteredMethod) -> (r: JsonValue)
    ensures
        r.view() == method_json(m@),
{
    let mut entries: Vec<(String, JsonValue)> = Vec::new();
    entries.push((string_of("name"), JsonValue::from_str(m.name.as_str())));
    assert(crate::json::entries_view(entries@) =~= seq![("name"@, JsonView::Str(m.name@))]);
    let sha: Option<&str> = match &m.contract_sha {
        Some(s) => Some(s.as_str()),
        None => None,
    };
    push_opt_str(&mut entries, "contract_sha", sha);
    let summary: Option<&str> = match &m.summary {
        Some(s) => Some(s.as_str()),
        None => None,
    };
    push_opt_str(&mut entries, "summary", summary);
    JsonValue::object(entries)
}

/// The JSON form of a registered capability.
pub fn capability_to_json(c: &RegisteredCapability) -> (r: JsonValue)
    ensures
        r.view() == capability_json(c@),
{
    let mut items: Vec<JsonValue> = Vec::new();
    let mut i: usize = 0;
    while i < c.methods.len()
        invariant
            i <= c.methods.len(),
            items@.len() == i,
            forall|j: int| 0 <= j < i ==> #[trigger] items@[j].view() == method_json(c.methods@[j]@),
        decreases c.methods.len() - i,
    {
        items.push(method_to_json(&c.methods[i]));
        i = i + 1;
    }
    assert(values_view(items@) =~= methods_json(method_views(c.methods@)));
    let methods = JsonValue::array(items);
    let mut entries: Vec<(String, JsonValue)> = Vec::new();
    entries.push((string_of("capability"), JsonValue::from_str(c.capability.as_str())));
    entries.push((string_of("methods"), methods));
    assert(crate::json::entries_view(entries@) =~= seq![
        ("capability"@, JsonView::Str(c.capability@)),
        ("methods"@, JsonView::Array(methods_json(c@.methods))),
    ]);
    let version: Option<&str> = match &c.version {
        Some(s) => Some(s.as_str()),
        None => None,
    };
    push_opt_str(&mut entries, "version", version);
    JsonValue::object(entries)
}

/// The JSON form of a list of capabilities, as an array in the same order.
pub fn capabilities_to_json(cs: &Vec<RegisteredCapability>) -> (r: JsonValue)
    ensures
        r.view() == JsonView::Array(capabilities_json(cap_views(cs@))),
{
    let mut items: Vec<JsonValue> = Vec::new();
    let mut i: usize = 0;
    while i < cs.len()
        invariant
            i <= cs.len(),
            items@.len() == i,
            forall|j: int| 0 <= j < i ==> #[trigger] items@[j].view() == capability_json(cs@[j]@),
        decreases cs.len() - i,
    {
        items.push(capability_to_json(&cs[i]));
        i = i + 1;
    }
    assert(values_view(items@) =~= capabilities_json(cap_views(cs@)));
    JsonValue::array(items)
}

} // verus!
