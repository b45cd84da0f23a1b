use vstd::prelude::*;

use crate::text::{str_eq, string_of};
use serde_json::Value;

verus! {

/// A JSON number as the wire holds it: a non-negative integer, a negative
/// integer, or any other number kept as its decimal text.
#[derive(Debug, PartialEq)]
pub enum JsonNumber {
    PosInt(u64),
    NegInt(i64),
    Float(String),
}

/// A JSON document.
#[derive(Debug, PartialEq)]
pub enum JsonValue {
    Null,
    Bool(bool),
    Number(JsonNumber),
    String(String),
    Array(Vec<JsonValue>),
    Object(Vec<(String, JsonValue)>),
}

pub enum JsonNumberView {
    PosInt(u64),
    NegInt(i64),
    Float(Seq<char>),
}

/// The mathematical value of a JSON document. An object is the sequence of
/// its members; when a key occurs twice the later member counts.
pub enum JsonView {
    Null,
    Bool(bool),
    Number(JsonNumberView),
    Str(Seq<char>),
    Array(Seq<JsonView>),
    Object(Seq<(Seq<char>, JsonView)>),
}

impl JsonNumber {
    pub open spec fn view(&self) -> JsonNumberView {
        match self {
            JsonNumber::PosInt(n) => JsonNumberView::PosInt(*n),
            JsonNumber::NegInt(n) => JsonNumberView::NegInt(*n),
            JsonNumber::Float(t) => JsonNumberView::Float(t@),
        }
    }

    pub fn copy(&self) -> (r: JsonNumber)
        ensures
            r.view() == self.view(),
    {
        match self {
            JsonNumber::PosInt(n) => JsonNumber::PosInt(*n),
            JsonNumber::NegInt(n) => JsonNumber::NegInt(*n),
            JsonNumber::Float(t) => JsonNumber::Float(t.clone()),
        }
    }
}

impl JsonValue {
    pub open spec fn view(&self) -> JsonView
        decreases self,
    {
        match self {
            JsonValue::Null => JsonView::Null,
            JsonValue::Bool(b) => JsonView::Bool(*b),
            JsonValue::Number(n) => JsonView::Number(n.view()),
            JsonValue::String(s) => JsonView::Str(s@),
            JsonValue::Array(items) => JsonView::Array(
                Seq::new(
                    items@.len(),
                    |i: int|
                        if 0 <= i < items@.len() {
                            items@[i].view()
                        } else {
                            JsonView::Null
                        },
                ),
            ),
            JsonValue::Object(entries) => JsonView::Object(
                Seq::new(
                    entries@.len(),
                    |i: int|
                        if 0 <= i < entries@.len() {
                            (entries@[i].0@, entries@[i].1.view())
                        } else {
                            (Seq::empty(), JsonView::Null)
                        },
                ),
            ),
        }
    }

    /// A copy of this document.
    #[verifier::loop_isolation(false)]
    pub fn copy(&self) -> (r: JsonValue)
        ensures
            r.view() == self.view(),
        decreases self,
    {
        match self {
            JsonValue::Null => {
                let r = JsonValue::Null;
                assert(r.view() == self.view());
                r
            },
            JsonValue::Bool(b) => {
                let r = JsonValue::Bool(*b);
                assert(r.view() == self.view());
                r
            },
            JsonValue::Number(n) => {
                let r = JsonValue::Number(n.copy());
                assert(r.view() == self.view());
                r
            },
            JsonValue::String(s) => {
                let r = JsonValue::String(s.clone());
                assert(r.view() == self.view());
                r
            },
            JsonValue::Array(items) => {
                let mut out: Vec<JsonValue> = Vec::new();
                let mut i: usize = 0;
                while i < items.len()
                    invariant
                        i <= items.len(),
                        out@.len() == i,
                        forall|j: int| 0 <= j < i ==> #[trigger] out@[j].view() == items@[j].view(),
                    decreases items.len() - i,
                {
                    proof {
                        assert(decreases_to!(*items => items[i as int]));
                        assert(decreases_to!(*self => items[i as int]));
                    }
                    out.push(items[i].copy());
                    i = i + 1;
                }
                let r = JsonValue::Array(out);
                assert(r.view()->Array_0.len() == self.view()->Array_0.len());
                assert forall|j: int| 0 <= j < out@.len() implies r.view()->Array_0[j] == self.view()->Array_0[j] by {
                    assert(out@[j].view() == items@[j].view());
                }
                assert(r.view()->Array_0 =~= self.view()->Array_0);
                r
            },
            JsonValue::Object(entries) => {
                let mut out: Vec<(String, JsonValue)> = Vec::new();
                let mut i: usize = 0;
                while i < entries.len()
                    invariant
                        i <= entries.len(),
                        out@.len() == i,
                        forall|j: int|
                            0 <= j < i ==> #[trigger] out@[j].0@ == entries@[j].0@ && out@[j].1.view()
                                == entries@[j].1.view(),
                    decreases entries.len() - i,
                {
                    proof {
                        assert(decreases_to!(*entries => entries[i as int]));
                        assert(decreases_to!(*self => entries[i as int].1));
                    }
                    let v = entries[i].1.copy();
                    out.push((entries[i].0.clone(), v));
                    i = i + 1;
                }
                let r = JsonValue::Object(out);
                assert(r.view()->Object_0 =~= self.view()->Object_0);
                r
            },
        }
    }
}


/// The members of an object, by their views.
pub open spec fn entries_view(e: Seq<(String, JsonValue)>) -> Seq<(Seq<char>, JsonView)> {
    Seq::new(e.len(), |i: int| (e[i].0@, e[i].1.view()))
}

/// The views of a sequence of documents.
pub open spec fn values_view(s: Seq<JsonValue>) -> Seq<JsonView> {
    Seq::new(s.len(), |i: int| s[i].view())
}

/// The value an object gives `key`: the last member with that key, as a
/// JSON parser keeps it.
pub open spec fn lookup(e: Seq<(Seq<char>, JsonView)>, key: Seq<char>) -> Option<JsonView>
    decreases e.len(),
{
    if e.len() == 0 {
        None
    } else if e.last().0 == key {
        Some(e.last().1)
    } else {
        lookup(e.drop_last(), key)
    }
}

/// The member found under `key` is the last one with that key; with none,
/// nothing is found.
pub proof fn lemma_lookup_at(e: Seq<(Seq<char>, JsonView)>, key: Seq<char>, i: int)
    requires
        -1 <= i < e.len(),
        i >= 0 ==> e[i].0 == key,
        forall|j: int| i < j < e.len() ==> #[trigger] e[j].0 != key,
    ensures
        lookup(e, key) == if i >= 0 {
            Some(e[i].1)
        } else {
            None::<JsonView>
        },
    decreases e.len(),
{
    if e.len() > 0 && i < e.len() - 1 {
        assert(e[e.len() - 1].0 != key);
        let d = e.drop_last();
        assert forall|j: int| i < j < d.len() implies #[trigger] d[j].0 != key by {
            assert(d[j] == e[j]);
        }
        lemma_lookup_at(d, key, i);
        if i >= 0 {
            assert(d[i] == e[i]);
        }
    }
}

/// A member value of `v` under `key`, when `v` is an object.
pub open spec fn member(v: JsonView, key: Seq<char>) -> Option<JsonView> {
    match v {
        JsonView::Object(e) => lookup(e, key),
        _ => None,
    }
}

/// The unsigned integer a value holds, as `serde_json::Value::as_u64` reads it.
pub open spec fn as_u64_spec(v: JsonView) -> Option<u64> {
    match v {
        JsonView::Number(JsonNumberView::PosInt(n)) => Some(n),
        JsonView::Number(JsonNumberView::NegInt(n)) => if n >= 0 {
            Some(n as u64)
        } else {
            None
        },
        _ => None,
    }
}

/// The text a value holds when it is a JSON string.
pub open spec fn as_str_spec(v: JsonView) -> Option<Seq<char>> {
    match v {
        JsonView::Str(s) => Some(s),
        _ => None,
    }
}

impl JsonValue {
    pub proof fn lemma_object_view(&self)
        requires
            self is Object,
        ensures
            self.view() == JsonView::Object(entries_view(self->Object_0@)),
    {
        assert(self.view()->Object_0 =~= entries_view(self->Object_0@));
    }

    /// The JSON string with the given text.
    pub fn from_str(s: &str) -> (r: JsonValue)
        ensures
            r.view() == JsonView::Str(s@),
    {
        JsonValue::String(string_of(s))
    }

    /// The JSON number for an unsigned integer.
    pub fn from_u64(n: u64) -> (r: JsonValue)
        ensures
            r.view() == JsonView::Number(JsonNumberView::PosInt(n)),
    {
        JsonValue::Number(JsonNumber::PosInt(n))
    }

    /// An object with the given members, in the given order.
    pub fn object(entries: Vec<(String, JsonValue)>) -> (r: JsonValue)
        ensures
            r.view() == JsonView::Object(entries_view(entries@)),
    {
        let r = JsonValue::Object(entries);
        proof {
            r.lemma_object_view();
        }
        r
    }

    /// An array with the given items, in the given order.
    pub fn array(items: Vec<JsonValue>) -> (r: JsonValue)
        ensures
            r.view() == JsonView::Array(values_view(items@)),
    {
        let r = JsonValue::Array(items);
        proof {
            assert(r.view()->Array_0 =~= values_view(items@));
        }
        r
    }

    pub fn is_object(&self) -> (b: bool)
        ensures
            b == self.view() is Object,
    {
        match self {
            JsonValue::Object(_) => true,
            _ => false,
        }
    }

    /// The member under `key`, when this is an object that has one.
    pub fn get(&self, key: &str) -> (r: Option<&JsonValue>)
        ensures
            match r {
                Some(x) => member(self.view(), key@) == Some(x.view()),
                None => member(self.view(), key@) is None,
            },
    {
        match self {
            JsonValue::Object(entries) => {
                proof {
                    self.lemma_object_view();
                }
                let ghost ev = entries_view(entries@);
                let mut i: usize = entries.len();
                assert(ev.subrange(0, ev.len() as int) =~= ev);
                while i > 0
                    invariant
                        i <= entries.len(),
                        ev == entries_view(entries@),
                        self.view() == JsonView::Object(ev),
                        lookup(ev, key@) == lookup(ev.subrange(0, i as int), key@),
                    decreases i,
                {
                    let ghost pre = ev.subrange(0, i as int);
                    assert(pre.drop_last() =~= ev.subrange(0, i - 1));
                    assert(pre.last() == ev[i - 1]);
                    if str_eq(entries[i - 1].0.as_str(), key) {
                        assert(ev[i - 1] == (entries@[i - 1].0@, entries@[i - 1].1.view()));
                        assert(lookup(pre, key@) == Some(entries@[i - 1].1.view()));
                        return Some(&entries[i - 1].1);
                    }
                    i = i - 1;
                }
                assert(ev.subrange(0, 0) =~= Seq::<(Seq<char>, JsonView)>::empty());
                None
            },
            _ => None,
        }
    }

    /// Whether this is an object with a member under `key`.
    pub fn contains_key(&self, key: &str) -> (b: bool)
        ensures
            b == member(self.view(), key@) is Some,
    {
        self.get(key).is_some()
    }

    /// The text of a JSON string.
    pub fn as_str(&self) -> (r: Option<&String>)
        ensures
            match r {
                Some(s) => as_str_spec(self.view()) == Some(s@),
                None => as_str_spec(self.view()) is None,
            },
    {
        match self {
            JsonValue::String(s) => Some(s),
            _ => None,
        }
    }

    /// The unsigned integer held by a JSON number.
    pub fn as_u64(&self) -> (r: Option<u64>)
        ensures
            r == as_u64_spec(self.view()),
    {
        match self {
            JsonValue::Number(JsonNumber::PosInt(n)) => Some(*n),
            JsonValue::Number(JsonNumber::NegInt(n)) => {
                if *n >= 0 {
                    Some(*n as u64)
                } else {
                    None
                }
            },
            _ => None,
        }
    }
}


impl Clone for JsonNumber {
    fn clone(&self) -> (r: Self)
        ensures
            r.view() == self.view(),
    {
        self.copy()
    }
}

impl Clone for JsonValue {
    fn clone(&self) -> (r: Self)
        ensures
            r.view() == self.view(),
    {
        self.copy()
    }
}

/// The document JSON text holds, as `serde_json::from_str` reads it: none
/// when the text is not JSON.
pub uninterp spec fn parsed_json(text: Seq<char>) -> Option<JsonView>;

/// A number read from JSON: an unsigned integer when it is one, else a
/// signed integer when it is one, else its text.
pub fn number_of(unsigned: Option<u64>, signed: Option<i64>, text: String) -> (r: JsonNumber)
    ensures
        r.view() == match (unsigned, signed) {
            (Some(u), _) => JsonNumberView::PosInt(u),
            (None, Some(i)) => JsonNumberView::NegInt(i),
            (None, None) => JsonNumberView::Float(text@),
        },
{
    match (unsigned, signed) {
        (Some(u), _) => JsonNumber::PosInt(u),
        (None, Some(i)) => JsonNumber::NegInt(i),
        (None, None) => JsonNumber::Float(text),
    }
}

/// The `serde_json::Value` as a document, member for member and item for
/// item. Nothing is promised of the result here: `parse_json` states what
/// it reads.
#[verifier::external_body]
fn json_value(v: &Value) -> JsonValue {
    match v {
        Value::Null => JsonValue::Null,
        Value::Bool(b) => JsonValue::Bool(*b),
        Value::Number(n) => JsonValue::Number(number_of(n.as_u64(), n.as_i64(), n.to_string())),
        Value::String(s) => JsonValue::String(s.clone()),
        Value::Array(items) => JsonValue::Array(items.iter().map(json_value).collect()),
        Value::Object(map) => JsonValue::Object(map.iter().map(|(k, v)| (k.clone(), json_value(v))).collect()),
    }
}

/// `serde_json::from_str` on JSON text: the document it reads, which
/// depends on the text alone, or none when the text is not JSON.
#[verifier::external_body]
pub(crate) fn parse_json(text: &str) -> (r: Option<JsonValue>)
    ensures
        match r {
            Some(v) => parsed_json(text@) == Some(v.view()),
            None => parsed_json(text@) is None,
        },
{
    serde_json::from_str::<Value>(text).ok().map(|v| json_value(&v))
}

} // verus!
