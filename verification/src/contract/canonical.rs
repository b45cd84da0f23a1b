use vstd::prelude::*;

use crate::json::{entries_view, lookup, JsonNumber, JsonValue, JsonView};
use serde_json::Value;
use crate::text::{
    lemma_seq_lt_irreflexive, lemma_seq_lt_total, lemma_seq_lt_transitive, seq_lt, str_lt,
};

verus! {

/// Members in strictly increasing key order (so no key occurs twice).
pub open spec fn keys_sorted(s: Seq<(Seq<char>, JsonView)>) -> bool {
    forall|i: int, j: int| 0 <= i < j < s.len() ==> seq_lt(#[trigger] s[i].0, #[trigger] s[j].0)
}

/// The value of the first member with key `key`.
pub open spec fn find_first(s: Seq<(Seq<char>, JsonView)>, key: Seq<char>) -> Option<JsonView>
    decreases s.len(),
{
    if s.len() == 0 {
        None
    } else if s[0].0 == key {
        Some(s[0].1)
    } else {
        find_first(s.drop_first(), key)
    }
}

/// `s` with the member `(k, v)` put in its key's place: a member with key `k`
/// is replaced, and otherwise the member goes before the first larger key.
pub open spec fn insert_entry(s: Seq<(Seq<char>, JsonView)>, k: Seq<char>, v: JsonView) -> Seq<
    (Seq<char>, JsonView),
>
    decreases s.len(),
{
    if s.len() == 0 {
        seq![(k, v)]
    } else if s[0].0 == k {
        seq![(k, v)] + s.drop_first()
    } else if seq_lt(k, s[0].0) {
        seq![(k, v)] + s
    } else {
        seq![s[0]] + insert_entry(s.drop_first(), k, v)
    }
}

/// The members of `e` in key order, one per key, each holding the last value
/// `e` gives that key: what collecting into a `BTreeMap` gives.
pub open spec fn sort_entries(e: Seq<(Seq<char>, JsonView)>) -> Seq<(Seq<char>, JsonView)>
    decreases e.len(),
{
    if e.len() == 0 {
        Seq::empty()
    } else {
        insert_entry(sort_entries(e.drop_last()), e.last().0, e.last().1)
    }
}

/// The canonical form of a document: every object has its members sorted by
/// key, one per key, and every nested value is in canonical form.
pub open spec fn canonical(v: JsonView) -> JsonView
    decreases v,
{
    match v {
        JsonView::Array(items) => JsonView::Array(
            Seq::new(
                items.len(),
                |i: int|
                    if 0 <= i < items.len() {
                        canonical(items[i])
                    } else {
                        JsonView::Null
                    },
            ),
        ),
        JsonView::Object(e) => JsonView::Object(sort_entries(canonical_members(e))),
        _ => v,
    }
}

/// The members of an object with every value put in canonical form.
pub open spec fn canonical_members(e: Seq<(Seq<char>, JsonView)>) -> Seq<(Seq<char>, JsonView)>
    decreases e,
{
    Seq::new(
        e.len(),
        |i: int|
            if 0 <= i < e.len() {
                (e[i].0, canonical(e[i].1))
            } else {
                (Seq::empty(), JsonView::Null)
            },
    )
}

proof fn lemma_find_absent(s: Seq<(Seq<char>, JsonView)>, key: Seq<char>)
    requires
        forall|i: int| 0 <= i < s.len() ==> s[i].0 != key,
    ensures
        find_first(s, key) is None,
    decreases s.len(),
{
    if s.len() > 0 {
        assert forall|i: int| 0 <= i < s.drop_first().len() implies s.drop_first()[i].0 != key by {
            assert(s.drop_first()[i] == s[i + 1]);
        }
        lemma_find_absent(s.drop_first(), key);
    }
}

/// In a sorted sequence, a key before the first key is absent.
proof fn lemma_find_below(s: Seq<(Seq<char>, JsonView)>, key: Seq<char>)
    requires
        keys_sorted(s),
        s.len() > 0,
        seq_lt(key, s[0].0),
    ensures
        find_first(s, key) is None,
{
    assert forall|i: int| 0 <= i < s.len() implies s[i].0 != key by {
        if i > 0 {
            assert(seq_lt(s[0].0, s[i].0));
            lemma_seq_lt_transitive(key, s[0].0, s[i].0);
            lemma_seq_lt_irreflexive(key);
        } else {
            lemma_seq_lt_irreflexive(key);
        }
    }
    lemma_find_absent(s, key);
}

/// Every key of `s` comes after `b`.
pub open spec fn all_above(s: Seq<(Seq<char>, JsonView)>, b: Seq<char>) -> bool {
    forall|i: int| 0 <= i < s.len() ==> seq_lt(b, #[trigger] s[i].0)
}

proof fn lemma_insert_entry_above(s: Seq<(Seq<char>, JsonView)>, k: Seq<char>, v: JsonView, b: Seq<char>)
    requires
        all_above(s, b),
        seq_lt(b, k),
    ensures
        all_above(insert_entry(s, k, v), b),
    decreases s.len(),
{
    if s.len() > 0 && s[0].0 != k && !seq_lt(k, s[0].0) {
        let t = s.drop_first();
        assert forall|i: int| 0 <= i < t.len() implies seq_lt(b, #[trigger] t[i].0) by {
            assert(t[i] == s[i + 1]);
        }
        lemma_insert_entry_above(t, k, v, b);
        let r = insert_entry(s, k, v);
        assert forall|i: int| 0 <= i < r.len() implies seq_lt(b, #[trigger] r[i].0) by {
            if i > 0 {
                assert(r[i] == insert_entry(t, k, v)[i - 1]);
            }
        }
    } else if s.len() > 0 && s[0].0 == k {
        let r = insert_entry(s, k, v);
        assert forall|i: int| 0 <= i < r.len() implies seq_lt(b, #[trigger] r[i].0) by {
            if i > 0 {
                assert(r[i] == s[i]);
            }
        }
    } else if s.len() > 0 {
        let r = insert_entry(s, k, v);
        assert forall|i: int| 0 <= i < r.len() implies seq_lt(b, #[trigger] r[i].0) by {
            if i > 0 {
                assert(r[i] == s[i - 1]);
            }
        }
    }
}

/// Inserting keeps the keys sorted, and the result gives `k` the value `v`
/// and every other key the value it had.
pub proof fn lemma_insert_entry(s: Seq<(Seq<char>, JsonView)>, k: Seq<char>, v: JsonView)
    requires
        keys_sorted(s),
    ensures
        keys_sorted(insert_entry(s, k, v)),
        forall|q: Seq<char>|
            #[trigger] find_first(insert_entry(s, k, v), q) == if q == k {
                Some(v)
            } else {
                find_first(s, q)
            },
    decreases s.len(),
{
    let r = insert_entry(s, k, v);
    if s.len() == 0 {
        assert(r =~= seq![(k, v)]);
        assert(r.drop_first() =~= Seq::<(Seq<char>, JsonView)>::empty());
        assert forall|q: Seq<char>| #[trigger] find_first(r, q) == if q == k {
            Some(v)
        } else {
            find_first(s, q)
        } by {
            assert(find_first(r.drop_first(), q) is None);
            assert(find_first(s, q) is None);
        }
    } else {
        let t = s.drop_first();
        assert forall|i: int, j: int| 0 <= i < j < t.len() implies seq_lt(#[trigger] t[i].0, #[trigger] t[j].0) by {
            assert(t[i] == s[i + 1] && t[j] == s[j + 1]);
        }
        assert(all_above(t, s[0].0)) by {
            assert forall|i: int| 0 <= i < t.len() implies seq_lt(s[0].0, #[trigger] t[i].0) by {
                assert(t[i] == s[i + 1]);
            }
        }
        if s[0].0 == k {
            assert(r.drop_first() =~= t);
            assert forall|i: int, j: int| 0 <= i < j < r.len() implies seq_lt(#[trigger] r[i].0, #[trigger] r[j].0) by {
                assert(r[j] == s[j]);
                if i > 0 {
                    assert(r[i] == s[i]);
                }
            }
            assert forall|q: Seq<char>| #[trigger] find_first(r, q) == if q == k {
                Some(v)
            } else {
                find_first(s, q)
            } by {
                if q != k {
                    assert(s.drop_first() == t);
                }
            }
        } else if seq_lt(k, s[0].0) {
            assert(r.drop_first() =~= s);
            assert forall|i: int, j: int| 0 <= i < j < r.len() implies seq_lt(#[trigger] r[i].0, #[trigger] r[j].0) by {
                assert(r[j] == s[j - 1]);
                if i > 0 {
                    assert(r[i] == s[i - 1]);
                } else if j > 1 {
                    assert(seq_lt(s[0].0, s[j - 1].0));
                    lemma_seq_lt_transitive(k, s[0].0, s[j - 1].0);
                }
            }
        } else {
            lemma_seq_lt_total(k, s[0].0);
            lemma_insert_entry(t, k, v);
            lemma_insert_entry_above(t, k, v, s[0].0);
            let rt = insert_entry(t, k, v);
            assert(r.drop_first() =~= rt);
            assert forall|i: int, j: int| 0 <= i < j < r.len() implies seq_lt(#[trigger] r[i].0, #[trigger] r[j].0) by {
                assert(r[j] == rt[j - 1]);
                if i > 0 {
                    assert(r[i] == rt[i - 1]);
                }
            }
            assert forall|q: Seq<char>| #[trigger] find_first(r, q) == if q == k {
                Some(v)
            } else {
                find_first(s, q)
            } by {
                if q == s[0].0 {
                } else {
                    assert(find_first(r, q) == find_first(rt, q));
                }
            }
        }
    }
}

/// Sorting keeps one member per key, in key order, with the value the
/// object gives that key.
pub proof fn lemma_sort_entries(e: Seq<(Seq<char>, JsonView)>)
    ensures
        keys_sorted(sort_entries(e)),
        forall|q: Seq<char>| #[trigger] find_first(sort_entries(e), q) == lookup(e, q),
    decreases e.len(),
{
    if e.len() > 0 {
        lemma_sort_entries(e.drop_last());
        lemma_insert_entry(sort_entries(e.drop_last()), e.last().0, e.last().1);
    }
}

/// Two key-sorted sequences that give every key the same value are equal.
pub proof fn lemma_sorted_unique(s1: Seq<(Seq<char>, JsonView)>, s2: Seq<(Seq<char>, JsonView)>)
    requires
        keys_sorted(s1),
        keys_sorted(s2),
        forall|q: Seq<char>| #[trigger] find_first(s1, q) == find_first(s2, q),
    ensures
        s1 == s2,
    decreases s1.len(),
{
    if s1.len() == 0 && s2.len() == 0 {
        assert(s1 =~= s2);
    } else if s1.len() == 0 {
        assert(find_first(s2, s2[0].0) is Some);
        assert(find_first(s1, s2[0].0) is None);
    } else if s2.len() == 0 {
        assert(find_first(s1, s1[0].0) is Some);
        assert(find_first(s2, s1[0].0) is None);
    } else {
        let k1 = s1[0].0;
        let k2 = s2[0].0;
        lemma_seq_lt_total(k1, k2);
        if seq_lt(k1, k2) {
            lemma_find_below(s2, k1);
            assert(find_first(s1, k1) is Some);
        } else if seq_lt(k2, k1) {
            lemma_find_below(s1, k2);
            assert(find_first(s2, k2) is Some);
        } else {
            assert(k1 == k2);
            assert(find_first(s1, k1) == Some(s1[0].1));
            assert(find_first(s2, k1) == Some(s2[0].1));
            let t1 = s1.drop_first();
            let t2 = s2.drop_first();
            assert forall|i: int, j: int| 0 <= i < j < t1.len() implies seq_lt(#[trigger] t1[i].0, #[trigger] t1[j].0) by {
                assert(t1[i] == s1[i + 1] && t1[j] == s1[j + 1]);
            }
            assert forall|i: int, j: int| 0 <= i < j < t2.len() implies seq_lt(#[trigger] t2[i].0, #[trigger] t2[j].0) by {
                assert(t2[i] == s2[i + 1] && t2[j] == s2[j + 1]);
            }
            assert forall|q: Seq<char>| #[trigger] find_first(t1, q) == find_first(t2, q) by {
                if q == k1 {
                    assert forall|i: int| 0 <= i < t1.len() implies t1[i].0 != q by {
                        assert(t1[i] == s1[i + 1]);
                        assert(seq_lt(k1, s1[i + 1].0));
                        lemma_seq_lt_irreflexive(k1);
                    }
                    assert forall|i: int| 0 <= i < t2.len() implies t2[i].0 != q by {
                        assert(t2[i] == s2[i + 1]);
                        assert(seq_lt(k2, s2[i + 1].0));
                        lemma_seq_lt_irreflexive(k2);
                    }
                    lemma_find_absent(t1, q);
                    lemma_find_absent(t2, q);
                } else {
                    assert(find_first(s1, q) == find_first(t1, q));
                    assert(find_first(s2, q) == find_first(t2, q));
                }
            }
            lemma_sorted_unique(t1, t2);
            assert(s1 =~= seq![s1[0]] + t1);
            assert(s2 =~= seq![s2[0]] + t2);
        }
    }
}

/// Every member of `insert_entry(s, k, v)` is `(k, v)` or a member of `s`.
proof fn lemma_insert_entry_members(s: Seq<(Seq<char>, JsonView)>, k: Seq<char>, v: JsonView)
    ensures
        forall|i: int|
            0 <= i < insert_entry(s, k, v).len() ==> #[trigger] insert_entry(s, k, v)[i] == (k, v)
                || exists|j: int| 0 <= j < s.len() && s[j] == insert_entry(s, k, v)[i],
    decreases s.len(),
{
    let r = insert_entry(s, k, v);
    if s.len() > 0 {
        let t = s.drop_first();
        if s[0].0 == k {
            assert forall|i: int| 0 <= i < r.len() implies #[trigger] r[i] == (k, v) || exists|j: int|
                0 <= j < s.len() && s[j] == r[i] by {
                if i > 0 {
                    assert(r[i] == s[i]);
                }
            }
        } else if seq_lt(k, s[0].0) {
            assert forall|i: int| 0 <= i < r.len() implies #[trigger] r[i] == (k, v) || exists|j: int|
                0 <= j < s.len() && s[j] == r[i] by {
                if i > 0 {
                    assert(r[i] == s[i - 1]);
                }
            }
        } else {
            lemma_insert_entry_members(t, k, v);
            let rt = insert_entry(t, k, v);
            assert forall|i: int| 0 <= i < r.len() implies #[trigger] r[i] == (k, v) || exists|j: int|
                0 <= j < s.len() && s[j] == r[i] by {
                if i == 0 {
                    assert(r[0] == s[0]);
                } else {
                    assert(r[i] == rt[i - 1]);
                    if rt[i - 1] != (k, v) {
                        let j = choose|j: int| 0 <= j < t.len() && t[j] == rt[i - 1];
                        assert(s[j + 1] == r[i]);
                    }
                }
            }
        }
    } else {
        assert(r =~= seq![(k, v)]);
    }
}

/// Every member of `sort_entries(e)` is a member of `e`.
proof fn lemma_sort_entries_members(e: Seq<(Seq<char>, JsonView)>)
    ensures
        forall|i: int|
            0 <= i < sort_entries(e).len() ==> exists|j: int| 0 <= j < e.len() && e[j] == #[trigger] sort_entries(e)[i],
    decreases e.len(),
{
    if e.len() > 0 {
        let d = e.drop_last();
        lemma_sort_entries_members(d);
        lemma_insert_entry_members(sort_entries(d), e.last().0, e.last().1);
        let r = sort_entries(e);
        assert forall|i: int| 0 <= i < r.len() implies exists|j: int| 0 <= j < e.len() && e[j] == #[trigger] r[i] by {
            if r[i] == (e.last().0, e.last().1) {
                assert(e[e.len() - 1] == r[i]);
            } else {
                let m = choose|m: int| 0 <= m < sort_entries(d).len() && sort_entries(d)[m] == r[i];
                let j = choose|j: int| 0 <= j < d.len() && d[j] == sort_entries(d)[m];
                assert(e[j] == r[i]);
            }
        }
    }
}

proof fn lemma_lookup_absent(s: Seq<(Seq<char>, JsonView)>, key: Seq<char>)
    requires
        forall|i: int| 0 <= i < s.len() ==> s[i].0 != key,
    ensures
        lookup(s, key) is None,
    decreases s.len(),
{
    if s.len() > 0 {
        assert forall|i: int| 0 <= i < s.drop_last().len() implies s.drop_last()[i].0 != key by {
            assert(s.drop_last()[i] == s[i]);
        }
        lemma_lookup_absent(s.drop_last(), key);
    }
}

/// With no key occurring twice, the first and the last member under a key
/// are the same.
proof fn lemma_sorted_lookup(s: Seq<(Seq<char>, JsonView)>)
    requires
        keys_sorted(s),
    ensures
        forall|q: Seq<char>| #[trigger] lookup(s, q) == find_first(s, q),
    decreases s.len(),
{
    if s.len() > 0 {
        let t = s.drop_first();
        assert forall|i: int, j: int| 0 <= i < j < t.len() implies seq_lt(#[trigger] t[i].0, #[trigger] t[j].0) by {
            assert(t[i] == s[i + 1] && t[j] == s[j + 1]);
        }
        lemma_sorted_lookup(t);
        assert forall|q: Seq<char>| #[trigger] lookup(s, q) == find_first(s, q) by {
            lemma_lookup_split(s, q);
            if q == s[0].0 {
                assert forall|i: int| 0 <= i < t.len() implies t[i].0 != q by {
                    assert(t[i] == s[i + 1]);
                    lemma_seq_lt_irreflexive(q);
                }
                lemma_lookup_absent(t, q);
            }
        }
    }
}

/// `lookup` over a sequence read from the front: a later member under the
/// key wins over the first one.
proof fn lemma_lookup_split(s: Seq<(Seq<char>, JsonView)>, q: Seq<char>)
    requires
        s.len() > 0,
    ensures
        lookup(s, q) == if lookup(s.drop_first(), q) is Some {
            lookup(s.drop_first(), q)
        } else if s[0].0 == q {
            Some(s[0].1)
        } else {
            None
        },
    decreases s.len(),
{
    if s.len() == 1 {
        assert(s.drop_first().len() == 0);
        assert(s.drop_last().len() == 0);
    } else {
        let d = s.drop_last();
        lemma_lookup_split(d, q);
        assert(d.drop_first() =~= s.drop_first().drop_last());
        assert(s.drop_first().last() == s.last());
    }
}

/// A document in canonical form: objects have strictly sorted keys, and all
/// nested values are in canonical form.
pub open spec fn is_canonical(v: JsonView) -> bool
    decreases v,
{
    match v {
        JsonView::Array(items) => forall|i: int| 0 <= i < items.len() ==> is_canonical(#[trigger] items[i]),
        JsonView::Object(e) => keys_sorted(e) && forall|i: int|
            0 <= i < e.len() ==> is_canonical(#[trigger] e[i].1),
        _ => true,
    }
}

/// The canonical form has its keys sorted, once each, at every depth.
pub proof fn lemma_canonical_is_canonical(v: JsonView)
    ensures
        is_canonical(canonical(v)),
    decreases v,
{
    match v {
        JsonView::Array(items) => {
            let c = canonical(v)->Array_0;
            assert forall|i: int| 0 <= i < c.len() implies is_canonical(#[trigger] c[i]) by {
                lemma_canonical_is_canonical(items[i]);
            }
        },
        JsonView::Object(e) => {
            let cm = canonical_members(e);
            let s = sort_entries(cm);
            lemma_sort_entries(cm);
            lemma_sort_entries_members(cm);
            assert forall|i: int| 0 <= i < s.len() implies is_canonical(#[trigger] s[i].1) by {
                let j = choose|j: int| 0 <= j < cm.len() && cm[j] == s[i];
                lemma_canonical_is_canonical(e[j].1);
            }
        },
        _ => {},
    }
}

/// A document already in canonical form is its own canonical form.
pub proof fn lemma_canonical_fixed(v: JsonView)
    requires
        is_canonical(v),
    ensures
        canonical(v) == v,
    decreases v,
{
    match v {
        JsonView::Array(items) => {
            let c = canonical(v)->Array_0;
            assert forall|i: int| 0 <= i < c.len() implies c[i] == items[i] by {
                lemma_canonical_fixed(items[i]);
            }
            assert(c =~= items);
        },
        JsonView::Object(e) => {
            let cm = canonical_members(e);
            assert forall|i: int| 0 <= i < cm.len() implies cm[i] == e[i] by {
                lemma_canonical_fixed(e[i].1);
            }
            assert(cm =~= e);
            lemma_sort_entries(e);
            lemma_sorted_lookup(e);
            lemma_sorted_unique(sort_entries(e), e);
        },
        _ => {},
    }
}

/// Putting a document in canonical form twice gives what once gives.
pub proof fn lemma_canonical_idempotent(v: JsonView)
    ensures
        canonical(canonical(v)) == canonical(v),
{
    lemma_canonical_is_canonical(v);
    lemma_canonical_fixed(canonical(v));
}

/// The canonical form of an object depends only on which value, in canonical
/// form, the object finally gives each key: the order in which members are
/// written does not matter.
pub proof fn lemma_canonical_member_order(e1: Seq<(Seq<char>, JsonView)>, e2: Seq<(Seq<char>, JsonView)>)
    requires
        forall|q: Seq<char>| #[trigger] lookup(canonical_members(e1), q) == lookup(canonical_members(e2), q),
    ensures
        canonical(JsonView::Object(e1)) == canonical(JsonView::Object(e2)),
{
    let s1 = sort_entries(canonical_members(e1));
    let s2 = sort_entries(canonical_members(e2));
    lemma_sort_entries(canonical_members(e1));
    lemma_sort_entries(canonical_members(e2));
    assert forall|q: Seq<char>| #[trigger] find_first(s1, q) == find_first(s2, q) by {
        assert(lookup(canonical_members(e1), q) == lookup(canonical_members(e2), q));
    }
    lemma_sorted_unique(s1, s2);
}

/// The canonical form of an array is the array of its elements' canonical forms.
pub proof fn lemma_canonical_array(items: Seq<JsonView>)
    ensures
        canonical(JsonView::Array(items)) == JsonView::Array(
            Seq::new(items.len(), |i: int| canonical(items[i])),
        ),
{
    assert(canonical(JsonView::Array(items))->Array_0 =~= Seq::new(items.len(), |i: int| canonical(items[i])));
}

/// `s` with the member `(k, v)` put in its key's place (see `insert_entry`).
#[verifier::loop_isolation(false)]
fn insert_member(s: Vec<(String, JsonValue)>, k: String, v: JsonValue) -> (r: Vec<(String, JsonValue)>)
    ensures
        entries_view(r@) == insert_entry(entries_view(s@), k@, v.view()),
{
    let ghost target = insert_entry(entries_view(s@), k@, v.view());
    let mut out: Vec<(String, JsonValue)> = Vec::new();
    let mut rest = s;
    while rest.len() > 0
        invariant
            entries_view(out@) + insert_entry(entries_view(rest@), k@, v.view()) == target,
        decreases rest.len(),
    {
        let ghost before = rest@;
        let first = rest.remove(0);
        proof {
            assert(entries_view(before) =~= seq![(first.0@, first.1.view())] + entries_view(rest@));
            assert(entries_view(before).drop_first() =~= entries_view(rest@));
        }
        if first.0 == k {
            let ghost o = out@;
            out.push((k, v));
            let ghost o2 = out@;
            out.append(&mut rest);
            proof {
                assert(entries_view(o2) =~= entries_view(o) + seq![(k@, v.view())]);
                assert(entries_view(out@) =~= entries_view(o2) + entries_view(before).drop_first());
            }
            return out;
        } else if str_lt(k.as_str(), first.0.as_str()) {
            let ghost o = out@;
            out.push((k, v));
            out.push(first);
            let ghost o2 = out@;
            let ghost r0 = rest@;
            out.append(&mut rest);
            proof {
                assert(entries_view(o2) =~= entries_view(o) + seq![(k@, v.view())] + seq![
                    (before[0].0@, before[0].1.view()),
                ]);
                assert(entries_view(out@) =~= entries_view(o2) + entries_view(r0));
                assert(entries_view(out@) =~= entries_view(o) + (seq![(k@, v.view())] + entries_view(before)));
            }
            return out;
        } else {
            let ghost o = out@;
            out.push(first);
            proof {
                assert(entries_view(out@) =~= entries_view(o) + seq![(before[0].0@, before[0].1.view())]);
                assert(insert_entry(entries_view(before), k@, v.view()) =~= seq![
                    (before[0].0@, before[0].1.view()),
                ] + insert_entry(entries_view(rest@), k@, v.view()));
            }
        }
    }
    let ghost o = out@;
    assert(entries_view(rest@) =~= Seq::<(Seq<char>, JsonView)>::empty());
    out.push((k, v));
    proof {
        assert(entries_view(out@) =~= entries_view(o) + seq![(k@, v.view())]);
    }
    out
}

/// The canonical form of a JSON document: object members sorted by key with
/// one member per key (the last one written), at every depth.
#[verifier::loop_isolation(false)]
pub fn canonical_value(value: &JsonValue) -> (r: JsonValue)
    ensures
        r.view() == canonical(value.view()),
    decreases value,
{
    match value {
        JsonValue::Array(items) => {
            let mut out: Vec<JsonValue> = Vec::new();
            let mut i: usize = 0;
            while i < items.len()
                invariant
                    i <= items.len(),
                    out@.len() == i,
                    forall|j: int| 0 <= j < i ==> #[trigger] out@[j].view() == canonical(items@[j].view()),
                decreases items.len() - i,
            {
                proof {
                    assert(decreases_to!(*items => items[i as int]));
                    assert(decreases_to!(*value => items[i as int]));
                }
                out.push(canonical_value(&items[i]));
                i = i + 1;
            }
            let r = JsonValue::Array(out);
            proof {
                let iv = value.view()->Array_0;
                assert(iv.len() == items@.len());
                assert forall|j: int| 0 <= j < items@.len() implies iv[j] == items@[j].view() by {}
                let c = canonical(value.view())->Array_0;
                assert forall|j: int| 0 <= j < out@.len() implies r.view()->Array_0[j] == c[j] by {
                    assert(out@[j].view() == canonical(items@[j].view()));
                }
                assert(r.view()->Array_0 =~= c);
            }
            r
        },
        JsonValue::Object(entries) => {
            proof {
                value.lemma_object_view();
            }
            let ghost ev = entries_view(entries@);
            let mut members: Vec<(String, JsonValue)> = Vec::new();
            let mut i: usize = 0;
            while i < entries.len()
                invariant
                    i <= entries.len(),
                    ev == entries_view(entries@),
                    members@.len() == i,
                    forall|j: int|
                        0 <= j < i ==> #[trigger] members@[j].0@ == ev[j].0 && members@[j].1.view()
                            == canonical(ev[j].1),
                decreases entries.len() - i,
            {
                proof {
                    assert(decreases_to!(*entries => entries[i as int]));
                    assert(decreases_to!(*value => entries[i as int].1));
                }
                let c = canonical_value(&entries[i].1);
                members.push((entries[i].0.clone(), c));
                i = i + 1;
            }
            let ghost cm = canonical_members(ev);
            assert(entries_view(members@) =~= cm);
            let mut sorted: Vec<(String, JsonValue)> = Vec::new();
            let mut rest = members;
            let ghost mut n: int = 0;
            assert(cm.subrange(0, 0) =~= Seq::<(Seq<char>, JsonView)>::empty());
            while rest.len() > 0
                invariant
                    0 <= n <= cm.len(),
                    entries_view(rest@) == cm.subrange(n, cm.len() as int),
                    entries_view(sorted@) == sort_entries(cm.subrange(0, n)),
                decreases rest.len(),
            {
                let ghost before = rest@;
                let m = rest.remove(0);
                proof {
                    assert(entries_view(before)[0] == (m.0@, m.1.view()));
                    assert(cm[n] == entries_view(before)[0]);
                    assert(entries_view(rest@) =~= entries_view(before).drop_first());
                    assert(entries_view(rest@) =~= cm.subrange(n + 1, cm.len() as int));
                    assert(cm.subrange(0, n + 1).drop_last() =~= cm.subrange(0, n));
                    assert(cm.subrange(0, n + 1).last() == cm[n]);
                }
                sorted = insert_member(sorted, m.0, m.1);
                proof {
                    n = n + 1;
                }
            }
            assert(cm.subrange(0, cm.len() as int) =~= cm);
            JsonValue::object(sorted)
        },
        JsonValue::Null => JsonValue::Null,
        JsonValue::Bool(b) => JsonValue::Bool(*b),
        JsonValue::Number(n) => JsonValue::Number(n.copy()),
        JsonValue::String(s) => JsonValue::String(s.clone()),
    }
}

/// A JSON document as `serde_json` holds it.
#[verifier::external_type_specification]
#[verifier::external_body]
pub struct ExSerdeValue(Value);

/// The bytes `serde_json::to_vec` writes for a document: compact JSON, with
/// the members of each object in key order.
pub uninterp spec fn compact_json(v: JsonView) -> Seq<u8>;

/// The document as a `Value`, member for member and item for
/// item; a number kept as text is read back as a JSON number. Nothing is
/// promised of the result here: `json_to_vec` states what its bytes are.
#[verifier::external_body]
fn serde_value(value: &JsonValue) -> Value {
    match value {
        JsonValue::Null => Value::Null,
        JsonValue::Bool(b) => Value::Bool(*b),
        JsonValue::Number(JsonNumber::PosInt(n)) => Value::from(*n),
        JsonValue::Number(JsonNumber::NegInt(n)) => Value::from(*n),
        JsonValue::Number(JsonNumber::Float(t)) => serde_json::from_str(t).unwrap_or(Value::Null),
        JsonValue::String(s) => Value::String(s.clone()),
        JsonValue::Array(items) => Value::Array(items.iter().map(serde_value).collect()),
        JsonValue::Object(entries) => Value::Object(
            entries.iter().map(|(k, v)| (k.clone(), serde_value(v))).collect(),
        ),
    }
}

/// `serde_json::to_vec` on the document: its compact JSON bytes, which
/// depend on the document alone. Writing a `serde_json::Value` does not
/// fail (its keys are strings and its numbers finite).
#[verifier::external_body]
fn json_to_vec(value: &JsonValue) -> (r: Vec<u8>)
    ensures
        r@ == compact_json(value.view()),
{
    serde_json::to_vec(&serde_value(value)).unwrap_or_default()
}

/// The canonical encoding of a document: its canonical form written as
/// compact JSON, so that whitespace and member order do not matter.
pub fn canonical_bytes(value: &JsonValue) -> (r: Vec<u8>)
    ensures
        r@ == compact_json(canonical(value.view())),
{
    json_to_vec(&canonical_value(value))
}

/// Two objects that give each key the same value, up to canonical form,
/// have the same canonical encoding, whatever order their members come in.
pub proof fn lemma_canonical_bytes_member_order(e1: Seq<(Seq<char>, JsonView)>, e2: Seq<(Seq<char>, JsonView)>)
    requires
        forall|q: Seq<char>| #[trigger] lookup(canonical_members(e1), q) == lookup(canonical_members(e2), q),
    ensures
        compact_json(canonical(JsonView::Object(e1))) == compact_json(canonical(JsonView::Object(e2))),
{
    lemma_canonical_member_order(e1, e2);
}

} // verus!
