use vstd::prelude::*;

use crate::json::{JsonValue, JsonView};
use crate::runtime::transport::session::SessionId;

verus! {

/// A request forwarded to the session that owns its method, waiting for the
/// owner's response. `deadline` is a point on the runtime's monotonic clock.
#[derive(Debug, PartialEq)]
pub struct PendingForward {
    pub caller: SessionId,
    pub owner: SessionId,
    pub original_id: JsonValue,
    pub method: String,
    pub deadline: u64,
}

pub struct ForwardView {
    pub caller: u64,
    pub owner: u64,
    pub original_id: JsonView,
    pub method: Seq<char>,
    pub deadline: u64,
}

impl View for PendingForward {
    type V = ForwardView;

    open spec fn view(&self) -> ForwardView {
        ForwardView {
            caller: self.caller.0,
            owner: self.owner.0,
            original_id: self.original_id.view(),
            method: self.method@,
            deadline: self.deadline,
        }
    }
}

impl PendingForward {
    pub fn copy(&self) -> (r: Self)
        ensures
            r@ == self@,
    {
        PendingForward {
            caller: self.caller,
            owner: self.owner,
            original_id: self.original_id.copy(),
            method: self.method.clone(),
            deadline: self.deadline,
        }
    }
}

impl Clone for PendingForward {
    fn clone(&self) -> (r: Self)
        ensures
            r@ == self@,
    {
        self.copy()
    }
}

/// Entries by their views.
pub open spec fn pending_views(s: Seq<(u64, PendingForward)>) -> Seq<(u64, ForwardView)> {
    Seq::new(s.len(), |i: int| (s[i].0, s[i].1@))
}

/// The order in which deadlines come due: by deadline, then by id.
pub open spec fn due_before(a: (u64, ForwardView), b: (u64, ForwardView)) -> bool {
    a.1.deadline < b.1.deadline || (a.1.deadline == b.1.deadline && a.0 < b.0)
}

/// Entries in the order in which they come due.
pub open spec fn due_sorted(s: Seq<(u64, ForwardView)>) -> bool {
    forall|i: int, j: int| 0 <= i < j < s.len() ==> due_before(#[trigger] s[i], #[trigger] s[j])
}

/// No id occurs twice.
pub open spec fn ids_distinct(s: Seq<(u64, ForwardView)>) -> bool {
    forall|i: int, j: int| 0 <= i < s.len() && 0 <= j < s.len() && i != j ==> #[trigger] s[i].0 != #[trigger] s[j].0
}

/// The pending forward with the given id.
pub open spec fn pending_get(s: Seq<(u64, ForwardView)>, id: u64) -> Option<ForwardView>
    decreases s.len(),
{
    if s.len() == 0 {
        None
    } else if s[0].0 == id {
        Some(s[0].1)
    } else {
        pending_get(s.drop_first(), id)
    }
}

/// In a sequence without repeated ids, the entry under an id is the one
/// the sequence holds.
pub proof fn lemma_pending_get(s: Seq<(u64, ForwardView)>)
    requires
        ids_distinct(s),
    ensures
        forall|id: u64, f: ForwardView| #[trigger] s.contains((id, f)) ==> pending_get(s, id) == Some(f),
        forall|id: u64| #[trigger] pending_get(s, id) is Some ==> s.contains((id, pending_get(s, id)->0)),
        forall|id: u64| (forall|i: int| 0 <= i < s.len() ==> s[i].0 != id) ==> #[trigger] pending_get(s, id) is None,
    decreases s.len(),
{
    if s.len() > 0 {
        let t = s.drop_first();
        assert forall|i: int, j: int| 0 <= i < t.len() && 0 <= j < t.len() && i != j implies #[trigger] t[i].0 != #[trigger] t[j].0 by {
            assert(t[i] == s[i + 1] && t[j] == s[j + 1]);
        }
        lemma_pending_get(t);
        assert forall|id: u64, f: ForwardView| #[trigger] s.contains((id, f)) implies pending_get(s, id) == Some(f) by {
            let i = choose|i: int| 0 <= i < s.len() && s[i] == (id, f);
            if i > 0 {
                assert(t[i - 1] == s[i]);
                assert(t.contains((id, f)));
                assert(s[0].0 != s[i].0);
            }
        }
        assert forall|id: u64| #[trigger] pending_get(s, id) is Some implies s.contains((id, pending_get(s, id)->0)) by {
            if s[0].0 == id {
                assert(s[0] == (id, pending_get(s, id)->0));
            } else {
                let f = pending_get(s, id)->0;
                assert(t.contains((id, f)));
                let k = choose|k: int| 0 <= k < t.len() && t[k] == (id, f);
                assert(s[k + 1] == (id, f));
            }
        }
        assert forall|id: u64| (forall|i: int| 0 <= i < s.len() ==> s[i].0 != id) implies #[trigger] pending_get(s, id) is None by {
            assert forall|i: int| 0 <= i < t.len() implies t[i].0 != id by {
                assert(t[i] == s[i + 1]);
            }
        }
    }
}

/// Forwarded requests waiting for their responses, with the counter that
/// hands out forward ids.
#[derive(Debug)]
pub struct PendingRequests {
    next_id: u64,
    entries: Vec<(u64, PendingForward)>,
}

impl PendingRequests {
    /// The waiting forwards, in the order in which they come due.
    pub closed spec fn due(&self) -> Seq<(u64, ForwardView)> {
        pending_views(self.entries@)
    }

    /// The last forward id handed out.
    pub closed spec fn counter(&self) -> u64 {
        self.next_id
    }

    /// The forwards are kept in due order with no id twice.
    pub open spec fn wf(&self) -> bool {
        due_sorted(self.due()) && ids_distinct(self.due())
    }

    /// The waiting forward with the given id.
    pub open spec fn get(&self, id: u64) -> Option<ForwardView> {
        pending_get(self.due(), id)
    }

    pub fn new() -> (r: Self)
        ensures
            r.wf(),
            r.due() == Seq::<(u64, ForwardView)>::empty(),
            r.counter() == 0,
    {
        let r = PendingRequests { next_id: 0, entries: Vec::new() };
        assert(r.due() =~= Seq::<(u64, ForwardView)>::empty());
        r
    }

    /// Hands out the next forward id: one more than the last, wrapping
    /// at the top of `u64`.
    pub fn next_id(&mut self) -> (r: u64)
        ensures
            r == (if old(self).counter() == u64::MAX { 0 } else { (old(self).counter() + 1) as u64 }),
            final(self).counter() == r,
            final(self).due() == old(self).due(),
    {
        self.next_id = self.next_id.wrapping_add(1);
        self.next_id
    }

    /// How many forwards are waiting.
    pub fn len(&self) -> (r: usize)
        ensures
            r == self.due().len(),
    {
        self.entries.len()
    }

    pub fn is_empty(&self) -> (r: bool)
        ensures
            r == (self.due().len() == 0),
    {
        self.entries.len() == 0
    }

    /// The earliest deadline among the waiting forwards.
    pub fn next_deadline(&self) -> (r: Option<u64>)
        requires
            self.wf(),
        ensures
            match r {
                None => self.due().len() == 0,
                Some(d) => (exists|i: int| 0 <= i < self.due().len() && #[trigger] self.due()[i].1.deadline == d)
                    && forall|i: int| 0 <= i < self.due().len() ==> d <= #[trigger] self.due()[i].1.deadline,
            },
    {
        if self.entries.len() == 0 {
            None
        } else {
            let d = self.entries[0].1.deadline;
            proof {
                let v = self.due();
                assert(v[0].1.deadline == d);
                assert forall|i: int| 0 <= i < v.len() implies d <= #[trigger] v[i].1.deadline by {
                    if i > 0 {
                        assert(due_before(v[0], v[i]));
                    }
                }
            }
            Some(d)
        }
    }
}

/// The entries of `s` that satisfy `p`, in order.
pub open spec fn keep(s: Seq<(u64, ForwardView)>, p: spec_fn((u64, ForwardView)) -> bool) -> Seq<(u64, ForwardView)>
    decreases s.len(),
{
    if s.len() == 0 {
        Seq::empty()
    } else if p(s.last()) {
        keep(s.drop_last(), p).push(s.last())
    } else {
        keep(s.drop_last(), p)
    }
}

/// Keeping some entries keeps the order and the distinct ids, and holds
/// exactly the entries that satisfy the predicate.
pub proof fn lemma_keep(s: Seq<(u64, ForwardView)>, p: spec_fn((u64, ForwardView)) -> bool)
    requires
        due_sorted(s),
        ids_distinct(s),
    ensures
        due_sorted(keep(s, p)),
        ids_distinct(keep(s, p)),
        forall|x: (u64, ForwardView)| #[trigger] keep(s, p).contains(x) <==> s.contains(x) && p(x),
    decreases s.len(),
{
    if s.len() > 0 {
        let d = s.drop_last();
        let x = s.last();
        assert forall|i: int, j: int| 0 <= i < j < d.len() implies due_before(#[trigger] d[i], #[trigger] d[j]) by {
            assert(d[i] == s[i] && d[j] == s[j]);
        }
        assert forall|i: int, j: int| 0 <= i < d.len() && 0 <= j < d.len() && i != j implies #[trigger] d[i].0 != #[trigger] d[j].0 by {
            assert(d[i] == s[i] && d[j] == s[j]);
        }
        lemma_keep(d, p);
        let kd = keep(d, p);
        assert forall|y: (u64, ForwardView)| #[trigger] d.contains(y) implies due_before(y, x) && y.0 != x.0 by {
            let i = choose|i: int| 0 <= i < d.len() && d[i] == y;
            assert(s[i] == y);
            assert(due_before(s[i], s[s.len() - 1]));
            assert(s[i].0 != s[s.len() - 1].0);
        }
        if p(x) {
            let k = kd.push(x);
            assert forall|i: int, j: int| 0 <= i < j < k.len() implies due_before(#[trigger] k[i], #[trigger] k[j]) by {
                if j == k.len() - 1 {
                    assert(kd.contains(kd[i]));
                    assert(k[i] == kd[i]);
                } else {
                    assert(k[i] == kd[i] && k[j] == kd[j]);
                }
            }
            assert forall|i: int, j: int| 0 <= i < k.len() && 0 <= j < k.len() && i != j implies #[trigger] k[i].0 != #[trigger] k[j].0 by {
                if j == k.len() - 1 {
                    assert(kd.contains(kd[i]));
                    assert(k[i] == kd[i]);
                } else if i == k.len() - 1 {
                    assert(kd.contains(kd[j]));
                    assert(k[j] == kd[j]);
                } else {
                    assert(k[i] == kd[i] && k[j] == kd[j]);
                }
            }
            assert forall|y: (u64, ForwardView)| #[trigger] k.contains(y) <==> s.contains(y) && p(y) by {
                if k.contains(y) {
                    let i = choose|i: int| 0 <= i < k.len() && k[i] == y;
                    if i < kd.len() {
                        assert(kd[i] == y);
                        assert(kd.contains(y));
                        let j = choose|j: int| 0 <= j < d.len() && d[j] == y;
                        assert(s[j] == y);
                    } else {
                        assert(s[s.len() - 1] == y);
                    }
                }
                if s.contains(y) && p(y) {
                    let i = choose|i: int| 0 <= i < s.len() && s[i] == y;
                    if i < s.len() - 1 {
                        assert(d[i] == y);
                        assert(d.contains(y));
                        assert(kd.contains(y));
                        let j = choose|j: int| 0 <= j < kd.len() && kd[j] == y;
                        assert(k[j] == y);
                    } else {
                        assert(k[k.len() - 1] == y);
                    }
                }
            }
        } else {
            assert forall|y: (u64, ForwardView)| #[trigger] kd.contains(y) <==> s.contains(y) && p(y) by {
                if s.contains(y) && p(y) {
                    let i = choose|i: int| 0 <= i < s.len() && s[i] == y;
                    if i < s.len() - 1 {
                        assert(d[i] == y);
                        assert(d.contains(y));
                    }
                }
                if kd.contains(y) {
                    let j = choose|j: int| 0 <= j < d.len() && d[j] == y;
                    assert(s[j] == y);
                }
            }
        }
    }
}

/// Entries that a sequence with distinct ids holds, read back by id.
pub proof fn lemma_get_by_contents(s: Seq<(u64, ForwardView)>, t: Seq<(u64, ForwardView)>, p: spec_fn((u64, ForwardView)) -> bool)
    requires
        ids_distinct(s),
        ids_distinct(t),
        forall|x: (u64, ForwardView)| #[trigger] t.contains(x) <==> s.contains(x) && p(x),
    ensures
        forall|id: u64| #[trigger] pending_get(t, id) == match pending_get(s, id) {
            Some(f) => if p((id, f)) {
                Some(f)
            } else {
                None
            },
            None => None,
        },
{
    lemma_pending_get(s);
    lemma_pending_get(t);
    assert forall|id: u64| #[trigger] pending_get(t, id) == match pending_get(s, id) {
        Some(f) => if p((id, f)) {
            Some(f)
        } else {
            None
        },
        None => None,
    } by {
        if pending_get(t, id) is Some {
            let f = pending_get(t, id)->0;
            assert(t.contains((id, f)));
        } else if pending_get(s, id) is Some {
            let f = pending_get(s, id)->0;
            assert(s.contains((id, f)));
            if p((id, f)) {
                assert(t.contains((id, f)));
            }
        }
    }
}

pub open spec fn other_id(id: u64) -> spec_fn((u64, ForwardView)) -> bool {
    |x: (u64, ForwardView)| x.0 != id
}

proof fn lemma_remove_at(s: Seq<(u64, ForwardView)>, idx: int)
    requires
        due_sorted(s),
        ids_distinct(s),
        0 <= idx < s.len(),
    ensures
        due_sorted(s.remove(idx)),
        ids_distinct(s.remove(idx)),
        forall|x: (u64, ForwardView)| #[trigger] s.remove(idx).contains(x) <==> s.contains(x) && other_id(s[idx].0)(x),
{
    let r = s.remove(idx);
    assert forall|i: int| 0 <= i < r.len() implies #[trigger] r[i] == if i < idx { s[i] } else { s[i + 1] } by {}
    assert forall|i: int, j: int| 0 <= i < j < r.len() implies due_before(#[trigger] r[i], #[trigger] r[j]) by {
        let a = if i < idx { i } else { i + 1 };
        let b = if j < idx { j } else { j + 1 };
        assert(r[i] == s[a] && r[j] == s[b]);
    }
    assert forall|i: int, j: int| 0 <= i < r.len() && 0 <= j < r.len() && i != j implies #[trigger] r[i].0 != #[trigger] r[j].0 by {
        let a = if i < idx { i } else { i + 1 };
        let b = if j < idx { j } else { j + 1 };
        assert(r[i] == s[a] && r[j] == s[b]);
    }
    assert forall|x: (u64, ForwardView)| #[trigger] r.contains(x) <==> s.contains(x) && other_id(s[idx].0)(x) by {
        if r.contains(x) {
            let i = choose|i: int| 0 <= i < r.len() && r[i] == x;
            let a = if i < idx { i } else { i + 1 };
            assert(s[a] == x);
            assert(a != idx);
        }
        if s.contains(x) && x.0 != s[idx].0 {
            let a = choose|a: int| 0 <= a < s.len() && s[a] == x;
            assert(a != idx);
            let i = if a < idx { a } else { a - 1 };
            assert(r[i] == x);
        }
    }
}

proof fn lemma_insert_at(s: Seq<(u64, ForwardView)>, p: int, x: (u64, ForwardView))
    requires
        due_sorted(s),
        ids_distinct(s),
        0 <= p <= s.len(),
        forall|i: int| 0 <= i < p ==> due_before(#[trigger] s[i], x),
        forall|i: int| p <= i < s.len() ==> due_before(x, #[trigger] s[i]),
        forall|i: int| 0 <= i < s.len() ==> #[trigger] s[i].0 != x.0,
    ensures
        due_sorted(s.insert(p, x)),
        ids_distinct(s.insert(p, x)),
        forall|y: (u64, ForwardView)| #[trigger] s.insert(p, x).contains(y) <==> s.contains(y) || y == x,
{
    let r = s.insert(p, x);
    assert forall|i: int| 0 <= i < r.len() implies #[trigger] r[i] == if i < p { s[i] } else if i == p { x } else { s[i - 1] } by {}
    assert forall|i: int, j: int| 0 <= i < j < r.len() implies due_before(#[trigger] r[i], #[trigger] r[j]) by {
        if i < p && j > p {
            assert(due_before(s[i], x) && due_before(x, s[j - 1]));
        }
    }
    assert forall|i: int, j: int| 0 <= i < r.len() && 0 <= j < r.len() && i != j implies #[trigger] r[i].0 != #[trigger] r[j].0 by {
        let a = if i < p { i } else { i - 1 };
        let b = if j < p { j } else { j - 1 };
        if i != p && j != p {
            assert(r[i] == s[a] && r[j] == s[b]);
        }
    }
    assert forall|y: (u64, ForwardView)| #[trigger] r.contains(y) <==> s.contains(y) || y == x by {
        if r.contains(y) {
            let i = choose|i: int| 0 <= i < r.len() && r[i] == y;
            if i < p {
                assert(s[i] == y);
            } else if i > p {
                assert(s[i - 1] == y);
            }
        }
        if s.contains(y) {
            let a = choose|a: int| 0 <= a < s.len() && s[a] == y;
            if a < p {
                assert(r[a] == y);
            } else {
                assert(r[a + 1] == y);
            }
        }
        if y == x {
            assert(r[p] == x);
        }
    }
}

proof fn lemma_views_remove(s: Seq<(u64, PendingForward)>, idx: int)
    requires
        0 <= idx < s.len(),
    ensures
        pending_views(s.remove(idx)) == pending_views(s).remove(idx),
{
    assert(pending_views(s.remove(idx)) =~= pending_views(s).remove(idx));
}

proof fn lemma_views_insert(s: Seq<(u64, PendingForward)>, p: int, x: (u64, PendingForward))
    requires
        0 <= p <= s.len(),
    ensures
        pending_views(s.insert(p, x)) == pending_views(s).insert(p, (x.0, x.1@)),
{
    assert(pending_views(s.insert(p, x)) =~= pending_views(s).insert(p, (x.0, x.1@)));
}

impl PendingRequests {
    /// The position of the entry with the given id.
    fn position(&self, id: u64) -> (r: Option<usize>)
        requires
            self.wf(),
        ensures
            match r {
                Some(i) => i < self.due().len() && self.due()[i as int].0 == id,
                None => forall|i: int| 0 <= i < self.due().len() ==> self.due()[i].0 != id,
            },
    {
        let mut i: usize = 0;
        while i < self.entries.len()
            invariant
                i <= self.entries.len(),
                self.due() == pending_views(self.entries@),
                forall|j: int| 0 <= j < i ==> self.due()[j].0 != id,
            decreases self.entries.len() - i,
        {
            if self.entries[i].0 == id {
                return Some(i);
            }
            i = i + 1;
        }
        None
    }

    /// Removes the entry with the given id.
    fn remove(&mut self, id: u64) -> (r: Option<PendingForward>)
        requires
            old(self).wf(),
        ensures
            final(self).wf(),
            final(self).counter() == old(self).counter(),
            match r {
                Some(f) => old(self).get(id) == Some(f@),
                None => old(self).get(id) is None,
            },
            forall|x: (u64, ForwardView)| #[trigger] final(self).due().contains(x) <==> old(self).due().contains(x) && other_id(id)(x),
            forall|q: u64| #[trigger] final(self).get(q) == if q == id { None } else { old(self).get(q) },
    {
        let ghost old_due = self.due();
        proof {
            lemma_pending_get(old_due);
        }
        match self.position(id) {
            None => {
                proof {
                    assert forall|x: (u64, ForwardView)| #[trigger] old_due.contains(x) implies other_id(id)(x) by {
                        let i = choose|i: int| 0 <= i < old_due.len() && old_due[i] == x;
                    }
                }
                None
            },
            Some(idx) => {
                let ghost before = self.entries@;
                let (_, forward) = self.entries.remove(idx);
                proof {
                    lemma_views_remove(before, idx as int);
                    lemma_remove_at(old_due, idx as int);
                    assert(old_due[idx as int] == (id, forward@));
                    assert(old_due.contains((id, forward@)));
                    lemma_get_by_contents(old_due, self.due(), other_id(id));
                }
                Some(forward)
            },
        }
    }

    /// Records a forward under `id`, replacing any entry with that id.
    pub fn insert(&mut self, id: u64, forward: PendingForward)
        requires
            old(self).wf(),
        ensures
            final(self).wf(),
            final(self).counter() == old(self).counter(),
            forall|q: u64| #[trigger] final(self).get(q) == if q == id { Some(forward@) } else { old(self).get(q) },
    {
        let ghost old_due = self.due();
        let _ = self.remove(id);
        let ghost mid = self.due();
        assert forall|q: u64| #[trigger] pending_get(mid, q) == if q == id { None } else { pending_get(old_due, q) } by {
            assert(self.get(q) == pending_get(mid, q));
        }
        let x = (id, forward);
        let ghost xv = (id, x.1@);
        let mut p: usize = 0;
        while p < self.entries.len() && (self.entries[p].1.deadline < x.1.deadline || (
        self.entries[p].1.deadline == x.1.deadline && self.entries[p].0 < id))
            invariant
                p <= self.entries.len(),
                mid == self.due(),
                mid == pending_views(self.entries@),
                self.wf(),
                xv == (id, x.1@),
                forall|i: int| 0 <= i < p ==> due_before(#[trigger] mid[i], xv),
            decreases self.entries.len() - p,
        {
            p = p + 1;
        }
        proof {
            assert forall|i: int| 0 <= i < mid.len() implies #[trigger] mid[i].0 != xv.0 by {
                assert(mid.contains(mid[i]));
            }
            assert forall|i: int| p <= i < mid.len() implies due_before(xv, #[trigger] mid[i]) by {
                if i > p {
                    assert(due_before(mid[p as int], mid[i]));
                }
                assert(mid[p as int].0 != id);
            }
            lemma_insert_at(mid, p as int, xv);
        }
        let ghost before = self.entries@;
        self.entries.insert(p, x);
        proof {
            lemma_views_insert(before, p as int, (id, forward));
            let t = self.due();
            let q0 = mid.insert(p as int, xv);
            assert(t == q0);
            lemma_pending_get(t);
            lemma_pending_get(mid);
            assert forall|q: u64| #[trigger] self.get(q) == if q == id { Some(forward@) } else { pending_get(old_due, q) } by {
                if q == id {
                    assert(t.contains(xv));
                } else {
                    if pending_get(t, q) is Some {
                        let f = pending_get(t, q)->0;
                        assert(t.contains((q, f)));
                        assert(mid.contains((q, f)));
                    } else if pending_get(mid, q) is Some {
                        let f = pending_get(mid, q)->0;
                        assert(mid.contains((q, f)));
                        assert(t.contains((q, f)));
                    }
                }
            }
        }
    }
}

pub open spec fn due_after(now: u64) -> spec_fn((u64, ForwardView)) -> bool {
    |x: (u64, ForwardView)| x.1.deadline > now
}

/// Which side of a forward a drain goes by.
#[derive(Debug, Clone, Copy, PartialEq, Eq, Structural)]
enum PendingIndex {
    Caller,
    Owner,
}

pub open spec fn session_of(x: (u64, ForwardView), by_owner: bool) -> u64 {
    if by_owner {
        x.1.owner
    } else {
        x.1.caller
    }
}

pub open spec fn involves(by_owner: bool, s: u64) -> spec_fn((u64, ForwardView)) -> bool {
    |x: (u64, ForwardView)| session_of(x, by_owner) == s
}

pub open spec fn not_involves(by_owner: bool, s: u64) -> spec_fn((u64, ForwardView)) -> bool {
    |x: (u64, ForwardView)| session_of(x, by_owner) != s
}

impl PendingRequests {
    /// Takes the forward `id` when `responder` is the session it was sent
    /// to; a response from any other session leaves it waiting.
    pub fn take(&mut self, id: u64, responder: SessionId) -> (r: Option<PendingForward>)
        requires
            old(self).wf(),
        ensures
            final(self).wf(),
            final(self).counter() == old(self).counter(),
            match old(self).get(id) {
                Some(f) => if f.owner == responder.0 {
                    &&& r matches Some(x) && x@ == f
                    &&& forall|q: u64| #[trigger] final(self).get(q) == if q == id { None } else { old(self).get(q) }
                } else {
                    r is None && final(self).due() == old(self).due()
                },
                None => r is None && final(self).due() == old(self).due(),
            },
    {
        proof {
            lemma_pending_get(self.due());
        }
        match self.position(id) {
            None => None,
            Some(i) => {
                proof {
                    assert(self.due().contains(self.due()[i as int]));
                }
                if self.entries[i].1.owner.0 != responder.0 {
                    None
                } else {
                    self.remove(id)
                }
            },
        }
    }

    /// Drops the forward `id`, returning it if it was waiting.
    pub fn cancel(&mut self, id: u64) -> (r: Option<PendingForward>)
        requires
            old(self).wf(),
        ensures
            final(self).wf(),
            final(self).counter() == old(self).counter(),
            match r {
                Some(f) => old(self).get(id) == Some(f@),
                None => old(self).get(id) is None,
            },
            forall|q: u64| #[trigger] final(self).get(q) == if q == id { None } else { old(self).get(q) },
    {
        self.remove(id)
    }

    /// Takes every forward whose deadline is at or before `now`, in the order
    /// in which they came due.
    pub fn take_expired(&mut self, now: u64) -> (r: Vec<(u64, PendingForward)>)
        requires
            old(self).wf(),
        ensures
            final(self).wf(),
            final(self).counter() == old(self).counter(),
            pending_views(r@) + final(self).due() == old(self).due(),
            forall|i: int| 0 <= i < r@.len() ==> #[trigger] r@[i].1.deadline <= now,
            forall|i: int| 0 <= i < final(self).due().len() ==> #[trigger] final(self).due()[i].1.deadline > now,
            due_sorted(pending_views(r@)),
            ids_distinct(pending_views(r@)),
            forall|q: u64| #[trigger] final(self).get(q) == match old(self).get(q) {
                Some(f) => if f.deadline > now { Some(f) } else { None },
                None => None,
            },
            forall|q: u64| #[trigger] pending_get(pending_views(r@), q) == match old(self).get(q) {
                Some(f) => if f.deadline <= now { Some(f) } else { None },
                None => None,
            },
    {
        let ghost old_due = self.due();
        let mut expired: Vec<(u64, PendingForward)> = Vec::new();
        while self.entries.len() > 0 && self.entries[0].1.deadline <= now
            invariant
                pending_views(expired@) + self.due() == old_due,
                forall|i: int| 0 <= i < expired@.len() ==> #[trigger] expired@[i].1.deadline <= now,
                self.counter() == old(self).counter(),
            decreases self.entries.len(),
        {
            let ghost before = self.entries@;
            let ghost ebefore = expired@;
            let e = self.entries.remove(0);
            expired.push(e);
            proof {
                lemma_views_remove(before, 0);
                assert(pending_views(expired@) =~= pending_views(ebefore).push((e.0, e.1@)));
                assert(pending_views(before).remove(0) =~= pending_views(before).drop_first());
                assert(pending_views(expired@) + self.due() =~= pending_views(ebefore) + pending_views(before));
            }
        }
        proof {
            let ev = pending_views(expired@);
            let fv = self.due();
            let k = ev.len() as int;
            assert forall|i: int| 0 <= i < ev.len() implies #[trigger] ev[i] == old_due[i] by {
                assert((ev + fv)[i] == ev[i]);
            }
            assert forall|i: int| 0 <= i < fv.len() implies #[trigger] fv[i] == old_due[k + i] by {
                assert((ev + fv)[k + i] == fv[i]);
            }
            assert forall|i: int| 0 <= i < fv.len() implies #[trigger] fv[i].1.deadline > now by {
                if i > 0 {
                    assert(due_before(old_due[k], old_due[k + i]));
                }
            }
            assert forall|i: int, j: int| 0 <= i < j < fv.len() implies due_before(#[trigger] fv[i], #[trigger] fv[j]) by {
                assert(due_before(old_due[k + i], old_due[k + j]));
            }
            assert forall|i: int, j: int| 0 <= i < fv.len() && 0 <= j < fv.len() && i != j implies #[trigger] fv[i].0 != #[trigger] fv[j].0 by {
                assert(old_due[k + i].0 != old_due[k + j].0);
            }
            assert forall|i: int, j: int| 0 <= i < j < ev.len() implies due_before(#[trigger] ev[i], #[trigger] ev[j]) by {
                assert(due_before(old_due[i], old_due[j]));
            }
            assert forall|i: int, j: int| 0 <= i < ev.len() && 0 <= j < ev.len() && i != j implies #[trigger] ev[i].0 != #[trigger] ev[j].0 by {
                assert(old_due[i].0 != old_due[j].0);
            }
            assert forall|i: int| 0 <= i < ev.len() implies #[trigger] ev[i].1.deadline <= now by {
                assert(ev[i].1.deadline == expired@[i].1.deadline);
            }
            assert forall|x: (u64, ForwardView)| #[trigger] fv.contains(x) <==> old_due.contains(x) && due_after(now)(x) by {
                if fv.contains(x) {
                    let i = choose|i: int| 0 <= i < fv.len() && fv[i] == x;
                    assert(old_due[k + i] == x);
                }
                if old_due.contains(x) && x.1.deadline > now {
                    let a = choose|a: int| 0 <= a < old_due.len() && old_due[a] == x;
                    if a < k {
                        assert(ev[a] == x);
                    } else {
                        assert(fv[a - k] == x);
                    }
                }
            }
            assert forall|x: (u64, ForwardView)| #[trigger] ev.contains(x) <==> old_due.contains(x) && !due_after(now)(x) by {
                if ev.contains(x) {
                    let i = choose|i: int| 0 <= i < ev.len() && ev[i] == x;
                    assert(old_due[i] == x);
                }
                if old_due.contains(x) && x.1.deadline <= now {
                    let a = choose|a: int| 0 <= a < old_due.len() && old_due[a] == x;
                    if a < k {
                        assert(ev[a] == x);
                    } else {
                        assert(fv[a - k] == x);
                    }
                }
            }
            let not_after = |x: (u64, ForwardView)| !due_after(now)(x);
            assert forall|x: (u64, ForwardView)| #[trigger] ev.contains(x) <==> old_due.contains(x) && not_after(x) by {}
            lemma_get_by_contents(old_due, fv, due_after(now));
            lemma_get_by_contents(old_due, ev, not_after);
        }
        expired
    }

    /// Takes every forward sent to `owner`.
    pub fn drain_owner(&mut self, owner: SessionId) -> (r: Vec<(u64, PendingForward)>)
        requires
            old(self).wf(),
        ensures
            final(self).wf(),
            final(self).counter() == old(self).counter(),
            pending_views(r@) == keep(old(self).due(), involves(true, owner.0)),
            final(self).due() == keep(old(self).due(), not_involves(true, owner.0)),
            forall|q: u64| #[trigger] final(self).get(q) == match old(self).get(q) {
                Some(f) => if f.owner == owner.0 { None } else { Some(f) },
                None => None,
            },
            forall|q: u64| #[trigger] pending_get(pending_views(r@), q) == match old(self).get(q) {
                Some(f) => if f.owner == owner.0 { Some(f) } else { None },
                None => None,
            },
    {
        self.drain_index(owner, PendingIndex::Owner)
    }

    /// Takes every forward made by `caller`.
    pub fn drain_caller(&mut self, caller: SessionId) -> (r: Vec<(u64, PendingForward)>)
        requires
            old(self).wf(),
        ensures
            final(self).wf(),
            final(self).counter() == old(self).counter(),
            pending_views(r@) == keep(old(self).due(), involves(false, caller.0)),
            final(self).due() == keep(old(self).due(), not_involves(false, caller.0)),
            forall|q: u64| #[trigger] final(self).get(q) == match old(self).get(q) {
                Some(f) => if f.caller == caller.0 { None } else { Some(f) },
                None => None,
            },
            forall|q: u64| #[trigger] pending_get(pending_views(r@), q) == match old(self).get(q) {
                Some(f) => if f.caller == caller.0 { Some(f) } else { None },
                None => None,
            },
    {
        self.drain_index(caller, PendingIndex::Caller)
    }

    fn drain_index(&mut self, session_id: SessionId, index: PendingIndex) -> (r: Vec<(u64, PendingForward)>)
        requires
            old(self).wf(),
        ensures
            ({
                let by_owner = index == PendingIndex::Owner;
                &&& final(self).wf()
                &&& final(self).counter() == old(self).counter()
                &&& pending_views(r@) == keep(old(self).due(), involves(by_owner, session_id.0))
                &&& final(self).due() == keep(old(self).due(), not_involves(by_owner, session_id.0))
                &&& forall|q: u64| #[trigger] final(self).get(q) == match old(self).get(q) {
                    Some(f) => if session_of((q, f), by_owner) == session_id.0 { None } else { Some(f) },
                    None => None,
                }
                &&& forall|q: u64| #[trigger] pending_get(pending_views(r@), q) == match old(self).get(q) {
                    Some(f) => if session_of((q, f), by_owner) == session_id.0 { Some(f) } else { None },
                    None => None,
                }
            }),
    {
        let by_owner = match index {
            PendingIndex::Owner => true,
            PendingIndex::Caller => false,
        };
        let ghost old_due = self.due();
        let mut all: Vec<(u64, PendingForward)> = Vec::new();
        std::mem::swap(&mut all, &mut self.entries);
        let mut drained: Vec<(u64, PendingForward)> = Vec::new();
        let ghost mut n: int = 0;
        assert(old_due.subrange(0, 0) =~= Seq::<(u64, ForwardView)>::empty());
        assert(pending_views(self.entries@) =~= Seq::<(u64, ForwardView)>::empty());
        while all.len() > 0
            invariant
                0 <= n <= old_due.len(),
                pending_views(all@) == old_due.subrange(n, old_due.len() as int),
                pending_views(drained@) == keep(old_due.subrange(0, n), involves(by_owner, session_id.0)),
                pending_views(self.entries@) == keep(old_due.subrange(0, n), not_involves(by_owner, session_id.0)),
                self.next_id == old(self).next_id,
            decreases all.len(),
        {
            let ghost before = all@;
            let e = all.remove(0);
            proof {
                lemma_views_remove(before, 0);
                assert(pending_views(before)[0] == (e.0, e.1@));
                assert(old_due[n] == (e.0, e.1@));
                assert(pending_views(all@) =~= old_due.subrange(n + 1, old_due.len() as int));
                assert(old_due.subrange(0, n + 1).drop_last() =~= old_due.subrange(0, n));
                assert(old_due.subrange(0, n + 1).last() == old_due[n]);
            }
            let s = if by_owner { e.1.owner.0 } else { e.1.caller.0 };
            if s == session_id.0 {
                let ghost d0 = drained@;
                drained.push(e);
                assert(pending_views(drained@) =~= pending_views(d0).push((e.0, e.1@)));
            } else {
                let ghost k0 = self.entries@;
                self.entries.push(e);
                assert(pending_views(self.entries@) =~= pending_views(k0).push((e.0, e.1@)));
            }
            proof {
                n = n + 1;
            }
        }
        proof {
            assert(old_due.subrange(0, old_due.len() as int) =~= old_due);
            lemma_keep(old_due, involves(by_owner, session_id.0));
            lemma_keep(old_due, not_involves(by_owner, session_id.0));
            lemma_get_by_contents(old_due, self.due(), not_involves(by_owner, session_id.0));
            lemma_get_by_contents(old_due, pending_views(drained@), involves(by_owner, session_id.0));
        }
        drained
    }
}

impl Default for PendingRequests {
    fn default() -> (r: Self)
        ensures
            r.wf(),
            r.due() == Seq::<(u64, ForwardView)>::empty(),
            r.counter() == 0,
    {
        PendingRequests::new()
    }
}

} // verus!
