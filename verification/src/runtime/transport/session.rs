use vstd::prelude::*;

use crate::text::{decimal, push_decimal, string_of};

verus! {

/// Identifier of one transport session; the session manager hands them out
/// in increasing order.
#[derive(Debug, Clone, Copy, PartialEq, Eq, Hash, PartialOrd, Ord, Structural)]
pub struct SessionId(pub u64);

impl SessionId {
    pub fn new(value: u64) -> (id: Self)
        ensures
            id.0 == value,
    {
        SessionId(value)
    }

    pub fn value(self) -> (value: u64)
        ensures
            value == self.0,
    {
        self.0
    }

    /// `session-<n>`, the form in which sessions are named to clients.
    pub fn label(&self) -> (r: String)
        ensures
            r@ == "session-"@ + decimal(self.0 as nat),
    {
        let mut r = string_of("session-");
        push_decimal(&mut r, self.0);
        r
    }
}

#[derive(Debug, Clone, Copy, PartialEq, Eq, Structural)]
pub enum SessionState {
    Connected,
    Disconnected,
}

#[derive(Debug, Clone, Copy, PartialEq, Eq, Structural)]
pub enum HeartbeatState {
    Unknown,
    Alive,
}

/// Where a session comes from and when it connected and disconnected. Times
/// are nanoseconds since the Unix epoch; the peer address is in its text form.
#[derive(Debug, PartialEq, Eq)]
pub struct TransportMetadata {
    pub peer_addr: Option<String>,
    pub connected_at: u64,
    pub disconnected_at: Option<u64>,
}

#[derive(Debug, PartialEq, Eq)]
pub struct Session {
    pub id: SessionId,
    pub state: SessionState,
    pub heartbeat: HeartbeatState,
    pub last_seen_at: u64,
    pub transport: TransportMetadata,
}

pub struct SessionView {
    pub id: u64,
    pub state: SessionState,
    pub heartbeat: HeartbeatState,
    pub last_seen_at: u64,
    pub peer_addr: Option<Seq<char>>,
    pub connected_at: u64,
    pub disconnected_at: Option<u64>,
}

impl View for Session {
    type V = SessionView;

    open spec fn view(&self) -> SessionView {
        SessionView {
            id: self.id.0,
            state: self.state,
            heartbeat: self.heartbeat,
            last_seen_at: self.last_seen_at,
            peer_addr: match self.transport.peer_addr {
                Some(a) => Some(a@),
                None => None,
            },
            connected_at: self.transport.connected_at,
            disconnected_at: self.transport.disconnected_at,
        }
    }
}

impl Session {
    pub fn copy(&self) -> (r: Self)
        ensures
            r@ == self@,
    {
        Session {
            id: self.id,
            state: self.state,
            heartbeat: self.heartbeat,
            last_seen_at: self.last_seen_at,
            transport: TransportMetadata {
                peer_addr: match &self.transport.peer_addr {
                    Some(a) => Some(a.clone()),
                    None => None,
                },
                connected_at: self.transport.connected_at,
                disconnected_at: self.transport.disconnected_at,
            },
        }
    }
}

impl Clone for Session {
    fn clone(&self) -> (r: Self)
        ensures
            r@ == self@,
    {
        self.copy()
    }
}

pub open spec fn session_views(s: Seq<Session>) -> Seq<SessionView> {
    Seq::new(s.len(), |i: int| s[i]@)
}

/// No session id occurs twice.
pub open spec fn session_ids_distinct(s: Seq<SessionView>) -> bool {
    forall|i: int, j: int| 0 <= i < s.len() && 0 <= j < s.len() && i != j ==> #[trigger] s[i].id != #[trigger] s[j].id
}

/// The session with the given id.
pub open spec fn session_get(s: Seq<SessionView>, id: u64) -> Option<SessionView>
    decreases s.len(),
{
    if s.len() == 0 {
        None
    } else if s.last().id == id {
        Some(s.last())
    } else {
        session_get(s.drop_last(), id)
    }
}

/// How many sessions are connected.
pub open spec fn connected_in(s: Seq<SessionView>) -> nat
    decreases s.len(),
{
    if s.len() == 0 {
        0
    } else {
        connected_in(s.drop_last()) + if s.last().state == SessionState::Connected {
            1nat
        } else {
            0nat
        }
    }
}

/// A disconnected session whose disconnection lies at least `ttl` before
/// `now`. A disconnection time after `now` never counts as expired.
pub open spec fn expired(v: SessionView, ttl: u64, now: u64) -> bool {
    v.state == SessionState::Disconnected && match v.disconnected_at {
        Some(t) => t <= now && now - t >= ttl,
        None => false,
    }
}

/// The sessions that are not expired, in order.
pub open spec fn unexpired(s: Seq<SessionView>, ttl: u64, now: u64) -> Seq<SessionView>
    decreases s.len(),
{
    if s.len() == 0 {
        Seq::empty()
    } else if expired(s.last(), ttl, now) {
        unexpired(s.drop_last(), ttl, now)
    } else {
        unexpired(s.drop_last(), ttl, now).push(s.last())
    }
}

/// The ids of the expired sessions, in order.
pub open spec fn expired_ids(s: Seq<SessionView>, ttl: u64, now: u64) -> Seq<u64>
    decreases s.len(),
{
    if s.len() == 0 {
        Seq::empty()
    } else if expired(s.last(), ttl, now) {
        expired_ids(s.drop_last(), ttl, now).push(s.last().id)
    } else {
        expired_ids(s.drop_last(), ttl, now)
    }
}

proof fn lemma_views_prefix(s: Seq<Session>, i: int)
    requires
        0 < i <= s.len(),
    ensures
        session_views(s).subrange(0, i).drop_last() == session_views(s).subrange(0, i - 1),
        session_views(s).subrange(0, i).last() == s[i - 1]@,
{
    assert(session_views(s).subrange(0, i).drop_last() =~= session_views(s).subrange(0, i - 1));
}

/// The sessions the runtime knows, connected or waiting to be reaped, with
/// the counter that hands out session ids.
#[derive(Debug)]
pub struct SessionManager {
    next_id: u64,
    sessions: Vec<Session>,
}

impl View for SessionManager {
    type V = Seq<SessionView>;

    /// The sessions in the order they were registered.
    closed spec fn view(&self) -> Seq<SessionView> {
        session_views(self.sessions@)
    }
}

impl SessionManager {
    /// The last session id handed out.
    pub closed spec fn counter(&self) -> u64 {
        self.next_id
    }

    pub open spec fn wf(&self) -> bool {
        session_ids_distinct(self@)
    }

    pub fn new() -> (r: Self)
        ensures
            r@ == Seq::<SessionView>::empty(),
            r.counter() == 0,
            r.wf(),
    {
        let r = SessionManager { next_id: 0, sessions: Vec::new() };
        assert(r@ =~= Seq::<SessionView>::empty());
        r
    }

    fn position(&self, id: SessionId) -> (r: Option<usize>)
        ensures
            match r {
                Some(i) => i < self@.len() && self@[i as int].id == id.0 && session_get(self@, id.0) == Some(self@[i as int]),
                None => session_get(self@, id.0) is None && forall|i: int| 0 <= i < self@.len() ==> self@[i].id != id.0,
            },
    {
        let ghost v = self@;
        let mut i: usize = self.sessions.len();
        assert(v.subrange(0, v.len() as int) =~= v);
        while i > 0
            invariant
                i <= self.sessions.len(),
                v == self@,
                v == session_views(self.sessions@),
                session_get(v, id.0) == session_get(v.subrange(0, i as int), id.0),
                forall|j: int| i <= j < v.len() ==> v[j].id != id.0,
            decreases i,
        {
            proof {
                lemma_views_prefix(self.sessions@, i as int);
            }
            if self.sessions[i - 1].id.0 == id.0 {
                return Some(i - 1);
            }
            i = i - 1;
        }
        assert(v.subrange(0, 0) =~= Seq::<SessionView>::empty());
        None
    }

    /// Records a new connected session and returns its id: one more than the
    /// last id handed out (wrapping at the top of `u64`). A session that
    /// already had that id is replaced.
    pub fn register(&mut self, peer_addr: Option<String>, now: u64) -> (id: SessionId)
        requires
            old(self).wf(),
        ensures
            final(self).wf(),
            id.0 == (if old(self).counter() == u64::MAX { 0 } else { (old(self).counter() + 1) as u64 }),
            final(self).counter() == id.0,
            session_get(final(self)@, id.0) == Some(
                SessionView {
                    id: id.0,
                    state: SessionState::Connected,
                    heartbeat: HeartbeatState::Unknown,
                    last_seen_at: now,
                    peer_addr: match peer_addr {
                        Some(a) => Some(a@),
                        None => None,
                    },
                    connected_at: now,
                    disconnected_at: None,
                },
            ),
            forall|q: u64| q != id.0 ==> #[trigger] session_get(final(self)@, q) == session_get(old(self)@, q),
            final(self)@.len() == old(self)@.len() + (if session_get(old(self)@, id.0) is Some { 0int } else { 1int }),
    {
        self.next_id = self.next_id.wrapping_add(1);
        let id = SessionId(self.next_id);
        let session = Session {
            id,
            state: SessionState::Connected,
            heartbeat: HeartbeatState::Unknown,
            last_seen_at: now,
            transport: TransportMetadata { peer_addr, connected_at: now, disconnected_at: None },
        };
        let ghost old_v = self@;
        match self.position(id) {
            Some(i) => {
                self.replace_at(i, session);
            },
            None => {
                let ghost before = self.sessions@;
                self.sessions.push(session);
                proof {
                    assert(self@ =~= old_v.push(self.sessions@[self.sessions@.len() - 1]@));
                    assert(self@.drop_last() =~= old_v);
                    assert forall|a: int, b: int| 0 <= a < self@.len() && 0 <= b < self@.len() && a != b implies #[trigger] self@[a].id != #[trigger] self@[b].id by {
                        if a < old_v.len() && b < old_v.len() {
                            assert(self@[a] == old_v[a] && self@[b] == old_v[b]);
                        } else if a < old_v.len() {
                            assert(self@[a] == old_v[a]);
                        } else {
                            assert(self@[b] == old_v[b]);
                        }
                    }
                }
            },
        }
        id
    }

    /// Puts `session` at position `i`, in place of the session with its id.
    fn replace_at(&mut self, i: usize, session: Session)
        requires
            old(self).wf(),
            i < old(self)@.len(),
            old(self)@[i as int].id == session.id.0,
        ensures
            final(self).wf(),
            final(self).counter() == old(self).counter(),
            final(self)@ == old(self)@.update(i as int, session@),
            session_get(final(self)@, session.id.0) == Some(session@),
            forall|q: u64| q != session.id.0 ==> #[trigger] session_get(final(self)@, q) == session_get(old(self)@, q),
    {
        let ghost old_v = self@;
        let ghost sv = session@;
        let ghost before = self.sessions@;
        let mut all: Vec<Session> = Vec::new();
        std::mem::swap(&mut all, &mut self.sessions);
        all.set(i, session);
        self.sessions = all;
        proof {
            let nv = self@;
            assert(nv =~= old_v.update(i as int, sv));
            lemma_session_get_update(old_v, i as int, sv);
        }
    }

    /// Marks the session disconnected at `now`.
    pub fn mark_disconnected(&mut self, id: SessionId, now: u64)
        requires
            old(self).wf(),
        ensures
            final(self).wf(),
            final(self).counter() == old(self).counter(),
            match session_get(old(self)@, id.0) {
                Some(s) => session_get(final(self)@, id.0) == Some(
                    SessionView { state: SessionState::Disconnected, disconnected_at: Some(now), ..s },
                ),
                None => final(self)@ == old(self)@,
            },
            forall|q: u64| q != id.0 ==> #[trigger] session_get(final(self)@, q) == session_get(old(self)@, q),
            final(self)@.len() == old(self)@.len(),
    {
        match self.position(id) {
            Some(i) => {
                let mut s = self.sessions[i].copy();
                s.state = SessionState::Disconnected;
                s.transport.disconnected_at = Some(now);
                self.replace_at(i, s);
            },
            None => {},
        }
    }

    /// Records that the session was heard from at `now`.
    pub fn touch(&mut self, id: SessionId, now: u64)
        requires
            old(self).wf(),
        ensures
            final(self).wf(),
            final(self).counter() == old(self).counter(),
            match session_get(old(self)@, id.0) {
                Some(s) => session_get(final(self)@, id.0) == Some(
                    SessionView { heartbeat: HeartbeatState::Alive, last_seen_at: now, ..s },
                ),
                None => final(self)@ == old(self)@,
            },
            forall|q: u64| q != id.0 ==> #[trigger] session_get(final(self)@, q) == session_get(old(self)@, q),
            final(self)@.len() == old(self)@.len(),
    {
        match self.position(id) {
            Some(i) => {
                let mut s = self.sessions[i].copy();
                s.heartbeat = HeartbeatState::Alive;
                s.last_seen_at = now;
                self.replace_at(i, s);
            },
            None => {},
        }
    }

    /// Removes the sessions that have been disconnected for at least `ttl`
    /// at `now`, and returns their ids.
    pub fn reap_disconnected(&mut self, ttl: u64, now: u64) -> (r: Vec<SessionId>)
        requires
            old(self).wf(),
        ensures
            final(self).wf(),
            final(self).counter() == old(self).counter(),
            final(self)@ == unexpired(old(self)@, ttl, now),
            r@.map_values(|id: SessionId| id.0) == expired_ids(old(self)@, ttl, now),
    {
        let ghost v = self@;
        let mut kept: Vec<Session> = Vec::new();
        let mut gone: Vec<SessionId> = Vec::new();
        let mut i: usize = 0;
        assert(v.subrange(0, 0) =~= Seq::<SessionView>::empty());
        while i < self.sessions.len()
            invariant
                i <= self.sessions.len(),
                v == session_views(self.sessions@),
                session_views(kept@) == unexpired(v.subrange(0, i as int), ttl, now),
                gone@.map_values(|id: SessionId| id.0) == expired_ids(v.subrange(0, i as int), ttl, now),
                session_ids_distinct(v),
            decreases self.sessions.len() - i,
        {
            proof {
                lemma_views_prefix(self.sessions@, i + 1);
            }
            let s = &self.sessions[i];
            let is_expired = match s.state {
                SessionState::Disconnected => match s.transport.disconnected_at {
                    Some(t) => t <= now && now - t >= ttl,
                    None => false,
                },
                SessionState::Connected => false,
            };
            if is_expired {
                let ghost g0 = gone@;
                gone.push(s.id);
                assert(gone@.map_values(|id: SessionId| id.0) =~= g0.map_values(|id: SessionId| id.0).push(s.id.0));
            } else {
                let ghost k0 = kept@;
                kept.push(s.copy());
                assert(session_views(kept@) =~= session_views(k0).push(v[i as int]));
            }
            i = i + 1;
        }
        assert(v.subrange(0, v.len() as int) =~= v);
        proof {
            lemma_unexpired_distinct(v, ttl, now);
        }
        self.sessions = kept;
        gone
    }

    /// How many sessions are connected.
    pub fn connected_count(&self) -> (r: usize)
        ensures
            r == connected_in(self@),
    {
        let ghost v = self@;
        let mut n: usize = 0;
        let mut i: usize = 0;
        assert(v.subrange(0, 0) =~= Seq::<SessionView>::empty());
        while i < self.sessions.len()
            invariant
                i <= self.sessions.len(),
                v == session_views(self.sessions@),
                n == connected_in(v.subrange(0, i as int)),
                n <= i,
            decreases self.sessions.len() - i,
        {
            proof {
                lemma_views_prefix(self.sessions@, i + 1);
            }
            if self.sessions[i].state == SessionState::Connected {
                n = n + 1;
            }
            i = i + 1;
        }
        assert(v.subrange(0, v.len() as int) =~= v);
        n
    }

    /// How many sessions are known.
    pub fn count(&self) -> (r: usize)
        ensures
            r == self@.len(),
    {
        self.sessions.len()
    }

    /// All known sessions, in registration order.
    pub fn list(&self) -> (r: Vec<Session>)
        ensures
            session_views(r@) == self@,
    {
        let mut r: Vec<Session> = Vec::new();
        let mut i: usize = 0;
        while i < self.sessions.len()
            invariant
                i <= self.sessions.len(),
                r@.len() == i,
                forall|j: int| 0 <= j < i ==> #[trigger] r@[j]@ == self.sessions@[j]@,
            decreases self.sessions.len() - i,
        {
            r.push(self.sessions[i].copy());
            i = i + 1;
        }
        assert(session_views(r@) =~= self@);
        r
    }

    /// The session with the given id.
    pub fn get(&self, id: SessionId) -> (r: Option<Session>)
        ensures
            match r {
                Some(s) => session_get(self@, id.0) == Some(s@),
                None => session_get(self@, id.0) is None,
            },
    {
        match self.position(id) {
            Some(i) => Some(self.sessions[i].copy()),
            None => None,
        }
    }
}

impl Default for SessionManager {
    fn default() -> (r: Self)
        ensures
            r@ == Seq::<SessionView>::empty(),
            r.counter() == 0,
            r.wf(),
    {
        SessionManager::new()
    }
}

/// With distinct ids, updating the entry of one id leaves every other id's
/// session as it was.
proof fn lemma_session_get_update(s: Seq<SessionView>, i: int, v: SessionView)
    requires
        session_ids_distinct(s),
        0 <= i < s.len(),
        s[i].id == v.id,
    ensures
        session_ids_distinct(s.update(i, v)),
        session_get(s.update(i, v), v.id) == Some(v),
        forall|q: u64| q != v.id ==> #[trigger] session_get(s.update(i, v), q) == session_get(s, q),
    decreases s.len(),
{
    let t = s.update(i, v);
    assert forall|a: int, b: int| 0 <= a < t.len() && 0 <= b < t.len() && a != b implies #[trigger] t[a].id != #[trigger] t[b].id by {
        assert(t[a].id == s[a].id && t[b].id == s[b].id);
    }
    if i == s.len() - 1 {
        assert(t.drop_last() =~= s.drop_last());
        assert(t.last() == v);
    } else {
        let d = s.drop_last();
        assert(t.drop_last() =~= d.update(i, v));
        assert forall|a: int, b: int| 0 <= a < d.len() && 0 <= b < d.len() && a != b implies #[trigger] d[a].id != #[trigger] d[b].id by {
            assert(d[a] == s[a] && d[b] == s[b]);
        }
        lemma_session_get_update(d, i, v);
        assert(s.last().id != v.id) by {
            assert(s[s.len() - 1].id != s[i].id);
        }
        assert(t.last() == s.last());
        assert forall|q: u64| q != v.id implies #[trigger] session_get(t, q) == session_get(s, q) by {
            assert(session_get(t.drop_last(), q) == session_get(d, q));
        }
    }
}

proof fn lemma_unexpired_distinct(s: Seq<SessionView>, ttl: u64, now: u64)
    requires
        session_ids_distinct(s),
    ensures
        session_ids_distinct(unexpired(s, ttl, now)),
        forall|x: SessionView| #[trigger] unexpired(s, ttl, now).contains(x) ==> s.contains(x),
    decreases s.len(),
{
    if s.len() > 0 {
        let d = s.drop_last();
        assert forall|a: int, b: int| 0 <= a < d.len() && 0 <= b < d.len() && a != b implies #[trigger] d[a].id != #[trigger] d[b].id by {
            assert(d[a] == s[a] && d[b] == s[b]);
        }
        lemma_unexpired_distinct(d, ttl, now);
        let ud = unexpired(d, ttl, now);
        assert forall|x: SessionView| #[trigger] ud.contains(x) implies s.contains(x) && x.id != s.last().id by {
            assert(d.contains(x));
            let j = choose|j: int| 0 <= j < d.len() && d[j] == x;
            assert(s[j] == x);
            assert(s[j].id != s[s.len() - 1].id);
        }
        if !expired(s.last(), ttl, now) {
            let u = ud.push(s.last());
            assert forall|a: int, b: int| 0 <= a < u.len() && 0 <= b < u.len() && a != b implies #[trigger] u[a].id != #[trigger] u[b].id by {
                if a < ud.len() && b < ud.len() {
                    assert(u[a] == ud[a] && u[b] == ud[b]);
                } else if a < ud.len() {
                    assert(ud.contains(ud[a]));
                    assert(u[a] == ud[a]);
                } else {
                    assert(ud.contains(ud[b]));
                    assert(u[b] == ud[b]);
                }
            }
            assert forall|x: SessionView| #[trigger] u.contains(x) implies s.contains(x) by {
                let j = choose|j: int| 0 <= j < u.len() && u[j] == x;
                if j < ud.len() {
                    assert(ud[j] == x);
                    assert(ud.contains(x));
                } else {
                    assert(s[s.len() - 1] == x);
                }
            }
        }
    }
}

} // verus!
