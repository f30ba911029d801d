//! The session-affinity table: one entry per `(client, endpoint)` pair,
//! holding the upstream socket and the time it was last used. Idle entries
//! are reaped after the session TTL; a cap on the number of sessions bounds
//! memory.

use vstd::prelude::*;

use crate::endpoint::EndpointAddress;

verus! {

/// What a session is keyed by.
#[derive(Clone, Copy, Debug, PartialEq, Eq, Structural, Hash)]
pub struct SessionKey {
    pub client: EndpointAddress,
    pub endpoint: EndpointAddress,
}

/// One live session: its key, the local port of its upstream socket, and
/// when it was last used (milliseconds on a monotonic clock).
#[derive(Clone, Copy, Debug, PartialEq, Eq, Structural)]
pub struct Session {
    pub key: SessionKey,
    pub socket: u16,
    pub last_used: u64,
}

/// Why a session operation failed; none of these is fatal to the proxy.
#[derive(Clone, Copy, Debug, PartialEq, Eq, Structural)]
pub enum SessionError {
    Create,
    Send,
    Expired,
    LimitExceeded,
}

/// Every key occurs at most once.
pub open spec fn session_keys_unique(s: Seq<Session>) -> bool {
    forall|i: int, j: int| 0 <= i < j < s.len() ==> s[i].key != s[j].key
}

/// The first session with the given key, if any.
pub open spec fn find_session(s: Seq<Session>, key: SessionKey) -> Option<Session>
    decreases s.len(),
{
    if s.len() == 0 {
        None
    } else if s[0].key == key {
        Some(s[0])
    } else {
        find_session(s.drop_first(), key)
    }
}

/// Whether a session last used at `last_used` is still live at `now` under
/// the given TTL. A session from the future is live.
pub open spec fn session_live(last_used: u64, now: u64, ttl: u64) -> bool {
    now <= last_used + ttl
}

/// What the table looks like after reaping at time `now`: exactly the live
/// sessions remain, in order.
pub open spec fn reap_spec(s: Seq<Session>, now: u64, ttl: u64) -> Seq<Session> {
    s.filter(|e: Session| session_live(e.last_used, now, ttl))
}

/// The per-`(client, endpoint)` session table.
pub struct SessionMap {
    pub sessions: Vec<Session>,
    /// How long an unused session stays, in milliseconds.
    pub session_ttl: u64,
    /// The largest number of sessions kept at once.
    pub max_sessions: usize,
}

impl SessionMap {
    pub open spec fn wf(self) -> bool {
        session_keys_unique(self.sessions@)
    }

    /// An empty table with the given TTL and session cap.
    pub fn new(session_ttl: u64, max_sessions: usize) -> (r: SessionMap)
        ensures
            r.wf(),
            r.sessions@.len() == 0,
            r.session_ttl == session_ttl,
            r.max_sessions == max_sessions,
    {
        SessionMap { sessions: Vec::new(), session_ttl, max_sessions }
    }

    /// Which slot holds the key, if any.
    fn find_index(&self, key: SessionKey) -> (r: Option<usize>)
        requires
            self.wf(),
        ensures
            match r {
                Some(i) => i < self.sessions@.len() && self.sessions@[i as int].key == key
                    && find_session(self.sessions@, key) == Some(self.sessions@[i as int]),
                None => find_session(self.sessions@, key) is None,
            },
    {
        let n = self.sessions.len();
        let mut i: usize = 0;
        while i < n
            invariant
                0 <= i <= n,
                n == self.sessions@.len(),
                self.wf(),
                forall|j: int| 0 <= j < i ==> (#[trigger] self.sessions@[j]).key != key,
            decreases n - i,
        {
            if self.sessions[i].key == key {
                proof {
                    lemma_find_session_at(self.sessions@, i as int);
                }
                return Some(i);
            }
            i = i + 1;
        }
        proof {
            lemma_find_session_absent(self.sessions@, key);
        }
        None
    }

    /// Returns the session for the key, creating one on the upstream socket
    /// `fresh_socket` iff absent; either way the entry is marked used at
    /// `now`. The second component tells whether it was created. With the
    /// table full, datagrams for absent sessions are refused.
    pub fn get_or_create(&mut self, key: SessionKey, now: u64, fresh_socket: u16) -> (r: Result<
        (u16, bool),
        SessionError,
    >)
        requires
            old(self).wf(),
        ensures
            final(self).wf(),
            final(self).session_ttl == old(self).session_ttl,
            final(self).max_sessions == old(self).max_sessions,
            match find_session(old(self).sessions@, key) {
                Some(s) => {
                    &&& r == Ok::<(u16, bool), SessionError>((s.socket, false))
                    &&& find_session(final(self).sessions@, key) == Some(
                        Session { key, socket: s.socket, last_used: now },
                    )
                    &&& forall|k: SessionKey|
                        k != key ==> find_session(final(self).sessions@, k) == find_session(
                            old(self).sessions@,
                            k,
                        )
                },
                None => {
                    if old(self).sessions@.len() >= old(self).max_sessions {
                        &&& r == Err::<(u16, bool), SessionError>(SessionError::LimitExceeded)
                        &&& final(self).sessions@ == old(self).sessions@
                    } else {
                        &&& r == Ok::<(u16, bool), SessionError>((fresh_socket, true))
                        &&& final(self).sessions@ == old(self).sessions@.push(
                            Session { key, socket: fresh_socket, last_used: now },
                        )
                    }
                },
            },
    {
        let ghost pre = self.sessions@;
        match self.find_index(key) {
            Some(i) => {
                let socket = self.sessions[i].socket;
                self.sessions[i] = Session { key, socket, last_used: now };
                proof {
                    lemma_find_session_update(pre, i as int, self.sessions@[i as int]);
                    lemma_find_session_at(self.sessions@, i as int);
                }
                Ok((socket, false))
            },
            None => {
                if self.sessions.len() >= self.max_sessions {
                    Err(SessionError::LimitExceeded)
                } else {
                    let entry = Session { key, socket: fresh_socket, last_used: now };
                    proof {
                        lemma_find_session_absent_keys(pre, key);
                    }
                    self.sessions.push(entry);
                    Ok((fresh_socket, true))
                }
            },
        }
    }

    /// Marks the session as used at `now`, if it exists.
    pub fn touch(&mut self, key: SessionKey, now: u64)
        requires
            old(self).wf(),
        ensures
            final(self).wf(),
            final(self).session_ttl == old(self).session_ttl,
            final(self).max_sessions == old(self).max_sessions,
            match find_session(old(self).sessions@, key) {
                Some(s) => {
                    &&& find_session(final(self).sessions@, key) == Some(
                        Session { key, socket: s.socket, last_used: now },
                    )
                    &&& forall|k: SessionKey|
                        k != key ==> find_session(final(self).sessions@, k) == find_session(
                            old(self).sessions@,
                            k,
                        )
                },
                None => final(self).sessions@ == old(self).sessions@,
            },
    {
        let ghost pre = self.sessions@;
        match self.find_index(key) {
            Some(i) => {
                let socket = self.sessions[i].socket;
                self.sessions[i] = Session { key, socket, last_used: now };
                proof {
                    lemma_find_session_update(pre, i as int, self.sessions@[i as int]);
                    lemma_find_session_at(self.sessions@, i as int);
                }
            },
            None => {},
        }
    }

    /// Removes every session idle longer than the TTL; the reader of a
    /// removed session is signalled and its socket closed by the caller.
    pub fn reap(&mut self, now: u64)
        requires
            old(self).wf(),
        ensures
            final(self).wf(),
            final(self).session_ttl == old(self).session_ttl,
            final(self).max_sessions == old(self).max_sessions,
            final(self).sessions@ == reap_spec(old(self).sessions@, now, old(self).session_ttl),
    {
        let ghost pre = self.sessions@;
        let ghost keep = |e: Session| session_live(e.last_used, now, self.session_ttl);
        let n = self.sessions.len();
        let mut kept: Vec<Session> = Vec::new();
        let mut i: usize = 0;
        while i < n
            invariant
                0 <= i <= n,
                n == pre.len(),
                self.sessions@ == pre,
                self.wf(),
                keep == (|e: Session| session_live(e.last_used, now, self.session_ttl)),
                kept@ == pre.subrange(0, i as int).filter(keep),
            decreases n - i,
        {
            let ghost before = pre.subrange(0, i as int);
            let s = self.sessions[i];
            let live = now <= u64_saturating_add(s.last_used, self.session_ttl);
            proof {
                reveal(Seq::filter);
                let after = pre.subrange(0, i as int + 1);
                assert(after.drop_last() =~= before);
                assert(after.last() == pre[i as int]);
                assert(live == keep(pre[i as int]));
            }
            if live {
                kept.push(s);
            }
            proof {
                assert(kept@ =~= pre.subrange(0, i as int + 1).filter(keep));
            }
            i = i + 1;
        }
        proof {
            assert(pre.subrange(0, n as int) =~= pre);
            lemma_filter_keys_unique(pre, keep);
        }
        self.sessions = kept;
    }

    /// How many sessions are live right now.
    pub fn len(&self) -> (r: usize)
        ensures
            r == self.sessions@.len(),
    {
        self.sessions.len()
    }
}

/// `a + b`, capped at the largest `u64`.
fn u64_saturating_add(a: u64, b: u64) -> (r: u64)
    ensures
        r == if a + b <= u64::MAX {
            a + b
        } else {
            u64::MAX as int
        },
{
    if a <= u64::MAX - b {
        a + b
    } else {
        u64::MAX
    }
}

/// Finding the key of slot `i` finds slot `i`, when keys are unique.
proof fn lemma_find_session_at(s: Seq<Session>, i: int)
    requires
        session_keys_unique(s),
        0 <= i < s.len(),
    ensures
        find_session(s, s[i].key) == Some(s[i]),
    decreases s.len(),
{
    if i > 0 {
        lemma_find_session_at(s.drop_first(), i - 1);
        assert(s.drop_first()[i - 1] == s[i]);
    }
}

/// A key no slot holds is not found.
proof fn lemma_find_session_absent(s: Seq<Session>, key: SessionKey)
    requires
        forall|j: int| 0 <= j < s.len() ==> (#[trigger] s[j]).key != key,
    ensures
        find_session(s, key) is None,
    decreases s.len(),
{
    if s.len() > 0 {
        lemma_find_session_absent(s.drop_first(), key);
    }
}

/// When a key is not found, pushing a session with it keeps keys unique and
/// leaves other keys' lookups alone.
proof fn lemma_find_session_absent_keys(s: Seq<Session>, key: SessionKey)
    requires
        session_keys_unique(s),
        find_session(s, key) is None,
    ensures
        forall|j: int| 0 <= j < s.len() ==> (#[trigger] s[j]).key != key,
        forall|e: Session|
            e.key == key ==> session_keys_unique(#[trigger] s.push(e)) && find_session(
                s.push(e),
                key,
            ) == Some(e) && (forall|k: SessionKey|
                k != key ==> find_session(s.push(e), k) == find_session(s, k)),
    decreases s.len(),
{
    if s.len() > 0 {
        lemma_find_session_absent_keys(s.drop_first(), key);
    }
    assert forall|j: int| 0 <= j < s.len() implies (#[trigger] s[j]).key != key by {
        lemma_find_session_at(s, j);
    }
    assert forall|e: Session| e.key == key implies session_keys_unique(#[trigger] s.push(e))
        && find_session(s.push(e), key) == Some(e) && (forall|k: SessionKey|
        k != key ==> find_session(s.push(e), k) == find_session(s, k)) by {
        let t = s.push(e);
        assert forall|a: int, b: int| 0 <= a < b < t.len() implies t[a].key != t[b].key by {
            if b < s.len() {
                assert(t[a] == s[a] && t[b] == s[b]);
            } else {
                assert(t[a] == s[a] && t[b] == e);
            }
        }
        lemma_find_session_push(s, e);
    }
}

/// Pushing a fresh-keyed session adds exactly its key's lookup.
proof fn lemma_find_session_push(s: Seq<Session>, e: Session)
    requires
        forall|j: int| 0 <= j < s.len() ==> (#[trigger] s[j]).key != e.key,
    ensures
        find_session(s.push(e), e.key) == Some(e),
        forall|k: SessionKey| k != e.key ==> find_session(s.push(e), k) == find_session(s, k),
    decreases s.len(),
{
    let t = s.push(e);
    if s.len() == 0 {
        assert(t[0] == e);
        assert(t.drop_first() =~= Seq::<Session>::empty());
        assert forall|k: SessionKey| k != e.key implies find_session(t, k) == find_session(
            s,
            k,
        ) by {
            assert(find_session(t.drop_first(), k) is None);
        }
    } else {
        assert(t[0] == s[0]);
        assert(t.drop_first() =~= s.drop_first().push(e));
        lemma_find_session_push(s.drop_first(), e);
        assert forall|k: SessionKey| k != e.key implies find_session(t, k) == find_session(
            s,
            k,
        ) by {
            assert(find_session(t.drop_first(), k) == find_session(s.drop_first(), k));
        }
    }
}

/// Replacing slot `i` by a session with the same key changes only that
/// key's lookup.
proof fn lemma_find_session_update(s: Seq<Session>, i: int, e: Session)
    requires
        session_keys_unique(s),
        0 <= i < s.len(),
        e.key == s[i].key,
    ensures
        session_keys_unique(s.update(i, e)),
        find_session(s.update(i, e), e.key) == Some(e),
        forall|k: SessionKey| k != e.key ==> find_session(s.update(i, e), k) == find_session(s, k),
    decreases s.len(),
{
    let t = s.update(i, e);
    assert forall|a: int, b: int| 0 <= a < b < t.len() implies t[a].key != t[b].key by {
        assert(t[a].key == s[a].key && t[b].key == s[b].key);
    }
    if i == 0 {
        assert(t[0] == e);
        assert forall|k: SessionKey| k != e.key implies find_session(t, k) == find_session(
            s,
            k,
        ) by {
            assert(t.drop_first() =~= s.drop_first());
        }
    } else {
        assert(t[0] == s[0]);
        assert(t.drop_first() =~= s.drop_first().update(i - 1, e));
        lemma_find_session_update(s.drop_first(), i - 1, e);
        assert forall|k: SessionKey| k != e.key implies find_session(t, k) == find_session(
            s,
            k,
        ) by {
            assert(find_session(t.drop_first(), k) == find_session(s.drop_first(), k));
        }
    }
}

/// Filtering keeps keys unique, and a surviving key's session is unchanged.
proof fn lemma_filter_keys_unique(s: Seq<Session>, pred: spec_fn(Session) -> bool)
    requires
        session_keys_unique(s),
    ensures
        session_keys_unique(s.filter(pred)),
    decreases s.len(),
{
    reveal(Seq::filter);
    if s.len() > 0 {
        assert(session_keys_unique(s.drop_last()));
        lemma_filter_keys_unique(s.drop_last(), pred);
        let t = s.drop_last().filter(pred);
        if pred(s.last()) {
            let u = t.push(s.last());
            assert forall|a: int, b: int| 0 <= a < b < u.len() implies u[a].key != u[b].key by {
                if b < t.len() {
                } else {
                    assert(u[b] == s.last());
                    s.drop_last().lemma_filter_pred(pred, a);
                    lemma_filter_element_of(s.drop_last(), pred, a);
                }
            }
        }
    }
}

/// Every element of a filtered sequence occurs in the original.
proof fn lemma_filter_element_of(s: Seq<Session>, pred: spec_fn(Session) -> bool, i: int)
    requires
        0 <= i < s.filter(pred).len(),
    ensures
        exists|j: int| 0 <= j < s.len() && s[j] == #[trigger] s.filter(pred)[i],
    decreases s.len(),
{
    reveal(Seq::filter);
    if s.len() > 0 {
        let t = s.drop_last().filter(pred);
        if i < t.len() {
            lemma_filter_element_of(s.drop_last(), pred, i);
            let j = choose|j: int|
                0 <= j < s.drop_last().len() && s.drop_last()[j] == s.drop_last().filter(pred)[i];
            assert(s[j] == s.filter(pred)[i]);
        } else {
            assert(s.filter(pred)[i] == s.last());
            assert(s[s.len() - 1] == s.filter(pred)[i]);
        }
    }
}

/// Session affinity: a second datagram for the same key, arriving within the
/// TTL, finds the session the first datagram created or refreshed — even
/// when the reaper runs in between — so both use the same upstream socket.
pub proof fn lemma_session_affinity(
    s: Seq<Session>,
    ttl: u64,
    key: SessionKey,
    socket: u16,
    t1: u64,
    t2: u64,
)
    requires
        session_keys_unique(s),
        find_session(s, key) == Some(Session { key, socket, last_used: t1 }),
        t1 <= t2 <= t1 + ttl,
    ensures
        find_session(reap_spec(s, t2, ttl), key) == Some(
            Session { key, socket, last_used: t1 },
        ),
    decreases s.len(),
{
    reveal(Seq::filter);
    lemma_reap_keeps_live(s, ttl, key, Session { key, socket, last_used: t1 }, t2);
}

/// Session expiry: once a key has been idle longer than the TTL, the reaper
/// removes it, and the next datagram for it opens a fresh session on the
/// socket it is offered.
pub proof fn lemma_session_expiry(s: Seq<Session>, ttl: u64, key: SessionKey, t_last: u64, t2: u64)
    requires
        session_keys_unique(s),
        match find_session(s, key) {
            Some(e) => e.last_used <= t_last,
            None => true,
        },
        t2 > t_last + ttl,
    ensures
        find_session(reap_spec(s, t2, ttl), key) is None,
{
    lemma_reap_drops_expired(s, ttl, key, t_last, t2);
}

/// A live session for `key` survives reaping unchanged.
proof fn lemma_reap_keeps_live(s: Seq<Session>, ttl: u64, key: SessionKey, e: Session, now: u64)
    requires
        session_keys_unique(s),
        find_session(s, key) == Some(e),
        session_live(e.last_used, now, ttl),
    ensures
        find_session(reap_spec(s, now, ttl), key) == Some(e),
{
    let keep = |x: Session| session_live(x.last_used, now, ttl);
    lemma_filter_keys_unique(s, keep);
    lemma_find_in_filter(s, keep, key, e);
}

/// An expired (or absent) session for `key` does not survive reaping.
proof fn lemma_reap_drops_expired(s: Seq<Session>, ttl: u64, key: SessionKey, t_last: u64, now: u64)
    requires
        session_keys_unique(s),
        match find_session(s, key) {
            Some(e) => e.last_used <= t_last,
            None => true,
        },
        now > t_last + ttl,
    ensures
        find_session(reap_spec(s, now, ttl), key) is None,
{
    let keep = |x: Session| session_live(x.last_used, now, ttl);
    let t = s.filter(keep);
    assert forall|j: int| 0 <= j < t.len() implies (#[trigger] t[j]).key != key by {
        s.lemma_filter_pred(keep, j);
        lemma_filter_element_of(s, keep, j);
        let j0 = choose|j0: int| 0 <= j0 < s.len() && s[j0] == t[j];
        if t[j].key == key {
            lemma_find_session_at(s, j0);
        }
    }
    lemma_find_session_absent(t, key);
}

/// A session that is in the table and passes the filter is found in the
/// filtered table.
proof fn lemma_find_in_filter(
    s: Seq<Session>,
    pred: spec_fn(Session) -> bool,
    key: SessionKey,
    e: Session,
)
    requires
        session_keys_unique(s),
        find_session(s, key) == Some(e),
        pred(e),
    ensures
        find_session(s.filter(pred), key) == Some(e),
{
    let t = s.filter(pred);
    lemma_find_session_key(s, key);
    let j0 = lemma_find_session_index(s, key, e);
    s.lemma_filter_contains(pred, j0);
    let j = choose|j: int| 0 <= j < t.len() && t[j] == e;
    lemma_filter_keys_unique(s, pred);
    lemma_find_session_at(t, j);
}

/// A found session carries the key it was found by.
proof fn lemma_find_session_key(s: Seq<Session>, key: SessionKey)
    requires
        find_session(s, key) is Some,
    ensures
        find_session(s, key)->Some_0.key == key,
    decreases s.len(),
{
    if s.len() > 0 && s[0].key != key {
        lemma_find_session_key(s.drop_first(), key);
    }
}

/// The index a found session sits at.
proof fn lemma_find_session_index(s: Seq<Session>, key: SessionKey, e: Session) -> (j: int)
    requires
        find_session(s, key) == Some(e),
    ensures
        0 <= j < s.len() && s[j] == e,
    decreases s.len(),
{
    if s.len() > 0 && s[0].key == key {
        0
    } else {
        let j = lemma_find_session_index(s.drop_first(), key, e);
        assert(s.drop_first()[j] == s[j + 1]);
        j + 1
    }
}

} // verus!
