//! The live sessions of a server, one per session id, with a limit on how
//! many one user may hold.

use vstd::prelude::*;
use crate::text::string_eq;
use crate::live::error::LiveError;
use crate::live::session::{elapsed_since, now_nanos, LiveSession};
use crate::scheduler::schedule::MAX_INSTANT;
use crate::runtime::ids::{SessionId, UserId};

verus! {

/// How many of `ss` belong to `u`.
pub open spec fn user_count(ss: Seq<LiveSession>, u: UserId) -> nat
    decreases ss.len(),
{
    if ss.len() == 0 {
        0
    } else {
        user_count(ss.drop_last(), u) + if ss.last().user_id == Some(u) {
            1nat
        } else {
            0nat
        }
    }
}

/// The index of the session of `ss` with id `id`, if any.
pub open spec fn index_of(ss: Seq<LiveSession>, id: Seq<char>) -> Option<int> {
    if exists|i: int| 0 <= i < ss.len() && #[trigger] ss[i].id.0@ == id {
        Some(choose|i: int| 0 <= i < ss.len() && #[trigger] ss[i].id.0@ == id)
    } else {
        None
    }
}

/// No two sessions of `ss` share an id.
pub open spec fn distinct_ids(ss: Seq<LiveSession>) -> bool {
    forall|i: int, j: int| 0 <= i < ss.len() && 0 <= j < ss.len() && i != j ==> #[trigger] ss[i].id.0@ != #[trigger] ss[j].id.0@
}

/// `ss` after storing `s` under its id: it takes the place of the session
/// with that id, or comes last.
pub open spec fn stored(ss: Seq<LiveSession>, s: LiveSession) -> Seq<LiveSession> {
    match index_of(ss, s.id.0@) {
        Some(i) => ss.update(i, s),
        None => ss.push(s),
    }
}

/// The sessions of `ss`, in order, that are not expired at `now`.
pub open spec fn unexpired(ss: Seq<LiveSession>, now: i128, timeout: u128) -> Seq<LiveSession>
    decreases ss.len(),
{
    if ss.len() == 0 {
        seq![]
    } else {
        let rest = unexpired(ss.drop_last(), now, timeout);
        if elapsed_since(ss.last().last_event_at, now) > timeout {
            rest
        } else {
            rest.push(ss.last())
        }
    }
}

proof fn lemma_unexpired_len(ss: Seq<LiveSession>, now: i128, timeout: u128)
    ensures
        unexpired(ss, now, timeout).len() <= ss.len(),
        forall|k: int| 0 <= k < unexpired(ss, now, timeout).len() ==> exists|i: int| 0 <= i < ss.len() && #[trigger] unexpired(ss, now, timeout)[k] == ss[i],
    decreases ss.len(),
{
    if ss.len() > 0 {
        lemma_unexpired_len(ss.drop_last(), now, timeout);
        let rest = unexpired(ss.drop_last(), now, timeout);
        assert forall|k: int| 0 <= k < unexpired(ss, now, timeout).len() implies exists|i: int| 0 <= i < ss.len() && #[trigger] unexpired(ss, now, timeout)[k] == ss[i] by {
            if k < rest.len() {
                let i = choose|i: int| 0 <= i < ss.drop_last().len() && #[trigger] rest[k] == ss.drop_last()[i];
                assert(ss[i] == ss.drop_last()[i]);
            } else {
                assert(unexpired(ss, now, timeout)[k] == ss[ss.len() - 1]);
            }
        }
    }
}

proof fn lemma_unexpired_distinct(ss: Seq<LiveSession>, now: i128, timeout: u128)
    requires
        distinct_ids(ss),
    ensures
        distinct_ids(unexpired(ss, now, timeout)),
    decreases ss.len(),
{
    if ss.len() > 0 {
        let d = ss.drop_last();
        assert(distinct_ids(d)) by {
            assert forall|a: int, b: int| 0 <= a < d.len() && 0 <= b < d.len() && a != b implies #[trigger] d[a].id.0@ != #[trigger] d[b].id.0@ by {
                assert(d[a] == ss[a] && d[b] == ss[b]);
            }
        }
        lemma_unexpired_distinct(d, now, timeout);
        lemma_unexpired_len(d, now, timeout);
        let rest = unexpired(d, now, timeout);
        let u = unexpired(ss, now, timeout);
        if u.len() > rest.len() {
            assert forall|a: int, b: int| 0 <= a < u.len() && 0 <= b < u.len() && a != b implies #[trigger] u[a].id.0@ != #[trigger] u[b].id.0@ by {
                if a < rest.len() && b < rest.len() {
                    assert(u[a] == rest[a] && u[b] == rest[b]);
                } else if a < rest.len() {
                    let i = choose|i: int| 0 <= i < d.len() && #[trigger] rest[a] == d[i];
                    assert(u[a] == ss[i]);
                    assert(u[b] == ss[ss.len() - 1]);
                } else {
                    let i = choose|i: int| 0 <= i < d.len() && #[trigger] rest[b] == d[i];
                    assert(u[b] == ss[i]);
                    assert(u[a] == ss[ss.len() - 1]);
                }
            }
        }
    }
}

/// The sessions of a server.
pub struct SessionManager {
    sessions: Vec<LiveSession>,
    max_sessions_per_user: usize,
}

impl SessionManager {
    /// The sessions, in the order they were first stored.
    pub closed spec fn sessions(&self) -> Seq<LiveSession> {
        self.sessions@
    }

    /// How many sessions one user may hold.
    pub closed spec fn max_per_user(&self) -> usize {
        self.max_sessions_per_user
    }

    /// No two sessions share an id.
    #[verifier::type_invariant]
    spec fn ids_unique(self) -> bool {
        distinct_ids(self.sessions@)
    }

    /// No sessions yet; a user may hold up to `max_sessions_per_user`.
    pub fn new(max_sessions_per_user: usize) -> (r: Self)
        ensures
            r.sessions() == Seq::<LiveSession>::empty(),
            r.max_per_user() == max_sessions_per_user,
    {
        SessionManager { sessions: Vec::new(), max_sessions_per_user }
    }

    fn find(&self, id: &SessionId) -> (r: Option<usize>)
        ensures
            match r {
                Some(i) => i < self.sessions().len() && index_of(self.sessions(), id.0@) == Some(i as int),
                None => index_of(self.sessions(), id.0@) is None,
            },
    {
        proof {
            use_type_invariant(self);
        }
        let mut i: usize = 0;
        while i < self.sessions.len()
            invariant
                i <= self.sessions@.len(),
                distinct_ids(self.sessions@),
                forall|j: int| 0 <= j < i ==> #[trigger] self.sessions@[j].id.0@ != id.0@,
            decreases self.sessions@.len() - i,
        {
            if string_eq(&self.sessions[i].id.0, &id.0) {
                proof {
                    let ss = self.sessions@;
                    assert(ss[i as int].id.0@ == id.0@);
                    let k = choose|k: int| 0 <= k < ss.len() && #[trigger] ss[k].id.0@ == id.0@;
                    if k != i {
                        assert(ss[k].id.0@ != ss[i as int].id.0@);
                    }
                }
                return Some(i);
            }
            i += 1;
        }
        None
    }

    fn count_user(&self, u: UserId) -> (r: usize)
        ensures
            r == user_count(self.sessions(), u),
    {
        let mut n: usize = 0;
        let mut i: usize = 0;
        while i < self.sessions.len()
            invariant
                i <= self.sessions@.len(),
                n == user_count(self.sessions@.take(i as int), u),
                n <= i,
            decreases self.sessions@.len() - i,
        {
            proof {
                assert(self.sessions@.take(i + 1).drop_last() =~= self.sessions@.take(i as int));
            }
            let mine = match self.sessions[i].user_id {
                Some(v) => v.0 == u.0,
                None => false,
            };
            if mine {
                n += 1;
            }
            i += 1;
        }
        proof {
            assert(self.sessions@.take(self.sessions@.len() as int) =~= self.sessions@);
        }
        n
    }

    /// Stores `session` under its id, replacing any session with that id,
    /// with no check of the per-user limit.
    pub fn put(&mut self, session: LiveSession)
        ensures
            distinct_ids(final(self).sessions()),
            final(self).sessions() == stored(old(self).sessions(), session),
            final(self).max_per_user() == old(self).max_per_user(),
    {
        proof {
            use_type_invariant(&*self);
        }
        let found = self.find(&session.id);
        let mut v: Vec<LiveSession> = Vec::new();
        std::mem::swap(&mut v, &mut self.sessions);
        match found {
            Some(i) => {
                v.set(i, session);
                proof {
                    let ss = v@;
                    assert forall|a: int, b: int| 0 <= a < ss.len() && 0 <= b < ss.len() && a != b implies #[trigger] ss[a].id.0@ != #[trigger] ss[b].id.0@ by {
                        let o = old(self).sessions@;
                        if a == i {
                            assert(ss[a].id.0@ == o[a].id.0@);
                        }
                        if b == i {
                            assert(ss[b].id.0@ == o[b].id.0@);
                        }
                    }
                }
            },
            None => {
                v.push(session);
                proof {
                    let ss = v@;
                    let o = old(self).sessions@;
                    assert forall|a: int, b: int| 0 <= a < ss.len() && 0 <= b < ss.len() && a != b implies #[trigger] ss[a].id.0@ != #[trigger] ss[b].id.0@ by {
                        if a == o.len() {
                            assert(ss[b] == o[b]);
                        } else if b == o.len() {
                            assert(ss[a] == o[a]);
                        } else {
                            assert(ss[a] == o[a] && ss[b] == o[b]);
                        }
                    }
                }
            },
        }
        self.sessions = v;
    }

    /// Adds `session`, unless its user already holds as many sessions as
    /// allowed (`MaxSessionsExceeded`, nothing changed). A session with the
    /// id of a stored one replaces it.
    pub fn add(&mut self, session: LiveSession) -> (r: Result<(), LiveError>)
        ensures
            distinct_ids(final(self).sessions()),
            final(self).max_per_user() == old(self).max_per_user(),
            match session.user_id {
                Some(u) if user_count(old(self).sessions(), u) >= old(self).max_per_user() => r matches Err(
                    LiveError::MaxSessionsExceeded,
                ) && final(self).sessions() == old(self).sessions(),
                _ => r is Ok && final(self).sessions() == stored(old(self).sessions(), session),
            },
    {
        proof {
            use_type_invariant(&*self);
        }
        if let Some(u) = session.user_id {
            if self.count_user(u) >= self.max_sessions_per_user {
                return Err(LiveError::MaxSessionsExceeded);
            }
        }
        self.put(session);
        Ok(())
    }

    /// Takes the session with id `id` out, or `SessionNotFound` naming the
    /// id.
    pub fn take(&mut self, id: &SessionId) -> (r: Result<LiveSession, LiveError>)
        ensures
            distinct_ids(final(self).sessions()),
            final(self).max_per_user() == old(self).max_per_user(),
            match index_of(old(self).sessions(), id.0@) {
                Some(i) => r == Ok::<LiveSession, LiveError>(old(self).sessions()[i]) && final(self).sessions()
                    == old(self).sessions().remove(i),
                None => (r matches Err(LiveError::SessionNotFound(m)) && m@ == id.0@) && final(self).sessions()
                    == old(self).sessions(),
            },
    {
        proof {
            use_type_invariant(&*self);
        }
        match self.find(id) {
            Some(i) => {
                let mut v: Vec<LiveSession> = Vec::new();
                std::mem::swap(&mut v, &mut self.sessions);
                let s = v.remove(i);
                proof {
                    let ss = v@;
                    let o = old(self).sessions@;
                    assert forall|a: int, b: int| 0 <= a < ss.len() && 0 <= b < ss.len() && a != b implies #[trigger] ss[a].id.0@ != #[trigger] ss[b].id.0@ by {
                        let a2 = if a < i { a } else { a + 1 };
                        let b2 = if b < i { b } else { b + 1 };
                        assert(ss[a] == o[a2] && ss[b] == o[b2]);
                    }
                }
                self.sessions = v;
                Ok(s)
            },
            None => Err(LiveError::SessionNotFound(id.0.clone())),
        }
    }

    /// Removes and returns the session with id `id`, if there is one.
    pub fn remove(&mut self, id: &SessionId) -> (r: Option<LiveSession>)
        ensures
            distinct_ids(final(self).sessions()),
            final(self).max_per_user() == old(self).max_per_user(),
            match index_of(old(self).sessions(), id.0@) {
                Some(i) => r == Some(old(self).sessions()[i]) && final(self).sessions() == old(self).sessions().remove(i),
                None => r is None && final(self).sessions() == old(self).sessions(),
            },
    {
        match self.take(id) {
            Ok(s) => Some(s),
            Err(_) => None,
        }
    }

    /// How many sessions there are.
    pub fn count(&self) -> (r: usize)
        ensures
            r == self.sessions().len(),
    {
        self.sessions.len()
    }

    /// How many sessions belong to `user_id`.
    pub fn count_for_user(&self, user_id: &UserId) -> (r: usize)
        ensures
            r == user_count(self.sessions(), *user_id),
    {
        self.count_user(*user_id)
    }

    /// Whether a session with id `id` is stored.
    pub fn has(&self, id: &SessionId) -> (r: bool)
        ensures
            r == (index_of(self.sessions(), id.0@) is Some),
    {
        self.find(id).is_some()
    }

    /// Removes every session that had no event within `timeout` nanoseconds
    /// before `now`; the rest keep their order. Returns how many went.
    pub fn cleanup_expired_at(&mut self, now: i128, timeout: u128) -> (r: usize)
        ensures
            distinct_ids(final(self).sessions()),
            final(self).max_per_user() == old(self).max_per_user(),
            final(self).sessions() == unexpired(old(self).sessions(), now, timeout),
            r == old(self).sessions().len() - final(self).sessions().len(),
    {
        proof {
            use_type_invariant(&*self);
        }
        let mut old_sessions: Vec<LiveSession> = Vec::new();
        std::mem::swap(&mut old_sessions, &mut self.sessions);
        let ghost o = old_sessions@;
        let n = old_sessions.len();
        let mut kept: Vec<LiveSession> = Vec::new();
        let mut rest = old_sessions;
        proof {
            assert(o.take(0) =~= Seq::<LiveSession>::empty());
            assert(o.skip(0) =~= o);
        }
        let mut i: usize = 0;
        while i < n
            invariant
                n == o.len(),
                i <= n,
                rest@ == o.skip(i as int),
                kept@ == unexpired(o.take(i as int), now, timeout),
            decreases n - i,
        {
            let s = rest.remove(0);
            proof {
                assert(s == o[i as int]);
                assert(o.take(i + 1).drop_last() =~= o.take(i as int));
                assert(o.take(i + 1).last() == o[i as int]);
                assert(rest@ =~= o.skip(i + 1));
            }
            if !s.is_expired_at(now, timeout) {
                kept.push(s);
            }
            i += 1;
        }
        proof {
            assert(o.take(n as int) =~= o);
            lemma_unexpired_len(o, now, timeout);
            lemma_unexpired_distinct(o, now, timeout);
        }
        let removed = n - kept.len();
        self.sessions = kept;
        removed
    }

    /// Removes every session that had no event within `timeout` nanoseconds
    /// (see `cleanup_expired_at`), as of the current time.
    pub fn cleanup_expired(&mut self, timeout: u128) -> (r: usize)
        ensures
            distinct_ids(final(self).sessions()),
            final(self).max_per_user() == old(self).max_per_user(),
            exists|now: i128| 0 <= now <= MAX_INSTANT && final(self).sessions() == unexpired(old(self).sessions(), now, timeout),
            r == old(self).sessions().len() - final(self).sessions().len(),
    {
        let now = now_nanos();
        self.cleanup_expired_at(now, timeout)
    }
}

proof fn lemma_user_count_update(ss: Seq<LiveSession>, i: int, s: LiveSession, u: UserId)
    requires
        0 <= i < ss.len(),
    ensures
        user_count(ss.update(i, s), u) + (if ss[i].user_id == Some(u) { 1int } else { 0int }) == user_count(ss, u) + (
        if s.user_id == Some(u) {
            1int
        } else {
            0int
        }),
    decreases ss.len(),
{
    let t = ss.update(i, s);
    if i == ss.len() - 1 {
        assert(t.drop_last() =~= ss.drop_last());
    } else {
        lemma_user_count_update(ss.drop_last(), i, s, u);
        assert(t.drop_last() =~= ss.drop_last().update(i, s));
        assert(t.last() == ss.last());
    }
}

/// Storing a session never takes a user past the limit: when `u` holds at
/// most `max` sessions before, and fewer than `max` if the new session is
/// theirs, `u` holds at most `max` after. So sessions added with `add`
/// never exceed the limit.
pub proof fn law_add_keeps_user_limit(ss: Seq<LiveSession>, s: LiveSession, max: nat, u: UserId)
    requires
        user_count(ss, u) <= max,
        s.user_id == Some(u) ==> user_count(ss, u) < max,
    ensures
        user_count(stored(ss, s), u) <= max,
{
    match index_of(ss, s.id.0@) {
        Some(i) => {
            lemma_user_count_update(ss, i, s, u);
        },
        None => {
            assert(ss.push(s).drop_last() =~= ss);
        },
    }
}

} // verus!
