//! Coalescing: a key lets one event through, then suppresses repeats until
//! a window has passed since the last one let through. Times are in
//! nanoseconds on a monotonic clock.

use vstd::prelude::*;
use crate::text::{string_eq, string_from};

verus! {

/// `a - b`, or zero when `b` is later.
pub open spec fn saturating_since(now: u128, last: u128) -> u128 {
    if now >= last {
        (now - last) as u128
    } else {
        0
    }
}

/// The last time each key was let through (the first entry of a key counts).
pub open spec fn seen_map(seen: Seq<(String, u128)>, k: Seq<char>) -> Option<u128>
    decreases seen.len(),
{
    if seen.len() == 0 {
        None
    } else if seen[0].0@ == k {
        Some(seen[0].1)
    } else {
        seen_map(seen.drop_first(), k)
    }
}

/// Suppresses repeats of a key within a window.
pub struct Coalesce {
    window: u128,
    seen: Vec<(String, u128)>,
}

impl Coalesce {
    pub closed spec fn window(&self) -> u128 {
        self.window
    }

    /// When `key` was last let through.
    pub closed spec fn last_allowed(&self, k: Seq<char>) -> Option<u128> {
        seen_map(self.seen@, k)
    }

    /// Whether `key` is let through at `now`.
    pub open spec fn allows(&self, k: Seq<char>, now: u128) -> bool {
        match self.last_allowed(k) {
            Some(last) => saturating_since(now, last) >= self.window(),
            None => true,
        }
    }

    /// Nothing seen yet.
    pub fn new(window: u128) -> (r: Self)
        ensures
            r.window() == window,
            forall|k: Seq<char>| r.last_allowed(k) is None,
    {
        Coalesce { window, seen: Vec::new() }
    }

    /// Lets `key` through at `now` unless it was let through less than a
    /// window before; a key let through is remembered at `now`.
    pub fn allow(&mut self, key: &str, now: u128) -> (r: bool)
        ensures
            r == old(self).allows(key@, now),
            final(self).window() == old(self).window(),
            forall|k: Seq<char>| #[trigger] final(self).last_allowed(k) == if r && k == key@ {
                Some(now)
            } else {
                old(self).last_allowed(k)
            },
    {
        let k = string_from(key);
        let mut i: usize = 0;
        proof {
            assert(self.seen@.skip(0) =~= self.seen@);
        }
        while i < self.seen.len()
            invariant
                i <= self.seen@.len(),
                k@ == key@,
                self.seen@ == old(self).seen@,
                self.window == old(self).window,
                seen_map(self.seen@, key@) == seen_map(self.seen@.skip(i as int), key@),
                forall|j: int| 0 <= j < i ==> (#[trigger] self.seen@[j]).0@ != key@,
            decreases self.seen@.len() - i,
        {
            proof {
                assert(self.seen@.skip(i as int).drop_first() =~= self.seen@.skip(i + 1));
                assert(self.seen@.skip(i as int)[0] == self.seen@[i as int]);
            }
            if string_eq(&self.seen[i].0, &k) {
                let last = self.seen[i].1;
                let elapsed: u128 = if now >= last {
                    now - last
                } else {
                    0
                };
                if elapsed < self.window {
                    return false;
                }
                let ghost before = self.seen@;
                self.seen.set(i, (k, now));
                proof {
                    assert forall|q: Seq<char>| #[trigger] seen_map(self.seen@, q) == if q == key@ {
                        Some(now)
                    } else {
                        seen_map(before, q)
                    } by {
                        lemma_seen_update(before, i as int, key@, now, q);
                    }
                }
                return true;
            }
            i += 1;
        }
        let ghost before = self.seen@;
        proof {
            assert(self.seen@.skip(self.seen@.len() as int) =~= Seq::<(String, u128)>::empty());
        }
        self.seen.push((k, now));
        proof {
            assert forall|q: Seq<char>| #[trigger] seen_map(self.seen@, q) == if q == key@ {
                Some(now)
            } else {
                seen_map(before, q)
            } by {
                lemma_seen_push(before, key@, now, q, k);
            }
        }
        true
    }
}

proof fn lemma_seen_update(s: Seq<(String, u128)>, i: int, k: Seq<char>, t: u128, q: Seq<char>)
    requires
        0 <= i < s.len(),
        s[i].0@ == k,
        forall|j: int| 0 <= j < i ==> (#[trigger] s[j]).0@ != k,
    ensures
        forall|e: String| e@ == k ==> seen_map(s.update(i, (e, t)), q) == if q == k {
            Some(t)
        } else {
            seen_map(s, q)
        },
    decreases i,
{
    assert forall|e: String| e@ == k implies seen_map(s.update(i, (e, t)), q) == if q == k {
        Some(t)
    } else {
        seen_map(s, q)
    } by {
        let u = s.update(i, (e, t));
        if i == 0 {
            assert(u.drop_first() =~= s.drop_first());
        } else {
            let r = s.drop_first();
            assert forall|j: int| 0 <= j < i - 1 implies (#[trigger] r[j]).0@ != k by {
                assert(r[j] == s[j + 1]);
            }
            lemma_seen_update(r, i - 1, k, t, q);
            assert(u.drop_first() =~= r.update(i - 1, (e, t)));
            assert(u[0] == s[0]);
        }
    }
}

proof fn lemma_seen_push(s: Seq<(String, u128)>, k: Seq<char>, t: u128, q: Seq<char>, e: String)
    requires
        forall|j: int| 0 <= j < s.len() ==> (#[trigger] s[j]).0@ != k,
        e@ == k,
    ensures
        seen_map(s.push((e, t)), q) == if q == k {
            Some(t)
        } else {
            seen_map(s, q)
        },
    decreases s.len(),
{
    let u = s.push((e, t));
    if s.len() > 0 {
        let r = s.drop_first();
        assert forall|j: int| 0 <= j < r.len() implies (#[trigger] r[j]).0@ != k by {
            assert(r[j] == s[j + 1]);
        }
        assert(s[0].0@ != k);
        lemma_seen_push(r, k, t, q, e);
        assert(u.drop_first() =~= r.push((e, t)));
        assert(u[0] == s[0]);
    } else {
        assert(u.drop_first() =~= Seq::<(String, u128)>::empty());
        assert(seen_map(u.drop_first(), q) is None);
        assert(u[0] == (e, t));
    }
}

/// Whether an ephemeral subscriber handles an event, before the rate limit:
/// the topic must match, the predicate and the sampling must pass, and an
/// event with a coalescing key must get past the coalescer (which then
/// remembers it).
pub fn ephemeral_gate(
    topic_matches: bool,
    predicate_ok: bool,
    sample_ok: bool,
    key: Option<&str>,
    coalesce: &mut Option<Coalesce>,
    now: u128,
) -> (r: bool)
    ensures
        r == (topic_matches && predicate_ok && sample_ok && match (*old(coalesce), key) {
            (Some(c), Some(k)) => c.allows(k@, now),
            _ => true,
        }),
        (topic_matches && predicate_ok && sample_ok && (*old(coalesce)) is Some && key is Some) ==> (
        (*final(coalesce)) is Some && forall|k: Seq<char>| #[trigger] (*final(coalesce))->0.last_allowed(k) == if r && k
            == key->0@ {
            Some(now)
        } else {
            (*old(coalesce))->0.last_allowed(k)
        }),
        !(topic_matches && predicate_ok && sample_ok && (*old(coalesce)) is Some && key is Some)
            ==> *final(coalesce) == *old(coalesce),
{
    if !topic_matches || !predicate_ok || !sample_ok {
        return false;
    }
    match key {
        Some(k) => match coalesce {
            Some(c) => c.allow(k, now),
            None => true,
        },
        None => true,
    }
}

} // verus!
