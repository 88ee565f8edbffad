//! One client's live session: its state, who it belongs to, the actions its
//! component declares, and the numbering of the patches it sends.

use vstd::prelude::*;
use crate::text::{string_eq, string_from};
use crate::live::error::LiveError;
use crate::live::patch::{ops_for, selected, DynamicSegment, PatchGenerator, PatchMessage};
use crate::runtime::context::{Ctx, PermissionSet};
use crate::runtime::error::RuntimeError;
use crate::runtime::ids::{RequestId, RouteId, SessionId, TenantId, UserId};
use crate::runtime::state::StateStore;
use crate::scheduler::schedule::{MAX_INSTANT, MAX_SECS};

verus! {

/// `chrono::Utc::now()` as whole seconds since the Unix epoch and the
/// nanoseconds within that second. Which time is read is not promised; the
/// source reads the system clock as a `Duration` since the epoch (so the
/// seconds are not negative and the nanoseconds stay below one second) and
/// unwraps `DateTime::from_timestamp` on it (so the time is one chrono's
/// `DateTime` holds).
#[verifier::external_body]
fn clock_now() -> (r: (i64, u32))
    ensures
        0 <= r.0 <= MAX_SECS,
        r.1 < 1_000_000_000,
{
    let t = chrono::Utc::now();
    (t.timestamp(), t.timestamp_subsec_nanos())
}

/// The current time in nanoseconds since the Unix epoch: an instant at or
/// after the epoch that chrono's date-times hold.
pub fn now_nanos() -> (r: i128)
    ensures
        0 <= r <= MAX_INSTANT,
{
    let (secs, nanos) = clock_now();
    secs as i128 * 1_000_000_000 + nanos as i128
}

/// `std::time::Duration::MAX` in nanoseconds: the longest time there is.
pub const DURATION_MAX_NANOS: u128 = 18_446_744_073_709_551_615_999_999_999;

/// An action a component declares: its name, the permission it needs, and
/// its body in the handler language.
#[derive(Debug)]
pub struct ActionIR {
    pub name: String,
    pub permission: Option<String>,
    pub body: String,
}

/// Where an event goes: to the handler registered under its name, or to the
/// body of the component's action at this index.
#[derive(Debug, PartialEq, Eq)]
pub enum EventRoute {
    Registered,
    Action(usize),
}

/// The index of the first action named `name`, if any.
pub open spec fn action_index(actions: Seq<ActionIR>, name: Seq<char>) -> Option<int>
    decreases actions.len(),
{
    if actions.len() == 0 {
        None
    } else {
        match action_index(actions.drop_last(), name) {
            Some(i) => Some(i),
            None => if actions.last().name@ == name {
                Some(actions.len() - 1)
            } else {
                None
            },
        }
    }
}

proof fn lemma_action_index(actions: Seq<ActionIR>, name: Seq<char>)
    ensures
        match action_index(actions, name) {
            Some(i) => 0 <= i < actions.len() && actions[i].name@ == name && forall|j: int|
                0 <= j < i ==> #[trigger] actions[j].name@ != name,
            None => forall|j: int| 0 <= j < actions.len() ==> #[trigger] actions[j].name@ != name,
        },
    decreases actions.len(),
{
    if actions.len() > 0 {
        lemma_action_index(actions.drop_last(), name);
        assert forall|j: int| 0 <= j < actions.len() - 1 implies actions.drop_last()[j] == #[trigger] actions[j] by {}
    }
}

/// `elapsed` between `last` and `now`, as the time type measures it: a
/// `now` before `last` counts as the longest time there is.
pub open spec fn elapsed_since(last: i128, now: i128) -> int {
    if now >= last {
        now - last
    } else {
        DURATION_MAX_NANOS as int
    }
}

/// A live session. Times are nanoseconds since the Unix epoch.
#[derive(Debug)]
pub struct LiveSession {
    pub id: SessionId,
    pub user_id: Option<UserId>,
    pub tenant_id: Option<TenantId>,
    pub route: RouteId,
    pub actions: Vec<ActionIR>,
    pub dynamic_segments: Vec<DynamicSegment>,
    pub state: StateStore,
    pub permissions: PermissionSet,
    pub created_at: i128,
    pub last_event_at: i128,
    pub seq: u64,
}

impl LiveSession {
    /// A fresh session at time `now`: empty state, no patch sent yet.
    pub fn new_at(
        id: SessionId,
        user_id: Option<UserId>,
        tenant_id: Option<TenantId>,
        route: RouteId,
        actions: Vec<ActionIR>,
        dynamic_segments: Vec<DynamicSegment>,
        permissions: PermissionSet,
        now: i128,
    ) -> (r: Self)
        ensures
            r.id == id,
            r.user_id == user_id,
            r.tenant_id == tenant_id,
            r.route == route,
            r.actions == actions,
            r.dynamic_segments == dynamic_segments,
            r.permissions == permissions,
            r.state@.values.is_empty(),
            r.state@.dirty.is_empty(),
            r.created_at == now,
            r.last_event_at == now,
            r.seq == 0,
    {
        LiveSession {
            id,
            user_id,
            tenant_id,
            route,
            actions,
            dynamic_segments,
            state: StateStore::new(),
            permissions,
            created_at: now,
            last_event_at: now,
            seq: 0,
        }
    }

    /// A fresh session, stamped with the current time.
    pub fn new(
        id: SessionId,
        user_id: Option<UserId>,
        tenant_id: Option<TenantId>,
        route: RouteId,
        actions: Vec<ActionIR>,
        dynamic_segments: Vec<DynamicSegment>,
        permissions: PermissionSet,
    ) -> (r: Self)
        ensures
            r.id == id,
            r.user_id == user_id,
            r.tenant_id == tenant_id,
            r.route == route,
            r.actions == actions,
            r.dynamic_segments == dynamic_segments,
            r.permissions == permissions,
            r.state@.values.is_empty(),
            r.state@.dirty.is_empty(),
            r.created_at == r.last_event_at,
            r.seq == 0,
    {
        let now = now_nanos();
        LiveSession::new_at(id, user_id, tenant_id, route, actions, dynamic_segments, permissions, now)
    }

    /// The context of a request made in this session, under a fresh request
    /// id.
    pub fn ctx(&self) -> (r: Ctx)
        ensures
            r.user_id == self.user_id,
            r.tenant_id == self.tenant_id,
            r.permissions@ == self.permissions@,
            r.route.0@ == self.route.0@,
            r.session_id.0@ == self.id.0@,
    {
        Ctx {
            user_id: self.user_id,
            tenant_id: self.tenant_id,
            request_id: RequestId::random(),
            permissions: self.permissions.copy(),
            route: RouteId(self.route.0.clone()),
            session_id: SessionId(self.id.0.clone()),
        }
    }

    /// Whether no event came within `timeout` nanoseconds before `now`.
    pub fn is_expired_at(&self, now: i128, timeout: u128) -> (r: bool)
        ensures
            r == (elapsed_since(self.last_event_at, now) > timeout),
    {
        let last = self.last_event_at;
        if now >= last {
            let elapsed: u128 = if last >= 0 || now < 0 {
                (now - last) as u128
            } else {
                now as u128 + (-(last + 1)) as u128 + 1
            };
            elapsed > timeout
        } else {
            DURATION_MAX_NANOS > timeout
        }
    }

    /// Whether no event came within `timeout` nanoseconds before the current
    /// time.
    pub fn is_expired(&self, timeout: u128) -> (r: bool)
        ensures
            exists|now: i128| 0 <= now <= MAX_INSTANT && r == (elapsed_since(self.last_event_at, now) > timeout),
    {
        let now = now_nanos();
        self.is_expired_at(now, timeout)
    }

    /// Where an event for `handler` goes: to the handler registered under
    /// that name when `registered`, else to the first action so named, whose
    /// permission the session must hold (`PermissionDenied` with the message
    /// of the refusal), else nowhere (`UnknownHandler`).
    pub fn event_route(&self, handler: &str, registered: bool) -> (r: Result<EventRoute, LiveError>)
        ensures
            registered ==> r == Ok::<EventRoute, LiveError>(EventRoute::Registered),
            !registered ==> match action_index(self.actions@, handler@) {
                None => r matches Err(LiveError::UnknownHandler(h)) && h@ == handler@,
                Some(i) => match self.actions@[i].permission {
                    Some(p) if !self.permissions@.contains(p@) => r matches Err(
                        LiveError::PermissionDenied(m),
                    ) && m@ == "Permission denied: "@ + p@,
                    _ => r == Ok::<EventRoute, LiveError>(EventRoute::Action(i as usize)),
                },
            },
    {
        if registered {
            return Ok(EventRoute::Registered);
        }
        let name = string_from(handler);
        let mut i: usize = 0;
        proof {
            lemma_action_index(self.actions@, handler@);
        }
        while i < self.actions.len()
            invariant
                i <= self.actions@.len(),
                !registered,
                name@ == handler@,
                forall|j: int| 0 <= j < i ==> #[trigger] self.actions@[j].name@ != handler@,
                match action_index(self.actions@, handler@) {
                    Some(k) => 0 <= k < self.actions@.len() && self.actions@[k].name@ == handler@ && forall|j: int|
                        0 <= j < k ==> #[trigger] self.actions@[j].name@ != handler@,
                    None => forall|j: int| 0 <= j < self.actions@.len() ==> #[trigger] self.actions@[j].name@ != handler@,
                },
            decreases self.actions@.len() - i,
        {
            if string_eq(&self.actions[i].name, &name) {
                proof {
                    assert(action_index(self.actions@, handler@) == Some(i as int));
                }
                if let Some(p) = &self.actions[i].permission {
                    let ctx = self.ctx();
                    match ctx.require(p.as_str()) {
                        Ok(()) => {},
                        Err(e) => {
                            return Err(LiveError::PermissionDenied(e.message()));
                        },
                    }
                }
                return Ok(EventRoute::Action(i));
            }
            i += 1;
        }
        Err(LiveError::UnknownHandler(name))
    }

    /// Stamps the session with `now` as the time of its last event, and
    /// says where an event for `handler` goes (see `event_route`).
    pub fn route_event_at(&mut self, handler: &str, registered: bool, now: i128) -> (r: Result<EventRoute, LiveError>)
        ensures
            final(self).last_event_at == now,
            final(self).id == old(self).id,
            final(self).user_id == old(self).user_id,
            final(self).tenant_id == old(self).tenant_id,
            final(self).route == old(self).route,
            final(self).actions == old(self).actions,
            final(self).dynamic_segments == old(self).dynamic_segments,
            final(self).state == old(self).state,
            final(self).permissions == old(self).permissions,
            final(self).created_at == old(self).created_at,
            final(self).seq == old(self).seq,
            registered ==> r == Ok::<EventRoute, LiveError>(EventRoute::Registered),
            !registered ==> match action_index(old(self).actions@, handler@) {
                None => r matches Err(LiveError::UnknownHandler(h)) && h@ == handler@,
                Some(i) => match old(self).actions@[i].permission {
                    Some(p) if !old(self).permissions@.contains(p@) => r matches Err(
                        LiveError::PermissionDenied(m),
                    ) && m@ == "Permission denied: "@ + p@,
                    _ => r == Ok::<EventRoute, LiveError>(EventRoute::Action(i as usize)),
                },
            },
    {
        self.last_event_at = now;
        self.event_route(handler, registered)
    }

    /// Where an event for `handler` goes (see `route_event_at`), stamping
    /// the session with the current time.
    pub fn route_event(&mut self, handler: &str, registered: bool) -> (r: Result<EventRoute, LiveError>)
        ensures
            final(self).state == old(self).state,
            final(self).seq == old(self).seq,
            final(self).actions == old(self).actions,
            registered ==> r == Ok::<EventRoute, LiveError>(EventRoute::Registered),
            !registered ==> match action_index(old(self).actions@, handler@) {
                None => r matches Err(LiveError::UnknownHandler(h)) && h@ == handler@,
                Some(i) => match old(self).actions@[i].permission {
                    Some(p) if !old(self).permissions@.contains(p@) => r matches Err(
                        LiveError::PermissionDenied(m),
                    ) && m@ == "Permission denied: "@ + p@,
                    _ => r == Ok::<EventRoute, LiveError>(EventRoute::Action(i as usize)),
                },
            },
    {
        let now = now_nanos();
        self.route_event_at(handler, registered, now)
    }

    /// Stamps the session with `now` as the time of its last event; a form
    /// submission goes only to a registered handler (`UnknownHandler`
    /// naming `handler` when none is registered).
    pub fn route_form_at(&mut self, handler: &str, registered: bool, now: i128) -> (r: Result<(), LiveError>)
        ensures
            final(self).last_event_at == now,
            final(self).id == old(self).id,
            final(self).user_id == old(self).user_id,
            final(self).tenant_id == old(self).tenant_id,
            final(self).route == old(self).route,
            final(self).actions == old(self).actions,
            final(self).dynamic_segments == old(self).dynamic_segments,
            final(self).state == old(self).state,
            final(self).permissions == old(self).permissions,
            final(self).created_at == old(self).created_at,
            final(self).seq == old(self).seq,
            registered ==> r is Ok,
            !registered ==> (r matches Err(LiveError::UnknownHandler(h)) && h@ == handler@),
    {
        self.last_event_at = now;
        if registered {
            Ok(())
        } else {
            Err(LiveError::UnknownHandler(string_from(handler)))
        }
    }

    /// The patches for the state changes since the last round, numbered one
    /// past the last message; the dirty names are cleared. `affected` is
    /// what the component's dependency graph reports for the dirty names.
    pub fn generate_patches(&mut self, affected: &Vec<String>) -> (r: PatchMessage)
        requires
            old(self).seq < u64::MAX,
        ensures
            r.seq == old(self).seq + 1,
            final(self).seq == r.seq,
            old(self).state@.dirty.is_empty() ==> r.ops@.len() == 0,
            !old(self).state@.dirty.is_empty() ==> ops_for(
                r.ops@,
                selected(old(self).dynamic_segments@, affected@),
                old(self).state@.values,
            ),
            final(self).state@ == old(self).state@.after_clear(),
            final(self).id == old(self).id,
            final(self).user_id == old(self).user_id,
            final(self).tenant_id == old(self).tenant_id,
            final(self).actions == old(self).actions,
            final(self).dynamic_segments == old(self).dynamic_segments,
            final(self).permissions == old(self).permissions,
            final(self).last_event_at == old(self).last_event_at,
    {
        self.seq = self.seq + 1;
        let seq = self.seq;
        let ops = PatchGenerator::generate(&self.state, affected, &self.dynamic_segments);
        self.state.clear_dirty();
        PatchMessage { seq, ops }
    }
}

} // verus!
