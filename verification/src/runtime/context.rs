//! The per-request context and the set of permissions it carries.

use vstd::prelude::*;
use crate::text::{string_eq, string_from};
use crate::runtime::error::RuntimeError;
use crate::runtime::ids::{RequestId, RouteId, SessionId, TenantId, UserId};

verus! {

/// An unordered collection of permission strings.
#[derive(Debug, Clone)]
pub struct PermissionSet {
    permissions: Vec<String>,
}

impl View for PermissionSet {
    type V = Set<Seq<char>>;

    closed spec fn view(&self) -> Set<Seq<char>> {
        Set::new(|p: Seq<char>| exists|i: int| 0 <= i < self.permissions@.len() && #[trigger] self.permissions@[i]@ == p)
    }
}

impl PermissionSet {
    /// The empty set.
    pub fn new() -> (r: Self)
        ensures
            r@ == Set::<Seq<char>>::empty(),
    {
        let r = PermissionSet { permissions: Vec::new() };
        proof {
            assert(r@ =~= Set::<Seq<char>>::empty());
        }
        r
    }

    fn position(&self, permission: &String) -> (r: Option<usize>)
        ensures
            match r {
                Some(i) => i < self.permissions@.len() && self.permissions@[i as int]@ == permission@,
                None => forall|i: int| 0 <= i < self.permissions@.len() ==> #[trigger] self.permissions@[i]@ != permission@,
            },
    {
        let mut i: usize = 0;
        while i < self.permissions.len()
            invariant
                i <= self.permissions@.len(),
                forall|j: int| 0 <= j < i ==> #[trigger] self.permissions@[j]@ != permission@,
            decreases self.permissions@.len() - i,
        {
            if string_eq(&self.permissions[i], permission) {
                return Some(i);
            }
            i += 1;
        }
        None
    }

    /// A set with the same permissions.
    pub fn copy(&self) -> (r: Self)
        ensures
            r@ == self@,
    {
        let mut v: Vec<String> = Vec::new();
        let mut i: usize = 0;
        while i < self.permissions.len()
            invariant
                i <= self.permissions@.len(),
                v@.len() == i,
                forall|j: int| 0 <= j < i ==> #[trigger] v@[j]@ == self.permissions@[j]@,
            decreases self.permissions@.len() - i,
        {
            v.push(self.permissions[i].clone());
            i += 1;
        }
        let r = PermissionSet { permissions: v };
        proof {
            assert forall|q: Seq<char>| #[trigger] r@.contains(q) == self@.contains(q) by {
                if r@.contains(q) {
                    let i = choose|i: int| 0 <= i < v@.len() && #[trigger] v@[i]@ == q;
                    assert(self.permissions@[i]@ == q);
                }
                if self@.contains(q) {
                    let i = choose|i: int| 0 <= i < self.permissions@.len() && #[trigger] self.permissions@[i]@ == q;
                    assert(v@[i]@ == q);
                }
            }
            assert(r@ =~= self@);
        }
        r
    }

    /// Adds `permission` to the set.
    pub fn add(&mut self, permission: &str)
        ensures
            final(self)@ == old(self)@.insert(permission@),
    {
        let p = string_from(permission);
        let ghost before = self.permissions@;
        match self.position(&p) {
            Some(_) => {
                proof {
                    assert(self@ =~= old(self)@.insert(permission@));
                }
            },
            None => {
                self.permissions.push(p);
                proof {
                    assert forall|q: Seq<char>| #[trigger] self@.contains(q) == old(self)@.insert(permission@).contains(q) by {
                        if old(self)@.contains(q) {
                            let i = choose|i: int| 0 <= i < before.len() && #[trigger] before[i]@ == q;
                            assert(self.permissions@[i] == before[i]);
                        }
                        if q == permission@ {
                            assert(self.permissions@[before.len() as int]@ == q);
                        }
                        if self@.contains(q) {
                            let i = choose|i: int| 0 <= i < self.permissions@.len() && #[trigger] self.permissions@[i]@ == q;
                            if i < before.len() {
                                assert(before[i]@ == q);
                            }
                        }
                    }
                    assert(self@ =~= old(self)@.insert(permission@));
                }
            },
        }
    }

    /// Whether `permission` is in the set.
    pub fn has(&self, permission: &str) -> (r: bool)
        ensures
            r == self@.contains(permission@),
    {
        let p = string_from(permission);
        match self.position(&p) {
            Some(i) => {
                proof {
                    assert(self.permissions@[i as int]@ == permission@);
                }
                true
            },
            None => false,
        }
    }

    /// Whether at least one of `permissions` is in the set.
    pub fn has_any(&self, permissions: &[&str]) -> (r: bool)
        ensures
            r == exists|i: int| 0 <= i < permissions@.len() && self@.contains(#[trigger] permissions@[i]@),
    {
        let mut i: usize = 0;
        while i < permissions.len()
            invariant
                i <= permissions@.len(),
                forall|j: int| 0 <= j < i ==> !self@.contains(#[trigger] permissions@[j]@),
            decreases permissions@.len() - i,
        {
            if self.has(permissions[i]) {
                return true;
            }
            i += 1;
        }
        false
    }

    /// Whether every one of `permissions` is in the set.
    pub fn has_all(&self, permissions: &[&str]) -> (r: bool)
        ensures
            r == forall|i: int| 0 <= i < permissions@.len() ==> self@.contains(#[trigger] permissions@[i]@),
    {
        let mut i: usize = 0;
        while i < permissions.len()
            invariant
                i <= permissions@.len(),
                forall|j: int| 0 <= j < i ==> self@.contains(#[trigger] permissions@[j]@),
            decreases permissions@.len() - i,
        {
            if !self.has(permissions[i]) {
                return false;
            }
            i += 1;
        }
        true
    }
}

impl Default for PermissionSet {
    fn default() -> (r: Self)
        ensures
            r@ == Set::<Seq<char>>::empty(),
    {
        PermissionSet::new()
    }
}

/// After `add(p)`, `has(p)` holds, and whatever was present stays present.
pub proof fn law_add_then_has(before: Set<Seq<char>>, after: Set<Seq<char>>, p: Seq<char>, q: Seq<char>)
    requires
        after == before.insert(p),
    ensures
        after.contains(p),
        before.contains(q) ==> after.contains(q),
        after.contains(q) ==> before.contains(q) || q == p,
{
}

/// The context of one request: identity, tenant, permissions and route.
#[derive(Debug, Clone)]
pub struct Ctx {
    pub user_id: Option<UserId>,
    pub tenant_id: Option<TenantId>,
    pub request_id: RequestId,
    pub permissions: PermissionSet,
    pub route: RouteId,
    pub session_id: SessionId,
}

impl Ctx {
    /// `Ok` when `permission` is granted, else `PermissionDenied` naming it
    /// and the user.
    pub fn require(&self, permission: &str) -> (r: Result<(), RuntimeError>)
        ensures
            r is Ok <==> self.permissions@.contains(permission@),
            r is Err ==> (match r {
                Err(RuntimeError::PermissionDenied { permission: p, user_id }) => p@ == permission@
                    && user_id == self.user_id,
                _ => false,
            }),
    {
        if self.permissions.has(permission) {
            Ok(())
        } else {
            Err(RuntimeError::PermissionDenied { permission: string_from(permission), user_id: self.user_id })
        }
    }

    /// The authenticated user, or `Unauthenticated`.
    pub fn require_auth(&self) -> (r: Result<&UserId, RuntimeError>)
        ensures
            match self.user_id {
                Some(u) => r == Ok::<&UserId, RuntimeError>(&u),
                None => r matches Err(RuntimeError::Unauthenticated),
            },
    {
        match &self.user_id {
            Some(u) => Ok(u),
            None => Err(RuntimeError::Unauthenticated),
        }
    }

    /// The tenant of the request, or `TenantRequired`.
    pub fn require_tenant(&self) -> (r: Result<&TenantId, RuntimeError>)
        ensures
            match self.tenant_id {
                Some(t) => r == Ok::<&TenantId, RuntimeError>(&t),
                None => r matches Err(RuntimeError::TenantRequired),
            },
    {
        match &self.tenant_id {
            Some(t) => Ok(t),
            None => Err(RuntimeError::TenantRequired),
        }
    }
}

} // verus!
