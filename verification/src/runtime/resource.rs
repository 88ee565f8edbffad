//! Resources: the description of a stored collection, and the checks made
//! before a record is read or written (permissions, required fields, lengths,
//! read-only fields).

use vstd::prelude::*;
use crate::text::{append_decimal, append_str, append_string, decimal, string_eq, string_from, utf8_len, utf8_len_exec};
use crate::forms::json::{find_key, jentries, jget, jm, JModel, JsonValue};
use crate::runtime::context::Ctx;
use crate::runtime::error::RuntimeError;
use crate::runtime::ids::TenantId;

verus! {

/// A resource as compiled: its collection, fields, indexes and the
/// permission each action needs (by action name).
#[derive(Debug, Clone)]
pub struct ResourceIR {
    pub name: String,
    pub collection_name: String,
    pub tenant_scoped: bool,
    pub primary_key: String,
    pub fields: Vec<ResourceFieldIR>,
    pub indexes: Vec<ResourceIndexIR>,
    pub permissions: Vec<(String, String)>,
}

#[derive(Debug, Clone)]
pub struct ResourceFieldIR {
    pub name: String,
    pub ty: String,
    pub required: bool,
    pub unique: bool,
    pub searchable: bool,
    pub readonly: bool,
    pub default: Option<String>,
    pub min: Option<usize>,
    pub max: Option<usize>,
}

#[derive(Debug, Clone)]
pub struct ResourceIndexIR {
    pub field: String,
    pub unique: bool,
}

/// The permission that `action` needs: the first entry for it.
pub open spec fn permission_of(ps: Seq<(String, String)>, action: Seq<char>) -> Option<Seq<char>>
    decreases ps.len(),
{
    if ps.len() == 0 {
        None
    } else if ps[0].0@ == action {
        Some(ps[0].1@)
    } else {
        permission_of(ps.drop_first(), action)
    }
}

/// The value `data` holds under `name`.
pub open spec fn data_get(data: Seq<(String, JsonValue)>, name: Seq<char>) -> Option<JModel> {
    jget(jentries(data), name)
}

/// The complaint about one field of `data`, if any: a missing required field
/// (on create), or a string value shorter than `min` or longer than `max`
/// bytes. Read-only fields are not checked.
pub open spec fn field_complaint(f: ResourceFieldIR, data: Seq<(String, JsonValue)>, is_update: bool) -> Option<Seq<char>> {
    if f.readonly {
        None
    } else {
        match data_get(data, f.name@) {
            None => if !is_update && f.required {
                Some("field '"@ + f.name@ + "' is required"@)
            } else {
                None
            },
            Some(JModel::Str(s)) => if f.min is Some && utf8_len(s) < f.min->0 {
                Some("field '"@ + f.name@ + "' must be at least "@ + decimal(f.min->0 as nat) + " characters"@)
            } else if f.max is Some && utf8_len(s) > f.max->0 {
                Some("field '"@ + f.name@ + "' must be at most "@ + decimal(f.max->0 as nat) + " characters"@)
            } else {
                None
            },
            Some(_) => None,
        }
    }
}

/// The complaint about the first field of `fs` that has one.
pub open spec fn fields_complaint(fs: Seq<ResourceFieldIR>, data: Seq<(String, JsonValue)>, is_update: bool) -> Option<Seq<char>>
    decreases fs.len(),
{
    if fs.len() == 0 {
        None
    } else {
        match field_complaint(fs[0], data, is_update) {
            Some(m) => Some(m),
            None => fields_complaint(fs.drop_first(), data, is_update),
        }
    }
}

/// The first key of `data` that names a read-only field, if any.
pub open spec fn readonly_key(fs: Seq<ResourceFieldIR>, data: Seq<(String, JsonValue)>) -> Option<Seq<char>>
    decreases data.len(),
{
    if data.len() == 0 {
        None
    } else if field_readonly(fs, data[0].0@) {
        Some(data[0].0@)
    } else {
        readonly_key(fs, data.drop_first())
    }
}

/// Whether the first field named `name` is read-only.
pub open spec fn field_readonly(fs: Seq<ResourceFieldIR>, name: Seq<char>) -> bool
    decreases fs.len(),
{
    if fs.len() == 0 {
        false
    } else if fs[0].name@ == name {
        fs[0].readonly
    } else {
        field_readonly(fs.drop_first(), name)
    }
}

/// Works with the records of one resource.
pub struct ResourceManager {
    ir: ResourceIR,
}

impl ResourceManager {
    pub fn new(ir: ResourceIR) -> (r: Self)
        ensures
            r.ir() == ir,
    {
        ResourceManager { ir }
    }

    pub closed spec fn ir(&self) -> ResourceIR {
        self.ir
    }

    pub fn resource_ir(&self) -> (r: &ResourceIR)
        ensures
            *r == self.ir(),
    {
        &self.ir
    }

    pub fn collection_name(&self) -> (r: &str)
        ensures
            r@ == self.ir().collection_name@,
    {
        self.ir.collection_name.as_str()
    }

    /// `Ok` when `action` needs no permission or `ctx` holds the one it
    /// needs; otherwise the `PermissionDenied` of `Ctx::require`.
    pub fn check_permission(&self, action: &str, ctx: &Ctx) -> (r: Result<(), RuntimeError>)
        ensures
            match permission_of(self.ir().permissions@, action@) {
                None => r is Ok,
                Some(p) => (r is Ok <==> ctx.permissions@.contains(p)) && (r is Err ==> (match r {
                    Err(RuntimeError::PermissionDenied { permission, user_id }) => permission@ == p
                        && user_id == ctx.user_id,
                    _ => false,
                })),
            },
    {
        let a = string_from(action);
        let ps = &self.ir.permissions;
        let mut i: usize = 0;
        proof {
            assert(ps@.skip(0) =~= ps@);
        }
        while i < ps.len()
            invariant
                i <= ps@.len(),
                ps == &self.ir.permissions,
                a@ == action@,
                permission_of(ps@, action@) == permission_of(ps@.skip(i as int), action@),
            decreases ps@.len() - i,
        {
            proof {
                assert(ps@.skip(i as int).drop_first() =~= ps@.skip(i + 1));
            }
            if string_eq(&ps[i].0, &a) {
                return ctx.require(ps[i].1.as_str());
            }
            i += 1;
        }
        Ok(())
    }

    /// Checks the fields of `data` in order; the first complaint is the
    /// error (`ValidationError`).
    pub fn validate_fields(&self, data: &Vec<(String, JsonValue)>, is_update: bool) -> (r: Result<(), RuntimeError>)
        ensures
            match fields_complaint(self.ir().fields@, data@, is_update) {
                None => r is Ok,
                Some(m) => r matches Err(RuntimeError::ValidationError(e)) && e@ == m,
            },
    {
        let fs = &self.ir.fields;
        let mut i: usize = 0;
        proof {
            assert(fs@.skip(0) =~= fs@);
        }
        while i < fs.len()
            invariant
                i <= fs@.len(),
                fs == &self.ir.fields,
                fields_complaint(fs@, data@, is_update) == fields_complaint(fs@.skip(i as int), data@, is_update),
            decreases fs@.len() - i,
        {
            proof {
                assert(fs@.skip(i as int).drop_first() =~= fs@.skip(i + 1));
                assert(fs@.skip(i as int)[0] == fs@[i as int]);
            }
            match field_complaint_exec(&fs[i], data, is_update) {
                Some(m) => {
                    return Err(RuntimeError::ValidationError(m));
                },
                None => {},
            }
            i += 1;
        }
        Ok(())
    }

    /// `ValidationError("field '<key>' is readonly")` for the first key of
    /// `data` that names a read-only field; otherwise `Ok`.
    pub fn check_readonly(&self, data: &Vec<(String, JsonValue)>) -> (r: Result<(), RuntimeError>)
        ensures
            match readonly_key(self.ir().fields@, data@) {
                None => r is Ok,
                Some(k) => r matches Err(RuntimeError::ValidationError(e)) && e@ == "field '"@ + k
                    + "' is readonly"@,
            },
    {
        let mut i: usize = 0;
        proof {
            assert(data@.skip(0) =~= data@);
        }
        while i < data.len()
            invariant
                i <= data@.len(),
                readonly_key(self.ir().fields@, data@) == readonly_key(self.ir().fields@, data@.skip(i as int)),
            decreases data@.len() - i,
        {
            proof {
                assert(data@.skip(i as int).drop_first() =~= data@.skip(i + 1));
                assert(data@.skip(i as int)[0] == data@[i as int]);
            }
            if readonly_exec(&self.ir.fields, &data[i].0) {
                let mut m = string_from("field '");
                append_string(&mut m, &data[i].0);
                append_str(&mut m, "' is readonly");
                return Err(RuntimeError::ValidationError(m));
            }
            i += 1;
        }
        Ok(())
    }
}

/// What a check of `action`'s permission gives (see `check_permission`).
pub open spec fn permission_refused(ir: ResourceIR, action: Seq<char>, ctx: Ctx) -> bool {
    match permission_of(ir.permissions@, action) {
        Some(p) => !ctx.permissions@.contains(p),
        None => false,
    }
}

/// `r` is the refusal of `action`'s permission: `PermissionDenied` naming
/// the permission and the user.
pub open spec fn is_refusal(r: Result<Option<TenantId>, RuntimeError>, ir: ResourceIR, action: Seq<char>, ctx: Ctx) -> bool {
    r matches Err(RuntimeError::PermissionDenied { permission, user_id }) && Some(permission@)
        == permission_of(ir.permissions@, action) && user_id == ctx.user_id
}

/// `r` is the scope of a tenant-scoped or shared resource: the request's
/// tenant (`TenantRequired` without one), or the shared collection (`None`).
pub open spec fn is_scope(r: Result<Option<TenantId>, RuntimeError>, ir: ResourceIR, ctx: Ctx) -> bool {
    if ir.tenant_scoped {
        match ctx.tenant_id {
            Some(t) => r == Ok::<Option<TenantId>, RuntimeError>(Some(t)),
            None => r matches Err(RuntimeError::TenantRequired),
        }
    } else {
        r == Ok::<Option<TenantId>, RuntimeError>(None)
    }
}

/// The fields that `data` leaves out and that declare a default, in field
/// order, as (name, default text, type).
pub open spec fn missing_defaults_of(fs: Seq<ResourceFieldIR>, data: Seq<(String, JsonValue)>) -> Seq<(Seq<char>, Seq<char>, Seq<char>)>
    decreases fs.len(),
{
    if fs.len() == 0 {
        seq![]
    } else {
        let rest = missing_defaults_of(fs.drop_last(), data);
        let f = fs.last();
        if data_get(data, f.name@) is None && f.default is Some {
            rest.push((f.name@, f.default->0@, f.ty@))
        } else {
            rest
        }
    }
}

impl ResourceManager {
    fn tenant_scope(&self, ctx: &Ctx) -> (r: Result<Option<TenantId>, RuntimeError>)
        ensures
            is_scope(r, self.ir(), *ctx),
    {
        if self.ir.tenant_scoped {
            match ctx.require_tenant() {
                Ok(t) => Ok(Some(*t)),
                Err(e) => Err(e),
            }
        } else {
            Ok(None)
        }
    }

    /// Where a read (`"read"`) or delete (`"delete"`) works: after the
    /// permission check of `action`, the request's tenant for a
    /// tenant-scoped resource (`TenantRequired` without one), else the
    /// shared collection (`None`). A tenant-scoped resource is never reached
    /// without the request's tenant.
    pub fn scope(&self, action: &str, ctx: &Ctx) -> (r: Result<Option<TenantId>, RuntimeError>)
        ensures
            permission_refused(self.ir(), action@, *ctx) ==> is_refusal(r, self.ir(), action@, *ctx),
            !permission_refused(self.ir(), action@, *ctx) ==> is_scope(r, self.ir(), *ctx),
    {
        match self.check_permission(action, ctx) {
            Err(e) => Err(e),
            Ok(()) => self.tenant_scope(ctx),
        }
    }

    /// The checks of an update with `data`, in order: the `"update"`
    /// permission, no read-only field among the keys, the fields' values;
    /// then `Ok(None)` when there is nothing to set, else `Ok(Some(scope))`
    /// with the scope as `scope` gives it.
    pub fn prepare_update(&self, ctx: &Ctx, data: &Vec<(String, JsonValue)>) -> (r: Result<Option<Option<TenantId>>, RuntimeError>)
        ensures
            permission_refused(self.ir(), "update"@, *ctx) ==> (r matches Err(RuntimeError::PermissionDenied { permission, user_id })
                && Some(permission@) == permission_of(self.ir().permissions@, "update"@) && user_id == ctx.user_id),
            !permission_refused(self.ir(), "update"@, *ctx) ==> match readonly_key(self.ir().fields@, data@) {
                Some(k) => (r matches Err(RuntimeError::ValidationError(e)) && e@ == "field '"@ + k + "' is readonly"@),
                None => match fields_complaint(self.ir().fields@, data@, true) {
                    Some(m) => r matches Err(RuntimeError::ValidationError(e)) && e@ == m,
                    None => if data@.len() == 0 {
                        r == Ok::<Option<Option<TenantId>>, RuntimeError>(None)
                    } else {
                        match r {
                            Ok(Some(sc)) => is_scope(Ok(sc), self.ir(), *ctx),
                            Ok(None) => false,
                            Err(e) => is_scope(Err(e), self.ir(), *ctx),
                        }
                    },
                },
            },
    {
        proof {
            reveal_strlit("update");
        }
        match self.check_permission("update", ctx) {
            Err(e) => {
                return Err(e);
            },
            Ok(()) => {},
        }
        match self.check_readonly(data) {
            Err(e) => {
                return Err(e);
            },
            Ok(()) => {},
        }
        match self.validate_fields(data, true) {
            Err(e) => {
                return Err(e);
            },
            Ok(()) => {},
        }
        if data.len() == 0 {
            return Ok(None);
        }
        match self.tenant_scope(ctx) {
            Ok(sc) => Ok(Some(sc)),
            Err(e) => Err(e),
        }
    }

    /// The checks of a create with `data`, in order: the `"create"`
    /// permission, then the fields' values (required fields included).
    pub fn prepare_create(&self, ctx: &Ctx, data: &Vec<(String, JsonValue)>) -> (r: Result<(), RuntimeError>)
        ensures
            permission_refused(self.ir(), "create"@, *ctx) ==> (r matches Err(RuntimeError::PermissionDenied { permission, user_id })
                && Some(permission@) == permission_of(self.ir().permissions@, "create"@) && user_id == ctx.user_id),
            !permission_refused(self.ir(), "create"@, *ctx) ==> match fields_complaint(self.ir().fields@, data@, false) {
                Some(m) => r matches Err(RuntimeError::ValidationError(e)) && e@ == m,
                None => r is Ok,
            },
    {
        match self.check_permission("create", ctx) {
            Err(e) => {
                return Err(e);
            },
            Ok(()) => {},
        }
        self.validate_fields(data, false)
    }

    /// The fields a create fills from their declared default because `data`
    /// leaves them out, in field order, as (name, default text, type).
    pub fn missing_defaults(&self, data: &Vec<(String, JsonValue)>) -> (r: Vec<(String, String, String)>)
        ensures
            r@.len() == missing_defaults_of(self.ir().fields@, data@).len(),
            forall|j: int| 0 <= j < r@.len() ==> {
                let e = #[trigger] missing_defaults_of(self.ir().fields@, data@)[j];
                r@[j].0@ == e.0 && r@[j].1@ == e.1 && r@[j].2@ == e.2
            },
    {
        let fs = &self.ir.fields;
        let mut r: Vec<(String, String, String)> = Vec::new();
        let mut i: usize = 0;
        while i < fs.len()
            invariant
                i <= fs@.len(),
                fs == &self.ir.fields,
                r@.len() == missing_defaults_of(fs@.take(i as int), data@).len(),
                forall|j: int| 0 <= j < r@.len() ==> {
                    let e = #[trigger] missing_defaults_of(fs@.take(i as int), data@)[j];
                    r@[j].0@ == e.0 && r@[j].1@ == e.1 && r@[j].2@ == e.2
                },
            decreases fs@.len() - i,
        {
            let f = &fs[i];
            let ghost before = r@;
            proof {
                assert(fs@.take(i + 1).drop_last() =~= fs@.take(i as int));
                assert(fs@.take(i + 1).last() == *f);
            }
            match find_key(data, &f.name) {
                None => match &f.default {
                    Some(d) => {
                        r.push((f.name.clone(), d.clone(), f.ty.clone()));
                        proof {
                            let m = missing_defaults_of(fs@.take(i + 1), data@);
                            assert forall|j: int| 0 <= j < r@.len() implies {
                                let e = #[trigger] m[j];
                                r@[j].0@ == e.0 && r@[j].1@ == e.1 && r@[j].2@ == e.2
                            } by {
                                if j < before.len() {
                                    assert(r@[j] == before[j]);
                                }
                            }
                        }
                    },
                    None => {},
                },
                Some(_) => {},
            }
            i += 1;
        }
        proof {
            assert(fs@.take(fs@.len() as int) =~= fs@);
        }
        r
    }
}

fn readonly_exec(fs: &Vec<ResourceFieldIR>, name: &String) -> (r: bool)
    ensures
        r == field_readonly(fs@, name@),
{
    let mut i: usize = 0;
    proof {
        assert(fs@.skip(0) =~= fs@);
    }
    while i < fs.len()
        invariant
            i <= fs@.len(),
            field_readonly(fs@, name@) == field_readonly(fs@.skip(i as int), name@),
        decreases fs@.len() - i,
    {
        proof {
            assert(fs@.skip(i as int).drop_first() =~= fs@.skip(i + 1));
            assert(fs@.skip(i as int)[0] == fs@[i as int]);
        }
        if string_eq(&fs[i].name, name) {
            return fs[i].readonly;
        }
        i += 1;
    }
    false
}

fn field_complaint_exec(f: &ResourceFieldIR, data: &Vec<(String, JsonValue)>, is_update: bool) -> (r: Option<String>)
    ensures
        match field_complaint(*f, data@, is_update) {
            None => r is None,
            Some(m) => r matches Some(e) && e@ == m,
        },
{
    if f.readonly {
        return None;
    }
    match find_key(data, &f.name) {
        None => {
            if !is_update && f.required {
                let mut m = string_from("field '");
                append_string(&mut m, &f.name);
                append_str(&mut m, "' is required");
                Some(m)
            } else {
                None
            }
        },
        Some(i) => {
            match &data[i].1 {
                JsonValue::Str(s) => {
                    let n = utf8_len_exec(s.as_str());
                    match f.min {
                        Some(min) => {
                            if n < min as u128 {
                                let mut m = string_from("field '");
                                append_string(&mut m, &f.name);
                                append_str(&mut m, "' must be at least ");
                                append_decimal(&mut m, min as u64);
                                append_str(&mut m, " characters");
                                return Some(m);
                            }
                        },
                        None => {},
                    }
                    match f.max {
                        Some(max) => {
                            if n > max as u128 {
                                let mut m = string_from("field '");
                                append_string(&mut m, &f.name);
                                append_str(&mut m, "' must be at most ");
                                append_decimal(&mut m, max as u64);
                                append_str(&mut m, " characters");
                                return Some(m);
                            }
                        },
                        None => {},
                    }
                    None
                },
                _ => None,
            }
        },
    }
}

} // verus!
