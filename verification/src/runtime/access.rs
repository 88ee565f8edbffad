//! Reading values in handler code: a name (local, then session state, then
//! the event's arguments), a field `a.b`, and an index `a[i]`.

use vstd::prelude::*;
use crate::text::string_from;
use crate::forms::json::{find_key, jget, jm, json_copy, lemma_jms_len, JModel, JsonNumber, JsonValue};
use crate::runtime::state::StateStore;

verus! {

/// The value under key `k` of an object, or null for a missing key or a
/// value that is not an object.
pub open spec fn field_value(v: JModel, k: Seq<char>) -> JModel {
    match v {
        JModel::Object(es) => match jget(es, k) {
            Some(x) => x,
            None => JModel::Null,
        },
        _ => JModel::Null,
    }
}

/// `v[idx]`: an array's item at a non-negative integer index (any other
/// number counting as 0), an object's value under a string key; null when
/// there is none, and for any other pair.
pub open spec fn index_value(v: JModel, idx: JModel) -> JModel {
    match (v, idx) {
        (JModel::Array(xs), JModel::PosInt(n)) => if n < xs.len() {
            xs[n as int]
        } else {
            JModel::Null
        },
        (JModel::Array(xs), JModel::NegInt(_)) => if 0 < xs.len() {
            xs[0]
        } else {
            JModel::Null
        },
        (JModel::Array(xs), JModel::Float(_, _)) => if 0 < xs.len() {
            xs[0]
        } else {
            JModel::Null
        },
        (JModel::Object(es), JModel::Str(k)) => match jget(es, k) {
            Some(x) => x,
            None => JModel::Null,
        },
        _ => JModel::Null,
    }
}

/// The value a name stands for: a local if there is one, else the session
/// state's value, else the event argument of that name, else null.
pub open spec fn name_value(local: Option<JModel>, state: Option<JModel>, args: JModel, name: Seq<char>) -> JModel {
    match local {
        Some(v) => v,
        None => match state {
            Some(v) => v,
            None => field_value(args, name),
        },
    }
}

/// The value under `field` of `v` (`field_value`).
pub fn field_of(v: &JsonValue, field: &String) -> (r: JsonValue)
    ensures
        jm(r) == field_value(jm(*v), field@),
{
    match v {
        JsonValue::Object(es) => match find_key(es, field) {
            Some(i) => json_copy(&es[i].1),
            None => JsonValue::Null,
        },
        _ => JsonValue::Null,
    }
}

/// `v[idx]` (`index_value`).
pub fn index_of(v: &JsonValue, idx: &JsonValue) -> (r: JsonValue)
    ensures
        jm(r) == index_value(jm(*v), jm(*idx)),
{
    match (v, idx) {
        (JsonValue::Array(xs), JsonValue::Number(n)) => {
            proof {
                lemma_jms_len(xs@);
            }
            let i: u64 = match n {
                JsonNumber::PosInt(u) => *u,
                _ => 0,
            };
            if i < xs.len() as u64 {
                json_copy(&xs[i as usize])
            } else {
                JsonValue::Null
            }
        },
        (JsonValue::Object(es), JsonValue::Str(k)) => match find_key(es, k) {
            Some(i) => json_copy(&es[i].1),
            None => JsonValue::Null,
        },
        _ => JsonValue::Null,
    }
}

/// The value of `name` (`name_value`), given the local of that name if
/// there is one.
pub fn name_of(local: Option<&JsonValue>, state: &StateStore, args: &JsonValue, name: &str) -> (r: JsonValue)
    ensures
        jm(r) == name_value(
            match local {
                Some(v) => Some(jm(*v)),
                None => None,
            },
            state@.lookup(name@),
            jm(*args),
            name@,
        ),
{
    match local {
        Some(v) => json_copy(v),
        None => match state.get(name) {
            Some(v) => json_copy(v),
            None => field_of(args, &string_from(name)),
        },
    }
}

} // verus!
