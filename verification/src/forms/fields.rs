//! Validation of one field's value against its type and constraints.

use vstd::prelude::*;
use crate::text::{
    ascii_lower, append_decimal, append_str, append_string, decimal, find, starts_with, ends_with, string_from,
    utf8_len,
};
use crate::parser::split::join;
use crate::forms::schema::{Constraint, FieldSchema, FieldType};
use crate::forms::validation::{email_ok, errs_view, validate_email, ErrorModel, ValidationError};
use crate::forms::json::{jm, JModel, JsonNumber, JsonValue};
use crate::forms::number::{fl_order, fl_order_exec, round_f64, round_i64, round_u64};

verus! {

// ---------------------------------------------------------------------------
// Outside parsers
// ---------------------------------------------------------------------------

/// A hexadecimal digit, in either case.
pub open spec fn is_hex(c: char) -> bool {
    ('0' <= c && c <= '9') || ('a' <= c && c <= 'f') || ('A' <= c && c <= 'F')
}

/// Eight, four, four, four and twelve hexadecimal digits joined by hyphens.
pub open spec fn hyphenated_uuid(s: Seq<char>) -> bool {
    &&& s.len() == 36
    &&& s[8] == '-' && s[13] == '-' && s[18] == '-' && s[23] == '-'
    &&& forall|i: int|
        0 <= i < 36 && i != 8 && i != 13 && i != 18 && i != 23 ==> is_hex(#[trigger] s[i])
}

/// The texts `uuid::Uuid::parse_str` accepts: 32 hexadecimal digits; or the
/// hyphenated form, bare, in braces, or after `urn:uuid:` in any case.
pub open spec fn uuid_accepts(s: Seq<char>) -> bool {
    ||| s.len() == 32 && forall|i: int| 0 <= i < 32 ==> is_hex(#[trigger] s[i])
    ||| hyphenated_uuid(s)
    ||| s.len() == 38 && s[0] == '{' && s[37] == '}' && hyphenated_uuid(s.subrange(1, 37))
    ||| s.len() == 45 && s.take(9).map_values(|c: char| ascii_lower(c)) == "urn:uuid:"@
        && hyphenated_uuid(s.skip(9))
}

/// Whether `chrono::DateTime::parse_from_rfc3339` accepts the text.
pub uninterp spec fn rfc3339_accepts(s: Seq<char>) -> bool;

/// `uuid::Uuid::parse_str(s).is_ok()`: whether the text is one of the forms
/// its parser (uuid's `parser.rs`, `try_parse`) takes.
#[verifier::external_body]
fn uuid_parses(s: &str) -> (r: bool)
    ensures
        r == uuid_accepts(s@),
{
    uuid::Uuid::parse_str(s).is_ok()
}

/// `chrono::DateTime::parse_from_rfc3339(s).is_ok()`.
#[verifier::external_body]
fn rfc3339_parses(s: &str) -> (r: bool)
    ensures
        r == rfc3339_accepts(s@),
{
    chrono::DateTime::parse_from_rfc3339(s).is_ok()
}

// ---------------------------------------------------------------------------
// Specification
// ---------------------------------------------------------------------------

/// The error for `field` with message `field` followed by `suffix`.
pub open spec fn err(field: Seq<char>, suffix: Seq<char>, code: Seq<char>) -> ErrorModel {
    ErrorModel { field, message: field + suffix, code }
}

pub open spec fn not_string(field: Seq<char>) -> Seq<ErrorModel> {
    seq![err(field, " must be a string"@, "invalid_type"@)]
}

pub open spec fn strings_view(v: Seq<String>) -> Seq<Seq<char>> {
    v.map_values(|s: String| s@)
}

/// `{}` of an `i64`.
pub open spec fn signed_decimal(n: int) -> Seq<char> {
    if n < 0 {
        "-"@ + decimal((-n) as nat)
    } else {
        decimal(n as nat)
    }
}

/// The type errors of value `v` for a field named `name` of type `t`.
pub open spec fn type_errors(name: Seq<char>, t: FieldType, v: JModel) -> Seq<ErrorModel>
    decreases t,
{
    match t {
        FieldType::String => if v is Str {
            seq![]
        } else {
            not_string(name)
        },
        FieldType::Email => match v {
            JModel::Str(s) => if email_ok(s) {
                seq![]
            } else {
                seq![err(name, " must be a valid email address"@, "invalid_email"@)]
            },
            _ => not_string(name),
        },
        FieldType::Integer => if v is PosInt || v is NegInt {
            seq![]
        } else {
            seq![err(name, " must be an integer"@, "invalid_type"@)]
        },
        FieldType::Decimal => if v is PosInt || v is NegInt || v is Float {
            seq![]
        } else {
            seq![err(name, " must be a number"@, "invalid_type"@)]
        },
        FieldType::Boolean => if v is Bool {
            seq![]
        } else {
            seq![err(name, " must be a boolean"@, "invalid_type"@)]
        },
        FieldType::Uuid => match v {
            JModel::Str(s) => if uuid_accepts(s) {
                seq![]
            } else {
                seq![err(name, " must be a valid UUID"@, "invalid_uuid"@)]
            },
            _ => not_string(name),
        },
        FieldType::DateTime => match v {
            JModel::Str(s) => if rfc3339_accepts(s) {
                seq![]
            } else {
                seq![err(name, " must be a valid ISO 8601 datetime"@, "invalid_datetime"@)]
            },
            _ => not_string(name),
        },
        FieldType::Enum(vs) => match v {
            JModel::Str(s) => if strings_view(vs@).contains(s) {
                seq![]
            } else {
                seq![
                    err(
                        name,
                        " must be one of: "@ + join(strings_view(vs@), ", "@),
                        "invalid_enum"@,
                    ),
                ]
            },
            _ => not_string(name),
        },
        FieldType::Optional(inner) => type_errors(name, *inner, v),
    }
}

/// `v` is below `min` as `serde_json` compares: as an `i64` when it is one,
/// otherwise as an `f64`.
pub open spec fn below(v: JModel, min: int) -> bool {
    match v {
        JModel::PosInt(n) => if n <= i64::MAX {
            n < min
        } else {
            round_f64(n as int) < round_f64(min)
        },
        JModel::NegInt(n) => n < min,
        JModel::Float(b, _) => fl_order(b, round_f64(min)) < 0,
        _ => false,
    }
}

/// `v` is above `max`, compared as in `below`.
pub open spec fn above(v: JModel, max: int) -> bool {
    match v {
        JModel::PosInt(n) => if n <= i64::MAX {
            n > max
        } else {
            round_f64(n as int) > round_f64(max)
        },
        JModel::NegInt(n) => n > max,
        JModel::Float(b, _) => fl_order(b, round_f64(max)) > 0,
        _ => false,
    }
}

/// `s` matches `p`: exactly the text between `^` and `$` when `p` is anchored
/// so, otherwise as a substring.
pub open spec fn pattern_matches(s: Seq<char>, p: Seq<char>) -> bool {
    if starts_with(p, "^"@) && ends_with(p, "$"@) {
        s == p.subrange(1, p.len() - 1)
    } else {
        find(s, p) >= 0
    }
}

/// The errors constraint `c` gives for value `v` of a field named `name`.
pub open spec fn constraint_errors(name: Seq<char>, c: Constraint, v: JModel) -> Seq<ErrorModel> {
    match c {
        Constraint::MinLength(min) => match v {
            JModel::Str(s) => if utf8_len(s) < min {
                seq![
                    err(
                        name,
                        " must be at least "@ + decimal(min as nat) + " characters"@,
                        "min_length"@,
                    ),
                ]
            } else {
                seq![]
            },
            _ => seq![],
        },
        Constraint::MaxLength(max) => match v {
            JModel::Str(s) => if utf8_len(s) > max {
                seq![
                    err(
                        name,
                        " must be at most "@ + decimal(max as nat) + " characters"@,
                        "max_length"@,
                    ),
                ]
            } else {
                seq![]
            },
            _ => seq![],
        },
        Constraint::Min(min) => if below(v, min as int) {
            seq![err(name, " must be at least "@ + signed_decimal(min as int), "min"@)]
        } else {
            seq![]
        },
        Constraint::Max(max) => if above(v, max as int) {
            seq![err(name, " must be at most "@ + signed_decimal(max as int), "max"@)]
        } else {
            seq![]
        },
        Constraint::Pattern(p) => match v {
            JModel::Str(s) => if pattern_matches(s, p@) {
                seq![]
            } else {
                seq![err(name, " does not match pattern "@ + p@, "pattern"@)]
            },
            _ => seq![],
        },
        Constraint::Unique => seq![],
        Constraint::Custom(_) => seq![],
    }
}

/// The errors of the constraints `cs[i..]`, in order.
pub open spec fn constraints_errors(name: Seq<char>, cs: Seq<Constraint>, i: int, v: JModel) -> Seq<
    ErrorModel,
>
    decreases cs.len() - i,
{
    if i < 0 || i >= cs.len() {
        seq![]
    } else {
        constraint_errors(name, cs[i], v) + constraints_errors(name, cs, i + 1, v)
    }
}

/// The errors of `value` for field `f`: a missing or null value is an error
/// only for a required field whose type is not optional; a present value is
/// checked against the type, then against each constraint.
pub open spec fn field_errors(f: FieldSchema, value: Option<JModel>) -> Seq<ErrorModel> {
    let name = f.name@;
    let (inner, is_opt) = match f.field_type {
        FieldType::Optional(i) => (*i, true),
        other => (other, false),
    };
    match value {
        None => if f.required && !is_opt {
            seq![err(name, " is required"@, "required"@)]
        } else {
            seq![]
        },
        Some(JModel::Null) => if f.required && !is_opt {
            seq![err(name, " is required"@, "required"@)]
        } else {
            seq![]
        },
        Some(v) => type_errors(name, inner, v) + constraints_errors(name, f.constraints@, 0, v),
    }
}

// ---------------------------------------------------------------------------
// Validation
// ---------------------------------------------------------------------------

/// The error for `field` with message `field` followed by `suffix`.
fn make_error(field: &String, suffix: String, code: &str) -> (e: ValidationError)
    ensures
        e@ == err(field@, suffix@, code@),
{
    let mut m = field.clone();
    append_string(&mut m, &suffix);
    ValidationError { field: field.clone(), message: m, code: string_from(code) }
}

fn push_error(errors: &mut Vec<ValidationError>, e: ValidationError)
    ensures
        errs_view(final(errors)@) == errs_view(old(errors)@).push(e@),
{
    let ghost before = errors@;
    errors.push(e);
    proof {
        assert(errs_view(errors@) =~= errs_view(before).push(e@));
    }
}

fn not_string_error(errors: &mut Vec<ValidationError>, name: &String)
    ensures
        errs_view(final(errors)@) == errs_view(old(errors)@) + not_string(name@),
{
    let e = make_error(name, string_from(" must be a string"), "invalid_type");
    push_error(errors, e);
    proof {
        assert(errs_view(errors@) =~= errs_view(old(errors)@) + not_string(name@));
    }
}

/// `strings_view(vs).contains(s)`.
fn contains_string(vs: &Vec<String>, s: &String) -> (r: bool)
    ensures
        r == strings_view(vs@).contains(s@),
{
    let mut i: usize = 0;
    while i < vs.len()
        invariant
            i <= vs.len(),
            forall|j: int| 0 <= j < i ==> vs@[j]@ != s@,
        decreases vs.len() - i,
    {
        if crate::text::string_eq(&vs[i], s) {
            proof {
                assert(strings_view(vs@)[i as int] == s@);
            }
            return true;
        }
        i += 1;
    }
    proof {
        if strings_view(vs@).contains(s@) {
            let w = choose|w: int| 0 <= w < vs.len() && strings_view(vs@)[w] == s@;
            assert(vs@[w]@ == s@);
        }
    }
    false
}

/// `join(strings_view(vs), ", ")`.
fn join_strings(vs: &Vec<String>) -> (r: String)
    ensures
        r@ == join(strings_view(vs@), ", "@),
{
    let ghost all = strings_view(vs@);
    let mut out = String::new();
    let mut i: usize = 0;
    proof {
        assert(all.take(0) =~= Seq::<Seq<char>>::empty());
    }
    while i < vs.len()
        invariant
            i <= vs.len(),
            all == strings_view(vs@),
            out@ == join(all.take(i as int), ", "@),
        decreases vs.len() - i,
    {
        let ghost before = out@;
        if i > 0 {
            append_str(&mut out, ", ");
        }
        append_string(&mut out, &vs[i]);
        proof {
            let t = all.take(i + 1);
            assert(t.drop_last() =~= all.take(i as int));
            assert(t.last() == vs@[i as int]@);
            if i == 0 {
                assert(t.len() == 1);
                assert(out@ =~= t[0]);
            } else {
                assert(out@ =~= join(t.drop_last(), ", "@) + ", "@ + t.last());
            }
        }
        i += 1;
    }
    proof {
        assert(all.take(vs.len() as int) =~= all);
    }
    out
}

/// Appends the type errors of `value` for a field `name` of type `t`.
fn validate_type(name: &String, t: &FieldType, value: &JsonValue, errors: &mut Vec<ValidationError>)
    ensures
        errs_view(final(errors)@) == errs_view(old(errors)@) + type_errors(name@, *t, jm(*value)),
    decreases t,
{
    let ghost before = errs_view(errors@);
    match t {
        FieldType::String => {
            match value {
                JsonValue::Str(_) => {},
                _ => not_string_error(errors, name),
            }
        },
        FieldType::Email => {
            match value {
                JsonValue::Str(s) => {
                    if !validate_email(s.as_str()) {
                        push_error(
                            errors,
                            make_error(name, string_from(" must be a valid email address"), "invalid_email"),
                        );
                    }
                },
                _ => not_string_error(errors, name),
            }
        },
        FieldType::Integer => {
            match value {
                JsonValue::Number(JsonNumber::PosInt(_)) => {},
                JsonValue::Number(JsonNumber::NegInt(_)) => {},
                _ => push_error(errors, make_error(name, string_from(" must be an integer"), "invalid_type")),
            }
        },
        FieldType::Decimal => {
            match value {
                JsonValue::Number(_) => {},
                _ => push_error(errors, make_error(name, string_from(" must be a number"), "invalid_type")),
            }
        },
        FieldType::Boolean => {
            match value {
                JsonValue::Bool(_) => {},
                _ => push_error(errors, make_error(name, string_from(" must be a boolean"), "invalid_type")),
            }
        },
        FieldType::Uuid => {
            match value {
                JsonValue::Str(s) => {
                    if !uuid_parses(s.as_str()) {
                        push_error(
                            errors,
                            make_error(name, string_from(" must be a valid UUID"), "invalid_uuid"),
                        );
                    }
                },
                _ => not_string_error(errors, name),
            }
        },
        FieldType::DateTime => {
            match value {
                JsonValue::Str(s) => {
                    if !rfc3339_parses(s.as_str()) {
                        push_error(
                            errors,
                            make_error(
                                name,
                                string_from(" must be a valid ISO 8601 datetime"),
                                "invalid_datetime",
                            ),
                        );
                    }
                },
                _ => not_string_error(errors, name),
            }
        },
        FieldType::Enum(vs) => {
            match value {
                JsonValue::Str(s) => {
                    if !contains_string(vs, s) {
                        let mut m = string_from(" must be one of: ");
                        let j = join_strings(vs);
                        append_string(&mut m, &j);
                        push_error(errors, make_error(name, m, "invalid_enum"));
                    }
                },
                _ => not_string_error(errors, name),
            }
        },
        FieldType::Optional(inner) => {
            validate_type(name, inner, value, errors);
        },
    }
    proof {
        assert(errs_view(errors@) =~= before + type_errors(name@, *t, jm(*value)));
    }
}

/// `{}` of an `i64`, appended.
fn append_signed(s: &mut String, n: i64)
    ensures
        final(s)@ == old(s)@ + signed_decimal(n as int),
{
    if n < 0 {
        append_str(s, "-");
        let m: u64 = if n == i64::MIN {
            0x8000_0000_0000_0000
        } else {
            (-n) as u64
        };
        append_decimal(s, m);
        proof {
            assert(s@ =~= old(s)@ + ("-"@ + decimal((-(n as int)) as nat)));
        }
    } else {
        append_decimal(s, n as u64);
    }
}

/// `below(jm(v), min)`.
fn is_below(v: &JsonValue, min: i64) -> (r: bool)
    ensures
        r == below(jm(*v), min as int),
{
    match v {
        JsonValue::Number(JsonNumber::PosInt(n)) => {
            if *n <= 0x7fff_ffff_ffff_ffff {
                (*n as i64) < min
            } else {
                round_u64(*n) < round_i64(min)
            }
        },
        JsonValue::Number(JsonNumber::NegInt(n)) => *n < min,
        JsonValue::Number(JsonNumber::Float { bits, .. }) => fl_order_exec(*bits, round_i64(min)) < 0,
        _ => false,
    }
}

/// `above(jm(v), max)`.
fn is_above(v: &JsonValue, max: i64) -> (r: bool)
    ensures
        r == above(jm(*v), max as int),
{
    match v {
        JsonValue::Number(JsonNumber::PosInt(n)) => {
            if *n <= 0x7fff_ffff_ffff_ffff {
                (*n as i64) > max
            } else {
                round_u64(*n) > round_i64(max)
            }
        },
        JsonValue::Number(JsonNumber::NegInt(n)) => *n > max,
        JsonValue::Number(JsonNumber::Float { bits, .. }) => fl_order_exec(*bits, round_i64(max)) > 0,
        _ => false,
    }
}

/// `pattern_matches(s, p)`.
fn pattern_ok(s: &String, p: &String) -> (r: bool)
    ensures
        r == pattern_matches(s@, p@),
{
    let sc = crate::text::chars_of(s.as_str());
    let pc = crate::text::chars_of(p.as_str());
    let n = pc.len();
    proof {
        reveal_strlit("^");
        reveal_strlit("$");
    }
    if n >= 1 && pc[0] == '^' && pc[n - 1] == '$' {
        proof {
            assert(pc@.subrange(0, 1) =~= "^"@);
            assert(pc@.subrange(n - 1, n as int) =~= "$"@);
        }
        let inner = crate::text::slice_of(&pc, 1, if n >= 2 { n - 1 } else { 1 });
        proof {
            if n < 2 {
                assert(pc@[0] == pc@[n - 1]);
            }
        }
        return crate::text::chars_eq_string(&inner, s);
    }
    proof {
        if starts_with(pc@, "^"@) {
            assert(pc@.subrange(0, 1)[0] == pc@[0]);
        }
        if ends_with(pc@, "$"@) {
            assert(pc@.subrange(n - 1, n as int)[0] == pc@[n - 1]);
        }
    }
    crate::text::find_from_exec(&sc, &pc, 0).is_some()
}

/// Appends the errors constraint `c` gives for `value`.
fn validate_constraint(
    name: &String,
    c: &Constraint,
    value: &JsonValue,
    errors: &mut Vec<ValidationError>,
)
    ensures
        errs_view(final(errors)@) == errs_view(old(errors)@) + constraint_errors(name@, *c, jm(*value)),
{
    let ghost before = errs_view(errors@);
    match c {
        Constraint::MinLength(min) => {
            match value {
                JsonValue::Str(s) => {
                    if crate::text::utf8_len_exec(s.as_str()) < *min as u128 {
                        let mut m = string_from(" must be at least ");
                        append_decimal(&mut m, *min as u64);
                        append_str(&mut m, " characters");
                        push_error(errors, make_error(name, m, "min_length"));
                    }
                },
                _ => {},
            }
        },
        Constraint::MaxLength(max) => {
            match value {
                JsonValue::Str(s) => {
                    if crate::text::utf8_len_exec(s.as_str()) > *max as u128 {
                        let mut m = string_from(" must be at most ");
                        append_decimal(&mut m, *max as u64);
                        append_str(&mut m, " characters");
                        push_error(errors, make_error(name, m, "max_length"));
                    }
                },
                _ => {},
            }
        },
        Constraint::Min(min) => {
            if is_below(value, *min) {
                let mut m = string_from(" must be at least ");
                append_signed(&mut m, *min);
                push_error(errors, make_error(name, m, "min"));
            }
        },
        Constraint::Max(max) => {
            if is_above(value, *max) {
                let mut m = string_from(" must be at most ");
                append_signed(&mut m, *max);
                push_error(errors, make_error(name, m, "max"));
            }
        },
        Constraint::Pattern(p) => {
            match value {
                JsonValue::Str(s) => {
                    if !pattern_ok(s, p) {
                        let mut m = string_from(" does not match pattern ");
                        append_string(&mut m, p);
                        push_error(errors, make_error(name, m, "pattern"));
                    }
                },
                _ => {},
            }
        },
        Constraint::Unique => {},
        Constraint::Custom(_) => {},
    }
    proof {
        assert(errs_view(errors@) =~= before + constraint_errors(name@, *c, jm(*value)));
    }
}

/// The errors of `value` for `field` (`field_errors`).
pub fn validate_field(field: &FieldSchema, value: Option<&JsonValue>) -> (r: Vec<ValidationError>)
    ensures
        errs_view(r@) == field_errors(
            *field,
            match value {
                Some(v) => Some(jm(*v)),
                None => None,
            },
        ),
{
    let mut errors: Vec<ValidationError> = Vec::new();
    let (inner, is_opt) = match &field.field_type {
        FieldType::Optional(i) => (&**i, true),
        other => (other, false),
    };
    let absent = match value {
        None => true,
        Some(JsonValue::Null) => true,
        _ => false,
    };
    if absent {
        if field.required && !is_opt {
            push_error(&mut errors, make_error(&field.name, string_from(" is required"), "required"));
        }
        proof {
            assert(errs_view(errors@) =~= field_errors(
                *field,
                match value {
                    Some(v) => Some(jm(*v)),
                    None => None,
                },
            ));
        }
        return errors;
    }
    let v = match value {
        Some(v) => v,
        None => {
            return errors;
        },
    };
    proof {
        assert(errs_view(errors@) =~= Seq::<ErrorModel>::empty());
    }
    validate_type(&field.name, inner, v, &mut errors);
    let ghost after_type = errs_view(errors@);
    let mut i: usize = 0;
    while i < field.constraints.len()
        invariant
            i <= field.constraints.len(),
            errs_view(errors@) + constraints_errors(field.name@, field.constraints@, i as int, jm(*v))
                == after_type + constraints_errors(field.name@, field.constraints@, 0, jm(*v)),
        decreases field.constraints.len() - i,
    {
        let ghost before = errs_view(errors@);
        validate_constraint(&field.name, &field.constraints[i], v, &mut errors);
        proof {
            let cs = field.constraints@;
            assert(constraints_errors(field.name@, cs, i as int, jm(*v)) == constraint_errors(
                field.name@,
                cs[i as int],
                jm(*v),
            ) + constraints_errors(field.name@, cs, i + 1, jm(*v)));
            assert(errs_view(errors@) + constraints_errors(field.name@, cs, i + 1, jm(*v)) =~= before
                + constraints_errors(field.name@, cs, i as int, jm(*v)));
        }
        i += 1;
    }
    proof {
        assert(constraints_errors(field.name@, field.constraints@, i as int, jm(*v)) == Seq::<
            ErrorModel,
        >::empty());
        assert(errs_view(errors@) =~= after_type + constraints_errors(
            field.name@,
            field.constraints@,
            0,
            jm(*v),
        ));
    }
    errors
}

} // verus!
