//! Rules that relate several fields of a form.

use vstd::prelude::*;
use vstd::string::*;
use crate::text::{append_str, append_string, string_from};
use crate::parser::split::join;
use crate::forms::validation::{errs_view, ErrorModel, ValidationError, ValidationResult, for_field};
use crate::forms::json::{
    append_json, jentries, jget, jeq, jm, jtext, map_get, opt_jeq, opt_jm, opt_json_eq, JModel,
    JsonValue,
};
use crate::forms::fields::strings_view;

verus! {

/// A rule over several fields of a form.
#[derive(Debug)]
pub enum FormRule {
    FieldsMatch { field_a: String, field_b: String, message: String },
    RequiredIf { field: String, condition_field: String, condition_value: JsonValue },
    RequiredUnless { field: String, condition_field: String, condition_value: JsonValue },
    MutuallyExclusive { fields: Vec<String> },
    AtLeastOneOf { fields: Vec<String>, message: String },
}

/// Absent, null, or the empty string.
pub open spec fn blank(v: Option<JModel>) -> bool {
    match v {
        None => true,
        Some(JModel::Null) => true,
        Some(JModel::Str(s)) => s.len() == 0,
        _ => false,
    }
}

/// Present and not null.
pub open spec fn set(v: Option<JModel>) -> bool {
    match v {
        Some(JModel::Null) => false,
        Some(_) => true,
        None => false,
    }
}

/// The names of `names` whose value in `es` is set, in order.
pub open spec fn set_fields(names: Seq<Seq<char>>, es: Seq<(Seq<char>, JModel)>) -> Seq<Seq<char>>
    decreases names.len(),
{
    if names.len() == 0 {
        seq![]
    } else {
        set_fields(names.drop_last(), es) + if set(jget(es, names.last())) {
            seq![names.last()]
        } else {
            seq![]
        }
    }
}

/// Some name of `names` has a value in `es` that is not blank.
pub open spec fn any_filled(names: Seq<Seq<char>>, es: Seq<(Seq<char>, JModel)>) -> bool {
    exists|i: int| 0 <= i < names.len() && !blank(jget(es, #[trigger] names[i]))
}

/// One error per name, all with `message` and code `mutually_exclusive`.
pub open spec fn exclusive_errors(names: Seq<Seq<char>>, message: Seq<char>) -> Seq<ErrorModel>
    decreases names.len(),
{
    if names.len() == 0 {
        seq![]
    } else {
        exclusive_errors(names.drop_last(), message).push(
            ErrorModel { field: names.last(), message, code: "mutually_exclusive"@ },
        )
    }
}

/// The errors `rule` gives for the form data `es`.
pub open spec fn rule_errors(rule: FormRule, es: Seq<(Seq<char>, JModel)>) -> Seq<ErrorModel> {
    match rule {
        FormRule::FieldsMatch { field_a, field_b, message } => if !opt_jeq(
            jget(es, field_a@),
            jget(es, field_b@),
        ) {
            seq![ErrorModel { field: field_b@, message: message@, code: "fields_match"@ }]
        } else {
            seq![]
        },
        FormRule::RequiredIf { field, condition_field, condition_value } => if opt_jeq(
            jget(es, condition_field@),
            Some(jm(condition_value)),
        ) && blank(jget(es, field@)) {
            seq![
                ErrorModel {
                    field: field@,
                    message: field@ + " is required when "@ + condition_field@ + " is "@ + jtext(
                        jm(condition_value),
                    ),
                    code: "required_if"@,
                },
            ]
        } else {
            seq![]
        },
        FormRule::RequiredUnless { field, condition_field, condition_value } => if !opt_jeq(
            jget(es, condition_field@),
            Some(jm(condition_value)),
        ) && blank(jget(es, field@)) {
            seq![
                ErrorModel {
                    field: field@,
                    message: field@ + " is required unless "@ + condition_field@ + " is "@ + jtext(
                        jm(condition_value),
                    ),
                    code: "required_unless"@,
                },
            ]
        } else {
            seq![]
        },
        FormRule::MutuallyExclusive { fields } => {
            let present = set_fields(strings_view(fields@), es);
            if present.len() > 1 {
                exclusive_errors(
                    present.skip(1),
                    "only one of "@ + join(strings_view(fields@), ", "@) + " can be set"@,
                )
            } else {
                seq![]
            }
        },
        FormRule::AtLeastOneOf { fields, message } => if !any_filled(strings_view(fields@), es) {
            seq![
                ErrorModel {
                    field: if fields.len() > 0 {
                        fields@[0]@
                    } else {
                        "_form"@
                    },
                    message: message@,
                    code: "at_least_one"@,
                },
            ]
        } else {
            seq![]
        },
    }
}

/// `strings_view` of the text slices `fs`.
pub open spec fn strs_view(fs: Seq<&str>) -> Seq<Seq<char>> {
    fs.map_values(|s: &str| s@)
}

fn strings_of(fs: &[&str]) -> (r: Vec<String>)
    ensures
        strings_view(r@) == strs_view(fs@),
{
    let mut out: Vec<String> = Vec::new();
    let mut i: usize = 0;
    while i < fs.len()
        invariant
            i <= fs.len(),
            strings_view(out@) == strs_view(fs@.take(i as int)),
        decreases fs.len() - i,
    {
        let ghost before = out@;
        let x = string_from(fs[i]);
        out.push(x);
        proof {
            assert(fs@.take(i + 1) =~= fs@.take(i as int).push(fs@[i as int]));
            assert(out@ == before.push(x));
            assert(strings_view(out@) =~= strings_view(before).push(x@));
            assert(strs_view(fs@.take(i + 1)) =~= strs_view(fs@.take(i as int)).push(fs@[i as int]@));
            assert(strings_view(out@) =~= strs_view(fs@.take(i + 1)));
        }
        i += 1;
    }
    proof {
        assert(fs@.take(fs.len() as int) =~= fs@);
    }
    out
}

fn join_names(vs: &Vec<String>) -> (r: String)
    ensures
        r@ == join(strings_view(vs@), ", "@),
{
    let ghost all = strings_view(vs@);
    let mut out = String::new();
    let mut i: usize = 0;
    proof {
        assert(all.take(0) =~= Seq::<Seq<char>>::empty());
    }
    while i < vs.len()
        invariant
            i <= vs.len(),
            all == strings_view(vs@),
            out@ == join(all.take(i as int), ", "@),
        decreases vs.len() - i,
    {
        if i > 0 {
            append_str(&mut out, ", ");
        }
        append_string(&mut out, &vs[i]);
        proof {
            let t = all.take(i + 1);
            assert(t.drop_last() =~= all.take(i as int));
            assert(t.last() == vs@[i as int]@);
            if i == 0 {
                assert(out@ =~= t[0]);
            } else {
                assert(out@ =~= join(t.drop_last(), ", "@) + ", "@ + t.last());
            }
        }
        i += 1;
    }
    proof {
        assert(all.take(vs.len() as int) =~= all);
    }
    out
}

impl FormRule {
    /// `field_a` and `field_b` must hold equal values; the error, on
    /// `field_b`, says "`field_a` must match `field_b`".
    pub fn fields_match(field_a: &str, field_b: &str) -> (r: Self)
        ensures
            r matches FormRule::FieldsMatch { field_a: a, field_b: b, message: m } && a@ == field_a@
                && b@ == field_b@ && m@ == field_a@ + " must match "@ + field_b@,
    {
        let mut m = string_from(field_a);
        append_str(&mut m, " must match ");
        append_str(&mut m, field_b);
        FormRule::FieldsMatch { field_a: string_from(field_a), field_b: string_from(field_b), message: m }
    }

    pub fn fields_match_with_message(field_a: &str, field_b: &str, message: &str) -> (r: Self)
        ensures
            r matches FormRule::FieldsMatch { field_a: a, field_b: b, message: m } && a@ == field_a@
                && b@ == field_b@ && m@ == message@,
    {
        FormRule::FieldsMatch {
            field_a: string_from(field_a),
            field_b: string_from(field_b),
            message: string_from(message),
        }
    }

    pub fn required_if(field: &str, condition_field: &str, condition_value: JsonValue) -> (r: Self)
        ensures
            r matches FormRule::RequiredIf { field: f, condition_field: c, condition_value: v }
                && f@ == field@ && c@ == condition_field@ && v == condition_value,
    {
        FormRule::RequiredIf {
            field: string_from(field),
            condition_field: string_from(condition_field),
            condition_value,
        }
    }

    pub fn required_unless(field: &str, condition_field: &str, condition_value: JsonValue) -> (r: Self)
        ensures
            r matches FormRule::RequiredUnless { field: f, condition_field: c, condition_value: v }
                && f@ == field@ && c@ == condition_field@ && v == condition_value,
    {
        FormRule::RequiredUnless {
            field: string_from(field),
            condition_field: string_from(condition_field),
            condition_value,
        }
    }

    pub fn mutually_exclusive(fields: &[&str]) -> (r: Self)
        ensures
            r matches FormRule::MutuallyExclusive { fields: fs } && strings_view(fs@) == strs_view(
                fields@,
            ),
    {
        FormRule::MutuallyExclusive { fields: strings_of(fields) }
    }

    /// At least one of `fields` must be filled; the error, on the first of
    /// them, says "at least one of a, b is required".
    pub fn at_least_one_of(fields: &[&str]) -> (r: Self)
        ensures
            r matches FormRule::AtLeastOneOf { fields: fs, message: m } && strings_view(fs@)
                == strs_view(fields@) && m@ == "at least one of "@ + join(strs_view(fields@), ", "@)
                + " is required"@,
    {
        let fs = strings_of(fields);
        let mut m = string_from("at least one of ");
        let names = join_names(&fs);
        append_string(&mut m, &names);
        append_str(&mut m, " is required");
        FormRule::AtLeastOneOf { fields: fs, message: m }
    }

    /// The errors of this rule for `data` (`rule_errors`).
    pub fn errors(&self, data: &Vec<(String, JsonValue)>) -> (r: Vec<ValidationError>)
        ensures
            errs_view(r@) == rule_errors(*self, jentries(data@)),
    {
        let ghost es = jentries(data@);
        let mut out: Vec<ValidationError> = Vec::new();
        match self {
            FormRule::FieldsMatch { field_a, field_b, message } => {
                let a = map_get(data, field_a);
                let b = map_get(data, field_b);
                if !opt_json_eq(a, b) {
                    out.push(
                        ValidationError {
                            field: field_b.clone(),
                            message: message.clone(),
                            code: string_from("fields_match"),
                        },
                    );
                }
            },
            FormRule::RequiredIf { field, condition_field, condition_value } => {
                let c = map_get(data, condition_field);
                if opt_json_eq(c, Some(condition_value)) && is_blank(map_get(data, field)) {
                    let mut m = field.clone();
                    append_str(&mut m, " is required when ");
                    append_string(&mut m, condition_field);
                    append_str(&mut m, " is ");
                    append_json(&mut m, condition_value);
                    out.push(
                        ValidationError {
                            field: field.clone(),
                            message: m,
                            code: string_from("required_if"),
                        },
                    );
                }
            },
            FormRule::RequiredUnless { field, condition_field, condition_value } => {
                let c = map_get(data, condition_field);
                if !opt_json_eq(c, Some(condition_value)) && is_blank(map_get(data, field)) {
                    let mut m = field.clone();
                    append_str(&mut m, " is required unless ");
                    append_string(&mut m, condition_field);
                    append_str(&mut m, " is ");
                    append_json(&mut m, condition_value);
                    out.push(
                        ValidationError {
                            field: field.clone(),
                            message: m,
                            code: string_from("required_unless"),
                        },
                    );
                }
            },
            FormRule::MutuallyExclusive { fields } => {
                let present = set_names(fields, data);
                if present.len() > 1 {
                    let mut m = string_from("only one of ");
                    let names = join_names(fields);
                    append_string(&mut m, &names);
                    append_str(&mut m, " can be set");
                    let ghost pv = strings_view(present@);
                    let mut i: usize = 1;
                    proof {
                        assert(pv.skip(1).take(0) =~= Seq::<Seq<char>>::empty());
                        assert(errs_view(out@) =~= exclusive_errors(pv.skip(1).take(0), m@));
                    }
                    while i < present.len()
                        invariant
                            1 <= i <= present.len(),
                            pv == strings_view(present@),
                            errs_view(out@) == exclusive_errors(pv.skip(1).take(i - 1), m@),
                        decreases present.len() - i,
                    {
                        let ghost before = out@;
                        let e = ValidationError {
                            field: present[i].clone(),
                            message: m.clone(),
                            code: string_from("mutually_exclusive"),
                        };
                        out.push(e);
                        proof {
                            let t = pv.skip(1).take(i as int);
                            assert(t.drop_last() =~= pv.skip(1).take(i - 1));
                            assert(t.last() == present@[i as int]@);
                            assert(out@ == before.push(e));
                            assert(errs_view(out@) =~= errs_view(before).push(e@));
                        }
                        i += 1;
                    }
                    proof {
                        assert(pv.skip(1).take(present.len() - 1) =~= pv.skip(1));
                    }
                }
            },
            FormRule::AtLeastOneOf { fields, message } => {
                if !any_filled_exec(fields, data) {
                    let f = if fields.len() > 0 {
                        fields[0].clone()
                    } else {
                        string_from("_form")
                    };
                    out.push(
                        ValidationError {
                            field: f,
                            message: message.clone(),
                            code: string_from("at_least_one"),
                        },
                    );
                }
            },
        }
        proof {
            assert(errs_view(out@) =~= rule_errors(*self, es));
        }
        out
    }

    /// Records the errors of this rule for `data` in `result`.
    pub fn validate(&self, data: &Vec<(String, JsonValue)>, result: &mut ValidationResult)
        requires
            old(result).wf(),
        ensures
            final(result).wf(),
            forall|g: Seq<char>|
                #![trigger final(result).errors_of(g)]
                final(result).errors_of(g) == old(result).errors_of(g) + for_field(
                    rule_errors(*self, jentries(data@)),
                    g,
                ),
            final(result).all().len() == old(result).all().len() + rule_errors(
                *self,
                jentries(data@),
            ).len(),
    {
        let errs = self.errors(data);
        result.add_errors(&errs);
    }
}

fn is_blank(v: Option<&JsonValue>) -> (r: bool)
    ensures
        r == blank(opt_jm(v)),
{
    match v {
        None => true,
        Some(JsonValue::Null) => true,
        Some(JsonValue::Str(s)) => s.as_str().unicode_len() == 0,
        _ => false,
    }
}

/// `set_fields` of `names`.
fn set_names(names: &Vec<String>, data: &Vec<(String, JsonValue)>) -> (r: Vec<String>)
    ensures
        strings_view(r@) == set_fields(strings_view(names@), jentries(data@)),
{
    let ghost ns = strings_view(names@);
    let mut out: Vec<String> = Vec::new();
    let mut i: usize = 0;
    proof {
        assert(ns.take(0) =~= Seq::<Seq<char>>::empty());
    }
    while i < names.len()
        invariant
            i <= names.len(),
            ns == strings_view(names@),
            strings_view(out@) == set_fields(ns.take(i as int), jentries(data@)),
        decreases names.len() - i,
    {
        let ghost before = out@;
        let v = map_get(data, &names[i]);
        let is_set = match v {
            Some(JsonValue::Null) => false,
            Some(_) => true,
            None => false,
        };
        if is_set {
            out.push(names[i].clone());
        }
        proof {
            let t = ns.take(i + 1);
            assert(t.drop_last() =~= ns.take(i as int));
            assert(t.last() == names@[i as int]@);
            assert(strings_view(out@) =~= set_fields(t, jentries(data@)));
        }
        i += 1;
    }
    proof {
        assert(ns.take(names.len() as int) =~= ns);
    }
    out
}

/// `any_filled` of `names`.
fn any_filled_exec(names: &Vec<String>, data: &Vec<(String, JsonValue)>) -> (r: bool)
    ensures
        r == any_filled(strings_view(names@), jentries(data@)),
{
    let ghost ns = strings_view(names@);
    let mut i: usize = 0;
    while i < names.len()
        invariant
            i <= names.len(),
            ns == strings_view(names@),
            forall|j: int| 0 <= j < i ==> blank(jget(jentries(data@), #[trigger] ns[j])),
        decreases names.len() - i,
    {
        let v = map_get(data, &names[i]);
        if !is_blank(v) {
            proof {
                assert(ns[i as int] == names@[i as int]@);
            }
            return true;
        }
        i += 1;
    }
    false
}

/// What `{:?}` prints for a string: the text quoted, with escapes.
pub uninterp spec fn debug_string(s: Seq<char>) -> Seq<char>;

/// `{:?}` of a `String` (std's `Debug`). The text is named, not stated.
#[verifier::external_body]
fn debug_quoted(s: &String) -> (r: String)
    ensures
        r@ == debug_string(s@),
{
    format!("{:?}", s)
}

/// `{:?}` of a list of strings: `["a", "b"]`.
pub open spec fn debug_list(names: Seq<String>) -> Seq<char> {
    "["@ + join(names.map_values(|s: String| debug_string(s@)), ", "@) + "]"@
}

/// How a rule is shown.
pub open spec fn rule_text(r: FormRule) -> Seq<char> {
    match r {
        FormRule::FieldsMatch { field_a, field_b, .. } => "FieldsMatch("@ + field_a@ + ", "@ + field_b@ + ")"@,
        FormRule::RequiredIf { field, condition_field, .. } => "RequiredIf("@ + field@ + " when "@ + condition_field@
            + ")"@,
        FormRule::RequiredUnless { field, condition_field, .. } => "RequiredUnless("@ + field@ + " unless "@
            + condition_field@ + ")"@,
        FormRule::MutuallyExclusive { fields } => "MutuallyExclusive("@ + debug_list(fields@) + ")"@,
        FormRule::AtLeastOneOf { fields, .. } => "AtLeastOneOf("@ + debug_list(fields@) + ")"@,
    }
}

fn append_debug_list(out: &mut String, names: &Vec<String>)
    ensures
        final(out)@ == old(out)@ + debug_list(names@),
{
    let ghost ds = names@.map_values(|s: String| debug_string(s@));
    append_str(out, "[");
    let ghost start = out@;
    let mut i: usize = 0;
    while i < names.len()
        invariant
            i <= names@.len(),
            ds == names@.map_values(|s: String| debug_string(s@)),
            out@ == start + join(ds.take(i as int), ", "@),
        decreases names@.len() - i,
    {
        let ghost before = out@;
        proof {
            assert(ds.take(i + 1).drop_last() =~= ds.take(i as int));
            assert(ds.take(i + 1).last() == debug_string(names@[i as int]@));
        }
        if i > 0 {
            append_str(out, ", ");
        }
        let d = debug_quoted(&names[i]);
        append_string(out, &d);
        proof {
            if i == 0 {
                assert(ds.take(1) =~= seq![ds[0]]);
                assert(join(ds.take(0), ", "@) =~= Seq::<char>::empty());
                assert(out@ =~= start + join(ds.take(1), ", "@));
            } else {
                assert(out@ =~= start + (join(ds.take(i as int), ", "@) + ", "@ + ds.take(i + 1).last()));
            }
        }
        i += 1;
    }
    append_str(out, "]");
    proof {
        assert(ds.take(names@.len() as int) =~= ds);
        assert(out@ =~= old(out)@ + debug_list(names@));
    }
}

impl FormRule {
    /// How the rule is shown: `FieldsMatch(a, b)`, `RequiredIf(f when c)`,
    /// `RequiredUnless(f unless c)`, `MutuallyExclusive(["a", "b"])`,
    /// `AtLeastOneOf(["a", "b"])`.
    pub fn describe(&self) -> (r: String)
        ensures
            r@ == rule_text(*self),
    {
        let mut s = String::new();
        match self {
            FormRule::FieldsMatch { field_a, field_b, .. } => {
                append_str(&mut s, "FieldsMatch(");
                append_string(&mut s, field_a);
                append_str(&mut s, ", ");
                append_string(&mut s, field_b);
                append_str(&mut s, ")");
            },
            FormRule::RequiredIf { field, condition_field, .. } => {
                append_str(&mut s, "RequiredIf(");
                append_string(&mut s, field);
                append_str(&mut s, " when ");
                append_string(&mut s, condition_field);
                append_str(&mut s, ")");
            },
            FormRule::RequiredUnless { field, condition_field, .. } => {
                append_str(&mut s, "RequiredUnless(");
                append_string(&mut s, field);
                append_str(&mut s, " unless ");
                append_string(&mut s, condition_field);
                append_str(&mut s, ")");
            },
            FormRule::MutuallyExclusive { fields } => {
                append_str(&mut s, "MutuallyExclusive(");
                append_debug_list(&mut s, fields);
                append_str(&mut s, ")");
            },
            FormRule::AtLeastOneOf { fields, .. } => {
                append_str(&mut s, "AtLeastOneOf(");
                append_debug_list(&mut s, fields);
                append_str(&mut s, ")");
            },
        }
        proof {
            assert(s@ =~= rule_text(*self));
        }
        s
    }
}


/// The value under `name` equals `target` (as JSON values compare).
pub open spec fn holds_value(es: Seq<(Seq<char>, JModel)>, name: Seq<char>, target: JModel) -> bool {
    jget(es, name) matches Some(v) && jeq(v, target)
}

/// A required-if rule reports one error, on the field and with code
/// `required_if`, exactly when the condition field holds the condition
/// value and the field is absent, null or empty; otherwise none.
pub proof fn law_required_if(
    field: String,
    condition_field: String,
    condition_value: JsonValue,
    es: Seq<(Seq<char>, JModel)>,
)
    ensures
        ({
            let errs = rule_errors(FormRule::RequiredIf { field, condition_field, condition_value }, es);
            &&& errs.len() <= 1
            &&& (errs.len() == 1 <==> holds_value(es, condition_field@, jm(condition_value)) && blank(
                jget(es, field@),
            ))
            &&& errs.len() == 1 ==> errs[0].field == field@ && errs[0].code == "required_if"@
                && errs[0].message == field@ + " is required when "@ + condition_field@ + " is "@
                + jtext(jm(condition_value))
        }),
{
}

/// A required-unless rule reports one error, on the field and with code
/// `required_unless`, exactly when the condition field does not hold the
/// condition value and the field is absent, null or empty; otherwise none.
pub proof fn law_required_unless(
    field: String,
    condition_field: String,
    condition_value: JsonValue,
    es: Seq<(Seq<char>, JModel)>,
)
    ensures
        ({
            let errs = rule_errors(FormRule::RequiredUnless { field, condition_field, condition_value }, es);
            &&& errs.len() <= 1
            &&& (errs.len() == 1 <==> !holds_value(es, condition_field@, jm(condition_value)) && blank(
                jget(es, field@),
            ))
            &&& errs.len() == 1 ==> errs[0].field == field@ && errs[0].code == "required_unless"@
        }),
{
}

/// A fields-match rule reports one error, on the second field, exactly when
/// the two fields do not hold equal values (both absent counting as equal).
pub proof fn law_fields_match(field_a: String, field_b: String, message: String, es: Seq<(Seq<char>, JModel)>)
    ensures
        ({
            let errs = rule_errors(FormRule::FieldsMatch { field_a, field_b, message }, es);
            &&& errs.len() <= 1
            &&& (errs.len() == 1 <==> !(match (jget(es, field_a@), jget(es, field_b@)) {
                (None, None) => true,
                (Some(a), Some(b)) => jeq(a, b),
                _ => false,
            }))
            &&& errs.len() == 1 ==> errs[0].field == field_b@ && errs[0].code == "fields_match"@
                && errs[0].message == message@
        }),
{
}

/// An at-least-one-of rule reports one error, with code `at_least_one`,
/// exactly when every listed field is absent, null or empty.
pub proof fn law_at_least_one(fields: Vec<String>, message: String, es: Seq<(Seq<char>, JModel)>)
    ensures
        ({
            let errs = rule_errors(FormRule::AtLeastOneOf { fields, message }, es);
            &&& errs.len() <= 1
            &&& (errs.len() == 1 <==> forall|i: int| 0 <= i < fields@.len() ==> blank(jget(es, (#[trigger] fields@[i])@)))
            &&& errs.len() == 1 ==> errs[0].code == "at_least_one"@ && errs[0].message == message@
        }),
{
    let names = strings_view(fields@);
    if any_filled(names, es) {
        let i = choose|i: int| 0 <= i < names.len() && !blank(jget(es, #[trigger] names[i]));
        assert(names[i] == fields@[i]@);
    } else {
        assert forall|i: int| 0 <= i < fields@.len() implies blank(jget(es, (#[trigger] fields@[i])@)) by {
            assert(names[i] == fields@[i]@);
        }
    }
}


/// Whether a name's value in `es` is present and not null.
pub open spec fn set_in(es: Seq<(Seq<char>, JModel)>) -> spec_fn(Seq<char>) -> bool {
    |f: Seq<char>| set(jget(es, f))
}

proof fn lemma_set_fields_filter(names: Seq<Seq<char>>, es: Seq<(Seq<char>, JModel)>)
    ensures
        set_fields(names, es) == names.filter(set_in(es)),
    decreases names.len(),
{
    reveal(Seq::filter);
    if names.len() > 0 {
        lemma_set_fields_filter(names.drop_last(), es);
        if set(jget(es, names.last())) {
            assert(set_fields(names, es) =~= names.drop_last().filter(set_in(es)).push(names.last()));
        } else {
            assert(set_fields(names, es) =~= names.drop_last().filter(set_in(es)));
        }
    }
}

proof fn lemma_exclusive_errors(names: Seq<Seq<char>>, message: Seq<char>)
    ensures
        exclusive_errors(names, message).len() == names.len(),
        forall|i: int| 0 <= i < names.len() ==> #[trigger] exclusive_errors(names, message)[i] == (ErrorModel {
            field: names[i],
            message,
            code: "mutually_exclusive"@,
        }),
    decreases names.len(),
{
    if names.len() > 0 {
        lemma_exclusive_errors(names.drop_last(), message);
        assert forall|i: int| 0 <= i < names.len() implies #[trigger] exclusive_errors(names, message)[i] == (ErrorModel {
            field: names[i],
            message,
            code: "mutually_exclusive"@,
        }) by {
            if i < names.len() - 1 {
                assert(names.drop_last()[i] == names[i]);
            }
        }
    }
}

/// A mutually-exclusive rule accepts at most one set field: with `k` of
/// the listed fields set, it reports `k - 1` errors, one on each set field
/// after the first, in the listed order, with code `mutually_exclusive`.
pub proof fn law_mutually_exclusive(fields: Vec<String>, es: Seq<(Seq<char>, JModel)>)
    ensures
        ({
            let present = strings_view(fields@).filter(set_in(es));
            let errs = rule_errors(FormRule::MutuallyExclusive { fields }, es);
            &&& errs.len() == if present.len() > 1 { present.len() - 1 } else { 0 }
            &&& forall|i: int| 0 <= i < errs.len() ==> (#[trigger] errs[i]).field == present[i + 1]
                && errs[i].code == "mutually_exclusive"@
        }),
{
    let names = strings_view(fields@);
    lemma_set_fields_filter(names, es);
    let present = set_fields(names, es);
    if present.len() > 1 {
        let m = "only one of "@ + join(names, ", "@) + " can be set"@;
        lemma_exclusive_errors(present.skip(1), m);
        let errs = rule_errors(FormRule::MutuallyExclusive { fields }, es);
        assert forall|i: int| 0 <= i < errs.len() implies (#[trigger] errs[i]).field == present[i + 1]
            && errs[i].code == "mutually_exclusive"@ by {
            assert(exclusive_errors(present.skip(1), m)[i] == errs[i]);
            assert(present.skip(1)[i] == present[i + 1]);
        }
    }
}

} // verus!
