//! A form: named fields with their schemas, and rules across fields.

use vstd::prelude::*;
use crate::text::string_from;
use crate::forms::schema::FieldSchema;
use crate::forms::validation::{errs_view, for_field, ErrorModel, ValidationResult};
use crate::forms::json::{find_key, jentries, jget, jm, map_get, JModel, JsonValue};
use crate::forms::fields::{field_errors, validate_field};
use crate::forms::rules::{rule_errors, FormRule};
use crate::forms::sanitize::SanitizerPipeline;

verus! {

#[derive(Debug)]
pub struct FormSchema {
    pub name: String,
    pub fields: Vec<FieldSchema>,
    pub rules: Vec<FormRule>,
}

/// The errors of the fields `fs[i..]` for the form data `es`.
pub open spec fn fields_errors(fs: Seq<FieldSchema>, i: int, es: Seq<(Seq<char>, JModel)>) -> Seq<
    ErrorModel,
>
    decreases fs.len() - i,
{
    if i < 0 || i >= fs.len() {
        seq![]
    } else {
        field_errors(fs[i], jget(es, fs[i].name@)) + fields_errors(fs, i + 1, es)
    }
}

/// The errors of the rules `rs[i..]` for the form data `es`.
pub open spec fn rules_errors(rs: Seq<FormRule>, i: int, es: Seq<(Seq<char>, JModel)>) -> Seq<
    ErrorModel,
>
    decreases rs.len() - i,
{
    if i < 0 || i >= rs.len() {
        seq![]
    } else {
        rule_errors(rs[i], es) + rules_errors(rs, i + 1, es)
    }
}

impl FormSchema {
    /// The cross-field rules, in the order they were added.
    pub open spec fn rules_of(&self) -> Seq<FormRule> {
        self.rules@
    }

    /// All errors of the form data `es`: each field's, then each rule's.
    pub open spec fn errors_for(&self, es: Seq<(Seq<char>, JModel)>) -> Seq<ErrorModel> {
        fields_errors(self.fields@, 0, es) + rules_errors(self.rules_of(), 0, es)
    }

    pub fn new(name: &str) -> (r: Self)
        ensures
            r.name@ == name@,
            r.fields@.len() == 0,
            r.rules_of().len() == 0,
    {
        FormSchema { name: string_from(name), fields: Vec::new(), rules: Vec::new() }
    }

    /// Adds `field` after the others.
    pub fn field(self, field: FieldSchema) -> (r: Self)
        ensures
            r.name == self.name,
            r.fields@ == self.fields@.push(field),
            r.rules_of() == self.rules_of(),
    {
        let mut s = self;
        s.fields.push(field);
        s
    }

    /// Adds `rule` after the others.
    pub fn rule(self, rule: FormRule) -> (r: Self)
        ensures
            r.name == self.name,
            r.fields == self.fields,
            r.rules_of() == self.rules_of().push(rule),
    {
        let mut s = self;
        s.rules.push(rule);
        s
    }

    /// Validates the form data `data`: each field's value, then each rule.
    pub fn validate(&self, data: &Vec<(String, JsonValue)>) -> (r: ValidationResult)
        ensures
            r.wf(),
            forall|g: Seq<char>|
                #![trigger r.errors_of(g)]
                r.errors_of(g) == for_field(self.errors_for(jentries(data@)), g),
            r.all().len() == self.errors_for(jentries(data@)).len(),
            r.errors@.len() == 0 <==> self.errors_for(jentries(data@)).len() == 0,
    {
        let ghost es = jentries(data@);
        let mut result = ValidationResult::new();
        let mut i: usize = 0;
        proof {
            assert forall|g: Seq<char>| #![trigger result.errors_of(g)] result.errors_of(g)
                == for_field(Seq::<ErrorModel>::empty(), g) by {
                crate::forms::validation::lemma_empty_errors(result, g);
            }
        }
        let ghost mut done: Seq<ErrorModel> = Seq::empty();
        while i < self.fields.len()
            invariant
                i <= self.fields.len(),
                es == jentries(data@),
                result.wf(),
                done + fields_errors(self.fields@, i as int, es) == fields_errors(self.fields@, 0, es),
                forall|g: Seq<char>|
                    #![trigger result.errors_of(g)]
                    result.errors_of(g) == for_field(done, g),
                result.all().len() == done.len(),
                result.errors@.len() == 0 <==> done.len() == 0,
            decreases self.fields.len() - i,
        {
            let f = &self.fields[i];
            let v = map_get(data, &f.name);
            let errs = validate_field(f, v);
            let ghost prev = result;
            result.add_errors(&errs);
            proof {
                let fe = errs_view(errs@);
                assert(fe == field_errors(self.fields@[i as int], jget(es, self.fields@[i as int].name@)));
                assert forall|g: Seq<char>| #![trigger result.errors_of(g)] result.errors_of(g)
                    == for_field(done + fe, g) by {
                    crate::forms::validation::lemma_for_field_append(done, fe, g);
                }
                assert(done + fe + fields_errors(self.fields@, i + 1, es) =~= done + fields_errors(
                    self.fields@,
                    i as int,
                    es,
                ));
                if fe.len() == 0 {
                    assert(done + fe =~= done);
                }
                done = done + fe;
            }
            i += 1;
        }
        let mut k: usize = 0;
        let ghost fdone = done;
        proof {
            assert(fields_errors(self.fields@, i as int, es) == Seq::<ErrorModel>::empty());
            assert(done =~= fields_errors(self.fields@, 0, es));
            assert(fdone + rules_errors(self.rules@, 0, es) == done + rules_errors(self.rules@, 0, es));
        }
        while k < self.rules.len()
            invariant
                k <= self.rules.len(),
                es == jentries(data@),
                result.wf(),
                fdone == fields_errors(self.fields@, 0, es),
                fdone + rules_errors(self.rules@, 0, es) == done + rules_errors(self.rules@, k as int, es),
                forall|g: Seq<char>|
                    #![trigger result.errors_of(g)]
                    result.errors_of(g) == for_field(done, g),
                result.all().len() == done.len(),
                result.errors@.len() == 0 <==> done.len() == 0,
            decreases self.rules.len() - k,
        {
            let errs = self.rules[k].errors(data);
            result.add_errors(&errs);
            proof {
                let fe = errs_view(errs@);
                assert(fe == rule_errors(self.rules@[k as int], es));
                assert(rules_errors(self.rules@, k as int, es) == fe + rules_errors(self.rules@, k + 1, es));
                assert forall|g: Seq<char>| #![trigger result.errors_of(g)] result.errors_of(g)
                    == for_field(done + fe, g) by {
                    crate::forms::validation::lemma_for_field_append(done, fe, g);
                }
                assert(done + fe + rules_errors(self.rules@, k + 1, es) =~= done + rules_errors(
                    self.rules@,
                    k as int,
                    es,
                ));
                if fe.len() == 0 {
                    assert(done + fe =~= done);
                }
                assert(fdone + rules_errors(self.rules@, 0, es) =~= (done + fe) + rules_errors(
                    self.rules@,
                    k + 1,
                    es,
                ));
                done = done + fe;
            }
            k += 1;
        }
        proof {
            assert(rules_errors(self.rules@, k as int, es) == Seq::<ErrorModel>::empty());
            assert(done + Seq::<ErrorModel>::empty() =~= done);
            assert(done =~= self.errors_for(es));
        }
        result
    }

    /// Applies `pipeline` to `data`, then validates it.
    pub fn validate_and_sanitize(
        &self,
        data: &mut Vec<(String, JsonValue)>,
        pipeline: &SanitizerPipeline,
    ) -> (r: ValidationResult)
        requires
            pipeline.applicable(jentries(old(data)@)),
        ensures
            forall|k: Seq<char>|
                #[trigger] jget(jentries(final(data)@), k) == crate::forms::sanitize::after_sans(
                    pipeline.for_field(k),
                    jget(jentries(old(data)@), k),
                ),
            r.wf(),
            forall|g: Seq<char>|
                #![trigger r.errors_of(g)]
                r.errors_of(g) == for_field(self.errors_for(jentries(final(data)@)), g),
            r.errors@.len() == 0 <==> self.errors_for(jentries(final(data)@)).len() == 0,
    {
        pipeline.apply(data);
        self.validate(data)
    }

    /// The names of the fields, in order.
    pub fn field_names(&self) -> (r: Vec<&str>)
        ensures
            r.len() == self.fields.len(),
            forall|i: int| 0 <= i < r.len() ==> (#[trigger] r@[i])@ == self.fields@[i].name@,
    {
        let mut out: Vec<&str> = Vec::new();
        let mut i: usize = 0;
        while i < self.fields.len()
            invariant
                i <= self.fields.len(),
                out.len() == i,
                forall|j: int| 0 <= j < i ==> (#[trigger] out@[j])@ == self.fields@[j].name@,
            decreases self.fields.len() - i,
        {
            out.push(self.fields[i].name.as_str());
            i += 1;
        }
        out
    }

    /// The first field named `name`.
    pub fn get_field(&self, name: &str) -> (r: Option<&FieldSchema>)
        ensures
            match r {
                Some(f) => exists|i: int|
                    0 <= i < self.fields.len() && self.fields@[i] == *f && f.name@ == name@ && forall|
                        j: int,
                    | 0 <= j < i ==> (#[trigger] self.fields@[j]).name@ != name@,
                None => forall|i: int| 0 <= i < self.fields.len() ==> (#[trigger] self.fields@[i]).name@ != name@,
            },
    {
        let key = string_from(name);
        let mut i: usize = 0;
        while i < self.fields.len()
            invariant
                i <= self.fields.len(),
                key@ == name@,
                forall|j: int| 0 <= j < i ==> (#[trigger] self.fields@[j]).name@ != name@,
            decreases self.fields.len() - i,
        {
            if crate::text::string_eq(&self.fields[i].name, &key) {
                return Some(&self.fields[i]);
            }
            i += 1;
        }
        None
    }
}

} // verus!
