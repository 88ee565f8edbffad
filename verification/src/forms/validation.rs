//! Validation errors gathered per field, and the e-mail address check.

use vstd::prelude::*;
use crate::text::{find_char, find_char_from, starts_with, ends_with, string_from};

verus! {

#[derive(Debug, Clone)]
pub struct ValidationError {
    pub field: String,
    pub message: String,
    pub code: String,
}

/// A validation error with its texts as character sequences.
pub struct ErrorModel {
    pub field: Seq<char>,
    pub message: Seq<char>,
    pub code: Seq<char>,
}

impl View for ValidationError {
    type V = ErrorModel;

    open spec fn view(&self) -> ErrorModel {
        ErrorModel { field: self.field@, message: self.message@, code: self.code@ }
    }
}

impl ValidationError {
    /// A copy of this error.
    pub fn copy(&self) -> (r: Self)
        ensures
            r@ == self@,
    {
        ValidationError {
            field: self.field.clone(),
            message: self.message.clone(),
            code: self.code.clone(),
        }
    }
}

pub open spec fn errs_view(v: Seq<ValidationError>) -> Seq<ErrorModel> {
    v.map_values(|e: ValidationError| e@)
}

/// Field name and its errors, per field that has any.
pub type Entries = Seq<(Seq<char>, Seq<ErrorModel>)>;

/// The errors recorded for `f`.
pub open spec fn lookup(es: Entries, f: Seq<char>) -> Seq<ErrorModel>
    decreases es.len(),
{
    if es.len() == 0 {
        seq![]
    } else if es[0].0 == f {
        es[0].1
    } else {
        lookup(es.drop_first(), f)
    }
}

/// All recorded errors, field after field.
pub open spec fn flatten(es: Entries) -> Seq<ErrorModel>
    decreases es.len(),
{
    if es.len() == 0 {
        seq![]
    } else {
        es[0].1 + flatten(es.drop_first())
    }
}

/// The errors of a form, grouped by field.
#[derive(Debug, Clone)]
pub struct ValidationResult {
    pub errors: Vec<(String, Vec<ValidationError>)>,
}

impl ValidationResult {
    pub open spec fn entries(&self) -> Entries {
        self.errors@.map_values(|e: (String, Vec<ValidationError>)| (e.0@, errs_view(e.1@)))
    }

    /// Each field appears once, with at least one error.
    pub open spec fn wf(&self) -> bool {
        &&& forall|i: int, j: int|
            0 <= i < j < self.errors.len() ==> (#[trigger] self.errors@[i]).0@ != (
            #[trigger] self.errors@[j]).0@
        &&& forall|i: int| 0 <= i < self.errors.len() ==> (#[trigger] self.errors@[i]).1.len() > 0
    }

    /// The errors recorded for `field`.
    pub open spec fn errors_of(&self, field: Seq<char>) -> Seq<ErrorModel> {
        lookup(self.entries(), field)
    }

    /// All recorded errors.
    pub open spec fn all(&self) -> Seq<ErrorModel> {
        flatten(self.entries())
    }

    /// A result with no errors.
    pub fn new() -> (r: Self)
        ensures
            r.wf(),
            r.errors@.len() == 0,
            r.all() == Seq::<ErrorModel>::empty(),
    {
        let r = ValidationResult { errors: Vec::new() };
        proof {
            assert(r.entries() =~= Seq::<(Seq<char>, Seq<ErrorModel>)>::empty());
        }
        r
    }

    /// No error was recorded.
    pub fn is_valid(&self) -> (r: bool)
        ensures
            r == (self.errors@.len() == 0),
    {
        self.errors.len() == 0
    }

    /// Position of the entry for `field`.
    fn position(&self, field: &String) -> (r: Option<usize>)
        ensures
            match r {
                Some(i) => i < self.errors.len() && self.errors@[i as int].0@ == field@ && forall|
                    j: int,
                | 0 <= j < i ==> (#[trigger] self.errors@[j]).0@ != field@,
                None => forall|j: int|
                    0 <= j < self.errors.len() ==> (#[trigger] self.errors@[j]).0@ != field@,
            },
    {
        let mut i: usize = 0;
        while i < self.errors.len()
            invariant
                i <= self.errors.len(),
                forall|j: int| 0 <= j < i ==> (#[trigger] self.errors@[j]).0@ != field@,
            decreases self.errors.len() - i,
        {
            if crate::text::string_eq(&self.errors[i].0, field) {
                return Some(i);
            }
            i += 1;
        }
        None
    }

    /// Records an error with `code` and `message` for `field`.
    pub fn add_error(&mut self, field: &str, code: &str, message: &str)
        requires
            old(self).wf(),
        ensures
            final(self).wf(),
            final(self).errors_of(field@) == old(self).errors_of(field@).push(
                ErrorModel { field: field@, message: message@, code: code@ },
            ),
            forall|g: Seq<char>| g != field@ ==> final(self).errors_of(g) == old(self).errors_of(g),
            final(self).all().len() == old(self).all().len() + 1,
            final(self).errors@.len() > 0,
    {
        let f = string_from(field);
        let e = ValidationError { field: string_from(field), message: string_from(message), code: string_from(code) };
        let ghost em = e@;
        let ghost before = self.entries();
        match self.position(&f) {
            Some(i) => {
                let ghost old_vec = self.errors@;
                let mut entry = self.errors.remove(i);
                let ghost old_list = entry.1@;
                entry.1.push(e);
                let ghost new_entry = entry;
                self.errors.insert(i, entry);
                proof {
                    assert(self.errors@ =~= old_vec.update(i as int, new_entry));
                    assert(new_entry.0@ == f@);
                    assert(errs_view(new_entry.1@) =~= errs_view(old_list).push(em));
                    assert(before[i as int].1 == errs_view(old_list));
                    let after = self.entries();
                    assert(after =~= before.update(
                        i as int,
                        (f@, before[i as int].1.push(em)),
                    ));
                    lemma_lookup_update(before, i as int, f@, before[i as int].1.push(em));
                    lemma_flatten_update(before, i as int, before[i as int].1.push(em));
                }
            },
            None => {
                let mut v: Vec<ValidationError> = Vec::new();
                v.push(e);
                self.errors.push((f, v));
                proof {
                    let after = self.entries();
                    assert(errs_view(v@) =~= seq![em]);
                    assert(after =~= before.push((field@, seq![em])));
                    lemma_lookup_push(before, field@, seq![em]);
                    lemma_flatten_push(before, field@, seq![em]);
                }
            },
        }
    }

    /// The errors recorded for `field`, oldest first.
    pub fn field_errors(&self, field: &str) -> (r: Vec<ValidationError>)
        ensures
            errs_view(r@) == self.errors_of(field@),
    {
        let f = string_from(field);
        match self.position(&f) {
            Some(i) => {
                proof {
                    lemma_lookup_at(self.entries(), i as int, f@);
                }
                copy_errors(&self.errors[i].1)
            },
            None => {
                proof {
                    lemma_lookup_absent(self.entries(), f@);
                    assert(errs_view(Seq::<ValidationError>::empty()) =~= Seq::<ErrorModel>::empty());
                }
                Vec::new()
            },
        }
    }

    /// Every recorded error, field after field.
    pub fn all_errors(&self) -> (r: Vec<ValidationError>)
        ensures
            errs_view(r@) == self.all(),
    {
        let ghost es = self.entries();
        let mut out: Vec<ValidationError> = Vec::new();
        let mut i: usize = 0;
        proof {
            assert(es.skip(0) =~= es);
            assert(errs_view(out@) =~= Seq::<ErrorModel>::empty());
        }
        while i < self.errors.len()
            invariant
                i <= self.errors.len(),
                es == self.entries(),
                flatten(es) == errs_view(out@) + flatten(es.skip(i as int)),
            decreases self.errors.len() - i,
        {
            let ghost before = errs_view(out@);
            let list = &self.errors[i].1;
            let mut k: usize = 0;
            while k < list.len()
                invariant
                    k <= list.len(),
                    errs_view(out@) == before + errs_view(list@.take(k as int)),
                decreases list.len() - k,
            {
                let ghost prev = out@;
                let c = list[k].copy();
                out.push(c);
                proof {
                    assert(list@.take(k + 1) =~= list@.take(k as int).push(list@[k as int]));
                    assert(out@ =~= prev.push(c));
                    assert(errs_view(out@) =~= errs_view(prev).push(c@));
                    assert(errs_view(list@.take(k + 1)) =~= errs_view(list@.take(k as int)).push(
                        list@[k as int]@,
                    ));
                    assert(errs_view(out@) =~= before + errs_view(list@.take(k + 1)));
                }
                k += 1;
            }
            proof {
                assert(list@.take(list.len() as int) =~= list@);
                assert(es.skip(i as int)[0] == es[i as int]);
                assert(es.skip(i as int).drop_first() =~= es.skip(i + 1));
                assert(flatten(es.skip(i as int)) == es[i as int].1 + flatten(es.skip(i + 1)));
                assert(errs_view(out@) + flatten(es.skip(i + 1)) =~= before + flatten(
                    es.skip(i as int),
                ));
            }
            i += 1;
        }
        proof {
            assert(es.skip(self.errors.len() as int) =~= Seq::<(Seq<char>, Seq<ErrorModel>)>::empty());
            assert(errs_view(out@) + Seq::<ErrorModel>::empty() =~= errs_view(out@));
        }
        out
    }
}

impl Default for ValidationResult {
    fn default() -> (r: Self)
        ensures
            r.wf(),
            r.errors@.len() == 0,
    {
        ValidationResult::new()
    }
}

/// The errors of `errs` that belong to field `g`, in order.
pub open spec fn for_field(errs: Seq<ErrorModel>, g: Seq<char>) -> Seq<ErrorModel>
    decreases errs.len(),
{
    if errs.len() == 0 {
        seq![]
    } else {
        for_field(errs.drop_last(), g) + if errs.last().field == g {
            seq![errs.last()]
        } else {
            seq![]
        }
    }
}

impl ValidationResult {
    /// Records each error of `errs`, in order.
    pub fn add_errors(&mut self, errs: &Vec<ValidationError>)
        requires
            old(self).wf(),
        ensures
            final(self).wf(),
            forall|g: Seq<char>|
                #![trigger final(self).errors_of(g)]
                final(self).errors_of(g) == old(self).errors_of(g) + for_field(errs_view(errs@), g),
            final(self).all().len() == old(self).all().len() + errs.len(),
            errs.len() > 0 ==> final(self).errors@.len() > 0,
            errs.len() == 0 ==> final(self).errors@.len() == old(self).errors@.len(),
    {
        let ghost start = *self;
        let mut i: usize = 0;
        proof {
            assert forall|g: Seq<char>| #![trigger self.errors_of(g)] self.errors_of(g) == start.errors_of(g)
                + for_field(errs_view(errs@.take(0)), g) by {
                assert(errs_view(errs@.take(0)) =~= Seq::<ErrorModel>::empty());
                assert(start.errors_of(g) + Seq::<ErrorModel>::empty() =~= start.errors_of(g));
            }
        }
        while i < errs.len()
            invariant
                i <= errs.len(),
                self.wf(),
                forall|g: Seq<char>|
                    #![trigger self.errors_of(g)]
                    self.errors_of(g) == start.errors_of(g) + for_field(errs_view(errs@.take(i as int)), g),
                self.all().len() == start.all().len() + i,
                i > 0 ==> self.errors@.len() > 0,
                i == 0 ==> self.errors@.len() == start.errors@.len(),
            decreases errs.len() - i,
        {
            let ghost before = *self;
            let e = &errs[i];
            self.add_error(e.field.as_str(), e.code.as_str(), e.message.as_str());
            proof {
                let t = errs_view(errs@.take(i + 1));
                assert(errs@.take(i + 1).drop_last() =~= errs@.take(i as int));
                assert(t.drop_last() =~= errs_view(errs@.take(i as int)));
                assert(t.last() == e@);
                assert forall|g: Seq<char>| #![trigger self.errors_of(g)] self.errors_of(g) == start.errors_of(g)
                    + for_field(t, g) by {
                    assert(for_field(t, g) == for_field(errs_view(errs@.take(i as int)), g) + if e@.field
                        == g {
                        seq![e@]
                    } else {
                        seq![]
                    });
                    if g == e@.field {
                        assert(self.errors_of(g) == before.errors_of(g).push(e@));
                        assert(self.errors_of(g) =~= start.errors_of(g) + for_field(t, g));
                    } else {
                        assert(self.errors_of(g) == before.errors_of(g));
                        assert(self.errors_of(g) =~= start.errors_of(g) + for_field(t, g));
                    }
                }
            }
            i += 1;
        }
        proof {
            assert(errs@.take(errs.len() as int) =~= errs@);
        }
    }
}

/// The errors of two lists for a field are those of the first, then those of
/// the second.
pub proof fn lemma_for_field_append(a: Seq<ErrorModel>, b: Seq<ErrorModel>, g: Seq<char>)
    ensures
        for_field(a + b, g) == for_field(a, g) + for_field(b, g),
    decreases b.len(),
{
    if b.len() == 0 {
        assert(a + b =~= a);
        assert(for_field(a, g) + Seq::<ErrorModel>::empty() =~= for_field(a, g));
    } else {
        assert((a + b).drop_last() =~= a + b.drop_last());
        assert((a + b).last() == b.last());
        lemma_for_field_append(a, b.drop_last(), g);
        let tail: Seq<ErrorModel> = if b.last().field == g {
            seq![b.last()]
        } else {
            seq![]
        };
        assert(for_field(a + b, g) == for_field(a + b.drop_last(), g) + tail);
        assert(for_field(b, g) == for_field(b.drop_last(), g) + tail);
        assert(for_field(a, g) + for_field(b.drop_last(), g) + tail =~= for_field(a, g) + (for_field(
            b.drop_last(),
            g,
        ) + tail));
    }
}

/// A result without entries has no errors for any field.
pub proof fn lemma_empty_errors(r: ValidationResult, g: Seq<char>)
    requires
        r.errors@.len() == 0,
    ensures
        r.errors_of(g) == for_field(Seq::<ErrorModel>::empty(), g),
{
    assert(r.entries() =~= Seq::<(Seq<char>, Seq<ErrorModel>)>::empty());
}

fn copy_errors(v: &Vec<ValidationError>) -> (r: Vec<ValidationError>)
    ensures
        errs_view(r@) == errs_view(v@),
{
    let mut out: Vec<ValidationError> = Vec::new();
    let mut k: usize = 0;
    while k < v.len()
        invariant
            k <= v.len(),
            errs_view(out@) == errs_view(v@.take(k as int)),
        decreases v.len() - k,
    {
        let ghost before = out@;
        let c = v[k].copy();
        out.push(c);
        proof {
            assert(v@.take(k + 1) =~= v@.take(k as int).push(v@[k as int]));
            assert(out@ =~= before.push(c));
            assert(errs_view(out@) =~= errs_view(before).push(c@));
            assert(errs_view(v@.take(k + 1)) =~= errs_view(v@.take(k as int)).push(v@[k as int]@));
        }
        k += 1;
    }
    proof {
        assert(v@.take(v.len() as int) =~= v@);
    }
    out
}

/// The entry at `i` is the first with key `f`.
pub proof fn lemma_lookup_at(es: Entries, i: int, f: Seq<char>)
    requires
        0 <= i < es.len(),
        es[i].0 == f,
        forall|j: int| 0 <= j < i ==> (#[trigger] es[j]).0 != f,
    ensures
        lookup(es, f) == es[i].1,
    decreases i,
{
    if i > 0 {
        let t = es.drop_first();
        assert forall|j: int| 0 <= j < i - 1 implies (#[trigger] t[j]).0 != f by {
            assert(t[j] == es[j + 1]);
        }
        lemma_lookup_at(t, i - 1, f);
    }
}

pub proof fn lemma_lookup_absent(es: Entries, f: Seq<char>)
    requires
        forall|j: int| 0 <= j < es.len() ==> (#[trigger] es[j]).0 != f,
    ensures
        lookup(es, f) == Seq::<ErrorModel>::empty(),
    decreases es.len(),
{
    if es.len() > 0 {
        let t = es.drop_first();
        assert forall|j: int| 0 <= j < t.len() implies (#[trigger] t[j]).0 != f by {
            assert(t[j] == es[j + 1]);
        }
        lemma_lookup_absent(t, f);
    }
}

/// Replacing the errors of the entry at `i` changes only its key's lookup,
/// when keys are unique.
pub proof fn lemma_lookup_update(es: Entries, i: int, f: Seq<char>, v: Seq<ErrorModel>)
    requires
        0 <= i < es.len(),
        es[i].0 == f,
        forall|a: int, b: int| 0 <= a < b < es.len() ==> (#[trigger] es[a]).0 != (#[trigger] es[b]).0,
    ensures
        lookup(es.update(i, (f, v)), f) == v,
        lookup(es, f) == es[i].1,
        forall|g: Seq<char>| g != f ==> lookup(es.update(i, (f, v)), g) == lookup(es, g),
    decreases es.len(),
{
    let t = es.drop_first();
    let u = es.update(i, (f, v));
    if i == 0 {
        assert(u.drop_first() =~= t);
        assert(u[0] == (f, v));
    } else {
        assert(u.drop_first() =~= t.update(i - 1, (f, v)));
        assert forall|a: int, b: int| 0 <= a < b < t.len() implies (#[trigger] t[a]).0 != (
        #[trigger] t[b]).0 by {
            assert(t[a] == es[a + 1]);
            assert(t[b] == es[b + 1]);
        }
        assert(t[i - 1] == es[i]);
        lemma_lookup_update(t, i - 1, f, v);
        assert(es[0].0 != f) by {
            assert(es[0].0 != es[i].0);
        }
        assert(u[0] == es[0]);
    }
    assert forall|g: Seq<char>| g != f implies lookup(u, g) == lookup(es, g) by {
        if i > 0 {
            assert(u[0] == es[0]);
            if es[0].0 != g {
                assert(lookup(u, g) == lookup(t.update(i - 1, (f, v)), g));
                assert(lookup(es, g) == lookup(t, g));
            }
        } else {
            assert(lookup(u, g) == lookup(t, g));
            assert(es[0].0 == f);
            assert(lookup(es, g) == lookup(t, g));
        }
    }
}

pub proof fn lemma_lookup_push(es: Entries, f: Seq<char>, v: Seq<ErrorModel>)
    requires
        forall|j: int| 0 <= j < es.len() ==> (#[trigger] es[j]).0 != f,
    ensures
        lookup(es.push((f, v)), f) == v,
        lookup(es, f) == Seq::<ErrorModel>::empty(),
        forall|g: Seq<char>| g != f ==> lookup(es.push((f, v)), g) == lookup(es, g),
    decreases es.len(),
{
    lemma_lookup_absent(es, f);
    let u = es.push((f, v));
    if es.len() > 0 {
        let t = es.drop_first();
        assert(u.drop_first() =~= t.push((f, v)));
        assert forall|j: int| 0 <= j < t.len() implies (#[trigger] t[j]).0 != f by {
            assert(t[j] == es[j + 1]);
        }
        lemma_lookup_push(t, f, v);
        assert(u[0] == es[0]);
        assert forall|g: Seq<char>| g != f implies lookup(u, g) == lookup(es, g) by {
            if es[0].0 != g {
                assert(lookup(u, g) == lookup(t.push((f, v)), g));
                assert(lookup(es, g) == lookup(t, g));
            }
        }
    } else {
        assert(u.drop_first() =~= es);
        assert(u[0] == (f, v));
        assert forall|g: Seq<char>| g != f implies lookup(u, g) == lookup(es, g) by {
            assert(lookup(u, g) == lookup(es, g));
        }
    }
}

pub proof fn lemma_flatten_update(es: Entries, i: int, v: Seq<ErrorModel>)
    requires
        0 <= i < es.len(),
    ensures
        flatten(es.update(i, (es[i].0, v))).len() == flatten(es).len() - es[i].1.len() + v.len(),
    decreases es.len(),
{
    let t = es.drop_first();
    if i == 0 {
        assert(es.update(i, (es[i].0, v)).drop_first() =~= t);
    } else {
        assert(es.update(i, (es[i].0, v)).drop_first() =~= t.update(i - 1, (es[i].0, v)));
        assert(t[i - 1] == es[i]);
        lemma_flatten_update(t, i - 1, v);
    }
}

pub proof fn lemma_flatten_push(es: Entries, f: Seq<char>, v: Seq<ErrorModel>)
    ensures
        flatten(es.push((f, v))) == flatten(es) + v,
    decreases es.len(),
{
    if es.len() == 0 {
        assert(es.push((f, v)).drop_first() =~= es);
        assert(v + Seq::<ErrorModel>::empty() =~= v);
        assert(Seq::<ErrorModel>::empty() + v =~= v);
    } else {
        let t = es.drop_first();
        assert(es.push((f, v)).drop_first() =~= t.push((f, v)));
        lemma_flatten_push(t, f, v);
        assert(es[0].1 + (flatten(t) + v) =~= (es[0].1 + flatten(t)) + v);
    }
}

// ---------------------------------------------------------------------------
// E-mail addresses
// ---------------------------------------------------------------------------

/// A practical e-mail check: a single `@`, a non-empty local part without
/// spaces before it, and after it a non-empty domain that holds a `.` but
/// neither starts nor ends with one.
pub open spec fn email_ok(e: Seq<char>) -> bool {
    let i = find_char(e, '@');
    &&& i >= 0
    &&& i > 0
    &&& e.skip(i + 1).len() > 0
    &&& !e.skip(i + 1).contains('@')
    &&& e.skip(i + 1).contains('.')
    &&& !starts_with(e.skip(i + 1), "."@)
    &&& !ends_with(e.skip(i + 1), "."@)
    &&& !e.take(i).contains(' ')
}

fn contains_char(v: &Vec<char>, lo: usize, hi: usize, c: char) -> (r: bool)
    requires
        lo <= hi <= v.len(),
    ensures
        r == v@.subrange(lo as int, hi as int).contains(c),
{
    let mut i = lo;
    while i < hi
        invariant
            lo <= i <= hi,
            hi <= v.len(),
            forall|j: int| lo <= j < i ==> v@[j] != c,
        decreases hi - i,
    {
        if v[i] == c {
            proof {
                assert(v@.subrange(lo as int, hi as int)[i - lo] == c);
            }
            return true;
        }
        i += 1;
    }
    proof {
        if v@.subrange(lo as int, hi as int).contains(c) {
            let w = choose|w: int| 0 <= w < hi - lo && v@.subrange(lo as int, hi as int)[w] == c;
            assert(v@[lo + w] == c);
        }
    }
    false
}

/// Whether `email` looks like an e-mail address (`email_ok`).
pub fn validate_email(email: &str) -> (r: bool)
    ensures
        r == email_ok(email@),
{
    let e = crate::text::chars_of(email);
    proof {
        assert(e@.skip(0) =~= e@);
        reveal_strlit(".");
    }
    let i = match find_char_from(&e, '@', 0) {
        None => return false,
        Some(i) => i,
    };
    proof {
        assert(e@.take(i as int) =~= e@.subrange(0, i as int));
        assert(e@.skip(i + 1) =~= e@.subrange(i + 1, e@.len() as int));
    }
    if i == 0 || i + 1 >= e.len() {
        return false;
    }
    if contains_char(&e, i + 1, e.len(), '@') {
        return false;
    }
    if !contains_char(&e, i + 1, e.len(), '.') {
        return false;
    }
    if e[i + 1] == '.' || e[e.len() - 1] == '.' {
        proof {
            let d = e@.skip(i + 1);
            if e@[i + 1] == '.' {
                assert(d.subrange(0, 1) =~= "."@);
            } else {
                assert(d.subrange(d.len() - 1, d.len() as int) =~= "."@);
            }
        }
        return false;
    }
    proof {
        let d = e@.skip(i + 1);
        assert(d[0] == e@[i + 1]);
        assert(d.last() == e@[e.len() - 1]);
        if starts_with(d, "."@) {
            assert(d.subrange(0, 1)[0] == d[0]);
        }
        if ends_with(d, "."@) {
            assert(d.subrange(d.len() - 1, d.len() as int)[0] == d.last());
        }
    }
    !contains_char(&e, 0, i, ' ')
}

} // verus!
