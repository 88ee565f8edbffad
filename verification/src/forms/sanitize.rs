//! Sanitizers that rewrite string values of form data before validation.

use vstd::prelude::*;
use crate::text::{char_utf8_len, push_char, string_from, trim, utf8_len};
use crate::forms::json::{
    find_key, jentries, jget, jm, json_copy, lemma_jentries_len, JModel, JsonValue,
};

verus! {

#[derive(Debug, Clone)]
pub enum Sanitizer {
    Trim,
    Lowercase,
    Uppercase,
    StripHtml,
    TruncateTo(usize),
}

/// What `str::to_lowercase` gives.
pub uninterp spec fn lowercase(s: Seq<char>) -> Seq<char>;

/// What `str::to_uppercase` gives.
pub uninterp spec fn uppercase(s: Seq<char>) -> Seq<char>;

/// `str::to_lowercase`.
#[verifier::external_body]
pub(crate) fn to_lower(s: &str) -> (r: String)
    ensures
        r@ == lowercase(s@),
{
    s.to_lowercase()
}

/// `str::to_uppercase`.
#[verifier::external_body]
pub(crate) fn to_upper(s: &str) -> (r: String)
    ensures
        r@ == uppercase(s@),
{
    s.to_uppercase()
}

/// `s` with everything from a `<` up to the next `>` removed (the brackets
/// too); `in_tag` tells whether a `<` is still open.
pub open spec fn strip_from(s: Seq<char>, in_tag: bool) -> Seq<char>
    decreases s.len(),
{
    if s.len() == 0 {
        seq![]
    } else if s[0] == '<' {
        strip_from(s.drop_first(), true)
    } else if s[0] == '>' {
        strip_from(s.drop_first(), false)
    } else if !in_tag {
        seq![s[0]] + strip_from(s.drop_first(), in_tag)
    } else {
        strip_from(s.drop_first(), in_tag)
    }
}

/// The longest prefix of `s` whose UTF-8 encoding fits in `max` bytes.
pub open spec fn byte_prefix(s: Seq<char>, max: nat) -> Seq<char>
    decreases s.len(),
{
    if s.len() == 0 {
        seq![]
    } else if utf8_len(s) <= max {
        s
    } else {
        byte_prefix(s.drop_last(), max)
    }
}

/// Byte offset `max` falls on a character boundary of `s`.
pub open spec fn is_boundary(s: Seq<char>, max: nat) -> bool {
    exists|k: int| 0 <= k <= s.len() && utf8_len(#[trigger] s.take(k)) == max
}

/// What sanitizer `z` makes of the text `s`.
pub open spec fn san_str(z: Sanitizer, s: Seq<char>) -> Seq<char> {
    match z {
        Sanitizer::Trim => trim(s),
        Sanitizer::Lowercase => lowercase(s),
        Sanitizer::Uppercase => uppercase(s),
        Sanitizer::StripHtml => strip_from(s, false),
        Sanitizer::TruncateTo(m) => if utf8_len(s) > m {
            byte_prefix(s, m as nat)
        } else {
            s
        },
    }
}

/// `z` can be applied to `s`: a truncation must cut at a character boundary.
pub open spec fn san_ok(z: Sanitizer, s: Seq<char>) -> bool {
    match z {
        Sanitizer::TruncateTo(m) => utf8_len(s) <= m || is_boundary(s, m as nat),
        _ => true,
    }
}

/// What sanitizer `z` makes of a value: strings are rewritten, other values
/// kept.
pub open spec fn san_value(z: Sanitizer, v: JModel) -> JModel {
    match v {
        JModel::Str(s) => JModel::Str(san_str(z, s)),
        other => other,
    }
}

pub open spec fn san_value_ok(z: Sanitizer, v: JModel) -> bool {
    match v {
        JModel::Str(s) => san_ok(z, s),
        _ => true,
    }
}

/// The sanitizers `zs[i..]` applied in turn to `v`.
pub open spec fn chain(zs: Seq<Sanitizer>, i: int, v: JModel) -> JModel
    decreases zs.len() - i,
{
    if i < 0 || i >= zs.len() {
        v
    } else {
        chain(zs, i + 1, san_value(zs[i], v))
    }
}

/// Each sanitizer of `zs[i..]` can be applied to what the ones before it gave.
pub open spec fn chain_ok(zs: Seq<Sanitizer>, i: int, v: JModel) -> bool
    decreases zs.len() - i,
{
    if i < 0 || i >= zs.len() {
        true
    } else {
        san_value_ok(zs[i], v) && chain_ok(zs, i + 1, san_value(zs[i], v))
    }
}

pub proof fn lemma_utf8_len_take(s: Seq<char>, k: int)
    requires
        0 <= k < s.len(),
    ensures
        utf8_len(s.take(k + 1)) == utf8_len(s.take(k)) + char_utf8_len(s[k]),
{
    assert(s.take(k + 1).drop_last() =~= s.take(k));
}

fn strip_html_tags(s: &String) -> (r: String)
    ensures
        r@ == strip_from(s@, false),
{
    let cs = crate::text::chars_of(s.as_str());
    let mut out = String::new();
    let mut in_tag = false;
    let mut i: usize = 0;
    proof {
        assert(cs@.skip(0) =~= cs@);
        assert(Seq::<char>::empty() + strip_from(cs@, false) =~= strip_from(cs@, false));
    }
    while i < cs.len()
        invariant
            i <= cs.len(),
            cs@ == s@,
            out@ + strip_from(cs@.skip(i as int), in_tag) == strip_from(cs@, false),
        decreases cs.len() - i,
    {
        let c = cs[i];
        let ghost before = out@;
        proof {
            assert(cs@.skip(i as int)[0] == c);
            assert(cs@.skip(i as int).drop_first() =~= cs@.skip(i + 1));
        }
        if c == '<' {
            in_tag = true;
        } else if c == '>' {
            in_tag = false;
        } else if !in_tag {
            push_char(&mut out, c);
            proof {
                assert(out@ + strip_from(cs@.skip(i + 1), in_tag) =~= before + (seq![c]
                    + strip_from(cs@.skip(i + 1), in_tag)));
            }
        }
        i += 1;
    }
    proof {
        assert(cs@.skip(cs.len() as int) =~= Seq::<char>::empty());
        assert(out@ + Seq::<char>::empty() =~= out@);
    }
    out
}

pub proof fn lemma_byte_prefix(s: Seq<char>, max: nat, k: int)
    requires
        0 <= k <= s.len(),
        utf8_len(s.take(k)) <= max,
        k == s.len() || utf8_len(s.take(k + 1)) > max,
    ensures
        byte_prefix(s, max) == s.take(k),
    decreases s.len(),
{
    if s.len() == 0 {
        assert(s.take(k) =~= s);
    } else if k == s.len() {
        assert(s.take(k) =~= s);
    } else {
        lemma_utf8_mono(s, k + 1, s.len() as int);
        assert(s.take(s.len() as int) =~= s);
        let t = s.drop_last();
        assert(t.take(k) =~= s.take(k));
        if k + 1 <= t.len() {
            assert(t.take(k + 1) =~= s.take(k + 1));
        }
        lemma_byte_prefix(t, max, k);
    }
}

pub proof fn lemma_utf8_mono(s: Seq<char>, a: int, b: int)
    requires
        0 <= a <= b <= s.len(),
    ensures
        utf8_len(s.take(a)) <= utf8_len(s.take(b)),
    decreases b - a,
{
    if a < b {
        lemma_utf8_len_take(s, b - 1);
        lemma_utf8_mono(s, a, b - 1);
    }
}

fn truncate_bytes(s: &String, max: usize) -> (r: String)
    ensures
        r@ == (if utf8_len(s@) > max {
            byte_prefix(s@, max as nat)
        } else {
            s@
        }),
{
    let total = crate::text::utf8_len_exec(s.as_str());
    if total <= max as u128 {
        return s.clone();
    }
    let cs = crate::text::chars_of(s.as_str());
    let mut out = String::new();
    let mut n: u128 = 0;
    let mut i: usize = 0;
    proof {
        assert(cs@.take(0) =~= Seq::<char>::empty());
    }
    while i < cs.len()
        invariant
            i <= cs.len(),
            cs@ == s@,
            out@ == cs@.take(i as int),
            n == utf8_len(cs@.take(i as int)),
            n <= max,
        decreases cs.len() - i,
    {
        let c = cs[i];
        let u = c as u32;
        let k: u128 = if u < 0x80 {
            1
        } else if u < 0x800 {
            2
        } else if u < 0x10000 {
            3
        } else {
            4
        };
        proof {
            lemma_utf8_len_take(cs@, i as int);
        }
        if n + k > max as u128 {
            proof {
                lemma_byte_prefix(cs@, max as nat, i as int);
            }
            return out;
        }
        push_char(&mut out, c);
        proof {
            assert(cs@.take(i + 1) =~= cs@.take(i as int).push(c));
        }
        n = n + k;
        i += 1;
    }
    proof {
        assert(cs@.take(cs.len() as int) =~= cs@);
    }
    out
}

impl Sanitizer {
    /// What this sanitizer makes of the text `s`.
    pub fn apply_str(&self, s: &String) -> (r: String)
        requires
            san_ok(*self, s@),
        ensures
            r@ == san_str(*self, s@),
    {
        match self {
            Sanitizer::Trim => {
                let cs = crate::text::chars_of(s.as_str());
                crate::parser::lex::trimmed_string(&cs)
            },
            Sanitizer::Lowercase => to_lower(s.as_str()),
            Sanitizer::Uppercase => to_upper(s.as_str()),
            Sanitizer::StripHtml => strip_html_tags(s),
            Sanitizer::TruncateTo(m) => truncate_bytes(s, *m),
        }
    }

    /// What this sanitizer makes of a value: strings are rewritten, other
    /// values copied.
    pub fn apply(&self, value: &JsonValue) -> (r: JsonValue)
        requires
            san_value_ok(*self, jm(*value)),
        ensures
            jm(r) == san_value(*self, jm(*value)),
    {
        match value {
            JsonValue::Str(s) => JsonValue::Str(self.apply_str(s)),
            other => json_copy(other),
        }
    }
}

/// Sanitizers per field name, each name once.
pub struct SanitizerPipeline {
    field_sanitizers: Vec<(String, Vec<Sanitizer>)>,
}

/// The sanitizers registered for `f` in `es`.
pub open spec fn sans_for(es: Seq<(Seq<char>, Seq<Sanitizer>)>, f: Seq<char>) -> Option<Seq<Sanitizer>>
    decreases es.len(),
{
    if es.len() == 0 {
        None
    } else if es[0].0 == f {
        Some(es[0].1)
    } else {
        sans_for(es.drop_first(), f)
    }
}

impl SanitizerPipeline {
    pub closed spec fn entries(&self) -> Seq<(Seq<char>, Seq<Sanitizer>)> {
        self.field_sanitizers@.map_values(|e: (String, Vec<Sanitizer>)| (e.0@, e.1@))
    }

    /// Each field name is registered once.
    #[verifier::type_invariant]
    closed spec fn unique_fields(&self) -> bool {
        forall|i: int, j: int|
            0 <= i < j < self.field_sanitizers.len() ==> (#[trigger] self.field_sanitizers@[i]).0@
                != (#[trigger] self.field_sanitizers@[j]).0@
    }

    /// The sanitizers registered for field `f`.
    pub open spec fn for_field(&self, f: Seq<char>) -> Option<Seq<Sanitizer>> {
        sans_for(self.entries(), f)
    }

    pub fn new() -> (r: Self)
        ensures
            forall|f: Seq<char>| #[trigger] r.for_field(f) is None,
    {
        let r = SanitizerPipeline { field_sanitizers: Vec::new() };
        proof {
            assert(r.entries() =~= Seq::<(Seq<char>, Seq<Sanitizer>)>::empty());
        }
        r
    }

    /// Registers `sanitizers` for field `name`, in place of any before.
    pub fn field(self, name: &str, sanitizers: Vec<Sanitizer>) -> (r: Self)
        ensures
            r.for_field(name@) == Some(sanitizers@),
            forall|g: Seq<char>| g != name@ ==> #[trigger] r.for_field(g) == self.for_field(g),
    {
        proof {
            use_type_invariant(&self);
        }
        let ghost old_entries = self.entries();
        let SanitizerPipeline { field_sanitizers: mut fs } = self;
        let key = string_from(name);
        let mut i: usize = 0;
        while i < fs.len()
            invariant
                i <= fs.len(),
                fs@ == self.field_sanitizers@,
                old_entries == self.entries(),
                key@ == name@,
                forall|a: int, b: int|
                    0 <= a < b < fs.len() ==> (#[trigger] fs@[a]).0@ != (#[trigger] fs@[b]).0@,
                forall|j: int| 0 <= j < i ==> (#[trigger] fs@[j]).0@ != name@,
            decreases fs.len() - i,
        {
            if crate::text::string_eq(&fs[i].0, &key) {
                let ghost v0 = fs@;
                fs.set(i, (key, sanitizers));
                let r = SanitizerPipeline { field_sanitizers: fs };
                proof {
                    assert forall|j: int| 0 <= j < i implies (#[trigger] old_entries[j]).0 != name@ by {
                        assert(old_entries[j].0 == v0[j].0@);
                    }
                    lemma_sans_set(old_entries, i as int, name@, sanitizers@);
                    assert(r.entries() =~= old_entries.update(i as int, (name@, sanitizers@)));
                    assert forall|g: Seq<char>| g != name@ implies #[trigger] r.for_field(g)
                        == sans_for(old_entries, g) by {
                        assert(sans_for(old_entries.update(i as int, (name@, sanitizers@)), g)
                            == sans_for(old_entries, g));
                    }
                }
                return r;
            }
            i += 1;
        }
        let ghost v0 = fs@;
        fs.push((key, sanitizers));
        let r = SanitizerPipeline { field_sanitizers: fs };
        proof {
            assert forall|j: int| 0 <= j < old_entries.len() implies (#[trigger] old_entries[j]).0
                != name@ by {
                assert(old_entries[j].0 == v0[j].0@);
            }
            assert(r.entries() =~= old_entries.push((name@, sanitizers@)));
            lemma_sans_push(old_entries, name@, sanitizers@);
        }
        r
    }
}

pub proof fn lemma_sans_set(
    es: Seq<(Seq<char>, Seq<Sanitizer>)>,
    i: int,
    f: Seq<char>,
    v: Seq<Sanitizer>,
)
    requires
        0 <= i < es.len(),
        es[i].0 == f,
        forall|j: int| 0 <= j < i ==> (#[trigger] es[j]).0 != f,
    ensures
        sans_for(es.update(i, (f, v)), f) == Some(v),
        forall|g: Seq<char>| g != f ==> #[trigger] sans_for(es.update(i, (f, v)), g) == sans_for(es, g),
    decreases i,
{
    let u = es.update(i, (f, v));
    let t = es.drop_first();
    if i == 0 {
        assert(u.drop_first() =~= t);
        assert forall|g: Seq<char>| g != f implies #[trigger] sans_for(u, g) == sans_for(es, g) by {
            assert(sans_for(u, g) == sans_for(t, g));
        }
    } else {
        assert(u.drop_first() =~= t.update(i - 1, (f, v)));
        assert forall|j: int| 0 <= j < i - 1 implies (#[trigger] t[j]).0 != f by {
            assert(t[j] == es[j + 1]);
        }
        assert(t[i - 1] == es[i]);
        lemma_sans_set(t, i - 1, f, v);
        assert(u[0] == es[0]);
        assert forall|g: Seq<char>| g != f implies #[trigger] sans_for(u, g) == sans_for(es, g) by {
            if es[0].0 != g {
                assert(sans_for(u, g) == sans_for(t.update(i - 1, (f, v)), g));
            }
        }
    }
}

pub proof fn lemma_sans_push(es: Seq<(Seq<char>, Seq<Sanitizer>)>, f: Seq<char>, v: Seq<Sanitizer>)
    requires
        forall|j: int| 0 <= j < es.len() ==> (#[trigger] es[j]).0 != f,
    ensures
        sans_for(es.push((f, v)), f) == Some(v),
        forall|g: Seq<char>| g != f ==> #[trigger] sans_for(es.push((f, v)), g) == sans_for(es, g),
    decreases es.len(),
{
    let u = es.push((f, v));
    if es.len() == 0 {
        assert(u.drop_first() =~= es);
    } else {
        let t = es.drop_first();
        assert(u.drop_first() =~= t.push((f, v)));
        assert forall|j: int| 0 <= j < t.len() implies (#[trigger] t[j]).0 != f by {
            assert(t[j] == es[j + 1]);
        }
        lemma_sans_push(t, f, v);
        assert(u[0] == es[0]);
        assert forall|g: Seq<char>| g != f implies #[trigger] sans_for(u, g) == sans_for(es, g) by {
            if es[0].0 != g {
                assert(sans_for(u, g) == sans_for(t.push((f, v)), g));
            }
        }
    }
}


/// The sanitizers registered in `es[..j+1]` for `k`, from those in `es[..j]`.
pub proof fn lemma_sans_take(es: Seq<(Seq<char>, Seq<Sanitizer>)>, j: int, k: Seq<char>)
    requires
        0 <= j < es.len(),
    ensures
        sans_for(es.take(j + 1), k) == (if sans_for(es.take(j), k) is Some {
            sans_for(es.take(j), k)
        } else if es[j].0 == k {
            Some(es[j].1)
        } else {
            None::<Seq<Sanitizer>>
        }),
    decreases j,
{
    let a = es.take(j + 1);
    let b = es.take(j);
    if j == 0 {
        assert(a.drop_first() =~= Seq::<(Seq<char>, Seq<Sanitizer>)>::empty());
        assert(a[0] == es[0]);
    } else {
        let t = es.drop_first();
        assert(a.drop_first() =~= t.take(j));
        assert(b.drop_first() =~= t.take(j - 1));
        assert(a[0] == es[0] && b[0] == es[0]);
        assert(t[j - 1] == es[j]);
        lemma_sans_take(t, j - 1, k);
    }
}

/// In `es` without repeated names, the name at `j` is not registered before.
pub proof fn lemma_sans_fresh(es: Seq<(Seq<char>, Seq<Sanitizer>)>, j: int)
    requires
        0 <= j < es.len(),
        forall|a: int, b: int| 0 <= a < b < es.len() ==> (#[trigger] es[a]).0 != (#[trigger] es[b]).0,
    ensures
        sans_for(es.take(j), es[j].0) is None,
{
    let b = es.take(j);
    assert forall|i: int| 0 <= i < b.len() implies (#[trigger] b[i]).0 != es[j].0 by {
        assert(b[i] == es[i]);
    }
    lemma_sans_absent(b, es[j].0);
}

pub proof fn lemma_sans_absent(es: Seq<(Seq<char>, Seq<Sanitizer>)>, k: Seq<char>)
    requires
        forall|i: int| 0 <= i < es.len() ==> (#[trigger] es[i]).0 != k,
    ensures
        sans_for(es, k) is None,
    decreases es.len(),
{
    if es.len() > 0 {
        let t = es.drop_first();
        assert forall|i: int| 0 <= i < t.len() implies (#[trigger] t[i]).0 != k by {
            assert(t[i] == es[i + 1]);
        }
        lemma_sans_absent(t, k);
    }
}

/// Replacing the value of the first entry with key `f` changes only `f`'s
/// value.
pub proof fn lemma_jget_update(es: Seq<(Seq<char>, JModel)>, i: int, w: JModel, k: Seq<char>)
    requires
        0 <= i < es.len(),
        forall|j: int| 0 <= j < i ==> (#[trigger] es[j]).0 != es[i].0,
    ensures
        jget(es.update(i, (es[i].0, w)), k) == (if k == es[i].0 {
            Some(w)
        } else {
            jget(es, k)
        }),
    decreases i,
{
    let u = es.update(i, (es[i].0, w));
    let t = es.drop_first();
    if i == 0 {
        assert(u.drop_first() =~= t);
    } else {
        assert(u.drop_first() =~= t.update(i - 1, (t[i - 1].0, w)));
        assert(t[i - 1] == es[i]);
        assert forall|j: int| 0 <= j < i - 1 implies (#[trigger] t[j]).0 != t[i - 1].0 by {
            assert(t[j] == es[j + 1]);
        }
        lemma_jget_update(t, i - 1, w, k);
        assert(u[0] == es[0]);
    }
}

/// The sanitizers `zs` applied in turn to a copy of `v`.
fn apply_chain(zs: &Vec<Sanitizer>, v: &JsonValue) -> (r: JsonValue)
    requires
        chain_ok(zs@, 0, jm(*v)),
    ensures
        jm(r) == chain(zs@, 0, jm(*v)),
{
    let mut cur = json_copy(v);
    let mut i: usize = 0;
    while i < zs.len()
        invariant
            i <= zs.len(),
            chain(zs@, 0, jm(*v)) == chain(zs@, i as int, jm(cur)),
            chain_ok(zs@, i as int, jm(cur)),
        decreases zs.len() - i,
    {
        cur = zs[i].apply(&cur);
        i += 1;
    }
    cur
}

/// Registered sanitizers of `k` applied to its value in `es`, when both exist.
pub open spec fn after_sans(zs: Option<Seq<Sanitizer>>, v: Option<JModel>) -> Option<JModel> {
    match (zs, v) {
        (Some(z), Some(x)) => Some(chain(z, 0, x)),
        _ => v,
    }
}

impl SanitizerPipeline {
    /// Every sanitizer chain can run on the value it is registered for in `es`.
    pub open spec fn applicable(&self, es: Seq<(Seq<char>, JModel)>) -> bool {
        forall|k: Seq<char>|
            match (#[trigger] self.for_field(k), jget(es, k)) {
                (Some(zs), Some(v)) => chain_ok(zs, 0, v),
                _ => true,
            }
    }

    /// Rewrites each value of `data` whose field has sanitizers registered,
    /// applying them in order; keys and other values stay.
    pub fn apply(&self, data: &mut Vec<(String, JsonValue)>)
        requires
            self.applicable(jentries(old(data)@)),
        ensures
            final(data).len() == old(data).len(),
            forall|i: int| 0 <= i < old(data).len() ==> (#[trigger] final(data)@[i]).0@ == old(data)@[i].0@,
            forall|k: Seq<char>|
                #[trigger] jget(jentries(final(data)@), k) == after_sans(
                    self.for_field(k),
                    jget(jentries(old(data)@), k),
                ),
    {
        proof {
            use_type_invariant(self);
        }
        let ghost es = self.entries();
        let ghost start = jentries(data@);
        let mut j: usize = 0;
        proof {
            lemma_jentries_len(data@);
            assert forall|k: Seq<char>| #[trigger] jget(jentries(data@), k) == after_sans(
                sans_for(es.take(0), k),
                jget(start, k),
            ) by {
                assert(es.take(0) =~= Seq::<(Seq<char>, Seq<Sanitizer>)>::empty());
            }
        }
        while j < self.field_sanitizers.len()
            invariant
                j <= self.field_sanitizers.len(),
                es == self.entries(),
                start == jentries(old(data)@),
                self.applicable(start),
                data.len() == old(data).len(),
                forall|a: int, b: int|
                    0 <= a < b < self.field_sanitizers.len() ==> (#[trigger] self.field_sanitizers@[a]).0@
                        != (#[trigger] self.field_sanitizers@[b]).0@,
                forall|i: int| 0 <= i < old(data).len() ==> (#[trigger] data@[i]).0@ == old(data)@[i].0@,
                forall|k: Seq<char>|
                    #[trigger] jget(jentries(data@), k) == after_sans(sans_for(es.take(j as int), k), jget(start, k)),
            decreases self.field_sanitizers.len() - j,
        {
            let f = &self.field_sanitizers[j].0;
            let zs = &self.field_sanitizers[j].1;
            proof {
                assert(es[j as int] == (f@, zs@));
                assert forall|a: int, b: int| 0 <= a < b < es.len() implies (#[trigger] es[a]).0 != (
                #[trigger] es[b]).0 by {
                    assert(es[a].0 == self.field_sanitizers@[a].0@);
                    assert(es[b].0 == self.field_sanitizers@[b].0@);
                }
                lemma_sans_fresh(es, j as int);
                assert forall|k: Seq<char>| #[trigger] sans_for(es.take(j + 1), k) == (if k == f@ {
                    Some(zs@)
                } else {
                    sans_for(es.take(j as int), k)
                }) by {
                    lemma_sans_take(es, j as int, k);
                }
                assert(self.for_field(f@) == Some(zs@)) by {
                    assert(es.take(es.len() as int) =~= es);
                    let m = es.len() as int;
                    lemma_sans_prefix(es, j as int, f@);
                }
            }
            match find_key(data, f) {
                None => {
                    proof {
                        assert forall|k: Seq<char>| #[trigger] jget(jentries(data@), k) == after_sans(
                            sans_for(es.take(j + 1), k),
                            jget(start, k),
                        ) by {
                            if k == f@ {
                                assert(jget(jentries(data@), k) == after_sans(
                                    sans_for(es.take(j as int), k),
                                    jget(start, k),
                                ));
                            }
                        }
                    }
                },
                Some(i) => {
                    let ghost before = data@;
                    proof {
                        assert(jget(jentries(data@), f@) == jget(start, f@));
                        let zz = self.for_field(f@);
                        assert(match (zz, jget(start, f@)) {
                            (Some(zs), Some(v)) => chain_ok(zs, 0, v),
                            _ => true,
                        });
                    }
                    let nv = apply_chain(zs, &data[i].1);
                    let ghost nvm = jm(nv);
                    data.set(i, (f.clone(), nv));
                    proof {
                        lemma_jentries_len(before);
                        lemma_jentries_len(data@);
                        let eb = jentries(before);
                        assert(jentries(data@) =~= eb.update(i as int, (eb[i as int].0, nvm)));
                        assert forall|m: int| 0 <= m < i implies (#[trigger] eb[m]).0 != eb[i as int].0 by {
                            assert(eb[m].0 == before[m].0@);
                        }
                        assert forall|k: Seq<char>| #[trigger] jget(jentries(data@), k) == after_sans(
                            sans_for(es.take(j + 1), k),
                            jget(start, k),
                        ) by {
                            lemma_jget_update(eb, i as int, nvm, k);
                        }
                        assert forall|m: int| 0 <= m < old(data).len() implies (#[trigger] data@[m]).0@
                            == old(data)@[m].0@ by {
                            if m == i {
                                assert(data@[m].0@ == f@);
                                assert(before[m].0@ == f@);
                            }
                        }
                    }
                },
            }
            j += 1;
        }
        proof {
            assert(es.take(self.field_sanitizers.len() as int) =~= es);
        }
    }
}

/// The sanitizers registered for the name at `j` are found at `j`, when names
/// are not repeated.
pub proof fn lemma_sans_prefix(es: Seq<(Seq<char>, Seq<Sanitizer>)>, j: int, f: Seq<char>)
    requires
        0 <= j < es.len(),
        es[j].0 == f,
        forall|a: int, b: int| 0 <= a < b < es.len() ==> (#[trigger] es[a]).0 != (#[trigger] es[b]).0,
    ensures
        sans_for(es, f) == Some(es[j].1),
    decreases j,
{
    if j > 0 {
        let t = es.drop_first();
        assert(es[0].0 != f) by {
            assert(es[0].0 != es[j].0);
        }
        assert forall|a: int, b: int| 0 <= a < b < t.len() implies (#[trigger] t[a]).0 != (
        #[trigger] t[b]).0 by {
            assert(t[a] == es[a + 1]);
            assert(t[b] == es[b + 1]);
        }
        assert(t[j - 1] == es[j]);
        lemma_sans_prefix(t, j - 1, f);
    }
}

impl SanitizerPipeline {
    /// `apply` on the entries of an object value; any other value stays.
    pub fn apply_value(&self, data: &mut JsonValue)
        requires
            *old(data) matches JsonValue::Object(es) ==> self.applicable(jentries(es@)),
        ensures
            match *old(data) {
                JsonValue::Object(es) => *final(data) matches JsonValue::Object(fs) && fs.len() == es.len()
                    && (forall|i: int| 0 <= i < es.len() ==> (#[trigger] fs@[i]).0@ == es@[i].0@)
                    && forall|k: Seq<char>|
                    #[trigger] jget(jentries(fs@), k) == after_sans(self.for_field(k), jget(jentries(es@), k)),
                _ => *final(data) == *old(data),
            },
    {
        match data {
            JsonValue::Object(map) => {
                self.apply(map);
            },
            _ => {},
        }
    }
}

proof fn lemma_strip_no_brackets(s: Seq<char>, in_tag: bool)
    ensures
        forall|i: int| 0 <= i < strip_from(s, in_tag).len() ==> #[trigger] strip_from(s, in_tag)[i] != '<'
            && strip_from(s, in_tag)[i] != '>',
    decreases s.len(),
{
    if s.len() > 0 {
        let t = s.drop_first();
        lemma_strip_no_brackets(t, true);
        lemma_strip_no_brackets(t, false);
        lemma_strip_no_brackets(t, in_tag);
        if s[0] == '<' {
            assert(strip_from(s, in_tag) == strip_from(t, true));
        } else if s[0] == '>' {
            assert(strip_from(s, in_tag) == strip_from(t, false));
        } else if in_tag {
            assert(strip_from(s, in_tag) == strip_from(t, in_tag));
        } else {
            let r = strip_from(s, in_tag);
            assert forall|i: int| 0 <= i < r.len() implies #[trigger] r[i] != '<' && r[i] != '>' by {
                if i > 0 {
                    assert(r[i] == strip_from(t, in_tag)[i - 1]);
                }
            }
        }
    }
}

proof fn lemma_strip_keeps_plain(s: Seq<char>)
    requires
        forall|i: int| 0 <= i < s.len() ==> #[trigger] s[i] != '<' && s[i] != '>',
    ensures
        strip_from(s, false) == s,
    decreases s.len(),
{
    if s.len() > 0 {
        let t = s.drop_first();
        assert forall|i: int| 0 <= i < t.len() implies #[trigger] t[i] != '<' && t[i] != '>' by {
            assert(t[i] == s[i + 1]);
        }
        lemma_strip_keeps_plain(t);
        assert(seq![s[0]] + t =~= s);
    }
}

/// Stripping HTML tags twice gives what stripping once gives: what is left
/// holds no angle bracket.
pub proof fn law_strip_html_idempotent(s: Seq<char>)
    ensures
        san_str(Sanitizer::StripHtml, san_str(Sanitizer::StripHtml, s)) == san_str(Sanitizer::StripHtml, s),
{
    lemma_strip_no_brackets(s, false);
    lemma_strip_keeps_plain(strip_from(s, false));
}

/// Trimming twice gives what trimming once gives.
pub proof fn law_trim_idempotent(s: Seq<char>)
    ensures
        san_str(Sanitizer::Trim, san_str(Sanitizer::Trim, s)) == san_str(Sanitizer::Trim, s),
{
    crate::text::lemma_lead_ws_bound(s);
    let t1 = s.skip(crate::text::lead_ws(s) as int);
    crate::text::lemma_trail_ws_bound(t1);
    let t = trim(s);
    assert(t == t1.take(t1.len() - crate::text::trail_ws(t1)));
    if t.len() > 0 {
        assert(t[0] == t1[0]);
        assert(t1[0] == s[crate::text::lead_ws(s) as int]);
        assert(t[t.len() - 1] == t1[t1.len() - crate::text::trail_ws(t1) - 1]);
    }
    crate::text::lemma_lead_ws_char(t, 0);
    crate::text::lemma_trail_ws_char(t, 0);
    assert(t.skip(0) =~= t);
    assert(t.take(t.len() as int) =~= t);
}

} // verus!
