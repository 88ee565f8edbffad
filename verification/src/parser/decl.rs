//! Single declarations of the script and resource grammars: names with types,
//! defaults, parameter lists, constraints and attribute annotations.

use vstd::prelude::*;
use crate::text::{
    find_char, find_char_from, lemma_find_char, parse_unsigned, parse_unsigned_exec, slice_of,
    starts_with, string_from, append_string, trim, trim_bounds, occurs_at,
};
use crate::parser::ast::{FieldConstraint, FormFieldDecl, ParamDecl};
use crate::parser::error::{ErrModel, ParseError, ParseResult};
use crate::parser::lex::{
    strip_prefix_all, strip_prefix_all_from, strip_suffix_all, strip_suffix_all_to, to_string,
    trimmed, trimmed_string, unquote, unquote_exec, starts_with_at,
};
use crate::parser::model::{params_view, FormFieldModel, ParamModel};
use crate::parser::split::{
    first_top_sep, first_top_sep_exec, join, lemma_first_top_sep, top_split, top_split_exec,
    words, words_exec, Sep,
};

verus! {

pub open spec fn vopt(o: Option<Vec<char>>) -> Option<Seq<char>> {
    match o {
        Some(v) => Some(v@),
        None => None,
    }
}

// ---------------------------------------------------------------------------
// name: Type = default
// ---------------------------------------------------------------------------

/// `name: Type = default` split at the first `=` outside brackets into the
/// trimmed left side and the trimmed default; without such `=`, the text as
/// it is and no default.
pub open spec fn default_split(s: Seq<char>) -> (Seq<char>, Option<Seq<char>>) {
    let p = first_top_sep(s, Sep::Equals, 0, 0);
    if p < 0 {
        (s, None)
    } else {
        (trim(s.take(p)), Some(trim(s.skip(p + 1))))
    }
}

pub fn split_default(s: &Vec<char>) -> (r: (Vec<char>, Option<Vec<char>>))
    ensures
        (r.0@, vopt(r.1)) == default_split(s@),
{
    proof {
        assert(s@.subrange(0, s@.len() as int) =~= s@);
    }
    match first_top_sep_exec(s, 0, s.len(), Sep::Equals) {
        None => (slice_of(s, 0, s.len()), None),
        Some(p) => {
            proof {
                assert(s@.take(p as int) =~= s@.subrange(0, p as int));
                assert(s@.skip(p + 1) =~= s@.subrange(p + 1, s@.len() as int));
            }
            let (a, b) = trim_bounds(s, 0, p);
            let (c, d) = trim_bounds(s, p + 1, s.len());
            (slice_of(s, a, b), Some(slice_of(s, c, d)))
        },
    }
}

/// `name: Type` split at the first `:`, both sides trimmed.
pub open spec fn name_type(s: Seq<char>) -> Option<(Seq<char>, Seq<char>)> {
    let c = find_char(s, ':');
    if c < 0 {
        None
    } else {
        Some((trim(s.take(c)), trim(s.skip(c + 1))))
    }
}

/// The syntax error (at line 0, column 0) with `message`.
pub open spec fn is_syntax_error(e: ParseError, line: int, col: int, message: Seq<char>) -> bool {
    match e {
        ParseError::Syntax { line: l, col: c, message: m } => l == line && c == col && m@
            == message,
        _ => false,
    }
}

/// The error `split_name_type` gives for `s`, which has no `:`.
pub open spec fn name_type_error(s: Seq<char>) -> ErrModel {
    ErrModel::Syntax { line: 0, col: 0, message: "Expected `name: Type` in declaration, got: "@ + s }
}

pub fn split_name_type(s: &Vec<char>) -> (r: ParseResult<(String, String)>)
    ensures
        match r {
            Ok((n, t)) => name_type(s@) == Some((n@, t@)),
            Err(e) => name_type(s@) is None && is_syntax_error(
                e,
                0,
                0,
                "Expected `name: Type` in declaration, got: "@ + s@,
            ),
        },
{
    proof {
        assert(s@.skip(0) =~= s@);
    }
    match find_char_from(s, ':', 0) {
        None => {
            let mut m = string_from("Expected `name: Type` in declaration, got: ");
            let t = to_string(s);
            append_string(&mut m, &t);
            Err(ParseError::Syntax { line: 0, col: 0, message: m })
        },
        Some(c) => {
            proof {
                assert(s@.take(c as int) =~= s@.subrange(0, c as int));
                assert(s@.skip(c + 1) =~= s@.subrange(c + 1, s@.len() as int));
            }
            let (a, b) = trim_bounds(s, 0, c);
            let (x, y) = trim_bounds(s, c + 1, s.len());
            let n = crate::text::string_of(s, a, b);
            let t = crate::text::string_of(s, x, y);
            Ok((n, t))
        },
    }
}

// ---------------------------------------------------------------------------
// Parameter lists
// ---------------------------------------------------------------------------

/// The parameters declared by the comma-separated `parts`; `None` when a
/// non-empty part has no `:`.
pub open spec fn params_of(parts: Seq<Seq<char>>) -> Option<Seq<ParamModel>>
    decreases parts.len(),
{
    if parts.len() == 0 {
        Some(seq![])
    } else {
        match params_of(parts.drop_last()) {
            None => None,
            Some(r) => {
                let p = trim(parts.last());
                if p.len() == 0 {
                    Some(r)
                } else {
                    match name_type(p) {
                        None => None,
                        Some((n, t)) => Some(r.push(ParamModel { name: n, ty: t })),
                    }
                }
            },
        }
    }
}

/// The error of the first malformed part of `parts`: the first non-blank
/// one without a `:` (meaningful when `params_of(parts)` is `None`).
pub open spec fn params_error(parts: Seq<Seq<char>>) -> ErrModel
    decreases parts.len(),
{
    if parts.len() == 0 {
        name_type_error(seq![])
    } else if params_of(parts.drop_last()) is None {
        params_error(parts.drop_last())
    } else {
        name_type_error(trim(parts.last()))
    }
}

/// The error of a malformed parameter list.
pub open spec fn param_list_error(s: Seq<char>) -> ErrModel {
    params_error(top_split(trim(s), Sep::Comma))
}

/// `name: Type, name: Type, ...`; empty text declares no parameter.
pub open spec fn param_list(s: Seq<char>) -> Option<Seq<ParamModel>> {
    let t = trim(s);
    if t.len() == 0 {
        Some(seq![])
    } else {
        params_of(top_split(t, Sep::Comma))
    }
}

/// The parameters declared in `s[lo..hi]`.
pub fn parse_param_list(s: &Vec<char>, lo: usize, hi: usize) -> (r: ParseResult<Vec<ParamDecl>>)
    requires
        lo <= hi <= s.len(),
    ensures
        match r {
            Ok(ps) => param_list(s@.subrange(lo as int, hi as int)) == Some(params_view(ps@)),
            Err(e) => param_list(s@.subrange(lo as int, hi as int)) is None && e@ == param_list_error(
                s@.subrange(lo as int, hi as int),
            ),
        },
{
    let (a, b) = trim_bounds(s, lo, hi);
    let mut out: Vec<ParamDecl> = Vec::new();
    if a == b {
        proof {
            assert(params_view(out@) =~= Seq::<ParamModel>::empty());
        }
        return Ok(out);
    }
    let parts = top_split_exec(s, a, b, Sep::Comma);
    let ghost whole = top_split(s@.subrange(a as int, b as int), Sep::Comma);
    let mut i: usize = 0;
    proof {
        assert(whole.take(0) =~= Seq::<Seq<char>>::empty());
        assert(params_view(out@) =~= Seq::<ParamModel>::empty());
    }
    while i < parts.len()
        invariant
            i <= parts.len(),
            parts.len() == whole.len(),
            a <= b <= s.len(),
            a < b,
            lo <= hi <= s.len(),
            trim(s@.subrange(lo as int, hi as int)) == s@.subrange(a as int, b as int),
            whole == top_split(s@.subrange(a as int, b as int), Sep::Comma),
            forall|j: int|
                0 <= j < parts.len() ==> {
                    &&& a <= (#[trigger] parts@[j]).0 <= parts@[j].1 <= b
                    &&& s@.subrange(parts@[j].0 as int, parts@[j].1 as int) == whole[j]
                },
            params_of(whole.take(i as int)) == Some(params_view(out@)),
        decreases parts.len() - i,
    {
        let (x, y) = parts[i];
        let part = slice_of(s, x, y);
        let p = trimmed(&part);
        proof {
            assert(s@.subrange(parts@[i as int].0 as int, parts@[i as int].1 as int) == whole[i as int]);
            assert(part@ == whole[i as int]);
            assert(whole.take(i + 1).drop_last() =~= whole.take(i as int));
            assert(whole.take(i + 1).last() == whole[i as int]);
        }
        let ghost old_out = out@;
        if p.len() > 0 {
            match split_name_type(&p) {
                Err(e) => {
                    proof {
                        assert(p@ == trim(whole[i as int]));
                        assert(params_of(whole.take(i + 1)) is None);
                        assert(e@ == name_type_error(p@));
                        assert(params_error(whole.take(i + 1)) == name_type_error(p@));
                        lemma_params_none_extends(whole, i + 1);
                        assert(trim(s@.subrange(lo as int, hi as int)) == s@.subrange(a as int, b as int));
                        assert(param_list(s@.subrange(lo as int, hi as int)) == params_of(whole));
                    }
                    return Err(e);
                },
                Ok((n, t)) => {
                    let pd = ParamDecl { name: n, ty: t };
                    out.push(pd);
                    proof {
                        assert(params_view(out@) =~= params_view(old_out).push(
                            ParamModel { name: n@, ty: t@ },
                        ));
                    }
                },
            }
        }
        i += 1;
    }
    proof {
        assert(whole.take(parts.len() as int) =~= whole);
    }
    Ok(out)
}

/// Once a prefix of the parts fails, every longer prefix fails.
pub proof fn lemma_params_none_extends(parts: Seq<Seq<char>>, k: int)
    requires
        0 <= k <= parts.len(),
        params_of(parts.take(k)) is None,
    ensures
        params_of(parts) is None,
        params_error(parts) == params_error(parts.take(k)),
    decreases parts.len() - k,
{
    if k < parts.len() {
        assert(parts.take(k + 1).drop_last() =~= parts.take(k));
        lemma_params_none_extends(parts, k + 1);
    } else {
        assert(parts.take(k) =~= parts);
    }
}

// ---------------------------------------------------------------------------
// Field constraints
// ---------------------------------------------------------------------------

/// The constraint a whitespace word stands for, if any.
pub open spec fn constraint_of(w: Seq<char>) -> Option<FieldConstraint> {
    if w == "required"@ {
        Some(FieldConstraint::Required)
    } else if w == "optional"@ {
        Some(FieldConstraint::Optional)
    } else if w == "unique"@ {
        Some(FieldConstraint::Unique)
    } else if w == "searchable"@ {
        Some(FieldConstraint::Searchable)
    } else if w == "readonly"@ {
        Some(FieldConstraint::Readonly)
    } else if starts_with(w, "min="@) && parse_unsigned(w.skip(4), usize::MAX as nat) is Some {
        Some(FieldConstraint::Min(parse_unsigned(w.skip(4), usize::MAX as nat)->0 as usize))
    } else if starts_with(w, "max="@) && parse_unsigned(w.skip(4), usize::MAX as nat) is Some {
        Some(FieldConstraint::Max(parse_unsigned(w.skip(4), usize::MAX as nat)->0 as usize))
    } else {
        None
    }
}

/// The constraints named by the words `ws`, in order; other words are ignored.
pub open spec fn constraints_of(ws: Seq<Seq<char>>) -> Seq<FieldConstraint>
    decreases ws.len(),
{
    if ws.len() == 0 {
        seq![]
    } else {
        match constraint_of(ws.last()) {
            Some(c) => constraints_of(ws.drop_last()).push(c),
            None => constraints_of(ws.drop_last()),
        }
    }
}

pub open spec fn field_constraints(s: Seq<char>) -> Seq<FieldConstraint> {
    constraints_of(words(s))
}

fn word_is(s: &Vec<char>, a: usize, b: usize, lit: &str) -> (r: bool)
    requires
        a <= b <= s.len(),
    ensures
        r == (s@.subrange(a as int, b as int) == lit@),
{
    let w = slice_of(s, a, b);
    crate::text::eq_lit(&w, lit)
}

/// The constraint named by the word `s[a..b]`.
fn constraint_exec(s: &Vec<char>, a: usize, b: usize) -> (r: Option<FieldConstraint>)
    requires
        a <= b <= s.len(),
    ensures
        r == constraint_of(s@.subrange(a as int, b as int)),
{
    let ghost w = s@.subrange(a as int, b as int);
    if word_is(s, a, b, "required") {
        Some(FieldConstraint::Required)
    } else if word_is(s, a, b, "optional") {
        Some(FieldConstraint::Optional)
    } else if word_is(s, a, b, "unique") {
        Some(FieldConstraint::Unique)
    } else if word_is(s, a, b, "searchable") {
        Some(FieldConstraint::Searchable)
    } else if word_is(s, a, b, "readonly") {
        Some(FieldConstraint::Readonly)
    } else {
        let w4 = slice_of(s, a, b);
        let is_min = starts_with_at(&w4, 0, "min=");
        let is_max = starts_with_at(&w4, 0, "max=");
        proof {
            assert(w4@ == w);
            reveal_strlit("min=");
            reveal_strlit("max=");
        }
        if is_min {
            let v = parse_unsigned_exec(&w4, 4, w4.len(), usize::MAX as u64);
            proof {
                reveal_strlit("min=");
                assert(w.skip(4) =~= w4@.subrange(4, w4@.len() as int));
            }
            match v {
                Some(n) => {
                    return Some(FieldConstraint::Min(n as usize));
                },
                None => {
                },
            }
        }
        if is_max {
            let v = parse_unsigned_exec(&w4, 4, w4.len(), usize::MAX as u64);
            proof {
                reveal_strlit("max=");
                reveal_strlit("min=");
                assert(w.skip(4) =~= w4@.subrange(4, w4@.len() as int));
                if is_min {
                    assert(w[1] == "min="@[1]);
                    assert(w[1] == "max="@[1]);
                }
            }
            match v {
                Some(n) => {
                    return Some(FieldConstraint::Max(n as usize));
                },
                None => {
                },
            }
        }
        None
    }
}

/// The constraints named in `s[lo..hi]`.
pub fn parse_field_constraints(s: &Vec<char>, lo: usize, hi: usize) -> (r: Vec<FieldConstraint>)
    requires
        lo <= hi <= s.len(),
    ensures
        r@ == field_constraints(s@.subrange(lo as int, hi as int)),
{
    let ws = words_exec(s, lo, hi);
    let ghost all = words(s@.subrange(lo as int, hi as int));
    let mut out: Vec<FieldConstraint> = Vec::new();
    let mut i: usize = 0;
    proof {
        assert(all.take(0) =~= Seq::<Seq<char>>::empty());
    }
    while i < ws.len()
        invariant
            i <= ws.len(),
            ws.len() == all.len(),
            hi <= s.len(),
            all == words(s@.subrange(lo as int, hi as int)),
            forall|j: int|
                0 <= j < ws.len() ==> {
                    &&& lo <= (#[trigger] ws@[j]).0 <= ws@[j].1 <= hi
                    &&& s@.subrange(ws@[j].0 as int, ws@[j].1 as int) == all[j]
                },
            out@ == constraints_of(all.take(i as int)),
        decreases ws.len() - i,
    {
        let (a, b) = ws[i];
        let c = constraint_exec(s, a, b);
        proof {
            assert(all.take(i + 1).drop_last() =~= all.take(i as int));
            assert(all.take(i + 1).last() == all[i as int]);
        }
        match c {
            Some(k) => {
                out.push(k);
            },
            None => {
            },
        }
        i += 1;
    }
    proof {
        assert(all.take(ws.len() as int) =~= all);
    }
    out
}


// ---------------------------------------------------------------------------
// Type and constraints
// ---------------------------------------------------------------------------

/// The trimmed, non-empty pieces among `parts`.
pub open spec fn nonempty_trimmed(parts: Seq<Seq<char>>) -> Seq<Seq<char>>
    decreases parts.len(),
{
    if parts.len() == 0 {
        seq![]
    } else if trim(parts.last()).len() == 0 {
        nonempty_trimmed(parts.drop_last())
    } else {
        nonempty_trimmed(parts.drop_last()).push(trim(parts.last()))
    }
}

/// The tokens of a type followed by constraints: split at spaces and tabs
/// outside brackets, trimmed, empty ones dropped.
pub open spec fn type_tokens(s: Seq<char>) -> Seq<Seq<char>> {
    nonempty_trimmed(top_split(s, Sep::Blank))
}

/// A token that starts the constraints.
pub open spec fn is_constraint_token(t: Seq<char>) -> bool {
    ||| starts_with(t, "required"@)
    ||| starts_with(t, "optional"@)
    ||| starts_with(t, "unique"@)
    ||| starts_with(t, "searchable"@)
    ||| starts_with(t, "readonly"@)
    ||| starts_with(t, "min="@)
    ||| starts_with(t, "max="@)
    ||| starts_with(t, "default="@)
}

/// Index of the first constraint token at or after `i`, or -1.
pub open spec fn first_constraint(ts: Seq<Seq<char>>, i: int) -> int
    decreases ts.len() - i,
{
    if i < 0 || i >= ts.len() {
        -1
    } else if is_constraint_token(ts[i]) {
        i
    } else {
        first_constraint(ts, i + 1)
    }
}

/// The type text and the constraint text of `Type constraint constraint...`.
pub open spec fn type_and_constraints(s: Seq<char>) -> (Seq<char>, Seq<char>) {
    let ts = type_tokens(s);
    let k = first_constraint(ts, 0);
    if k < 0 {
        (trim(s), seq![])
    } else {
        (trim(join(ts.take(k), " "@)), trim(join(ts.skip(k), " "@)))
    }
}

/// The trimmed non-empty pieces `s[a..b]` for the bounds in `parts`.
fn collect_nonempty(s: &Vec<char>, parts: &Vec<(usize, usize)>, Ghost(ps): Ghost<Seq<Seq<char>>>) -> (r: Vec<Vec<char>>)
    requires
        parts.len() == ps.len(),
        forall|j: int|
            0 <= j < parts.len() ==> {
                &&& (#[trigger] parts@[j]).0 <= parts@[j].1 <= s.len()
                &&& s@.subrange(parts@[j].0 as int, parts@[j].1 as int) == ps[j]
            },
    ensures
        crate::parser::lex::views(r@) == nonempty_trimmed(ps),
{
    let mut out: Vec<Vec<char>> = Vec::new();
    let mut i: usize = 0;
    proof {
        assert(ps.take(0) =~= Seq::<Seq<char>>::empty());
        assert(crate::parser::lex::views(out@) =~= Seq::<Seq<char>>::empty());
    }
    while i < parts.len()
        invariant
            i <= parts.len(),
            parts.len() == ps.len(),
            forall|j: int|
                0 <= j < parts.len() ==> {
                    &&& (#[trigger] parts@[j]).0 <= parts@[j].1 <= s.len()
                    &&& s@.subrange(parts@[j].0 as int, parts@[j].1 as int) == ps[j]
                },
            crate::parser::lex::views(out@) == nonempty_trimmed(ps.take(i as int)),
        decreases parts.len() - i,
    {
        let (a, b) = parts[i];
        let (x, y) = trim_bounds(s, a, b);
        proof {
            assert(s@.subrange(parts@[i as int].0 as int, parts@[i as int].1 as int) == ps[i as int]);
            assert(ps.take(i + 1).drop_last() =~= ps.take(i as int));
            assert(ps.take(i + 1).last() == ps[i as int]);
        }
        let ghost old_out = out@;
        if x < y {
            out.push(slice_of(s, x, y));
            proof {
                assert(crate::parser::lex::views(out@) =~= crate::parser::lex::views(old_out).push(
                    s@.subrange(x as int, y as int),
                ));
            }
        }
        i += 1;
    }
    proof {
        assert(ps.take(parts.len() as int) =~= ps);
    }
    out
}

/// The pieces `ts[lo..hi]` joined with single spaces.
fn join_spaces(ts: &Vec<Vec<char>>, lo: usize, hi: usize) -> (r: Vec<char>)
    requires
        lo <= hi <= ts.len(),
    ensures
        r@ == join(crate::parser::lex::views(ts@).subrange(lo as int, hi as int), " "@),
{
    let ghost all = crate::parser::lex::views(ts@);
    let mut out: Vec<char> = Vec::new();
    let mut i = lo;
    proof {
        reveal_strlit(" ");
        assert(all.subrange(lo as int, lo as int) =~= Seq::<Seq<char>>::empty());
    }
    while i < hi
        invariant
            lo <= i <= hi,
            hi <= ts.len(),
            all == crate::parser::lex::views(ts@),
            out@ == join(all.subrange(lo as int, i as int), " "@),
        decreases hi - i,
    {
        proof {
            reveal_strlit(" ");
        }
        let ghost before = out@;
        if i > lo {
            out.push(' ');
        }
        let t = &ts[i];
        let mut k: usize = 0;
        let ghost mid = out@;
        while k < t.len()
            invariant
                k <= t.len(),
                out@ == mid + t@.take(k as int),
            decreases t.len() - k,
        {
            out.push(t[k]);
            proof {
                assert(t@.take(k + 1) =~= t@.take(k as int).push(t@[k as int]));
            }
            k += 1;
        }
        proof {
            assert(t@.take(t.len() as int) =~= t@);
            let sub = all.subrange(lo as int, i + 1);
            assert(sub.drop_last() =~= all.subrange(lo as int, i as int));
            assert(sub.last() == t@);
            if i > lo {
                assert(mid =~= before + " "@);
            } else {
                assert(sub.len() == 1);
                assert(mid =~= Seq::<char>::empty());
            }
        }
        i += 1;
    }
    out
}

/// Index of the first constraint token among `ts[i..]`.
fn first_constraint_exec(ts: &Vec<Vec<char>>) -> (r: Option<usize>)
    ensures
        match r {
            Some(k) => k < ts.len() && k == first_constraint(crate::parser::lex::views(ts@), 0),
            None => first_constraint(crate::parser::lex::views(ts@), 0) == -1,
        },
{
    let ghost all = crate::parser::lex::views(ts@);
    let mut i: usize = 0;
    while i < ts.len()
        invariant
            i <= ts.len(),
            all == crate::parser::lex::views(ts@),
            first_constraint(all, 0) == first_constraint(all, i as int),
        decreases ts.len() - i,
    {
        let t = &ts[i];
        let hit = starts_with_at(t, 0, "required") || starts_with_at(t, 0, "optional")
            || starts_with_at(t, 0, "unique") || starts_with_at(t, 0, "searchable")
            || starts_with_at(t, 0, "readonly") || starts_with_at(t, 0, "min=")
            || starts_with_at(t, 0, "max=") || starts_with_at(t, 0, "default=");
        proof {
            assert(all[i as int] == t@);
        }
        if hit {
            return Some(i);
        }
        i += 1;
    }
    None
}

/// `type_and_constraints` of `s[lo..hi]`.
pub fn split_type_and_constraints(s: &Vec<char>, lo: usize, hi: usize) -> (r: (Vec<char>, Vec<char>))
    requires
        lo <= hi <= s.len(),
    ensures
        (r.0@, r.1@) == type_and_constraints(s@.subrange(lo as int, hi as int)),
{
    let parts = top_split_exec(s, lo, hi, Sep::Blank);
    let toks = collect_nonempty(s, &parts, Ghost(top_split(s@.subrange(lo as int, hi as int), Sep::Blank)));
    match first_constraint_exec(&toks) {
        None => {
            let (a, b) = trim_bounds(s, lo, hi);
            (slice_of(s, a, b), Vec::new())
        },
        Some(k) => {
            let ty = join_spaces(&toks, 0, k);
            let cs = join_spaces(&toks, k, toks.len());
            proof {
                let all = crate::parser::lex::views(toks@);
                assert(all.subrange(0, k as int) =~= all.take(k as int));
                assert(all.subrange(k as int, all.len() as int) =~= all.skip(k as int));
            }
            (trimmed(&ty), trimmed(&cs))
        },
    }
}

// ---------------------------------------------------------------------------
// Defaults, fields and annotations
// ---------------------------------------------------------------------------

/// The text after `default=` of the first whitespace word that starts with it.
pub open spec fn first_default(ws: Seq<Seq<char>>) -> Option<Seq<char>>
    decreases ws.len(),
{
    if ws.len() == 0 {
        None
    } else if starts_with(ws[0], "default="@) {
        Some(ws[0].skip(8))
    } else {
        first_default(ws.drop_first())
    }
}

/// `first_default` of the words of `s[lo..hi]`.
pub fn extract_default_from_rest(s: &Vec<char>, lo: usize, hi: usize) -> (r: Option<String>)
    requires
        lo <= hi <= s.len(),
    ensures
        match r {
            Some(v) => first_default(words(s@.subrange(lo as int, hi as int))) == Some(v@),
            None => first_default(words(s@.subrange(lo as int, hi as int))) is None,
        },
{
    let ws = words_exec(s, lo, hi);
    let ghost all = words(s@.subrange(lo as int, hi as int));
    let mut i: usize = 0;
    proof {
        reveal_strlit("default=");
        assert(all.skip(0) =~= all);
    }
    while i < ws.len()
        invariant
            i <= ws.len(),
            ws.len() == all.len(),
            hi <= s.len(),
            all == words(s@.subrange(lo as int, hi as int)),
            forall|j: int|
                0 <= j < ws.len() ==> {
                    &&& lo <= (#[trigger] ws@[j]).0 <= ws@[j].1 <= hi
                    &&& s@.subrange(ws@[j].0 as int, ws@[j].1 as int) == all[j]
                },
            first_default(all) == first_default(all.skip(i as int)),
        decreases ws.len() - i,
    {
        proof {
            reveal_strlit("default=");
        }
        let (a, b) = ws[i];
        let w = slice_of(s, a, b);
        proof {
            assert(s@.subrange(ws@[i as int].0 as int, ws@[i as int].1 as int) == all[i as int]);
            assert(all.skip(i as int)[0] == all[i as int]);
            assert(all.skip(i as int).drop_first() =~= all.skip(i + 1));
        }
        if starts_with_at(&w, 0, "default=") {
            proof {
                assert(w@.skip(8) =~= w@.subrange(8, w@.len() as int));
            }
            return Some(crate::text::string_of(&w, 8, w.len()));
        }
        i += 1;
    }
    proof {
        assert(all.skip(ws.len() as int) =~= Seq::<Seq<char>>::empty());
    }
    None
}

/// A form field `name: Type constraints...`.
pub open spec fn form_field(line: Seq<char>) -> Option<FormFieldModel> {
    let c = find_char(line, ':');
    if c < 0 {
        None
    } else {
        let tc = type_and_constraints(trim(line.skip(c + 1)));
        Some(
            FormFieldModel {
                name: trim(line.take(c)),
                ty: tc.0,
                constraints: field_constraints(tc.1),
            },
        )
    }
}

pub fn parse_form_field(line: &Vec<char>) -> (r: ParseResult<FormFieldDecl>)
    ensures
        match r {
            Ok(f) => form_field(line@) == Some(f@),
            Err(e) => form_field(line@) is None && is_syntax_error(
                e,
                0,
                0,
                "Expected `name: Type constraints` in form field, got: "@ + line@,
            ),
        },
{
    proof {
        assert(line@.skip(0) =~= line@);
    }
    match find_char_from(line, ':', 0) {
        None => {
            let mut m = string_from("Expected `name: Type constraints` in form field, got: ");
            let t = to_string(line);
            append_string(&mut m, &t);
            Err(ParseError::Syntax { line: 0, col: 0, message: m })
        },
        Some(c) => {
            proof {
                assert(line@.take(c as int) =~= line@.subrange(0, c as int));
                assert(line@.skip(c + 1) =~= line@.subrange(c + 1, line@.len() as int));
            }
            let (a, b) = trim_bounds(line, 0, c);
            let name = crate::text::string_of(line, a, b);
            let (x, y) = trim_bounds(line, c + 1, line.len());
            let (ty, cs) = split_type_and_constraints(line, x, y);
            proof {
                assert(cs@.subrange(0, cs@.len() as int) =~= cs@);
            }
            let constraints = parse_field_constraints(&cs, 0, cs.len());
            Ok(FormFieldDecl { name, ty: to_string(&ty), constraints })
        },
    }
}

/// `#[name("value")]`: the name and the unquoted value, or `None` without `(`.
pub open spec fn attr_annotation(line: Seq<char>) -> Option<(Seq<char>, Seq<char>)> {
    let inner = strip_suffix_all(strip_prefix_all(line, "#["@), ']');
    let p = find_char(inner, '(');
    if p < 0 {
        None
    } else {
        Some((trim(inner.take(p)), unquote(strip_suffix_all(inner.skip(p + 1), ')'))))
    }
}

pub fn parse_attribute_annotation(line: &Vec<char>) -> (r: Option<(Vec<char>, Vec<char>)>)
    ensures
        match r {
            Some((n, v)) => attr_annotation(line@) == Some((n@, v@)),
            None => attr_annotation(line@) is None,
        },
{
    let a = strip_prefix_all_from(line, 0, line.len(), "#[");
    let b = strip_suffix_all_to(line, a, line.len(), ']');
    let inner = slice_of(line, a, b);
    proof {
        assert(line@.subrange(0, line@.len() as int) =~= line@);
    }
    proof {
        assert(inner@.skip(0) =~= inner@);
    }
    match find_char_from(&inner, '(', 0) {
        None => None,
        Some(p) => {
            proof {
                assert(inner@.take(p as int) =~= inner@.subrange(0, p as int));
                assert(inner@.skip(p + 1) =~= inner@.subrange(p + 1, inner@.len() as int));
            }
            let (x, y) = trim_bounds(&inner, 0, p);
            let e = strip_suffix_all_to(&inner, p + 1, inner.len(), ')');
            let v = unquote_exec(&inner, p + 1, e);
            Some((slice_of(&inner, x, y), v))
        },
    }
}

} // verus!
