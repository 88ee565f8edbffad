//! The `<script>` block: declarations of state, props, memos, loaders,
//! actions, server functions, forms and AI actions, one per line or braced.

use vstd::prelude::*;
use crate::text::{
    find_char, find_char_from, lemma_find_char, rfind_char, rfind_char_exec, lemma_rfind_char,
    slice_of, starts_with, trim, trim_bounds, occurs_at, push_char, string_of, float_text,
    float_text_exec,
};
use crate::parser::ast::{
    ActionDecl, AiActionDecl, FormDecl, FormFieldDecl, LoaderDecl, MemoDecl, ParamDecl, PropDecl,
    ScriptBlock, ServerFnDecl, StateDecl, UseStatement,
};
use crate::parser::error::{ErrModel, ParseError, ParseResult};
use crate::parser::lex::{
    kv_line, parse_kv_line, strip_prefix_all, strip_prefix_all_from, strip_suffix_all,
    strip_suffix_all_to, to_string, trimmed, unquote, unquote_exec, starts_with_at, views,
};
use crate::parser::model::{
    params_view, ActionModel, AiActionModel, FnModel, FormFieldModel, FormModel, MemoModel,
    ParamModel, PropModel, ScriptModel, StateModel,
};
use crate::parser::decl::{
    attr_annotation, default_split, form_field, name_type, param_list, parse_attribute_annotation,
    parse_form_field, parse_param_list, split_default, split_name_type, vopt, name_type_error,
    param_list_error,
};
use crate::parser::split::join;

verus! {

// ---------------------------------------------------------------------------
// Braced bodies
// ---------------------------------------------------------------------------

/// Number of `{` minus number of `}` in `l`.
pub open spec fn brace_delta(l: Seq<char>) -> int
    decreases l.len(),
{
    if l.len() == 0 {
        0
    } else {
        brace_delta(l.drop_last()) + if l.last() == '{' {
            1int
        } else if l.last() == '}' {
            -1int
        } else {
            0int
        }
    }
}

/// Scanning lines from `i` with brace depth `d` and "an opening brace was
/// seen" flag `f`: the index after the line where the depth returns to zero
/// after an opening brace, the depth there, and the flag.
pub open spec fn body_scan(ls: Seq<Seq<char>>, i: int, d: int, f: bool) -> (int, int, bool)
    decreases ls.len() - i,
{
    if i < 0 || i >= ls.len() {
        (i, d, f)
    } else {
        let f2 = f || ls[i].contains('{');
        let d2 = d + brace_delta(ls[i]);
        if f2 && d2 == 0 {
            (i + 1, d2, f2)
        } else {
            body_scan(ls, i + 1, d2, f2)
        }
    }
}

/// First line index at or after `i` that holds a `{`, or `ls.len()`.
pub open spec fn first_open_line(ls: Seq<Seq<char>>, i: int) -> int
    decreases ls.len() - i,
{
    if i < 0 || i >= ls.len() {
        ls.len() as int
    } else if ls[i].contains('{') {
        i
    } else {
        first_open_line(ls, i + 1)
    }
}

/// Trimmed text between the first `{` and the last `}` of `trim(s)`, when
/// the first comes before the last; otherwise `trim(s)`.
pub open spec fn outer_braces(s: Seq<char>) -> Seq<char> {
    let t = trim(s);
    let o = find_char(t, '{');
    let c = rfind_char(t, '}');
    if o >= 0 && c >= 0 && c > o {
        t.subrange(o + 1, c)
    } else {
        t
    }
}

/// Why a braced body could not be read.
pub enum BodyError {
    NoOpen,
    Unclosed,
}

/// The body `{ ... }` starting on line `start`: its trimmed inner text and the
/// number of lines it takes.
pub open spec fn braced_body(ls: Seq<Seq<char>>, start: int) -> Result<(Seq<char>, int), BodyError> {
    let (end, d, f) = body_scan(ls, start, 0, false);
    if !f {
        Err(BodyError::NoOpen)
    } else if d != 0 {
        Err(BodyError::Unclosed)
    } else {
        Ok(
            (
                trim(outer_braces(join(ls.subrange(first_open_line(ls, start), end), "\n"@))),
                end - start,
            ),
        )
    }
}

pub proof fn lemma_body_scan(ls: Seq<Seq<char>>, i: int, d: int, f: bool)
    requires
        0 <= i <= ls.len(),
    ensures
        i <= body_scan(ls, i, d, f).0 <= ls.len(),
        body_scan(ls, i, d, f).2 && !f ==> i < body_scan(ls, i, d, f).0 && first_open_line(ls, i)
            < body_scan(ls, i, d, f).0,
        body_scan(ls, i, d, f).2 && !f ==> first_open_line(ls, i) >= i,
        !body_scan(ls, i, d, f).2 ==> body_scan(ls, i, d, f).0 == ls.len(),
        body_scan(ls, i, d, f).2 && body_scan(ls, i, d, f).1 == 0 && i < ls.len() ==> i < body_scan(ls, i, d, f).0,
    decreases ls.len() - i,
{
    if i < ls.len() {
        let f2 = f || ls[i].contains('{');
        let d2 = d + brace_delta(ls[i]);
        if !(f2 && d2 == 0) {
            lemma_body_scan(ls, i + 1, d2, f2);
        }
    }
}

fn count_braces(l: &Vec<char>) -> (r: (bool, i64, i64))
    requires
        l.len() < 0x8000_0000,
    ensures
        r.0 == l@.contains('{'),
        r.1 - r.2 == brace_delta(l@),
        0 <= r.1 <= l.len(),
        0 <= r.2 <= l.len(),
{
    let mut opens: i64 = 0;
    let mut closes: i64 = 0;
    let mut seen = false;
    let mut k: usize = 0;
    while k < l.len()
        invariant
            k <= l.len(),
            l.len() < 0x8000_0000,
            0 <= opens <= k,
            0 <= closes <= k,
            opens - closes == brace_delta(l@.take(k as int)),
            seen == l@.take(k as int).contains('{'),
        decreases l.len() - k,
    {
        proof {
            assert(l@.take(k + 1).drop_last() =~= l@.take(k as int));
            assert(l@.take(k + 1).last() == l@[k as int]);
            if l@[k as int] == '{' {
                assert(l@.take(k + 1)[k as int] == '{');
            }
            let tk = l@.take(k as int);
            let tk1 = l@.take(k + 1);
            if tk.contains('{') {
                let w = choose|w: int| 0 <= w < tk.len() && tk[w] == '{';
                assert(tk1[w] == '{');
            }
            if tk1.contains('{') {
                let w = choose|w: int| 0 <= w < tk1.len() && tk1[w] == '{';
                if w < k {
                    assert(tk[w] == '{');
                }
            }
        }
        if l[k] == '{' {
            opens += 1;
            seen = true;
        } else if l[k] == '}' {
            closes += 1;
        }
        k += 1;
    }
    proof {
        assert(l@.take(l.len() as int) =~= l@);
    }
    (seen, opens, closes)
}

/// `outer_braces` of `s`.
fn strip_outer_braces(s: &Vec<char>) -> (r: Vec<char>)
    ensures
        r@ == outer_braces(s@),
{
    let t = trimmed(s);
    proof {
        assert(t@.skip(0) =~= t@);
        lemma_find_char(t@, '{');
        lemma_rfind_char(t@, '}');
    }
    let o = find_char_from(&t, '{', 0);
    let c = rfind_char_exec(&t, '}');
    match (o, c) {
        (Some(o), Some(c)) => {
            if c > o {
                return slice_of(&t, o + 1, c);
            }
        },
        _ => {},
    }
    t
}

/// The lines `ls[lo..hi]` joined with `\n`.
fn join_lines(ls: &Vec<Vec<char>>, lo: usize, hi: usize) -> (r: Vec<char>)
    requires
        lo <= hi <= ls.len(),
    ensures
        r@ == join(views(ls@).subrange(lo as int, hi as int), "\n"@),
{
    let ghost all = views(ls@);
    let mut out: Vec<char> = Vec::new();
    let mut i = lo;
    proof {
        reveal_strlit("\n");
        assert(all.subrange(lo as int, lo as int) =~= Seq::<Seq<char>>::empty());
    }
    while i < hi
        invariant
            lo <= i <= hi,
            hi <= ls.len(),
            all == views(ls@),
            out@ == join(all.subrange(lo as int, i as int), "\n"@),
        decreases hi - i,
    {
        proof {
            reveal_strlit("\n");
        }
        let ghost before = out@;
        if i > lo {
            out.push('\n');
        }
        let t = &ls[i];
        let mut k: usize = 0;
        let ghost mid = out@;
        while k < t.len()
            invariant
                k <= t.len(),
                out@ == mid + t@.take(k as int),
            decreases t.len() - k,
        {
            out.push(t[k]);
            proof {
                assert(t@.take(k + 1) =~= t@.take(k as int).push(t@[k as int]));
            }
            k += 1;
        }
        proof {
            assert(t@.take(t.len() as int) =~= t@);
            let sub = all.subrange(lo as int, i + 1);
            assert(sub.drop_last() =~= all.subrange(lo as int, i as int));
            assert(sub.last() == t@);
            if i > lo {
                assert(mid =~= before + "\n"@);
            } else {
                assert(sub.len() == 1);
                assert(mid =~= Seq::<char>::empty());
            }
        }
        i += 1;
    }
    out
}

/// The error for a function whose body has no `{`, on line `line`.
pub open spec fn no_open_error(line: int) -> ErrModel {
    ErrModel::Syntax { line, col: 1, message: "Expected `{` to start body"@ }
}

/// Reads the braced body that starts on line `start` (`base_line` numbers the
/// lines for the error message).
pub fn extract_braced_body(ls: &Vec<Vec<char>>, start: usize, base_line: usize) -> (r: ParseResult<
    (String, usize),
>)
    requires
        start < ls.len(),
        base_line < 0x8000_0000,
        forall|j: int| 0 <= j < ls.len() ==> (#[trigger] ls@[j]).len() < 0x8000_0000,
        ls.len() < 0x8000_0000,
    ensures
        match r {
            Ok((b, n)) => braced_body(views(ls@), start as int) == Ok::<(Seq<char>, int), BodyError>((b@, n as int)) && n >= 1,
            Err(e) => match braced_body(views(ls@), start as int) {
                Ok(_) => false,
                Err(BodyError::NoOpen) => e@ == no_open_error(base_line as int + start as int),
                Err(BodyError::Unclosed) => e@ == ErrModel::UnclosedBlock("function body"@),
            },
        },
{
    let ghost all = views(ls@);
    let mut depth: i64 = 0;
    let mut found = false;
    let mut first: usize = ls.len();
    let mut i = start;
    proof {
        lemma_body_scan(all, start as int, 0, false);
    }
    while i < ls.len()
        invariant_except_break
            body_scan(all, start as int, 0, false) == body_scan(all, i as int, depth as int, found),
        invariant
            start <= i <= ls.len(),
            ls.len() < 0x8000_0000,
            forall|j: int| 0 <= j < ls.len() ==> (#[trigger] ls@[j]).len() < 0x8000_0000,
            all == views(ls@),
            -(0x8000_0000 * (i - start)) <= depth <= 0x8000_0000 * (i - start),
            found ==> first == first_open_line(all, start as int) && start <= first < i,
            !found ==> first_open_line(all, start as int) == first_open_line(all, i as int),
        ensures
            body_scan(all, start as int, 0, false) == (i as int, depth as int, found),
        decreases ls.len() - i,
    {
        let (has_open, o, c) = count_braces(&ls[i]);
        proof {
            assert(all[i as int] == ls@[i as int]@);
            assert(0x8000_0000 * (i - start) + 0x8000_0000 == 0x8000_0000 * (i + 1 - start)) by (nonlinear_arith);
        }
        if !found && has_open {
            first = i;
        }
        let nf = found || has_open;
        let nd = depth + o - c;
        depth = nd;
        found = nf;
        i += 1;
        if nf && nd == 0 {
            break;
        }
    }
    if !found {
        let mut m = crate::text::string_from("Expected `{` to start body");
        return Err(ParseError::Syntax { line: base_line + start, col: 1, message: m });
    }
    if depth != 0 {
        return Err(ParseError::UnclosedBlock(crate::text::string_from("function body")));
    }
    let joined = join_lines(ls, first, i);
    let body = strip_outer_braces(&joined);
    let t = trimmed(&body);
    Ok((to_string(&t), i - start))
}

// ---------------------------------------------------------------------------
// One-line declarations
// ---------------------------------------------------------------------------

/// The trimmed text after the leading keyword(s) `kw`.
pub open spec fn decl_rest(line: Seq<char>, kw: Seq<char>) -> Seq<char> {
    trim(strip_prefix_all(line, kw))
}

/// `prop name: Type [= default]`.
pub open spec fn prop_decl(line: Seq<char>) -> Option<PropModel> {
    let (nt, d) = default_split(decl_rest(line, "prop "@));
    match name_type(nt) {
        None => None,
        Some((n, t)) => Some(PropModel { name: n, ty: t, default: d }),
    }
}

/// `state [secret] name: Type [= default]`.
pub open spec fn state_decl(line: Seq<char>) -> Option<StateModel> {
    let rest = decl_rest(line, "state "@);
    let secret = starts_with(rest, "secret "@);
    let body = if secret {
        decl_rest(rest, "secret "@)
    } else {
        rest
    };
    let (nt, d) = default_split(body);
    match name_type(nt) {
        None => None,
        Some((n, t)) => Some(StateModel { name: n, ty: t, default: d, secret }),
    }
}

/// `memo name: Type = expr`; without `=` the expression is empty.
pub open spec fn memo_decl(line: Seq<char>) -> Option<MemoModel> {
    let (nt, d) = default_split(decl_rest(line, "memo "@));
    match name_type(nt) {
        None => None,
        Some((n, t)) => Some(
            MemoModel {
                name: n,
                ty: t,
                expr: match d {
                    Some(e) => e,
                    None => seq![],
                },
            },
        ),
    }
}

/// The error of a malformed `prop` line.
pub open spec fn prop_error(line: Seq<char>) -> ErrModel {
    name_type_error(default_split(decl_rest(line, "prop "@)).0)
}

/// The error of a malformed `state` line.
pub open spec fn state_error(line: Seq<char>) -> ErrModel {
    let rest = decl_rest(line, "state "@);
    let body = if starts_with(rest, "secret "@) {
        decl_rest(rest, "secret "@)
    } else {
        rest
    };
    name_type_error(default_split(body).0)
}

/// The error of a malformed `memo` line.
pub open spec fn memo_error(line: Seq<char>) -> ErrModel {
    name_type_error(default_split(decl_rest(line, "memo "@)).0)
}

/// `use path;`.
pub open spec fn use_path(line: Seq<char>) -> Seq<char> {
    trim(strip_suffix_all(strip_prefix_all(line, "use "@), ';'))
}

/// `rest` trimmed after removing the keyword prefix `kw` of `s[lo..hi]`, as
/// bounds within `s`.
fn rest_after(s: &Vec<char>, lo: usize, hi: usize, kw: &str) -> (r: (usize, usize))
    requires
        lo <= hi <= s.len(),
    ensures
        lo <= r.0 <= r.1 <= hi,
        s@.subrange(r.0 as int, r.1 as int) == decl_rest(s@.subrange(lo as int, hi as int), kw@),
{
    let a = strip_prefix_all_from(s, lo, hi, kw);
    trim_bounds(s, a, hi)
}

fn parse_prop_decl(line: &Vec<char>) -> (r: ParseResult<PropDecl>)
    ensures
        match r {
            Ok(p) => prop_decl(line@) == Some(p@),
            Err(e) => prop_decl(line@) is None && e@ == prop_error(line@),
        },
{
    proof {
        assert(line@.subrange(0, line@.len() as int) =~= line@);
    }
    let (a, b) = rest_after(line, 0, line.len(), "prop ");
    let rest = slice_of(line, a, b);
    let (nt, d) = split_default(&rest);
    let (name, ty) = split_name_type(&nt)?;
    let default = match d {
        Some(v) => Some(to_string(&v)),
        None => None,
    };
    Ok(PropDecl { name, ty, default })
}

fn parse_state_decl(line: &Vec<char>) -> (r: ParseResult<StateDecl>)
    ensures
        match r {
            Ok(p) => state_decl(line@) == Some(p@),
            Err(e) => state_decl(line@) is None && e@ == state_error(line@),
        },
{
    proof {
        assert(line@.subrange(0, line@.len() as int) =~= line@);
    }
    let (a, b) = rest_after(line, 0, line.len(), "state ");
    let rest = slice_of(line, a, b);
    let secret = starts_with_at(&rest, 0, "secret ");
    let body = if secret {
        proof {
            assert(rest@.subrange(0, rest@.len() as int) =~= rest@);
        }
        let (x, y) = rest_after(&rest, 0, rest.len(), "secret ");
        slice_of(&rest, x, y)
    } else {
        rest
    };
    let (nt, d) = split_default(&body);
    let (name, ty) = split_name_type(&nt)?;
    let default = match d {
        Some(v) => Some(to_string(&v)),
        None => None,
    };
    Ok(StateDecl { name, ty, default, secret })
}

fn parse_memo_decl(line: &Vec<char>) -> (r: ParseResult<MemoDecl>)
    ensures
        match r {
            Ok(p) => memo_decl(line@) == Some(p@),
            Err(e) => memo_decl(line@) is None && e@ == memo_error(line@),
        },
{
    proof {
        assert(line@.subrange(0, line@.len() as int) =~= line@);
    }
    let (a, b) = rest_after(line, 0, line.len(), "memo ");
    let rest = slice_of(line, a, b);
    let (nt, d) = split_default(&rest);
    let (name, ty) = split_name_type(&nt)?;
    let expr = match d {
        Some(v) => to_string(&v),
        None => String::new(),
    };
    Ok(MemoDecl { name, ty, expr })
}

fn parse_use(line: &Vec<char>) -> (r: UseStatement)
    ensures
        r@ == use_path(line@),
{
    proof {
        assert(line@.subrange(0, line@.len() as int) =~= line@);
    }
    let a = strip_prefix_all_from(line, 0, line.len(), "use ");
    let b = strip_suffix_all_to(line, a, line.len(), ';');
    let (x, y) = trim_bounds(line, a, b);
    UseStatement { path: string_of(line, x, y) }
}

// ---------------------------------------------------------------------------
// Function declarations
// ---------------------------------------------------------------------------

/// The name, `async` flag and parameters (`None` when they are malformed) of
/// `kw [async] [fn] name(params) {`.
pub open spec fn fn_header(first: Seq<char>, kw: Seq<char>) -> (Seq<char>, bool, Option<
    Seq<ParamModel>,
>) {
    let rest0 = decl_rest(first, kw);
    let is_async = starts_with(rest0, "async "@);
    let rest1 = if is_async {
        decl_rest(rest0, "async "@)
    } else {
        rest0
    };
    let rest = decl_rest(rest1, "fn "@);
    let op = find_char(rest, '(');
    let cp = find_char(rest, ')');
    let name = trim(
        rest.take(
            if op < 0 {
                rest.len() as int
            } else {
                op
            },
        ),
    );
    let params = if op >= 0 && cp >= 0 && cp >= op + 1 {
        param_list(rest.subrange(op + 1, cp))
    } else {
        Some(seq![])
    };
    (name, is_async, params)
}

/// The error of a malformed parameter list in `kw [async] [fn] name(params) {`.
pub open spec fn fn_header_error(first: Seq<char>, kw: Seq<char>) -> ErrModel {
    let rest0 = decl_rest(first, kw);
    let rest1 = if starts_with(rest0, "async "@) {
        decl_rest(rest0, "async "@)
    } else {
        rest0
    };
    let rest = decl_rest(rest1, "fn "@);
    param_list_error(rest.subrange(find_char(rest, '(') + 1, find_char(rest, ')')))
}

/// The error of a malformed function starting on line `start` (`base`
/// numbers the lines): a bad parameter list first, then a missing or
/// unclosed body.
pub open spec fn fn_error(ls: Seq<Seq<char>>, start: int, kw: Seq<char>, base: int) -> ErrModel {
    if fn_header(trim(ls[start]), kw).2 is None {
        fn_header_error(trim(ls[start]), kw)
    } else {
        match braced_body(ls, start) {
            Err(BodyError::Unclosed) => ErrModel::UnclosedBlock("function body"@),
            _ => no_open_error(base + start),
        }
    }
}

/// A `load`, `action` or `server` function starting on line `start`, and the
/// number of lines it takes.
pub open spec fn fn_decl(ls: Seq<Seq<char>>, start: int, kw: Seq<char>) -> Option<(FnModel, int)> {
    let (name, is_async, params) = fn_header(trim(ls[start]), kw);
    match params {
        None => None,
        Some(ps) => match braced_body(ls, start) {
            Err(_) => None,
            Ok((b, n)) => Some((FnModel { name, is_async, params: ps, body: b }, n)),
        },
    }
}

fn parse_fn_header(first: &Vec<char>, kw: &str) -> (r: ParseResult<(String, bool, Vec<ParamDecl>)>)
    ensures
        match r {
            Ok((n, a, ps)) => fn_header(first@, kw@) == (n@, a, Some(params_view(ps@))),
            Err(e) => fn_header(first@, kw@).2 is None && e@ == fn_header_error(first@, kw@),
        },
{
    proof {
        assert(first@.subrange(0, first@.len() as int) =~= first@);
    }
    let (a0, b0) = rest_after(first, 0, first.len(), kw);
    let rest0 = slice_of(first, a0, b0);
    let is_async = starts_with_at(&rest0, 0, "async ");
    let rest1 = if is_async {
        proof {
            assert(rest0@.subrange(0, rest0@.len() as int) =~= rest0@);
        }
        let (x, y) = rest_after(&rest0, 0, rest0.len(), "async ");
        slice_of(&rest0, x, y)
    } else {
        rest0
    };
    proof {
        assert(rest1@.subrange(0, rest1@.len() as int) =~= rest1@);
    }
    let (x, y) = rest_after(&rest1, 0, rest1.len(), "fn ");
    let rest = slice_of(&rest1, x, y);
    proof {
        assert(rest@.skip(0) =~= rest@);
    }
    let op = find_char_from(&rest, '(', 0);
    let cp = find_char_from(&rest, ')', 0);
    let name_end = match op {
        Some(p) => p,
        None => rest.len(),
    };
    proof {
        assert(rest@.take(name_end as int) =~= rest@.subrange(0, name_end as int));
    }
    let (na, nb) = trim_bounds(&rest, 0, name_end);
    let name = string_of(&rest, na, nb);
    let params = match (op, cp) {
        (Some(o), Some(c)) => {
            if c >= o + 1 {
                parse_param_list(&rest, o + 1, c)?
            } else {
                Vec::new()
            }
        },
        _ => Vec::new(),
    };
    proof {
        if !(op.is_some() && cp.is_some() && cp.unwrap() >= op.unwrap() + 1) {
            assert(params_view(params@) =~= Seq::<ParamModel>::empty());
        }
    }
    Ok((name, is_async, params))
}

/// The trimmed characters of line `i`.
fn trimmed_line(ls: &Vec<Vec<char>>, i: usize) -> (r: Vec<char>)
    requires
        i < ls.len(),
    ensures
        r@ == trim(views(ls@)[i as int]),
{
    trimmed(&ls[i])
}


// ---------------------------------------------------------------------------
// Forms
// ---------------------------------------------------------------------------

/// The name of `form Name {`.
pub open spec fn form_name(first: Seq<char>) -> Seq<char> {
    let rest = decl_rest(first, "form "@);
    let b = find_char(rest, '{');
    trim(
        rest.take(
            if b < 0 {
                rest.len() as int
            } else {
                b
            },
        ),
    )
}

/// The fields of a form from line `i` up to a line starting with `}`, and the
/// index after that line; `None` when a field is malformed.
pub open spec fn form_fields(ls: Seq<Seq<char>>, i: int, acc: Seq<FormFieldModel>) -> Option<
    (Seq<FormFieldModel>, int),
>
    decreases ls.len() - i,
{
    if i < 0 || i >= ls.len() {
        Some((acc, i))
    } else {
        let line = trim(ls[i]);
        if starts_with(line, "}"@) {
            Some((acc, i + 1))
        } else if line.len() == 0 || starts_with(line, "//"@) {
            form_fields(ls, i + 1, acc)
        } else {
            match form_field(line) {
                None => None,
                Some(f) => form_fields(ls, i + 1, acc.push(f)),
            }
        }
    }
}

/// The error of a malformed form field line.
pub open spec fn form_field_error(line: Seq<char>) -> ErrModel {
    ErrModel::Syntax {
        line: 0,
        col: 0,
        message: "Expected `name: Type constraints` in form field, got: "@ + line,
    }
}

/// The error of the first malformed field from line `i` on, before the
/// closing `}`; `None` when there is none.
pub open spec fn form_fields_error(ls: Seq<Seq<char>>, i: int) -> Option<ErrModel>
    decreases ls.len() - i,
{
    if i < 0 || i >= ls.len() {
        None
    } else {
        let line = trim(ls[i]);
        if starts_with(line, "}"@) {
            None
        } else if line.len() == 0 || starts_with(line, "//"@) {
            form_fields_error(ls, i + 1)
        } else {
            match form_field(line) {
                None => Some(form_field_error(line)),
                Some(_) => form_fields_error(ls, i + 1),
            }
        }
    }
}

/// A `form` declaration starting on line `start`, and the number of lines it
/// takes.
pub open spec fn form_decl(ls: Seq<Seq<char>>, start: int) -> Option<(FormModel, int)> {
    match form_fields(ls, start + 1, seq![]) {
        None => None,
        Some((fs, end)) => Some((FormModel { name: form_name(trim(ls[start])), fields: fs }, end - start)),
    }
}

fn parse_form_decl(ls: &Vec<Vec<char>>, start: usize) -> (r: ParseResult<(FormDecl, usize)>)
    requires
        start < ls.len(),
    ensures
        match r {
            Ok((f, n)) => form_decl(views(ls@), start as int) == Some((f@, n as int)) && n >= 1,
            Err(e) => form_decl(views(ls@), start as int) is None && form_fields_error(
                views(ls@),
                start + 1,
            ) == Some(e@),
        },
{
    let ghost all = views(ls@);
    let first = trimmed_line(ls, start);
    proof {
        assert(first@.subrange(0, first@.len() as int) =~= first@);
    }
    let (a, b) = rest_after(&first, 0, first.len(), "form ");
    let rest = slice_of(&first, a, b);
    proof {
        assert(rest@.skip(0) =~= rest@);
    }
    let brace = match find_char_from(&rest, '{', 0) {
        Some(p) => p,
        None => rest.len(),
    };
    proof {
        assert(rest@.take(brace as int) =~= rest@.subrange(0, brace as int));
    }
    let (x, y) = trim_bounds(&rest, 0, brace);
    let name = string_of(&rest, x, y);
    let mut fields: Vec<FormFieldDecl> = Vec::new();
    let mut i = start + 1;
    proof {
        assert(fields@.map_values(|f: FormFieldDecl| f@) =~= Seq::<FormFieldModel>::empty());
    }
    while i < ls.len()
        invariant_except_break
            form_fields(all, start + 1, seq![]) == form_fields(
                all,
                i as int,
                fields@.map_values(|f: FormFieldDecl| f@),
            ),
            form_fields_error(all, start + 1) == form_fields_error(all, i as int),
        invariant
            start + 1 <= i <= ls.len(),
            all == views(ls@),
        ensures
            form_fields(all, start + 1, seq![]) == Some(
                (fields@.map_values(|f: FormFieldDecl| f@), i as int),
            ),
        decreases ls.len() - i,
    {
        let line = trimmed_line(ls, i);
        if starts_with_at(&line, 0, "}") {
            i += 1;
            break;
        }
        if line.len() == 0 || starts_with_at(&line, 0, "//") {
            i += 1;
            continue;
        }
        let f = parse_form_field(&line)?;
        let ghost before = fields@;
        fields.push(f);
        proof {
            assert(fields@.map_values(|f: FormFieldDecl| f@) =~= before.map_values(
                |f: FormFieldDecl| f@,
            ).push(f@));
        }
        i += 1;
    }
    Ok((FormDecl { name, fields }, i - start))
}

// ---------------------------------------------------------------------------
// AI actions
// ---------------------------------------------------------------------------

/// The input parameter and its type inside the first `(` ... `)` of `rest`.
pub open spec fn ai_input(rest: Seq<char>) -> (Seq<char>, Seq<char>) {
    let op = find_char(rest, '(');
    let cp = find_char(rest, ')');
    if op >= 0 && cp >= 0 && cp >= op + 1 {
        let inner = rest.subrange(op + 1, cp);
        let c = find_char(inner, ':');
        if c >= 0 {
            (trim(inner.take(c)), trim(inner.skip(c + 1)))
        } else {
            (trim(inner), seq![])
        }
    } else {
        (seq![], seq![])
    }
}

/// The return type between `->` and `{` in `rest`.
pub open spec fn ai_return(rest: Seq<char>) -> Seq<char> {
    let arrow = crate::text::find(rest, "->"@);
    if arrow >= 0 {
        let after = rest.skip(arrow + 2);
        let b = find_char(after, '{');
        trim(
            after.take(
                if b < 0 {
                    after.len() as int
                } else {
                    b
                },
            ),
        )
    } else {
        seq![]
    }
}

/// The text before the first `(` of `rest`, trimmed.
pub open spec fn name_before_paren(rest: Seq<char>) -> Seq<char> {
    let op = find_char(rest, '(');
    trim(
        rest.take(
            if op < 0 {
                rest.len() as int
            } else {
                op
            },
        ),
    )
}

/// Name, input parameter, input type and return type of
/// `ai action name(input: Type) -> Return {`.
pub open spec fn ai_header(first: Seq<char>) -> (Seq<char>, Seq<char>, Seq<char>, Seq<char>) {
    let rest = decl_rest(first, "ai action "@);
    let (ip, it) = ai_input(rest);
    (name_before_paren(rest), ip, it, ai_return(rest))
}

/// Applies the body line `key: value` of an AI action.
pub open spec fn ai_apply(m: AiActionModel, k: Seq<char>, v: Seq<char>) -> AiActionModel {
    if k == "model"@ {
        AiActionModel { model: v, ..m }
    } else if k == "fallback"@ {
        AiActionModel { fallback: Some(v), ..m }
    } else if k == "temperature"@ {
        AiActionModel {
            temperature: if float_text(v) {
                Some(v)
            } else {
                None
            },
            ..m
        }
    } else if k == "audit"@ {
        AiActionModel { audit: v == "true"@, ..m }
    } else if k == "pii"@ {
        AiActionModel { pii: Some(v), ..m }
    } else if k == "permission"@ {
        AiActionModel { permission: Some(v), ..m }
    } else if k == "input"@ {
        AiActionModel { input_param: v, ..m }
    } else {
        m
    }
}

/// The body lines of an AI action from line `i` up to a line starting with
/// `}`, and the index after that line.
pub open spec fn ai_body(ls: Seq<Seq<char>>, i: int, m: AiActionModel) -> (AiActionModel, int)
    decreases ls.len() - i,
{
    if i < 0 || i >= ls.len() {
        (m, i)
    } else {
        let line = trim(ls[i]);
        if starts_with(line, "}"@) {
            (m, i + 1)
        } else if line.len() == 0 || starts_with(line, "//"@) {
            ai_body(ls, i + 1, m)
        } else {
            match kv_line(line) {
                None => ai_body(ls, i + 1, m),
                Some((k, v)) => ai_body(ls, i + 1, ai_apply(m, k, unquote(v))),
            }
        }
    }
}

/// An `ai action` declaration starting on line `start`, and the number of
/// lines it takes.
pub open spec fn ai_decl(ls: Seq<Seq<char>>, start: int) -> (AiActionModel, int) {
    let (name, ip, it, rt) = ai_header(trim(ls[start]));
    let m0 = AiActionModel {
        name,
        input_param: ip,
        input_type: it,
        return_type: rt,
        model: seq![],
        fallback: None,
        temperature: None,
        audit: false,
        pii: None,
        permission: None,
    };
    let (m, end) = ai_body(ls, start + 1, m0);
    (m, end - start)
}

fn parse_name_before_paren(rest: &Vec<char>) -> (r: String)
    ensures
        r@ == name_before_paren(rest@),
{
    proof {
        assert(rest@.skip(0) =~= rest@);
    }
    let op = find_char_from(rest, '(', 0);
    let name_end = match op {
        Some(p) => p,
        None => rest.len(),
    };
    proof {
        assert(rest@.take(name_end as int) =~= rest@.subrange(0, name_end as int));
    }
    let (na, nb) = trim_bounds(rest, 0, name_end);
    string_of(rest, na, nb)
}

fn parse_ai_input(rest: &Vec<char>) -> (r: (String, String))
    ensures
        ai_input(rest@) == (r.0@, r.1@),
{
    proof {
        assert(rest@.skip(0) =~= rest@);
    }
    let op = find_char_from(rest, '(', 0);
    let cp = find_char_from(rest, ')', 0);
    match (op, cp) {
        (Some(o), Some(c)) => {
            if c >= o + 1 {
                let inner = slice_of(rest, o + 1, c);
                proof {
                    assert(inner@.skip(0) =~= inner@);
                    assert(inner@.subrange(0, inner@.len() as int) =~= inner@);
                }
                match find_char_from(&inner, ':', 0) {
                    Some(k) => {
                        proof {
                            assert(inner@.take(k as int) =~= inner@.subrange(0, k as int));
                            assert(inner@.skip(k + 1) =~= inner@.subrange(k + 1, inner@.len() as int));
                        }
                        let (x, y) = trim_bounds(&inner, 0, k);
                        let (x2, y2) = trim_bounds(&inner, k + 1, inner.len());
                        return (string_of(&inner, x, y), string_of(&inner, x2, y2));
                    },
                    None => {
                        let (x, y) = trim_bounds(&inner, 0, inner.len());
                        return (string_of(&inner, x, y), String::new());
                    },
                }
            }
        },
        _ => {},
    }
    (String::new(), String::new())
}

fn parse_ai_return(rest: &Vec<char>) -> (r: String)
    ensures
        r@ == ai_return(rest@),
{
    let arrow_pat = crate::text::chars_of("->");
    let n = rest.len();
    match crate::text::find_from_exec(rest, &arrow_pat, 0) {
        Some(p) => {
            proof {
                crate::text::lemma_find_from(rest@, "->"@, 0);
                reveal_strlit("->");
                assert("->"@.len() == 2);
                assert(occurs_at(rest@, p as int, "->"@));
                assert(p + 2 <= n);
            }
            let after = slice_of(rest, p + 2, n);
            proof {
                assert(after@ =~= rest@.skip(p + 2));
                assert(after@.skip(0) =~= after@);
            }
            let b = match find_char_from(&after, '{', 0) {
                Some(q) => q,
                None => after.len(),
            };
            proof {
                assert(after@.take(b as int) =~= after@.subrange(0, b as int));
            }
            let (x, y) = trim_bounds(&after, 0, b);
            string_of(&after, x, y)
        },
        None => String::new(),
    }
}

fn parse_ai_header(first: &Vec<char>) -> (r: (String, String, String, String))
    ensures
        ai_header(first@) == (r.0@, r.1@, r.2@, r.3@),
{
    proof {
        assert(first@.subrange(0, first@.len() as int) =~= first@);
    }
    let (a, b) = rest_after(first, 0, first.len(), "ai action ");
    let rest = slice_of(first, a, b);
    let name = parse_name_before_paren(&rest);
    let (ip, it) = parse_ai_input(&rest);
    let rt = parse_ai_return(&rest);
    (name, ip, it, rt)
}

fn parse_ai_action_decl(ls: &Vec<Vec<char>>, start: usize) -> (r: (AiActionDecl, usize))
    requires
        start < ls.len(),
    ensures
        ai_decl(views(ls@), start as int) == (r.0@, r.1 as int),
        r.1 >= 1,
{
    let ghost all = views(ls@);
    let first = trimmed_line(ls, start);
    let (name, input_param, input_type, return_type) = parse_ai_header(&first);
    let mut d = AiActionDecl {
        name,
        input_param,
        input_type,
        return_type,
        model: String::new(),
        fallback: None,
        temperature: None,
        audit: false,
        pii: None,
        permission: None,
    };
    let mut i = start + 1;
    while i < ls.len()
        invariant_except_break
            ai_decl(all, start as int).0 == ai_body(all, i as int, d@).0,
            ai_decl(all, start as int).1 == ai_body(all, i as int, d@).1 - start,
        invariant
            start + 1 <= i <= ls.len(),
            all == views(ls@),
        ensures
            ai_decl(all, start as int) == (d@, i - start),
        decreases ls.len() - i,
    {
        let line = trimmed_line(ls, i);
        if starts_with_at(&line, 0, "}") {
            i += 1;
            break;
        }
        if line.len() == 0 || starts_with_at(&line, 0, "//") {
            i += 1;
            continue;
        }
        match parse_kv_line(&line, 0, line.len()) {
            None => {
                proof {
                    assert(line@.subrange(0, line@.len() as int) =~= line@);
                }
            },
            Some((k, v0)) => {
                proof {
                    assert(line@.subrange(0, line@.len() as int) =~= line@);
                    assert(v0@.subrange(0, v0@.len() as int) =~= v0@);
                }
                let v = unquote_exec(&v0, 0, v0.len());
                let vs = to_string(&v);
                if crate::text::eq_lit(&k, "model") {
                    d.model = vs;
                } else if crate::text::eq_lit(&k, "fallback") {
                    d.fallback = Some(vs);
                } else if crate::text::eq_lit(&k, "temperature") {
                    d.temperature = if float_text_exec(&v) {
                        Some(vs)
                    } else {
                        None
                    };
                } else if crate::text::eq_lit(&k, "audit") {
                    d.audit = crate::text::eq_lit(&v, "true");
                } else if crate::text::eq_lit(&k, "pii") {
                    d.pii = Some(vs);
                } else if crate::text::eq_lit(&k, "permission") {
                    d.permission = Some(vs);
                } else if crate::text::eq_lit(&k, "input") {
                    d.input_param = vs;
                }
            },
        }
        i += 1;
    }
    (d, i - start)
}


// ---------------------------------------------------------------------------
// Functions and the whole block
// ---------------------------------------------------------------------------

/// Lines of `ls` are short enough for the brace counters.
pub open spec fn lines_bounded(ls: Seq<Seq<char>>) -> bool {
    &&& ls.len() < 0x8000_0000
    &&& forall|j: int| 0 <= j < ls.len() ==> (#[trigger] ls[j]).len() < 0x8000_0000
}

/// Reads a `load`, `action` or `server` function (keyword `kw`) starting on
/// line `start`: name, `async` flag, parameters, body and lines taken.
fn parse_fn_decl(ls: &Vec<Vec<char>>, start: usize, base_line: usize, kw: &str) -> (r: ParseResult<
    (String, bool, Vec<ParamDecl>, String, usize),
>)
    requires
        start < ls.len(),
        base_line < 0x8000_0000,
        lines_bounded(views(ls@)),
    ensures
        match r {
            Ok((n, a, ps, b, k)) => fn_decl(views(ls@), start as int, kw@) == Some(
                (FnModel { name: n@, is_async: a, params: params_view(ps@), body: b@ }, k as int),
            ) && k >= 1,
            Err(e) => fn_decl(views(ls@), start as int, kw@) is None && e@ == fn_error(
                views(ls@),
                start as int,
                kw@,
                base_line as int,
            ),
        },
{
    let ghost all = views(ls@);
    let first = trimmed_line(ls, start);
    let (name, is_async, params) = parse_fn_header(&first, kw)?;
    proof {
        assert forall|j: int| 0 <= j < ls.len() implies (#[trigger] ls@[j]).len() < 0x8000_0000 by {
            assert(all[j] == ls@[j]@);
        }
    }
    let (body, consumed) = extract_braced_body(ls, start, base_line)?;
    Ok((name, is_async, params, body, consumed))
}

pub open spec fn empty_script() -> ScriptModel {
    ScriptModel {
        uses: seq![],
        props: seq![],
        states: seq![],
        memos: seq![],
        loaders: seq![],
        actions: seq![],
        server_fns: seq![],
        forms: seq![],
        ai_actions: seq![],
    }
}

/// The script declarations from line `i` on, added to `acc`, with the
/// `#[permission]` and `#[audit]` annotations that wait for the next action;
/// `None` when a declaration is malformed.
pub open spec fn script_from(
    ls: Seq<Seq<char>>,
    i: int,
    acc: ScriptModel,
    perm: Option<Seq<char>>,
    audit: Option<Seq<char>>,
) -> Option<ScriptModel>
    decreases ls.len() - i,
{
    if i < 0 || i >= ls.len() {
        Some(acc)
    } else {
        let line = trim(ls[i]);
        if line.len() == 0 || starts_with(line, "//"@) {
            script_from(ls, i + 1, acc, perm, audit)
        } else if starts_with(line, "#["@) {
            match attr_annotation(line) {
                Some((k, v)) => if k == "permission"@ {
                    script_from(ls, i + 1, acc, Some(v), audit)
                } else if k == "audit"@ {
                    script_from(ls, i + 1, acc, perm, Some(v))
                } else {
                    script_from(ls, i + 1, acc, perm, audit)
                },
                None => script_from(ls, i + 1, acc, perm, audit),
            }
        } else if starts_with(line, "use "@) {
            script_from(ls, i + 1, ScriptModel { uses: acc.uses.push(use_path(line)), ..acc }, perm, audit)
        } else if starts_with(line, "prop "@) {
            match prop_decl(line) {
                None => None,
                Some(d) => script_from(ls, i + 1, ScriptModel { props: acc.props.push(d), ..acc }, perm, audit),
            }
        } else if starts_with(line, "state "@) {
            match state_decl(line) {
                None => None,
                Some(d) => script_from(ls, i + 1, ScriptModel { states: acc.states.push(d), ..acc }, perm, audit),
            }
        } else if starts_with(line, "memo "@) {
            match memo_decl(line) {
                None => None,
                Some(d) => script_from(ls, i + 1, ScriptModel { memos: acc.memos.push(d), ..acc }, perm, audit),
            }
        } else if starts_with(line, "load "@) {
            match fn_decl(ls, i, "load "@) {
                None => None,
                Some((f, n)) => {
                    let acc2 = ScriptModel { loaders: acc.loaders.push(f), ..acc };
                    if n >= 1 && i + n <= ls.len() {
                        script_from(ls, i + n, acc2, perm, audit)
                    } else {
                        Some(acc2)
                    }
                },
            }
        } else if starts_with(line, "action "@) {
            match fn_decl(ls, i, "action "@) {
                None => None,
                Some((f, n)) => {
                    let acc2 = ScriptModel {
                        actions: acc.actions.push(ActionModel { func: f, permission: perm, audit }),
                        ..acc
                    };
                    if n >= 1 && i + n <= ls.len() {
                        script_from(ls, i + n, acc2, None, None)
                    } else {
                        Some(acc2)
                    }
                },
            }
        } else if starts_with(line, "server "@) {
            match fn_decl(ls, i, "server "@) {
                None => None,
                Some((f, n)) => {
                    let acc2 = ScriptModel { server_fns: acc.server_fns.push(f), ..acc };
                    if n >= 1 && i + n <= ls.len() {
                        script_from(ls, i + n, acc2, perm, audit)
                    } else {
                        Some(acc2)
                    }
                },
            }
        } else if starts_with(line, "form "@) {
            match form_decl(ls, i) {
                None => None,
                Some((f, n)) => {
                    let acc2 = ScriptModel { forms: acc.forms.push(f), ..acc };
                    if n >= 1 && i + n <= ls.len() {
                        script_from(ls, i + n, acc2, perm, audit)
                    } else {
                        Some(acc2)
                    }
                },
            }
        } else if starts_with(line, "ai action "@) || starts_with(line, "ai action\t"@) {
            let (a, n) = ai_decl(ls, i);
            let acc2 = ScriptModel { ai_actions: acc.ai_actions.push(a), ..acc };
            if n >= 1 && i + n <= ls.len() {
                script_from(ls, i + n, acc2, perm, audit)
            } else {
                Some(acc2)
            }
        } else {
            script_from(ls, i + 1, acc, perm, audit)
        }
    }
}

/// The `<script>` block made of the lines `ls`; `None` when a declaration in it
/// is malformed.
pub open spec fn script_block(ls: Seq<Seq<char>>) -> Option<ScriptModel> {
    script_from(ls, 0, empty_script(), None, None)
}

/// The error of the first malformed declaration from line `i` on, the lines
/// being numbered from `base`; `None` when there is none.
pub open spec fn script_error(ls: Seq<Seq<char>>, i: int, base: int) -> Option<ErrModel>
    decreases ls.len() - i,
{
    if i < 0 || i >= ls.len() {
        None
    } else {
        let line = trim(ls[i]);
        if line.len() == 0 || starts_with(line, "//"@) || starts_with(line, "#["@) || starts_with(
            line,
            "use "@,
        ) {
            script_error(ls, i + 1, base)
        } else if starts_with(line, "prop "@) {
            match prop_decl(line) {
                None => Some(prop_error(line)),
                Some(_) => script_error(ls, i + 1, base),
            }
        } else if starts_with(line, "state "@) {
            match state_decl(line) {
                None => Some(state_error(line)),
                Some(_) => script_error(ls, i + 1, base),
            }
        } else if starts_with(line, "memo "@) {
            match memo_decl(line) {
                None => Some(memo_error(line)),
                Some(_) => script_error(ls, i + 1, base),
            }
        } else if starts_with(line, "load "@) || starts_with(line, "action "@) || starts_with(
            line,
            "server "@,
        ) {
            let kw = if starts_with(line, "load "@) {
                "load "@
            } else if starts_with(line, "action "@) {
                "action "@
            } else {
                "server "@
            };
            match fn_decl(ls, i, kw) {
                None => Some(fn_error(ls, i, kw, base)),
                Some((_, n)) => if n >= 1 && i + n <= ls.len() {
                    script_error(ls, i + n, base)
                } else {
                    None
                },
            }
        } else if starts_with(line, "form "@) {
            match form_decl(ls, i) {
                None => form_fields_error(ls, i + 1),
                Some((_, n)) => if n >= 1 && i + n <= ls.len() {
                    script_error(ls, i + n, base)
                } else {
                    None
                },
            }
        } else if starts_with(line, "ai action "@) || starts_with(line, "ai action\t"@) {
            let n = ai_decl(ls, i).1;
            if n >= 1 && i + n <= ls.len() {
                script_error(ls, i + n, base)
            } else {
                None
            }
        } else {
            script_error(ls, i + 1, base)
        }
    }
}

pub open spec fn opt_chars(o: Option<Vec<char>>) -> Option<Seq<char>> {
    match o {
        Some(v) => Some(v@),
        None => None,
    }
}

/// Where the next declaration starts after one that began on line `i` and
/// took `n` lines: past the end when `n` does not fit.
fn next_line(i: usize, n: usize, len: usize) -> (r: usize)
    requires
        i < len,
    ensures
        if n >= 1 && i + n <= len {
            r == i + n
        } else {
            r == len
        },
{
    if n >= 1 && n <= len - i {
        i + n
    } else {
        len
    }
}

/// Reads the declaration on line `i` of a `<script>` block into `script`.
#[verifier::rlimit(40)]
fn script_step(
    ls: &Vec<Vec<char>>,
    i: usize,
    base_line: usize,
    script: &mut ScriptBlock,
    perm: &mut Option<Vec<char>>,
    audit: &mut Option<Vec<char>>,
) -> (r: ParseResult<usize>)
    requires
        i < ls.len(),
        base_line < 0x8000_0000,
        lines_bounded(views(ls@)),
    ensures
        match r {
            Ok(j) => i < j <= ls.len() && script_error(views(ls@), i as int, base_line as int)
                == script_error(views(ls@), j as int, base_line as int) && script_from(
                views(ls@),
                i as int,
                old(script)@,
                opt_chars(*old(perm)),
                opt_chars(*old(audit)),
            ) == script_from(
                views(ls@),
                j as int,
                final(script)@,
                opt_chars(*final(perm)),
                opt_chars(*final(audit)),
            ),
            Err(e) => script_from(
                views(ls@),
                i as int,
                old(script)@,
                opt_chars(*old(perm)),
                opt_chars(*old(audit)),
            ) is None && script_error(views(ls@), i as int, base_line as int) == Some(e@),
        },
{
    let line = trimmed_line(ls, i);
    let ghost before = script@;
    proof {
        reveal_strlit("ai action ");
        reveal_strlit("ai action\t");
    }
    if line.len() == 0 || starts_with_at(&line, 0, "//") {
        Ok(i + 1)
    } else if starts_with_at(&line, 0, "#[") {
        match parse_attribute_annotation(&line) {
            Some((k, v)) => {
                if crate::text::eq_lit(&k, "permission") {
                    *perm = Some(v);
                } else if crate::text::eq_lit(&k, "audit") {
                    *audit = Some(v);
                }
            },
            None => {},
        }
        Ok(i + 1)
    } else if starts_with_at(&line, 0, "use ") {
        let u = parse_use(&line);
        script.uses.push(u);
        proof {
            assert(script@ =~= ScriptModel { uses: before.uses.push(use_path(line@)), ..before });
        }
        Ok(i + 1)
    } else if starts_with_at(&line, 0, "prop ") {
        let d = parse_prop_decl(&line)?;
        let ghost dv = d@;
        script.props.push(d);
        proof {
            assert(script@ =~= ScriptModel { props: before.props.push(dv), ..before });
        }
        Ok(i + 1)
    } else if starts_with_at(&line, 0, "state ") {
        let d = parse_state_decl(&line)?;
        let ghost dv = d@;
        script.states.push(d);
        proof {
            assert(script@ =~= ScriptModel { states: before.states.push(dv), ..before });
        }
        Ok(i + 1)
    } else if starts_with_at(&line, 0, "memo ") {
        let d = parse_memo_decl(&line)?;
        let ghost dv = d@;
        script.memos.push(d);
        proof {
            assert(script@ =~= ScriptModel { memos: before.memos.push(dv), ..before });
        }
        Ok(i + 1)
    } else if starts_with_at(&line, 0, "load ") {
        let (name, is_async, params, body, n) = parse_fn_decl(ls, i, base_line, "load ")?;
        let d = LoaderDecl { name, is_async, params, body };
        let ghost dv = d@;
        script.loaders.push(d);
        proof {
            assert(script@ =~= ScriptModel { loaders: before.loaders.push(dv), ..before });
        }
        Ok(next_line(i, n, ls.len()))
    } else if starts_with_at(&line, 0, "action ") {
        let (name, is_async, params, body, n) = parse_fn_decl(ls, i, base_line, "action ")?;
        let permission = match perm {
            Some(v) => Some(to_string(v)),
            None => None,
        };
        let aud = match audit {
            Some(v) => Some(to_string(v)),
            None => None,
        };
        let d = ActionDecl { name, is_async, params, permission, audit: aud, body };
        let ghost dv = d@;
        script.actions.push(d);
        proof {
            assert(script@ =~= ScriptModel { actions: before.actions.push(dv), ..before });
        }
        *perm = None;
        *audit = None;
        Ok(next_line(i, n, ls.len()))
    } else if starts_with_at(&line, 0, "server ") {
        let (name, is_async, params, body, n) = parse_fn_decl(ls, i, base_line, "server ")?;
        let d = ServerFnDecl { name, is_async, params, body };
        let ghost dv = d@;
        script.server_fns.push(d);
        proof {
            assert(script@ =~= ScriptModel { server_fns: before.server_fns.push(dv), ..before });
        }
        Ok(next_line(i, n, ls.len()))
    } else if starts_with_at(&line, 0, "form ") {
        let (d, n) = parse_form_decl(ls, i)?;
        let ghost dv = d@;
        script.forms.push(d);
        proof {
            assert(script@ =~= ScriptModel { forms: before.forms.push(dv), ..before });
        }
        Ok(next_line(i, n, ls.len()))
    } else if starts_with_at(&line, 0, "ai action ") || starts_with_at(&line, 0, "ai action\t") {
        let (d, n) = parse_ai_action_decl(ls, i);
        let ghost dv = d@;
        script.ai_actions.push(d);
        proof {
            assert(script@ =~= ScriptModel { ai_actions: before.ai_actions.push(dv), ..before });
        }
        Ok(next_line(i, n, ls.len()))
    } else {
        Ok(i + 1)
    }
}

/// Parses the lines of a `<script>` block whose first line is line
/// `base_line` of the file.
pub fn parse_script_block(ls: &Vec<Vec<char>>, base_line: usize) -> (r: ParseResult<ScriptBlock>)
    requires
        base_line < 0x8000_0000,
        lines_bounded(views(ls@)),
    ensures
        match r {
            Ok(s) => script_block(views(ls@)) == Some(s@),
            Err(e) => script_block(views(ls@)) is None && script_error(
                views(ls@),
                0,
                base_line as int,
            ) == Some(e@),
        },
{
    let ghost all = views(ls@);
    let mut script = ScriptBlock {
        uses: Vec::new(),
        props: Vec::new(),
        states: Vec::new(),
        memos: Vec::new(),
        loaders: Vec::new(),
        actions: Vec::new(),
        server_fns: Vec::new(),
        forms: Vec::new(),
        ai_actions: Vec::new(),
    };
    let mut perm: Option<Vec<char>> = None;
    let mut audit: Option<Vec<char>> = None;
    let mut i: usize = 0;
    proof {
        assert(script@ =~= empty_script());
    }
    while i < ls.len()
        invariant
            i <= ls.len(),
            all == views(ls@),
            base_line < 0x8000_0000,
            lines_bounded(all),
            script_block(all) == script_from(all, i as int, script@, opt_chars(perm), opt_chars(audit)),
            script_error(all, 0, base_line as int) == script_error(all, i as int, base_line as int),
        decreases ls.len() - i,
    {
        i = script_step(ls, i, base_line, &mut script, &mut perm, &mut audit)?;
    }
    Ok(script)
}

} // verus!
