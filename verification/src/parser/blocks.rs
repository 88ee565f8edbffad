//! The `<route>`, `<layout>` and `<resource>` blocks: `key: value` lines and
//! the attributes of their opening tags.

use vstd::prelude::*;
use crate::text::{
    find_char, find_char_from, lemma_find_char, lead_ws, lemma_lead_ws_bound, is_ws, char_is_ws,
    slice_of, starts_with, trim, trim_start, string_of, string_from, append_string, eq_lit,
    skip_ws_from, lemma_lead_ws_char,
};
use crate::parser::ast::{
    AuthLevel, FieldConstraint, LayoutBlock, ResourceBlock, ResourceField, ResourcePermission,
    RouteBlock, TenantLevel,
};
use crate::parser::error::{ErrModel, ParseError, ParseResult};
use crate::parser::lex::{
    auth_level, auth_reason, cache_policy, cache_reason, kv_line, parse_auth_level,
    parse_cache_policy, parse_kv_line, parse_tenant_level, starts_with_at, tenant_level,
    tenant_reason, to_string, trimmed, unquote, unquote_exec, views, strip_prefix_all,
};
use crate::parser::model::{LayoutModel, ResourceFieldModel, ResourceModel, RouteModel};
use crate::parser::script::{decl_rest, lines_bounded};

verus! {

// ---------------------------------------------------------------------------
// Route
// ---------------------------------------------------------------------------

pub open spec fn empty_route() -> RouteModel {
    RouteModel {
        path: None,
        method: None,
        layout: None,
        page_title: None,
        auth: None,
        role: None,
        permission: None,
        tenant: None,
        cache: None,
        error: None,
        not_found: None,
    }
}

/// The route after `key: v` on line `line_no`, or the error it gives.
pub open spec fn route_set(r: RouteModel, key: Seq<char>, v: Seq<char>, line_no: int) -> Result<
    RouteModel,
    ErrModel,
> {
    if key == "path"@ {
        Ok(RouteModel { path: Some(v), ..r })
    } else if key == "method"@ {
        Ok(RouteModel { method: Some(v), ..r })
    } else if key == "layout"@ {
        Ok(RouteModel { layout: Some(v), ..r })
    } else if key == "page_title"@ {
        Ok(RouteModel { page_title: Some(v), ..r })
    } else if key == "auth"@ {
        match auth_level(v) {
            Some(a) => Ok(RouteModel { auth: Some(a), ..r }),
            None => Err(ErrModel::InvalidValue { field: "auth"@, value: v, reason: auth_reason(v) }),
        }
    } else if key == "role"@ {
        Ok(RouteModel { role: Some(v), ..r })
    } else if key == "permission"@ {
        Ok(RouteModel { permission: Some(v), ..r })
    } else if key == "tenant"@ {
        match tenant_level(v) {
            Some(t) => Ok(RouteModel { tenant: Some(t), ..r }),
            None => Err(
                ErrModel::InvalidValue { field: "tenant"@, value: v, reason: tenant_reason(v) },
            ),
        }
    } else if key == "cache"@ {
        match cache_policy(v) {
            Some(c) => Ok(RouteModel { cache: Some(c), ..r }),
            None => Err(ErrModel::InvalidValue { field: "cache"@, value: v, reason: cache_reason(v) }),
        }
    } else if key == "error"@ {
        Ok(RouteModel { error: Some(v), ..r })
    } else if key == "not_found"@ {
        Ok(RouteModel { not_found: Some(v), ..r })
    } else {
        Err(ErrModel::Syntax { line: line_no, col: 1, message: "Unknown route field: "@ + key })
    }
}

/// One trimmed line of a `<route>` block, numbered `line_no`.
pub open spec fn route_line(line: Seq<char>, line_no: int, r: RouteModel) -> Result<RouteModel, ErrModel> {
    if line.len() == 0 || starts_with(line, "//"@) {
        Ok(r)
    } else {
        match kv_line(line) {
            None => Err(
                ErrModel::Syntax {
                    line: line_no,
                    col: 1,
                    message: "Expected `key: value`, got: "@ + line,
                },
            ),
            Some((k, v)) => route_set(r, k, unquote(v), line_no),
        }
    }
}

/// The route lines from `i` on, applied to `r`; the block's first line is
/// numbered `base + 1`.
pub open spec fn route_from(ls: Seq<Seq<char>>, i: int, base: int, r: RouteModel) -> Result<
    RouteModel,
    ErrModel,
>
    decreases ls.len() - i,
{
    if i < 0 || i >= ls.len() {
        Ok(r)
    } else {
        match route_line(trim(ls[i]), base + i + 1, r) {
            Err(e) => Err(e),
            Ok(r2) => route_from(ls, i + 1, base, r2),
        }
    }
}

pub open spec fn route_block(ls: Seq<Seq<char>>, base: int) -> Result<RouteModel, ErrModel> {
    route_from(ls, 0, base, empty_route())
}

/// The message `prefix` followed by the characters of `s`.
fn message_of(prefix: &str, s: &Vec<char>) -> (r: String)
    ensures
        r@ == prefix@ + s@,
{
    let mut m = string_from(prefix);
    let t = to_string(s);
    append_string(&mut m, &t);
    m
}

fn invalid_value(field: &str, v: &Vec<char>, reason: String) -> (r: ParseError)
    ensures
        r@ == (ErrModel::InvalidValue { field: field@, value: v@, reason: reason@ }),
{
    ParseError::InvalidValue { field: string_from(field), value: to_string(v), reason }
}

/// Applies one trimmed route line to `route`.
#[verifier::rlimit(30)]
fn apply_route_line(line: &Vec<char>, line_no: usize, route: &mut RouteBlock) -> (r: ParseResult<()>)
    ensures
        match r {
            Ok(_) => route_line(line@, line_no as int, old(route)@) == Ok::<RouteModel, ErrModel>(
                final(route)@,
            ),
            Err(e) => route_line(line@, line_no as int, old(route)@) == Err::<RouteModel, ErrModel>(
                e@,
            ),
        },
{
    if line.len() == 0 || starts_with_at(line, 0, "//") {
        return Ok(());
    }
    proof {
        assert(line@.subrange(0, line@.len() as int) =~= line@);
    }
    let (k, value) = match parse_kv_line(line, 0, line.len()) {
        None => {
            let m = message_of("Expected `key: value`, got: ", line);
            return Err(ParseError::Syntax { line: line_no, col: 1, message: m });
        },
        Some(p) => p,
    };
    proof {
        assert(value@.subrange(0, value@.len() as int) =~= value@);
    }
    let v = unquote_exec(&value, 0, value.len());
    if eq_lit(&k, "path") {
        route.path = Some(to_string(&v));
    } else if eq_lit(&k, "method") {
        route.method = Some(to_string(&v));
    } else if eq_lit(&k, "layout") {
        route.layout = Some(to_string(&v));
    } else if eq_lit(&k, "page_title") {
        route.page_title = Some(to_string(&v));
    } else if eq_lit(&k, "auth") {
        match parse_auth_level(&v) {
            Ok(a) => route.auth = Some(a),
            Err(reason) => return Err(invalid_value("auth", &v, reason)),
        }
    } else if eq_lit(&k, "role") {
        route.role = Some(to_string(&v));
    } else if eq_lit(&k, "permission") {
        route.permission = Some(to_string(&v));
    } else if eq_lit(&k, "tenant") {
        match parse_tenant_level(&v) {
            Ok(t) => route.tenant = Some(t),
            Err(reason) => return Err(invalid_value("tenant", &v, reason)),
        }
    } else if eq_lit(&k, "cache") {
        match parse_cache_policy(&v) {
            Ok(c) => route.cache = Some(c),
            Err(reason) => return Err(invalid_value("cache", &v, reason)),
        }
    } else if eq_lit(&k, "error") {
        route.error = Some(to_string(&v));
    } else if eq_lit(&k, "not_found") {
        route.not_found = Some(to_string(&v));
    } else {
        let m = message_of("Unknown route field: ", &k);
        return Err(ParseError::Syntax { line: line_no, col: 1, message: m });
    }
    Ok(())
}

/// Parses the lines of a `<route>` block whose opening tag is on line
/// `base_line` (its first line is numbered `base_line + 1`).
pub fn parse_route_block(ls: &Vec<Vec<char>>, base_line: usize) -> (r: ParseResult<RouteBlock>)
    requires
        base_line < 0x8000_0000,
        ls.len() < 0x8000_0000,
    ensures
        match r {
            Ok(b) => route_block(views(ls@), base_line as int) == Ok::<RouteModel, ErrModel>(b@),
            Err(e) => route_block(views(ls@), base_line as int) == Err::<RouteModel, ErrModel>(e@),
        },
{
    let ghost all = views(ls@);
    let mut route = RouteBlock {
        path: None,
        method: None,
        layout: None,
        page_title: None,
        auth: None,
        role: None,
        permission: None,
        tenant: None,
        cache: None,
        error: None,
        not_found: None,
    };
    let mut i: usize = 0;
    while i < ls.len()
        invariant
            i <= ls.len(),
            ls.len() < 0x8000_0000,
            base_line < 0x8000_0000,
            all == views(ls@),
            route_block(all, base_line as int) == route_from(all, i as int, base_line as int, route@),
        decreases ls.len() - i,
    {
        let line = trimmed(&ls[i]);
        proof {
            assert(all[i as int] == ls@[i as int]@);
        }
        apply_route_line(&line, base_line + i + 1, &mut route)?;
        i += 1;
    }
    Ok(route)
}


// ---------------------------------------------------------------------------
// Tag attributes
// ---------------------------------------------------------------------------

/// Position of the first `=` or whitespace character of `s`, or its length.
pub open spec fn name_end(s: Seq<char>) -> nat
    decreases s.len(),
{
    if s.len() == 0 || s[0] == '=' || is_ws(s[0]) {
        0
    } else {
        1 + name_end(s.drop_first())
    }
}

pub proof fn lemma_name_end_char(s: Seq<char>, k: int)
    requires
        0 <= k <= s.len(),
        forall|j: int| 0 <= j < k ==> !(#[trigger] s[j] == '=' || is_ws(s[j])),
        k == s.len() || s[k] == '=' || is_ws(s[k]),
    ensures
        name_end(s) == k,
    decreases s.len(),
{
    if k > 0 {
        let t = s.drop_first();
        assert(!(s[0] == '=' || is_ws(s[0])));
        assert forall|j: int| 0 <= j < k - 1 implies !(#[trigger] t[j] == '=' || is_ws(t[j])) by {
            assert(t[j] == s[j + 1]);
        }
        if k < s.len() {
            assert(t[k - 1] == s[k]);
        }
        lemma_name_end_char(t, k - 1);
    }
}

/// The position after the whitespace that starts at `p`.
pub open spec fn ws_skip(s: Seq<char>, p: int) -> int {
    p + lead_ws(s.skip(p))
}

/// The `name[=value]` attributes of `s` read from position `p` on, as `str`
/// slicing reads them: values in double or single quotes run to the closing
/// quote (or the end), unquoted values to the next whitespace, and a name
/// without `=` has an empty value.
pub open spec fn attrs_from(s: Seq<char>, p: int) -> Seq<(Seq<char>, Seq<char>)>
    decreases s.len() - p,
{
    if p < 0 || p >= s.len() {
        seq![]
    } else {
        let a = ws_skip(s, p);
        if a >= s.len() {
            seq![]
        } else {
            let ne = a + name_end(s.skip(a));
            let name = s.subrange(a, ne);
            let b = ws_skip(s, ne);
            if b < s.len() && s[b] == '=' {
                let c = ws_skip(s, b + 1);
                proof {
                    lemma_lead_ws_bound(s.skip(b + 1));
                }
                if c < s.len() && (s[c] == '"' || s[c] == '\'') {
                    let e = find_char(s.skip(c + 1), s[c]);
                    proof {
                        lemma_find_char(s.skip(c + 1), s[c]);
                    }
                    if e < 0 {
                        seq![(name, s.skip(c + 1))]
                    } else {
                        seq![(name, s.subrange(c + 1, c + 1 + e))] + attrs_from(s, c + 2 + e)
                    }
                } else {
                    let e = c + crate::parser::split::word_end(s.skip(c));
                    proof {
                        crate::parser::split::lemma_word_end(s.skip(c));
                    }
                    seq![(name, s.subrange(c, e))] + attrs_from(s, e)
                }
            } else if p < b <= s.len() {
                seq![(name, seq![])] + attrs_from(s, b)
            } else {
                seq![(name, seq![])]
            }
        }
    }
}

/// The attributes of an opening tag's text `s`.
pub open spec fn tag_attrs(s: Seq<char>) -> Seq<(Seq<char>, Seq<char>)> {
    attrs_from(trim(s), 0)
}

pub open spec fn pairs_view(v: Seq<(String, String)>) -> Seq<(Seq<char>, Seq<char>)> {
    v.map_values(|pr: (String, String)| (pr.0@, pr.1@))
}

/// The value of the first attribute named `key`.
pub open spec fn attr_lookup(ps: Seq<(Seq<char>, Seq<char>)>, key: Seq<char>) -> Option<Seq<char>>
    decreases ps.len(),
{
    if ps.len() == 0 {
        None
    } else if ps[0].0 == key {
        Some(ps[0].1)
    } else {
        attr_lookup(ps.drop_first(), key)
    }
}

/// `ws_skip(s, p)` computed.
fn ws_skip_exec(s: &Vec<char>, p: usize) -> (r: usize)
    requires
        p <= s.len(),
    ensures
        r == ws_skip(s@, p as int),
        p <= r <= s.len(),
{
    let r = skip_ws_from(s, p, s.len());
    proof {
        let t = s@.skip(p as int);
        assert forall|j: int| 0 <= j < r - p implies is_ws(#[trigger] t[j]) by {
            assert(t[j] == s@[p + j]);
        }
        if r < s.len() {
            assert(t[r - p] == s@[r as int]);
        }
        lemma_lead_ws_char(t, r - p);
    }
    r
}

/// `a + name_end(s.skip(a))` computed.
fn name_end_exec(s: &Vec<char>, a: usize) -> (r: usize)
    requires
        a <= s.len(),
    ensures
        r == a + name_end(s@.skip(a as int)),
        a <= r <= s.len(),
{
    let mut k = a;
    while k < s.len() && !(s[k] == '=' || char_is_ws(s[k]))
        invariant
            a <= k <= s.len(),
            forall|j: int| a <= j < k ==> !(#[trigger] s@[j] == '=' || is_ws(s@[j])),
        decreases s.len() - k,
    {
        k += 1;
    }
    proof {
        let t = s@.skip(a as int);
        assert forall|j: int| 0 <= j < k - a implies !(#[trigger] t[j] == '=' || is_ws(t[j])) by {
            assert(t[j] == s@[a + j]);
        }
        if k < s.len() {
            assert(t[k - a] == s@[k as int]);
        }
        lemma_name_end_char(t, k - a);
    }
    k
}

/// `c + word_end(s.skip(c))` computed.
fn word_end_exec(s: &Vec<char>, c: usize) -> (r: usize)
    requires
        c <= s.len(),
    ensures
        r == c + crate::parser::split::word_end(s@.skip(c as int)),
        c <= r <= s.len(),
{
    let mut k = c;
    while k < s.len() && !char_is_ws(s[k])
        invariant
            c <= k <= s.len(),
            forall|j: int| c <= j < k ==> !is_ws(#[trigger] s@[j]),
        decreases s.len() - k,
    {
        k += 1;
    }
    proof {
        let t = s@.skip(c as int);
        assert forall|j: int| 0 <= j < k - c implies !is_ws(#[trigger] t[j]) by {
            assert(t[j] == s@[c + j]);
        }
        if k < s.len() {
            assert(t[k - c] == s@[k as int]);
        }
        crate::parser::split::lemma_word_end_char(t, k - c);
    }
    k
}

/// Reads the tag attributes of `attrs` (`name="Customer" table='t' flag`).
pub fn parse_tag_attrs(attrs: &Vec<char>) -> (r: Vec<(String, String)>)
    ensures
        pairs_view(r@) == tag_attrs(attrs@),
{
    let s = trimmed(attrs);
    let ghost sv = s@;
    let mut out: Vec<(String, String)> = Vec::new();
    let mut p: usize = 0;
    proof {
        assert(pairs_view(out@) =~= Seq::<(Seq<char>, Seq<char>)>::empty());
    }
    while p < s.len()
        invariant
            p <= s.len(),
            sv == s@,
            sv == trim(attrs@),
            pairs_view(out@) + attrs_from(sv, p as int) == attrs_from(sv, 0),
        decreases s.len() - p,
    {
        let ghost before = pairs_view(out@);
        let a = ws_skip_exec(&s, p);
        if a >= s.len() {
            proof {
                assert(attrs_from(sv, p as int) == Seq::<(Seq<char>, Seq<char>)>::empty());
                assert(attrs_from(sv, s.len() as int) == Seq::<(Seq<char>, Seq<char>)>::empty());
            }
            p = s.len();
        } else {
            let ne = name_end_exec(&s, a);
            let name = string_of(&s, a, ne);
            let b = ws_skip_exec(&s, ne);
            if b < s.len() && s[b] == '=' {
                let c = ws_skip_exec(&s, b + 1);
                if c < s.len() && (s[c] == '"' || s[c] == '\'') {
                    let q = s[c];
                    match find_char_from(&s, q, c + 1) {
                        None => {
                            let v = string_of(&s, c + 1, s.len());
                            out.push((name, v));
                            proof {
                                assert(sv.skip(c + 1) =~= sv.subrange(c + 1, sv.len() as int));
                                assert(pairs_view(out@) =~= before.push((sv.subrange(a as int, ne as int), sv.skip(c + 1))));
                                assert(attrs_from(sv, p as int) =~= seq![(sv.subrange(a as int, ne as int), sv.skip(c + 1))]);
                                assert(attrs_from(sv, s.len() as int) == Seq::<(Seq<char>, Seq<char>)>::empty());
                            }
                            p = s.len();
                        },
                        Some(e) => {
                            let v = string_of(&s, c + 1, e);
                            out.push((name, v));
                            proof {
                                let fe = e - (c + 1);
                                assert(find_char(sv.skip(c + 1), q) == fe);
                                assert(c + 2 + fe == e + 1);
                                assert(pairs_view(out@) =~= before.push((sv.subrange(a as int, ne as int), sv.subrange(c + 1, e as int))));
                                assert(attrs_from(sv, p as int) =~= seq![(sv.subrange(a as int, ne as int), sv.subrange(c + 1, e as int))] + attrs_from(sv, e + 1));
                            }
                            p = e + 1;
                        },
                    }
                } else {
                    let e = word_end_exec(&s, c);
                    let v = string_of(&s, c, e);
                    out.push((name, v));
                    proof {
                        assert(pairs_view(out@) =~= before.push((sv.subrange(a as int, ne as int), sv.subrange(c as int, e as int))));
                        assert(attrs_from(sv, p as int) =~= seq![(sv.subrange(a as int, ne as int), sv.subrange(c as int, e as int))] + attrs_from(sv, e as int));
                    }
                    p = e;
                }
            } else {
                out.push((name, String::new()));
                proof {
                    assert(b > p) by {
                        if b == p {
                            assert(a == p);
                            assert(ne == a);
                            assert(!is_ws(sv[a as int])) by {
                                lemma_lead_ws_bound(sv.skip(p as int));
                                assert(sv.skip(p as int)[0] == sv[p as int]);
                            }
                            assert(name_end(sv.skip(a as int)) == 0);
                            assert(sv.skip(a as int)[0] == sv[a as int]);
                        }
                    }
                    assert(pairs_view(out@) =~= before.push((sv.subrange(a as int, ne as int), Seq::<char>::empty())));
                    assert(attrs_from(sv, p as int) =~= seq![(sv.subrange(a as int, ne as int), Seq::<char>::empty())] + attrs_from(sv, b as int));
                }
                p = b;
            }
        }
    }
    proof {
        assert(attrs_from(sv, p as int) == Seq::<(Seq<char>, Seq<char>)>::empty());
        assert(pairs_view(out@) + Seq::<(Seq<char>, Seq<char>)>::empty() =~= pairs_view(out@));
    }
    out
}

/// The value of the first attribute of `ps` named `key`.
pub fn find_attr(ps: &Vec<(String, String)>, key: &str) -> (r: Option<String>)
    ensures
        match r {
            Some(v) => attr_lookup(pairs_view(ps@), key@) == Some(v@),
            None => attr_lookup(pairs_view(ps@), key@) is None,
        },
{
    let ghost all = pairs_view(ps@);
    let k = string_from(key);
    let mut i: usize = 0;
    proof {
        assert(all.skip(0) =~= all);
    }
    while i < ps.len()
        invariant
            i <= ps.len(),
            all == pairs_view(ps@),
            k@ == key@,
            attr_lookup(all, key@) == attr_lookup(all.skip(i as int), key@),
        decreases ps.len() - i,
    {
        proof {
            assert(all.skip(i as int)[0] == all[i as int]);
            assert(all.skip(i as int).drop_first() =~= all.skip(i + 1));
        }
        if crate::text::string_eq(&ps[i].0, &k) {
            let v = ps[i].1.clone();
            return Some(v);
        }
        i += 1;
    }
    proof {
        assert(all.skip(ps.len() as int) =~= Seq::<(Seq<char>, Seq<char>)>::empty());
    }
    None
}

// ---------------------------------------------------------------------------
// Layout
// ---------------------------------------------------------------------------

/// One trimmed line of a `<layout>` block: `auth` and `tenant` are read,
/// other keys and lines without `:` are passed over.
pub open spec fn layout_line(line: Seq<char>, m: LayoutModel) -> Result<LayoutModel, ErrModel> {
    if line.len() == 0 || starts_with(line, "//"@) {
        Ok(m)
    } else {
        match kv_line(line) {
            None => Ok(m),
            Some((k, v0)) => {
                let v = unquote(v0);
                if k == "auth"@ {
                    match auth_level(v) {
                        Some(a) => Ok(LayoutModel { auth: Some(a), ..m }),
                        None => Err(
                            ErrModel::InvalidValue { field: "auth"@, value: v, reason: auth_reason(v) },
                        ),
                    }
                } else if k == "tenant"@ {
                    match tenant_level(v) {
                        Some(t) => Ok(LayoutModel { tenant: Some(t), ..m }),
                        None => Err(
                            ErrModel::InvalidValue {
                                field: "tenant"@,
                                value: v,
                                reason: tenant_reason(v),
                            },
                        ),
                    }
                } else {
                    Ok(m)
                }
            },
        }
    }
}

pub open spec fn layout_from(ls: Seq<Seq<char>>, i: int, m: LayoutModel) -> Result<LayoutModel, ErrModel>
    decreases ls.len() - i,
{
    if i < 0 || i >= ls.len() {
        Ok(m)
    } else {
        match layout_line(trim(ls[i]), m) {
            Err(e) => Err(e),
            Ok(m2) => layout_from(ls, i + 1, m2),
        }
    }
}

/// The `<layout>` block with opening-tag attributes `attrs` and lines `ls`.
pub open spec fn layout_block(attrs: Seq<char>, ls: Seq<Seq<char>>) -> Result<LayoutModel, ErrModel> {
    let name = match attr_lookup(tag_attrs(attrs), "name"@) {
        Some(n) => n,
        None => seq![],
    };
    layout_from(ls, 0, LayoutModel { name, auth: None, tenant: None })
}

fn apply_layout_line(line: &Vec<char>, layout: &mut LayoutBlock) -> (r: ParseResult<()>)
    ensures
        match r {
            Ok(_) => layout_line(line@, old(layout)@) == Ok::<LayoutModel, ErrModel>(final(layout)@),
            Err(e) => layout_line(line@, old(layout)@) == Err::<LayoutModel, ErrModel>(e@),
        },
{
    if line.len() == 0 || starts_with_at(line, 0, "//") {
        return Ok(());
    }
    proof {
        assert(line@.subrange(0, line@.len() as int) =~= line@);
    }
    match parse_kv_line(line, 0, line.len()) {
        None => Ok(()),
        Some((k, value)) => {
            proof {
                assert(value@.subrange(0, value@.len() as int) =~= value@);
            }
            let v = unquote_exec(&value, 0, value.len());
            if eq_lit(&k, "auth") {
                match parse_auth_level(&v) {
                    Ok(a) => {
                        layout.auth = Some(a);
                        Ok(())
                    },
                    Err(reason) => Err(invalid_value("auth", &v, reason)),
                }
            } else if eq_lit(&k, "tenant") {
                match parse_tenant_level(&v) {
                    Ok(t) => {
                        layout.tenant = Some(t);
                        Ok(())
                    },
                    Err(reason) => Err(invalid_value("tenant", &v, reason)),
                }
            } else {
                Ok(())
            }
        },
    }
}

/// Parses a `<layout>` block from its opening-tag attributes and its lines.
pub fn parse_layout_block(attrs: &Vec<char>, ls: &Vec<Vec<char>>) -> (r: ParseResult<LayoutBlock>)
    ensures
        match r {
            Ok(b) => layout_block(attrs@, views(ls@)) == Ok::<LayoutModel, ErrModel>(b@),
            Err(e) => layout_block(attrs@, views(ls@)) == Err::<LayoutModel, ErrModel>(e@),
        },
{
    let ghost all = views(ls@);
    let pairs = parse_tag_attrs(attrs);
    let name = match find_attr(&pairs, "name") {
        Some(n) => n,
        None => String::new(),
    };
    let mut layout = LayoutBlock { name, auth: None, tenant: None };
    let mut i: usize = 0;
    while i < ls.len()
        invariant
            i <= ls.len(),
            all == views(ls@),
            layout_block(attrs@, all) == layout_from(all, i as int, layout@),
        decreases ls.len() - i,
    {
        let line = trimmed(&ls[i]);
        proof {
            assert(all[i as int] == ls@[i as int]@);
        }
        apply_layout_line(&line, &mut layout)?;
        i += 1;
    }
    Ok(layout)
}

// ---------------------------------------------------------------------------
// Resource
// ---------------------------------------------------------------------------

/// `field name: Type constraints... [default=value]`.
pub open spec fn resource_field(line: Seq<char>) -> Option<ResourceFieldModel> {
    let rest = decl_rest(line, "field "@);
    let c = find_char(rest, ':');
    if c < 0 {
        None
    } else {
        let tr = trim(rest.skip(c + 1));
        let tc = crate::parser::decl::type_and_constraints(tr);
        let cons = crate::parser::decl::field_constraints(tc.1);
        Some(
            ResourceFieldModel {
                name: trim(rest.take(c)),
                ty: tc.0,
                constraints: cons,
                searchable: cons.contains(FieldConstraint::Searchable),
                readonly: cons.contains(FieldConstraint::Readonly),
                default: crate::parser::decl::first_default(crate::parser::split::words(tr)),
            },
        )
    }
}

/// `permission action: "perm"`: the action and the unquoted permission.
pub open spec fn resource_permission(line: Seq<char>) -> Option<(Seq<char>, Seq<char>)> {
    match kv_line(decl_rest(line, "permission "@)) {
        Some((a, p)) => Some((a, unquote(p))),
        None => None,
    }
}

/// One trimmed line of a `<resource>` block, numbered `line_no`.
pub open spec fn resource_line(line: Seq<char>, line_no: int, m: ResourceModel) -> Result<
    ResourceModel,
    ErrModel,
> {
    if line.len() == 0 || starts_with(line, "//"@) {
        Ok(m)
    } else if starts_with(line, "tenant:"@) {
        let v = decl_rest(line, "tenant:"@);
        match tenant_level(v) {
            Some(t) => Ok(ResourceModel { tenant: t, ..m }),
            None => Err(ErrModel::InvalidValue { field: "tenant"@, value: v, reason: tenant_reason(v) }),
        }
    } else if starts_with(line, "primary_key:"@) {
        Ok(ResourceModel { primary_key: decl_rest(line, "primary_key:"@), ..m })
    } else if starts_with(line, "field "@) {
        match resource_field(line) {
            None => Err(
                ErrModel::Syntax {
                    line: line_no,
                    col: 1,
                    message: "Expected `field name: Type constraints` got: "@ + line,
                },
            ),
            Some(f) => Ok(ResourceModel { fields: m.fields.push(f), ..m }),
        }
    } else if starts_with(line, "permission "@) {
        match resource_permission(line) {
            None => Err(
                ErrModel::Syntax {
                    line: line_no,
                    col: 1,
                    message: "Expected `permission action: \"perm\"`, got: "@ + line,
                },
            ),
            Some(pm) => Ok(ResourceModel { permissions: m.permissions.push(pm), ..m }),
        }
    } else {
        Ok(m)
    }
}

pub open spec fn resource_from(ls: Seq<Seq<char>>, i: int, base: int, m: ResourceModel) -> Result<
    ResourceModel,
    ErrModel,
>
    decreases ls.len() - i,
{
    if i < 0 || i >= ls.len() {
        Ok(m)
    } else {
        match resource_line(trim(ls[i]), base + i, m) {
            Err(e) => Err(e),
            Ok(m2) => resource_from(ls, i + 1, base, m2),
        }
    }
}

/// The `<resource>` block with opening-tag attributes `attrs`, lines `ls`,
/// and opening tag on line `base`: `name` and `table` attributes are required.
pub open spec fn resource_block(attrs: Seq<char>, ls: Seq<Seq<char>>, base: int) -> Result<
    ResourceModel,
    ErrModel,
> {
    match attr_lookup(tag_attrs(attrs), "name"@) {
        None => Err(ErrModel::MissingField { block: "resource"@, field: "name"@ }),
        Some(n) => match attr_lookup(tag_attrs(attrs), "table"@) {
            None => Err(ErrModel::MissingField { block: "resource"@, field: "table"@ }),
            Some(t) => resource_from(
                ls,
                0,
                base,
                ResourceModel {
                    name: n,
                    table: t,
                    tenant: TenantLevel::NoTenant,
                    primary_key: "id"@,
                    fields: seq![],
                    permissions: seq![],
                },
            ),
        },
    }
}

fn has_constraint(cs: &Vec<FieldConstraint>, c: FieldConstraint) -> (r: bool)
    ensures
        r == cs@.contains(c),
{
    let mut i: usize = 0;
    while i < cs.len()
        invariant
            i <= cs.len(),
            forall|j: int| 0 <= j < i ==> cs@[j] != c,
        decreases cs.len() - i,
    {
        if cs[i] == c {
            proof {
                assert(cs@[i as int] == c);
            }
            return true;
        }
        i += 1;
    }
    false
}

fn parse_resource_field(line: &Vec<char>, line_no: usize) -> (r: ParseResult<ResourceField>)
    ensures
        match r {
            Ok(f) => resource_field(line@) == Some(f@),
            Err(e) => resource_field(line@) is None && e@ == (ErrModel::Syntax {
                line: line_no as int,
                col: 1,
                message: "Expected `field name: Type constraints` got: "@ + line@,
            }),
        },
{
    proof {
        assert(line@.subrange(0, line@.len() as int) =~= line@);
    }
    let a = crate::parser::lex::strip_prefix_all_from(line, 0, line.len(), "field ");
    let (x, y) = crate::text::trim_bounds(line, a, line.len());
    let rest = slice_of(line, x, y);
    proof {
        assert(rest@.skip(0) =~= rest@);
    }
    match find_char_from(&rest, ':', 0) {
        None => {
            let m = message_of("Expected `field name: Type constraints` got: ", line);
            Err(ParseError::Syntax { line: line_no, col: 1, message: m })
        },
        Some(c) => {
            proof {
                assert(rest@.take(c as int) =~= rest@.subrange(0, c as int));
                assert(rest@.skip(c + 1) =~= rest@.subrange(c + 1, rest@.len() as int));
            }
            let (na, nb) = crate::text::trim_bounds(&rest, 0, c);
            let (ta, tb) = crate::text::trim_bounds(&rest, c + 1, rest.len());
            let (ty, cs) = crate::parser::decl::split_type_and_constraints(&rest, ta, tb);
            proof {
                assert(cs@.subrange(0, cs@.len() as int) =~= cs@);
            }
            let constraints = crate::parser::decl::parse_field_constraints(&cs, 0, cs.len());
            let searchable = has_constraint(&constraints, FieldConstraint::Searchable);
            let readonly = has_constraint(&constraints, FieldConstraint::Readonly);
            let default = crate::parser::decl::extract_default_from_rest(&rest, ta, tb);
            Ok(
                ResourceField {
                    name: string_of(&rest, na, nb),
                    ty: to_string(&ty),
                    constraints,
                    searchable,
                    readonly,
                    default,
                },
            )
        },
    }
}

fn parse_resource_permission(line: &Vec<char>, line_no: usize) -> (r: ParseResult<ResourcePermission>)
    ensures
        match r {
            Ok(pm) => resource_permission(line@) == Some(pm@),
            Err(e) => resource_permission(line@) is None && e@ == (ErrModel::Syntax {
                line: line_no as int,
                col: 1,
                message: "Expected `permission action: \"perm\"`, got: "@ + line@,
            }),
        },
{
    proof {
        assert(line@.subrange(0, line@.len() as int) =~= line@);
    }
    let a = crate::parser::lex::strip_prefix_all_from(line, 0, line.len(), "permission ");
    let (x, y) = crate::text::trim_bounds(line, a, line.len());
    match parse_kv_line(line, x, y) {
        Some((act, pm)) => {
            proof {
                assert(pm@.subrange(0, pm@.len() as int) =~= pm@);
            }
            let perm = unquote_exec(&pm, 0, pm.len());
            Ok(ResourcePermission { action: to_string(&act), permission: to_string(&perm) })
        },
        None => {
            let m = message_of("Expected `permission action: \"perm\"`, got: ", line);
            Err(ParseError::Syntax { line: line_no, col: 1, message: m })
        },
    }
}

#[verifier::rlimit(30)]
fn apply_resource_line(line: &Vec<char>, line_no: usize, res: &mut ResourceBlock) -> (r: ParseResult<()>)
    ensures
        match r {
            Ok(_) => resource_line(line@, line_no as int, old(res)@) == Ok::<ResourceModel, ErrModel>(
                final(res)@,
            ),
            Err(e) => resource_line(line@, line_no as int, old(res)@) == Err::<ResourceModel, ErrModel>(
                e@,
            ),
        },
{
    let ghost before = res@;
    proof {
        assert(line@.subrange(0, line@.len() as int) =~= line@);
    }
    if line.len() == 0 || starts_with_at(line, 0, "//") {
        Ok(())
    } else if starts_with_at(line, 0, "tenant:") {
        let a = crate::parser::lex::strip_prefix_all_from(line, 0, line.len(), "tenant:");
        let (x, y) = crate::text::trim_bounds(line, a, line.len());
        let v = slice_of(line, x, y);
        match parse_tenant_level(&v) {
            Ok(t) => {
                res.tenant = t;
                Ok(())
            },
            Err(reason) => Err(invalid_value("tenant", &v, reason)),
        }
    } else if starts_with_at(line, 0, "primary_key:") {
        let a = crate::parser::lex::strip_prefix_all_from(line, 0, line.len(), "primary_key:");
        let (x, y) = crate::text::trim_bounds(line, a, line.len());
        res.primary_key = string_of(line, x, y);
        Ok(())
    } else if starts_with_at(line, 0, "field ") {
        let f = parse_resource_field(line, line_no)?;
        let ghost fv = f@;
        res.fields.push(f);
        proof {
            assert(res@ =~= ResourceModel { fields: before.fields.push(fv), ..before });
        }
        Ok(())
    } else if starts_with_at(line, 0, "permission ") {
        let pm = parse_resource_permission(line, line_no)?;
        let ghost pv = pm@;
        res.permissions.push(pm);
        proof {
            assert(res@ =~= ResourceModel { permissions: before.permissions.push(pv), ..before });
        }
        Ok(())
    } else {
        Ok(())
    }
}

/// Parses a `<resource>` block from its opening-tag attributes, its lines and
/// the line of its opening tag.
pub fn parse_resource_block(attrs: &Vec<char>, ls: &Vec<Vec<char>>, base_line: usize) -> (r: ParseResult<
    ResourceBlock,
>)
    requires
        base_line < 0x8000_0000,
        ls.len() < 0x8000_0000,
    ensures
        match r {
            Ok(b) => resource_block(attrs@, views(ls@), base_line as int) == Ok::<
                ResourceModel,
                ErrModel,
            >(b@),
            Err(e) => resource_block(attrs@, views(ls@), base_line as int) == Err::<
                ResourceModel,
                ErrModel,
            >(e@),
        },
{
    let ghost all = views(ls@);
    let pairs = parse_tag_attrs(attrs);
    let name = match find_attr(&pairs, "name") {
        Some(n) => n,
        None => {
            return Err(
                ParseError::MissingField { block: string_from("resource"), field: string_from("name") },
            );
        },
    };
    let table = match find_attr(&pairs, "table") {
        Some(t) => t,
        None => {
            return Err(
                ParseError::MissingField { block: string_from("resource"), field: string_from("table") },
            );
        },
    };
    let mut res = ResourceBlock {
        name,
        table,
        tenant: TenantLevel::NoTenant,
        primary_key: string_from("id"),
        fields: Vec::new(),
        permissions: Vec::new(),
    };
    proof {
        assert(res@.fields =~= Seq::<ResourceFieldModel>::empty());
        assert(res@.permissions =~= Seq::<(Seq<char>, Seq<char>)>::empty());
    }
    let mut i: usize = 0;
    while i < ls.len()
        invariant
            i <= ls.len(),
            ls.len() < 0x8000_0000,
            base_line < 0x8000_0000,
            all == views(ls@),
            resource_block(attrs@, all, base_line as int) == resource_from(
                all,
                i as int,
                base_line as int,
                res@,
            ),
        decreases ls.len() - i,
    {
        let line = trimmed(&ls[i]);
        proof {
            assert(all[i as int] == ls@[i as int]@);
        }
        apply_resource_line(&line, base_line + i, &mut res)?;
        i += 1;
    }
    Ok(res)
}

} // verus!
