//! The `<template>` block: HTML elements, components, text, `{expr}`,
//! `{@html expr}` and the `{#if}`, `{#each}`, `{#match}` and `{#can}` blocks.
//!
//! Every reader takes the characters `s` and a position `p` and gives what it
//! read with the position after it; the spec functions below say the same of
//! character sequences.

use vstd::prelude::*;
use crate::text::{
    char_is_alnum, char_is_upper, char_is_ws, find_char, find_char_from, is_alnum, is_upper,
    is_ws, lemma_find_char, occurs_at, slice_of, string_from, trim, trim_bounds,
};
use crate::parser::ast::{
    Attribute, AttributeValue, BindingDecl, EventBinding, EventModifier, TemplateNode,
};
use crate::parser::error::{ErrModel, ParseError, ParseResult};
use crate::parser::lex::{starts_with_at, to_string, strip_prefix_all, unquote};
use crate::parser::tmodel::{AttrModel, AttrValueModel, EventModel, TNode, tnode, tnodes, tbranches};

verus! {

// ---------------------------------------------------------------------------
// Scanning
// ---------------------------------------------------------------------------

/// The characters a scan keeps going over.
#[derive(Clone, Copy)]
pub enum Class {
    Ws,
    Ident,
    Until(char),
    NameEnd,
    Bare,
    Text,
}

pub open spec fn in_class(k: Class, c: char) -> bool {
    match k {
        Class::Ws => is_ws(c),
        Class::Ident => is_alnum(c) || c == '_' || c == '-',
        Class::Until(t) => c != t,
        Class::NameEnd => !(c == '=' || is_ws(c) || c == '>' || c == '/'),
        Class::Bare => !(is_ws(c) || c == '>' || c == '/'),
        Class::Text => !(c == '<' || c == '{'),
    }
}

fn in_class_exec(k: Class, c: char) -> (r: bool)
    ensures
        r == in_class(k, c),
{
    match k {
        Class::Ws => char_is_ws(c),
        Class::Ident => char_is_alnum(c) || c == '_' || c == '-',
        Class::Until(t) => c != t,
        Class::NameEnd => !(c == '=' || char_is_ws(c) || c == '>' || c == '/'),
        Class::Bare => !(char_is_ws(c) || c == '>' || c == '/'),
        Class::Text => !(c == '<' || c == '{'),
    }
}

/// The first position at or after `p` whose character is not in `k`, or the
/// end of `s`.
pub open spec fn scan(s: Seq<char>, p: int, k: Class) -> int
    decreases s.len() - p,
{
    if p < 0 || p >= s.len() || !in_class(k, s[p]) {
        p
    } else {
        scan(s, p + 1, k)
    }
}

pub proof fn lemma_scan(s: Seq<char>, p: int, k: Class)
    requires
        0 <= p <= s.len(),
    ensures
        p <= scan(s, p, k) <= s.len(),
        forall|j: int| p <= j < scan(s, p, k) ==> in_class(k, #[trigger] s[j]),
        scan(s, p, k) < s.len() ==> !in_class(k, s[scan(s, p, k)]),
    decreases s.len() - p,
{
    if p < s.len() && in_class(k, s[p]) {
        lemma_scan(s, p + 1, k);
    }
}

pub fn scan_exec(s: &Vec<char>, p: usize, k: Class) -> (r: usize)
    requires
        p <= s.len(),
    ensures
        r == scan(s@, p as int, k),
        p <= r <= s.len(),
{
    let mut i = p;
    while i < s.len() && in_class_exec(k, s[i])
        invariant
            p <= i <= s.len(),
            scan(s@, p as int, k) == scan(s@, i as int, k),
        decreases s.len() - i,
    {
        i += 1;
    }
    i
}

/// `advance(n)`: `p + n`, but no further than the end.
pub open spec fn adv(s: Seq<char>, p: int, n: int) -> int {
    if p + n <= s.len() {
        p + n
    } else {
        s.len() as int
    }
}

/// Position of the `}` that closes a `{` opened before `p`, at depth `d`, or
/// -1.
pub open spec fn brace_close(s: Seq<char>, p: int, d: int) -> int
    decreases s.len() - p,
{
    if p < 0 || p >= s.len() {
        -1
    } else if s[p] == '{' {
        brace_close(s, p + 1, d + 1)
    } else if s[p] == '}' {
        if d <= 1 {
            p
        } else {
            brace_close(s, p + 1, d - 1)
        }
    } else {
        brace_close(s, p + 1, d)
    }
}

pub proof fn lemma_brace_close(s: Seq<char>, p: int, d: int)
    requires
        0 <= p,
    ensures
        brace_close(s, p, d) == -1 || (p <= brace_close(s, p, d) < s.len()),
    decreases s.len() - p,
{
    if p < s.len() {
        if s[p] == '{' {
            lemma_brace_close(s, p + 1, d + 1);
        } else if s[p] == '}' {
            if d > 1 {
                lemma_brace_close(s, p + 1, d - 1);
            }
        } else {
            lemma_brace_close(s, p + 1, d);
        }
    }
}

pub open spec fn unclosed_brace() -> ErrModel {
    ErrModel::UnexpectedToken("Unclosed `{` in template expression"@)
}

/// The text up to the `}` that closes a `{` just before `p`, and the position
/// after that `}`.
pub open spec fn brace_text(s: Seq<char>, p: int) -> Result<(Seq<char>, int), ErrModel> {
    let q = brace_close(s, p, 1);
    if q < 0 {
        Err(unclosed_brace())
    } else {
        Ok((s.subrange(p, q), q + 1))
    }
}

fn brace_text_exec(s: &Vec<char>, p: usize) -> (r: ParseResult<(Vec<char>, usize)>)
    requires
        p <= s.len(),
    ensures
        match r {
            Ok((t, q)) => brace_text(s@, p as int) == Ok::<(Seq<char>, int), ErrModel>(
                (t@, q as int),
            ) && p < q <= s.len(),
            Err(e) => brace_text(s@, p as int) == Err::<(Seq<char>, int), ErrModel>(e@),
        },
{
    // Depth of nesting beyond the first brace.
    let mut extra: usize = 0;
    let mut i = p;
    while i < s.len()
        invariant
            p <= i <= s.len(),
            extra <= i - p,
            brace_close(s@, p as int, 1) == brace_close(s@, i as int, extra + 1),
        decreases s.len() - i,
    {
        if s[i] == '{' {
            extra += 1;
        } else if s[i] == '}' {
            if extra == 0 {
                let t = slice_of(s, p, i);
                return Ok((t, i + 1));
            }
            extra -= 1;
        }
        i += 1;
    }
    Err(ParseError::UnexpectedToken(string_from("Unclosed `{` in template expression")))
}

// ---------------------------------------------------------------------------
// Values after `=`
// ---------------------------------------------------------------------------

/// The value after `=` at `r` (quoted, or bare up to whitespace, `>` or `/`)
/// and the position after it; without `=` the empty text at `r`.
pub open spec fn eq_value(s: Seq<char>, r: int) -> (Seq<char>, int) {
    if occurs_at(s, r, "="@) {
        let v0 = scan(s, r + 1, Class::Ws);
        if occurs_at(s, v0, "\""@) || occurs_at(s, v0, "'"@) {
            let e = scan(s, v0 + 1, Class::Until(s[v0]));
            (s.subrange(v0 + 1, e), adv(s, e, 1))
        } else {
            let e = scan(s, v0, Class::Bare);
            (s.subrange(v0, e), e)
        }
    } else {
        (seq![], r)
    }
}

fn eq_value_exec(s: &Vec<char>, r: usize) -> (out: (Vec<char>, usize))
    requires
        r <= s.len(),
    ensures
        eq_value(s@, r as int) == (out.0@, out.1 as int),
        r <= out.1 <= s.len(),
{
    proof {
        reveal_strlit("=");
        reveal_strlit("\"");
        reveal_strlit("'");
    }
    if starts_with_at(s, r, "=") {
        let v0 = scan_exec(s, r + 1, Class::Ws);
        if starts_with_at(s, v0, "\"") || starts_with_at(s, v0, "'") {
            let q = s[v0];
            let e = scan_exec(s, v0 + 1, Class::Until(q));
            let v = slice_of(s, v0 + 1, e);
            let n = if e < s.len() {
                e + 1
            } else {
                s.len()
            };
            (v, n)
        } else {
            let e = scan_exec(s, v0, Class::Bare);
            (slice_of(s, v0, e), e)
        }
    } else {
        (Vec::new(), r)
    }
}

// ---------------------------------------------------------------------------
// Event and value bindings
// ---------------------------------------------------------------------------

/// `str::split('.')`.
pub open spec fn split_dots(s: Seq<char>) -> Seq<Seq<char>>
    decreases s.len(),
{
    let i = find_char(s, '.');
    if i < 0 {
        seq![s]
    } else {
        proof {
            lemma_find_char(s, '.');
        }
        seq![s.take(i)] + split_dots(s.skip(i + 1))
    }
}

/// The modifiers named by `parts[i..]`: `prevent`, `stop`, and `debounce` or
/// `throttle` followed by a part that reads as a `u32`.
pub open spec fn modifiers_from(parts: Seq<Seq<char>>, i: int) -> Seq<EventModifier>
    decreases parts.len() - i,
{
    if i < 0 || i >= parts.len() {
        seq![]
    } else if parts[i] == "prevent"@ {
        seq![EventModifier::Prevent] + modifiers_from(parts, i + 1)
    } else if parts[i] == "stop"@ {
        seq![EventModifier::Stop] + modifiers_from(parts, i + 1)
    } else if parts[i] == "debounce"@ && i + 1 < parts.len() && crate::text::parse_unsigned(
        parts[i + 1],
        0xffff_ffff,
    ) is Some {
        seq![
            EventModifier::Debounce(
                crate::text::parse_unsigned(parts[i + 1], 0xffff_ffff)->0 as u32,
            ),
        ] + modifiers_from(parts, i + 2)
    } else if parts[i] == "throttle"@ && i + 1 < parts.len() && crate::text::parse_unsigned(
        parts[i + 1],
        0xffff_ffff,
    ) is Some {
        seq![
            EventModifier::Throttle(
                crate::text::parse_unsigned(parts[i + 1], 0xffff_ffff)->0 as u32,
            ),
        ] + modifiers_from(parts, i + 2)
    } else {
        modifiers_from(parts, i + 1)
    }
}

/// `on:event.mod1.mod2="handler"` at `p`, and the position after it.
pub open spec fn event_binding(s: Seq<char>, p: int) -> (EventModel, int) {
    let q = p + 3;
    let ne = scan(s, q, Class::NameEnd);
    let parts = split_dots(s.subrange(q, ne));
    let (h, e) = eq_value(s, ne);
    (EventModel { event: parts[0], handler: h, modifiers: modifiers_from(parts, 1) }, e)
}

/// `bind:kind="target"` at `p`, and the position after it.
pub open spec fn binding_decl(s: Seq<char>, p: int) -> ((Seq<char>, Seq<char>), int) {
    let q = p + 5;
    let ne = scan(s, q, Class::NameEnd);
    let (t, e) = eq_value(s, ne);
    ((s.subrange(q, ne), t), e)
}

fn split_dots_exec(s: &Vec<char>) -> (r: Vec<Vec<char>>)
    ensures
        crate::parser::lex::views(r@) == split_dots(s@),
{
    let mut out: Vec<Vec<char>> = Vec::new();
    let mut pos: usize = 0;
    proof {
        assert(s@.skip(0) =~= s@);
    }
    loop
        invariant
            pos <= s.len(),
            crate::parser::lex::views(out@) + split_dots(s@.skip(pos as int)) == split_dots(s@),
        decreases s.len() - pos,
    {
        let ghost t = s@.skip(pos as int);
        let ghost before = crate::parser::lex::views(out@);
        match find_char_from(s, '.', pos) {
            None => {
                let piece = slice_of(s, pos, s.len());
                out.push(piece);
                proof {
                    assert(t =~= s@.subrange(pos as int, s.len() as int));
                    assert(crate::parser::lex::views(out@) =~= before.push(t));
                    assert(crate::parser::lex::views(out@) =~= before + split_dots(t));
                }
                return out;
            },
            Some(k) => {
                let piece = slice_of(s, pos, k);
                out.push(piece);
                proof {
                    let i = k - pos;
                    assert(t.take(i) =~= s@.subrange(pos as int, k as int));
                    assert(t.skip(i + 1) =~= s@.skip(k + 1));
                    assert(crate::parser::lex::views(out@) =~= before.push(t.take(i)));
                    assert(crate::parser::lex::views(out@) + split_dots(s@.skip(k + 1)) =~= before
                        + split_dots(t));
                }
                pos = k + 1;
            },
        }
    }
}

fn modifiers_exec(parts: &Vec<Vec<char>>) -> (r: Vec<EventModifier>)
    ensures
        r@ == modifiers_from(crate::parser::lex::views(parts@), 1),
{
    let ghost ps = crate::parser::lex::views(parts@);
    let mut out: Vec<EventModifier> = Vec::new();
    let mut i: usize = 1;
    while i < parts.len()
        invariant
            1 <= i,
            ps == crate::parser::lex::views(parts@),
            modifiers_from(ps, 1) == out@ + modifiers_from(ps, i as int),
        decreases parts.len() - i,
    {
        let ghost before = out@;
        proof {
            assert(ps[i as int] == parts@[i as int]@);
            if i + 1 < parts.len() {
                assert(ps[i + 1] == parts@[i + 1]@);
            }
        }
        let part = &parts[i];
        if crate::text::eq_lit(part, "prevent") {
            out.push(EventModifier::Prevent);
            proof {
                assert(out@ + modifiers_from(ps, i + 1) =~= before + modifiers_from(ps, i as int));
            }
            i += 1;
        } else if crate::text::eq_lit(part, "stop") {
            out.push(EventModifier::Stop);
            proof {
                assert(out@ + modifiers_from(ps, i + 1) =~= before + modifiers_from(ps, i as int));
            }
            i += 1;
        } else if crate::text::eq_lit(part, "debounce") || crate::text::eq_lit(part, "throttle") {
            let deb = crate::text::eq_lit(part, "debounce");
            let v = if i + 1 < parts.len() {
                crate::text::parse_unsigned_exec(&parts[i + 1], 0, parts[i + 1].len(), 0xffff_ffff)
            } else {
                None
            };
            proof {
                if i + 1 < parts.len() {
                    assert(parts@[i + 1]@.subrange(0, parts@[i + 1]@.len() as int) =~= parts@[i
                        + 1]@);
                }
            }
            match v {
                Some(ms) => {
                    let m: u32 = ms as u32;
                    if deb {
                        out.push(EventModifier::Debounce(m));
                    } else {
                        out.push(EventModifier::Throttle(m));
                    }
                    proof {
                        assert(out@ + modifiers_from(ps, i + 2) =~= before + modifiers_from(
                            ps,
                            i as int,
                        ));
                    }
                    i += 2;
                },
                None => {
                    i += 1;
                },
            }
        } else {
            i += 1;
        }
    }
    proof {
        assert(out@ + modifiers_from(ps, i as int) =~= out@);
    }
    out
}

fn event_binding_exec(s: &Vec<char>, p: usize) -> (r: (EventBinding, usize))
    requires
        p + 3 <= s.len(),
    ensures
        event_binding(s@, p as int) == (r.0@, r.1 as int),
        p + 3 <= r.1 <= s.len(),
{
    let q = p + 3;
    let ne = scan_exec(s, q, Class::NameEnd);
    let nm = slice_of(s, q, ne);
    let parts = split_dots_exec(&nm);
    let (h, e) = eq_value_exec(s, ne);
    let modifiers = modifiers_exec(&parts);
    proof {
        assert(crate::parser::lex::views(parts@).len() >= 1);
        assert(crate::parser::lex::views(parts@)[0] == parts@[0]@);
    }
    let event = to_string(&parts[0]);
    (EventBinding { event, handler: to_string(&h), modifiers }, e)
}

fn binding_decl_exec(s: &Vec<char>, p: usize) -> (r: (BindingDecl, usize))
    requires
        p + 5 <= s.len(),
    ensures
        binding_decl(s@, p as int) == (r.0@, r.1 as int),
        p + 5 <= r.1 <= s.len(),
{
    let q = p + 5;
    let ne = scan_exec(s, q, Class::NameEnd);
    let kind = slice_of(s, q, ne);
    let (t, e) = eq_value_exec(s, ne);
    (BindingDecl { kind: to_string(&kind), target: to_string(&t) }, e)
}


// ---------------------------------------------------------------------------
// Attributes and opening tags
// ---------------------------------------------------------------------------

/// An attribute at `p` (`name`, `name="v"`, `name='v'`, `name={expr}` or
/// `name=v`) and the position after it; `None` where none starts.
pub open spec fn attribute(s: Seq<char>, p: int) -> Result<Option<(AttrModel, int)>, ErrModel> {
    if p < 0 || p >= s.len() || s[p] == '>' || occurs_at(s, p, "/>"@) {
        Ok(None)
    } else if !(is_alnum(s[p]) || s[p] == '_' || s[p] == '#') {
        Ok(None)
    } else {
        let ne = scan(s, p, Class::Ident);
        if ne == p {
            Ok(None)
        } else {
            let name = s.subrange(p, ne);
            let w = scan(s, ne, Class::Ws);
            if occurs_at(s, w, "="@) {
                let v0 = scan(s, w + 1, Class::Ws);
                if occurs_at(s, v0, "{"@) {
                    match brace_text(s, v0 + 1) {
                        Err(e) => Err(e),
                        Ok((x, q)) => Ok(
                            Some((AttrModel { name, value: AttrValueModel::Dynamic(trim(x)) }, q)),
                        ),
                    }
                } else if occurs_at(s, v0, "\""@) {
                    let e = scan(s, v0 + 1, Class::Until('"'));
                    let val = s.subrange(v0 + 1, e);
                    let value = if val.contains('{') {
                        AttrValueModel::Dynamic(val)
                    } else {
                        AttrValueModel::Static(val)
                    };
                    Ok(Some((AttrModel { name, value }, adv(s, e, 1))))
                } else if occurs_at(s, v0, "'"@) {
                    let e = scan(s, v0 + 1, Class::Until('\''));
                    Ok(
                        Some(
                            (
                                AttrModel {
                                    name,
                                    value: AttrValueModel::Static(s.subrange(v0 + 1, e)),
                                },
                                adv(s, e, 1),
                            ),
                        ),
                    )
                } else {
                    let e = scan(s, v0, Class::Bare);
                    Ok(Some((AttrModel { name, value: AttrValueModel::Static(s.subrange(v0, e)) }, e)))
                }
            } else {
                Ok(Some((AttrModel { name, value: AttrValueModel::NoValue }, w)))
            }
        }
    }
}

fn contains_char(v: &Vec<char>, c: char) -> (r: bool)
    ensures
        r == v@.contains(c),
{
    let mut i: usize = 0;
    while i < v.len()
        invariant
            i <= v.len(),
            forall|j: int| 0 <= j < i ==> v@[j] != c,
        decreases v.len() - i,
    {
        if v[i] == c {
            proof {
                assert(v@[i as int] == c);
            }
            return true;
        }
        i += 1;
    }
    false
}

fn attribute_exec(s: &Vec<char>, p: usize) -> (r: ParseResult<Option<(Attribute, usize)>>)
    requires
        p <= s.len(),
    ensures
        match r {
            Ok(Some((a, q))) => attribute(s@, p as int) == Ok::<
                Option<(AttrModel, int)>,
                ErrModel,
            >(Some((a@, q as int))) && p < q <= s.len(),
            Ok(None) => attribute(s@, p as int) == Ok::<Option<(AttrModel, int)>, ErrModel>(None),
            Err(e) => attribute(s@, p as int) == Err::<Option<(AttrModel, int)>, ErrModel>(e@),
        },
{
    proof {
        reveal_strlit("=");
        reveal_strlit("\"");
        reveal_strlit("'");
        reveal_strlit("{");
        reveal_strlit("/>");
    }
    if p >= s.len() || s[p] == '>' || starts_with_at(s, p, "/>") {
        return Ok(None);
    }
    let c = s[p];
    if !(char_is_alnum(c) || c == '_' || c == '#') {
        return Ok(None);
    }
    let ne = scan_exec(s, p, Class::Ident);
    if ne == p {
        return Ok(None);
    }
    let name = crate::text::string_of(s, p, ne);
    let w = scan_exec(s, ne, Class::Ws);
    if starts_with_at(s, w, "=") {
        let v0 = scan_exec(s, w + 1, Class::Ws);
        if starts_with_at(s, v0, "{") {
            let (x, q) = brace_text_exec(s, v0 + 1)?;
            let t = crate::parser::lex::trimmed_string(&x);
            Ok(Some((Attribute { name, value: AttributeValue::Dynamic(t) }, q)))
        } else if starts_with_at(s, v0, "\"") {
            let e = scan_exec(s, v0 + 1, Class::Until('"'));
            let val = slice_of(s, v0 + 1, e);
            let n = if e < s.len() {
                e + 1
            } else {
                s.len()
            };
            let value = if contains_char(&val, '{') {
                AttributeValue::Dynamic(to_string(&val))
            } else {
                AttributeValue::Static(to_string(&val))
            };
            Ok(Some((Attribute { name, value }, n)))
        } else if starts_with_at(s, v0, "'") {
            let e = scan_exec(s, v0 + 1, Class::Until('\''));
            let val = slice_of(s, v0 + 1, e);
            let n = if e < s.len() {
                e + 1
            } else {
                s.len()
            };
            Ok(Some((Attribute { name, value: AttributeValue::Static(to_string(&val)) }, n)))
        } else {
            let e = scan_exec(s, v0, Class::Bare);
            let val = slice_of(s, v0, e);
            Ok(Some((Attribute { name, value: AttributeValue::Static(to_string(&val)) }, e)))
        }
    } else {
        Ok(Some((Attribute { name, value: AttributeValue::NoValue }, w)))
    }
}

/// What an opening tag holds after its name.
#[verifier::ext_equal]
pub struct TagModel {
    pub attributes: Seq<AttrModel>,
    pub events: Seq<EventModel>,
    pub bindings: Seq<(Seq<char>, Seq<char>)>,
    pub island: bool,
    pub self_closing: bool,
}

pub open spec fn empty_tag() -> TagModel {
    TagModel {
        attributes: seq![],
        events: seq![],
        bindings: seq![],
        island: false,
        self_closing: false,
    }
}

/// `island` at `q - 6` is a flag when followed by a space, `>`, `/`, a line
/// feed or a tab.
pub open spec fn island_follows(s: Seq<char>, q: int) -> bool {
    occurs_at(s, q, " "@) || occurs_at(s, q, ">"@) || occurs_at(s, q, "/"@) || occurs_at(
        s,
        q,
        "\n"@,
    ) || occurs_at(s, q, "\t"@)
}

/// The rest of an opening tag from `p` on, up to and including `>` or `/>`.
pub open spec fn open_tag(s: Seq<char>, p: int, t: TagModel) -> Result<(TagModel, int), ErrModel>
    decreases s.len() - p,
{
    if p < 0 || p > s.len() {
        Ok((t, p))
    } else {
        let p1 = scan(s, p, Class::Ws);
        proof {
            lemma_scan(s, p, Class::Ws);
            reveal_strlit("island");
        }
        if p1 >= s.len() {
            Ok((t, p1))
        } else if occurs_at(s, p1, "/>"@) {
            Ok((TagModel { self_closing: true, ..t }, p1 + 2))
        } else if occurs_at(s, p1, ">"@) {
            Ok((t, p1 + 1))
        } else if occurs_at(s, p1, "island"@) && island_follows(s, p1 + 6) {
            open_tag(s, p1 + 6, TagModel { island: true, ..t })
        } else if occurs_at(s, p1, "on:"@) {
            let (ev, q) = event_binding(s, p1);
            if p < q <= s.len() {
                open_tag(s, q, TagModel { events: t.events.push(ev), ..t })
            } else {
                Ok((t, q))
            }
        } else if occurs_at(s, p1, "bind:"@) {
            let (b, q) = binding_decl(s, p1);
            if p < q <= s.len() {
                open_tag(s, q, TagModel { bindings: t.bindings.push(b), ..t })
            } else {
                Ok((t, q))
            }
        } else {
            match attribute(s, p1) {
                Err(e) => Err(e),
                Ok(Some((a, q))) => if p < q <= s.len() {
                    open_tag(s, q, TagModel { attributes: t.attributes.push(a), ..t })
                } else {
                    Ok((t, q))
                },
                Ok(None) => open_tag(s, p1 + 1, t),
            }
        }
    }
}

/// The attributes, events and bindings an opening tag gathers.
pub struct TagParts {
    pub attributes: Vec<Attribute>,
    pub events: Vec<EventBinding>,
    pub bindings: Vec<BindingDecl>,
    pub island: bool,
    pub self_closing: bool,
}

impl View for TagParts {
    type V = TagModel;

    open spec fn view(&self) -> TagModel {
        TagModel {
            attributes: crate::parser::tmodel::attrs_view(self.attributes@),
            events: crate::parser::tmodel::events_view(self.events@),
            bindings: crate::parser::tmodel::bindings_view(self.bindings@),
            island: self.island,
            self_closing: self.self_closing,
        }
    }
}

#[verifier::rlimit(30)]
fn open_tag_exec(s: &Vec<char>, p: usize) -> (r: ParseResult<(TagParts, usize)>)
    requires
        p <= s.len(),
    ensures
        match r {
            Ok((t, q)) => open_tag(s@, p as int, empty_tag()) == Ok::<(TagModel, int), ErrModel>(
                (t@, q as int),
            ) && p <= q <= s.len(),
            Err(e) => open_tag(s@, p as int, empty_tag()) == Err::<(TagModel, int), ErrModel>(e@),
        },
{
    let mut t = TagParts {
        attributes: Vec::new(),
        events: Vec::new(),
        bindings: Vec::new(),
        island: false,
        self_closing: false,
    };
    let mut pos = p;
    proof {
        assert(t@ =~= empty_tag());
    }
    loop
        invariant
            p <= pos <= s.len(),
            open_tag(s@, p as int, empty_tag()) == open_tag(s@, pos as int, t@),
        decreases s.len() - pos,
    {
        proof {
            reveal_strlit("/>");
            reveal_strlit(">");
            reveal_strlit("island");
            reveal_strlit(" ");
            reveal_strlit("/");
            reveal_strlit("\n");
            reveal_strlit("\t");
            reveal_strlit("on:");
            reveal_strlit("bind:");
        }
        let ghost before = t@;
        let p1 = scan_exec(s, pos, Class::Ws);
        if p1 >= s.len() {
            return Ok((t, p1));
        }
        if starts_with_at(s, p1, "/>") {
            t.self_closing = true;
            return Ok((t, p1 + 2));
        }
        if starts_with_at(s, p1, ">") {
            return Ok((t, p1 + 1));
        }
        if starts_with_at(s, p1, "island") && (starts_with_at(s, p1 + 6, " ") || starts_with_at(
            s,
            p1 + 6,
            ">",
        ) || starts_with_at(s, p1 + 6, "/") || starts_with_at(s, p1 + 6, "\n") || starts_with_at(
            s,
            p1 + 6,
            "\t",
        )) {
            t.island = true;
            pos = p1 + 6;
        } else if starts_with_at(s, p1, "on:") {
            let (ev, q) = event_binding_exec(s, p1);
            let ghost evv = ev@;
            t.events.push(ev);
            proof {
                assert(t@ =~= TagModel { events: before.events.push(evv), ..before });
            }
            pos = q;
        } else if starts_with_at(s, p1, "bind:") {
            let (b, q) = binding_decl_exec(s, p1);
            let ghost bv = b@;
            t.bindings.push(b);
            proof {
                assert(t@ =~= TagModel { bindings: before.bindings.push(bv), ..before });
            }
            pos = q;
        } else {
            match attribute_exec(s, p1)? {
                Some((a, q)) => {
                    let ghost av = a@;
                    t.attributes.push(a);
                    proof {
                        assert(t@ =~= TagModel { attributes: before.attributes.push(av), ..before });
                    }
                    pos = q;
                },
                None => {
                    pos = p1 + 1;
                },
            }
        }
    }
}

/// The value text of an attribute (empty without a value).
pub open spec fn value_text(v: AttrValueModel) -> Seq<char> {
    match v {
        AttrValueModel::Static(x) => x,
        AttrValueModel::Dynamic(x) => x,
        AttrValueModel::NoValue => seq![],
    }
}

/// The rest of a `<slot` opening tag from `p` on: its `name` attribute, whether
/// it closes itself, and the position after it.
pub open spec fn slot_tag(s: Seq<char>, p: int, name: Option<Seq<char>>) -> Result<
    (Option<Seq<char>>, bool, int),
    ErrModel,
>
    decreases s.len() - p,
{
    if p < 0 || p > s.len() {
        Ok((name, false, p))
    } else {
        let p1 = scan(s, p, Class::Ws);
        proof {
            lemma_scan(s, p, Class::Ws);
            reveal_strlit("island");
        }
        if p1 >= s.len() {
            Ok((name, false, p1))
        } else if occurs_at(s, p1, "/>"@) {
            Ok((name, true, p1 + 2))
        } else if occurs_at(s, p1, ">"@) {
            Ok((name, false, p1 + 1))
        } else {
            match attribute(s, p1) {
                Err(e) => Err(e),
                Ok(Some((a, q))) => if p < q <= s.len() {
                    slot_tag(
                        s,
                        q,
                        if a.name == "name"@ {
                            Some(value_text(a.value))
                        } else {
                            name
                        },
                    )
                } else {
                    Ok((name, false, q))
                },
                Ok(None) => slot_tag(s, p1 + 1, name),
            }
        }
    }
}

fn slot_tag_exec(s: &Vec<char>, p: usize) -> (r: ParseResult<(Option<String>, bool, usize)>)
    requires
        p <= s.len(),
    ensures
        match r {
            Ok((n, c, q)) => slot_tag(s@, p as int, None) == Ok::<
                (Option<Seq<char>>, bool, int),
                ErrModel,
            >((crate::parser::model::opt_view(n), c, q as int)) && p <= q <= s.len(),
            Err(e) => slot_tag(s@, p as int, None) == Err::<(Option<Seq<char>>, bool, int), ErrModel>(
                e@,
            ),
        },
{
    let mut name: Option<String> = None;
    let mut pos = p;
    loop
        invariant
            p <= pos <= s.len(),
            slot_tag(s@, p as int, None) == slot_tag(
                s@,
                pos as int,
                crate::parser::model::opt_view(name),
            ),
        decreases s.len() - pos,
    {
        proof {
            reveal_strlit("/>");
            reveal_strlit(">");
        }
        let p1 = scan_exec(s, pos, Class::Ws);
        if p1 >= s.len() {
            return Ok((name, false, p1));
        }
        if starts_with_at(s, p1, "/>") {
            return Ok((name, true, p1 + 2));
        }
        if starts_with_at(s, p1, ">") {
            return Ok((name, false, p1 + 1));
        }
        match attribute_exec(s, p1)? {
            Some((a, q)) => {
                let k = string_from("name");
                if crate::text::string_eq(&a.name, &k) {
                    let v = match a.value {
                        AttributeValue::Static(x) => x,
                        AttributeValue::Dynamic(x) => x,
                        AttributeValue::NoValue => String::new(),
                    };
                    name = Some(v);
                }
                pos = q;
            },
            None => {
                pos = p1 + 1;
            },
        }
    }
}

/// The rest of an `<error-boundary` opening tag from `p` on: everything up to
/// and including `>`.
pub open spec fn boundary_tag(s: Seq<char>, p: int) -> int
    decreases s.len() - p,
{
    if p < 0 || p > s.len() {
        p
    } else {
        let p1 = scan(s, p, Class::Ws);
        proof {
            lemma_scan(s, p, Class::Ws);
            reveal_strlit("island");
        }
        if p1 >= s.len() {
            p1
        } else if occurs_at(s, p1, ">"@) {
            p1 + 1
        } else {
            boundary_tag(s, p1 + 1)
        }
    }
}

fn boundary_tag_exec(s: &Vec<char>, p: usize) -> (r: usize)
    requires
        p <= s.len(),
    ensures
        r == boundary_tag(s@, p as int),
        p <= r <= s.len(),
{
    let mut pos = p;
    loop
        invariant
            p <= pos <= s.len(),
            boundary_tag(s@, p as int) == boundary_tag(s@, pos as int),
        decreases s.len() - pos,
    {
        proof {
            reveal_strlit(">");
        }
        let p1 = scan_exec(s, pos, Class::Ws);
        if p1 >= s.len() {
            return p1;
        }
        if starts_with_at(s, p1, ">") {
            return p1 + 1;
        }
        pos = p1 + 1;
    }
}


// ---------------------------------------------------------------------------
// Nodes
// ---------------------------------------------------------------------------

/// The markers that end a run of children.
#[derive(Clone, Copy)]
pub enum Stops {
    NoStops,
    IfBranch,
    IfEnd,
    EachEnd,
    MatchArm,
    CanEnd,
}

/// After the whitespace at `p`, one of the markers of `k` begins.
pub open spec fn at_stop(s: Seq<char>, p: int, k: Stops) -> bool {
    let q = scan(s, p, Class::Ws);
    match k {
        Stops::NoStops => false,
        Stops::IfBranch => occurs_at(s, q, "{:else if"@) || occurs_at(s, q, "{:else}"@) || occurs_at(
            s,
            q,
            "{/if}"@,
        ),
        Stops::IfEnd => occurs_at(s, q, "{/if}"@),
        Stops::EachEnd => occurs_at(s, q, "{/each}"@),
        Stops::MatchArm => occurs_at(s, q, "{:when"@) || occurs_at(s, q, "{/match}"@),
        Stops::CanEnd => occurs_at(s, q, "{/can}"@),
    }
}

fn at_stop_exec(s: &Vec<char>, p: usize, k: Stops) -> (r: bool)
    requires
        p <= s.len(),
    ensures
        r == at_stop(s@, p as int, k),
{
    let q = scan_exec(s, p, Class::Ws);
    match k {
        Stops::NoStops => false,
        Stops::IfBranch => starts_with_at(s, q, "{:else if") || starts_with_at(s, q, "{:else}")
            || starts_with_at(s, q, "{/if}"),
        Stops::IfEnd => starts_with_at(s, q, "{/if}"),
        Stops::EachEnd => starts_with_at(s, q, "{/each}"),
        Stops::MatchArm => starts_with_at(s, q, "{:when") || starts_with_at(s, q, "{/match}"),
        Stops::CanEnd => starts_with_at(s, q, "{/can}"),
    }
}

/// The error for a closing tag or block marker that nothing opened.
pub open spec fn stray() -> ErrModel {
    ErrModel::UnexpectedToken("closing tag or block marker without an opening one"@)
}

fn stray_exec() -> (e: ParseError)
    ensures
        e@ == stray(),
{
    ParseError::UnexpectedToken(string_from("closing tag or block marker without an opening one"))
}

/// The HTML void elements, which have no children.
pub open spec fn is_void(tag: Seq<char>) -> bool {
    tag == "area"@ || tag == "base"@ || tag == "br"@ || tag == "col"@ || tag == "embed"@ || tag
        == "hr"@ || tag == "img"@ || tag == "input"@ || tag == "link"@ || tag == "meta"@ || tag
        == "param"@ || tag == "source"@ || tag == "track"@ || tag == "wbr"@
}

/// `is_void` of `tag`.
pub fn is_void_element(tag: &Vec<char>) -> (r: bool)
    ensures
        r == is_void(tag@),
{
    crate::text::eq_lit(tag, "area") || crate::text::eq_lit(tag, "base") || crate::text::eq_lit(
        tag,
        "br",
    ) || crate::text::eq_lit(tag, "col") || crate::text::eq_lit(tag, "embed")
        || crate::text::eq_lit(tag, "hr") || crate::text::eq_lit(tag, "img") || crate::text::eq_lit(
        tag,
        "input",
    ) || crate::text::eq_lit(tag, "link") || crate::text::eq_lit(tag, "meta")
        || crate::text::eq_lit(tag, "param") || crate::text::eq_lit(tag, "source")
        || crate::text::eq_lit(tag, "track") || crate::text::eq_lit(tag, "wbr")
}

/// `#each items as item[, index]`: iterable, item name and index name.
pub open spec fn each_parts(inner: Seq<char>) -> (Seq<char>, Seq<char>, Option<Seq<char>>) {
    let a = crate::text::find(inner, " as "@);
    if a >= 0 {
        let binding = trim(inner.skip(a + 4));
        let c = find_char(binding, ',');
        if c >= 0 {
            (trim(inner.take(a)), trim(binding.take(c)), Some(trim(binding.skip(c + 1))))
        } else {
            (trim(inner.take(a)), binding, None)
        }
    } else {
        (inner, "item"@, None)
    }
}

/// The element or component built from its tag, opening tag and children.
pub open spec fn tag_node(tag: Seq<char>, t: TagModel, children: Seq<TNode>) -> TNode {
    if tag.len() > 0 && is_upper(tag[0]) {
        TNode::Component {
            name: tag,
            props: t.attributes,
            events: t.events,
            bindings: t.bindings,
            children,
            is_island: t.island,
        }
    } else {
        TNode::Element {
            tag,
            attributes: t.attributes,
            events: t.events,
            bindings: t.bindings,
            children,
            self_closing: t.self_closing,
        }
    }
}

/// Position after the whitespace at `p` and, when it follows, `close`.
pub open spec fn skip_close(s: Seq<char>, p: int, close: Seq<char>) -> int {
    let w = scan(s, p, Class::Ws);
    if occurs_at(s, w, close) {
        w + close.len()
    } else {
        w
    }
}

/// `{expr}` at `p`.
pub open spec fn expression(s: Seq<char>, p: int) -> Result<(TNode, int), ErrModel> {
    match brace_text(s, p + 1) {
        Err(e) => Err(e),
        Ok((x, q)) => Ok((TNode::Expression(trim(x)), q)),
    }
}

/// `{@html expr}` at `p`.
pub open spec fn unsafe_html(s: Seq<char>, p: int) -> Result<(TNode, int), ErrModel> {
    match brace_text(s, p + 1) {
        Err(e) => Err(e),
        Ok((x, q)) => Ok((TNode::UnsafeHtml(trim(strip_prefix_all(x, "@html"@))), q)),
    }
}

/// A node read by `r`, as an optional node.
pub open spec fn some_node(r: Result<(TNode, int), ErrModel>) -> Result<(Option<TNode>, int), ErrModel> {
    match r {
        Err(e) => Err(e),
        Ok((n, q)) => Ok((Some(n), q)),
    }
}

/// `{:else`, `{/if`, `{/each`, `{/match` or `{/can` follows the `{` before
/// `q`.
pub open spec fn block_marker(s: Seq<char>, q: int) -> bool {
    occurs_at(s, q, ":else"@) || occurs_at(s, q, "/if"@) || occurs_at(s, q, "/each"@) || occurs_at(
        s,
        q,
        "/match"@,
    ) || occurs_at(s, q, "/can"@)
}

/// The children from `p` on, added to `acc`, up to a marker of `k` (with the
/// whitespace before it) or the end.
pub open spec fn children(s: Seq<char>, p: int, k: Stops, acc: Seq<TNode>) -> Result<
    (Seq<TNode>, int),
    ErrModel,
>
    decreases s.len() - p, 2int,
{
    if p < 0 || p > s.len() {
        Err(stray())
    } else if p == s.len() {
        Ok((acc, p))
    } else if at_stop(s, p, k) {
        Ok((acc, scan(s, p, Class::Ws)))
    } else {
        match node(s, p, k) {
            Err(e) => Err(e),
            Ok((n, q)) => if p < q <= s.len() {
                children(
                    s,
                    q,
                    k,
                    match n {
                        Some(x) => acc.push(x),
                        None => acc,
                    },
                )
            } else {
                Err(stray())
            },
        }
    }
}

/// The children of an element from `p` on, added to `acc`, up to a closing
/// tag (with the whitespace before it) or the end; a step that reads nothing
/// passes one character over.
pub open spec fn until_close(s: Seq<char>, p: int, acc: Seq<TNode>) -> Result<(Seq<TNode>, int), ErrModel>
    decreases s.len() - p, 2int,
{
    if p < 0 || p > s.len() {
        Err(stray())
    } else if p == s.len() {
        Ok((acc, p))
    } else if occurs_at(s, scan(s, p, Class::Ws), "</"@) {
        Ok((acc, scan(s, p, Class::Ws)))
    } else {
        match node(s, p, Stops::NoStops) {
            Err(e) => Err(e),
            Ok((n, q)) => {
                let acc2 = match n {
                    Some(x) => acc.push(x),
                    None => acc,
                };
                if p < q <= s.len() {
                    until_close(s, q, acc2)
                } else {
                    until_close(s, p + 1, acc2)
                }
            },
        }
    }
}

/// One node at `p` (`None` for a comment, blank text, or a marker that ends
/// the children being read) and the position after it.
pub open spec fn node(s: Seq<char>, p: int, k: Stops) -> Result<(Option<TNode>, int), ErrModel>
    decreases s.len() - p, 1int,
{
    if p < 0 || p >= s.len() {
        Ok((None, p))
    } else if at_stop(s, p, k) {
        Ok((None, p))
    } else if s[p] == '{' {
        if occurs_at(s, p + 1, "#if "@) || occurs_at(s, p + 1, "#if\t"@) {
            some_node(if_block(s, p))
        } else if occurs_at(s, p + 1, "#each "@) || occurs_at(s, p + 1, "#each\t"@) {
            some_node(each_block(s, p))
        } else if occurs_at(s, p + 1, "#match "@) || occurs_at(s, p + 1, "#match\t"@) {
            some_node(match_block(s, p))
        } else if occurs_at(s, p + 1, "#can "@) || occurs_at(s, p + 1, "#can\t"@) {
            some_node(can_block(s, p))
        } else if occurs_at(s, p + 1, "@html "@) || occurs_at(s, p + 1, "@html\t"@) {
            some_node(unsafe_html(s, p))
        } else if block_marker(s, p + 1) {
            Ok((None, p))
        } else {
            some_node(expression(s, p))
        }
    } else if occurs_at(s, p, "<!--"@) && crate::text::find_from(s, "-->"@, p) >= 0 {
        Ok((None, crate::text::find_from(s, "-->"@, p) + 3))
    } else if s[p] == '<' {
        if occurs_at(s, p, "</"@) {
            Ok((None, p))
        } else {
            some_node(element(s, p))
        }
    } else {
        let e = scan(s, p, Class::Text);
        let t = trim(s.subrange(p, e));
        if t.len() == 0 {
            Ok((None, e))
        } else {
            Ok((Some(TNode::Text(t)), e))
        }
    }
}

/// `{#if cond}...{:else if c}...{:else}...{/if}` at `p`.
pub open spec fn if_block(s: Seq<char>, p: int) -> Result<(TNode, int), ErrModel>
    decreases s.len() - p, 0int,
{
    match brace_text(s, p + 1) {
        Err(e) => Err(e),
        Ok((tag, q)) => if !(p < q <= s.len()) {
            Err(stray())
        } else {
            match children(s, q, Stops::IfBranch, seq![]) {
                Err(e) => Err(e),
                Ok((th, q2)) => if !(p < q2 <= s.len()) {
                    Err(stray())
                } else {
                    match else_ifs(s, q2, seq![]) {
                        Err(e) => Err(e),
                        Ok((eis, q3)) => if !(p < q3 <= s.len()) {
                            Err(stray())
                        } else {
                            match else_part(s, q3) {
                                Err(e) => Err(e),
                                Ok((eb, q4)) => Ok(
                                    (
                                        TNode::If {
                                            condition: trim(strip_prefix_all(tag, "#if"@)),
                                            then_branch: th,
                                            else_ifs: eis,
                                            else_branch: eb,
                                        },
                                        skip_close(s, q4, "{/if}"@),
                                    ),
                                ),
                            }
                        },
                    }
                },
            }
        },
    }
}

/// The `{:else if c}` branches from `q` on, added to `acc`.
pub open spec fn else_ifs(s: Seq<char>, q: int, acc: Seq<(Seq<char>, Seq<TNode>)>) -> Result<
    (Seq<(Seq<char>, Seq<TNode>)>, int),
    ErrModel,
>
    decreases s.len() - q, 0int,
{
    if q < 0 || q > s.len() {
        Err(stray())
    } else {
        let w = scan(s, q, Class::Ws);
        if occurs_at(s, w, "{:else if"@) {
            match brace_text(s, w + 1) {
                Err(e) => Err(e),
                Ok((tag, q1)) => if !(q < q1 <= s.len()) {
                    Err(stray())
                } else {
                    match children(s, q1, Stops::IfBranch, seq![]) {
                        Err(e) => Err(e),
                        Ok((br, q2)) => {
                            let acc2 = acc.push((trim(strip_prefix_all(tag, ":else if"@)), br));
                            if q < q2 <= s.len() {
                                else_ifs(s, q2, acc2)
                            } else {
                                Err(stray())
                            }
                        },
                    }
                },
            }
        } else {
            Ok((acc, q))
        }
    }
}

/// The `{:else}` branch at `q`, if there is one.
pub open spec fn else_part(s: Seq<char>, q: int) -> Result<(Option<Seq<TNode>>, int), ErrModel>
    decreases s.len() - q, 0int,
{
    if q < 0 || q > s.len() {
        Err(stray())
    } else {
        let w = scan(s, q, Class::Ws);
        if occurs_at(s, w, "{:else}"@) {
            match brace_text(s, w + 1) {
                Err(e) => Err(e),
                Ok((_, q1)) => if !(q < q1 <= s.len()) {
                    Err(stray())
                } else {
                    match children(s, q1, Stops::IfEnd, seq![]) {
                        Err(e) => Err(e),
                        Ok((br, q2)) => Ok((Some(br), q2)),
                    }
                },
            }
        } else {
            Ok((None, q))
        }
    }
}

/// `{#each items as item, index}...{/each}` at `p`.
pub open spec fn each_block(s: Seq<char>, p: int) -> Result<(TNode, int), ErrModel>
    decreases s.len() - p, 0int,
{
    match brace_text(s, p + 1) {
        Err(e) => Err(e),
        Ok((tag, q)) => if !(p < q <= s.len()) {
            Err(stray())
        } else {
            let (it, item, index) = each_parts(trim(strip_prefix_all(tag, "#each"@)));
            match children(s, q, Stops::EachEnd, seq![]) {
                Err(e) => Err(e),
                Ok((ch, q2)) => Ok(
                    (
                        TNode::Each { iterable: it, item, index, children: ch },
                        skip_close(s, q2, "{/each}"@),
                    ),
                ),
            }
        },
    }
}

/// `{#match expr}{:when p}...{/match}` at `p`.
pub open spec fn match_block(s: Seq<char>, p: int) -> Result<(TNode, int), ErrModel>
    decreases s.len() - p, 0int,
{
    match brace_text(s, p + 1) {
        Err(e) => Err(e),
        Ok((tag, q)) => if !(p < q <= s.len()) {
            Err(stray())
        } else {
            match arms(s, q, seq![]) {
                Err(e) => Err(e),
                Ok((a, q2)) => Ok(
                    (TNode::Match { expr: trim(strip_prefix_all(tag, "#match"@)), arms: a }, q2),
                ),
            }
        },
    }
}

/// The `{:when p}` arms from `q` on, added to `acc`, up to `{/match}` or the
/// end; anything else between arms is passed over.
pub open spec fn arms(s: Seq<char>, q: int, acc: Seq<(Seq<char>, Seq<TNode>)>) -> Result<
    (Seq<(Seq<char>, Seq<TNode>)>, int),
    ErrModel,
>
    decreases s.len() - q, 0int,
{
    if q < 0 || q > s.len() {
        Err(stray())
    } else {
        let w = scan(s, q, Class::Ws);
        if occurs_at(s, w, "{/match}"@) {
            Ok((acc, w + 8))
        } else if occurs_at(s, w, "{:when"@) {
            match brace_text(s, w + 1) {
                Err(e) => Err(e),
                Ok((tag, q1)) => if !(q < q1 <= s.len()) {
                    Err(stray())
                } else {
                    match children(s, q1, Stops::MatchArm, seq![]) {
                        Err(e) => Err(e),
                        Ok((ch, q2)) => {
                            let acc2 = acc.push((trim(strip_prefix_all(tag, ":when"@)), ch));
                            if q < q2 <= s.len() {
                                arms(s, q2, acc2)
                            } else {
                                Err(stray())
                            }
                        },
                    }
                },
            }
        } else if w >= s.len() {
            Ok((acc, w))
        } else if q < w + 1 <= s.len() {
            arms(s, w + 1, acc)
        } else {
            Err(stray())
        }
    }
}

/// `{#can "permission"}...{/can}` at `p`.
pub open spec fn can_block(s: Seq<char>, p: int) -> Result<(TNode, int), ErrModel>
    decreases s.len() - p, 0int,
{
    match brace_text(s, p + 1) {
        Err(e) => Err(e),
        Ok((tag, q)) => if !(p < q <= s.len()) {
            Err(stray())
        } else {
            match children(s, q, Stops::CanEnd, seq![]) {
                Err(e) => Err(e),
                Ok((ch, q2)) => Ok(
                    (
                        TNode::Can {
                            permission: unquote(trim(strip_prefix_all(tag, "#can"@))),
                            children: ch,
                        },
                        skip_close(s, q2, "{/can}"@),
                    ),
                ),
            }
        },
    }
}

/// An element or component at `p` (`<` then the tag name).
pub open spec fn element(s: Seq<char>, p: int) -> Result<(TNode, int), ErrModel>
    decreases s.len() - p, 0int,
{
    if p < 0 || p >= s.len() {
        Err(stray())
    } else {
        let ne = scan(s, p + 1, Class::Ident);
        let tag = s.subrange(p + 1, ne);
        if tag == "slot"@ {
            match slot_tag(s, ne, None) {
                Err(e) => Err(e),
                Ok((name, closed, q)) => if closed {
                    Ok((TNode::Slot { name, fallback: seq![] }, q))
                } else if p < q <= s.len() {
                    match until_close(s, q, seq![]) {
                        Err(e) => Err(e),
                        Ok((fb, q2)) => Ok(
                            (TNode::Slot { name, fallback: fb }, skip_close(s, q2, "</slot>"@)),
                        ),
                    }
                } else {
                    Err(stray())
                },
            }
        } else if tag == "error-boundary"@ {
            let q = boundary_tag(s, ne);
            if p < q <= s.len() {
                match until_close(s, q, seq![]) {
                    Err(e) => Err(e),
                    Ok((ch, q2)) => Ok(
                        (
                            TNode::ErrorBoundary { children: ch },
                            skip_close(s, q2, "</error-boundary>"@),
                        ),
                    ),
                }
            } else {
                Err(stray())
            }
        } else {
            match open_tag(s, ne, empty_tag()) {
                Err(e) => Err(e),
                Ok((t, q)) => if t.self_closing || (!(tag.len() > 0 && is_upper(tag[0])) && is_void(
                    tag,
                )) {
                    Ok((tag_node(tag, t, seq![]), q))
                } else if p < q <= s.len() {
                    match until_close(s, q, seq![]) {
                        Err(e) => Err(e),
                        Ok((ch, q2)) => Ok(
                            (tag_node(tag, t, ch), skip_close(s, q2, "</"@ + tag + ">"@)),
                        ),
                    }
                } else {
                    Err(stray())
                },
            }
        }
    }
}

/// The nodes of a `<template>` block's text.
pub open spec fn template_nodes(s: Seq<char>) -> Result<Seq<TNode>, ErrModel> {
    match children(s, 0, Stops::NoStops, seq![]) {
        Err(e) => Err(e),
        Ok((ns, _)) => Ok(ns),
    }
}


// ---------------------------------------------------------------------------
// Readers
// ---------------------------------------------------------------------------

pub open spec fn opt_tnode(n: Option<TemplateNode>) -> Option<TNode> {
    match n {
        Some(x) => Some(tnode(x)),
        None => None,
    }
}

pub proof fn lemma_tnodes_push(v: Seq<TemplateNode>, x: TemplateNode)
    ensures
        tnodes(v.push(x)) == tnodes(v).push(tnode(x)),
{
    assert(v.push(x).drop_last() =~= v);
}

pub proof fn lemma_tbranches_push(v: Seq<(String, Vec<TemplateNode>)>, x: (String, Vec<TemplateNode>))
    ensures
        tbranches(v.push(x)) == tbranches(v).push((x.0@, tnodes(x.1@))),
{
    assert(v.push(x).drop_last() =~= v);
}

/// `trim(strip_prefix_all(t, kw))`.
fn after_keyword(t: &Vec<char>, kw: &str) -> (r: String)
    ensures
        r@ == trim(strip_prefix_all(t@, kw@)),
{
    proof {
        assert(t@.subrange(0, t@.len() as int) =~= t@);
    }
    let a = crate::parser::lex::strip_prefix_all_from(t, 0, t.len(), kw);
    let (x, y) = trim_bounds(t, a, t.len());
    crate::text::string_of(t, x, y)
}

fn skip_close_exec(s: &Vec<char>, p: usize, close: &Vec<char>) -> (r: usize)
    requires
        p <= s.len(),
    ensures
        r == skip_close(s@, p as int, close@),
        p <= r <= s.len(),
{
    let w = scan_exec(s, p, Class::Ws);
    if crate::text::occurs_at_exec(s, w, close) {
        w + close.len()
    } else {
        w
    }
}

fn children_exec(s: &Vec<char>, p: usize, k: Stops) -> (r: ParseResult<(Vec<TemplateNode>, usize)>)
    requires
        p <= s.len(),
    ensures
        match r {
            Ok((v, q)) => children(s@, p as int, k, seq![]) == Ok::<(Seq<TNode>, int), ErrModel>(
                (tnodes(v@), q as int),
            ) && p <= q <= s.len(),
            Err(e) => children(s@, p as int, k, seq![]) == Err::<(Seq<TNode>, int), ErrModel>(e@),
        },
    decreases s.len() - p, 2int,
{
    let mut out: Vec<TemplateNode> = Vec::new();
    let mut pos = p;
    proof {
        assert(tnodes(out@) =~= Seq::<TNode>::empty());
    }
    loop
        invariant
            p <= pos <= s.len(),
            children(s@, p as int, k, seq![]) == children(s@, pos as int, k, tnodes(out@)),
        decreases s.len() - pos,
    {
        if pos == s.len() {
            return Ok((out, pos));
        }
        if at_stop_exec(s, pos, k) {
            let q = scan_exec(s, pos, Class::Ws);
            return Ok((out, q));
        }
        let (n, q) = node_exec(s, pos, k)?;
        if q == pos {
            return Err(stray_exec());
        }
        match n {
            Some(x) => {
                proof {
                    lemma_tnodes_push(out@, x);
                }
                out.push(x);
            },
            None => {},
        }
        pos = q;
    }
}

fn until_close_exec(s: &Vec<char>, p: usize) -> (r: ParseResult<(Vec<TemplateNode>, usize)>)
    requires
        p <= s.len(),
    ensures
        match r {
            Ok((v, q)) => until_close(s@, p as int, seq![]) == Ok::<(Seq<TNode>, int), ErrModel>(
                (tnodes(v@), q as int),
            ) && p <= q <= s.len(),
            Err(e) => until_close(s@, p as int, seq![]) == Err::<(Seq<TNode>, int), ErrModel>(e@),
        },
    decreases s.len() - p, 2int,
{
    let mut out: Vec<TemplateNode> = Vec::new();
    let mut pos = p;
    proof {
        assert(tnodes(out@) =~= Seq::<TNode>::empty());
    }
    loop
        invariant
            p <= pos <= s.len(),
            until_close(s@, p as int, seq![]) == until_close(s@, pos as int, tnodes(out@)),
        decreases s.len() - pos,
    {
        if pos == s.len() {
            return Ok((out, pos));
        }
        let w = scan_exec(s, pos, Class::Ws);
        if starts_with_at(s, w, "</") {
            return Ok((out, w));
        }
        let (n, q) = node_exec(s, pos, Stops::NoStops)?;
        match n {
            Some(x) => {
                proof {
                    lemma_tnodes_push(out@, x);
                }
                out.push(x);
            },
            None => {},
        }
        if q > pos {
            pos = q;
        } else {
            pos = pos + 1;
        }
    }
}

#[verifier::rlimit(40)]
fn node_exec(s: &Vec<char>, p: usize, k: Stops) -> (r: ParseResult<(Option<TemplateNode>, usize)>)
    requires
        p <= s.len(),
    ensures
        match r {
            Ok((n, q)) => node(s@, p as int, k) == Ok::<(Option<TNode>, int), ErrModel>(
                (opt_tnode(n), q as int),
            ) && p <= q <= s.len(),
            Err(e) => node(s@, p as int, k) == Err::<(Option<TNode>, int), ErrModel>(e@),
        },
    decreases s.len() - p, 1int,
{
    if p >= s.len() {
        return Ok((None, p));
    }
    if at_stop_exec(s, p, k) {
        return Ok((None, p));
    }
    if s[p] == '{' {
        if starts_with_at(s, p + 1, "#if ") || starts_with_at(s, p + 1, "#if\t") {
            let (n, q) = if_block_exec(s, p)?;
            return Ok((Some(n), q));
        }
        if starts_with_at(s, p + 1, "#each ") || starts_with_at(s, p + 1, "#each\t") {
            let (n, q) = each_block_exec(s, p)?;
            return Ok((Some(n), q));
        }
        if starts_with_at(s, p + 1, "#match ") || starts_with_at(s, p + 1, "#match\t") {
            let (n, q) = match_block_exec(s, p)?;
            return Ok((Some(n), q));
        }
        if starts_with_at(s, p + 1, "#can ") || starts_with_at(s, p + 1, "#can\t") {
            let (n, q) = can_block_exec(s, p)?;
            return Ok((Some(n), q));
        }
        if starts_with_at(s, p + 1, "@html ") || starts_with_at(s, p + 1, "@html\t") {
            let (x, q) = brace_text_exec(s, p + 1)?;
            let h = after_keyword(&x, "@html");
            return Ok((Some(TemplateNode::UnsafeHtml(h)), q));
        }
        if starts_with_at(s, p + 1, ":else") || starts_with_at(s, p + 1, "/if") || starts_with_at(
            s,
            p + 1,
            "/each",
        ) || starts_with_at(s, p + 1, "/match") || starts_with_at(s, p + 1, "/can") {
            return Ok((None, p));
        }
        let (x, q) = brace_text_exec(s, p + 1)?;
        let e = crate::parser::lex::trimmed_string(&x);
        return Ok((Some(TemplateNode::Expression(crate::parser::ast::ExprNode { expr: e, id: None })), q));
    }
    if starts_with_at(s, p, "<!--") {
        let pat = crate::text::chars_of("-->");
        match crate::text::find_from_exec(s, &pat, p) {
            Some(e) => {
                proof {
                    crate::text::lemma_find_from(s@, "-->"@, p as int);
                    reveal_strlit("-->");
                }
                return Ok((None, e + 3));
            },
            None => {},
        }
    }
    if s[p] == '<' {
        if starts_with_at(s, p, "</") {
            return Ok((None, p));
        }
        let (n, q) = element_exec(s, p)?;
        return Ok((Some(n), q));
    }
    let e = scan_exec(s, p, Class::Text);
    let t = slice_of(s, p, e);
    let tt = crate::parser::lex::trimmed(&t);
    if tt.len() == 0 {
        Ok((None, e))
    } else {
        Ok((Some(TemplateNode::Text(to_string(&tt))), e))
    }
}

fn if_block_exec(s: &Vec<char>, p: usize) -> (r: ParseResult<(TemplateNode, usize)>)
    requires
        p < s.len(),
    ensures
        match r {
            Ok((n, q)) => if_block(s@, p as int) == Ok::<(TNode, int), ErrModel>((tnode(n), q as int))
                && p < q <= s.len(),
            Err(e) => if_block(s@, p as int) == Err::<(TNode, int), ErrModel>(e@),
        },
    decreases s.len() - p, 0int,
{
    let (tag, q) = brace_text_exec(s, p + 1)?;
    let condition = after_keyword(&tag, "#if");
    let (then_branch, q2) = children_exec(s, q, Stops::IfBranch)?;
    let (else_if_branches, q3) = else_ifs_exec(s, q2)?;
    let (else_branch, q4) = else_part_exec(s, q3)?;
    let close = crate::text::chars_of("{/if}");
    let end = skip_close_exec(s, q4, &close);
    let n = TemplateNode::If(crate::parser::ast::IfNode { condition, then_branch, else_if_branches, else_branch });
    Ok((n, end))
}

fn else_ifs_exec(s: &Vec<char>, q0: usize) -> (r: ParseResult<(Vec<(String, Vec<TemplateNode>)>, usize)>)
    requires
        q0 <= s.len(),
    ensures
        match r {
            Ok((v, q)) => else_ifs(s@, q0 as int, seq![]) == Ok::<
                (Seq<(Seq<char>, Seq<TNode>)>, int),
                ErrModel,
            >((tbranches(v@), q as int)) && q0 <= q <= s.len(),
            Err(e) => else_ifs(s@, q0 as int, seq![]) == Err::<
                (Seq<(Seq<char>, Seq<TNode>)>, int),
                ErrModel,
            >(e@),
        },
    decreases s.len() - q0, 0int,
{
    let mut out: Vec<(String, Vec<TemplateNode>)> = Vec::new();
    let mut pos = q0;
    proof {
        assert(tbranches(out@) =~= Seq::<(Seq<char>, Seq<TNode>)>::empty());
    }
    loop
        invariant
            q0 <= pos <= s.len(),
            else_ifs(s@, q0 as int, seq![]) == else_ifs(s@, pos as int, tbranches(out@)),
        decreases s.len() - pos,
    {
        let w = scan_exec(s, pos, Class::Ws);
        if !starts_with_at(s, w, "{:else if") {
            return Ok((out, pos));
        }
        proof {
            reveal_strlit("{:else if");
        }
        let (tag, q1) = brace_text_exec(s, w + 1)?;
        let c = after_keyword(&tag, ":else if");
        let (br, q2) = children_exec(s, q1, Stops::IfBranch)?;
        let item = (c, br);
        proof {
            lemma_tbranches_push(out@, item);
        }
        out.push(item);
        pos = q2;
    }
}

fn else_part_exec(s: &Vec<char>, q0: usize) -> (r: ParseResult<(Option<Vec<TemplateNode>>, usize)>)
    requires
        q0 <= s.len(),
    ensures
        match r {
            Ok((v, q)) => else_part(s@, q0 as int) == Ok::<(Option<Seq<TNode>>, int), ErrModel>(
                (
                    match v {
                        Some(b) => Some(tnodes(b@)),
                        None => None,
                    },
                    q as int,
                ),
            ) && q0 <= q <= s.len(),
            Err(e) => else_part(s@, q0 as int) == Err::<(Option<Seq<TNode>>, int), ErrModel>(e@),
        },
    decreases s.len() - q0, 0int,
{
    let w = scan_exec(s, q0, Class::Ws);
    if !starts_with_at(s, w, "{:else}") {
        return Ok((None, q0));
    }
    proof {
        reveal_strlit("{:else}");
    }
    let (_, q1) = brace_text_exec(s, w + 1)?;
    let (br, q2) = children_exec(s, q1, Stops::IfEnd)?;
    Ok((Some(br), q2))
}

fn each_block_exec(s: &Vec<char>, p: usize) -> (r: ParseResult<(TemplateNode, usize)>)
    requires
        p < s.len(),
    ensures
        match r {
            Ok((n, q)) => each_block(s@, p as int) == Ok::<(TNode, int), ErrModel>(
                (tnode(n), q as int),
            ) && p < q <= s.len(),
            Err(e) => each_block(s@, p as int) == Err::<(TNode, int), ErrModel>(e@),
        },
    decreases s.len() - p, 0int,
{
    let (tag, q) = brace_text_exec(s, p + 1)?;
    let inner_s = after_keyword(&tag, "#each");
    let inner = crate::text::chars_of(inner_s.as_str());
    let (iterable, item, index) = each_parts_exec(&inner);
    let (children, q2) = children_exec(s, q, Stops::EachEnd)?;
    let close = crate::text::chars_of("{/each}");
    let end = skip_close_exec(s, q2, &close);
    Ok((TemplateNode::Each(crate::parser::ast::EachNode { iterable, item, index, children }), end))
}

fn each_parts_exec(inner: &Vec<char>) -> (r: (String, String, Option<String>))
    ensures
        each_parts(inner@) == (r.0@, r.1@, crate::parser::model::opt_view(r.2)),
{
    let pat = crate::text::chars_of(" as ");
    let n = inner.len();
    match crate::text::find_from_exec(inner, &pat, 0) {
        Some(a) => {
            proof {
                crate::text::lemma_find_from(inner@, " as "@, 0);
                reveal_strlit(" as ");
                assert(occurs_at(inner@, a as int, " as "@));
                assert(a + 4 <= inner@.len());
                assert(inner@.take(a as int) =~= inner@.subrange(0, a as int));
                assert(inner@.skip(a + 4) =~= inner@.subrange(a + 4, inner@.len() as int));
            }
            let (ia, ib) = trim_bounds(inner, 0, a);
            let (ba, bb) = trim_bounds(inner, a + 4, n);
            let binding = slice_of(inner, ba, bb);
            proof {
                assert(binding@.skip(0) =~= binding@);
            }
            match find_char_from(&binding, ',', 0) {
                Some(c) => {
                    proof {
                        assert(binding@.take(c as int) =~= binding@.subrange(0, c as int));
                        assert(binding@.skip(c + 1) =~= binding@.subrange(c + 1, binding@.len() as int));
                    }
                    let (xa, xb) = trim_bounds(&binding, 0, c);
                    let (ya, yb) = trim_bounds(&binding, c + 1, binding.len());
                    (
                        crate::text::string_of(inner, ia, ib),
                        crate::text::string_of(&binding, xa, xb),
                        Some(crate::text::string_of(&binding, ya, yb)),
                    )
                },
                None => (crate::text::string_of(inner, ia, ib), to_string(&binding), None),
            }
        },
        None => (to_string(inner), string_from("item"), None),
    }
}

fn match_block_exec(s: &Vec<char>, p: usize) -> (r: ParseResult<(TemplateNode, usize)>)
    requires
        p < s.len(),
    ensures
        match r {
            Ok((n, q)) => match_block(s@, p as int) == Ok::<(TNode, int), ErrModel>(
                (tnode(n), q as int),
            ) && p < q <= s.len(),
            Err(e) => match_block(s@, p as int) == Err::<(TNode, int), ErrModel>(e@),
        },
    decreases s.len() - p, 0int,
{
    let (tag, q) = brace_text_exec(s, p + 1)?;
    let expr = after_keyword(&tag, "#match");
    let (arms, q2) = arms_exec(s, q)?;
    Ok((TemplateNode::Match(crate::parser::ast::MatchNode { expr, arms }), q2))
}

fn arms_exec(s: &Vec<char>, q0: usize) -> (r: ParseResult<(Vec<(String, Vec<TemplateNode>)>, usize)>)
    requires
        q0 <= s.len(),
    ensures
        match r {
            Ok((v, q)) => arms(s@, q0 as int, seq![]) == Ok::<
                (Seq<(Seq<char>, Seq<TNode>)>, int),
                ErrModel,
            >((tbranches(v@), q as int)) && q0 <= q <= s.len(),
            Err(e) => arms(s@, q0 as int, seq![]) == Err::<
                (Seq<(Seq<char>, Seq<TNode>)>, int),
                ErrModel,
            >(e@),
        },
    decreases s.len() - q0, 0int,
{
    let mut out: Vec<(String, Vec<TemplateNode>)> = Vec::new();
    let mut pos = q0;
    proof {
        assert(tbranches(out@) =~= Seq::<(Seq<char>, Seq<TNode>)>::empty());
    }
    loop
        invariant
            q0 <= pos <= s.len(),
            arms(s@, q0 as int, seq![]) == arms(s@, pos as int, tbranches(out@)),
        decreases s.len() - pos,
    {
        proof {
            reveal_strlit("{/match}");
            reveal_strlit("{:when");
        }
        let w = scan_exec(s, pos, Class::Ws);
        if starts_with_at(s, w, "{/match}") {
            return Ok((out, w + 8));
        }
        if starts_with_at(s, w, "{:when") {
            let (tag, q1) = brace_text_exec(s, w + 1)?;
            let pat = after_keyword(&tag, ":when");
            let (ch, q2) = children_exec(s, q1, Stops::MatchArm)?;
            let item = (pat, ch);
            proof {
                lemma_tbranches_push(out@, item);
            }
            out.push(item);
            pos = q2;
        } else if w >= s.len() {
            return Ok((out, w));
        } else {
            pos = w + 1;
        }
    }
}

fn can_block_exec(s: &Vec<char>, p: usize) -> (r: ParseResult<(TemplateNode, usize)>)
    requires
        p < s.len(),
    ensures
        match r {
            Ok((n, q)) => can_block(s@, p as int) == Ok::<(TNode, int), ErrModel>(
                (tnode(n), q as int),
            ) && p < q <= s.len(),
            Err(e) => can_block(s@, p as int) == Err::<(TNode, int), ErrModel>(e@),
        },
    decreases s.len() - p, 0int,
{
    let (tag, q) = brace_text_exec(s, p + 1)?;
    let ps = after_keyword(&tag, "#can");
    let pc = crate::text::chars_of(ps.as_str());
    let permission = to_string(&crate::parser::lex::unquote_exec(&pc, 0, pc.len()));
    proof {
        assert(pc@.subrange(0, pc@.len() as int) =~= pc@);
    }
    let (children, q2) = children_exec(s, q, Stops::CanEnd)?;
    let close = crate::text::chars_of("{/can}");
    let end = skip_close_exec(s, q2, &close);
    Ok((TemplateNode::Can(crate::parser::ast::CanNode { permission, children }), end))
}

#[verifier::rlimit(40)]
fn element_exec(s: &Vec<char>, p: usize) -> (r: ParseResult<(TemplateNode, usize)>)
    requires
        p < s.len(),
    ensures
        match r {
            Ok((n, q)) => element(s@, p as int) == Ok::<(TNode, int), ErrModel>((tnode(n), q as int))
                && p < q <= s.len(),
            Err(e) => element(s@, p as int) == Err::<(TNode, int), ErrModel>(e@),
        },
    decreases s.len() - p, 0int,
{
    let ne = scan_exec(s, p + 1, Class::Ident);
    let tag = slice_of(s, p + 1, ne);
    if crate::text::eq_lit(&tag, "slot") {
        let (name, closed, q) = slot_tag_exec(s, ne)?;
        if closed {
            let n = TemplateNode::Slot(crate::parser::ast::SlotNode { name, fallback: Vec::new() });
            proof {
                assert(tnodes(Seq::<TemplateNode>::empty()) =~= Seq::<TNode>::empty());
            }
            return Ok((n, q));
        }
        let (fallback, q2) = until_close_exec(s, q)?;
        let close = crate::text::chars_of("</slot>");
        let end = skip_close_exec(s, q2, &close);
        return Ok((TemplateNode::Slot(crate::parser::ast::SlotNode { name, fallback }), end));
    }
    if crate::text::eq_lit(&tag, "error-boundary") {
        let q = boundary_tag_exec(s, ne);
        let (children, q2) = until_close_exec(s, q)?;
        let close = crate::text::chars_of("</error-boundary>");
        let end = skip_close_exec(s, q2, &close);
        return Ok(
            (
                TemplateNode::ErrorBoundary(
                    crate::parser::ast::ErrorBoundaryNode { error_template: None, children },
                ),
                end,
            ),
        );
    }
    let (t, q) = open_tag_exec(s, ne)?;
    let comp = tag.len() > 0 && char_is_upper(tag[0]);
    let name = to_string(&tag);
    let (children, end) = if t.self_closing || (!comp && is_void_element(&tag)) {
        proof {
            assert(tnodes(Seq::<TemplateNode>::empty()) =~= Seq::<TNode>::empty());
        }
        (Vec::new(), q)
    } else {
        let (ch, q2) = until_close_exec(s, q)?;
        let mut close = crate::text::chars_of("</");
        let mut j: usize = 0;
        let ghost c0 = close@;
        while j < tag.len()
            invariant
                j <= tag.len(),
                close@ == c0 + tag@.take(j as int),
            decreases tag.len() - j,
        {
            close.push(tag[j]);
            proof {
                assert(tag@.take(j + 1) =~= tag@.take(j as int).push(tag@[j as int]));
            }
            j += 1;
        }
        close.push('>');
        proof {
            assert(tag@.take(tag.len() as int) =~= tag@);
            reveal_strlit("</");
            reveal_strlit(">");
            assert(close@ =~= "</"@ + tag@ + ">"@);
        }
        let e = skip_close_exec(s, q2, &close);
        (ch, e)
    };
    if comp {
        let n = TemplateNode::Component(
            crate::parser::ast::ComponentNode {
                name,
                props: t.attributes,
                events: t.events,
                bindings: t.bindings,
                children,
                is_island: t.island,
            },
        );
        Ok((n, end))
    } else {
        let n = TemplateNode::Element(
            crate::parser::ast::ElementNode {
                tag: name,
                attributes: t.attributes,
                events: t.events,
                bindings: t.bindings,
                children,
                self_closing: t.self_closing,
            },
        );
        Ok((n, end))
    }
}

/// Parses the text of a `<template>` block.
pub fn parse_template_block(content: &Vec<char>) -> (r: ParseResult<crate::parser::ast::TemplateBlock>)
    ensures
        match r {
            Ok(b) => template_nodes(content@) == Ok::<Seq<TNode>, ErrModel>(tnodes(b.children@)),
            Err(e) => template_nodes(content@) == Err::<Seq<TNode>, ErrModel>(e@),
        },
{
    let (children, _) = children_exec(content, 0, Stops::NoStops)?;
    Ok(crate::parser::ast::TemplateBlock { children })
}

} // verus!
