//! Line-level helpers of the `.adapto` grammar: splitting into lines, quotes,
//! `key: value` lines, prefix stripping and the enumerated field values.

use vstd::prelude::*;
use crate::text::{append_string, chars_of, eq_lit, find_char, find_char_from, lemma_find_char, occurs_at, occurs_at_exec, slice_of, starts_with, string_from, string_of, trim, trim_bounds};
use crate::parser::ast::{AuthLevel, CachePolicy, TenantLevel};

verus! {

/// The views of a vector of character vectors.
pub open spec fn views(v: Seq<Vec<char>>) -> Seq<Seq<char>> {
    v.map_values(|x: Vec<char>| x@)
}

/// A `String` with the characters of `v`.
pub fn to_string(v: &Vec<char>) -> (r: String)
    ensures
        r@ == v@,
{
    let r = string_of(v, 0, v.len());
    proof {
        assert(v@.subrange(0, v@.len() as int) =~= v@);
    }
    r
}

/// A `String` with the characters of `trim(v)`.
pub fn trimmed_string(v: &Vec<char>) -> (r: String)
    ensures
        r@ == trim(v@),
{
    let (a, b) = trim_bounds(v, 0, v.len());
    proof {
        assert(v@.subrange(0, v@.len() as int) =~= v@);
    }
    string_of(v, a, b)
}

/// The characters of `trim(v)`.
pub fn trimmed(v: &Vec<char>) -> (r: Vec<char>)
    ensures
        r@ == trim(v@),
{
    let (a, b) = trim_bounds(v, 0, v.len());
    proof {
        assert(v@.subrange(0, v@.len() as int) =~= v@);
    }
    slice_of(v, a, b)
}

// ---------------------------------------------------------------------------
// Lines
// ---------------------------------------------------------------------------

/// Removes one `\r` at the end, as `str::lines` does before a `\n`.
pub open spec fn strip_cr(l: Seq<char>) -> Seq<char> {
    if l.len() > 0 && l.last() == '\r' {
        l.drop_last()
    } else {
        l
    }
}

/// `str::lines`: the pieces between `\n` characters, each without a `\r`
/// that ended it; no final empty piece after a trailing `\n`.
pub open spec fn lines(s: Seq<char>) -> Seq<Seq<char>>
    decreases s.len(),
{
    if s.len() == 0 {
        seq![]
    } else {
        let i = find_char(s, '\n');
        if i < 0 {
            seq![s]
        } else {
            proof {
                lemma_find_char(s, '\n');
            }
            seq![strip_cr(s.take(i))] + lines(s.skip(i + 1))
        }
    }
}

/// `s` has no more lines than characters, and no line is longer than `s`.
pub proof fn lemma_lines_bounded(s: Seq<char>)
    ensures
        lines(s).len() <= s.len(),
        forall|j: int| 0 <= j < lines(s).len() ==> (#[trigger] lines(s)[j]).len() <= s.len(),
    decreases s.len(),
{
    if s.len() > 0 {
        let i = find_char(s, '\n');
        lemma_find_char(s, '\n');
        if i >= 0 {
            let t = s.skip(i + 1);
            lemma_lines_bounded(t);
            let ls = lines(s);
            assert(ls == seq![strip_cr(s.take(i))] + lines(t));
            assert forall|j: int| 0 <= j < ls.len() implies (#[trigger] ls[j]).len() <= s.len() by {
                if j > 0 {
                    assert(ls[j] == lines(t)[j - 1]);
                }
            }
        }
    }
}

/// The lines of `s` (`str::lines`).
pub fn split_lines(s: &Vec<char>) -> (r: Vec<Vec<char>>)
    ensures
        views(r@) == lines(s@),
{
    let mut out: Vec<Vec<char>> = Vec::new();
    let mut pos: usize = 0;
    proof {
        assert(s@.skip(0) =~= s@);
        assert(views(out@) =~= Seq::<Seq<char>>::empty());
    }
    while pos < s.len()
        invariant
            pos <= s.len(),
            views(out@) + lines(s@.skip(pos as int)) == lines(s@),
        decreases s.len() - pos,
    {
        let ghost t = s@.skip(pos as int);
        let ghost old_out = out@;
        match find_char_from(s, '\n', pos) {
            None => {
                let line = slice_of(s, pos, s.len());
                out.push(line);
                proof {
                    assert(t =~= s@.subrange(pos as int, s.len() as int));
                    assert(lines(t) == seq![t]);
                    assert(views(out@) =~= views(old_out).push(t));
                    assert(s@.skip(s.len() as int) =~= Seq::<char>::empty());
                    assert(views(out@) + lines(s@.skip(s.len() as int)) =~= views(old_out) + lines(
                        t,
                    ));
                }
                pos = s.len();
            },
            Some(k) => {
                let mut e = k;
                if e > pos && s[e - 1] == '\r' {
                    e = e - 1;
                }
                let line = slice_of(s, pos, e);
                out.push(line);
                proof {
                    let i = k - pos;
                    assert(t.take(i) =~= s@.subrange(pos as int, k as int));
                    assert(t.skip(i + 1) =~= s@.skip(k + 1));
                    if k > pos && s@[k - 1] == '\r' {
                        assert(strip_cr(t.take(i)) =~= s@.subrange(pos as int, e as int));
                    } else {
                        assert(strip_cr(t.take(i)) =~= s@.subrange(pos as int, e as int));
                    }
                    assert(lines(t) == seq![strip_cr(t.take(i))] + lines(t.skip(i + 1)));
                    assert(views(out@) =~= views(old_out).push(strip_cr(t.take(i))));
                    assert(views(out@) + lines(s@.skip(k + 1)) =~= views(old_out) + lines(t));
                }
                pos = k + 1;
            },
        }
    }
    proof {
        assert(s@.skip(pos as int) =~= Seq::<char>::empty());
        assert(views(out@) + Seq::<Seq<char>>::empty() =~= views(out@));
    }
    out
}

// ---------------------------------------------------------------------------
// Prefixes, suffixes and quotes
// ---------------------------------------------------------------------------

/// `str::trim_start_matches` with a string pattern: removes every leading
/// repetition of `p`.
pub open spec fn strip_prefix_all(s: Seq<char>, p: Seq<char>) -> Seq<char>
    decreases s.len(),
{
    if p.len() > 0 && starts_with(s, p) {
        strip_prefix_all(s.skip(p.len() as int), p)
    } else {
        s
    }
}

/// `str::trim_end_matches` with a character pattern: removes every trailing
/// `c`.
pub open spec fn strip_suffix_all(s: Seq<char>, c: char) -> Seq<char>
    decreases s.len(),
{
    if s.len() > 0 && s.last() == c {
        strip_suffix_all(s.drop_last(), c)
    } else {
        s
    }
}

/// Start of `strip_prefix_all(s[lo..hi], p)` within `s`.
pub fn strip_prefix_all_from(s: &Vec<char>, lo: usize, hi: usize, p: &str) -> (r: usize)
    requires
        lo <= hi <= s.len(),
    ensures
        lo <= r <= hi,
        s@.subrange(r as int, hi as int) == strip_prefix_all(s@.subrange(lo as int, hi as int), p@),
{
    let pc = chars_of(p);
    let mut i = lo;
    let ghost sub = s@.subrange(lo as int, hi as int);
    if pc.len() == 0 {
        return lo;
    }
    while i <= hi && pc.len() <= hi - i && occurs_at_exec(s, i, &pc)
        invariant
            lo <= i <= hi,
            hi <= s.len(),
            pc@ == p@,
            pc.len() > 0,
            strip_prefix_all(s@.subrange(i as int, hi as int), p@) == strip_prefix_all(sub, p@),
        decreases hi - i,
    {
        proof {
            let t = s@.subrange(i as int, hi as int);
            assert(t.subrange(0, pc.len() as int) =~= s@.subrange(i as int, i + pc.len()));
            assert(starts_with(t, p@));
            assert(t.skip(pc.len() as int) =~= s@.subrange(i + pc.len(), hi as int));
        }
        i = i + pc.len();
    }
    proof {
        let t = s@.subrange(i as int, hi as int);
        if i <= hi && pc.len() <= hi - i {
            if starts_with(t, p@) {
                assert(t.subrange(0, pc.len() as int) =~= s@.subrange(i as int, i + pc.len()));
            }
        }
    }
    i
}

/// End of `strip_suffix_all(s[lo..hi], c)` within `s`.
pub fn strip_suffix_all_to(s: &Vec<char>, lo: usize, hi: usize, c: char) -> (r: usize)
    requires
        lo <= hi <= s.len(),
    ensures
        lo <= r <= hi,
        s@.subrange(lo as int, r as int) == strip_suffix_all(s@.subrange(lo as int, hi as int), c),
{
    let mut j = hi;
    while j > lo && s[j - 1] == c
        invariant
            lo <= j <= hi,
            hi <= s.len(),
            strip_suffix_all(s@.subrange(lo as int, j as int), c) == strip_suffix_all(
                s@.subrange(lo as int, hi as int),
                c,
            ),
        decreases j,
    {
        proof {
            assert(s@.subrange(lo as int, j as int).drop_last() =~= s@.subrange(
                lo as int,
                j - 1,
            ));
        }
        j -= 1;
    }
    j
}

/// Whether `s[i..]` starts with `p`.
pub fn starts_with_at(s: &Vec<char>, i: usize, p: &str) -> (r: bool)
    ensures
        r == occurs_at(s@, i as int, p@),
{
    let pc = chars_of(p);
    occurs_at_exec(s, i, &pc)
}

pub open spec fn is_quote_pair(t: Seq<char>) -> bool {
    t.len() >= 1 && ((t[0] == '"' && t.last() == '"') || (t[0] == '\'' && t.last() == '\''))
}

/// Trims `s` and removes one pair of matching surrounding quotes. A lone quote
/// character gives the empty text.
pub open spec fn unquote(s: Seq<char>) -> Seq<char> {
    let t = trim(s);
    if is_quote_pair(t) {
        if t.len() >= 2 {
            t.subrange(1, t.len() - 1)
        } else {
            seq![]
        }
    } else {
        t
    }
}

/// `unquote` of `s[lo..hi]`.
pub fn unquote_exec(s: &Vec<char>, lo: usize, hi: usize) -> (r: Vec<char>)
    requires
        lo <= hi <= s.len(),
    ensures
        r@ == unquote(s@.subrange(lo as int, hi as int)),
{
    let (a, b) = trim_bounds(s, lo, hi);
    let ghost t = s@.subrange(a as int, b as int);
    if b > a && ((s[a] == '"' && s[b - 1] == '"') || (s[a] == '\'' && s[b - 1] == '\'')) {
        proof {
            assert(t[0] == s@[a as int]);
            assert(t.last() == s@[b - 1]);
        }
        if b - a >= 2 {
            proof {
                assert(t.subrange(1, t.len() - 1) =~= s@.subrange(a + 1, b - 1));
            }
            slice_of(s, a + 1, b - 1)
        } else {
            Vec::new()
        }
    } else {
        proof {
            if t.len() >= 1 {
                assert(t[0] == s@[a as int]);
                assert(t.last() == s@[b - 1]);
            }
        }
        slice_of(s, a, b)
    }
}

// ---------------------------------------------------------------------------
// key: value lines
// ---------------------------------------------------------------------------

/// A `key: value` line: split at the first `:`, both sides trimmed; the key
/// must not be empty.
pub open spec fn kv_line(line: Seq<char>) -> Option<(Seq<char>, Seq<char>)> {
    let c = find_char(line, ':');
    if c < 0 {
        None
    } else if trim(line.take(c)).len() == 0 {
        None
    } else {
        Some((trim(line.take(c)), trim(line.skip(c + 1))))
    }
}

/// `kv_line` of `s[lo..hi]`.
pub fn parse_kv_line(s: &Vec<char>, lo: usize, hi: usize) -> (r: Option<(Vec<char>, Vec<char>)>)
    requires
        lo <= hi <= s.len(),
    ensures
        match r {
            Some((k, v)) => kv_line(s@.subrange(lo as int, hi as int)) == Some((k@, v@)),
            None => kv_line(s@.subrange(lo as int, hi as int)) is None,
        },
{
    let line = slice_of(s, lo, hi);
    match find_char_from(&line, ':', 0) {
        None => {
            proof {
                assert(line@.skip(0) =~= line@);
            }
            None
        },
        Some(c) => {
            proof {
                assert(line@.skip(0) =~= line@);
                assert(line@.take(c as int) =~= line@.subrange(0, c as int));
                assert(line@.skip(c + 1) =~= line@.subrange(c + 1, line@.len() as int));
            }
            let (ka, kb) = trim_bounds(&line, 0, c);
            if ka == kb {
                return None;
            }
            let (va, vb) = trim_bounds(&line, c + 1, line.len());
            Some((slice_of(&line, ka, kb), slice_of(&line, va, vb)))
        },
    }
}

// ---------------------------------------------------------------------------
// Enumerated values
// ---------------------------------------------------------------------------

pub open spec fn auth_level(s: Seq<char>) -> Option<AuthLevel> {
    if s == "public"@ {
        Some(AuthLevel::Public)
    } else if s == "optional"@ {
        Some(AuthLevel::Optional)
    } else if s == "required"@ {
        Some(AuthLevel::Required)
    } else {
        None
    }
}

pub open spec fn tenant_level(s: Seq<char>) -> Option<TenantLevel> {
    if s == "none"@ {
        Some(TenantLevel::NoTenant)
    } else if s == "optional"@ {
        Some(TenantLevel::Optional)
    } else if s == "required"@ {
        Some(TenantLevel::Required)
    } else {
        None
    }
}

pub open spec fn cache_policy(s: Seq<char>) -> Option<CachePolicy> {
    if s == "no-store"@ {
        Some(CachePolicy::NoStore)
    } else if s == "private"@ {
        Some(CachePolicy::Private)
    } else if s == "public"@ {
        Some(CachePolicy::Public)
    } else if s == "static"@ {
        Some(CachePolicy::Static)
    } else {
        None
    }
}

pub open spec fn auth_reason(s: Seq<char>) -> Seq<char> {
    "Expected public|optional|required, got: "@ + s
}

pub open spec fn tenant_reason(s: Seq<char>) -> Seq<char> {
    "Expected none|optional|required, got: "@ + s
}

pub open spec fn cache_reason(s: Seq<char>) -> Seq<char> {
    "Expected no-store|private|public|static, got: "@ + s
}

/// The message `reason` followed by the characters of `s`.
fn message_with(reason: &str, s: &Vec<char>) -> (r: String)
    ensures
        r@ == reason@ + s@,
{
    let mut m = string_from(reason);
    let t = to_string(s);
    append_string(&mut m, &t);
    m
}

pub fn parse_auth_level(s: &Vec<char>) -> (r: Result<AuthLevel, String>)
    ensures
        match r {
            Ok(a) => auth_level(s@) == Some(a),
            Err(m) => auth_level(s@) is None && m@ == auth_reason(s@),
        },
{
    if eq_lit(s, "public") {
        Ok(AuthLevel::Public)
    } else if eq_lit(s, "optional") {
        Ok(AuthLevel::Optional)
    } else if eq_lit(s, "required") {
        Ok(AuthLevel::Required)
    } else {
        Err(message_with("Expected public|optional|required, got: ", s))
    }
}

pub fn parse_tenant_level(s: &Vec<char>) -> (r: Result<TenantLevel, String>)
    ensures
        match r {
            Ok(a) => tenant_level(s@) == Some(a),
            Err(m) => tenant_level(s@) is None && m@ == tenant_reason(s@),
        },
{
    if eq_lit(s, "none") {
        Ok(TenantLevel::NoTenant)
    } else if eq_lit(s, "optional") {
        Ok(TenantLevel::Optional)
    } else if eq_lit(s, "required") {
        Ok(TenantLevel::Required)
    } else {
        Err(message_with("Expected none|optional|required, got: ", s))
    }
}

pub fn parse_cache_policy(s: &Vec<char>) -> (r: Result<CachePolicy, String>)
    ensures
        match r {
            Ok(a) => cache_policy(s@) == Some(a),
            Err(m) => cache_policy(s@) is None && m@ == cache_reason(s@),
        },
{
    if eq_lit(s, "no-store") {
        Ok(CachePolicy::NoStore)
    } else if eq_lit(s, "private") {
        Ok(CachePolicy::Private)
    } else if eq_lit(s, "public") {
        Ok(CachePolicy::Public)
    } else if eq_lit(s, "static") {
        Ok(CachePolicy::Static)
    } else {
        Err(message_with("Expected no-store|private|public|static, got: ", s))
    }
}

} // verus!
