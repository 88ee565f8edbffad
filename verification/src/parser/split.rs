//! Splitting declarations at separators outside brackets, whitespace words,
//! and joining.

use vstd::prelude::*;
use crate::text::{is_ws, char_is_ws, trim, trim_bounds, lemma_lead_ws_bound, lemma_lead_ws_char, lead_ws, trim_start, slice_of};

verus! {

pub open spec fn is_open(c: char) -> bool {
    c == '<' || c == '(' || c == '['
}

pub open spec fn is_close(c: char) -> bool {
    c == '>' || c == ')' || c == ']'
}

/// The separators the grammar splits at outside brackets.
#[derive(Clone, Copy, PartialEq, Eq, Structural)]
pub enum Sep {
    /// `,` between parameters.
    Comma,
    /// `=` before a default value.
    Equals,
    /// a space or a tab between a type and its constraints.
    Blank,
}

pub open spec fn is_sep(k: Sep, c: char) -> bool {
    match k {
        Sep::Comma => c == ',',
        Sep::Equals => c == '=',
        Sep::Blank => c == ' ' || c == '\t',
    }
}

fn is_sep_exec(k: Sep, c: char) -> (r: bool)
    ensures
        r == is_sep(k, c),
{
    match k {
        Sep::Comma => c == ',',
        Sep::Equals => c == '=',
        Sep::Blank => c == ' ' || c == '\t',
    }
}

/// First position at or after `i` of a separator `k` while the bracket depth
/// (starting at `d` at `i`) is zero, or -1. Brackets are `<([` and `>)]`;
/// the depth may go below zero.
pub open spec fn first_top_sep(s: Seq<char>, k: Sep, i: int, d: int) -> int
    decreases s.len() - i,
{
    if i < 0 || i >= s.len() {
        -1
    } else if is_open(s[i]) {
        first_top_sep(s, k, i + 1, d + 1)
    } else if is_close(s[i]) {
        first_top_sep(s, k, i + 1, d - 1)
    } else if is_sep(k, s[i]) && d == 0 {
        i
    } else {
        first_top_sep(s, k, i + 1, d)
    }
}

pub proof fn lemma_first_top_sep(s: Seq<char>, k: Sep, i: int, d: int)
    requires
        0 <= i,
    ensures
        first_top_sep(s, k, i, d) == -1 || (i <= first_top_sep(s, k, i, d) < s.len()
            && is_sep(k, s[first_top_sep(s, k, i, d)])),
    decreases s.len() - i,
{
    if i < s.len() {
        if is_open(s[i]) {
            lemma_first_top_sep(s, k, i + 1, d + 1);
        } else if is_close(s[i]) {
            lemma_first_top_sep(s, k, i + 1, d - 1);
        } else if is_sep(k, s[i]) && d == 0 {
        } else {
            lemma_first_top_sep(s, k, i + 1, d);
        }
    }
}

/// The pieces of `s` between top-level separators `k`.
pub open spec fn top_split(s: Seq<char>, k: Sep) -> Seq<Seq<char>>
    decreases s.len(),
{
    let p = first_top_sep(s, k, 0, 0);
    if p < 0 {
        seq![s]
    } else {
        proof {
            lemma_first_top_sep(s, k, 0, 0);
        }
        seq![s.take(p)] + top_split(s.skip(p + 1), k)
    }
}

/// Position of the first top-level separator `k` in `s[lo..hi]`, relative to
/// `s`.
pub fn first_top_sep_exec(s: &Vec<char>, lo: usize, hi: usize, k: Sep) -> (r: Option<usize>)
    requires
        lo <= hi <= s.len(),
    ensures
        match r {
            Some(p) => lo <= p < hi && p - lo == first_top_sep(
                s@.subrange(lo as int, hi as int),
                k,
                0,
                0,
            ),
            None => first_top_sep(s@.subrange(lo as int, hi as int), k, 0, 0) == -1,
        },
{
    let ghost sub = s@.subrange(lo as int, hi as int);
    let mut i = lo;
    let mut opens: usize = 0;
    let mut closes: usize = 0;
    while i < hi
        invariant
            lo <= i <= hi,
            hi <= s.len(),
            sub == s@.subrange(lo as int, hi as int),
            opens <= i - lo,
            closes <= i - lo,
            first_top_sep(sub, k, 0, 0) == first_top_sep(sub, k, i - lo, opens - closes),
        decreases hi - i,
    {
        let c = s[i];
        proof {
            assert(sub[i - lo] == c);
        }
        if c == '<' || c == '(' || c == '[' {
            opens += 1;
        } else if c == '>' || c == ')' || c == ']' {
            closes += 1;
        } else if is_sep_exec(k, c) && opens == closes {
            return Some(i);
        }
        i += 1;
    }
    None
}

/// The pieces of `s[lo..hi]` between top-level separators `k`, as bounds
/// within `s`.
pub fn top_split_exec(s: &Vec<char>, lo: usize, hi: usize, k: Sep) -> (r: Vec<(usize, usize)>)
    requires
        lo <= hi <= s.len(),
    ensures
        r.len() == top_split(s@.subrange(lo as int, hi as int), k).len(),
        forall|j: int|
            0 <= j < r.len() ==> {
                &&& lo <= (#[trigger] r@[j]).0 <= r@[j].1 <= hi
                &&& s@.subrange(r@[j].0 as int, r@[j].1 as int) == top_split(
                    s@.subrange(lo as int, hi as int),
                    k,
                )[j]
            },
{
    let mut out: Vec<(usize, usize)> = Vec::new();
    let mut start = lo;
    let ghost whole = top_split(s@.subrange(lo as int, hi as int), k);
    loop
        invariant
            lo <= start <= hi,
            hi <= s.len(),
            whole == top_split(s@.subrange(lo as int, hi as int), k),
            whole.len() == out.len() + top_split(s@.subrange(start as int, hi as int), k).len(),
            forall|j: int|
                0 <= j < out.len() ==> {
                    &&& lo <= (#[trigger] out@[j]).0 <= out@[j].1 <= hi
                    &&& s@.subrange(out@[j].0 as int, out@[j].1 as int) == whole[j]
                },
            forall|j: int|
                0 <= j < top_split(s@.subrange(start as int, hi as int), k).len() ==> whole[out.len()
                    + j] == top_split(s@.subrange(start as int, hi as int), k)[j],
        decreases hi - start,
    {
        let ghost rest = s@.subrange(start as int, hi as int);
        match first_top_sep_exec(s, start, hi, k) {
            None => {
                proof {
                    assert(top_split(rest, k) == seq![rest]);
                    assert(top_split(rest, k).len() == 1);
                    assert(whole[out.len() + 0] == top_split(rest, k)[0]);
                }
                out.push((start, hi));
                return out;
            },
            Some(p) => {
                proof {
                    lemma_first_top_sep(rest, k, 0, 0);
                    let q = p - start;
                    assert(rest.take(q) =~= s@.subrange(start as int, p as int));
                    assert(rest.skip(q + 1) =~= s@.subrange(p + 1, hi as int));
                    assert(top_split(rest, k) == seq![rest.take(q)] + top_split(rest.skip(q + 1), k));
                    assert(whole[out.len() as int] == top_split(rest, k)[0]);
                    let nt = top_split(s@.subrange(p + 1, hi as int), k);
                    assert forall|j: int| 0 <= j < nt.len() implies whole[out.len() + 1 + j]
                        == nt[j] by {
                        assert(top_split(rest, k)[j + 1] == nt[j]);
                    }
                }
                out.push((start, p));
                start = p + 1;
            },
        }
    }
}

// ---------------------------------------------------------------------------
// Whitespace words
// ---------------------------------------------------------------------------

/// Position of the first whitespace character of `s`, or its length.
pub open spec fn word_end(s: Seq<char>) -> nat
    decreases s.len(),
{
    if s.len() == 0 || is_ws(s[0]) {
        0
    } else {
        1 + word_end(s.drop_first())
    }
}

pub proof fn lemma_word_end(s: Seq<char>)
    ensures
        word_end(s) <= s.len(),
        forall|j: int| 0 <= j < word_end(s) ==> !is_ws(#[trigger] s[j]),
        word_end(s) < s.len() ==> is_ws(s[word_end(s) as int]),
    decreases s.len(),
{
    if s.len() > 0 && !is_ws(s[0]) {
        lemma_word_end(s.drop_first());
        assert forall|j: int| 0 <= j < word_end(s) implies !is_ws(#[trigger] s[j]) by {
            if j > 0 {
                assert(s[j] == s.drop_first()[j - 1]);
            }
        }
    }
}

pub proof fn lemma_word_end_char(s: Seq<char>, k: int)
    requires
        0 <= k <= s.len(),
        forall|j: int| 0 <= j < k ==> !is_ws(#[trigger] s[j]),
        k == s.len() || is_ws(s[k]),
    ensures
        word_end(s) == k,
    decreases s.len(),
{
    if k > 0 {
        let t = s.drop_first();
        assert forall|j: int| 0 <= j < k - 1 implies !is_ws(#[trigger] t[j]) by {
            assert(t[j] == s[j + 1]);
        }
        if k < s.len() {
            assert(t[k - 1] == s[k]);
        }
        lemma_word_end_char(t, k - 1);
    }
}

/// `str::split_whitespace`: the maximal runs of non-whitespace characters.
pub open spec fn words(s: Seq<char>) -> Seq<Seq<char>>
    decreases s.len(),
{
    let t = trim_start(s);
    if t.len() == 0 {
        seq![]
    } else {
        proof {
            lemma_lead_ws_bound(s);
            lemma_word_end(t);
        }
        seq![t.take(word_end(t) as int)] + words(t.skip(word_end(t) as int))
    }
}

/// The whitespace words of `s[lo..hi]`, as bounds within `s`.
pub fn words_exec(s: &Vec<char>, lo: usize, hi: usize) -> (r: Vec<(usize, usize)>)
    requires
        lo <= hi <= s.len(),
    ensures
        r.len() == words(s@.subrange(lo as int, hi as int)).len(),
        forall|j: int|
            0 <= j < r.len() ==> {
                &&& lo <= (#[trigger] r@[j]).0 <= r@[j].1 <= hi
                &&& s@.subrange(r@[j].0 as int, r@[j].1 as int) == words(
                    s@.subrange(lo as int, hi as int),
                )[j]
            },
{
    let mut out: Vec<(usize, usize)> = Vec::new();
    let mut pos = lo;
    let ghost whole = words(s@.subrange(lo as int, hi as int));
    loop
        invariant
            lo <= pos <= hi,
            hi <= s.len(),
            whole == words(s@.subrange(lo as int, hi as int)),
            whole.len() == out.len() + words(s@.subrange(pos as int, hi as int)).len(),
            forall|j: int|
                0 <= j < out.len() ==> {
                    &&& lo <= (#[trigger] out@[j]).0 <= out@[j].1 <= hi
                    &&& s@.subrange(out@[j].0 as int, out@[j].1 as int) == whole[j]
                },
            forall|j: int|
                0 <= j < words(s@.subrange(pos as int, hi as int)).len() ==> whole[out.len() + j]
                    == words(s@.subrange(pos as int, hi as int))[j],
        decreases hi - pos,
    {
        let ghost rest = s@.subrange(pos as int, hi as int);
        let mut a = pos;
        while a < hi && char_is_ws(s[a])
            invariant
                pos <= a <= hi,
                hi <= s.len(),
                forall|j: int| pos <= j < a ==> is_ws(#[trigger] s@[j]),
            decreases hi - a,
        {
            a += 1;
        }
        proof {
            assert forall|j: int| 0 <= j < a - pos implies is_ws(#[trigger] rest[j]) by {
                assert(rest[j] == s@[pos + j]);
            }
            if a < hi {
                assert(rest[a - pos] == s@[a as int]);
            }
            lemma_lead_ws_char(rest, a - pos);
            assert(trim_start(rest) =~= s@.subrange(a as int, hi as int));
        }
        if a == hi {
            proof {
                assert(words(rest) == Seq::<Seq<char>>::empty());
            }
            return out;
        }
        let mut b = a;
        while b < hi && !char_is_ws(s[b])
            invariant
                a <= b <= hi,
                hi <= s.len(),
                forall|j: int| a <= j < b ==> !is_ws(#[trigger] s@[j]),
            decreases hi - b,
        {
            b += 1;
        }
        proof {
            let t = s@.subrange(a as int, hi as int);
            assert forall|j: int| 0 <= j < b - a implies !is_ws(#[trigger] t[j]) by {
                assert(t[j] == s@[a + j]);
            }
            if b < hi {
                assert(t[b - a] == s@[b as int]);
            }
            lemma_word_end_char(t, b - a);
            assert(t.take(b - a) =~= s@.subrange(a as int, b as int));
            assert(t.skip(b - a) =~= s@.subrange(b as int, hi as int));
            assert(words(rest) == seq![t.take(b - a)] + words(t.skip(b - a)));
            assert(whole[out.len() as int] == words(rest)[0]);
            let nt = words(s@.subrange(b as int, hi as int));
            assert forall|j: int| 0 <= j < nt.len() implies whole[out.len() + 1 + j] == nt[j] by {
                assert(words(rest)[j + 1] == nt[j]);
            }
        }
        out.push((a, b));
        pos = b;
    }
}

// ---------------------------------------------------------------------------
// Joining
// ---------------------------------------------------------------------------

/// The pieces `ts` with `sep` between consecutive ones (`[T]::join`).
pub open spec fn join(ts: Seq<Seq<char>>, sep: Seq<char>) -> Seq<char>
    decreases ts.len(),
{
    if ts.len() == 0 {
        seq![]
    } else if ts.len() == 1 {
        ts[0]
    } else {
        join(ts.drop_last(), sep) + sep + ts.last()
    }
}

} // verus!
