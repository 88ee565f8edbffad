//! JSON values as form data holds them: null, booleans, numbers, strings,
//! arrays and objects with unique keys.

use vstd::prelude::*;
use crate::text::{append_decimal, append_str, append_string, decimal, push_char};

verus! {

/// A JSON number: a non-negative integer, a negative integer, or a
/// floating-point number given by its IEEE-754 bits and the text JSON
/// printing gives for it.
#[derive(Debug)]
pub enum JsonNumber {
    PosInt(u64),
    NegInt(i64),
    Float { bits: u64, text: String },
}

#[derive(Debug)]
pub enum JsonValue {
    Null,
    Bool(bool),
    Number(JsonNumber),
    Str(String),
    Array(Vec<JsonValue>),
    Object(Vec<(String, JsonValue)>),
}

/// A JSON value with its texts as character sequences.
pub enum JModel {
    Null,
    Bool(bool),
    PosInt(nat),
    NegInt(int),
    Float(u64, Seq<char>),
    Str(Seq<char>),
    Array(Seq<JModel>),
    Object(Seq<(Seq<char>, JModel)>),
}

/// The model of a value.
pub open spec fn jm(v: JsonValue) -> JModel
    decreases v, 1int,
{
    match v {
        JsonValue::Null => JModel::Null,
        JsonValue::Bool(b) => JModel::Bool(b),
        JsonValue::Number(JsonNumber::PosInt(n)) => JModel::PosInt(n as nat),
        JsonValue::Number(JsonNumber::NegInt(n)) => JModel::NegInt(n as int),
        JsonValue::Number(JsonNumber::Float { bits, text }) => JModel::Float(bits, text@),
        JsonValue::Str(s) => JModel::Str(s@),
        JsonValue::Array(items) => JModel::Array(jms(items@)),
        JsonValue::Object(entries) => JModel::Object(jentries(entries@)),
    }
}

pub open spec fn jms(v: Seq<JsonValue>) -> Seq<JModel>
    decreases v, 0int,
{
    if v.len() == 0 {
        seq![]
    } else {
        jms(v.drop_last()).push(jm(v.last()))
    }
}

pub open spec fn jentries(v: Seq<(String, JsonValue)>) -> Seq<(Seq<char>, JModel)>
    decreases v, 0int,
{
    if v.len() == 0 {
        seq![]
    } else {
        jentries(v.drop_last()).push((v.last().0@, jm(v.last().1)))
    }
}

pub proof fn lemma_jms_len(v: Seq<JsonValue>)
    ensures
        jms(v).len() == v.len(),
        forall|i: int| 0 <= i < v.len() ==> #[trigger] jms(v)[i] == jm(v[i]),
    decreases v.len(),
{
    if v.len() > 0 {
        lemma_jms_len(v.drop_last());
        assert forall|i: int| 0 <= i < v.len() implies #[trigger] jms(v)[i] == jm(v[i]) by {
            if i < v.len() - 1 {
                assert(v.drop_last()[i] == v[i]);
            }
        }
    }
}

pub proof fn lemma_jentries_len(v: Seq<(String, JsonValue)>)
    ensures
        jentries(v).len() == v.len(),
        forall|i: int|
            0 <= i < v.len() ==> #[trigger] jentries(v)[i] == (v[i].0@, jm(v[i].1)),
    decreases v.len(),
{
    if v.len() > 0 {
        lemma_jentries_len(v.drop_last());
        assert forall|i: int| 0 <= i < v.len() implies #[trigger] jentries(v)[i] == (
            v[i].0@,
            jm(v[i].1),
        ) by {
            if i < v.len() - 1 {
                assert(v.drop_last()[i] == v[i]);
            }
        }
    }
}

/// The value stored under key `k` in object entries `es` (the first one).
pub open spec fn jget(es: Seq<(Seq<char>, JModel)>, k: Seq<char>) -> Option<JModel>
    decreases es.len(),
{
    if es.len() == 0 {
        None
    } else if es[0].0 == k {
        Some(es[0].1)
    } else {
        jget(es.drop_first(), k)
    }
}

/// The number two floats' bits stand for compares equal: same bits, or both
/// zeros of either sign.
pub open spec fn float_bits_eq(a: u64, b: u64) -> bool {
    a == b || ((a == 0 || a == 0x8000_0000_0000_0000) && (b == 0 || b == 0x8000_0000_0000_0000))
}

/// JSON equality: numbers of the same kind and value, equal strings, arrays
/// equal item by item, objects with the same keys and equal values.
pub open spec fn jeq(a: JModel, b: JModel) -> bool
    decreases a,
{
    match (a, b) {
        (JModel::Null, JModel::Null) => true,
        (JModel::Bool(x), JModel::Bool(y)) => x == y,
        (JModel::PosInt(x), JModel::PosInt(y)) => x == y,
        (JModel::NegInt(x), JModel::NegInt(y)) => x == y,
        (JModel::Float(x, _), JModel::Float(y, _)) => float_bits_eq(x, y),
        (JModel::Str(x), JModel::Str(y)) => x == y,
        (JModel::Array(xs), JModel::Array(ys)) => xs.len() == ys.len() && forall|i: int|
            0 <= i < xs.len() ==> jeq(#[trigger] xs[i], ys[i]),
        (JModel::Object(xs), JModel::Object(ys)) => xs.len() == ys.len() && forall|i: int|
            0 <= i < xs.len() ==> match jget(ys, (#[trigger] xs[i]).0) {
                Some(y) => jeq(xs[i].1, y),
                None => false,
            },
        _ => false,
    }
}

/// Object keys are unique at every level.
pub open spec fn jwf(v: JModel) -> bool
    decreases v,
{
    match v {
        JModel::Array(xs) => forall|i: int| 0 <= i < xs.len() ==> jwf(#[trigger] xs[i]),
        JModel::Object(xs) => (forall|i: int, j: int|
            0 <= i < j < xs.len() ==> (#[trigger] xs[i]).0 != (#[trigger] xs[j]).0) && forall|
            i: int,
        |
            0 <= i < xs.len() ==> jwf((#[trigger] xs[i]).1),
        _ => true,
    }
}

/// Optional values are equal when both are absent or both present and equal.
pub open spec fn opt_jeq(a: Option<JModel>, b: Option<JModel>) -> bool {
    match (a, b) {
        (None, None) => true,
        (Some(x), Some(y)) => jeq(x, y),
        _ => false,
    }
}

// ---------------------------------------------------------------------------
// Printing
// ---------------------------------------------------------------------------

pub open spec fn hex_digit(d: nat) -> char {
    if d < 10 {
        (('0' as u32) + d) as char
    } else {
        (('a' as u32) + d - 10) as char
    }
}

/// JSON escaping of one character of a string.
pub open spec fn escape_char(c: char) -> Seq<char> {
    if c == '"' {
        "\\\""@
    } else if c == '\\' {
        "\\\\"@
    } else if c == '\n' {
        "\\n"@
    } else if c == '\r' {
        "\\r"@
    } else if c == '\t' {
        "\\t"@
    } else if c == '\u{8}' {
        "\\b"@
    } else if c == '\u{c}' {
        "\\f"@
    } else if (c as u32) < 0x20 {
        "\\u00"@ + seq![hex_digit((c as u32 / 16) as nat), hex_digit((c as u32 % 16) as nat)]
    } else {
        seq![c]
    }
}

pub open spec fn escape(s: Seq<char>) -> Seq<char>
    decreases s.len(),
{
    if s.len() == 0 {
        seq![]
    } else {
        escape(s.drop_last()) + escape_char(s.last())
    }
}

/// The compact JSON text of a value.
pub open spec fn jtext(v: JModel) -> Seq<char>
    decreases v, 2int,
{
    match v {
        JModel::Null => "null"@,
        JModel::Bool(b) => if b {
            "true"@
        } else {
            "false"@
        },
        JModel::PosInt(n) => decimal(n),
        JModel::NegInt(n) => "-"@ + decimal(
            (if n < 0 {
                -n
            } else {
                n
            }) as nat,
        ),
        JModel::Float(_, t) => t,
        JModel::Str(s) => "\""@ + escape(s) + "\""@,
        JModel::Array(xs) => "["@ + jtexts(xs, 0) + "]"@,
        JModel::Object(xs) => "{"@ + jtext_entries(xs, 0) + "}"@,
    }
}

/// The texts of `xs[i..]`, separated by commas.
pub open spec fn jtexts(xs: Seq<JModel>, i: int) -> Seq<char>
    decreases xs, 1int, xs.len() - i,
{
    if i < 0 || i >= xs.len() {
        seq![]
    } else {
        (if i > 0 {
            ","@
        } else {
            seq![]
        }) + jtext(xs[i]) + jtexts(xs, i + 1)
    }
}

/// The texts of the entries `xs[i..]` (`"key":value`), separated by commas.
pub open spec fn jtext_entries(xs: Seq<(Seq<char>, JModel)>, i: int) -> Seq<char>
    decreases xs, 1int, xs.len() - i,
{
    if i < 0 || i >= xs.len() {
        seq![]
    } else {
        (if i > 0 {
            ","@
        } else {
            seq![]
        }) + "\""@ + escape(xs[i].0) + "\":"@ + jtext(xs[i].1) + jtext_entries(xs, i + 1)
    }
}


// ---------------------------------------------------------------------------
// Comparing and printing
// ---------------------------------------------------------------------------

pub proof fn lemma_jget_at(es: Seq<(Seq<char>, JModel)>, i: int, k: Seq<char>)
    requires
        0 <= i < es.len(),
        es[i].0 == k,
        forall|j: int| 0 <= j < i ==> (#[trigger] es[j]).0 != k,
    ensures
        jget(es, k) == Some(es[i].1),
    decreases i,
{
    if i > 0 {
        let t = es.drop_first();
        assert forall|j: int| 0 <= j < i - 1 implies (#[trigger] t[j]).0 != k by {
            assert(t[j] == es[j + 1]);
        }
        lemma_jget_at(t, i - 1, k);
    }
}

pub proof fn lemma_jget_absent(es: Seq<(Seq<char>, JModel)>, k: Seq<char>)
    requires
        forall|j: int| 0 <= j < es.len() ==> (#[trigger] es[j]).0 != k,
    ensures
        jget(es, k) is None,
    decreases es.len(),
{
    if es.len() > 0 {
        let t = es.drop_first();
        assert forall|j: int| 0 <= j < t.len() implies (#[trigger] t[j]).0 != k by {
            assert(t[j] == es[j + 1]);
        }
        lemma_jget_absent(t, k);
    }
}

/// Position of the first entry of `es` with key `k`.
pub fn find_key(es: &Vec<(String, JsonValue)>, k: &String) -> (r: Option<usize>)
    ensures
        match r {
            Some(i) => i < es.len() && es@[i as int].0@ == k@ && jget(jentries(es@), k@) == Some(
                jm(es@[i as int].1),
            ) && forall|j: int| 0 <= j < i ==> (#[trigger] es@[j]).0@ != k@,
            None => jget(jentries(es@), k@) is None,
        },
{
    proof {
        lemma_jentries_len(es@);
    }
    let mut i: usize = 0;
    while i < es.len()
        invariant
            i <= es.len(),
            jentries(es@).len() == es.len(),
            forall|j: int| 0 <= j < es.len() ==> #[trigger] jentries(es@)[j] == (es@[j].0@, jm(es@[j].1)),
            forall|j: int| 0 <= j < i ==> (#[trigger] es@[j]).0@ != k@,
        decreases es.len() - i,
    {
        if crate::text::string_eq(&es[i].0, k) {
            proof {
                let xs = jentries(es@);
                assert forall|j: int| 0 <= j < i implies (#[trigger] xs[j]).0 != k@ by {
                    assert(xs[j] == (es@[j].0@, jm(es@[j].1)));
                }
                lemma_jget_at(xs, i as int, k@);
            }
            return Some(i);
        }
        i += 1;
    }
    proof {
        let xs = jentries(es@);
        assert forall|j: int| 0 <= j < xs.len() implies (#[trigger] xs[j]).0 != k@ by {
            assert(xs[j] == (es@[j].0@, jm(es@[j].1)));
        }
        lemma_jget_absent(xs, k@);
    }
    None
}

/// JSON equality of two values (`jeq`).
pub fn json_eq(a: &JsonValue, b: &JsonValue) -> (r: bool)
    ensures
        r == jeq(jm(*a), jm(*b)),
    decreases a,
{
    match (a, b) {
        (JsonValue::Null, JsonValue::Null) => true,
        (JsonValue::Bool(x), JsonValue::Bool(y)) => *x == *y,
        (JsonValue::Number(x), JsonValue::Number(y)) => match (x, y) {
            (JsonNumber::PosInt(p), JsonNumber::PosInt(q)) => *p == *q,
            (JsonNumber::NegInt(p), JsonNumber::NegInt(q)) => *p == *q,
            (JsonNumber::Float { bits: p, .. }, JsonNumber::Float { bits: q, .. }) => {
                *p == *q || ((*p == 0 || *p == 0x8000_0000_0000_0000) && (*q == 0 || *q
                    == 0x8000_0000_0000_0000))
            },
            _ => false,
        },
        (JsonValue::Str(x), JsonValue::Str(y)) => crate::text::string_eq(x, y),
        (JsonValue::Array(xs), JsonValue::Array(ys)) => {
            proof {
                lemma_jms_len(xs@);
                lemma_jms_len(ys@);
            }
            proof {
                assert(jm(*a) == JModel::Array(jms(xs@)));
                assert(jm(*b) == JModel::Array(jms(ys@)));
            }
            if xs.len() != ys.len() {
                return false;
            }
            let mut i: usize = 0;
            while i < xs.len()
                invariant
                    *a == JsonValue::Array(*xs),
                    *b == JsonValue::Array(*ys),
                    i <= xs.len(),
                    xs.len() == ys.len(),
                    jms(xs@).len() == xs.len(),
                    jms(ys@).len() == ys.len(),
                    forall|j: int| 0 <= j < xs.len() ==> #[trigger] jms(xs@)[j] == jm(xs@[j]),
                    forall|j: int| 0 <= j < ys.len() ==> #[trigger] jms(ys@)[j] == jm(ys@[j]),
                    forall|j: int| 0 <= j < i ==> jeq(#[trigger] jms(xs@)[j], jms(ys@)[j]),
                decreases xs.len() - i,
            {
                proof {
                    assert(decreases_to!(*a => xs@[i as int]));
                }
                if !json_eq(&xs[i], &ys[i]) {
                    proof {
                        assert(jms(xs@)[i as int] == jm(xs@[i as int]));
                        assert(jms(ys@)[i as int] == jm(ys@[i as int]));
                        assert(jm(*a) == JModel::Array(jms(xs@)));
                        assert(jm(*b) == JModel::Array(jms(ys@)));
                        assert(!jeq(jms(xs@)[i as int], jms(ys@)[i as int]));
                    }
                    return false;
                }
                i += 1;
            }
            true
        },
        (JsonValue::Object(xs), JsonValue::Object(ys)) => {
            proof {
                lemma_jentries_len(xs@);
                lemma_jentries_len(ys@);
            }
            let ghost xm = jentries(xs@);
            let ghost ym = jentries(ys@);
            proof {
                assert(jm(*a) == JModel::Object(xm));
                assert(jm(*b) == JModel::Object(ym));
            }
            if xs.len() != ys.len() {
                return false;
            }
            let mut i: usize = 0;
            while i < xs.len()
                invariant
                    *a == JsonValue::Object(*xs),
                    *b == JsonValue::Object(*ys),
                    jm(*a) == JModel::Object(xm),
                    jm(*b) == JModel::Object(ym),
                    i <= xs.len(),
                    xs.len() == ys.len(),
                    xm == jentries(xs@),
                    ym == jentries(ys@),
                    xm.len() == xs.len(),
                    forall|j: int| 0 <= j < xs.len() ==> #[trigger] xm[j] == (xs@[j].0@, jm(xs@[j].1)),
                    forall|j: int|
                        0 <= j < i ==> match jget(ym, (#[trigger] xm[j]).0) {
                            Some(y) => jeq(xm[j].1, y),
                            None => false,
                        },
                decreases xs.len() - i,
            {
                proof {
                    assert(xm[i as int] == (xs@[i as int].0@, jm(xs@[i as int].1)));
                }
                proof {
                    assert(decreases_to!(*a => xs@[i as int].1));
                }
                match find_key(ys, &xs[i].0) {
                    None => {
                        proof {
                            assert(jget(ym, xm[i as int].0) is None);
                        }
                        return false;
                    },
                    Some(k) => {
                        if !json_eq(&xs[i].1, &ys[k].1) {
                            proof {
                                assert(jget(ym, xm[i as int].0) == Some(jm(ys@[k as int].1)));
                            }
                            return false;
                        }
                    },
                }
                i += 1;
            }
            true
        },
        _ => false,
    }
}

/// `hex_digit(d)` for a digit below 16.
fn hex_digit_exec(d: u32) -> (r: char)
    requires
        d < 16,
    ensures
        r == hex_digit(d as nat),
{
    if d < 10 {
        proof {
            assert((('0' as u32) + d) as char as u32 == 48 + d);
        }
        char_from_u32(48 + d)
    } else {
        char_from_u32(97 + d - 10)
    }
}

/// The character with code `u`, for `u` in the printable ASCII range.
fn char_from_u32(u: u32) -> (r: char)
    requires
        48 <= u <= 102,
    ensures
        r as u32 == u,
        r == u as char,
{
    let c = (u as u8) as char;
    proof {
        assert(c as u32 == u);
    }
    c
}

/// Appends the JSON escaping of `s` to `out`.
pub fn append_escaped(out: &mut String, s: &String)
    ensures
        final(out)@ == old(out)@ + escape(s@),
{
    let cs = crate::text::chars_of(s.as_str());
    let mut i: usize = 0;
    proof {
        assert(cs@.take(0) =~= Seq::<char>::empty());
        assert(old(out)@ + escape(Seq::<char>::empty()) =~= old(out)@);
    }
    while i < cs.len()
        invariant
            i <= cs.len(),
            cs@ == s@,
            out@ == old(out)@ + escape(cs@.take(i as int)),
        decreases cs.len() - i,
    {
        let c = cs[i];
        let ghost before = out@;
        if c == '"' {
            append_str(out, "\\\"");
        } else if c == '\\' {
            append_str(out, "\\\\");
        } else if c == '\n' {
            append_str(out, "\\n");
        } else if c == '\r' {
            append_str(out, "\\r");
        } else if c == '\t' {
            append_str(out, "\\t");
        } else if c == '\u{8}' {
            append_str(out, "\\b");
        } else if c == '\u{c}' {
            append_str(out, "\\f");
        } else if (c as u32) < 0x20 {
            append_str(out, "\\u00");
            let u = c as u32;
            push_char(out, hex_digit_exec(u / 16));
            push_char(out, hex_digit_exec(u % 16));
        } else {
            push_char(out, c);
        }
        proof {
            let t = cs@.take(i + 1);
            assert(t.drop_last() =~= cs@.take(i as int));
            assert(t.last() == c);
            assert(out@ =~= before + escape_char(c));
            assert(escape(t) == escape(cs@.take(i as int)) + escape_char(c));
            assert(out@ =~= old(out)@ + escape(t));
        }
        i += 1;
    }
    proof {
        assert(cs@.take(cs.len() as int) =~= cs@);
    }
}

/// Appends the compact JSON text of `v` to `out`.
pub fn append_json(out: &mut String, v: &JsonValue)
    ensures
        final(out)@ == old(out)@ + jtext(jm(*v)),
    decreases v,
{
    match v {
        JsonValue::Null => {
            proof {
                assert(jm(*v) == JModel::Null);
                assert(jtext(JModel::Null) == "null"@);
            }
            append_str(out, "null");
        },
        JsonValue::Bool(b) => if *b {
            append_str(out, "true")
        } else {
            append_str(out, "false")
        },
        JsonValue::Number(JsonNumber::PosInt(n)) => append_decimal(out, *n),
        JsonValue::Number(JsonNumber::NegInt(n)) => {
            append_str(out, "-");
            let m: u64 = if *n == i64::MIN {
                0x8000_0000_0000_0000u64
            } else if *n < 0 {
                (-*n) as u64
            } else {
                *n as u64
            };
            append_decimal(out, m);
            proof {
                let k: int = if *n < 0 {
                    -(*n as int)
                } else {
                    *n as int
                };
                assert(m as int == k);
                assert(out@ =~= old(out)@ + ("-"@ + decimal(k as nat)));
            }
        },
        JsonValue::Number(JsonNumber::Float { text, .. }) => append_string(out, text),
        JsonValue::Str(s) => {
            append_str(out, "\"");
            append_escaped(out, s);
            append_str(out, "\"");
            proof {
                assert(out@ =~= old(out)@ + ("\""@ + escape(s@) + "\""@));
            }
        },
        JsonValue::Array(xs) => {
            proof {
                lemma_jms_len(xs@);
            }
            let ghost ms = jms(xs@);
            append_str(out, "[");
            let ghost start = out@;
            let mut i: usize = 0;
            while i < xs.len()
                invariant
                    *v == JsonValue::Array(*xs),
                    i <= xs.len(),
                    ms == jms(xs@),
                    ms.len() == xs.len(),
                    forall|j: int| 0 <= j < xs.len() ==> #[trigger] ms[j] == jm(xs@[j]),
                    out@ + jtexts(ms, i as int) == start + jtexts(ms, 0),
                decreases xs.len() - i,
            {
                let ghost before = out@;
                if i > 0 {
                    append_str(out, ",");
                }
                proof {
                    lemma_item_smaller(*v, *xs, i as int);
                }
                append_json(out, &xs[i]);
                proof {
                    assert(ms[i as int] == jm(xs@[i as int]));
                    let sep: Seq<char> = if i > 0 {
                        ","@
                    } else {
                        seq![]
                    };
                    assert(out@ == before + sep + jtext(ms[i as int]));
                    assert(jtexts(ms, i as int) == sep + jtext(ms[i as int]) + jtexts(ms, i + 1));
                    assert(out@ + jtexts(ms, i + 1) =~= before + jtexts(ms, i as int));
                }
                i += 1;
            }
            proof {
                assert(jtexts(ms, xs.len() as int) == Seq::<char>::empty());
                assert(out@ =~= start + jtexts(ms, 0));
            }
            append_str(out, "]");
            proof {
                assert(jm(*v) == JModel::Array(ms));
                assert(out@ =~= old(out)@ + ("["@ + jtexts(ms, 0) + "]"@));
            }
        },
        JsonValue::Object(xs) => {
            proof {
                lemma_jentries_len(xs@);
            }
            let ghost ms = jentries(xs@);
            append_str(out, "{");
            let ghost start = out@;
            let mut i: usize = 0;
            while i < xs.len()
                invariant
                    *v == JsonValue::Object(*xs),
                    i <= xs.len(),
                    ms == jentries(xs@),
                    ms.len() == xs.len(),
                    forall|j: int| 0 <= j < xs.len() ==> #[trigger] ms[j] == (xs@[j].0@, jm(xs@[j].1)),
                    out@ + jtext_entries(ms, i as int) == start + jtext_entries(ms, 0),
                decreases xs.len() - i,
            {
                let ghost before = out@;
                if i > 0 {
                    append_str(out, ",");
                }
                append_str(out, "\"");
                append_escaped(out, &xs[i].0);
                append_str(out, "\":");
                proof {
                    lemma_entry_smaller(*v, *xs, i as int);
                }
                append_json(out, &xs[i].1);
                proof {
                    assert(ms[i as int] == (xs@[i as int].0@, jm(xs@[i as int].1)));
                    let sep: Seq<char> = if i > 0 {
                        ","@
                    } else {
                        seq![]
                    };
                    assert(out@ =~= before + (sep + "\""@ + escape(ms[i as int].0) + "\":"@ + jtext(
                        ms[i as int].1,
                    )));
                    assert(out@ + jtext_entries(ms, i + 1) =~= before + jtext_entries(ms, i as int));
                }
                i += 1;
            }
            proof {
                assert(jtext_entries(ms, xs.len() as int) == Seq::<char>::empty());
                assert(out@ =~= start + jtext_entries(ms, 0));
            }
            append_str(out, "}");
            proof {
                assert(jm(*v) == JModel::Object(ms));
                assert(out@ =~= old(out)@ + ("{"@ + jtext_entries(ms, 0) + "}"@));
            }
        },
    }
}

/// An item of an array value is smaller than the array.
pub proof fn lemma_item_smaller(v: JsonValue, xs: Vec<JsonValue>, i: int)
    requires
        v == JsonValue::Array(xs),
        0 <= i < xs@.len(),
    ensures
        decreases_to!(v => xs@[i]),
{
    assert(v->Array_0 == xs);
    assert(decreases_to!(v => v->Array_0));
    assert(decreases_to!(xs => xs@));
    assert(decreases_to!(xs@ => xs@[i]));
}

/// A value of an object entry is smaller than the object.
pub proof fn lemma_entry_smaller(v: JsonValue, xs: Vec<(String, JsonValue)>, i: int)
    requires
        v == JsonValue::Object(xs),
        0 <= i < xs@.len(),
    ensures
        decreases_to!(v => xs@[i].1),
{
    assert(v->Object_0 == xs);
    assert(decreases_to!(v => v->Object_0));
    assert(decreases_to!(xs => xs@));
    assert(decreases_to!(xs@ => xs@[i]));
    assert(decreases_to!(xs@[i] => xs@[i].1));
}


/// A copy of `v`.
pub fn json_copy(v: &JsonValue) -> (r: JsonValue)
    ensures
        jm(r) == jm(*v),
    decreases v,
{
    match v {
        JsonValue::Null => JsonValue::Null,
        JsonValue::Bool(b) => JsonValue::Bool(*b),
        JsonValue::Number(JsonNumber::PosInt(n)) => JsonValue::Number(JsonNumber::PosInt(*n)),
        JsonValue::Number(JsonNumber::NegInt(n)) => JsonValue::Number(JsonNumber::NegInt(*n)),
        JsonValue::Number(JsonNumber::Float { bits, text }) => JsonValue::Number(
            JsonNumber::Float { bits: *bits, text: text.clone() },
        ),
        JsonValue::Str(s) => JsonValue::Str(s.clone()),
        JsonValue::Array(xs) => {
            let mut out: Vec<JsonValue> = Vec::new();
            let mut i: usize = 0;
            proof {
                lemma_jms_len(xs@);
            }
            while i < xs.len()
                invariant
                    *v == JsonValue::Array(*xs),
                    i <= xs.len(),
                    out.len() == i,
                    jms(xs@).len() == xs.len(),
                    forall|j: int| 0 <= j < xs.len() ==> #[trigger] jms(xs@)[j] == jm(xs@[j]),
                    forall|j: int| 0 <= j < i ==> jm(#[trigger] out@[j]) == jm(xs@[j]),
                decreases xs.len() - i,
            {
                proof {
                    lemma_item_smaller(*v, *xs, i as int);
                }
                let c = json_copy(&xs[i]);
                out.push(c);
                i += 1;
            }
            proof {
                lemma_jms_len(out@);
                assert(jms(out@) =~= jms(xs@));
            }
            JsonValue::Array(out)
        },
        JsonValue::Object(xs) => {
            let mut out: Vec<(String, JsonValue)> = Vec::new();
            let mut i: usize = 0;
            proof {
                lemma_jentries_len(xs@);
            }
            while i < xs.len()
                invariant
                    *v == JsonValue::Object(*xs),
                    i <= xs.len(),
                    out.len() == i,
                    jentries(xs@).len() == xs.len(),
                    forall|j: int|
                        0 <= j < xs.len() ==> #[trigger] jentries(xs@)[j] == (xs@[j].0@, jm(xs@[j].1)),
                    forall|j: int|
                        0 <= j < i ==> (#[trigger] out@[j]).0@ == xs@[j].0@ && jm(out@[j].1) == jm(
                            xs@[j].1,
                        ),
                decreases xs.len() - i,
            {
                proof {
                    lemma_entry_smaller(*v, *xs, i as int);
                }
                let c = json_copy(&xs[i].1);
                out.push((xs[i].0.clone(), c));
                i += 1;
            }
            proof {
                lemma_jentries_len(out@);
                assert(jentries(out@) =~= jentries(xs@));
            }
            JsonValue::Object(out)
        },
    }
}

/// The value stored under `key` in the object entries `data`.
pub fn map_get<'a>(data: &'a Vec<(String, JsonValue)>, key: &String) -> (r: Option<&'a JsonValue>)
    ensures
        match r {
            Some(v) => jget(jentries(data@), key@) == Some(jm(*v)),
            None => jget(jentries(data@), key@) is None,
        },
{
    match find_key(data, key) {
        Some(i) => Some(&data[i].1),
        None => None,
    }
}

/// Optional values by their models.
pub open spec fn opt_jm(v: Option<&JsonValue>) -> Option<JModel> {
    match v {
        Some(x) => Some(jm(*x)),
        None => None,
    }
}

/// `opt_jeq` of two optional values.
pub fn opt_json_eq(a: Option<&JsonValue>, b: Option<&JsonValue>) -> (r: bool)
    ensures
        r == opt_jeq(opt_jm(a), opt_jm(b)),
{
    match (a, b) {
        (None, None) => true,
        (Some(x), Some(y)) => json_eq(x, y),
        _ => false,
    }
}

} // verus!
