//! Methods that handler code calls on values: `len`, `push`, `contains`,
//! `split`, `replace`, `keys` and the others, dispatched on the kind of the
//! value and the method's name.

use vstd::prelude::*;
use crate::text::{
    chars_of, eq_lit, find, find_from_exec, lemma_find_from, occurs_at_exec, slice_of, string_of,
    append_str, append_string, ends_with, starts_with, trim, trim_bounds, utf8_len, utf8_len_exec,
};
use crate::forms::json::{
    jentries, jeq, jm, jms, json_copy, json_eq, lemma_jentries_len, lemma_jms_len, JModel,
    JsonNumber, JsonValue,
};
use crate::forms::sanitize::{lowercase, to_lower, to_upper, uppercase};
use crate::runtime::error::RuntimeError;

verus! {

// ---------------------------------------------------------------------------
// Splitting and joining text
// ---------------------------------------------------------------------------

/// The one-character pieces of `s`.
pub open spec fn char_pieces(s: Seq<char>) -> Seq<Seq<char>> {
    s.map_values(|c: char| seq![c])
}

/// `str::split` with the pattern `p`: for a non-empty `p`, the pieces between
/// the occurrences of `p` found from left to right without overlap; for an
/// empty `p`, an empty piece, each character, and an empty piece.
pub open spec fn split_on(s: Seq<char>, p: Seq<char>) -> Seq<Seq<char>>
    decreases s.len(),
{
    if p.len() == 0 {
        seq![Seq::<char>::empty()] + char_pieces(s) + seq![Seq::<char>::empty()]
    } else {
        let k = find(s, p);
        if k < 0 {
            seq![s]
        } else {
            proof {
                lemma_find_from(s, p, 0);
            }
            seq![s.take(k)] + split_on(s.skip(k + p.len()), p)
        }
    }
}

/// The pieces joined with `sep` between each two.
pub open spec fn join_with(parts: Seq<Seq<char>>, sep: Seq<char>) -> Seq<char>
    decreases parts.len(),
{
    if parts.len() == 0 {
        Seq::empty()
    } else if parts.len() == 1 {
        parts[0]
    } else {
        join_with(parts.drop_last(), sep) + sep + parts.last()
    }
}

/// `str::replace`: every occurrence of `from` replaced by `to`, which is
/// the pieces around the occurrences joined with `to`.
pub open spec fn replace_all(s: Seq<char>, from: Seq<char>, to: Seq<char>) -> Seq<char> {
    join_with(split_on(s, from), to)
}

/// The texts of a sequence of strings.
pub open spec fn views(v: Seq<String>) -> Seq<Seq<char>> {
    v.map_values(|x: String| x@)
}

/// Texts as JSON strings.
pub open spec fn str_models(v: Seq<Seq<char>>) -> Seq<JModel> {
    v.map_values(|x: Seq<char>| JModel::Str(x))
}

/// The pieces of `s` around the occurrences of `p` (`str::split`).
fn split_exec(s: &Vec<char>, p: &Vec<char>) -> (r: Vec<String>)
    ensures
        views(r@) == split_on(s@, p@),
{
    let mut out: Vec<String> = Vec::new();
    if p.len() == 0 {
        out.push(String::new());
        let mut i: usize = 0;
        while i < s.len()
            invariant
                i <= s.len(),
                p@.len() == 0,
                views(out@) == seq![Seq::<char>::empty()] + char_pieces(s@.take(i as int)),
            decreases s.len() - i,
        {
            let piece = string_of(s, i, i + 1);
            proof {
                assert(piece@ =~= seq![s@[i as int]]);
                assert(views(out@.push(piece)) =~= views(out@).push(piece@));
                assert(char_pieces(s@.take(i + 1)) =~= char_pieces(s@.take(i as int)).push(
                    seq![s@[i as int]],
                ));
            }
            out.push(piece);
            i += 1;
        }
        let last = String::new();
        proof {
            assert(s@.take(s.len() as int) =~= s@);
            assert(views(out@.push(last)) =~= views(out@).push(last@));
            assert(last@ =~= Seq::<char>::empty());
        }
        out.push(last);
        proof {
            assert(views(out@) =~= split_on(s@, p@));
        }
        return out;
    }
    let mut rest: Vec<char> = slice_of(s, 0, s.len());
    proof {
        assert(rest@ =~= s@);
    }
    loop
        invariant
            p@.len() > 0,
            views(out@) + split_on(rest@, p@) == split_on(s@, p@),
        decreases rest.len(),
    {
        match find_from_exec(&rest, p, 0) {
            None => {
                let piece = string_of(&rest, 0, rest.len());
                proof {
                    assert(piece@ =~= rest@);
                    assert(views(out@.push(piece)) =~= views(out@) + split_on(rest@, p@));
                }
                out.push(piece);
                return out;
            },
            Some(k) => {
                proof {
                    lemma_find_from(rest@, p@, 0);
                }
                let piece = string_of(&rest, 0, k);
                let next = slice_of(&rest, k + p.len(), rest.len());
                proof {
                    assert(piece@ =~= rest@.take(k as int));
                    assert(next@ =~= rest@.skip(k + p@.len()));
                    assert(views(out@.push(piece)) =~= views(out@).push(piece@));
                    assert(split_on(rest@, p@) == seq![piece@] + split_on(next@, p@));
                    assert(views(out@).push(piece@) + split_on(next@, p@) =~= views(out@) + (
                    seq![piece@] + split_on(next@, p@)));
                }
                out.push(piece);
                rest = next;
            },
        }
    }
}

/// The pieces joined with `sep`.
fn join_exec(parts: &Vec<String>, sep: &String) -> (r: String)
    ensures
        r@ == join_with(views(parts@), sep@),
{
    let mut out = String::new();
    let ghost ps = views(parts@);
    let mut i: usize = 0;
    while i < parts.len()
        invariant
            i <= parts.len(),
            ps == views(parts@),
            ps.len() == parts.len(),
            out@ == join_with(ps.take(i as int), sep@),
        decreases parts.len() - i,
    {
        proof {
            assert(ps.take(i + 1).drop_last() =~= ps.take(i as int));
            assert(ps[i as int] == parts@[i as int]@);
        }
        if i > 0 {
            append_string(&mut out, sep);
        } else {
            proof {
                assert(out@ =~= Seq::<char>::empty());
            }
        }
        append_string(&mut out, &parts[i]);
        proof {
            if i == 0 {
                assert(out@ =~= ps.take(1)[0]);
            }
        }
        i += 1;
    }
    proof {
        assert(ps.take(parts.len() as int) =~= ps);
    }
    out
}

// ---------------------------------------------------------------------------
// What each method gives
// ---------------------------------------------------------------------------

/// What a method call gives: a value, or the absolute value of a number,
/// which floating-point arithmetic outside this library computes.
pub enum MethodResult {
    Value(JsonValue),
    AbsOf(JsonNumber),
}

/// A method call's result with its value as a model.
pub enum MethodModel {
    Value(JModel),
    AbsOf(JModel),
}

impl View for MethodResult {
    type V = MethodModel;

    open spec fn view(&self) -> MethodModel {
        match self {
            MethodResult::Value(v) => MethodModel::Value(jm(*v)),
            MethodResult::AbsOf(n) => MethodModel::AbsOf(jm(JsonValue::Number(*n))),
        }
    }
}

/// The name of a value's kind, as error messages give it.
pub open spec fn kind_name(v: JModel) -> Seq<char> {
    match v {
        JModel::Null => "null"@,
        JModel::Bool(_) => "bool"@,
        JModel::PosInt(_) | JModel::NegInt(_) | JModel::Float(_, _) => "number"@,
        JModel::Str(_) => "string"@,
        JModel::Array(_) => "array"@,
        JModel::Object(_) => "object"@,
    }
}

/// The message for a method that the value's kind does not have.
pub open spec fn unknown_method(method: Seq<char>, obj: JModel) -> Seq<char> {
    "unknown method '"@ + method + "' on \""@ + kind_name(obj) + "\""@
}

/// The `i`-th argument if it is a string, else `default`.
pub open spec fn str_arg(args: Seq<JModel>, i: int, default: Seq<char>) -> Seq<char> {
    if 0 <= i < args.len() {
        match args[i] {
            JModel::Str(s) => s,
            _ => default,
        }
    } else {
        default
    }
}

/// Whether some item equals `needle`.
pub open spec fn holds_item(xs: Seq<JModel>, needle: JModel) -> bool {
    exists|i: int| 0 <= i < xs.len() && jeq(#[trigger] xs[i], needle)
}

/// What the array methods give; `None` for a name arrays do not have.
pub open spec fn array_method(xs: Seq<JModel>, method: Seq<char>, args: Seq<JModel>) -> Option<JModel> {
    if method == "len"@ || method == "length"@ {
        Some(JModel::PosInt(xs.len()))
    } else if method == "push"@ {
        Some(JModel::Array(xs + args))
    } else if method == "filter"@ || method == "map"@ {
        Some(JModel::Array(xs))
    } else if method == "contains"@ || method == "includes"@ {
        let needle = if args.len() > 0 { args[0] } else { JModel::Null };
        Some(JModel::Bool(holds_item(xs, needle)))
    } else if method == "is_empty"@ || method == "isEmpty"@ {
        Some(JModel::Bool(xs.len() == 0))
    } else {
        None
    }
}

/// What the string methods give; `None` for a name strings do not have.
/// Lengths count UTF-8 bytes; a missing or non-string argument stands for
/// the empty text (`,` for `split`'s separator).
pub open spec fn string_method(s: Seq<char>, method: Seq<char>, args: Seq<JModel>) -> Option<JModel> {
    if method == "len"@ || method == "length"@ {
        Some(JModel::PosInt(utf8_len(s)))
    } else if method == "to_lowercase"@ || method == "toLowerCase"@ {
        Some(JModel::Str(lowercase(s)))
    } else if method == "to_uppercase"@ || method == "toUpperCase"@ {
        Some(JModel::Str(uppercase(s)))
    } else if method == "trim"@ {
        Some(JModel::Str(trim(s)))
    } else if method == "contains"@ || method == "includes"@ {
        Some(JModel::Bool(find(s, str_arg(args, 0, ""@)) >= 0))
    } else if method == "starts_with"@ || method == "startsWith"@ {
        Some(JModel::Bool(starts_with(s, str_arg(args, 0, ""@))))
    } else if method == "ends_with"@ || method == "endsWith"@ {
        Some(JModel::Bool(ends_with(s, str_arg(args, 0, ""@))))
    } else if method == "split"@ {
        Some(JModel::Array(str_models(split_on(s, str_arg(args, 0, ","@)))))
    } else if method == "replace"@ {
        Some(JModel::Str(replace_all(s, str_arg(args, 0, ""@), str_arg(args, 1, ""@))))
    } else if method == "is_empty"@ || method == "isEmpty"@ {
        Some(JModel::Bool(s.len() == 0))
    } else {
        None
    }
}

/// The keys of object entries, in order, as JSON strings.
pub open spec fn entry_keys(es: Seq<(Seq<char>, JModel)>) -> Seq<JModel> {
    es.map_values(|e: (Seq<char>, JModel)| JModel::Str(e.0))
}

/// The values of object entries, in order.
pub open spec fn entry_values(es: Seq<(Seq<char>, JModel)>) -> Seq<JModel> {
    es.map_values(|e: (Seq<char>, JModel)| e.1)
}

/// What the object methods give; `None` for a name objects do not have.
pub open spec fn object_method(es: Seq<(Seq<char>, JModel)>, method: Seq<char>) -> Option<JModel> {
    if method == "keys"@ {
        Some(JModel::Array(entry_keys(es)))
    } else if method == "values"@ {
        Some(JModel::Array(entry_values(es)))
    } else {
        None
    }
}

/// What calling `method` with `args` on `obj` gives, or the error message.
pub open spec fn method_spec(obj: JModel, method: Seq<char>, args: Seq<JModel>) -> Result<
    MethodModel,
    Seq<char>,
> {
    let found = match obj {
        JModel::Array(xs) => match array_method(xs, method, args) {
            Some(v) => Some(MethodModel::Value(v)),
            None => None,
        },
        JModel::Str(s) => match string_method(s, method, args) {
            Some(v) => Some(MethodModel::Value(v)),
            None => None,
        },
        JModel::Object(es) => match object_method(es, method) {
            Some(v) => Some(MethodModel::Value(v)),
            None => None,
        },
        JModel::PosInt(_) | JModel::NegInt(_) | JModel::Float(_, _) => if method == "abs"@ {
            Some(MethodModel::AbsOf(obj))
        } else {
            None
        },
        _ => None,
    };
    match found {
        Some(m) => Ok(m),
        None => Err(unknown_method(method, obj)),
    }
}

/// The byte length of a string value fits in `isize`, as that of every Rust
/// string does.
pub open spec fn byte_len_fits(obj: JModel) -> bool {
    obj matches JModel::Str(s) ==> utf8_len(s) <= 0x7fff_ffff_ffff_ffff
}

// ---------------------------------------------------------------------------
// Calling a method
// ---------------------------------------------------------------------------

/// The characters of the `i`-th argument if it is a string, else of
/// `default`.
fn str_arg_exec(args: &Vec<JsonValue>, i: usize, default: &str) -> (r: Vec<char>)
    ensures
        r@ == str_arg(jms(args@), i as int, default@),
{
    proof {
        lemma_jms_len(args@);
    }
    if i < args.len() {
        match &args[i] {
            JsonValue::Str(s) => chars_of(s.as_str()),
            _ => chars_of(default),
        }
    } else {
        chars_of(default)
    }
}

/// Copies of the items of `xs`.
fn copy_all(xs: &Vec<JsonValue>) -> (r: Vec<JsonValue>)
    ensures
        jms(r@) == jms(xs@),
{
    let mut out: Vec<JsonValue> = Vec::new();
    let mut i: usize = 0;
    while i < xs.len()
        invariant
            i <= xs.len(),
            out.len() == i,
            forall|j: int| 0 <= j < i ==> jm(#[trigger] out@[j]) == jm(xs@[j]),
        decreases xs.len() - i,
    {
        out.push(json_copy(&xs[i]));
        i += 1;
    }
    proof {
        lemma_jms_len(out@);
        lemma_jms_len(xs@);
        assert(jms(out@) =~= jms(xs@));
    }
    out
}

/// A copy of a number.
fn copy_number(n: &JsonNumber) -> (r: JsonNumber)
    ensures
        jm(JsonValue::Number(r)) == jm(JsonValue::Number(*n)),
{
    match n {
        JsonNumber::PosInt(v) => JsonNumber::PosInt(*v),
        JsonNumber::NegInt(v) => JsonNumber::NegInt(*v),
        JsonNumber::Float { bits, text } => JsonNumber::Float { bits: *bits, text: text.clone() },
    }
}

fn call_array_method(xs: &Vec<JsonValue>, m: &Vec<char>, args: &Vec<JsonValue>) -> (r: Option<
    JsonValue,
>)
    ensures
        match array_method(jms(xs@), m@, jms(args@)) {
            Some(v) => (r matches Some(x) && jm(x) == v),
            None => r is None,
        },
{
    proof {
        lemma_jms_len(xs@);
        lemma_jms_len(args@);
    }
    if eq_lit(m, "len") || eq_lit(m, "length") {
        Some(JsonValue::Number(JsonNumber::PosInt(xs.len() as u64)))
    } else if eq_lit(m, "push") {
        let mut out = copy_all(xs);
        proof {
            lemma_jms_len(out@);
        }
        let mut k: usize = 0;
        while k < args.len()
            invariant
                k <= args.len(),
                out.len() == xs.len() + k,
                jms(xs@).len() == xs.len(),
                forall|j: int| 0 <= j < xs.len() ==> jm(#[trigger] out@[j]) == jms(xs@)[j],
                forall|j: int|
                    xs.len() <= j < out.len() ==> jm(#[trigger] out@[j]) == jm(args@[j - xs.len()]),
            decreases args.len() - k,
        {
            out.push(json_copy(&args[k]));
            k += 1;
        }
        proof {
            lemma_jms_len(out@);
            assert(jms(out@) =~= jms(xs@) + jms(args@));
        }
        Some(JsonValue::Array(out))
    } else if eq_lit(m, "filter") || eq_lit(m, "map") {
        Some(JsonValue::Array(copy_all(xs)))
    } else if eq_lit(m, "contains") || eq_lit(m, "includes") {
        let null = JsonValue::Null;
        let needle: &JsonValue = if args.len() > 0 {
            &args[0]
        } else {
            &null
        };
        proof {
            assert(jm(*needle) == (if args.len() > 0 {
                jms(args@)[0]
            } else {
                JModel::Null
            }));
        }
        let mut i: usize = 0;
        while i < xs.len()
            invariant
                i <= xs.len(),
                jms(xs@).len() == xs.len(),
                forall|j: int| 0 <= j < xs.len() ==> #[trigger] jms(xs@)[j] == jm(xs@[j]),
                forall|j: int| 0 <= j < i ==> !jeq(#[trigger] jms(xs@)[j], jm(*needle)),
                array_method(jms(xs@), m@, jms(args@)) == Some(
                    JModel::Bool(holds_item(jms(xs@), jm(*needle))),
                ),
            decreases xs.len() - i,
        {
            if json_eq(&xs[i], needle) {
                proof {
                    assert(jeq(jms(xs@)[i as int], jm(*needle)));
                }
                return Some(JsonValue::Bool(true));
            }
            i += 1;
        }
        Some(JsonValue::Bool(false))
    } else if eq_lit(m, "is_empty") || eq_lit(m, "isEmpty") {
        Some(JsonValue::Bool(xs.len() == 0))
    } else {
        None
    }
}

/// The pieces of `s` around `p` as JSON strings.
fn split_values(s: &Vec<char>, p: &Vec<char>) -> (r: Vec<JsonValue>)
    ensures
        jms(r@) == str_models(split_on(s@, p@)),
{
    let parts = split_exec(s, p);
    let mut out: Vec<JsonValue> = Vec::new();
    let mut i: usize = 0;
    while i < parts.len()
        invariant
            i <= parts.len(),
            out.len() == i,
            forall|j: int| 0 <= j < i ==> jm(#[trigger] out@[j]) == JModel::Str(parts@[j]@),
        decreases parts.len() - i,
    {
        out.push(JsonValue::Str(parts[i].clone()));
        i += 1;
    }
    proof {
        lemma_jms_len(out@);
        assert(jms(out@) =~= str_models(views(parts@)));
    }
    out
}

fn call_string_method(s: &String, m: &Vec<char>, args: &Vec<JsonValue>) -> (r: Option<JsonValue>)
    requires
        utf8_len(s@) <= 0x7fff_ffff_ffff_ffff,
    ensures
        match string_method(s@, m@, jms(args@)) {
            Some(v) => (r matches Some(x) && jm(x) == v),
            None => r is None,
        },
{
    let cs = chars_of(s.as_str());
    if eq_lit(m, "len") || eq_lit(m, "length") {
        let n = utf8_len_exec(s.as_str());
        Some(JsonValue::Number(JsonNumber::PosInt(n as u64)))
    } else if eq_lit(m, "to_lowercase") || eq_lit(m, "toLowerCase") {
        Some(JsonValue::Str(to_lower(s.as_str())))
    } else if eq_lit(m, "to_uppercase") || eq_lit(m, "toUpperCase") {
        Some(JsonValue::Str(to_upper(s.as_str())))
    } else if eq_lit(m, "trim") {
        let (a, b) = trim_bounds(&cs, 0, cs.len());
        proof {
            assert(cs@.subrange(0, cs.len() as int) =~= cs@);
        }
        Some(JsonValue::Str(string_of(&cs, a, b)))
    } else if eq_lit(m, "contains") || eq_lit(m, "includes") {
        let p = str_arg_exec(args, 0, "");
        proof {
            lemma_find_from(cs@, p@, 0);
        }
        let found = match find_from_exec(&cs, &p, 0) {
            Some(_) => true,
            None => false,
        };
        Some(JsonValue::Bool(found))
    } else if eq_lit(m, "starts_with") || eq_lit(m, "startsWith") {
        let p = str_arg_exec(args, 0, "");
        Some(JsonValue::Bool(occurs_at_exec(&cs, 0, &p)))
    } else if eq_lit(m, "ends_with") || eq_lit(m, "endsWith") {
        let p = str_arg_exec(args, 0, "");
        let b = if p.len() <= cs.len() {
            occurs_at_exec(&cs, cs.len() - p.len(), &p)
        } else {
            false
        };
        Some(JsonValue::Bool(b))
    } else if eq_lit(m, "split") {
        let p = str_arg_exec(args, 0, ",");
        Some(JsonValue::Array(split_values(&cs, &p)))
    } else if eq_lit(m, "replace") {
        let from = str_arg_exec(args, 0, "");
        let to = str_arg_exec(args, 1, "");
        let parts = split_exec(&cs, &from);
        let sep = string_of(&to, 0, to.len());
        proof {
            assert(sep@ =~= to@);
        }
        Some(JsonValue::Str(join_exec(&parts, &sep)))
    } else if eq_lit(m, "is_empty") || eq_lit(m, "isEmpty") {
        Some(JsonValue::Bool(cs.len() == 0))
    } else {
        None
    }
}

fn call_object_method(es: &Vec<(String, JsonValue)>, m: &Vec<char>) -> (r: Option<JsonValue>)
    ensures
        match object_method(jentries(es@), m@) {
            Some(v) => (r matches Some(x) && jm(x) == v),
            None => r is None,
        },
{
    proof {
        lemma_jentries_len(es@);
    }
    if eq_lit(m, "keys") {
        let mut out: Vec<JsonValue> = Vec::new();
        let mut i: usize = 0;
        while i < es.len()
            invariant
                i <= es.len(),
                out.len() == i,
                forall|j: int| 0 <= j < i ==> jm(#[trigger] out@[j]) == JModel::Str(es@[j].0@),
            decreases es.len() - i,
        {
            out.push(JsonValue::Str(es[i].0.clone()));
            i += 1;
        }
        proof {
            lemma_jms_len(out@);
            assert(jms(out@) =~= entry_keys(jentries(es@)));
        }
        Some(JsonValue::Array(out))
    } else if eq_lit(m, "values") {
        let mut out: Vec<JsonValue> = Vec::new();
        let mut i: usize = 0;
        while i < es.len()
            invariant
                i <= es.len(),
                out.len() == i,
                forall|j: int| 0 <= j < i ==> jm(#[trigger] out@[j]) == jm(es@[j].1),
            decreases es.len() - i,
        {
            out.push(json_copy(&es[i].1));
            i += 1;
        }
        proof {
            lemma_jms_len(out@);
            assert(jms(out@) =~= entry_values(jentries(es@)));
        }
        Some(JsonValue::Array(out))
    } else {
        None
    }
}

/// The message for a method that `obj`'s kind does not have.
fn unknown_method_text(obj: &JsonValue, method: &str) -> (r: String)
    ensures
        r@ == unknown_method(method@, jm(*obj)),
{
    let mut s = String::new();
    append_str(&mut s, "unknown method '");
    append_str(&mut s, method);
    append_str(&mut s, "' on \"");
    match obj {
        JsonValue::Null => append_str(&mut s, "null"),
        JsonValue::Bool(_) => append_str(&mut s, "bool"),
        JsonValue::Number(_) => append_str(&mut s, "number"),
        JsonValue::Str(_) => append_str(&mut s, "string"),
        JsonValue::Array(_) => append_str(&mut s, "array"),
        JsonValue::Object(_) => append_str(&mut s, "object"),
    }
    append_str(&mut s, "\"");
    proof {
        assert(s@ =~= unknown_method(method@, jm(*obj)));
    }
    s
}

/// Calls `method` with `args` on `obj`: array, string and object methods
/// give a value; `abs` on a number hands the number back for the
/// floating-point step; any other method is an internal error that names
/// the method and the value's kind.
pub fn call_method(obj: &JsonValue, method: &str, args: &Vec<JsonValue>) -> (r: Result<
    MethodResult,
    RuntimeError,
>)
    requires
        byte_len_fits(jm(*obj)),
    ensures
        match method_spec(jm(*obj), method@, jms(args@)) {
            Ok(m) => (r matches Ok(x) && x@ == m),
            Err(msg) => (r matches Err(RuntimeError::Internal(s)) && s@ == msg),
        },
{
    let m = chars_of(method);
    let found: Option<MethodResult> = match obj {
        JsonValue::Array(xs) => match call_array_method(xs, &m, args) {
            Some(v) => Some(MethodResult::Value(v)),
            None => None,
        },
        JsonValue::Str(s) => match call_string_method(s, &m, args) {
            Some(v) => Some(MethodResult::Value(v)),
            None => None,
        },
        JsonValue::Object(es) => match call_object_method(es, &m) {
            Some(v) => Some(MethodResult::Value(v)),
            None => None,
        },
        JsonValue::Number(n) => if eq_lit(&m, "abs") {
            Some(MethodResult::AbsOf(copy_number(n)))
        } else {
            None
        },
        _ => None,
    };
    match found {
        Some(x) => Ok(x),
        None => Err(RuntimeError::Internal(unknown_method_text(obj, method))),
    }
}

} // verus!
