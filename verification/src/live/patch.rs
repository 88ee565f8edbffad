//! The text a patch carries for a dynamic segment: a dotted path looked up in
//! the session's state.

use vstd::prelude::*;
use crate::text::{
    append_string, chars_of, find_char, find_char_from, lemma_find_char, lemma_find_char_char, starts_with,
    string_of,
};
use crate::forms::json::{append_json, jentries, jget, jm, jtext, map_get, JModel, JsonValue};
use crate::runtime::state::StateStore;
use crate::scheduler::trigger::{contains, listed};

verus! {

/// The member `key` of an object value; nothing for any other value.
pub open spec fn member(v: Option<JModel>, key: Seq<char>) -> Option<JModel> {
    match v {
        Some(JModel::Object(es)) => jget(es, key),
        _ => None,
    }
}

/// Follows the dot-separated keys of `path` from `v`.
pub open spec fn walk(v: Option<JModel>, path: Seq<char>) -> Option<JModel>
    decreases path.len(),
{
    let k = find_char(path, '.');
    if k < 0 || k >= path.len() {
        member(v, path)
    } else {
        walk(member(v, path.take(k)), path.skip(k + 1))
    }
}

/// `expr` without a leading `state.`.
pub open spec fn bare_path(expr: Seq<char>) -> Seq<char> {
    if starts_with(expr, "state."@) {
        expr.skip(6)
    } else {
        expr
    }
}

/// The value a dotted path names in a session's state: the first key is
/// looked up in the state, the rest in nested objects.
pub open spec fn path_value(values: Map<Seq<char>, JModel>, expr: Seq<char>) -> Option<JModel> {
    let p = bare_path(expr);
    let k = find_char(p, '.');
    let first = if k < 0 || k >= p.len() {
        p
    } else {
        p.take(k)
    };
    let v0 = if values.dom().contains(first) {
        Some(values[first])
    } else {
        None
    };
    if k < 0 || k >= p.len() {
        v0
    } else {
        walk(v0, p.skip(k + 1))
    }
}

/// How a value shows in a patch: a string as itself, nothing for null or a
/// missing value, anything else as compact JSON.
pub open spec fn shown(v: Option<JModel>) -> Seq<char> {
    match v {
        Some(JModel::Str(s)) => s,
        Some(JModel::Null) => seq![],
        None => seq![],
        Some(other) => jtext(other),
    }
}

pub open spec fn opt_model(v: Option<&JsonValue>) -> Option<JModel> {
    match v {
        Some(x) => Some(jm(*x)),
        None => None,
    }
}

fn member_exec<'a>(v: Option<&'a JsonValue>, key: &String) -> (r: Option<&'a JsonValue>)
    ensures
        opt_model(r) == member(opt_model(v), key@),
{
    match v {
        Some(JsonValue::Object(es)) => map_get(es, key),
        _ => None,
    }
}

/// The text of the value `expr` names in `state` (see `path_value` and
/// `shown`).
pub fn eval_expr(expr: &str, state: &StateStore) -> (r: String)
    ensures
        r@ == shown(path_value(state@.values, expr@)),
{
    let cs = chars_of(expr);
    let prefix = chars_of("state.");
    proof {
        reveal_strlit("state.");
    }
    let start: usize = if crate::text::occurs_at_exec(&cs, 0, &prefix) {
        6
    } else {
        0
    };
    let ghost p = bare_path(expr@);
    proof {
        assert(starts_with(expr@, "state."@) == crate::text::occurs_at(cs@, 0, prefix@));
        assert(p =~= cs@.skip(start as int));
    }
    let first_dot = find_char_from(&cs, '.', start);
    let v: Option<&JsonValue> = match first_dot {
        None => {
            let key = string_of(&cs, start, cs.len());
            proof {
                assert(key@ =~= p);
            }
            state.get(key.as_str())
        },
        Some(k) => {
            let key = string_of(&cs, start, k);
            proof {
                assert(key@ =~= p.take(k - start));
            }
            let mut cur = state.get(key.as_str());
            let mut pos: usize = k + 1;
            let ghost target = walk(opt_model(cur), p.skip(k - start + 1));
            proof {
                assert(p.skip(k - start + 1) =~= cs@.skip(pos as int));
            }
            loop
                invariant_except_break
                    start <= pos <= cs@.len(),
                    walk(opt_model(cur), cs@.skip(pos as int)) == target,
                ensures
                    opt_model(cur) == target,
                decreases cs@.len() - pos,
            {
                let ghost rest = cs@.skip(pos as int);
                match find_char_from(&cs, '.', pos) {
                    None => {
                        let key = string_of(&cs, pos, cs.len());
                        proof {
                            assert(key@ =~= rest);
                        }
                        cur = member_exec(cur, &key);
                        break;
                    },
                    Some(d) => {
                        let key = string_of(&cs, pos, d);
                        proof {
                            assert(key@ =~= rest.take(d - pos));
                            assert(rest.skip(d - pos + 1) =~= cs@.skip(d + 1));
                        }
                        cur = member_exec(cur, &key);
                        pos = d + 1;
                    },
                }
            }
            cur
        },
    };
    let mut out = String::new();
    match v {
        Some(JsonValue::Str(s)) => append_string(&mut out, s),
        Some(JsonValue::Null) => {},
        None => {},
        Some(other) => append_json(&mut out, other),
    }
    proof {
        assert(out@ =~= shown(path_value(state@.values, expr@)));
    }
    out
}

/// How a dynamic segment of a rendered template is patched.
#[derive(Debug)]
pub enum SegmentType {
    Text,
    Html,
    Attribute { element_id: String, attr_name: String },
    Conditional,
    Loop,
    Permission,
}

/// A place in a rendered template whose content follows the state: its id,
/// the state path it shows, the state names it depends on, and how it is
/// patched.
#[derive(Debug)]
pub struct DynamicSegment {
    pub id: String,
    pub expr: String,
    pub deps: Vec<String>,
    pub segment_type: SegmentType,
}

/// One change to the client's DOM.
#[derive(Debug)]
pub enum PatchOp {
    ReplaceText { target: String, value: String },
    ReplaceHtml { target: String, html: String },
    SetAttr { target: String, name: String, value: String },
}

/// The changes of one round, numbered.
#[derive(Debug)]
pub struct PatchMessage {
    pub seq: u64,
    pub ops: Vec<PatchOp>,
}

/// The segments, in order, whose id is among `affected`.
pub open spec fn selected(segs: Seq<DynamicSegment>, affected: Seq<String>) -> Seq<DynamicSegment>
    decreases segs.len(),
{
    if segs.len() == 0 {
        seq![]
    } else {
        let rest = selected(segs.drop_last(), affected);
        if listed(affected, segs.last().id@) {
            rest.push(segs.last())
        } else {
            rest
        }
    }
}

/// `op` reconciles `seg` with the state `values`: text segments get their
/// text replaced, attribute segments the attribute set on their element, and
/// every other kind its HTML replaced, with the text of the segment's path.
pub open spec fn is_op_for(op: PatchOp, seg: DynamicSegment, values: Map<Seq<char>, JModel>) -> bool {
    let v = shown(path_value(values, seg.expr@));
    match seg.segment_type {
        SegmentType::Text => op matches PatchOp::ReplaceText { target, value } && target@ == seg.id@
            && value@ == v,
        SegmentType::Attribute { element_id, attr_name } => op matches PatchOp::SetAttr {
            target,
            name,
            value,
        } && target@ == element_id@ && name@ == attr_name@ && value@ == v,
        _ => op matches PatchOp::ReplaceHtml { target, html } && target@ == seg.id@ && html@ == v,
    }
}

/// `ops` reconcile, one by one, the segments of `segs`.
pub open spec fn ops_for(ops: Seq<PatchOp>, segs: Seq<DynamicSegment>, values: Map<Seq<char>, JModel>) -> bool {
    &&& ops.len() == segs.len()
    &&& forall|j: int| 0 <= j < ops.len() ==> #[trigger] is_op_for(ops[j], segs[j], values)
}

/// Builds the patch operations after a round of state changes.
pub struct PatchGenerator;

impl PatchGenerator {
    /// The operations that bring the client up to date with `state`: none
    /// when no state name is dirty, else one for each segment among
    /// `dynamic_segments` whose id is in `affected` (what the component's
    /// dependency graph reports for the dirty names), in segment order.
    pub fn generate(state: &StateStore, affected: &Vec<String>, dynamic_segments: &Vec<DynamicSegment>) -> (r: Vec<PatchOp>)
        ensures
            state@.dirty.is_empty() ==> r@.len() == 0,
            !state@.dirty.is_empty() ==> ops_for(r@, selected(dynamic_segments@, affected@), state@.values),
    {
        let dirty = state.get_dirty();
        if dirty.len() == 0 {
            proof {
                assert(state@.dirty =~= Set::<Seq<char>>::empty());
            }
            return Vec::new();
        }
        proof {
            assert(state@.dirty.contains(dirty@[0]@));
        }
        let mut ops: Vec<PatchOp> = Vec::new();
        let mut i: usize = 0;
        while i < dynamic_segments.len()
            invariant
                i <= dynamic_segments@.len(),
                ops_for(ops@, selected(dynamic_segments@.take(i as int), affected@), state@.values),
            decreases dynamic_segments@.len() - i,
        {
            let seg = &dynamic_segments[i];
            let ghost before = ops@;
            proof {
                assert(dynamic_segments@.take(i + 1).drop_last() =~= dynamic_segments@.take(i as int));
                assert(dynamic_segments@.take(i + 1).last() == *seg);
            }
            if contains(affected, &seg.id) {
                let value = eval_expr(seg.expr.as_str(), state);
                let op = match &seg.segment_type {
                    SegmentType::Text => PatchOp::ReplaceText { target: seg.id.clone(), value },
                    SegmentType::Attribute { element_id, attr_name } => PatchOp::SetAttr {
                        target: element_id.clone(),
                        name: attr_name.clone(),
                        value,
                    },
                    _ => PatchOp::ReplaceHtml { target: seg.id.clone(), html: value },
                };
                proof {
                    assert(is_op_for(op, *seg, state@.values));
                }
                ops.push(op);
                proof {
                    let sel = selected(dynamic_segments@.take(i + 1), affected@);
                    assert(sel == selected(dynamic_segments@.take(i as int), affected@).push(*seg));
                    assert forall|j: int| 0 <= j < ops@.len() implies #[trigger] is_op_for(ops@[j], sel[j], state@.values) by {
                        if j < before.len() {
                            assert(ops@[j] == before[j]);
                        }
                    }
                }
            }
            i += 1;
        }
        proof {
            assert(dynamic_segments@.take(dynamic_segments@.len() as int) =~= dynamic_segments@);
        }
        ops
    }
}


/// Following a path `a.rest` (with `a` free of dots) looks `a` up first and
/// then follows `rest` inside what it found; a path of one key looks that
/// key up. So the value a path names is the one nested under all of its
/// keys, in order.
pub proof fn law_walk_follows_every_key(v: Option<JModel>, a: Seq<char>, rest: Seq<char>)
    requires
        !a.contains('.'),
    ensures
        walk(v, a) == member(v, a),
        walk(v, a + "."@ + rest) == walk(member(v, a), rest),
{
    reveal_strlit(".");
    assert forall|j: int| 0 <= j < a.len() implies a[j] != '.' by {
        if a[j] == '.' {
            assert(a.contains('.'));
        }
    }
    lemma_find_char_char(a, '.', -1);
    let s = a + "."@ + rest;
    assert(s[a.len() as int] == '.');
    assert forall|j: int| 0 <= j < s.len() && j < a.len() implies s[j] != '.' by {
        assert(s[j] == a[j]);
    }
    lemma_find_char_char(s, '.', a.len() as int);
    assert(s.take(a.len() as int) =~= a);
    assert(s.skip(a.len() as int + 1) =~= rest);
}

/// A path of two or more keys is the first key looked up in the session's
/// state, then the rest followed inside its value.
pub proof fn law_path_value_nested(values: Map<Seq<char>, JModel>, a: Seq<char>, rest: Seq<char>)
    requires
        !a.contains('.'),
        a != "state"@,
    ensures
        path_value(values, a + "."@ + rest) == walk(
            if values.dom().contains(a) {
                Some(values[a])
            } else {
                None
            },
            rest,
        ),
{
    reveal_strlit(".");
    reveal_strlit("state.");
    reveal_strlit("state");
    let s = a + "."@ + rest;
    if starts_with(s, "state."@) {
        assert(s.subrange(0, 6) == "state."@);
        if a.len() > 5 {
            assert(s[5] == a[5]);
            assert(s.subrange(0, 6)[5] == '.');
            assert(a.contains('.'));
        } else if a.len() == 5 {
            assert forall|j: int| 0 <= j < 5 implies a[j] == "state"@[j] by {
                assert(s[j] == a[j]);
                assert(s.subrange(0, 6)[j] == s[j]);
            }
            assert(a =~= "state"@);
        } else {
            assert(s[a.len() as int] == '.');
            assert(s.subrange(0, 6)[a.len() as int] == s[a.len() as int]);
            assert("state."@[a.len() as int] != '.');
        }
    }
    assert(bare_path(s) == s);
    assert forall|j: int| 0 <= j < s.len() && j < a.len() implies s[j] != '.' by {
        assert(s[j] == a[j]);
        if a[j] == '.' {
            assert(a.contains('.'));
        }
    }
    assert(s[a.len() as int] == '.');
    lemma_find_char_char(s, '.', a.len() as int);
    assert(s.take(a.len() as int) =~= a);
    assert(s.skip(a.len() as int + 1) =~= rest);
}


/// A patch shows a string value as its text, with no quotes; a missing or
/// null value as nothing; any other value as its compact JSON.
pub proof fn law_shown_text(s: Seq<char>, v: JModel)
    ensures
        shown(Some(JModel::Str(s))) == s,
        shown(None) == Seq::<char>::empty(),
        shown(Some(JModel::Null)) == Seq::<char>::empty(),
        !(v is Str) && !(v is Null) ==> shown(Some(v)) == jtext(v),
{
}

} // verus!
