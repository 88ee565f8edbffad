//! Assignment to a dotted path (`a.b.c = v`) in handler code: reading the
//! path off the expression, and setting the value inside nested objects.

use vstd::prelude::*;
use crate::forms::fields::strings_view;
use crate::forms::json::{
    find_key, jentries, jget, jm, json_copy, lemma_jentries_len, JModel, JsonValue,
};
use crate::runtime::syntax::Expr;

verus! {

/// The names of a dotted path `a.b.c`, or `None` for any other expression.
pub open spec fn path_of(e: Expr) -> Option<Seq<Seq<char>>>
    decreases e,
{
    match e {
        Expr::Ident(n) => Some(seq![n@]),
        Expr::DotAccess(p, f) => match path_of(*p) {
            Some(ps) => Some(ps.push(f@)),
            None => None,
        },
        _ => None,
    }
}

/// The names of the dotted path `e`, if it is one.
pub fn collect_path(e: &Expr) -> (r: Option<Vec<String>>)
    ensures
        match r {
            Some(v) => path_of(*e) == Some(strings_view(v@)),
            None => path_of(*e) is None,
        },
    decreases e,
{
    match e {
        Expr::Ident(n) => {
            let mut v: Vec<String> = Vec::new();
            v.push(n.clone());
            proof {
                assert(strings_view(v@) =~= seq![n@]);
            }
            Some(v)
        },
        Expr::DotAccess(p, f) => match collect_path(p) {
            Some(mut v) => {
                let ghost before = v@;
                v.push(f.clone());
                proof {
                    assert(strings_view(v@) =~= strings_view(before).push(f@));
                }
                Some(v)
            },
            None => None,
        },
        _ => None,
    }
}

/// Object entries with key `k` set to `v`: the first entry with that key
/// takes the value, or a new entry goes at the end.
pub open spec fn entries_put(es: Seq<(Seq<char>, JModel)>, k: Seq<char>, v: JModel) -> Seq<
    (Seq<char>, JModel),
>
    decreases es.len(),
{
    if es.len() == 0 {
        seq![(k, v)]
    } else if es[0].0 == k {
        es.update(0, (k, v))
    } else {
        seq![es[0]] + entries_put(es.drop_first(), k, v)
    }
}

/// `v` with `new` set at `path` inside nested objects: a missing object on
/// the way is created empty; where the way meets a value that is not an
/// object, nothing changes; an empty path replaces `v` itself.
pub open spec fn set_at(v: JModel, path: Seq<Seq<char>>, new: JModel) -> JModel
    decreases path.len(),
{
    if path.len() == 0 {
        new
    } else {
        match v {
            JModel::Object(es) => JModel::Object(
                entries_put(
                    es,
                    path[0],
                    if path.len() == 1 {
                        new
                    } else {
                        set_at(
                            match jget(es, path[0]) {
                                Some(c) => c,
                                None => JModel::Object(seq![]),
                            },
                            path.drop_first(),
                            new,
                        )
                    },
                ),
            ),
            _ => v,
        }
    }
}

proof fn lemma_put_at(es: Seq<(Seq<char>, JModel)>, i: int, k: Seq<char>, v: JModel)
    requires
        0 <= i < es.len(),
        es[i].0 == k,
        forall|j: int| 0 <= j < i ==> (#[trigger] es[j]).0 != k,
    ensures
        entries_put(es, k, v) == es.update(i, (k, v)),
    decreases i,
{
    if i > 0 {
        assert(es.drop_first()[i - 1] == es[i]);
        assert forall|j: int| 0 <= j < i - 1 implies (#[trigger] es.drop_first()[j]).0 != k by {
            assert(es.drop_first()[j] == es[j + 1]);
        }
        lemma_put_at(es.drop_first(), i - 1, k, v);
        assert(seq![es[0]] + es.drop_first().update(i - 1, (k, v)) =~= es.update(i, (k, v)));
    }
}

proof fn lemma_put_new(es: Seq<(Seq<char>, JModel)>, k: Seq<char>, v: JModel)
    requires
        forall|j: int| 0 <= j < es.len() ==> (#[trigger] es[j]).0 != k,
    ensures
        entries_put(es, k, v) == es.push((k, v)),
    decreases es.len(),
{
    if es.len() > 0 {
        assert forall|j: int| 0 <= j < es.len() - 1 implies (#[trigger] es.drop_first()[j]).0 != k by {
            assert(es.drop_first()[j] == es[j + 1]);
        }
        lemma_put_new(es.drop_first(), k, v);
        assert(seq![es[0]] + es.drop_first().push((k, v)) =~= es.push((k, v)));
    } else {
        assert(seq![(k, v)] =~= es.push((k, v)));
    }
}

proof fn lemma_jget_some(es: Seq<(Seq<char>, JModel)>, j: int, k: Seq<char>)
    requires
        0 <= j < es.len(),
        es[j].0 == k,
    ensures
        jget(es, k) is Some,
    decreases j,
{
    if j > 0 && es[0].0 != k {
        assert(es.drop_first()[j - 1] == es[j]);
        lemma_jget_some(es.drop_first(), j - 1, k);
    }
}

/// Sets key `k` of the entries to `v` (`entries_put`).
fn put_entry(es: &mut Vec<(String, JsonValue)>, k: &String, v: JsonValue)
    ensures
        jentries(final(es)@) == entries_put(jentries(old(es)@), k@, jm(v)),
{
    let ghost before = es@;
    proof {
        lemma_jentries_len(before);
    }
    let ghost vm = jm(v);
    match find_key(es, k) {
        Some(i) => {
            proof {
                assert forall|j: int| 0 <= j < i implies (#[trigger] jentries(before)[j]).0 != k@ by {
                    assert(jentries(before)[j] == (before[j].0@, jm(before[j].1)));
                }
                lemma_put_at(jentries(before), i as int, k@, vm);
            }
            es.set(i, (k.clone(), v));
            proof {
                lemma_jentries_len(es@);
                assert(jentries(es@) =~= jentries(before).update(i as int, (k@, vm)));
            }
        },
        None => {
            proof {
                assert forall|j: int| 0 <= j < before.len() implies (#[trigger] jentries(before)[j]).0 != k@ by {
                    if jentries(before)[j].0 == k@ {
                        lemma_jget_some(jentries(before), j, k@);
                    }
                }
                lemma_put_new(jentries(before), k@, vm);
            }
            es.push((k.clone(), v));
            proof {
                lemma_jentries_len(es@);
                assert(jentries(es@) =~= jentries(before).push((k@, vm)));
            }
        },
    }
}

/// `val` with `new_val` set at the names `path[from..]` (`set_at`).
pub fn set_nested(val: JsonValue, path: &Vec<String>, from: usize, new_val: JsonValue) -> (r: JsonValue)
    requires
        from <= path.len(),
    ensures
        jm(r) == set_at(jm(val), strings_view(path@).skip(from as int), jm(new_val)),
    decreases path.len() - from,
{
    let ghost p = strings_view(path@).skip(from as int);
    if from == path.len() {
        proof {
            assert(p.len() == 0);
        }
        return new_val;
    }
    proof {
        assert(p[0] == path@[from as int]@);
        assert(p.drop_first() =~= strings_view(path@).skip(from + 1));
    }
    match val {
        JsonValue::Object(mut es) => {
            let ghost em = jentries(es@);
            let k = &path[from];
            let child_new = if from + 1 == path.len() {
                new_val
            } else {
                let child = match find_key(&es, k) {
                    Some(i) => json_copy(&es[i].1),
                    None => {
                        proof {
                            assert(jentries(Seq::<(String, JsonValue)>::empty()) =~= Seq::<
                                (Seq<char>, JModel),
                            >::empty());
                        }
                        JsonValue::Object(Vec::new())
                    },
                };
                set_nested(child, path, from + 1, new_val)
            };
            put_entry(&mut es, k, child_new);
            JsonValue::Object(es)
        },
        other => other,
    }
}

} // verus!
