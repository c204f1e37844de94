use vstd::prelude::*;

use crate::value::{
    Json, Tree, copy_value, equals, find_key, is_last, json_of, json_of_entries,
    lemma_entries_dom, lemma_entries_last, lemma_entries_push, lemma_entries_update, copy_entries,
};

verus! {

broadcast use vstd::std_specs::vec::group_vec_axioms;

/// The delta of `current` against `defaults`: `None` where nothing differs.
///
/// Two objects are compared key by key: a key that `defaults` lacks is kept
/// whole, a key whose values differ keeps their delta, an equal key is left
/// out. Any other pair of values is kept whole when it differs; an array is
/// never compared element by element.
pub open spec fn delta(current: Json, defaults: Json) -> Option<Json>
    decreases current,
{
    match current {
        Json::Object(c) => match defaults {
            Json::Object(d) => {
                if exists|k: Seq<char>|
                    c.contains_key(k) && (!d.contains_key(k) || delta(c[k], d[k]) is Some) {
                    Some(
                        Json::Object(
                            Map::new(
                                |k: Seq<char>|
                                    c.contains_key(k) && (!d.contains_key(k) || delta(
                                        c[k],
                                        d[k],
                                    ) is Some),
                                |k: Seq<char>|
                                    if c.contains_key(k) && d.contains_key(k) {
                                        delta(c[k], d[k])->0
                                    } else {
                                        c[k]
                                    },
                            ),
                        ),
                    )
                } else {
                    None
                }
            },
            _ => if current == defaults { None } else { Some(current) },
        },
        _ => if current == defaults { None } else { Some(current) },
    }
}

/// `source` laid over `target`: where both are objects every key of `source`
/// is merged into the same key of `target`, or added; otherwise `source`
/// replaces `target`.
pub open spec fn merge(target: Json, source: Json) -> Json
    decreases source,
{
    match source {
        Json::Object(s) => match target {
            Json::Object(t) => Json::Object(
                Map::new(
                    |k: Seq<char>| t.contains_key(k) || s.contains_key(k),
                    |k: Seq<char>|
                        if s.contains_key(k) {
                            if t.contains_key(k) {
                                merge(t[k], s[k])
                            } else {
                                s[k]
                            }
                        } else {
                            t[k]
                        },
                ),
            ),
            _ => source,
        },
        _ => source,
    }
}

/// The full value that a stored delta stands for: the defaults when there is
/// no delta, else the delta merged onto the defaults.
pub open spec fn merge_delta(defaults: Json, stored: Option<Json>) -> Json {
    match stored {
        Some(d) => merge(defaults, d),
        None => defaults,
    }
}

/// Whether `value` holds every key of `defaults`, wherever both are objects,
/// at every depth. Values of one schema type serialize to such shapes.
pub open spec fn covers(value: Json, defaults: Json) -> bool
    decreases value,
{
    match value {
        Json::Object(c) => match defaults {
            Json::Object(d) => forall|k: Seq<char>|
                #![trigger d.contains_key(k)]
                d.contains_key(k) ==> c.contains_key(k) && covers(c[k], d[k]),
            _ => true,
        },
        _ => true,
    }
}

/// A value equal to its defaults has no delta.
pub proof fn lemma_delta_of_defaults(v: Json)
    ensures
        delta(v, v) is None,
    decreases v,
{
    if let Json::Object(c) = v {
        assert forall|k: Seq<char>| c.contains_key(k) implies delta(c[k], c[k]) is None by {
            lemma_delta_of_defaults(c[k]);
        }
    }
}

/// Changing one field of an object leaves the other fields out of its delta:
/// the delta holds that field alone, with the field's own delta (so a change
/// deep inside nested objects keeps only the path to it).
pub proof fn lemma_single_field_change(c: Map<Seq<char>, Json>, d: Map<Seq<char>, Json>, k: Seq<char>)
    requires
        c.dom() == d.dom(),
        d.contains_key(k),
        delta(c[k], d[k]) is Some,
        forall|x: Seq<char>| #[trigger] d.contains_key(x) && x != k ==> c[x] == d[x],
    ensures
        delta(Json::Object(c), Json::Object(d)) == Some(
            Json::Object(Map::empty().insert(k, delta(c[k], d[k])->0)),
        ),
{
    assert forall|x: Seq<char>| c.contains_key(x) && x != k implies delta(c[x], d[x]) is None by {
        assert(d.contains_key(x));
        lemma_delta_of_defaults(c[x]);
    }
    assert(c.contains_key(k));
    let r = delta(Json::Object(c), Json::Object(d));
    assert(r->0->Object_0 =~= Map::empty().insert(k, delta(c[k], d[k])->0));
}

/// Merging the delta of a value back onto its defaults gives the value again,
/// wherever the value has every key of its defaults.
pub proof fn lemma_round_trip(v: Json, d: Json)
    requires
        covers(v, d),
    ensures
        merge_delta(d, delta(v, d)) == v,
    decreases v,
{
    if let Json::Object(c) = v {
        if let Json::Object(dm) = d {
            assert forall|k: Seq<char>| dm.contains_key(k) implies merge_delta(
                dm[k],
                delta(c[k], dm[k]),
            ) == c[k] by {
                lemma_round_trip(c[k], dm[k]);
            }
            let r = delta(v, d);
            if r is None {
                assert forall|k: Seq<char>| c.contains_key(k) implies dm.contains_key(k) && dm[k]
                    == c[k] by {
                    if !dm.contains_key(k) || delta(c[k], dm[k]) is Some {
                        assert(false);
                    }
                }
                assert(dm =~= c);
            } else {
                let out = merge(d, r->0)->Object_0;
                assert(out =~= c);
            }
        }
    }
}

/// Whether key `k` of object `c` stands in its delta against object `d`.
pub open spec fn keeps(c: Map<Seq<char>, Json>, d: Map<Seq<char>, Json>, k: Seq<char>) -> bool {
    c.contains_key(k) && (!d.contains_key(k) || delta(c[k], d[k]) is Some)
}

/// What key `k` of object `c` holds in its delta against object `d`.
pub open spec fn part(c: Map<Seq<char>, Json>, d: Map<Seq<char>, Json>, k: Seq<char>) -> Json {
    if c.contains_key(k) && d.contains_key(k) {
        delta(c[k], d[k])->0
    } else {
        c[k]
    }
}

/// The model of an optional value.
pub open spec fn opt_json(o: Option<Tree>) -> Option<Json> {
    match o {
        Some(v) => Some(v@),
        None => None,
    }
}

/// The delta of `current` against `defaults`: `None` where they are equal,
/// else only what differs (see [`delta`]).
pub fn compute_value_delta(current: &Tree, defaults: &Tree) -> (r: Option<Tree>)
    ensures
        opt_json(r) == delta(current@, defaults@),
    decreases current,
{
    match current {
        Tree::Object(cs) => match defaults {
            Tree::Object(ds) => entries_delta(cs, ds),
            _ => scalar_delta(current, defaults),
        },
        _ => scalar_delta(current, defaults),
    }
}

fn scalar_delta(current: &Tree, defaults: &Tree) -> (r: Option<Tree>)
    requires
        !(current@ is Object && defaults@ is Object),
    ensures
        opt_json(r) == delta(current@, defaults@),
{
    if equals(current, defaults) {
        None
    } else {
        Some(copy_value(current))
    }
}

/// The delta of one object's entries against another's.
fn entries_delta(cs: &Vec<(String, Tree)>, ds: &Vec<(String, Tree)>) -> (r: Option<Tree>)
    ensures
        opt_json(r) == delta(
            Json::Object(json_of_entries(cs@)),
            Json::Object(json_of_entries(ds@)),
        ),
    decreases cs,
{
    let ghost c = json_of_entries(cs@);
    let ghost d = json_of_entries(ds@);
    let mut out: Vec<(String, Tree)> = Vec::new();
    let mut i: usize = 0;
    while i < cs.len()
        invariant
            i <= cs.len(),
            c == json_of_entries(cs@),
            d == json_of_entries(ds@),
            forall|k: Seq<char>| #[trigger]
                json_of_entries(out@).contains_key(k) ==> keeps(c, d, k) && json_of_entries(out@)[k]
                    == part(c, d, k),
            forall|l: int|
                0 <= l < i && #[trigger] is_last(cs@, l) && keeps(c, d, cs@[l].0@) ==> json_of_entries(
                    out@,
                ).contains_key(cs@[l].0@),
        decreases cs.len() - i,
    {
        let key = &cs[i].0;
        let ghost o0 = json_of_entries(out@);
        let last = find_key(cs, key);
        if last == Some(i) {
            proof {
                lemma_entries_last(cs@, i as int);
            }
            match find_key(ds, key) {
                None => {
                    proof {
                        lemma_entries_dom(ds@, key@);
                        assert(key@ == cs@[i as int].0@);
                        assert(c.contains_key(key@));
                        assert(!d.contains_key(key@));
                        assert(keeps(c, d, key@));
                        assert(part(c, d, key@) == json_of(cs@[i as int].1));
                    }
                    let e = (key.clone(), copy_value(&cs[i].1));
                    proof {
                        lemma_entries_push(out@, e);
                    }
                    out.push(e);
                    proof {
                        assert(json_of_entries(out@) == o0.insert(key@, part(c, d, key@)));
                    }
                },
                Some(j) => {
                    proof {
                        lemma_entries_last(ds@, j as int);
                    }
                    match compute_value_delta(&cs[i].1, &ds[j].1) {
                        Some(nd) => {
                            let e = (key.clone(), nd);
                            proof {
                                lemma_entries_push(out@, e);
                                assert(keeps(c, d, key@));
                                assert(part(c, d, key@) == nd@);
                            }
                            out.push(e);
                            proof {
                                assert(json_of_entries(out@) == o0.insert(key@, part(c, d, key@)));
                            }
                        },
                        None => {
                            proof {
                                assert(!keeps(c, d, key@));
                            }
                        },
                    }
                },
            }
        } else {
            proof {
                if is_last(cs@, i as int) {
                    let f = last->0 as int;
                    assert(is_last(cs@, f));
                    assert(f == i);
                }
            }
        }
        i = i + 1;
    }
    if out.len() == 0 {
        proof {
            assert forall|k: Seq<char>| !#[trigger] keeps(c, d, k) by {
                if keeps(c, d, k) {
                    lemma_entries_dom(cs@, k);
                    let l = choose|l: int| is_last(cs@, l) && cs@[l].0@ == k;
                    assert(is_last(cs@, l));
                    assert(json_of_entries(out@) == Map::<Seq<char>, Json>::empty());
                }
            }
            assert(!exists|k: Seq<char>|
                c.contains_key(k) && (!d.contains_key(k) || delta(c[k], d[k]) is Some)) by {
                assert forall|k: Seq<char>|
                    !(c.contains_key(k) && (!d.contains_key(k) || delta(c[k], d[k]) is Some)) by {
                    assert(!keeps(c, d, k));
                }
            }
        }
        None
    } else {
        let ghost o = json_of_entries(out@);
        proof {
            assert(out@ =~= out@.drop_last().push(out@.last()));
            lemma_entries_push(out@.drop_last(), out@.last());
            assert(o.contains_key(out@.last().0@));
            assert(keeps(c, d, out@.last().0@));
            assert forall|k: Seq<char>| #[trigger] o.dom().contains(k) == keeps(c, d, k) by {
                if keeps(c, d, k) {
                    lemma_entries_dom(cs@, k);
                    let l = choose|l: int| is_last(cs@, l) && cs@[l].0@ == k;
                    assert(is_last(cs@, l));
                }
            }
            assert(o =~= delta(Json::Object(c), Json::Object(d))->0->Object_0);
        }
        Some(Tree::Object(out))
    }
}

/// What key `k` holds once object `s` is laid over object `t`.
pub open spec fn merged_at(t: Map<Seq<char>, Json>, s: Map<Seq<char>, Json>, k: Seq<char>) -> Json {
    if s.contains_key(k) {
        if t.contains_key(k) {
            merge(t[k], s[k])
        } else {
            s[k]
        }
    } else {
        t[k]
    }
}

/// Whether the entry that counts for key `k` lies among the first `i` entries.
pub open spec fn settled(es: Seq<(String, Tree)>, i: int, k: Seq<char>) -> bool {
    exists|l: int| 0 <= l < i && is_last(es, l) && es[l].0@ == k
}

/// Lays `source` over `target` in place (see [`merge`]).
pub fn merge_values(target: &mut Tree, source: &Tree)
    ensures
        final(target)@ == merge(old(target)@, source@),
{
    let m = merged(target, source);
    *target = m;
}

/// `source` laid over `target`, as a new value (see [`merge`]).
pub fn merged(target: &Tree, source: &Tree) -> (r: Tree)
    ensures
        r@ == merge(target@, source@),
    decreases source,
{
    match source {
        Tree::Object(ss) => match target {
            Tree::Object(ts) => {
                let out = entries_merged(ts, ss);
                proof {
                    let t = json_of_entries(ts@);
                    let s = json_of_entries(ss@);
                    assert(json_of_entries(out@) =~= merge(Json::Object(t), Json::Object(s))->Object_0);
                }
                Tree::Object(out)
            },
            _ => copy_value(source),
        },
        _ => copy_value(source),
    }
}

fn entries_merged(ts: &Vec<(String, Tree)>, ss: &Vec<(String, Tree)>) -> (r: Vec<(String, Tree)>)
    ensures
        forall|k: Seq<char>|
            #[trigger] json_of_entries(r@).contains_key(k) == (json_of_entries(ts@).contains_key(k)
                || json_of_entries(ss@).contains_key(k)),
        forall|k: Seq<char>|
            #[trigger] json_of_entries(r@).contains_key(k) ==> json_of_entries(r@)[k] == merged_at(
                json_of_entries(ts@),
                json_of_entries(ss@),
                k,
            ),
    decreases ss,
{
    let ghost t = json_of_entries(ts@);
    let ghost s = json_of_entries(ss@);
    let mut out = copy_entries(ts);
    let mut i: usize = 0;
    while i < ss.len()
        invariant
            i <= ss.len(),
            t == json_of_entries(ts@),
            s == json_of_entries(ss@),
            forall|k: Seq<char>| #[trigger]
                json_of_entries(out@).contains_key(k) ==> t.contains_key(k) || s.contains_key(k),
            forall|k: Seq<char>| #[trigger] t.contains_key(k) ==> json_of_entries(out@).contains_key(k),
            forall|k: Seq<char>| #[trigger]
                settled(ss@, i as int, k) ==> json_of_entries(out@).contains_key(k)
                    && json_of_entries(out@)[k] == merged_at(t, s, k),
            forall|k: Seq<char>| #[trigger]
                json_of_entries(out@).contains_key(k) && !settled(ss@, i as int, k) ==> t.contains_key(k)
                    && json_of_entries(out@)[k] == t[k],
        decreases ss.len() - i,
    {
        let key = &ss[i].0;
        let ghost o0 = json_of_entries(out@);
        let last = find_key(ss, key);
        proof {
            assert forall|k: Seq<char>| settled(ss@, i as int, k) implies #[trigger] settled(ss@, i + 1, k) by {
                let l = choose|l: int| 0 <= l < i && is_last(ss@, l) && ss@[l].0@ == k;
                assert(0 <= l < i + 1 && is_last(ss@, l) && ss@[l].0@ == k);
            }
        }
        if last == Some(i) {
            proof {
                lemma_entries_last(ss@, i as int);
                assert(!settled(ss@, i as int, key@)) by {
                    if settled(ss@, i as int, key@) {
                        let l = choose|l: int| 0 <= l < i && is_last(ss@, l) && ss@[l].0@ == key@;
                        assert(ss@[i as int].0@ == ss@[l].0@);
                    }
                }
                assert(settled(ss@, i + 1, key@)) by {
                    assert(0 <= i < i + 1 && is_last(ss@, i as int) && ss@[i as int].0@ == key@);
                }
            }
            match find_key(&out, key) {
                Some(j) => {
                    proof {
                        lemma_entries_last(out@, j as int);
                    }
                    let m = merged(&out[j].1, &ss[i].1);
                    let e = (key.clone(), m);
                    proof {
                        lemma_entries_update(out@, j as int, e);
                    }
                    out.set(j, e);
                },
                None => {
                    proof {
                        lemma_entries_dom(out@, key@);
                    }
                    let e = (key.clone(), copy_value(&ss[i].1));
                    proof {
                        lemma_entries_push(out@, e);
                    }
                    out.push(e);
                },
            }
            proof {
                let o1 = json_of_entries(out@);
                assert(o1 == o0.insert(key@, merged_at(t, s, key@)));
                assert forall|k: Seq<char>| #[trigger] settled(ss@, i + 1, k) implies o1.contains_key(k)
                    && o1[k] == merged_at(t, s, k) by {
                    if k != key@ {
                        let l = choose|l: int| 0 <= l < i + 1 && is_last(ss@, l) && ss@[l].0@ == k;
                        assert(l != i);
                        assert(settled(ss@, i as int, k));
                    }
                }
                assert forall|k: Seq<char>| #[trigger]
                    o1.contains_key(k) && !settled(ss@, i + 1, k) implies t.contains_key(k)
                        && o1[k] == t[k] by {
                    assert(k != key@);
                }
            }
        } else {
            proof {
                assert forall|k: Seq<char>| #[trigger] settled(ss@, i + 1, k) implies settled(ss@, i as int, k) by {
                    let l = choose|l: int| 0 <= l < i + 1 && is_last(ss@, l) && ss@[l].0@ == k;
                    if l == i {
                        let f = last->0 as int;
                        assert(is_last(ss@, f));
                        assert(f == i);
                    }
                }
            }
        }
        i = i + 1;
    }
    proof {
        assert forall|k: Seq<char>| s.contains_key(k) implies #[trigger] settled(ss@, ss.len() as int, k) by {
            lemma_entries_dom(ss@, k);
            let l = choose|l: int| is_last(ss@, l) && ss@[l].0@ == k;
            assert(0 <= l < ss.len() && is_last(ss@, l) && ss@[l].0@ == k);
        }
        assert forall|k: Seq<char>| settled(ss@, ss.len() as int, k) implies #[trigger] s.contains_key(k) by {
            let l = choose|l: int| 0 <= l < ss.len() && is_last(ss@, l) && ss@[l].0@ == k;
            lemma_entries_last(ss@, l);
        }
        assert forall|k: Seq<char>| #[trigger] json_of_entries(out@).contains_key(k) == (t.contains_key(k)
            || s.contains_key(k)) by {
            if s.contains_key(k) {
                assert(settled(ss@, ss.len() as int, k));
            }
        }
    }
    out
}

/// The delta of a configuration value against its defaults: `None` when the
/// value equals its defaults, else the fields that differ (see [`delta`]).
pub fn compute_delta(settings: &Tree, defaults: &Tree) -> (r: Option<Tree>)
    ensures
        opt_json(r) == delta(settings@, defaults@),
        settings@ == defaults@ ==> r is None,
{
    if equals(settings, defaults) {
        proof {
            lemma_delta_of_defaults(settings@);
        }
        return None;
    }
    compute_value_delta(settings, defaults)
}

/// The full value that a stored delta stands for: a copy of the defaults when
/// there is none, else the delta laid over the defaults.
pub fn merge_with_defaults(defaults: &Tree, stored: Option<&Tree>) -> (r: Tree)
    ensures
        r@ == merge_delta(
            defaults@,
            match stored {
                Some(d) => Some(d@),
                None => None,
            },
        ),
{
    match stored {
        None => copy_value(defaults),
        Some(d) => merged(defaults, d),
    }
}

} // verus!
