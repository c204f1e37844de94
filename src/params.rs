use vstd::prelude::*;
use vstd::string::StrSliceExecFns;

use crate::delta::{
    compute_delta, covers, delta, lemma_round_trip, merge, merge_delta, merge_with_defaults,
    opt_json,
};
use crate::value::{
    Json, Tree, copy_value, find_key, json_of_entries, lemma_entries_last, lemma_entries_push,
    lemma_entries_update, lemma_entries_dom,
};

verus! {

broadcast use vstd::std_specs::vec::group_vec_axioms;

/// Why the fields that name a file's location cannot be used.
#[derive(Debug, PartialEq, Eq)]
pub enum PathError {
    /// A declared placeholder field is absent.
    MissingParam(String),
    /// A placeholder field is null or a string of whitespace only.
    EmptyParam(String),
    /// A placeholder field holds a value with no text form (a float, an array
    /// or an object).
    InvalidParam(String),
    /// Placeholder fields are declared but the value is no object.
    NotAnObject,
}

/// The set of names in a list of parameter names.
pub open spec fn names(params: Seq<String>) -> Set<Seq<char>> {
    Set::new(|k: Seq<char>| exists|i: int| 0 <= i < params.len() && params[i]@ == k)
}

/// A delta with the placeholder fields taken out; an object left empty is no
/// delta at all.
pub open spec fn without_params(d: Option<Json>, ps: Set<Seq<char>>) -> Option<Json> {
    match d {
        Some(Json::Object(m)) => if m.dom().subset_of(ps) {
            None
        } else {
            Some(Json::Object(m.remove_keys(ps)))
        },
        _ => d,
    }
}

/// `target` with the placeholder fields that `source` holds copied over.
pub open spec fn with_params(source: Json, target: Json, ps: Set<Seq<char>>) -> Json {
    match source {
        Json::Object(s) => match target {
            Json::Object(t) => Json::Object(t.union_prefer_right(s.restrict(ps))),
            _ => target,
        },
        _ => target,
    }
}

/// The characters that `char::is_whitespace` accepts (Unicode `White_Space`).
pub open spec fn is_whitespace(c: char) -> bool {
    let u = c as u32;
    (0x9 <= u <= 0xd) || u == 0x20 || u == 0x85 || u == 0xa0 || u == 0x1680 || (0x2000 <= u
        <= 0x200a) || u == 0x2028 || u == 0x2029 || u == 0x202f || u == 0x205f || u == 0x3000
}

/// Whether every character is whitespace.
pub open spec fn all_whitespace(s: Seq<char>) -> bool {
    forall|i: int| 0 <= i < s.len() ==> is_whitespace(#[trigger] s[i])
}

/// A placeholder value that cannot name a location: null, or a string of
/// whitespace only.
pub open spec fn blank(j: Json) -> bool {
    match j {
        Json::Null => true,
        Json::String(s) => all_whitespace(s),
        _ => false,
    }
}

/// Whether object `m` holds a usable value for placeholder `p`.
pub open spec fn param_present(m: Map<Seq<char>, Json>, p: Seq<char>) -> bool {
    m.contains_key(p) && !blank(m[p])
}

/// Whether `params[..i]` are all usable in object `m`.
pub open spec fn params_present_before(
    m: Map<Seq<char>, Json>,
    params: Seq<String>,
    i: int,
) -> bool {
    forall|j: int| 0 <= j < i ==> param_present(m, #[trigger] params[j]@)
}

pub fn is_whitespace_char(c: char) -> (r: bool)
    ensures
        r == is_whitespace(c),
{
    let u = c as u32;
    (0x9 <= u && u <= 0xd) || u == 0x20 || u == 0x85 || u == 0xa0 || u == 0x1680 || (0x2000 <= u
        && u <= 0x200a) || u == 0x2028 || u == 0x2029 || u == 0x202f || u == 0x205f || u == 0x3000
}

/// Whether a string holds whitespace only, as `str::trim` leaves it empty.
pub fn is_all_whitespace(s: &String) -> (r: bool)
    ensures
        r == all_whitespace(s@),
{
    let t = s.as_str();
    let n = t.unicode_len();
    let mut i: usize = 0;
    while i < n
        invariant
            i <= n,
            n == s@.len(),
            t@ == s@,
            forall|j: int| 0 <= j < i ==> is_whitespace(#[trigger] s@[j]),
        decreases n - i,
    {
        if !is_whitespace_char(t.get_char(i)) {
            assert(!is_whitespace(s@[i as int]));
            return false;
        }
        i = i + 1;
    }
    true
}

/// Whether a placeholder value is null or a whitespace-only string.
pub fn is_empty_path_value(value: &Tree) -> (r: bool)
    ensures
        r == blank(value@),
{
    match value {
        Tree::Null => true,
        Tree::String(s) => is_all_whitespace(s),
        _ => false,
    }
}

/// Whether `key` is one of `params`.
pub fn is_param(params: &Vec<String>, key: &String) -> (r: bool)
    ensures
        r == names(params@).contains(key@),
{
    let mut i: usize = 0;
    while i < params.len()
        invariant
            i <= params.len(),
            forall|j: int| 0 <= j < i ==> params@[j]@ != key@,
        decreases params.len() - i,
    {
        if params[i] == *key {
            return true;
        }
        i = i + 1;
    }
    false
}

/// Sets `key` to `v` in a list of object entries, replacing the entry that
/// counts for it or adding one.
pub fn insert_entry(es: &mut Vec<(String, Tree)>, key: String, v: Tree)
    ensures
        json_of_entries(final(es)@) == json_of_entries(old(es)@).insert(key@, v@),
{
    match find_key(es, &key) {
        Some(i) => {
            let e = (key, v);
            proof {
                lemma_entries_update(es@, i as int, e);
            }
            es.set(i, e);
        },
        None => {
            let e = (key, v);
            proof {
                lemma_entries_push(es@, e);
            }
            es.push(e);
        },
    }
}

/// The entries whose keys are none of `keys`.
pub fn entries_without(es: &Vec<(String, Tree)>, keys: &Vec<String>) -> (r: Vec<(String, Tree)>)
    ensures
        json_of_entries(r@) == json_of_entries(es@).remove_keys(names(keys@)),
{
    let ghost ps = names(keys@);
    let mut out: Vec<(String, Tree)> = Vec::new();
    let mut i: usize = 0;
    while i < es.len()
        invariant
            i <= es.len(),
            ps == names(keys@),
            json_of_entries(out@) == json_of_entries(es@.subrange(0, i as int)).remove_keys(ps),
        decreases es.len() - i,
    {
        let ghost pre = es@.subrange(0, i as int);
        proof {
            assert(es@.subrange(0, i + 1) =~= pre.push(es@[i as int]));
            lemma_entries_push(pre, es@[i as int]);
        }
        if !is_param(keys, &es[i].0) {
            let e = (es[i].0.clone(), copy_value(&es[i].1));
            proof {
                lemma_entries_push(out@, e);
            }
            out.push(e);
        }
        proof {
            assert(json_of_entries(out@) =~= json_of_entries(es@.subrange(0, i + 1)).remove_keys(
                ps,
            ));
        }
        i = i + 1;
    }
    proof {
        assert(es@.subrange(0, es.len() as int) =~= es@);
    }
    out
}

/// Takes the placeholder fields out of a delta: they name the file, they are
/// not stored in it. An object left empty becomes `None`.
pub fn strip_path_params(delta: Option<Tree>, params: &Vec<String>) -> (r: Option<Tree>)
    ensures
        opt_json(r) == without_params(opt_json(delta), names(params@)),
{
    match delta {
        Some(Tree::Object(es)) => {
            let ghost ps = names(params@);
            let ghost m = json_of_entries(es@);
            let out = entries_without(&es, params);
            if out.len() == 0 {
                proof {
                    assert(json_of_entries(out@) == Map::<Seq<char>, Json>::empty());
                    assert forall|k: Seq<char>| m.dom().contains(k) implies ps.contains(k) by {
                        if !ps.contains(k) {
                            assert(m.remove_keys(ps).contains_key(k));
                        }
                    }
                }
                None
            } else {
                proof {
                    assert(out@ =~= out@.drop_last().push(out@.last()));
                    lemma_entries_push(out@.drop_last(), out@.last());
                    let k = out@.last().0@;
                    assert(json_of_entries(out@).contains_key(k));
                    assert(!ps.contains(k));
                    assert(m.dom().contains(k));
                }
                Some(Tree::Object(out))
            }
        },
        other => other,
    }
}

/// What a section stores: its delta against the defaults, without the
/// placeholder fields; `None` when nothing is left to store.
pub fn save_payload(settings: &Tree, defaults: &Tree, params: &Vec<String>) -> (r: Option<
    Tree,
>)
    ensures
        opt_json(r) == without_params(delta(settings@, defaults@), names(params@)),
{
    strip_path_params(compute_delta(settings, defaults), params)
}

/// Copies the placeholder fields that `source` holds into `target`, so that
/// the identity a caller chose survives a reload or a reset to defaults.
pub fn copy_params(source: &Tree, target: &mut Tree, params: &Vec<String>)
    ensures
        final(target)@ == with_params(source@, old(target)@, names(params@)),
{
    match source {
        Tree::Object(ss) => {
            match target {
                Tree::Object(ts) => {
                    let ghost s = json_of_entries(ss@);
                    let ghost t = json_of_entries(ts@);
                    let mut i: usize = 0;
                    while i < params.len()
                        invariant
                            i <= params.len(),
                            s == json_of_entries(ss@),
                            json_of_entries(ts@) == t.union_prefer_right(
                                s.restrict(names(params@.subrange(0, i as int))),
                            ),
                        decreases params.len() - i,
                    {
                        let ghost before = json_of_entries(ts@);
                        let p = &params[i];
                        proof {
                            assert forall|k: Seq<char>|
                                names(params@.subrange(0, i + 1)).contains(k) == (names(
                                    params@.subrange(0, i as int),
                                ).contains(k) || k == p@) by {
                                if names(params@.subrange(0, i + 1)).contains(k) {
                                    let j = choose|j: int|
                                        0 <= j < i + 1 && (#[trigger] params@.subrange(0, i + 1)[j])@ == k;
                                    if j < i {
                                        assert(params@.subrange(0, i as int)[j]@ == k);
                                    }
                                }
                                if names(params@.subrange(0, i as int)).contains(k) {
                                    let j = choose|j: int|
                                        0 <= j < i && (#[trigger] params@.subrange(0, i as int)[j])@ == k;
                                    assert(params@.subrange(0, i + 1)[j]@ == k);
                                }
                                if k == p@ {
                                    assert(params@.subrange(0, i + 1)[i as int]@ == k);
                                }
                            }
                        }
                        match find_key(ss, p) {
                            Some(j) => {
                                proof {
                                    lemma_entries_last(ss@, j as int);
                                }
                                insert_entry(ts, p.clone(), copy_value(&ss[j].1));
                                proof {
                                    let n0 = names(params@.subrange(0, i as int));
                                    let n1 = names(params@.subrange(0, i + 1));
                                    let goal = t.union_prefer_right(s.restrict(n1));
                                    assert forall|k: Seq<char>| #[trigger] goal.dom().contains(k)
                                        == json_of_entries(ts@).dom().contains(k) by {
                                        assert(n1.contains(k) == (n0.contains(k) || k == p@));
                                    }
                                    assert forall|k: Seq<char>| #[trigger] goal.dom().contains(k)
                                        implies goal[k] == json_of_entries(ts@)[k] by {
                                        assert(n1.contains(k) == (n0.contains(k) || k == p@));
                                    }
                                    assert(json_of_entries(ts@) =~= goal);
                                }
                            },
                            None => {
                                proof {
                                    lemma_entries_dom(ss@, p@);
                                    assert(json_of_entries(ts@) =~= t.union_prefer_right(
                                        s.restrict(names(params@.subrange(0, i + 1))),
                                    ));
                                }
                            },
                        }
                        i = i + 1;
                    }
                    proof {
                        assert(params@.subrange(0, params.len() as int) =~= params@);
                    }
                },
                _ => {},
            }
        },
        _ => {},
    }
}

/// Whether every placeholder field is present and usable.
pub open spec fn params_usable(settings: Json, params: Seq<String>) -> bool {
    params.len() == 0 || (settings is Object && params_present_before(
        settings->Object_0,
        params,
        params.len() as int,
    ))
}

/// Whether `r` is the outcome of checking the placeholder fields: success
/// exactly when all are usable, else the first failing one.
pub open spec fn params_checked(settings: Json, params: Seq<String>, r: Result<(), PathError>) -> bool {
    match r {
        Ok(()) => params_usable(settings, params),
        Err(PathError::NotAnObject) => params.len() > 0 && !(settings is Object),
        Err(PathError::MissingParam(n)) => settings is Object && exists|i: int|
            0 <= i < params.len() && params_present_before(settings->Object_0, params, i)
                && !settings->Object_0.contains_key(params[i]@) && n@ == params[i]@,
        Err(PathError::EmptyParam(n)) => settings is Object && exists|i: int|
            0 <= i < params.len() && params_present_before(settings->Object_0, params, i)
                && settings->Object_0.contains_key(params[i]@) && blank(
                settings->Object_0[params[i]@],
            ) && n@ == params[i]@,
        Err(PathError::InvalidParam(_)) => false,
    }
}

/// Checks that every placeholder field is present and usable, before a path
/// is built from them; the first failing one is reported.
pub fn check_path_params(settings: &Tree, params: &Vec<String>) -> (r: Result<(), PathError>)
    ensures
        params_checked(settings@, params@, r),
{
    if params.len() == 0 {
        return Ok(());
    }
    match settings {
        Tree::Object(es) => {
            let ghost m = json_of_entries(es@);
            let mut i: usize = 0;
            while i < params.len()
                invariant
                    i <= params.len(),
                    m == json_of_entries(es@),
                    settings@ == Json::Object(m),
                    params_present_before(m, params@, i as int),
                decreases params.len() - i,
            {
                match settings.get(params[i].as_str()) {
                    None => {
                        return Err(PathError::MissingParam(params[i].clone()));
                    },
                    Some(v) => {
                        if is_empty_path_value(v) {
                            return Err(PathError::EmptyParam(params[i].clone()));
                        }
                    },
                }
                i = i + 1;
            }
            Ok(())
        },
        _ => Err(PathError::NotAnObject),
    }
}

/// The value a section takes on load: the stored delta (if any) laid over the
/// defaults, with the placeholder fields of the value held before the load.
pub fn reload_settings(
    current: &Tree,
    defaults: &Tree,
    stored: Option<&Tree>,
    params: &Vec<String>,
) -> (r: Tree)
    ensures
        r@ == with_params(
            current@,
            merge_delta(
                defaults@,
                match stored {
                    Some(d) => Some(d@),
                    None => None,
                },
            ),
            names(params@),
        ),
{
    let mut v = merge_with_defaults(defaults, stored);
    copy_params(current, &mut v, params);
    v
}

/// A placeholder field survives a save and a reload: the stored payload never
/// holds it, and the reloaded value has it as the value held before.
pub proof fn lemma_param_survives_reload(
    live: Json,
    defaults: Json,
    ps: Set<Seq<char>>,
    p: Seq<char>,
)
    requires
        live is Object,
        defaults is Object,
        ps.contains(p),
        live->Object_0.contains_key(p),
    ensures
        ({
            let stored = without_params(delta(live, defaults), ps);
            let back = with_params(live, merge_delta(defaults, stored), ps);
            &&& stored matches Some(Json::Object(m)) ==> !m.contains_key(p)
            &&& back is Object
            &&& back->Object_0.contains_key(p)
            &&& back->Object_0[p] == live->Object_0[p]
        }),
{
}

/// Saving a value and loading it again gives the value back, placeholder
/// fields included, wherever the value has every key of its defaults.
pub proof fn lemma_reload_after_save(v: Json, d: Json, ps: Set<Seq<char>>)
    requires
        covers(v, d),
        v is Object,
        d is Object,
    ensures
        with_params(v, merge_delta(d, without_params(delta(v, d), ps)), ps) == v,
{
    lemma_round_trip(v, d);
    let c = v->Object_0;
    let dm = d->Object_0;
    match delta(v, d) {
        None => {
            assert(dm.union_prefer_right(c.restrict(ps)) =~= c);
        },
        Some(x) => {
            let m = x->Object_0;
            let full = merge(d, x)->Object_0;
            assert(full =~= c);
            if m.dom().subset_of(ps) {
                assert forall|k: Seq<char>| #[trigger] c.contains_key(k) && !ps.contains(k) implies dm.contains_key(k) && dm[k] == c[k] by {
                    assert(full.contains_key(k));
                    assert(!m.contains_key(k));
                }
                assert(dm.union_prefer_right(c.restrict(ps)) =~= c);
            } else {
                let m2 = m.remove_keys(ps);
                let part = merge(d, Json::Object(m2))->Object_0;
                assert forall|k: Seq<char>| #[trigger] part.contains_key(k) && !ps.contains(k) implies c.contains_key(k) && part[k] == c[k] by {
                    assert(full.contains_key(k));
                }
                assert forall|k: Seq<char>| #[trigger] c.contains_key(k) && !ps.contains(k) implies part.contains_key(k) by {
                    assert(full.contains_key(k));
                }
                assert(part.union_prefer_right(c.restrict(ps)) =~= c);
            }
        },
    }
}

} // verus!
