use vstd::prelude::*;

verus! {

broadcast use vstd::std_specs::vec::group_vec_axioms;

/// A number held by a [`Tree`].
///
/// Integers keep their sign class, as in the JSON data model: a non-negative
/// integer is `PosInt`, a negative one `NegInt`. A floating-point number is
/// carried by its IEEE-754 bit pattern, so two floats are equal when their
/// bits are.
#[derive(Debug, Clone, Copy, PartialEq, Eq, Structural)]
pub enum Number {
    PosInt(u64),
    NegInt(i64),
    Float(u64),
}

/// The mathematical model of a [`Tree`]: a tree whose objects are finite maps,
/// so that the order in which an object's entries were written is irrelevant.
pub enum Json {
    Null,
    Bool(bool),
    Number(Number),
    String(Seq<char>),
    Array(Seq<Json>),
    Object(Map<Seq<char>, Json>),
}

/// A semi-structured value: the common intermediate form of every encoding and
/// of the delta and merge operations.
///
/// An object is a list of `(key, value)` entries. Where a key occurs twice the
/// later entry is the one that counts, as in the model [`json_of`].
#[derive(Debug)]
pub enum Tree {
    Null,
    Bool(bool),
    Number(Number),
    String(String),
    Array(Vec<Tree>),
    Object(Vec<(String, Tree)>),
}

/// The model of a value.
pub open spec fn json_of(v: Tree) -> Json
    decreases v,
{
    match v {
        Tree::Null => Json::Null,
        Tree::Bool(b) => Json::Bool(b),
        Tree::Number(n) => Json::Number(n),
        Tree::String(s) => Json::String(s@),
        Tree::Array(items) => Json::Array(json_of_items(items@)),
        Tree::Object(es) => Json::Object(json_of_entries(es@)),
    }
}

/// The models of a sequence of values.
pub open spec fn json_of_items(items: Seq<Tree>) -> Seq<Json>
    decreases items,
{
    if items.len() == 0 {
        Seq::empty()
    } else {
        json_of_items(items.drop_last()).push(json_of(items.last()))
    }
}

/// The map that a sequence of object entries describes; a later entry
/// overrides an earlier one with the same key.
pub open spec fn json_of_entries(es: Seq<(String, Tree)>) -> Map<Seq<char>, Json>
    decreases es,
{
    if es.len() == 0 {
        Map::empty()
    } else {
        json_of_entries(es.drop_last()).insert(es.last().0@, json_of(es.last().1))
    }
}

impl View for Tree {
    type V = Json;

    open spec fn view(&self) -> Json {
        json_of(*self)
    }
}

/// Whether entry `i` is the last one with its key, the one that counts.
pub open spec fn is_last(es: Seq<(String, Tree)>, i: int) -> bool {
    0 <= i < es.len() && forall|j: int| i < j < es.len() ==> es[j].0@ != es[i].0@
}

/// Whether some entry has key `k`.
pub open spec fn has_key(es: Seq<(String, Tree)>, k: Seq<char>) -> bool {
    exists|i: int| 0 <= i < es.len() && es[i].0@ == k
}

/// The models of a list of values, one by one.
pub proof fn lemma_items(s: Seq<Tree>)
    ensures
        json_of_items(s).len() == s.len(),
        forall|i: int| 0 <= i < s.len() ==> json_of_items(s)[i] == json_of(#[trigger] s[i]),
    decreases s.len(),
{
    if s.len() > 0 {
        lemma_items(s.drop_last());
        assert forall|i: int| 0 <= i < s.len() implies json_of_items(s)[i] == json_of(
            #[trigger] s[i],
        ) by {
            if i < s.len() - 1 {
                assert(s.drop_last()[i] == s[i]);
            }
        }
    }
}

/// Adding a value at the end adds its model at the end.
pub proof fn lemma_items_push(s: Seq<Tree>, v: Tree)
    ensures
        json_of_items(s.push(v)) == json_of_items(s).push(json_of(v)),
{
    assert(s.push(v).drop_last() =~= s);
}

/// Adding an entry at the end sets its key.
pub proof fn lemma_entries_push(es: Seq<(String, Tree)>, e: (String, Tree))
    ensures
        json_of_entries(es.push(e)) == json_of_entries(es).insert(e.0@, json_of(e.1)),
{
    assert(es.push(e).drop_last() =~= es);
}

/// The last entry with a key gives that key's value.
pub proof fn lemma_entries_last(es: Seq<(String, Tree)>, i: int)
    requires
        is_last(es, i),
    ensures
        json_of_entries(es).contains_key(es[i].0@),
        json_of_entries(es)[es[i].0@] == json_of(es[i].1),
    decreases es.len(),
{
    if i < es.len() - 1 {
        assert(es.drop_last()[i] == es[i]);
        lemma_entries_last(es.drop_last(), i);
    }
}

/// A key is in the map exactly when an entry has it, and then it has a last one.
pub proof fn lemma_entries_dom(es: Seq<(String, Tree)>, k: Seq<char>)
    ensures
        json_of_entries(es).contains_key(k) <==> has_key(es, k),
        json_of_entries(es).contains_key(k) ==> exists|i: int| is_last(es, i) && es[i].0@ == k,
    decreases es.len(),
{
    if es.len() > 0 {
        let p = es.drop_last();
        lemma_entries_dom(p, k);
        if es.last().0@ == k {
            assert(is_last(es, es.len() - 1));
        } else if json_of_entries(es).contains_key(k) {
            let i = choose|i: int| is_last(p, i) && p[i].0@ == k;
            assert forall|j: int| i < j < es.len() implies es[j].0@ != es[i].0@ by {
                if j < es.len() - 1 {
                    assert(p[j] == es[j]);
                }
            }
            assert(p[i] == es[i]);
            assert(is_last(es, i));
        }
        if has_key(es, k) && es.last().0@ != k {
            let i = choose|i: int| 0 <= i < es.len() && es[i].0@ == k;
            assert(p[i] == es[i]);
        }
        if has_key(p, k) {
            let i = choose|i: int| 0 <= i < p.len() && p[i].0@ == k;
            assert(p[i] == es[i]);
        }
    }
}

/// Replacing the value of the entry that counts for its key.
pub proof fn lemma_entries_update(es: Seq<(String, Tree)>, j: int, e: (String, Tree))
    requires
        is_last(es, j),
        e.0@ == es[j].0@,
    ensures
        json_of_entries(es.update(j, e)) == json_of_entries(es).insert(e.0@, json_of(e.1)),
    decreases es.len(),
{
    let u = es.update(j, e);
    if j == es.len() - 1 {
        assert(u.drop_last() =~= es.drop_last());
    } else {
        let p = es.drop_last();
        assert(u.drop_last() =~= p.update(j, e));
        assert(p[j] == es[j]);
        lemma_entries_update(p, j, e);
        assert(u.last() == es.last());
        assert(json_of_entries(u) =~= json_of_entries(es).insert(e.0@, json_of(e.1)));
    }
}

/// Index of the entry that counts for `key`, if any entry has it.
pub fn find_key(es: &Vec<(String, Tree)>, key: &String) -> (r: Option<usize>)
    ensures
        match r {
            Some(i) => is_last(es@, i as int) && es@[i as int].0@ == key@,
            None => !has_key(es@, key@),
        },
{
    let mut found: Option<usize> = None;
    let mut i: usize = 0;
    while i < es.len()
        invariant
            i <= es.len(),
            match found {
                Some(f) => f < i && es@[f as int].0@ == key@ && forall|j: int|
                    f < j < i ==> es@[j].0@ != key@,
                None => forall|j: int| 0 <= j < i ==> es@[j].0@ != key@,
            },
        decreases es.len() - i,
    {
        if es[i].0 == *key {
            found = Some(i);
        }
        i = i + 1;
    }
    found
}

/// A copy of a value.
pub fn copy_value(v: &Tree) -> (r: Tree)
    ensures
        r@ == v@,
    decreases v,
{
    match v {
        Tree::Null => Tree::Null,
        Tree::Bool(b) => Tree::Bool(*b),
        Tree::Number(n) => Tree::Number(*n),
        Tree::String(s) => Tree::String(s.clone()),
        Tree::Array(items) => Tree::Array(copy_items(items)),
        Tree::Object(es) => Tree::Object(copy_entries(es)),
    }
}

/// A copy of a list of values.
pub fn copy_items(items: &Vec<Tree>) -> (r: Vec<Tree>)
    ensures
        json_of_items(r@) == json_of_items(items@),
    decreases items,
{
    let mut out: Vec<Tree> = Vec::new();
    let mut i: usize = 0;
    while i < items.len()
        invariant
            i <= items.len(),
            json_of_items(out@) == json_of_items(items@.subrange(0, i as int)),
        decreases items.len() - i,
    {
        let c = copy_value(&items[i]);
        proof {
            lemma_items_push(out@, c);
            lemma_items_push(items@.subrange(0, i as int), items@[i as int]);
            assert(items@.subrange(0, i as int).push(items@[i as int]) =~= items@.subrange(
                0,
                i + 1,
            ));
        }
        out.push(c);
        i = i + 1;
    }
    assert(items@.subrange(0, items.len() as int) =~= items@);
    out
}

/// A copy of a list of object entries.
pub fn copy_entries(es: &Vec<(String, Tree)>) -> (r: Vec<(String, Tree)>)
    ensures
        json_of_entries(r@) == json_of_entries(es@),
    decreases es,
{
    let mut out: Vec<(String, Tree)> = Vec::new();
    let mut i: usize = 0;
    while i < es.len()
        invariant
            i <= es.len(),
            json_of_entries(out@) == json_of_entries(es@.subrange(0, i as int)),
        decreases es.len() - i,
    {
        let e = (es[i].0.clone(), copy_value(&es[i].1));
        proof {
            lemma_entries_push(out@, e);
            lemma_entries_push(es@.subrange(0, i as int), es@[i as int]);
            assert(es@.subrange(0, i as int).push(es@[i as int]) =~= es@.subrange(0, i + 1));
        }
        out.push(e);
        i = i + 1;
    }
    assert(es@.subrange(0, es.len() as int) =~= es@);
    out
}

/// Whether two values are equal: objects are compared as maps.
pub fn equals(a: &Tree, b: &Tree) -> (r: bool)
    ensures
        r == (a@ == b@),
    decreases a,
{
    match a {
        Tree::Null => match b {
            Tree::Null => true,
            _ => false,
        },
        Tree::Bool(x) => match b {
            Tree::Bool(y) => *x == *y,
            _ => false,
        },
        Tree::Number(x) => match b {
            Tree::Number(y) => *x == *y,
            _ => false,
        },
        Tree::String(x) => match b {
            Tree::String(y) => *x == *y,
            _ => false,
        },
        Tree::Array(xs) => match b {
            Tree::Array(ys) => items_equal(xs, ys),
            _ => false,
        },
        Tree::Object(xs) => match b {
            Tree::Object(ys) => entries_equal(xs, ys),
            _ => false,
        },
    }
}

/// Whether two lists of values have equal models.
pub fn items_equal(xs: &Vec<Tree>, ys: &Vec<Tree>) -> (r: bool)
    ensures
        r == (json_of_items(xs@) == json_of_items(ys@)),
    decreases xs,
{
    proof {
        lemma_items(xs@);
        lemma_items(ys@);
    }
    if xs.len() != ys.len() {
        return false;
    }
    let mut i: usize = 0;
    while i < xs.len()
        invariant
            i <= xs.len(),
            xs.len() == ys.len(),
            json_of_items(xs@).len() == xs.len(),
            json_of_items(ys@).len() == ys.len(),
            forall|j: int| 0 <= j < xs.len() ==> json_of_items(xs@)[j] == json_of(#[trigger] xs@[j]),
            forall|j: int| 0 <= j < ys.len() ==> json_of_items(ys@)[j] == json_of(#[trigger] ys@[j]),
            forall|j: int| 0 <= j < i ==> json_of(#[trigger] xs@[j]) == json_of(ys@[j]),
        decreases xs.len() - i,
    {
        if !equals(&xs[i], &ys[i]) {
            assert(json_of_items(xs@)[i as int] != json_of_items(ys@)[i as int]);
            return false;
        }
        i = i + 1;
    }
    assert forall|j: int| 0 <= j < xs.len() implies json_of_items(xs@)[j] == json_of_items(
        ys@,
    )[j] by {
        assert(json_of(xs@[j]) == json_of(ys@[j]));
    }
    assert(json_of_items(xs@) =~= json_of_items(ys@));
    true
}

/// Whether two lists of object entries describe the same map.
pub fn entries_equal(xs: &Vec<(String, Tree)>, ys: &Vec<(String, Tree)>) -> (r: bool)
    ensures
        r == (json_of_entries(xs@) == json_of_entries(ys@)),
    decreases xs,
{
    let ghost mx = json_of_entries(xs@);
    let ghost my = json_of_entries(ys@);
    let mut i: usize = 0;
    while i < xs.len()
        invariant
            i <= xs.len(),
            mx == json_of_entries(xs@),
            my == json_of_entries(ys@),
            forall|j: int|
                0 <= j < i && #[trigger] is_last(xs@, j) ==> my.contains_key(xs@[j].0@) && my[xs@[j].0@]
                    == mx[xs@[j].0@],
        decreases xs.len() - i,
    {
        let key = &xs[i].0;
        if find_key(xs, key) == Some(i) {
            proof {
                lemma_entries_last(xs@, i as int);
            }
            match find_key(ys, key) {
                None => {
                    proof {
                        lemma_entries_dom(ys@, key@);
                    }
                    return false;
                },
                Some(j) => {
                    proof {
                        lemma_entries_last(ys@, j as int);
                    }
                    if !equals(&xs[i].1, &ys[j].1) {
                        return false;
                    }
                },
            }
        }
        i = i + 1;
    }
    let mut j: usize = 0;
    while j < ys.len()
        invariant
            j <= ys.len(),
            mx == json_of_entries(xs@),
            my == json_of_entries(ys@),
            forall|l: int| 0 <= l < j ==> #[trigger] has_key(xs@, ys@[l].0@),
        decreases ys.len() - j,
    {
        if find_key(xs, &ys[j].0).is_none() {
            proof {
                lemma_entries_dom(xs@, ys@[j as int].0@);
                let l = j as int;
                assert(0 <= l < ys@.len() && ys@[l].0@ == ys@[j as int].0@);
                lemma_entries_dom(ys@, ys@[j as int].0@);
            }
            return false;
        }
        j = j + 1;
    }
    proof {
        assert forall|k: Seq<char>| mx.contains_key(k) implies my.contains_key(k) && my[k]
            == mx[k] by {
            lemma_entries_dom(xs@, k);
            let l = choose|l: int| is_last(xs@, l) && xs@[l].0@ == k;
            assert(0 <= l < xs@.len());
            assert(is_last(xs@, l));
        }
        assert forall|k: Seq<char>| my.contains_key(k) implies mx.contains_key(k) by {
            lemma_entries_dom(ys@, k);
            lemma_entries_dom(xs@, k);
            let l = choose|l: int| 0 <= l < ys@.len() && ys@[l].0@ == k;
            assert(has_key(xs@, ys@[l].0@));
        }
        assert forall|k: Seq<char>| #[trigger] mx.dom().contains(k) == my.dom().contains(k) by {
            lemma_entries_dom(xs@, k);
            lemma_entries_dom(ys@, k);
            if mx.contains_key(k) {
                let l = choose|l: int| is_last(xs@, l) && xs@[l].0@ == k;
                assert(is_last(xs@, l));
                assert(my.contains_key(k));
            }
            if my.contains_key(k) {
                let l = choose|l: int| 0 <= l < ys@.len() && ys@[l].0@ == k;
                assert(has_key(xs@, ys@[l].0@));
                assert(mx.contains_key(k));
            }
        }
        assert(mx.dom() =~= my.dom());
        assert forall|k: Seq<char>| #[trigger] mx.contains_key(k) implies mx[k] == my[k] by {}
        assert(mx =~= my);
    }
    true
}

impl Tree {
    /// The value that an object holds under `key`; `None` for a missing key
    /// or a value that is no object.
    pub fn get(&self, key: &str) -> (r: Option<&Tree>)
        ensures
            match self@ {
                Json::Object(m) => match r {
                    Some(v) => m.contains_key(key@) && v@ == m[key@],
                    None => !m.contains_key(key@),
                },
                _ => r is None,
            },
    {
        match self {
            Tree::Object(es) => {
                let k = key.to_owned();
                match find_key(es, &k) {
                    Some(i) => {
                        proof {
                            lemma_entries_last(es@, i as int);
                        }
                        Some(&es[i].1)
                    },
                    None => {
                        proof {
                            lemma_entries_dom(es@, key@);
                        }
                        None
                    },
                }
            },
            _ => None,
        }
    }

    /// Whether this value is an object that holds `key`.
    pub fn contains_key(&self, key: &str) -> (r: bool)
        ensures
            r == (self@ is Object && self@->Object_0.contains_key(key@)),
    {
        self.get(key).is_some()
    }
}

impl PartialEq for Tree {
    fn eq(&self, other: &Tree) -> (r: bool) {
        equals(self, other)
    }
}

impl vstd::std_specs::cmp::PartialEqSpecImpl for Tree {
    open spec fn obeys_eq_spec() -> bool {
        true
    }

    open spec fn eq_spec(&self, other: &Tree) -> bool {
        self@ == other@
    }
}

} // verus!
