use vstd::prelude::*;
use vstd::string::{StrSliceExecFns, StringExecFns};

use crate::delta::{delta, opt_json};
use crate::params::{
    PathError, blank, check_path_params, is_empty_path_value, names, params_checked,
    params_usable, save_payload, without_params,
};
use crate::value::{Json, Number, Tree};

verus! {

/// Where a placeholder of a template cannot be filled.
pub enum Fault {
    Missing(Seq<char>),
    Empty(Seq<char>),
    Invalid(Seq<char>),
}

/// Position of the first `c` in `s` at or after `from`; `s.len()` if none.
pub open spec fn find_from(s: Seq<char>, c: char, from: int) -> int
    decreases s.len() - from,
{
    if from >= s.len() {
        s.len() as int
    } else if s[from] == c {
        from
    } else {
        find_from(s, c, from + 1)
    }
}

pub proof fn lemma_find_from_bounds(s: Seq<char>, c: char, from: int)
    requires
        0 <= from <= s.len(),
    ensures
        from <= find_from(s, c, from) <= s.len(),
    decreases s.len() - from,
{
    if from < s.len() && s[from] != c {
        lemma_find_from_bounds(s, c, from + 1);
    }
}

/// The placeholder names of a template from position `from` on, left to right:
/// each `{name}` with a non-empty name. An unterminated `{` ends the scan.
pub open spec fn params_from(s: Seq<char>, from: int) -> Seq<Seq<char>>
    decreases s.len() - from,
    via params_from_decreases
{
    if from < 0 || from > s.len() {
        Seq::empty()
    } else {
        let open = find_from(s, '{', from);
        if open >= s.len() {
            Seq::empty()
        } else {
            let close = find_from(s, '}', open + 1);
            if close >= s.len() {
                Seq::empty()
            } else {
                let name = s.subrange(open + 1, close);
                let rest = params_from(s, close + 1);
                if name.len() == 0 {
                    rest
                } else {
                    seq![name] + rest
                }
            }
        }
    }
}

#[via_fn]
proof fn params_from_decreases(s: Seq<char>, from: int) {
    if 0 <= from <= s.len() {
        lemma_find_from_bounds(s, '{', from);
        let open = find_from(s, '{', from);
        if open < s.len() {
            lemma_find_from_bounds(s, '}', open + 1);
        }
    }
}

/// The decimal digits.
pub open spec fn digits() -> Seq<char> {
    seq!['0', '1', '2', '3', '4', '5', '6', '7', '8', '9']
}

/// The decimal form of a natural number, without leading zeros.
pub open spec fn decimal(n: nat) -> Seq<char>
    decreases n,
{
    if n < 10 {
        seq![digits()[n as int]]
    } else {
        decimal(n / 10).push(digits()[(n % 10) as int])
    }
}

/// The text that a field value puts in a path: a string as it is, a boolean
/// as `true` or `false`, an integer in decimal. Other values have none.
pub open spec fn text_of(j: Json) -> Option<Seq<char>> {
    match j {
        Json::String(s) => Some(s),
        Json::Bool(b) => Some(
            if b {
                seq!['t', 'r', 'u', 'e']
            } else {
                seq!['f', 'a', 'l', 's', 'e']
            },
        ),
        Json::Number(Number::PosInt(n)) => Some(decimal(n as nat)),
        Json::Number(Number::NegInt(n)) => Some(
            if n < 0 {
                seq!['-'] + decimal((-n) as nat)
            } else {
                decimal(n as nat)
            },
        ),
        _ => None,
    }
}

/// What placeholder `name` is replaced by, taken from the fields `m`.
pub open spec fn substitution(m: Map<Seq<char>, Json>, name: Seq<char>) -> Result<
    Seq<char>,
    Fault,
> {
    if !m.contains_key(name) {
        Err(Fault::Missing(name))
    } else if blank(m[name]) {
        Err(Fault::Empty(name))
    } else {
        match text_of(m[name]) {
            Some(t) => Ok(t),
            None => Err(Fault::Invalid(name)),
        }
    }
}

/// The template from position `from` on with every `{name}` replaced, or the
/// fault of the first placeholder that cannot be filled. Text outside
/// placeholders, `{}` and an unterminated `{` stay as they are.
pub open spec fn resolved_from(s: Seq<char>, m: Map<Seq<char>, Json>, from: int) -> Result<
    Seq<char>,
    Fault,
>
    decreases s.len() - from,
    via resolved_from_decreases
{
    if from < 0 || from > s.len() {
        Ok(Seq::empty())
    } else {
        let open = find_from(s, '{', from);
        let close = find_from(s, '}', open + 1);
        if open >= s.len() || close >= s.len() {
            Ok(s.subrange(from, s.len() as int))
        } else {
            let head = s.subrange(from, open);
            let name = s.subrange(open + 1, close);
            let filled = if name.len() == 0 {
                Ok(seq!['{', '}'])
            } else {
                substitution(m, name)
            };
            match filled {
                Err(f) => Err(f),
                Ok(v) => match resolved_from(s, m, close + 1) {
                    Ok(t) => Ok(head + v + t),
                    Err(f) => Err(f),
                },
            }
        }
    }
}

#[via_fn]
proof fn resolved_from_decreases(s: Seq<char>, m: Map<Seq<char>, Json>, from: int) {
    if 0 <= from <= s.len() {
        lemma_find_from_bounds(s, '{', from);
        let open = find_from(s, '{', from);
        if open < s.len() {
            lemma_find_from_bounds(s, '}', open + 1);
        }
    }
}

/// The names of a list of strings.
pub open spec fn texts(v: Seq<String>) -> Seq<Seq<char>> {
    v.map_values(|x: String| x@)
}

fn find_char_from(t: &str, n: usize, c: char, from: usize) -> (r: usize)
    requires
        n == t@.len(),
        from <= n,
    ensures
        r == find_from(t@, c, from as int),
        from <= r <= n,
{
    let mut i: usize = from;
    while i < n
        invariant
            from <= i <= n,
            n == t@.len(),
            find_from(t@, c, i as int) == find_from(t@, c, from as int),
        decreases n - i,
    {
        if t.get_char(i) == c {
            return i;
        }
        i = i + 1;
    }
    i
}

/// The placeholder names of a path template, left to right (see
/// [`params_from`]).
pub fn extract_params(template: &str) -> (r: Vec<String>)
    ensures
        texts(r@) == params_from(template@, 0),
{
    let n = template.unicode_len();
    let mut out: Vec<String> = Vec::new();
    let mut pos: usize = 0;
    while pos < n
        invariant
            pos <= n,
            n == template@.len(),
            texts(out@) + params_from(template@, pos as int) == params_from(template@, 0),
        decreases n - pos,
    {
        let ghost s = template@;
        let open = find_char_from(template, n, '{', pos);
        if open >= n {
            proof {
                assert(texts(out@) + params_from(s, pos as int) =~= texts(out@));
            }
            return out;
        }
        let close = find_char_from(template, n, '}', open + 1);
        if close >= n {
            proof {
                assert(texts(out@) + params_from(s, pos as int) =~= texts(out@));
            }
            return out;
        }
        if close > open + 1 {
            let name = String::from_str(template.substring_char(open + 1, close));
            proof {
                assert(texts(out@.push(name)) =~= texts(out@).push(name@));
                assert(texts(out@).push(name@) + params_from(s, close + 1) =~= texts(out@) + (seq![
                    name@,
                ] + params_from(s, close + 1)));
            }
            out.push(name);
        }
        pos = close + 1;
    }
    proof {
        assert(params_from(template@, pos as int) == Seq::<Seq<char>>::empty());
        assert(texts(out@) + Seq::<Seq<char>>::empty() =~= texts(out@));
    }
    out
}

/// The decimal form of a number.
pub fn decimal_text(n: u64) -> (r: String)
    ensures
        r@ == decimal(n as nat),
    decreases n,
{
    let table = "0123456789";
    proof {
        reveal_strlit("0123456789");
        assert(table@ =~= digits());
    }
    if n < 10 {
        let d = n as usize;
        let r = String::from_str(table.substring_char(d, d + 1));
        proof {
            assert(r@ =~= seq![digits()[d as int]]);
        }
        r
    } else {
        let mut r = decimal_text(n / 10);
        let d = (n % 10) as usize;
        let piece = table.substring_char(d, d + 1);
        proof {
            assert(piece@ =~= seq![digits()[d as int]]);
        }
        r.append(piece);
        proof {
            assert(r@ =~= decimal(n as nat));
        }
        r
    }
}

/// The text that a field value puts in a path, if it has one (see
/// [`text_of`]).
pub fn path_text(v: &Tree) -> (r: Option<String>)
    ensures
        match r {
            Some(t) => text_of(v@) == Some(t@),
            None => text_of(v@) is None,
        },
{
    match v {
        Tree::String(s) => Some(s.clone()),
        Tree::Bool(b) => {
            proof {
                reveal_strlit("true");
                reveal_strlit("false");
                assert("true"@ =~= seq!['t', 'r', 'u', 'e']);
                assert("false"@ =~= seq!['f', 'a', 'l', 's', 'e']);
            }
            if *b {
                Some(String::from_str("true"))
            } else {
                Some(String::from_str("false"))
            }
        },
        Tree::Number(Number::PosInt(n)) => Some(decimal_text(*n)),
        Tree::Number(Number::NegInt(n)) => {
            if *n < 0 {
                let magnitude = (-(*n as i128)) as u64;
                let mut r = String::from_str("-");
                proof {
                    reveal_strlit("-");
                    assert("-"@ =~= seq!['-']);
                }
                let digits_text = decimal_text(magnitude);
                r.append(digits_text.as_str());
                Some(r)
            } else {
                Some(decimal_text(*n as u64))
            }
        },
        _ => None,
    }
}

/// Whether `r` is the outcome of filling template `s` from `fields`: the
/// path, or the fault of the first placeholder that cannot be filled.
pub open spec fn path_resolved(s: Seq<char>, fields: Json, r: Result<String, PathError>) -> bool {
    match r {
        Ok(p) => fields is Object && resolved_from(s, fields->Object_0, 0) == Ok::<
            Seq<char>,
            Fault,
        >(p@),
        Err(PathError::MissingParam(n)) => fields is Object && resolved_from(
            s,
            fields->Object_0,
            0,
        ) == Err::<Seq<char>, Fault>(Fault::Missing(n@)),
        Err(PathError::EmptyParam(n)) => fields is Object && resolved_from(s, fields->Object_0, 0)
            == Err::<Seq<char>, Fault>(Fault::Empty(n@)),
        Err(PathError::InvalidParam(n)) => fields is Object && resolved_from(
            s,
            fields->Object_0,
            0,
        ) == Err::<Seq<char>, Fault>(Fault::Invalid(n@)),
        Err(PathError::NotAnObject) => !(fields is Object),
    }
}

/// Builds a path from a template by replacing every `{name}` with the text of
/// field `name` of `fields`. Fails on the first placeholder whose field is
/// missing, null or blank, or has no text form.
pub fn resolve(template: &str, fields: &Tree) -> (r: Result<String, PathError>)
    ensures
        path_resolved(template@, fields@, r),
{
    if !(match fields {
        Tree::Object(_) => true,
        _ => false,
    }) {
        return Err(PathError::NotAnObject);
    }
    let ghost s = template@;
    let ghost m = fields@->Object_0;
    let n = template.unicode_len();
    let mut out = String::new();
    let mut pos: usize = 0;
    while pos < n
        invariant
            pos <= n,
            n == s.len(),
            s == template@,
            fields@ is Object,
            m == fields@->Object_0,
            resolved_from(s, m, 0) == match resolved_from(s, m, pos as int) {
                Ok(t) => Ok(out@ + t),
                Err(f) => Err::<Seq<char>, Fault>(f),
            },
        decreases n - pos,
    {
        let open = find_char_from(template, n, '{', pos);
        let close = if open < n {
            find_char_from(template, n, '}', open + 1)
        } else {
            n
        };
        proof {
            if open >= n {
                lemma_find_from_bounds(s, '}', s.len() as int);
            }
        }
        if open >= n || close >= n {
            let tail = template.substring_char(pos, n);
            let ghost before = out@;
            out.append(tail);
            proof {
                assert(out@ =~= before + s.subrange(pos as int, s.len() as int));
                assert(resolved_from(s, m, pos as int) == Ok::<Seq<char>, Fault>(
                    s.subrange(pos as int, s.len() as int),
                ));
            }
            return Ok(out);
        }
        let head = template.substring_char(pos, open);
        let ghost before = out@;
        let name = template.substring_char(open + 1, close);
        if close == open + 1 {
            out.append(head);
            out.append("{}");
            proof {
                reveal_strlit("{}");
                assert("{}"@ =~= seq!['{', '}']);
                assert(out@ =~= before + s.subrange(pos as int, open as int) + seq!['{', '}']);
            }
        } else {
            match fields.get(name) {
                None => {
                    return Err(PathError::MissingParam(String::from_str(name)));
                },
                Some(v) => {
                    if is_empty_path_value(v) {
                        return Err(PathError::EmptyParam(String::from_str(name)));
                    }
                    match path_text(v) {
                        None => {
                            return Err(PathError::InvalidParam(String::from_str(name)));
                        },
                        Some(t) => {
                            out.append(head);
                            out.append(t.as_str());
                            proof {
                                assert(out@ =~= before + s.subrange(pos as int, open as int)
                                    + t@);
                            }
                        },
                    }
                },
            }
        }
        proof {
            let v = if close == open + 1 {
                seq!['{', '}']
            } else {
                substitution(m, s.subrange(open + 1, close as int))->Ok_0
            };
            match resolved_from(s, m, close + 1) {
                Ok(t) => {
                    assert(before + (s.subrange(pos as int, open as int) + v + t) =~= out@ + t);
                },
                Err(f) => {},
            }
        }
        pos = close + 1;
    }
    proof {
        assert(resolved_from(s, m, pos as int) == Ok::<Seq<char>, Fault>(Seq::empty())) by {
            lemma_find_from_bounds(s, '{', pos as int);
            lemma_find_from_bounds(s, '}', s.len() as int);
            assert(s.subrange(pos as int, s.len() as int) =~= Seq::<char>::empty());
        }
        assert(out@ + Seq::<char>::empty() =~= out@);
    }
    Ok(out)
}

/// What saving a settings group comes to, before any file is touched: the
/// placeholder fields are checked, the template is filled from them, and the
/// payload is the delta against the defaults without those fields (`None`:
/// the file is to be removed).
pub fn plan_group_save(
    settings: &Tree,
    defaults: &Tree,
    template: &str,
    params: &Vec<String>,
) -> (r: Result<(String, Option<Tree>), PathError>)
    ensures
        match r {
            Ok((p, payload)) => params_usable(settings@, params@) && path_resolved(
                template@,
                settings@,
                Ok(p),
            ) && opt_json(payload) == without_params(delta(settings@, defaults@), names(params@)),
            Err(e) => if params_usable(settings@, params@) {
                path_resolved(template@, settings@, Err(e))
            } else {
                params_checked(settings@, params@, Err(e))
            },
        },
{
    match check_path_params(settings, params) {
        Err(e) => Err(e),
        Ok(()) => match resolve(template, settings) {
            Err(e) => Err(e),
            Ok(p) => Ok((p, save_payload(settings, defaults, params))),
        },
    }
}

} // verus!
