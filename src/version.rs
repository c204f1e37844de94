use vstd::prelude::*;
use vstd::string::StrSliceExecFns;

use crate::path::{find_from, lemma_find_from_bounds};

verus! {

/// A version tag: a semantic version `major.minor.patch`, with its
/// pre-release identifiers (`alpha.1` in `2.0.0-alpha.1`; empty for a
/// release). Build metadata takes no part in precedence and is not kept.
#[derive(Debug, PartialEq, Eq)]
pub struct Version {
    pub major: u64,
    pub minor: u64,
    pub patch: u64,
    pub pre: String,
}

/// The model of a version tag.
pub struct VersionTag {
    pub major: u64,
    pub minor: u64,
    pub patch: u64,
    pub pre: Seq<char>,
}

impl View for Version {
    type V = VersionTag;

    open spec fn view(&self) -> VersionTag {
        VersionTag { major: self.major, minor: self.minor, patch: self.patch, pre: self.pre@ }
    }
}

/// `-1`, `0` or `1` as `a` is below, equal to or above `b` in character
/// order, compared from position `k` on.
pub open spec fn text_cmp(a: Seq<char>, b: Seq<char>, k: int) -> int
    decreases a.len() - k,
{
    if k >= a.len() {
        if k >= b.len() {
            0
        } else {
            -1
        }
    } else if k >= b.len() {
        1
    } else if (a[k] as u32) < (b[k] as u32) {
        -1
    } else if (a[k] as u32) > (b[k] as u32) {
        1
    } else {
        text_cmp(a, b, k + 1)
    }
}

/// Whether an identifier consists of ASCII digits only.
pub open spec fn numeric(p: Seq<char>) -> bool {
    forall|i: int| 0 <= i < p.len() ==> '0' <= #[trigger] p[i] <= '9'
}

/// How two pre-release identifiers compare: numeric ones by value (length,
/// then digits, as they carry no leading zeros), below any other; others in
/// ASCII order.
pub open spec fn ident_cmp(p: Seq<char>, q: Seq<char>) -> int {
    if numeric(p) && numeric(q) {
        if p.len() < q.len() {
            -1
        } else if p.len() > q.len() {
            1
        } else {
            text_cmp(p, q, 0)
        }
    } else if numeric(p) {
        -1
    } else if numeric(q) {
        1
    } else {
        text_cmp(p, q, 0)
    }
}

/// How the dot-separated identifier lists of `a` from `i` and of `b` from `j`
/// compare, identifier by identifier; a list that runs out first is lower.
/// A position past the end marks a list that has run out.
pub open spec fn idents_cmp(a: Seq<char>, i: int, b: Seq<char>, j: int) -> int
    decreases a.len() + 1 - i,
    via idents_cmp_decreases
{
    if i > a.len() || i < 0 {
        if j > b.len() || j < 0 {
            0
        } else {
            -1
        }
    } else if j > b.len() || j < 0 {
        1
    } else {
        let ea = find_from(a, '.', i);
        let eb = find_from(b, '.', j);
        let c = ident_cmp(a.subrange(i, ea), b.subrange(j, eb));
        if c != 0 {
            c
        } else {
            idents_cmp(a, ea + 1, b, eb + 1)
        }
    }
}

#[via_fn]
proof fn idents_cmp_decreases(a: Seq<char>, i: int, b: Seq<char>, j: int) {
    if 0 <= i <= a.len() {
        lemma_find_from_bounds(a, '.', i);
    }
}

/// Whether pre-release `a` comes before pre-release `b`: a pre-release comes
/// before the release (empty), two pre-releases compare by identifiers.
pub open spec fn pre_precedes(a: Seq<char>, b: Seq<char>) -> bool {
    a.len() > 0 && (b.len() == 0 || idents_cmp(a, 0, b, 0) < 0)
}

impl VersionTag {
    /// Semantic-version precedence.
    pub open spec fn precedes(self, other: VersionTag) -> bool {
        self.major < other.major || (self.major == other.major && (self.minor < other.minor || (
        self.minor == other.minor && (self.patch < other.patch || (self.patch == other.patch
            && pre_precedes(self.pre, other.pre))))))
    }
}

fn text_cmp_exec(t: &str, ia: usize, ea: usize, u: &str, ib: usize, eb: usize) -> (r: i8)
    requires
        ia <= ea <= t@.len(),
        ib <= eb <= u@.len(),
    ensures
        r as int == text_cmp(t@.subrange(ia as int, ea as int), u@.subrange(ib as int, eb as int), 0),
{
    let ghost p = t@.subrange(ia as int, ea as int);
    let ghost q = u@.subrange(ib as int, eb as int);
    let mut k: usize = 0;
    while k < ea - ia && k < eb - ib
        invariant
            ia <= ea <= t@.len(),
            ib <= eb <= u@.len(),
            p == t@.subrange(ia as int, ea as int),
            q == u@.subrange(ib as int, eb as int),
            k <= p.len(),
            k <= q.len(),
            text_cmp(p, q, 0) == text_cmp(p, q, k as int),
        decreases ea - ia - k,
    {
        let x = t.get_char(ia + k) as u32;
        let y = u.get_char(ib + k) as u32;
        assert(p[k as int] == t@[ia + k]);
        assert(q[k as int] == u@[ib + k]);
        if x < y {
            return -1;
        }
        if x > y {
            return 1;
        }
        k = k + 1;
    }
    if k >= ea - ia {
        if k >= eb - ib {
            0
        } else {
            -1
        }
    } else {
        1
    }
}

fn numeric_exec(t: &str, i: usize, e: usize) -> (r: bool)
    requires
        i <= e <= t@.len(),
    ensures
        r == numeric(t@.subrange(i as int, e as int)),
{
    let ghost p = t@.subrange(i as int, e as int);
    let mut k: usize = i;
    while k < e
        invariant
            i <= k <= e <= t@.len(),
            p == t@.subrange(i as int, e as int),
            forall|m: int| 0 <= m < k - i ==> '0' <= #[trigger] p[m] <= '9',
        decreases e - k,
    {
        let c = t.get_char(k);
        assert(p[k - i] == t@[k as int]);
        if !('0' <= c && c <= '9') {
            return false;
        }
        k = k + 1;
    }
    true
}

fn find_dot(t: &str, n: usize, from: usize) -> (r: usize)
    requires
        n == t@.len(),
        from <= n,
    ensures
        r == find_from(t@, '.', from as int),
        from <= r <= n,
{
    let mut i: usize = from;
    while i < n
        invariant
            from <= i <= n,
            n == t@.len(),
            find_from(t@, '.', i as int) == find_from(t@, '.', from as int),
        decreases n - i,
    {
        if t.get_char(i) == '.' {
            return i;
        }
        i = i + 1;
    }
    i
}

/// Whether pre-release `a` comes before pre-release `b` (see
/// [`pre_precedes`]).
pub fn pre_release_precedes(a: &str, b: &str) -> (r: bool)
    ensures
        r == pre_precedes(a@, b@),
{
    let na = a.unicode_len();
    let nb = b.unicode_len();
    if na == 0 {
        return false;
    }
    if nb == 0 {
        return true;
    }
    let mut i: usize = 0;
    let mut j: usize = 0;
    loop
        invariant
            na == a@.len(),
            nb == b@.len(),
            na > 0,
            nb > 0,
            i <= na,
            j <= nb,
            idents_cmp(a@, 0, b@, 0) == idents_cmp(a@, i as int, b@, j as int),
        decreases na - i,
    {
        let ea = find_dot(a, na, i);
        let eb = find_dot(b, nb, j);
        let pa = numeric_exec(a, i, ea);
        let pb = numeric_exec(b, j, eb);
        let c: i8 = if pa && pb {
            if ea - i < eb - j {
                -1
            } else if ea - i > eb - j {
                1
            } else {
                text_cmp_exec(a, i, ea, b, j, eb)
            }
        } else if pa {
            -1
        } else if pb {
            1
        } else {
            text_cmp_exec(a, i, ea, b, j, eb)
        };
        assert(c as int == ident_cmp(a@.subrange(i as int, ea as int), b@.subrange(j as int, eb as int)));
        if c != 0 {
            return c < 0;
        }
        assert(idents_cmp(a@, i as int, b@, j as int) == idents_cmp(a@, ea + 1, b@, eb + 1));
        if ea == na {
            assert(idents_cmp(a@, ea + 1, b@, eb + 1) == if eb + 1 > nb { 0int } else { -1int });
            return eb < nb;
        }
        if eb == nb {
            assert(idents_cmp(a@, ea + 1, b@, eb + 1) == 1);
            return false;
        }
        i = ea + 1;
        j = eb + 1;
    }
}

impl Version {
    /// The release `major.minor.patch`.
    pub fn new(major: u64, minor: u64, patch: u64) -> (r: Version)
        ensures
            r@ == (VersionTag { major, minor, patch, pre: Seq::empty() }),
    {
        Version { major, minor, patch, pre: String::new() }
    }

    /// Whether `self` comes strictly before `other` in semantic-version
    /// precedence.
    pub fn precedes(&self, other: &Version) -> (r: bool)
        ensures
            r == self@.precedes(other@),
    {
        if self.major != other.major {
            return self.major < other.major;
        }
        if self.minor != other.minor {
            return self.minor < other.minor;
        }
        if self.patch != other.patch {
            return self.patch < other.patch;
        }
        pre_release_precedes(self.pre.as_str(), other.pre.as_str())
    }
}

/// What `semver::Version::parse` makes of a text, as major, minor, patch and
/// pre-release text; `None` where it fails.
pub uninterp spec fn parsed_version(s: Seq<char>) -> Option<(u64, u64, u64, Seq<char>)>;

/// The version tag that a text names, if it parses.
pub open spec fn version_of(s: Seq<char>) -> Option<VersionTag> {
    match parsed_version(s) {
        Some(t) => Some(VersionTag { major: t.0, minor: t.1, patch: t.2, pre: t.3 }),
        None => None,
    }
}

/// Relies on `semver::Version::parse`: its result depends on the text alone.
/// Build metadata is not carried over.
#[verifier::external_body]
fn parse_semver(s: &str) -> (r: Option<Version>)
    ensures
        match r {
            Some(v) => parsed_version(s@) == Some((v.major, v.minor, v.patch, v.pre@)),
            None => parsed_version(s@) is None,
        },
{
    semver::Version::parse(s).ok().map(
        |v| Version { major: v.major, minor: v.minor, patch: v.patch, pre: v.pre.to_string() },
    )
}

/// Reads a version tag, `None` where the text is no semantic version.
pub fn parse_version(s: &str) -> (r: Option<Version>)
    ensures
        match r {
            Some(v) => version_of(s@) == Some(v@),
            None => version_of(s@) is None,
        },
{
    parse_semver(s)
}

} // verus!
