use vstd::prelude::*;

use crate::params::{entries_without, insert_entry, names};
use crate::version::{Version, VersionTag};
use crate::value::{
    Json, Tree, copy_value, equals, find_key, json_of_entries, lemma_entries_dom,
    lemma_entries_last,
};

verus! {

broadcast use vstd::std_specs::vec::group_vec_axioms;

/// The model of an optional version tag.
pub open spec fn tag_of(v: Option<Version>) -> Option<VersionTag> {
    match v {
        Some(x) => Some(x@),
        None => None,
    }
}

/// A section's migration, supplied by the author of its schema: it rewrites
/// a stored delta written at `file_version` (`None`: unversioned, the oldest)
/// into the shape of `target`, or fails. The flag tells whether the delta
/// changed.
pub trait SectionMigration {
    fn migrate(&self, file_version: Option<Version>, target: &Version, data: Tree) -> Result<
        (Tree, bool),
        String,
    >;
}

/// A list of rules is a migration that never fails.
impl SectionMigration for Vec<MigrationRule> {
    fn migrate(&self, file_version: Option<Version>, target: &Version, data: Tree) -> Result<
        (Tree, bool),
        String,
    > {
        Ok(migrate(file_version, target, data, self))
    }
}

/// A change of a section's schema, made at version `since`.
pub enum MigrationRule {
    /// Field `key` is new: older data that lacks it gets `value`.
    AddField { since: Version, key: String, value: Tree },
    /// Field `from` is now called `to`.
    RenameField { since: Version, from: String, to: String },
}

impl MigrationRule {
    pub open spec fn since(self) -> VersionTag {
        match self {
            MigrationRule::AddField { since, .. } => since@,
            MigrationRule::RenameField { since, .. } => since@,
        }
    }
}

/// Whether data written at `file_version` (`None`: unversioned, the oldest)
/// must pass a change made at `since` to reach `target`.
pub open spec fn crosses(file_version: Option<VersionTag>, since: VersionTag, target: VersionTag) -> bool {
    (file_version is None || file_version->0.precedes(since)) && !target.precedes(since)
}

/// What one rule makes of a delta.
pub open spec fn apply_rule(rule: MigrationRule, data: Json) -> Json {
    match data {
        Json::Object(m) => match rule {
            MigrationRule::AddField { key, value, .. } => if m.contains_key(key@) {
                data
            } else {
                Json::Object(m.insert(key@, value@))
            },
            MigrationRule::RenameField { from, to, .. } => if m.contains_key(from@) {
                Json::Object(m.remove(from@).insert(to@, m[from@]))
            } else {
                data
            },
        },
        _ => data,
    }
}

/// A delta after the rules, in order, that lie between its version and the
/// target version.
pub open spec fn migrated(
    file_version: Option<VersionTag>,
    target: VersionTag,
    rules: Seq<MigrationRule>,
    data: Json,
) -> Json
    decreases rules.len(),
{
    if rules.len() == 0 {
        data
    } else {
        let before = migrated(file_version, target, rules.drop_last(), data);
        if crosses(file_version, rules.last().since(), target) {
            apply_rule(rules.last(), before)
        } else {
            before
        }
    }
}

fn apply_rule_exec(rule: &MigrationRule, data: Tree) -> (r: Tree)
    ensures
        r@ == apply_rule(*rule, data@),
{
    match data {
        Tree::Object(mut es) => {
            let ghost m = json_of_entries(es@);
            match rule {
                MigrationRule::AddField { key, value, .. } => {
                    match find_key(&es, key) {
                        Some(i) => {
                            proof {
                                lemma_entries_last(es@, i as int);
                            }
                        },
                        None => {
                            proof {
                                lemma_entries_dom(es@, key@);
                            }
                            insert_entry(&mut es, key.clone(), copy_value(value));
                        },
                    }
                    Tree::Object(es)
                },
                MigrationRule::RenameField { from, to, .. } => {
                    match find_key(&es, from) {
                        Some(i) => {
                            proof {
                                lemma_entries_last(es@, i as int);
                            }
                            let moved = copy_value(&es[i].1);
                            let mut keys: Vec<String> = Vec::new();
                            keys.push(from.clone());
                            let mut rest = entries_without(&es, &keys);
                            proof {
                                assert(names(keys@) =~= Set::empty().insert(from@)) by {
                                    assert(keys@[0]@ == from@);
                                }
                                assert(m.remove_keys(names(keys@)) =~= m.remove(from@));
                            }
                            insert_entry(&mut rest, to.clone(), moved);
                            Tree::Object(rest)
                        },
                        None => {
                            proof {
                                lemma_entries_dom(es@, from@);
                            }
                            Tree::Object(es)
                        },
                    }
                },
            }
        },
        other => other,
    }
}

/// Runs the rules that lie between `file_version` and `target` over a stored
/// delta, in order; the flag tells whether the delta changed.
pub fn migrate(
    file_version: Option<Version>,
    target: &Version,
    data: Tree,
    rules: &Vec<MigrationRule>,
) -> (r: (Tree, bool))
    ensures
        r.0@ == migrated(tag_of(file_version), target@, rules@, data@),
        r.1 == (r.0@ != data@),
{
    let incoming = copy_value(&data);
    let mut cur = data;
    let mut i: usize = 0;
    while i < rules.len()
        invariant
            i <= rules.len(),
            cur@ == migrated(tag_of(file_version), target@, rules@.subrange(0, i as int), incoming@),
        decreases rules.len() - i,
    {
        proof {
            assert(rules@.subrange(0, i + 1).drop_last() =~= rules@.subrange(0, i as int));
        }
        let since = match &rules[i] {
            MigrationRule::AddField { since, .. } => since,
            MigrationRule::RenameField { since, .. } => since,
        };
        let applies = match &file_version {
            None => true,
            Some(f) => f.precedes(since),
        } && !target.precedes(since);
        if applies {
            cur = apply_rule_exec(&rules[i], cur);
        }
        i = i + 1;
    }
    proof {
        assert(rules@.subrange(0, rules.len() as int) =~= rules@);
    }
    let changed = !equals(&cur, &incoming);
    (cur, changed)
}

/// Data already written at the target version passes no rule, so a field
/// that the user removed after an earlier migration is not put back.
pub proof fn lemma_current_data_untouched(target: VersionTag, rules: Seq<MigrationRule>, data: Json)
    ensures
        migrated(Some(target), target, rules, data) == data,
    decreases rules.len(),
{
    if rules.len() > 0 {
        lemma_current_data_untouched(target, rules.drop_last(), data);
    }
}

/// A rule applies exactly to data older than its version, on the way to a
/// target at or past it; unversioned data counts as the oldest.
pub proof fn lemma_rule_gate(
    file_version: Option<VersionTag>,
    target: VersionTag,
    rule: MigrationRule,
    data: Json,
)
    ensures
        migrated(file_version, target, seq![rule], data) == if crosses(
            file_version,
            rule.since(),
            target,
        ) {
            apply_rule(rule, data)
        } else {
            data
        },
{
    assert(seq![rule].drop_last() =~= Seq::<MigrationRule>::empty());
    assert(migrated(file_version, target, Seq::<MigrationRule>::empty(), data) == data);
    assert(seq![rule].last() == rule);
}

} // verus!
