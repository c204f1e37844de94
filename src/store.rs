use vstd::prelude::*;
use vstd::string::StringExecFns;

use crate::delta::{delta, lemma_delta_of_defaults, merge, merge_delta, merge_with_defaults};
use crate::migrate::{MigrationRule, SectionMigration, migrate, migrated, tag_of};
use crate::version::{Version, VersionTag, parse_version, version_of};
use crate::params::{
    entries_without, insert_entry, names, save_payload, without_params,
};
use crate::value::{
    Json, Tree, copy_entries, copy_value, find_key, json_of_entries, lemma_entries_dom,
    lemma_entries_last, lemma_entries_push,
};

verus! {

broadcast use vstd::std_specs::vec::group_vec_axioms;

/// The reserved key under which a store file keeps its version tags.
pub open spec fn versions_key() -> Seq<char> {
    seq!['_', 'v', 'e', 'r', 's', 'i', 'o', 'n', 's']
}

/// The reserved key, as a string.
pub fn versions_key_string() -> (r: String)
    ensures
        r@ == versions_key(),
{
    proof {
        reveal_strlit("_versions");
    }
    String::from_str("_versions")
}

/// What `str::to_lowercase` makes of a text.
pub uninterp spec fn lowercase_of(s: Seq<char>) -> Seq<char>;

/// Relies on `str::to_lowercase`: the result depends on the characters alone.
#[verifier::external_body]
fn lowercase(s: &str) -> (r: String)
    ensures
        r@ == lowercase_of(s@),
{
    s.to_lowercase()
}

/// The key of a section in a store file: the key its type declares, or else
/// the type name in lower case.
pub fn section_key(kind_name: &str, declared: Option<&str>) -> (r: String)
    ensures
        r@ == match declared {
            Some(k) => k@,
            None => lowercase_of(kind_name@),
        },
{
    match declared {
        Some(k) => String::from_str(k),
        None => lowercase(kind_name),
    }
}

/// Whether a section key may be registered: the reserved key is refused, as
/// it would collide with the version tags.
pub fn is_valid_section_key(key: &str) -> (r: bool)
    ensures
        r == (key@ != versions_key()),
{
    let reserved = versions_key_string();
    !(key.to_owned() == reserved)
}

/// The sections of a store file: every key of its root object but the
/// reserved one. A root that is no object has none.
pub open spec fn sections_of(root: Json) -> Map<Seq<char>, Json> {
    match root {
        Json::Object(m) => m.remove(versions_key()),
        _ => Map::empty(),
    }
}

/// The version tags of a store file: the object under the reserved key, if
/// there is one.
pub open spec fn versions_of(root: Json) -> Map<Seq<char>, Json> {
    match root {
        Json::Object(m) => if m.contains_key(versions_key()) && m[versions_key()] is Object {
            m[versions_key()]->Object_0
        } else {
            Map::empty()
        },
        _ => Map::empty(),
    }
}

/// The root object of a store file that holds `sections` and `versions`, or
/// `None` (no file) where there is no section.
pub open spec fn store_file(
    sections: Map<Seq<char>, Json>,
    versions: Map<Seq<char>, Json>,
) -> Option<Json> {
    if sections == Map::<Seq<char>, Json>::empty() {
        None
    } else if versions == Map::<Seq<char>, Json>::empty() {
        Some(Json::Object(sections))
    } else {
        Some(
            Json::Object(
                Map::empty().insert(versions_key(), Json::Object(versions)).union_prefer_right(
                    sections,
                ),
            ),
        )
    }
}

/// The version tag recorded for section `key`, if it is a text that parses.
pub open spec fn recorded_version(versions: Map<Seq<char>, Json>, key: Seq<char>) -> Option<
    VersionTag,
> {
    if versions.contains_key(key) && versions[key] is String {
        version_of(versions[key]->String_0)
    } else {
        None
    }
}

/// The entries of an object; none for any other value.
pub open spec fn fields_of(j: Json) -> Map<Seq<char>, Json> {
    match j {
        Json::Object(m) => m,
        _ => Map::empty(),
    }
}

/// The value that section `key` takes on load (see [`load_section`]).
pub open spec fn loaded_section(
    sections: Map<Seq<char>, Json>,
    versions: Map<Seq<char>, Json>,
    key: Seq<char>,
    defaults: Json,
    target: VersionTag,
    rules: Seq<MigrationRule>,
) -> Json {
    merge_delta(
        defaults,
        if sections.contains_key(key) {
            Some(migrated(recorded_version(versions, key), target, rules, sections[key]))
        } else {
            None
        },
    )
}

/// A list of entries describes the empty map exactly when it is empty.
pub proof fn lemma_entries_empty(es: Seq<(String, Tree)>)
    ensures
        (json_of_entries(es) == Map::<Seq<char>, Json>::empty()) == (es.len() == 0),
{
    if es.len() > 0 {
        assert(es =~= es.drop_last().push(es.last()));
        lemma_entries_push(es.drop_last(), es.last());
        assert(json_of_entries(es).contains_key(es.last().0@));
    }
}

/// Splits a decoded store file into its sections and its version tags, both
/// as objects.
pub fn split_store_file(root: Tree) -> (r: (Tree, Tree))
    ensures
        r.0@ == Json::Object(sections_of(root@)),
        r.1@ == Json::Object(versions_of(root@)),
{
    match root {
        Tree::Object(es) => {
            let vk = versions_key_string();
            let mut keys: Vec<String> = Vec::new();
            keys.push(versions_key_string());
            let sections = entries_without(&es, &keys);
            proof {
                assert(names(keys@) =~= Set::empty().insert(versions_key())) by {
                    assert(keys@[0]@ == versions_key());
                }
                assert(json_of_entries(es@).remove_keys(names(keys@)) =~= json_of_entries(
                    es@,
                ).remove(versions_key()));
            }
            let versions = match find_key(&es, &vk) {
                Some(j) => {
                    proof {
                        lemma_entries_last(es@, j as int);
                    }
                    match &es[j].1 {
                        Tree::Object(vs) => copy_entries(vs),
                        _ => Vec::new(),
                    }
                },
                None => {
                    proof {
                        lemma_entries_dom(es@, vk@);
                    }
                    Vec::new()
                },
            };
            proof {
                assert(json_of_entries(Seq::<(String, Tree)>::empty()) == Map::<
                    Seq<char>,
                    Json,
                >::empty());
            }
            (Tree::Object(sections), Tree::Object(versions))
        },
        _ => (Tree::Object(Vec::new()), Tree::Object(Vec::new())),
    }
}

/// Records the payload of section `key` in the shared section map: a payload
/// replaces the section, no payload removes it.
pub fn stage_section(sections: &mut Vec<(String, Tree)>, key: &String, payload: Option<Tree>)
    ensures
        json_of_entries(final(sections)@) == match payload {
            Some(p) => json_of_entries(old(sections)@).insert(key@, p@),
            None => json_of_entries(old(sections)@).remove(key@),
        },
{
    match payload {
        Some(p) => insert_entry(sections, key.clone(), p),
        None => {
            let mut keys: Vec<String> = Vec::new();
            keys.push(key.clone());
            let rest = entries_without(sections, &keys);
            proof {
                assert(names(keys@) =~= Set::empty().insert(key@)) by {
                    assert(keys@[0]@ == key@);
                }
                assert(json_of_entries(sections@).remove_keys(names(keys@)) =~= json_of_entries(
                    sections@,
                ).remove(key@));
            }
            *sections = rest;
        },
    }
}

/// Saves section `key` into the shared section map: its delta against the
/// defaults, without placeholder fields. A section equal to its defaults
/// leaves the map.
pub fn save_section(
    sections: &mut Vec<(String, Tree)>,
    key: &String,
    settings: &Tree,
    defaults: &Tree,
    params: &Vec<String>,
)
    ensures
        json_of_entries(final(sections)@) == match without_params(
            delta(settings@, defaults@),
            names(params@),
        ) {
            Some(p) => json_of_entries(old(sections)@).insert(key@, p),
            None => json_of_entries(old(sections)@).remove(key@),
        },
        settings@ == defaults@ ==> json_of_entries(final(sections)@) == json_of_entries(
            old(sections)@,
        ).remove(key@),
{
    proof {
        if settings@ == defaults@ {
            lemma_delta_of_defaults(settings@);
        }
    }
    let payload = save_payload(settings, defaults, params);
    stage_section(sections, key, payload);
}

/// The root object to write for the shared section map and the version tags;
/// `None` where no section is left, and the file is then removed rather than
/// written empty.
pub fn build_store_file(sections: &Vec<(String, Tree)>, versions: &Vec<(String, Tree)>) -> (r:
    Option<Tree>)
    ensures
        match r {
            Some(root) => store_file(json_of_entries(sections@), json_of_entries(versions@))
                == Some(root@),
            None => store_file(json_of_entries(sections@), json_of_entries(versions@)) is None,
        },
{
    proof {
        lemma_entries_empty(sections@);
        lemma_entries_empty(versions@);
    }
    if sections.len() == 0 {
        return None;
    }
    let ghost s = json_of_entries(sections@);
    let ghost base = if versions.len() == 0 {
        Map::<Seq<char>, Json>::empty()
    } else {
        Map::empty().insert(versions_key(), Json::Object(json_of_entries(versions@)))
    };
    let mut root: Vec<(String, Tree)> = Vec::new();
    if versions.len() > 0 {
        let e = (versions_key_string(), Tree::Object(copy_entries(versions)));
        proof {
            lemma_entries_push(root@, e);
        }
        root.push(e);
    }
    proof {
        assert(json_of_entries(sections@.subrange(0, 0)) == Map::<Seq<char>, Json>::empty());
        assert(json_of_entries(root@) =~= base.union_prefer_right(
            json_of_entries(sections@.subrange(0, 0)),
        ));
    }
    let mut i: usize = 0;
    while i < sections.len()
        invariant
            i <= sections.len(),
            json_of_entries(root@) == base.union_prefer_right(
                json_of_entries(sections@.subrange(0, i as int)),
            ),
        decreases sections.len() - i,
    {
        let e = (sections[i].0.clone(), copy_value(&sections[i].1));
        proof {
            lemma_entries_push(root@, e);
            assert(sections@.subrange(0, i + 1) =~= sections@.subrange(0, i as int).push(
                sections@[i as int],
            ));
            lemma_entries_push(sections@.subrange(0, i as int), sections@[i as int]);
            assert(json_of_entries(root@.push(e)) =~= base.union_prefer_right(
                json_of_entries(sections@.subrange(0, i + 1)),
            ));
        }
        root.push(e);
        i = i + 1;
    }
    proof {
        assert(sections@.subrange(0, sections.len() as int) =~= sections@);
        if versions.len() == 0 {
            assert(base.union_prefer_right(s) =~= s);
        }
    }
    Some(Tree::Object(root))
}

/// The value of section `key` on load: its stored delta, passed through the
/// migration rules between its recorded version and `target`, laid over the
/// defaults; the defaults where nothing is stored.
pub fn load_section(
    sections: &Tree,
    versions: &Tree,
    key: &str,
    defaults: &Tree,
    target: &Version,
    rules: &Vec<MigrationRule>,
) -> (r: Tree)
    ensures
        r@ == loaded_section(
            fields_of(sections@),
            fields_of(versions@),
            key@,
            defaults@,
            target@,
            rules@,
        ),
{
    let file_version = version_recorded(versions, key);
    match sections.get(key) {
        Some(d) => {
            let (m, _changed) = migrate(file_version, target, copy_value(d), rules);
            merge_with_defaults(defaults, Some(&m))
        },
        None => merge_with_defaults(defaults, None),
    }
}

/// The version tag recorded for section `key`, if it is a text that parses.
pub fn version_recorded(versions: &Tree, key: &str) -> (r: Option<Version>)
    ensures
        tag_of(r) == recorded_version(fields_of(versions@), key@),
{
    match versions.get(key) {
        Some(Tree::String(s)) => parse_version(s.as_str()),
        _ => None,
    }
}

/// The delta to merge once a migration has been tried: the migrated delta,
/// or the stored one, unchanged, where the migration failed.
pub fn settle_migration(stored: Tree, outcome: Result<(Tree, bool), String>) -> (r: Tree)
    ensures
        match outcome {
            Ok((m, _)) => r@ == m@,
            Err(_) => r@ == stored@,
        },
{
    match outcome {
        Ok((m, _)) => m,
        Err(_) => stored,
    }
}

/// The value of section `key` on load, with a migration supplied by the
/// section's schema: it runs once, only where a delta is stored, and a
/// failing migration leaves the stored delta as it is. Nothing stored gives
/// the defaults.
pub fn load_section_with<M: SectionMigration>(
    sections: &Tree,
    versions: &Tree,
    key: &str,
    defaults: &Tree,
    target: &Version,
    migration: &M,
) -> (r: Tree)
    ensures
        !fields_of(sections@).contains_key(key@) ==> r@ == defaults@,
        fields_of(sections@).contains_key(key@) ==> exists|d: Json| r@ == merge(defaults@, d),
{
    match sections.get(key) {
        Some(d) => {
            let file_version = version_recorded(versions, key);
            let outcome = migration.migrate(file_version, target, copy_value(d));
            let delta = settle_migration(copy_value(d), outcome);
            let r = merge_with_defaults(defaults, Some(&delta));
            assert(r@ == merge(defaults@, delta@));
            r
        },
        None => merge_with_defaults(defaults, None),
    }
}

} // verus!
