use bevy_settings::{
    load_section_with, settle_migration, version_recorded, SectionMigration,
    build_store_file, check_path_params, copy_params, decode_content, encode_content,
    extract_params, get_settings_name, is_empty_path_value, load_section, migrate, parse_version,
    reload_settings, resolve, save_payload, save_section, split_store_file, stage_section,
    strip_path_params, plan_group_save, section_key, is_valid_section_key, FileFormat, ManagerError, MigrationRule, Number, PathError,
    SerializationFormat, SettingsConfig, Tree, UnifiedStorage, Version,
};

fn num(n: u64) -> Tree {
    Tree::Number(Number::PosInt(n))
}

fn text(t: &str) -> Tree {
    Tree::String(t.to_string())
}

fn obj(entries: Vec<(&str, Tree)>) -> Tree {
    Tree::Object(entries.into_iter().map(|(k, v)| (k.to_string(), v)).collect())
}

fn names(list: &[&str]) -> Vec<String> {
    list.iter().map(|s| s.to_string()).collect()
}

fn game_defaults() -> Tree {
    obj(vec![("slot_id", text("")), ("level", num(1)), ("gold", num(0))])
}

#[test]
fn path_param_survives_reset() {
    let params = extract_params("saves/{slot_id}/game.json");
    assert_eq!(params, names(&["slot_id"]));
    let defaults = game_defaults();
    let live = obj(vec![("slot_id", text("slot_1")), ("level", num(1)), ("gold", num(0))]);
    let path = resolve("saves/{slot_id}/game.json", &live).unwrap();
    assert_eq!(path, "saves/slot_1/game.json");
    let payload = save_payload(&live, &defaults, &params);
    assert!(payload.is_none());
    let reloaded = reload_settings(&live, &defaults, payload.as_ref(), &params);
    assert_eq!(reloaded.get("slot_id").unwrap(), &text("slot_1"));
    assert_eq!(reloaded, live);
}

#[test]
fn payload_never_holds_path_params() {
    let params = names(&["slot_id"]);
    let defaults = game_defaults();
    let live = obj(vec![("slot_id", text("slot_2")), ("level", num(7)), ("gold", num(0))]);
    let payload = save_payload(&live, &defaults, &params).unwrap();
    assert_eq!(payload, obj(vec![("level", num(7))]));
    let current = obj(vec![("slot_id", text("slot_2")), ("level", num(1)), ("gold", num(5))]);
    let reloaded = reload_settings(&current, &defaults, Some(&payload), &params);
    assert_eq!(reloaded, live);
}

#[test]
fn strip_leaves_non_objects_alone() {
    let params = names(&["id"]);
    assert_eq!(strip_path_params(Some(num(3)), &params), Some(num(3)));
    assert_eq!(strip_path_params(None, &params), None);
    assert_eq!(strip_path_params(Some(obj(vec![("id", text("x"))])), &params), None);
}

#[test]
fn copy_params_overwrites_only_params() {
    let params = names(&["id", "absent"]);
    let source = obj(vec![("id", text("a")), ("other", num(9))]);
    let mut target = obj(vec![("id", text("")), ("other", num(1))]);
    copy_params(&source, &mut target, &params);
    assert_eq!(target, obj(vec![("id", text("a")), ("other", num(1))]));
}

#[test]
fn path_param_checks() {
    let params = names(&["id", "name"]);
    let good = obj(vec![("id", text("7")), ("name", text("x"))]);
    assert_eq!(check_path_params(&good, &params), Ok(()));
    let missing = obj(vec![("id", text("7"))]);
    assert_eq!(
        check_path_params(&missing, &params),
        Err(PathError::MissingParam("name".to_string()))
    );
    let blank = obj(vec![("id", text(" \t")), ("name", text("x"))]);
    assert_eq!(check_path_params(&blank, &params), Err(PathError::EmptyParam("id".to_string())));
    let null = obj(vec![("id", Tree::Null)]);
    assert_eq!(check_path_params(&null, &params), Err(PathError::EmptyParam("id".to_string())));
    assert_eq!(check_path_params(&num(1), &params), Err(PathError::NotAnObject));
    assert_eq!(check_path_params(&num(1), &Vec::new()), Ok(()));
}

#[test]
fn empty_path_values() {
    assert!(is_empty_path_value(&Tree::Null));
    assert!(is_empty_path_value(&text("")));
    assert!(is_empty_path_value(&text(" \n\u{3000}")));
    assert!(!is_empty_path_value(&text(" a ")));
    assert!(!is_empty_path_value(&num(0)));
}

#[test]
fn template_parameters() {
    assert_eq!(extract_params("levels/{name}/{id}.dat"), names(&["name", "id"]));
    assert_eq!(extract_params("settings/config.toml"), Vec::<String>::new());
    assert_eq!(extract_params("a/{open"), Vec::<String>::new());
    assert_eq!(extract_params("a/{}/{x}"), names(&["x"]));
    assert_eq!(extract_params(""), Vec::<String>::new());
}

#[test]
fn resolve_fills_and_fails() {
    let fields = obj(vec![
        ("name", text("dungeon_1")),
        ("n", Tree::Number(Number::NegInt(-42))),
        ("big", num(18446744073709551615)),
        ("flag", Tree::Bool(true)),
        ("list", Tree::Array(vec![])),
        ("blank", text("  ")),
    ]);
    assert_eq!(resolve("levels/{name}/map.dat", &fields).unwrap(), "levels/dungeon_1/map.dat");
    assert_eq!(resolve("{n}_{big}_{flag}", &fields).unwrap(), "-42_18446744073709551615_true");
    assert_eq!(resolve("plain/{}/{unterminated", &fields).unwrap(), "plain/{}/{unterminated");
    assert_eq!(
        resolve("x/{missing}", &fields),
        Err(PathError::MissingParam("missing".to_string()))
    );
    assert_eq!(resolve("x/{blank}", &fields), Err(PathError::EmptyParam("blank".to_string())));
    assert_eq!(resolve("x/{list}", &fields), Err(PathError::InvalidParam("list".to_string())));
    assert_eq!(resolve("x", &num(3)), Err(PathError::NotAnObject));
}

#[test]
fn migration_gate_adds_field_when_crossing() {
    let rules = vec![MigrationRule::AddField {
        since: Version::new(2, 0, 0),
        key: "timeout_seconds".to_string(),
        value: num(30),
    }];
    let defaults = obj(vec![("port", num(80)), ("timeout_seconds", num(10))]);
    let target = Version::new(2, 0, 0);
    let sections = obj(vec![("network", obj(vec![("port", num(9000))]))]);
    let old_versions = obj(vec![("network", text("1.0.0"))]);
    let loaded = load_section(&sections, &old_versions, "network", &defaults, &target, &rules);
    assert_eq!(loaded, obj(vec![("port", num(9000)), ("timeout_seconds", num(30))]));
    let new_versions = obj(vec![("network", text("2.0.0"))]);
    let loaded = load_section(&sections, &new_versions, "network", &defaults, &target, &rules);
    assert_eq!(loaded, obj(vec![("port", num(9000)), ("timeout_seconds", num(10))]));
    let unversioned = obj(vec![]);
    let loaded = load_section(&sections, &unversioned, "network", &defaults, &target, &rules);
    assert_eq!(loaded.get("timeout_seconds").unwrap(), &num(30));
    let absent = load_section(&obj(vec![]), &old_versions, "network", &defaults, &target, &rules);
    assert_eq!(absent, defaults);
}

#[test]
fn migrate_reports_change_and_renames() {
    let rules = vec![MigrationRule::RenameField {
        since: Version::new(1, 5, 0),
        from: "timeout".to_string(),
        to: "timeout_seconds".to_string(),
    }];
    let data = obj(vec![("timeout", num(5))]);
    let (out, changed) = migrate(Some(Version::new(1, 0, 0)), &Version::new(2, 0, 0), data, &rules);
    assert!(changed);
    assert_eq!(out, obj(vec![("timeout_seconds", num(5))]));
    let data = obj(vec![("timeout", num(5))]);
    let (out, changed) = migrate(Some(Version::new(1, 5, 0)), &Version::new(2, 0, 0), data, &rules);
    assert!(!changed);
    assert_eq!(out, obj(vec![("timeout", num(5))]));
    let data = obj(vec![("timeout", num(5))]);
    let (_, changed) = migrate(None, &Version::new(1, 4, 9), data, &rules);
    assert!(!changed);
}

#[test]
fn versions_parse_through_semver() {
    assert_eq!(parse_version("1.2.3"), Some(Version::new(1, 2, 3)));
    assert_eq!(parse_version("10.0.7"), Some(Version::new(10, 0, 7)));
    assert_eq!(parse_version("1.2"), None);
    assert_eq!(parse_version("banana"), None);
    assert!(Version::new(1, 9, 9).precedes(&Version::new(2, 0, 0)));
    assert!(!Version::new(2, 0, 0).precedes(&Version::new(2, 0, 0)));
}

#[test]
fn saving_defaults_removes_the_section() {
    let defaults = obj(vec![("volume", num(5))]);
    let mut sections: Vec<(String, Tree)> = Vec::new();
    let changed = obj(vec![("volume", num(7))]);
    save_section(&mut sections, &"audio".to_string(), &changed, &defaults, &Vec::new());
    assert_eq!(Tree::Object(sections.iter().map(|(k, v)| (k.clone(), bevy_settings::copy_value(v))).collect()),
        obj(vec![("audio", obj(vec![("volume", num(7))]))]));
    save_section(&mut sections, &"audio".to_string(), &defaults, &defaults, &Vec::new());
    assert!(sections.is_empty());
    assert!(build_store_file(&sections, &Vec::new()).is_none());
}

#[test]
fn store_file_layout() {
    let mut sections: Vec<(String, Tree)> = Vec::new();
    stage_section(&mut sections, &"network".to_string(), Some(obj(vec![("port", num(9000))])));
    stage_section(&mut sections, &"audio".to_string(), Some(obj(vec![("master", num(8))])));
    stage_section(&mut sections, &"gone".to_string(), None);
    let versions = vec![("network".to_string(), text("2.0.0")), ("audio".to_string(), text("1.0.0"))];
    let root = build_store_file(&sections, &versions).unwrap();
    let expected = obj(vec![
        ("_versions", obj(vec![("network", text("2.0.0")), ("audio", text("1.0.0"))])),
        ("network", obj(vec![("port", num(9000))])),
        ("audio", obj(vec![("master", num(8))])),
    ]);
    assert_eq!(root, expected);
    let (sections_back, versions_back) = split_store_file(root);
    assert_eq!(
        sections_back,
        obj(vec![("network", obj(vec![("port", num(9000))])), ("audio", obj(vec![("master", num(8))]))])
    );
    assert_eq!(versions_back, obj(vec![("network", text("2.0.0")), ("audio", text("1.0.0"))]));
    let no_versions = build_store_file(&sections, &Vec::new()).unwrap();
    assert!(no_versions.get("_versions").is_none());
    let (s, v) = split_store_file(num(3));
    assert_eq!(s, obj(vec![]));
    assert_eq!(v, obj(vec![]));
}

#[test]
fn unsupported_format_is_refused() {
    let value = serde_json::Value::Null;
    assert_eq!(
        decode_content(b"{}", "xml").unwrap_err(),
        ManagerError::UnsupportedFormat("xml".to_string())
    );
    assert_eq!(
        encode_content(&value, "yaml").unwrap_err(),
        ManagerError::UnsupportedFormat("yaml".to_string())
    );
    assert_eq!(FileFormat::from_extension("json"), Some(FileFormat::Json));
    assert_eq!(FileFormat::from_extension("bin"), Some(FileFormat::Bin));
    assert_eq!(FileFormat::from_extension("JSON"), None);
}

#[test]
fn codecs_round_trip() {
    let mut map = serde_json::Map::new();
    map.insert("port".to_string(), serde_json::Value::from(9000));
    map.insert("name".to_string(), serde_json::Value::from("srv"));
    let value = serde_json::Value::Object(map);
    for ext in ["json", "toml", "ron", "bin"] {
        let bytes = encode_content(&value, ext).unwrap();
        assert!(!bytes.is_empty());
        let back = decode_content(&bytes, ext).unwrap();
        assert_eq!(back, value, "format {}", ext);
    }
    let json = encode_content(&value, "json").unwrap();
    assert!(String::from_utf8(json).unwrap().contains("\"port\": 9000"));
    let bin = encode_content(&value, "bin").unwrap();
    assert_ne!(bin, encode_content(&value, "json").unwrap());
    let mut longer = bin.clone();
    longer.extend_from_slice(b"trailing");
    assert_eq!(decode_content(&longer, "bin").unwrap(), value);
}

#[test]
fn bad_content_is_a_serialization_error() {
    assert!(matches!(decode_content(b"{not json", "json"), Err(ManagerError::Serialization(_))));
    assert!(matches!(decode_content(&[0xff, 0xfe], "toml"), Err(ManagerError::Serialization(_))));
    assert!(matches!(decode_content(b"(((", "ron"), Err(ManagerError::Serialization(_))));
    assert!(matches!(decode_content(&[], "bin"), Err(ManagerError::Serialization(_))));
    assert!(matches!(decode_content(&[3, b'a', b'b', b'c'], "bin"), Err(ManagerError::Serialization(_))));
    let null_root = encode_content(&serde_json::Value::Null, "toml");
    assert!(matches!(null_root, Err(ManagerError::Serialization(_))));
}

#[test]
fn storage_paths() {
    let storage = UnifiedStorage::new("GameSettings".to_string(), SerializationFormat::Json);
    assert_eq!(storage.get_path(), "settings/GameSettings.json");
    let storage = storage.with_base_path("cfg/".to_string()).with_version("1.0.0".to_string());
    assert_eq!(storage.get_path(), "cfg/GameSettings.json");
    assert_eq!(storage.version.as_deref(), Some("1.0.0"));
    let bin = UnifiedStorage::new("Data".to_string(), SerializationFormat::Binary)
        .with_base_path(String::new());
    assert_eq!(bin.get_path(), "Data.bin");
    assert_eq!(SerializationFormat::Binary.extension(), "bin");
    assert_eq!(SerializationFormat::Json.extension(), "json");
    let config = SettingsConfig::new("game".to_string(), SerializationFormat::Json)
        .with_base_path("saves".to_string());
    assert_eq!(config.base_path.as_deref(), Some("saves"));
    assert_eq!(config.name, "game");
}

#[test]
fn placeholder_store_names() {
    assert_eq!(get_settings_name("[slot1]", "TestSettingsA"), "slot1_TestSettingsA");
    assert_eq!(get_settings_name("TestStore", "TestSettingsA"), "TestSettingsA");
    assert_eq!(get_settings_name("[", "T"), "T");
}

#[test]
fn test_section_constant() {
    assert_eq!(section_key("TestSettings", None), "testsettings");
    assert_eq!(section_key("MigratableSettings", Some("migratable")), "migratable");
}

#[test]
fn reserved_section_key_is_refused() {
    assert!(!is_valid_section_key("_versions"));
    assert!(is_valid_section_key("network"));
    assert_eq!(section_key("ÀUDIO", None), "àudio");
}


#[test]
fn group_save_plan() {
    let params = names(&["id"]);
    let defaults = obj(vec![("id", text("")), ("volume", num(5))]);
    let live = obj(vec![("id", text("p1")), ("volume", num(9))]);
    let (path, payload) = plan_group_save(&live, &defaults, "saves/{id}.json", &params).unwrap();
    assert_eq!(path, "saves/p1.json");
    assert_eq!(payload, Some(obj(vec![("volume", num(9))])));
    let reset = obj(vec![("id", text("p1")), ("volume", num(5))]);
    let (_, payload) = plan_group_save(&reset, &defaults, "saves/{id}.json", &params).unwrap();
    assert_eq!(payload, None);
    let no_id = obj(vec![("volume", num(5))]);
    assert_eq!(
        plan_group_save(&no_id, &defaults, "saves/{id}.json", &params).unwrap_err(),
        PathError::MissingParam("id".to_string())
    );
    assert_eq!(
        plan_group_save(&live, &defaults, "saves/{other}.json", &params).unwrap_err(),
        PathError::MissingParam("other".to_string())
    );
}

struct Failing;

impl SectionMigration for Failing {
    fn migrate(&self, _: Option<Version>, _: &Version, _: Tree) -> Result<(Tree, bool), String> {
        Err("broken".to_string())
    }
}

struct NestTimeout;

impl SectionMigration for NestTimeout {
    fn migrate(&self, from: Option<Version>, _: &Version, data: Tree) -> Result<(Tree, bool), String> {
        if from.map_or(true, |v| v.precedes(&Version::new(2, 0, 0))) {
            let seconds = data.get("timeout").map(bevy_settings::copy_value).unwrap_or(num(30));
            Ok((obj(vec![("limits", obj(vec![("timeout", seconds)]))]), true))
        } else {
            Ok((data, false))
        }
    }
}

#[test]
fn custom_migration_and_fallback() {
    let defaults = obj(vec![("limits", obj(vec![("timeout", num(10)), ("retries", num(3))]))]);
    let sections = obj(vec![("net", obj(vec![("timeout", num(60))]))]);
    let versions = obj(vec![("net", text("1.0.0"))]);
    let target = Version::new(2, 0, 0);
    let migrated = load_section_with(&sections, &versions, "net", &defaults, &target, &NestTimeout);
    assert_eq!(migrated, obj(vec![("limits", obj(vec![("timeout", num(60)), ("retries", num(3))]))]));
    let kept = load_section_with(&sections, &versions, "net", &defaults, &target, &Failing);
    assert_eq!(
        kept,
        obj(vec![("limits", obj(vec![("timeout", num(10)), ("retries", num(3))])), ("timeout", num(60))])
    );
    let none = load_section_with(&obj(vec![]), &versions, "net", &defaults, &target, &Failing);
    assert_eq!(none, defaults);
    assert_eq!(settle_migration(num(1), Err("x".to_string())), num(1));
    assert_eq!(settle_migration(num(1), Ok((num(2), true))), num(2));
    assert_eq!(version_recorded(&versions, "net"), Some(Version::new(1, 0, 0)));
    assert_eq!(version_recorded(&obj(vec![("net", num(1))]), "net"), None);
}

#[test]
fn pre_release_precedence() {
    let chain = [
        "1.0.0-alpha",
        "1.0.0-alpha.1",
        "1.0.0-alpha.beta",
        "1.0.0-beta",
        "1.0.0-beta.2",
        "1.0.0-beta.11",
        "1.0.0-rc.1",
        "1.0.0",
        "1.0.1-0",
    ];
    let parsed: Vec<Version> = chain.iter().map(|t| parse_version(t).unwrap()).collect();
    for i in 0..parsed.len() {
        for j in 0..parsed.len() {
            assert_eq!(parsed[i].precedes(&parsed[j]), i < j, "{} vs {}", chain[i], chain[j]);
        }
    }
    assert_eq!(parse_version("2.0.0-alpha.1+build.5").unwrap().pre, "alpha.1");
}

#[test]
fn pre_release_data_crosses_the_release_rule() {
    let rules = vec![MigrationRule::AddField {
        since: Version::new(2, 0, 0),
        key: "timeout_seconds".to_string(),
        value: num(30),
    }];
    let data = obj(vec![("port", num(1))]);
    let (out, changed) = migrate(parse_version("2.0.0-alpha"), &Version::new(2, 0, 0), data, &rules);
    assert!(changed);
    assert_eq!(out, obj(vec![("port", num(1)), ("timeout_seconds", num(30))]));
}
