use vstd::prelude::*;
use vstd::string::{StrSliceExecFns, StringExecFns};

use crate::format::SerializationFormat;

verus! {

/// Configuration of a settings type: the file name (without extension), the
/// format, and an optional base directory.
pub struct SettingsConfig {
    pub name: String,
    pub format: SerializationFormat,
    pub base_path: Option<String>,
}

impl SettingsConfig {
    pub fn new(name: String, format: SerializationFormat) -> (r: SettingsConfig)
        ensures
            r.name@ == name@,
            r.format == format,
            r.base_path is None,
    {
        SettingsConfig { name, format, base_path: None }
    }

    /// Sets the base directory.
    pub fn with_base_path(self, path: String) -> (r: SettingsConfig)
        ensures
            r.name@ == self.name@,
            r.format == self.format,
            r.base_path matches Some(p) && p@ == path@,
    {
        SettingsConfig { base_path: Some(path), ..self }
    }
}

/// A file path: `file` inside directory `base`, joined with `/` unless `base`
/// is empty or already ends with one.
pub open spec fn join_path(base: Seq<char>, file: Seq<char>) -> Seq<char> {
    if base.len() == 0 {
        file
    } else if base.last() == '/' {
        base + file
    } else {
        base + seq!['/'] + file
    }
}

/// Where a unified settings file lives, its format and its version tag.
pub struct UnifiedStorage {
    pub format: SerializationFormat,
    pub base_path: String,
    pub filename: String,
    pub version: Option<String>,
}

impl UnifiedStorage {
    /// A store named `filename` in directory `settings`.
    pub fn new(filename: String, format: SerializationFormat) -> (r: UnifiedStorage)
        ensures
            r.format == format,
            r.base_path@ == seq!['s', 'e', 't', 't', 'i', 'n', 'g', 's'],
            r.filename@ == filename@,
            r.version is None,
    {
        proof {
            reveal_strlit("settings");
            assert("settings"@ =~= seq!['s', 'e', 't', 't', 'i', 'n', 'g', 's']);
        }
        UnifiedStorage {
            format,
            base_path: String::from_str("settings"),
            filename,
            version: None,
        }
    }

    /// Sets the base directory.
    pub fn with_base_path(self, path: String) -> (r: UnifiedStorage)
        ensures
            r.format == self.format,
            r.base_path@ == path@,
            r.filename@ == self.filename@,
            r.version == self.version,
    {
        UnifiedStorage { base_path: path, ..self }
    }

    /// Sets the version tag.
    pub fn with_version(self, version: String) -> (r: UnifiedStorage)
        ensures
            r.format == self.format,
            r.base_path@ == self.base_path@,
            r.filename@ == self.filename@,
            r.version matches Some(v) && v@ == version@,
    {
        UnifiedStorage { version: Some(version), ..self }
    }

    /// The path of the file: `<base_path>/<filename>.<extension>`.
    pub fn get_path(&self) -> (r: String)
        ensures
            r@ == join_path(
                self.base_path@,
                self.filename@ + seq!['.'] + self.format.spec_extension(),
            ),
    {
        let mut file = self.filename.clone();
        file.append(".");
        file.append(self.format.extension());
        proof {
            reveal_strlit(".");
            reveal_strlit("/");
            assert("."@ =~= seq!['.']);
            assert("/"@ =~= seq!['/']);
        }
        let base = self.base_path.as_str();
        let n = base.unicode_len();
        if n == 0 {
            file
        } else {
            let mut path = self.base_path.clone();
            if base.get_char(n - 1) != '/' {
                path.append("/");
            }
            path.append(file.as_str());
            proof {
                assert(path@ =~= join_path(self.base_path@, file@));
            }
            path
        }
    }
}

/// The file name of a settings type inside a store: a store name written in
/// brackets, such as `[slot1]`, is a prefix (`slot1_Type`); any other store
/// name leaves the type name alone.
pub open spec fn settings_name(store_name: Seq<char>, kind_name: Seq<char>) -> Seq<char> {
    if store_name.len() >= 2 && store_name[0] == '[' && store_name.last() == ']' {
        store_name.subrange(1, store_name.len() - 1) + seq!['_'] + kind_name
    } else {
        kind_name
    }
}

/// The file name of a settings type inside a store (see [`settings_name`]).
pub fn get_settings_name(store_name: &str, kind_name: &str) -> (r: String)
    ensures
        r@ == settings_name(store_name@, kind_name@),
{
    let n = store_name.unicode_len();
    if n >= 2 && store_name.get_char(0) == '[' && store_name.get_char(n - 1) == ']' {
        let mut r = String::from_str(store_name.substring_char(1, n - 1));
        r.append("_");
        r.append(kind_name);
        proof {
            reveal_strlit("_");
            assert("_"@ =~= seq!['_']);
        }
        r
    } else {
        String::from_str(kind_name)
    }
}

/// A settings group stored in a file of its own, whose location is a path
/// template filled from the group's own fields.
pub trait SettingsGroupTrait {
    /// The fields that fill the path template; they are never stored in the
    /// file itself.
    fn path_params() -> Vec<String>;
}

} // verus!
