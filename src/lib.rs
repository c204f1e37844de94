pub mod error;
pub mod format;
pub mod value;
pub mod delta;
pub mod params;
pub mod version;
pub mod migrate;
pub mod store;
pub mod path;
pub mod config;
pub mod meta;

pub use config::{SettingsConfig, SettingsGroupTrait, UnifiedStorage, get_settings_name};
pub use meta::{LocalizedText, SettingsError, UiHint};
pub use delta::{compute_delta, compute_value_delta, merge_values, merge_with_defaults, merged};
pub use error::ManagerError;
pub use format::{FileFormat, SerializationFormat, decode_content, encode_content};
pub use migrate::{MigrationRule, SectionMigration, migrate};
pub use version::{Version, parse_version, pre_release_precedes};
pub use params::{
    PathError, check_path_params, copy_params, is_empty_path_value, reload_settings,
    save_payload, strip_path_params,
};
pub use path::{extract_params, plan_group_save, resolve};
pub use store::{
    build_store_file, is_valid_section_key, load_section, load_section_with, save_section,
    section_key, settle_migration, version_recorded,
    split_store_file, stage_section,
};
pub use value::{Number, Tree, copy_value, equals};
