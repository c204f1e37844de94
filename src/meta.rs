use vstd::prelude::*;
use vstd::string::StringExecFns;

verus! {

/// A localized text: a key, and a fallback where the key is unknown.
#[derive(Debug, PartialEq, Eq)]
pub struct LocalizedText {
    pub key: String,
    pub fallback: Option<String>,
}

/// How a user interface renders a setting.
#[derive(Debug, Clone, Copy, PartialEq, Eq, Structural)]
pub enum UiHint {
    Slider,
    NumberInput,
    Dropdown,
    Toggle,
    Password,
}

/// Why a setting's value was refused.
#[derive(Debug, PartialEq, Eq)]
pub enum SettingsError {
    /// The setting key does not exist.
    UnknownKey,
    /// The value has the wrong type.
    TypeMismatch,
    /// The value breaks a constraint.
    ValidationFailed(String),
}

impl SettingsError {
    /// A human-readable message.
    pub fn message(&self) -> (r: String)
        ensures
            r@ == match self {
                SettingsError::UnknownKey => "unknown key"@,
                SettingsError::TypeMismatch => "type mismatch"@,
                SettingsError::ValidationFailed(s) => "validation failed: "@ + s@,
            },
    {
        match self {
            SettingsError::UnknownKey => String::from_str("unknown key"),
            SettingsError::TypeMismatch => String::from_str("type mismatch"),
            SettingsError::ValidationFailed(s) => {
                let mut r = String::from_str("validation failed: ");
                r.append(s.as_str());
                r
            },
        }
    }
}

} // verus!
