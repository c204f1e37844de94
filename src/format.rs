use vstd::prelude::*;

use crate::error::ManagerError;

verus! {

/// Serialization format of a settings file.
#[derive(Debug, Clone, Copy, PartialEq, Eq, Structural)]
pub enum SerializationFormat {
    /// Human readable JSON text.
    Json,
    /// Binary file (`bin`): compact JSON text in a length-prefixed bincode
    /// frame.
    Binary,
}

impl SerializationFormat {
    pub open spec fn spec_extension(self) -> Seq<char> {
        match self {
            SerializationFormat::Json => seq!['j', 's', 'o', 'n'],
            SerializationFormat::Binary => seq!['b', 'i', 'n'],
        }
    }

    /// File extension used for this format.
    pub fn extension(&self) -> (r: &'static str)
        ensures
            r@ == self.spec_extension(),
    {
        match self {
            SerializationFormat::Json => {
                proof {
                    reveal_strlit("json");
                    assert("json"@ =~= seq!['j', 's', 'o', 'n']);
                }
                "json"
            },
            SerializationFormat::Binary => {
                proof {
                    reveal_strlit("bin");
                    assert("bin"@ =~= seq!['b', 'i', 'n']);
                }
                "bin"
            },
        }
    }
}

#[verifier::external_type_specification]
#[verifier::external_body]
pub struct ExJsonValue(serde_json::Value);

/// An encoding of a settings file, chosen by the file's extension.
#[derive(Debug, Clone, Copy, PartialEq, Eq, Structural)]
pub enum FileFormat {
    /// Pretty-printed JSON text (`json`).
    Json,
    /// TOML text (`toml`).
    Toml,
    /// RON text (`ron`).
    Ron,
    /// Binary (`bin`): compact JSON text in a length-prefixed bincode frame.
    Bin,
}

/// The format that an extension selects, if any.
pub open spec fn format_of(ext: Seq<char>) -> Option<FileFormat> {
    if ext == seq!['j', 's', 'o', 'n'] {
        Some(FileFormat::Json)
    } else if ext == seq!['t', 'o', 'm', 'l'] {
        Some(FileFormat::Toml)
    } else if ext == seq!['r', 'o', 'n'] {
        Some(FileFormat::Ron)
    } else if ext == seq!['b', 'i', 'n'] {
        Some(FileFormat::Bin)
    } else {
        None
    }
}

/// Whether a text equals a literal.
fn text_is(s: &str, lit: &str) -> (r: bool)
    ensures
        r == (s@ == lit@),
{
    s.to_owned() == lit.to_owned()
}

impl FileFormat {
    /// The format that a file extension selects; `None` for an unknown one.
    pub fn from_extension(ext: &str) -> (r: Option<FileFormat>)
        ensures
            r == format_of(ext@),
    {
        proof {
            reveal_strlit("json");
            reveal_strlit("toml");
            reveal_strlit("ron");
            reveal_strlit("bin");
            assert("json"@ =~= seq!['j', 's', 'o', 'n']);
            assert("toml"@ =~= seq!['t', 'o', 'm', 'l']);
            assert("ron"@ =~= seq!['r', 'o', 'n']);
            assert("bin"@ =~= seq!['b', 'i', 'n']);
        }
        if text_is(ext, "json") {
            Some(FileFormat::Json)
        } else if text_is(ext, "toml") {
            Some(FileFormat::Toml)
        } else if text_is(ext, "ron") {
            Some(FileFormat::Ron)
        } else if text_is(ext, "bin") {
            Some(FileFormat::Bin)
        } else {
            None
        }
    }
}

#[verifier::external_type_specification]
#[verifier::external_body]
pub struct ExJsonError(serde_json::Error);

#[verifier::external_type_specification]
#[verifier::external_body]
pub struct ExUtf8Error(std::str::Utf8Error);

#[verifier::external_type_specification]
#[verifier::external_body]
pub struct ExTomlDeError(toml::de::Error);

#[verifier::external_type_specification]
#[verifier::external_body]
pub struct ExTomlSerError(toml::ser::Error);

#[verifier::external_type_specification]
#[verifier::external_body]
pub struct ExRonSpannedError(ron::error::SpannedError);

#[verifier::external_type_specification]
#[verifier::external_body]
pub struct ExRonError(ron::error::Error);

#[verifier::external_type_specification]
#[verifier::external_body]
pub struct ExDecodeError(bincode::error::DecodeError);

#[verifier::external_type_specification]
#[verifier::external_body]
pub struct ExEncodeError(bincode::error::EncodeError);

/// Whether `serde_json::from_slice` reads the bytes as a JSON value.
pub uninterp spec fn json_accepts(b: Seq<u8>) -> bool;

/// The text that `std::str::from_utf8` reads from the bytes, `None` where
/// they are no UTF-8.
pub uninterp spec fn utf8_decoded(b: Seq<u8>) -> Option<Seq<char>>;

/// Whether `toml::from_str` reads the text as a value.
pub uninterp spec fn toml_accepts(t: Seq<char>) -> bool;

/// Whether `ron::from_str` reads the text as a value.
pub uninterp spec fn ron_accepts(t: Seq<char>) -> bool;

/// The byte string that `bincode::serde::decode_from_slice` (standard
/// configuration) reads from the front of the bytes, `None` where it fails.
pub uninterp spec fn bincode_bytes_of(b: Seq<u8>) -> Option<Seq<u8>>;

/// Relies on `serde_json::from_slice`: parses JSON text into a value; whether
/// it succeeds depends on the bytes alone.
#[verifier::external_body]
fn json_decode(content: &[u8]) -> (r: Result<serde_json::Value, serde_json::Error>)
    ensures
        (r is Ok) == json_accepts(content@),
{
    serde_json::from_slice(content)
}

/// Relies on `std::str::from_utf8`: the bytes as text, when they are UTF-8.
#[verifier::external_body]
fn utf8_text(content: &[u8]) -> (r: Result<&str, std::str::Utf8Error>)
    ensures
        match r {
            Ok(t) => utf8_decoded(content@) == Some(t@),
            Err(_) => utf8_decoded(content@) is None,
        },
{
    std::str::from_utf8(content)
}

/// Relies on `toml::from_str`: parses TOML text into a value.
#[verifier::external_body]
fn toml_decode(text: &str) -> (r: Result<serde_json::Value, toml::de::Error>)
    ensures
        (r is Ok) == toml_accepts(text@),
{
    toml::from_str(text)
}

/// Relies on `ron::from_str`: parses RON text into a value.
#[verifier::external_body]
fn ron_decode(text: &str) -> (r: Result<serde_json::Value, ron::error::SpannedError>)
    ensures
        (r is Ok) == ron_accepts(text@),
{
    ron::from_str(text)
}

/// Relies on `bincode::serde::decode_from_slice` with the standard
/// configuration: reads a length-prefixed byte string from the front of the
/// bytes.
#[verifier::external_body]
fn bincode_decode_bytes(content: &[u8]) -> (r: Result<Vec<u8>, bincode::error::DecodeError>)
    ensures
        match r {
            Ok(p) => bincode_bytes_of(content@) == Some(p@),
            Err(_) => bincode_bytes_of(content@) is None,
        },
{
    bincode::serde::decode_from_slice(content, bincode::config::standard()).map(|(v, _)| v)
}

/// Relies on `bincode::serde::encode_to_vec` with the standard configuration:
/// a byte string is written as its length and its bytes, which cannot fail
/// when writing to a `Vec`, and is read back whole.
#[verifier::external_body]
fn bincode_encode_bytes(bytes: &Vec<u8>) -> (r: Result<Vec<u8>, bincode::error::EncodeError>)
    ensures
        r is Ok,
        match r {
            Ok(b) => bincode_bytes_of(b@) == Some(bytes@),
            Err(_) => true,
        },
{
    bincode::serde::encode_to_vec(bytes, bincode::config::standard())
}

/// Relies on `serde_json::to_vec_pretty`: pretty-printed JSON text. It fails
/// only through a failing `Serialize` impl or a map with non-string keys, and
/// a JSON value has neither.
#[verifier::external_body]
fn json_encode(value: &serde_json::Value) -> (r: Result<Vec<u8>, serde_json::Error>)
    ensures
        r is Ok,
{
    serde_json::to_vec_pretty(value)
}

/// Relies on `serde_json::to_vec`: compact JSON text; it cannot fail for a
/// JSON value, as for `json_encode`.
#[verifier::external_body]
fn json_encode_compact(value: &serde_json::Value) -> (r: Result<Vec<u8>, serde_json::Error>)
    ensures
        r is Ok,
{
    serde_json::to_vec(value)
}

/// Relies on `toml::to_string_pretty`: TOML text, as bytes.
#[verifier::external_body]
fn toml_encode(value: &serde_json::Value) -> (r: Result<Vec<u8>, toml::ser::Error>) {
    toml::to_string_pretty(value).map(|s| s.into_bytes())
}

/// Relies on `ron::ser::to_string_pretty` with the default pretty layout:
/// RON text, as bytes.
#[verifier::external_body]
fn ron_encode(value: &serde_json::Value) -> (r: Result<Vec<u8>, ron::error::Error>) {
    ron::ser::to_string_pretty(value, ron::ser::PrettyConfig::default()).map(|s| s.into_bytes())
}

/// Whether a file in format `f` with contents `b` decodes: JSON as JSON text;
/// TOML and RON as UTF-8 text of that format; binary as a length-prefixed
/// byte string that holds JSON text.
pub open spec fn decodes(f: FileFormat, b: Seq<u8>) -> bool {
    match f {
        FileFormat::Json => json_accepts(b),
        FileFormat::Toml => utf8_decoded(b) matches Some(t) && toml_accepts(t),
        FileFormat::Ron => utf8_decoded(b) matches Some(t) && ron_accepts(t),
        FileFormat::Bin => bincode_bytes_of(b) matches Some(p) && json_accepts(p),
    }
}

/// Decodes the contents of a settings file in the format that its extension
/// selects. An unknown extension is refused before anything is decoded; a
/// known one succeeds exactly when its decoder accepts the contents, and
/// fails otherwise with a serialization error.
pub fn decode_content(content: &[u8], ext: &str) -> (r: Result<serde_json::Value, ManagerError>)
    ensures
        match r {
            Ok(_) => format_of(ext@) matches Some(f) && decodes(f, content@),
            Err(ManagerError::Serialization(_)) => format_of(ext@) matches Some(f) && !decodes(
                f,
                content@,
            ),
            Err(ManagerError::UnsupportedFormat(e)) => format_of(ext@) is None && e@ == ext@,
            Err(_) => false,
        },
{
    match FileFormat::from_extension(ext) {
        None => Err(ManagerError::UnsupportedFormat(ext.to_owned())),
        Some(FileFormat::Json) => match json_decode(content) {
            Ok(v) => Ok(v),
            Err(e) => Err(ManagerError::Serialization(e.to_string())),
        },
        Some(FileFormat::Toml) => match utf8_text(content) {
            Ok(text) => match toml_decode(text) {
                Ok(v) => Ok(v),
                Err(e) => Err(ManagerError::Serialization(e.to_string())),
            },
            Err(e) => Err(ManagerError::Serialization(e.to_string())),
        },
        Some(FileFormat::Ron) => match utf8_text(content) {
            Ok(text) => match ron_decode(text) {
                Ok(v) => Ok(v),
                Err(e) => Err(ManagerError::Serialization(e.to_string())),
            },
            Err(e) => Err(ManagerError::Serialization(e.to_string())),
        },
        Some(FileFormat::Bin) => match bincode_decode_bytes(content) {
            Ok(payload) => match json_decode(payload.as_slice()) {
                Ok(v) => Ok(v),
                Err(e) => Err(ManagerError::Serialization(e.to_string())),
            },
            Err(e) => Err(ManagerError::Serialization(e.to_string())),
        },
    }
}

/// Encodes a value in the format that an extension selects. An unknown
/// extension is refused before anything is encoded, so no bytes come back to
/// be written. JSON and binary always succeed; a binary file is the compact
/// JSON text framed as a length-prefixed byte string, which reads back as
/// that text. TOML and RON fail with a serialization error where their
/// encoder refuses the value.
pub fn encode_content(value: &serde_json::Value, ext: &str) -> (r: Result<Vec<u8>, ManagerError>)
    ensures
        match r {
            Ok(_) => format_of(ext@) is Some,
            Err(ManagerError::Serialization(_)) => format_of(ext@) == Some(FileFormat::Toml)
                || format_of(ext@) == Some(FileFormat::Ron),
            Err(ManagerError::UnsupportedFormat(e)) => format_of(ext@) is None && e@ == ext@,
            Err(_) => false,
        },
        format_of(ext@) == Some(FileFormat::Bin) ==> (r matches Ok(b) && bincode_bytes_of(b@) is Some),
{
    match FileFormat::from_extension(ext) {
        None => Err(ManagerError::UnsupportedFormat(ext.to_owned())),
        Some(FileFormat::Json) => match json_encode(value) {
            Ok(bytes) => Ok(bytes),
            Err(e) => Err(ManagerError::Serialization(e.to_string())),
        },
        Some(FileFormat::Toml) => match toml_encode(value) {
            Ok(bytes) => Ok(bytes),
            Err(e) => Err(ManagerError::Serialization(e.to_string())),
        },
        Some(FileFormat::Ron) => match ron_encode(value) {
            Ok(bytes) => Ok(bytes),
            Err(e) => Err(ManagerError::Serialization(e.to_string())),
        },
        Some(FileFormat::Bin) => match json_encode_compact(value) {
            Ok(text) => match bincode_encode_bytes(&text) {
                Ok(bytes) => Ok(bytes),
                Err(e) => Err(ManagerError::Serialization(e.to_string())),
            },
            Err(e) => Err(ManagerError::Serialization(e.to_string())),
        },
    }
}

} // verus!
