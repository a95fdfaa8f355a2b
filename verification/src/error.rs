use vstd::prelude::*;

verus! {

use crate::value::SourceSpan;

/// One failure of the configuration resolution pipeline. The set is closed:
/// absence, transport failure, invalid path, invalid environment selector,
/// invalid environment section, schema violation, syntax violation. Each
/// variant carries exactly the data its diagnostic message needs.
#[derive(Debug, PartialEq)]
pub enum ConfigError {
    /// No candidate directory held the configuration file.
    NotFound,
    /// The located file could not be read.
    IoFailure,
    /// A candidate path exists but is not a regular file.
    BadFilePath { path: String, reason: String },
    /// The environment selector matches no recognized environment name.
    BadEnvironmentSelector { selector: String },
    /// A section of the document is neither the global section nor a
    /// recognized environment name.
    BadEnvironmentEntry { name: String, path: String },
    /// A key's stored value has a different tag than the requested type.
    TypeMismatch { key: String, expected: String, actual: String, path: Option<String> },
    /// The configuration text is not well formed.
    ParseFailure { message: String, path: String, fragment: String, span: Option<SourceSpan> },
}

impl ConfigError {
    /// The short, static category of the error, independent of its display
    /// message; meant for logging and classification.
    pub open spec fn spec_description(self) -> Seq<char> {
        match self {
            ConfigError::NotFound => "missing config file"@,
            ConfigError::IoFailure => "there was an I/O error while reading the config file"@,
            ConfigError::BadFilePath { .. } => "the config file path is invalid"@,
            ConfigError::BadEnvironmentSelector { .. } => "the environment selector is invalid"@,
            ConfigError::BadEnvironmentEntry { .. } => "an environment specified as `[environment]` is invalid"@,
            ConfigError::TypeMismatch { .. } => "a key was specified with a value of the wrong type"@,
            ConfigError::ParseFailure { .. } => "config syntax error"@,
        }
    }

    /// The category string of this error.
    pub fn description(&self) -> (r: &'static str)
        ensures
            r@ == self.spec_description(),
    {
        match self {
            ConfigError::NotFound => "missing config file",
            ConfigError::IoFailure => "there was an I/O error while reading the config file",
            ConfigError::BadFilePath { .. } => "the config file path is invalid",
            ConfigError::BadEnvironmentSelector { .. } => "the environment selector is invalid",
            ConfigError::BadEnvironmentEntry { .. } => "an environment specified as `[environment]` is invalid",
            ConfigError::TypeMismatch { .. } => "a key was specified with a value of the wrong type",
            ConfigError::ParseFailure { .. } => "config syntax error",
        }
    }

    /// The one-line human-readable summary of the error.
    pub open spec fn spec_message(self) -> Seq<char> {
        match self {
            ConfigError::NotFound => "config file was not found"@,
            ConfigError::IoFailure => "I/O error while reading the config file"@,
            ConfigError::BadFilePath { path, .. } => path@ + " is not a valid config path"@,
            ConfigError::BadEnvironmentSelector { selector } => selector@
                + " is not a valid environment-selector value"@,
            ConfigError::BadEnvironmentEntry { name, .. } => name@
                + " is not a valid [environment] entry"@,
            ConfigError::TypeMismatch { key, expected, actual, .. } => "type mismatch for '"@
                + key@ + "'. expected "@ + expected@ + ", found "@ + actual@,
            ConfigError::ParseFailure { .. } => "the config file contains invalid syntax"@,
        }
    }

    /// Renders the error as its one-line summary.
    pub fn message(&self) -> (r: String)
        ensures
            r@ == self.spec_message(),
    {
        match self {
            ConfigError::NotFound => String::from_str("config file was not found"),
            ConfigError::IoFailure => String::from_str("I/O error while reading the config file"),
            ConfigError::BadFilePath { path, .. } => {
                let r = String::from_str(path.as_str()).concat(" is not a valid config path");
                proof {
                    assert(r@ =~= self.spec_message());
                }
                r
            },
            ConfigError::BadEnvironmentSelector { selector } => {
                let r = String::from_str(selector.as_str()).concat(
                    " is not a valid environment-selector value",
                );
                proof {
                    assert(r@ =~= self.spec_message());
                }
                r
            },
            ConfigError::BadEnvironmentEntry { name, .. } => {
                let r = String::from_str(name.as_str()).concat(" is not a valid [environment] entry");
                proof {
                    assert(r@ =~= self.spec_message());
                }
                r
            },
            ConfigError::TypeMismatch { key, expected, actual, .. } => {
                let r = String::from_str("type mismatch for '").concat(key.as_str()).concat(
                    "'. expected ",
                ).concat(expected.as_str()).concat(", found ").concat(actual.as_str());
                proof {
                    assert(r@ =~= self.spec_message());
                }
                r
            },
            ConfigError::ParseFailure { .. } => String::from_str(
                "the config file contains invalid syntax",
            ),
        }
    }
}

} // verus!
