use vstd::prelude::*;

verus! {

use crate::error::ConfigError;
use crate::text::{lower_seq, eq_ignore_case};

/// The closed, ordered set of recognized environment names. Equality of a
/// selector with a name is case-normalized; the canonical spelling is lower
/// case.
#[derive(Debug, Clone, Copy, PartialEq, Eq, Structural)]
pub enum EnvironmentName {
    Development,
    Staging,
    Production,
}

impl EnvironmentName {
    pub open spec fn spec_canonical(self) -> Seq<char> {
        match self {
            EnvironmentName::Development => "development"@,
            EnvironmentName::Staging => "staging"@,
            EnvironmentName::Production => "production"@,
        }
    }

    /// The canonical (lower-case) spelling of the environment name.
    pub fn canonical(&self) -> (r: &'static str)
        ensures
            r@ == self.spec_canonical(),
    {
        match self {
            EnvironmentName::Development => "development",
            EnvironmentName::Staging => "staging",
            EnvironmentName::Production => "production",
        }
    }
}

impl Default for EnvironmentName {
    /// The environment assumed when no selector is supplied.
    fn default() -> (r: Self)
        ensures
            r == EnvironmentName::Development,
    {
        EnvironmentName::Development
    }
}

/// The environment name a selector string denotes, if it case-insensitively
/// matches a recognized name.
pub open spec fn recognized(selector: Seq<char>) -> Option<EnvironmentName> {
    if lower_seq(selector) == "development"@ {
        Some(EnvironmentName::Development)
    } else if lower_seq(selector) == "staging"@ {
        Some(EnvironmentName::Staging)
    } else if lower_seq(selector) == "production"@ {
        Some(EnvironmentName::Production)
    } else {
        None
    }
}

/// The canonical names are already lower case, so lower-casing them is the
/// identity.
pub proof fn lemma_lower_canonical()
    ensures
        lower_seq("development"@) == "development"@,
        lower_seq("staging"@) == "staging"@,
        lower_seq("production"@) == "production"@,
        lower_seq("global"@) == "global"@,
        "global"@ != "development"@,
        "global"@ != "staging"@,
        "global"@ != "production"@,
{
    reveal_strlit("development");
    reveal_strlit("staging");
    reveal_strlit("production");
    reveal_strlit("global");
    assert(lower_seq("development"@) =~= "development"@);
    assert(lower_seq("staging"@) =~= "staging"@);
    assert(lower_seq("production"@) =~= "production"@);
    assert(lower_seq("global"@) =~= "global"@);
}

/// Validates a selector string against the closed environment set. A
/// selector that case-insensitively matches a recognized name yields that
/// name; any other selector is rejected with the raw string preserved
/// verbatim.
pub fn from_selector(selector: &str) -> (r: Result<EnvironmentName, ConfigError>)
    ensures
        match recognized(selector@) {
            Some(env) => r == Ok::<EnvironmentName, ConfigError>(env),
            None => r matches Err(e) && e matches ConfigError::BadEnvironmentSelector {
                selector: s,
            } && s@ == selector@,
        },
{
    proof {
        lemma_lower_canonical();
    }
    if eq_ignore_case(selector, "development") {
        Ok(EnvironmentName::Development)
    } else if eq_ignore_case(selector, "staging") {
        Ok(EnvironmentName::Staging)
    } else if eq_ignore_case(selector, "production") {
        Ok(EnvironmentName::Production)
    } else {
        Err(ConfigError::BadEnvironmentSelector { selector: String::from_str(selector) })
    }
}

/// Resolves the active environment from an optional selector: absence means
/// the default environment, anything else is validated by `from_selector`.
pub fn resolve_environment(selector: &Option<String>) -> (r: Result<
    EnvironmentName,
    ConfigError,
>)
    ensures
        match *selector {
            None => r == Ok::<EnvironmentName, ConfigError>(EnvironmentName::Development),
            Some(s) => match recognized(s@) {
                Some(env) => r == Ok::<EnvironmentName, ConfigError>(env),
                None => r matches Err(e) && e matches ConfigError::BadEnvironmentSelector {
                    selector: raw,
                } && raw@ == s@,
            },
        },
{
    match selector {
        None => Ok(EnvironmentName::Development),
        Some(s) => from_selector(s.as_str()),
    }
}

} // verus!
