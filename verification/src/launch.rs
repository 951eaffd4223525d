//! What the launcher decides around an action: which configuration file it
//! reads, and the status its process ends with.

use crate::docker::fmt::InterpolationError;
use vstd::prelude::*;

verus! {

/// Status of a process that asked for an action the configuration does not hold.
pub const DOA_ACTION_MISSING: i32 = 1;

/// Status of a process that failed for any reason without a status of its own.
pub const DOA_FAILURE: i32 = 2;

/// Status of a process that found no configuration file.
pub const CONFIG_MISSING: i32 = 10;

/// Status of a process that found more than one configuration file.
pub const MULTIPLE_CONFIG_FOUND: i32 = 11;

/// The formats a configuration file is written in.
#[derive(Debug, Clone, Copy, PartialEq, Eq, Structural)]
pub enum ConfigFormat {
    Yaml,
    Toml,
}

/// Why no configuration was loaded.
#[derive(Debug, Clone, Copy, PartialEq, Eq, Structural)]
pub enum ConfigurationError {
    /// No configuration file is present.
    Missing,
    /// More than one configuration file is present.
    Multiple,
    /// The file that is present does not hold a configuration.
    Malformed,
}

/// Why the launcher ended without running its action to the end.
#[derive(Debug, Clone, Copy, PartialEq, Eq, Structural)]
pub enum Failure {
    /// No configuration was loaded.
    Configuration(ConfigurationError),
    /// The configuration holds no action of the name asked for.
    ActionNotFound,
    /// A shell expression of the action yielded no text.
    Interpolation(InterpolationError),
    /// No container engine was found on this host.
    EngineNotFound,
    /// The container engine could not be started.
    EngineExecution,
}

/// The file to read, from which of the two configuration files are present:
/// the one that is, and an error where none or both are.
pub open spec fn selected(yaml_exists: bool, toml_exists: bool) -> Result<
    ConfigFormat,
    ConfigurationError,
> {
    if yaml_exists && toml_exists {
        Err(ConfigurationError::Multiple)
    } else if yaml_exists {
        Ok(ConfigFormat::Yaml)
    } else if toml_exists {
        Ok(ConfigFormat::Toml)
    } else {
        Err(ConfigurationError::Missing)
    }
}

/// Chooses the configuration file to read.
pub fn select_config(yaml_exists: bool, toml_exists: bool) -> (r: Result<
    ConfigFormat,
    ConfigurationError,
>)
    ensures
        r == selected(yaml_exists, toml_exists),
{
    match (yaml_exists, toml_exists) {
        (true, true) => Err(ConfigurationError::Multiple),
        (false, false) => Err(ConfigurationError::Missing),
        (true, false) => Ok(ConfigFormat::Yaml),
        (false, true) => Ok(ConfigFormat::Toml),
    }
}

/// The status that tells `failure`: one of its own for a missing action, for
/// a missing configuration file and for more than one of them, and the
/// general one for every other failure.
pub open spec fn status(failure: Failure) -> int {
    match failure {
        Failure::Configuration(ConfigurationError::Missing) => CONFIG_MISSING as int,
        Failure::Configuration(ConfigurationError::Multiple) => MULTIPLE_CONFIG_FOUND as int,
        Failure::ActionNotFound => DOA_ACTION_MISSING as int,
        _ => DOA_FAILURE as int,
    }
}

impl Failure {
    /// The status the process ends with on this failure.
    pub fn exit_code(&self) -> (code: i32)
        ensures
            code == status(*self),
            code != 0,
    {
        match self {
            Failure::Configuration(ConfigurationError::Missing) => CONFIG_MISSING,
            Failure::Configuration(ConfigurationError::Multiple) => MULTIPLE_CONFIG_FOUND,
            Failure::ActionNotFound => DOA_ACTION_MISSING,
            _ => DOA_FAILURE,
        }
    }
}

/// The status the process ends with once the engine has run: the engine's
/// own, and that of a general failure where the engine left none.
pub fn exit_code_after(engine: Option<i32>) -> (code: i32)
    ensures
        code == match engine {
            Some(own) => own,
            None => DOA_FAILURE,
        },
{
    match engine {
        Some(own) => own,
        None => DOA_FAILURE,
    }
}

/// A missing action, a missing configuration file, more than one
/// configuration file and every other failure are told apart by their
/// status, and no failure has the status of success.
pub proof fn lemma_statuses_tell_failures_apart(a: Failure, b: Failure)
    ensures
        status(a) != 0,
        status(a) == status(b) <==> (a is ActionNotFound <==> b is ActionNotFound) && (a
            == Failure::Configuration(ConfigurationError::Missing) <==> b
            == Failure::Configuration(ConfigurationError::Missing)) && (a
            == Failure::Configuration(ConfigurationError::Multiple) <==> b
            == Failure::Configuration(ConfigurationError::Multiple)),
{
}

} // verus!
