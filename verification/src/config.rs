//! The configuration builder: validates command-line tokens and an
//! ignore-case flag into an immutable search configuration. The flag is
//! passed in explicitly, so the builder is a pure function of its inputs;
//! the caller reads it from the environment.

use vstd::prelude::*;

verus! {

/// Why configuration construction failed.
#[derive(Clone, Copy, Debug, PartialEq, Eq, Structural)]
pub enum ConfigError {
    /// No query token followed the program name.
    MissingQuery,
    /// No file-path token followed the query.
    MissingFilePath,
}

impl ConfigError {
    /// A human-readable description of the error.
    pub fn message(&self) -> (r: &'static str)
        ensures
            *self == ConfigError::MissingQuery ==> r@ == "Did not find query string!"@,
            *self == ConfigError::MissingFilePath ==> r@ == "Did not find file path string!"@,
    {
        match self {
            ConfigError::MissingQuery => "Did not find query string!",
            ConfigError::MissingFilePath => "Did not find file path string!",
        }
    }
}

/// A validated search configuration: what to look for, where, and
/// whether case is ignored. Immutable once built.
#[derive(Debug)]
pub struct Config {
    pub query: String,
    pub file_path: String,
    pub ignore_case: bool,
}

impl Config {
    /// Build a configuration from the command-line tokens. The first
    /// token is the program name and is skipped; the next two are the
    /// query and the file path; any further tokens are ignored. The
    /// ignore-case toggle is handed in by the caller, which read it from
    /// the environment (only its presence matters there).
    pub fn build(tokens: &Vec<String>, ignore_case: bool) -> (r: Result<Config, ConfigError>)
        ensures
            tokens@.len() < 2 ==> (r matches Err(e) && e == ConfigError::MissingQuery),
            tokens@.len() == 2 ==> (r matches Err(e) && e == ConfigError::MissingFilePath),
            tokens@.len() >= 3 ==> (r matches Ok(c) && c.query@ == tokens@[1]@
                && c.file_path@ == tokens@[2]@ && c.ignore_case == ignore_case),
    {
        if tokens.len() < 2 {
            Err(ConfigError::MissingQuery)
        } else if tokens.len() < 3 {
            Err(ConfigError::MissingFilePath)
        } else {
            let query = tokens[1].clone();
            let file_path = tokens[2].clone();
            Ok(Config { query, file_path, ignore_case })
        }
    }
}

} // verus!
