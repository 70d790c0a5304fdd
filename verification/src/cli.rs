//! The argument groups shared by the cache-builder command lines, their
//! defaults, and the database URL rule: the `--database-url` flag, else
//! the tool's `DATABASE_URL_<NAME>` environment variable, else an error;
//! an empty value counts as absent.

use vstd::prelude::*;
use vstd::string::StringExecFns;

verus! {

/// `--database-url`, with no environment binding of its own (each tool
/// names its variable when resolving).
#[derive(Debug, Clone)]
pub struct DatabaseArgs {
    /// PostgreSQL connection URL; the tool's `DATABASE_URL_<NAME>`
    /// variable is the fallback (see [`resolve_database_url_from`]).
    pub database_url: Option<String>,
}

/// Flags shared by `<tool> build` subcommands.
#[derive(Debug)]
pub struct ResumableBuildArgs {
    /// Resume from the existing state file instead of starting fresh.
    pub resume: bool,
    /// Path (as text) to the JSON state file used for `--resume`
    /// checkpoints.
    pub state_file: String,
    /// Working data directory, as text (intermediate CSVs, downloads, etc.).
    pub data_dir: String,
}

/// Flags shared by `<tool> import` subcommands.
#[derive(Debug)]
pub struct ImportArgs {
    /// Drop and recreate the schema before importing.
    pub fresh: bool,
    /// Working data directory, as text (the dump to read from).
    pub data_dir: String,
}

/// Errors of [`resolve_database_url_from`].
#[derive(Debug, PartialEq, Eq)]
pub enum CliError {
    /// Neither the `--database-url` flag nor the fallback variable was set.
    MissingDatabaseUrl { env_name: String },
}

/// Default of `--state-file`.
pub open spec fn default_state_file() -> Seq<char> {
    "./state.json"@
}

/// Default of `--data-dir`.
pub open spec fn default_data_dir() -> Seq<char> {
    "./data"@
}

/// The value given, or the default.
pub open spec fn or_default(given: Option<String>, default: Seq<char>) -> Seq<char> {
    match given {
        Some(s) => s@,
        None => default,
    }
}

impl ResumableBuildArgs {
    /// The build flags from the values given on the command line, with
    /// `--state-file` defaulting to `./state.json` and `--data-dir` to
    /// `./data`.
    pub fn from_flags(resume: bool, state_file: Option<String>, data_dir: Option<String>) -> (r: Self)
        ensures
            r.resume == resume,
            r.state_file@ == or_default(state_file, default_state_file()),
            r.data_dir@ == or_default(data_dir, default_data_dir()),
    {
        let state_file = match state_file {
            Some(s) => s,
            None => String::from_str("./state.json"),
        };
        let data_dir = match data_dir {
            Some(s) => s,
            None => String::from_str("./data"),
        };
        proof {
            reveal_strlit("./state.json");
            reveal_strlit("./data");
        }
        ResumableBuildArgs { resume, state_file, data_dir }
    }
}

impl ImportArgs {
    /// The import flags from the values given on the command line, with
    /// `--data-dir` defaulting to `./data`.
    pub fn from_flags(fresh: bool, data_dir: Option<String>) -> (r: Self)
        ensures
            r.fresh == fresh,
            r.data_dir@ == or_default(data_dir, default_data_dir()),
    {
        let data_dir = match data_dir {
            Some(s) => s,
            None => String::from_str("./data"),
        };
        proof {
            reveal_strlit("./data");
        }
        ImportArgs { fresh, data_dir }
    }
}

/// A value that is present and not empty.
pub open spec fn usable(v: Option<String>) -> bool {
    v matches Some(s) && s@.len() > 0
}

/// Resolve the database URL: the flag when it is set and non-empty, else
/// the environment value `env_value` (the contents of the variable
/// `env_name`, if set) when non-empty, else
/// [`CliError::MissingDatabaseUrl`] naming the variable.
pub fn resolve_database_url_from(args: &DatabaseArgs, env_value: Option<String>, env_name: &str) -> (r:
    Result<String, CliError>)
    ensures
        usable(args.database_url) ==> (r matches Ok(u) && u@ == args.database_url->0@),
        !usable(args.database_url) && usable(env_value) ==> (r matches Ok(u) && u@ == env_value->0@),
        !usable(args.database_url) && !usable(env_value) ==> (r matches Err(
            CliError::MissingDatabaseUrl { env_name: n },
        ) && n@ == env_name@),
{
    match &args.database_url {
        Some(url) => {
            if url.as_str().is_empty() {
            } else {
                return Ok(String::from_str(url.as_str()));
            }
        },
        None => {},
    }
    match env_value {
        Some(url) => {
            if url.as_str().is_empty() {
            } else {
                return Ok(url);
            }
        },
        None => {},
    }
    Err(CliError::MissingDatabaseUrl { env_name: String::from_str(env_name) })
}

impl CliError {
    /// The error's message.
    pub fn message(&self) -> (r: String)
        ensures
            match self {
                CliError::MissingDatabaseUrl { env_name } => r@ == "no database URL: set --database-url or the "@
                    + env_name@ + " environment variable"@,
            },
    {
        match self {
            CliError::MissingDatabaseUrl { env_name } => {
                let mut s = String::from_str("no database URL: set --database-url or the ");
                s.append(env_name.as_str());
                s.append(" environment variable");
                s
            },
        }
    }
}

} // verus!
