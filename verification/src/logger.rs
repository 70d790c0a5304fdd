//! Logger configuration and the choices made at initialization: the run
//! identifier, and whether error reporting is enabled (a non-empty DSN).

use vstd::prelude::*;
use vstd::string::StringExecFns;

verus! {

/// Logger configuration. `sentry_dsn: None` falls back to the `SENTRY_DSN`
/// environment variable; `run_id: None` generates a fresh UUIDv4.
pub struct LoggerConfig {
    /// Repository name (tag `repo`).
    pub repo: &'static str,
    /// Tool name, typically `<repo> <subcommand>` (tag `tool`).
    pub tool: &'static str,
    /// Error-reporting DSN; `None` falls back to `SENTRY_DSN`, and with
    /// neither set reporting is off while logging still starts.
    pub sentry_dsn: Option<String>,
    /// Run identifier (tag `run_id`); `None` generates a UUIDv4.
    pub run_id: Option<String>,
}

/// A lowercase hexadecimal digit.
pub open spec fn is_lower_hex(c: char) -> bool {
    ('0' <= c && c <= '9') || ('a' <= c && c <= 'f')
}

/// The hyphenated lowercase text of a version 4 (random) UUID: 36
/// characters, hyphens at 8, 13, 18 and 23, lowercase hexadecimal digits
/// elsewhere, the version digit `4` at 14 and the variant digit (one of
/// `8`, `9`, `a`, `b`) at 19.
pub open spec fn is_uuid_v4_text(s: Seq<char>) -> bool {
    &&& s.len() == 36
    &&& forall|i: int|
        0 <= i < 36 ==> if i == 8 || i == 13 || i == 18 || i == 23 {
            #[trigger] s[i] == '-'
        } else {
            is_lower_hex(s[i])
        }
    &&& s[14] == '4'
    &&& (s[19] == '8' || s[19] == '9' || s[19] == 'a' || s[19] == 'b')
}

/// `uuid::Uuid::new_v4().to_string()`: a fresh random identifier. Claims
/// what holds of every outcome: the text is a hyphenated lowercase
/// version 4 UUID (`new_v4` fixes the version and variant bits, `Display`
/// writes the hyphenated lowercase form); which one is random.
#[verifier::external_body]
fn new_run_id() -> (r: String)
    ensures
        is_uuid_v4_text(r@),
{
    uuid::Uuid::new_v4().to_string()
}

/// The run identifier: the configured one, else a fresh UUIDv4.
pub fn resolve_run_id(configured: Option<String>) -> (r: String)
    ensures
        configured matches Some(id) ==> r@ == id@,
        configured is None ==> is_uuid_v4_text(r@),
{
    match configured {
        Some(id) => id,
        None => new_run_id(),
    }
}

/// The DSN to report errors to: the configured one, else the environment's
/// (`env_dsn`); none when that is absent or empty.
pub fn resolve_dsn(configured: Option<String>, env_dsn: Option<String>) -> (r: Option<String>)
    ensures
        ({
            let chosen = match configured {
                Some(d) => Some(d),
                None => env_dsn,
            };
            match chosen {
                Some(d) => if d@.len() > 0 {
                    r matches Some(x) && x@ == d@
                } else {
                    r is None
                },
                None => r is None,
            }
        }),
{
    let chosen = match configured {
        Some(d) => Some(d),
        None => env_dsn,
    };
    match chosen {
        Some(d) => {
            if d.as_str().is_empty() {
                None
            } else {
                Some(d)
            }
        },
        None => None,
    }
}

} // verus!
