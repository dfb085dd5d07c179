//! Trusted boundary to the host platform: the user's home directory,
//! the clock, and file existence. Every result here depends on the
//! machine or the moment, so no contract pins a value; callers state
//! what holds of every outcome.

use vstd::prelude::*;

verus! {

/// Relies on dirs::home_dir for the platform's notion of the user's
/// home directory; the path is handed on as a string, `None` where the
/// platform gives none or the path is not valid Unicode.
#[verifier::external_body]
pub(crate) fn home_dir_path() -> (r: Option<String>) {
    dirs::home_dir().and_then(|p| p.to_str().map(|s| s.to_string()))
}

/// Relies on std::time::SystemTime::now and
/// SystemTime::duration_since(UNIX_EPOCH): the current Unix time in
/// seconds, `0` when the clock stands before the epoch.
#[verifier::external_body]
pub(crate) fn now_unix_secs() -> (r: u64) {
    std::time::SystemTime::now().duration_since(std::time::SystemTime::UNIX_EPOCH).map(
        |d| d.as_secs(),
    ).unwrap_or(0)
}

/// Relies on std::path::Path::exists: whether anything answers to the
/// path on disk at this moment.
#[verifier::external_body]
pub(crate) fn path_exists(path: &str) -> (r: bool) {
    std::path::Path::new(path).exists()
}

} // verus!
