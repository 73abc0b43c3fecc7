//! The per-project run cache: the profile the last run used, and optional
//! run history.
//!
//! The cache lives in one small file per project; the unverified shell
//! reads and writes that file (a corrupt or unreadable cache is handed in
//! as no cache at all) while the decisions about its content are made and
//! proved here.

use crate::filesystem_state::FilesystemDiff;
use crate::paths::str_eq;
use vstd::prelude::*;

verus! {

/// One past run, as the history remembers it.
pub struct RunMetadata {
    pub start_timestamp: i64,
    pub end_timestamp: i64,
    pub exit_code: i32,
    pub pipe_path: String,
    pub env_path: Option<String>,
    pub used_env: bool,
    pub modified_files: Vec<FilesystemDiff>,
}

/// The cached record of one project.
pub struct Cache {
    pub last_executed_profile: Option<String>,
    pub run_metadata: Option<Vec<RunMetadata>>,
}

/// Check the name of the last profile run in this project: `Some(true)`
/// when it is the same as the current one, `Some(false)` otherwise, `None`
/// when there is no cache.  Also returns the cache to write back: the
/// current profile recorded, everything else kept.
pub fn check_last_profile(cache: Option<Cache>, current_profile: String) -> (r: (
    Option<bool>,
    Cache,
))
    ensures
        cache is None ==> r.0 is None,
        cache is Some ==> r.0 == Some(
            cache->Some_0.last_executed_profile is Some
                && cache->Some_0.last_executed_profile->Some_0@ == current_profile@,
        ),
        r.1.last_executed_profile == Some(current_profile),
        r.1.run_metadata == (match cache {
            Some(c) => c.run_metadata,
            None => None::<Vec<RunMetadata>>,
        }),
{
    match cache {
        None => (
            None,
            Cache { last_executed_profile: Some(current_profile), run_metadata: None },
        ),
        Some(c) => {
            let same = match &c.last_executed_profile {
                Some(p) => str_eq(p.as_str(), current_profile.as_str()),
                None => false,
            };
            (
                Some(same),
                Cache { last_executed_profile: Some(current_profile), run_metadata: c.run_metadata },
            )
        },
    }
}

/// Forget the last profile used: the cache to write back carries no
/// profile name, and keeps everything else.
pub fn delete_last_profile(cache: Option<Cache>) -> (r: Cache)
    ensures
        r.last_executed_profile is None,
        r.run_metadata == (match cache {
            Some(c) => c.run_metadata,
            None => None::<Vec<RunMetadata>>,
        }),
{
    match cache {
        None => Cache { last_executed_profile: None, run_metadata: None },
        Some(c) => Cache { last_executed_profile: None, run_metadata: c.run_metadata },
    }
}

} // verus!
