//! The run orchestrator's decisions.
//!
//! A run is linear: resolve the workflow, build the executor, activate the
//! profile (if any), execute, always deactivate, interpret the outcome,
//! update the run cache.  The unverified shell walks those steps and does
//! the disk and process work; every decision along the way — whether
//! timestamps are refreshed, what goes into the child's environment, which
//! files a profile switch re-touches, what the outcome means — is a
//! function here with a contract.

use crate::errors::StopError;
use crate::executor::CommandResult;
use crate::paths::strings_of;
use crate::swap::FileMover;
use crate::swap::FsModel;
use crate::swap::SwapView;
use crate::swap::apply_rename;
use crate::swap::apply_swaps;
use crate::swap::swaps_ok;
use crate::transaction::views_of;
use vstd::prelude::*;
use vstd::string::*;

verus! {

/// The extra environment the workflow child receives: the active profile's
/// name, or nothing.
pub fn profile_env_vars(profile: &Option<String>) -> (r: Vec<(String, String)>)
    ensures
        match profile {
            Some(p) => r@.len() == 1 && r@[0].0@ == "KERBLAM_PROFILE"@ && r@[0].1@ == p@,
            None => r@.len() == 0,
        },
{
    match profile {
        Some(p) => {
            let r: Vec<(String, String)> = vec![("KERBLAM_PROFILE".to_owned(), p.clone())];
            r
        },
        None => Vec::new(),
    }
}

/// Whether this activation's moves refresh the moved files' modification
/// times: only when the cache does not say the same profile ran last.
/// Skipping the refresh keeps make-style dependency tracking from
/// rebuilding when nothing about the substituted content changed.
pub fn should_update_timestamps(cached_run: Option<bool>) -> (r: bool)
    ensures
        r == !(cached_run == Some(true)),
{
    match cached_run {
        Some(true) => false,
        _ => true,
    }
}

/// The paths re-touched when a run without a profile follows a run with
/// one: exactly the sources of the old profile's moves.
pub fn touch_paths(movers: &Vec<FileMover>) -> (r: Vec<String>)
    ensures
        strings_of(r@) == views_of(movers@).map_values(|m: SwapView| m.from),
{
    let mut r: Vec<String> = Vec::new();
    let mut i: usize = 0;
    while i < movers.len()
        invariant
            i <= movers@.len(),
            r@.len() == i,
            forall|j: int| 0 <= j < i ==> strings_of(r@)[j] == views_of(movers@)[j].from,
        decreases movers@.len() - i,
    {
        let ghost before = r@;
        r.push(movers[i].get_from());
        proof {
            assert forall|j: int| 0 <= j < i + 1 implies strings_of(r@)[j] == views_of(
                movers@,
            )[j].from by {
                if j < i {
                    assert(strings_of(before)[j] == views_of(movers@)[j].from);
                    assert(r@[j] == before[j]);
                }
            }
        }
        i = i + 1;
    }
    proof {
        assert(strings_of(r@) =~= views_of(movers@).map_values(|m: SwapView| m.from));
    }
    r
}

/// Interpret what the protected runner reported: a clean exit is success,
/// an exit with any other status is an error carrying on the status, and a
/// killed child is its own distinct error — no meaningful exit code
/// exists.
pub fn interpret_outcome(outcome: Result<CommandResult, StopError>) -> (r: Result<(), StopError>)
    ensures
        match outcome {
            Ok(CommandResult::Exited { res }) => r is Ok <==> res.spec_success(),
            Ok(CommandResult::Killed) => r is Err,
            Err(_) => r is Err,
        },
{
    match outcome {
        Ok(CommandResult::Exited { res }) => {
            if res.success() {
                Ok(())
            } else {
                Err(StopError::new("Process exited with error".to_owned()))
            }
        },
        Ok(CommandResult::Killed) => Err(StopError::new("Process killed.".to_owned())),
        Err(e) => Err(e),
    }
}

/// Some file of `fs` is exactly this file: same bytes, same times.
pub open spec fn file_preserved(fs: FsModel, v: crate::swap::FileModel) -> bool {
    exists|q: Seq<char>| fs.dom().contains(q) && fs[q] == v
}

/// Without timestamp refreshing, carrying swaps out relocates files but
/// never alters one: every file in the resulting tree is byte- and
/// time-identical to some file of the original tree.  In particular, a
/// second run of the profile that ran last — whose moves skip the
/// refresh — changes no substituted file's modification time.
pub proof fn lemma_untouched_swaps_preserve_files(fs: FsModel, ms: Seq<SwapView>, now: int)
    requires
        swaps_ok(fs, ms, false, now),
    ensures
        forall|p: Seq<char>|
            #[trigger] apply_swaps(fs, ms, false, now).dom().contains(p) ==> file_preserved(
                fs,
                apply_swaps(fs, ms, false, now)[p],
            ),
    decreases ms.len(),
{
    let after = apply_swaps(fs, ms, false, now);
    if ms.len() == 0 {
        assert forall|p: Seq<char>| #[trigger]
            after.dom().contains(p) implies file_preserved(fs, after[p]) by {
            assert(fs.dom().contains(p) && fs[p] == after[p]);
        }
    } else {
        let fs1 = apply_rename(fs, ms[0].from, ms[0].to, false, now);
        lemma_untouched_swaps_preserve_files(fs1, ms.drop_first(), now);
        assert(after == apply_swaps(fs1, ms.drop_first(), false, now));
        assert(crate::swap::rename_ok(fs, ms[0].from, ms[0].to));
        assert forall|p: Seq<char>| #[trigger]
            after.dom().contains(p) implies file_preserved(fs, after[p]) by {
            assert(apply_swaps(fs1, ms.drop_first(), false, now).dom().contains(p));
            assert(file_preserved(fs1, after[p]));
            let q1 = choose|q1: Seq<char>| fs1.dom().contains(q1) && fs1[q1] == after[p];
            if q1 == ms[0].to {
                assert(fs.dom().contains(ms[0].from) && fs[ms[0].from] == after[p]);
            } else {
                assert(fs.dom().contains(q1) && fs[q1] == after[p]);
            }
        }
    }
}

} // verus!
