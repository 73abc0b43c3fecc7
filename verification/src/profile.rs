//! Data profiles and their resolution into file moves.
//!
//! A profile substitutes input files with alternates (or hides them).
//! Resolving one yields, per entry, a *stash* move of the original into the
//! per-project scratch directory under a fresh randomized name, then an
//! *install* move of the substitute into the original's place — the stash
//! always listed before the install.  Pre-flight checks collect every
//! missing file before anything moves.

use crate::paths::strings_of;
use crate::options::KerblamTomlOptions;
use crate::options::ProfileSpec;
use crate::paths::base_start;
use crate::paths::dir_part;
use crate::paths::file_name;
use crate::paths::join_path;
use crate::paths::spec_file_name;
use crate::paths::spec_join;
use crate::paths::spec_strip_or_self;
use crate::paths::str_eq;
use crate::paths::strip_or_self;
use crate::swap::FileMover;
use crate::swap::SwapView;
use crate::transaction::views_of;
use vstd::prelude::*;
use vstd::string::*;

verus! {

/// An ASCII alphanumeric character.
pub open spec fn spec_is_alnum(c: char) -> bool {
    (48 <= c as u32 && c as u32 <= 57) || (65 <= c as u32 && c as u32 <= 90) || (97 <= c as u32
        && c as u32 <= 122)
}

/// A salt as [`get_salt`] hands them out: alphanumeric, of the asked-for
/// length.
pub open spec fn is_salt_of(s: Seq<char>, len: int) -> bool {
    s.len() == len && forall|i: int| 0 <= i < s.len() ==> spec_is_alnum(#[trigger] s[i])
}

/// Get a random alphanumeric string some characters long.
///
/// Relies on rand's `Alphanumeric` distribution: `sample_string` appends
/// exactly `length` ASCII alphanumeric characters to an empty string.  The
/// characters drawn differ from call to call.
#[verifier::external_body]
pub fn get_salt(length: usize) -> (r: String)
    ensures
        is_salt_of(r@, length as int),
{
    rand::distr::SampleString::sample_string(&rand::distr::Alphanumeric, &mut rand::rng(), length)
}

/// The character sequences of a list of path pairs.
pub open spec fn pairs_of(s: Seq<(String, String)>) -> Seq<(Seq<char>, Seq<char>)> {
    s.map_values(|p: (String, String)| (p.0@, p.1@))
}

/// The character sequences of a list of profile targets.
pub open spec fn targets_of(s: Seq<(String, Option<String>)>) -> Seq<
    (Seq<char>, Option<Seq<char>>),
> {
    s.map_values(
        |p: (String, Option<String>)| (
            p.0@,
            match p.1 {
                Some(x) => Some(x@),
                None => None::<Seq<char>>,
            },
        ),
    )
}

/// A substitute of `_` means "hide the original with no replacement".
pub open spec fn spec_wildcard(pairs: Seq<(Seq<char>, Seq<char>)>) -> Seq<
    (Seq<char>, Option<Seq<char>>),
> {
    pairs.map_values(
        |p: (Seq<char>, Seq<char>)| (
            p.0,
            if p.1 == "_"@ {
                None
            } else {
                Some(p.1)
            },
        ),
    )
}

/// The two moves (or one, for a hidden file) of a profile entry: stash the
/// original under the scratch directory with the salt appended, then move
/// the substitute into its place.
pub open spec fn spec_entry_movers(
    t: (Seq<char>, Option<Seq<char>>),
    root: Seq<char>,
    temp: Seq<char>,
    salt: Seq<char>,
) -> Seq<SwapView> {
    let stash = SwapView {
        from: spec_join(root, t.0),
        to: spec_join(temp, spec_strip_or_self(root, t.0)) + "."@ + salt,
    };
    match t.1 {
        Some(sub) => seq![stash, SwapView { from: spec_join(root, sub), to: spec_join(root, t.0) }],
        None => seq![stash],
    }
}

/// The moves of a whole profile, one salt per entry, stashes before
/// installs entry by entry.
pub open spec fn spec_movers_for(
    ts: Seq<(Seq<char>, Option<Seq<char>>)>,
    root: Seq<char>,
    temp: Seq<char>,
    salts: Seq<Seq<char>>,
) -> Seq<SwapView>
    decreases ts.len(),
{
    if ts.len() == 0 {
        Seq::empty()
    } else {
        spec_entry_movers(ts[0], root, temp, salts[0]) + spec_movers_for(
            ts.drop_first(),
            root,
            temp,
            salts.drop_first(),
        )
    }
}

/// Resolving one more entry appends its moves.
proof fn lemma_movers_push(
    ts: Seq<(Seq<char>, Option<Seq<char>>)>,
    root: Seq<char>,
    temp: Seq<char>,
    ss: Seq<Seq<char>>,
    t: (Seq<char>, Option<Seq<char>>),
    s: Seq<char>,
)
    requires
        ts.len() == ss.len(),
    ensures
        spec_movers_for(ts.push(t), root, temp, ss.push(s)) == spec_movers_for(ts, root, temp, ss)
            + spec_entry_movers(t, root, temp, s),
    decreases ts.len(),
{
    if ts.len() == 0 {
        assert(ts.push(t)[0] == t);
        assert(ss.push(s)[0] == s);
        assert(ts.push(t).drop_first() =~= Seq::<(Seq<char>, Option<Seq<char>>)>::empty());
        assert(ss.push(s).drop_first() =~= Seq::<Seq<char>>::empty());
        assert(spec_movers_for(ts, root, temp, ss) == Seq::<SwapView>::empty());
        assert(spec_movers_for(ts.push(t), root, temp, ss.push(s)) == spec_entry_movers(
            t,
            root,
            temp,
            s,
        ) + spec_movers_for(ts.push(t).drop_first(), root, temp, ss.push(s).drop_first()));
        assert(spec_movers_for(ts.push(t).drop_first(), root, temp, ss.push(s).drop_first())
            == Seq::<SwapView>::empty());
        assert(spec_movers_for(ts.push(t), root, temp, ss.push(s)) =~= spec_movers_for(
            ts,
            root,
            temp,
            ss,
        ) + spec_entry_movers(t, root, temp, s));
    } else {
        assert(ts.push(t).drop_first() =~= ts.drop_first().push(t));
        assert(ss.push(s).drop_first() =~= ss.drop_first().push(s));
        assert(ts.push(t)[0] == ts[0]);
        assert(ss.push(s)[0] == ss[0]);
        lemma_movers_push(ts.drop_first(), root, temp, ss.drop_first(), t, s);
        assert(spec_movers_for(ts.push(t), root, temp, ss.push(s)) =~= spec_movers_for(
            ts,
            root,
            temp,
            ss,
        ) + spec_entry_movers(t, root, temp, s));
    }
}

/// Whether some string in the list holds exactly these characters.
pub fn list_contains_str(v: &Vec<String>, x: &str) -> (r: bool)
    ensures
        r == strings_of(v@).contains(x@),
{
    let mut i: usize = 0;
    while i < v.len()
        invariant
            i <= v@.len(),
            forall|j: int| 0 <= j < i ==> strings_of(v@)[j] != x@,
        decreases v@.len() - i,
    {
        if str_eq(v[i].as_str(), x) {
            proof {
                assert(strings_of(v@)[i as int] == x@);
            }
            return true;
        }
        i = i + 1;
    }
    false
}

/// A path whose file name carries the `test_` prefix.
pub open spec fn has_test_prefix(p: Seq<char>) -> bool {
    spec_file_name(p).len() >= 5 && spec_file_name(p).take(5) == "test_"@
}

/// The file such a path stands in for: same directory, name without the
/// prefix.
pub open spec fn spec_test_target(p: Seq<char>) -> Seq<char> {
    p.take(base_start(p)) + spec_file_name(p).skip(5)
}

/// The inferred `test` profile pairs of the paths from `rest` on: every
/// `test_<X>` file whose `<X>` is present anywhere in `all` pairs that
/// original with itself as substitute.
pub open spec fn spec_infer_from(all: Seq<Seq<char>>, rest: Seq<Seq<char>>) -> Seq<
    (Seq<char>, Seq<char>),
>
    decreases rest.len(),
{
    if rest.len() == 0 {
        Seq::empty()
    } else {
        let p = rest[0];
        let tail = spec_infer_from(all, rest.drop_first());
        if has_test_prefix(p) && all.contains(spec_test_target(p)) {
            seq![(spec_test_target(p), p)] + tail
        } else {
            tail
        }
    }
}

/// The inferred `test` profile of a list of input files.
pub open spec fn spec_infer(paths: Seq<Seq<char>>) -> Seq<(Seq<char>, Seq<char>)> {
    spec_infer_from(paths, paths)
}

/// Infer the `test` profile from the input files: any file named
/// `test_<X>` paired with an existing file `<X>` implicitly forms an
/// entry, the original first.
pub fn infer_test_data(paths: Vec<String>) -> (r: Vec<(String, String)>)
    ensures
        pairs_of(r@) == spec_infer(strings_of(paths@)),
{
    let ghost all = strings_of(paths@);
    let mut r: Vec<(String, String)> = Vec::new();
    let mut i: usize = 0;
    proof {
        assert(all.skip(0) =~= all);
        assert(pairs_of(r@) =~= Seq::<(Seq<char>, Seq<char>)>::empty());
        assert(pairs_of(r@) + spec_infer_from(all, all) =~= spec_infer_from(all, all));
    }
    while i < paths.len()
        invariant
            i <= paths@.len(),
            all == strings_of(paths@),
            pairs_of(r@) + spec_infer_from(all, all.skip(i as int)) == spec_infer_from(all, all),
        decreases paths@.len() - i,
    {
        proof {
            assert(all.skip(i as int)[0] == all[i as int]);
            assert(all.skip(i as int).drop_first() =~= all.skip(i + 1));
        }
        let p = &paths[i];
        let name = file_name(p.as_str());
        let n = name.as_str().unicode_len();
        let mut is_pair = false;
        let mut target = String::new();
        if n >= 5 {
            let head = name.as_str().substring_char(0, 5).to_owned();
            if str_eq(head.as_str(), "test_") {
                proof {
                    assert(name@.take(5) =~= name@.subrange(0, 5));
                }
                let slug = name.as_str().substring_char(5, n).to_owned();
                let t = dir_part(p.as_str()).concat(slug.as_str());
                proof {
                    assert(t@ =~= spec_test_target(p@));
                }
                if list_contains_str(&paths, t.as_str()) {
                    is_pair = true;
                    target = t;
                }
            }
        }
        let ghost before = r@;
        if is_pair {
            r.push((target, p.clone()));
            proof {
                assert(pairs_of(r@) =~= pairs_of(before).push(
                    (spec_test_target(all[i as int]), all[i as int]),
                ));
                assert(pairs_of(r@) =~= pairs_of(before) + seq![
                    (spec_test_target(all[i as int]), all[i as int]),
                ]);
            }
        } else {
            proof {
                if has_test_prefix(all[i as int]) && all.contains(spec_test_target(all[i as int])) {
                    assert(false);
                }
            }
        }
        i = i + 1;
    }
    proof {
        assert(all.skip(all.len() as int) =~= Seq::<Seq<char>>::empty());
        assert(pairs_of(r@) + Seq::<(Seq<char>, Seq<char>)>::empty() =~= pairs_of(r@));
    }
    r
}

/// A data profile, with the files to be moved back and forth.
pub struct Profile {
    /// The origin-to-target list of paths: the origin is the real file to
    /// be substituted, the target the file that substitutes it, `None` to
    /// hide the origin with no replacement.
    pub targets: Vec<(String, Option<String>)>,
    /// The directory the data lives in.
    pub root_dir: String,
    /// The scratch directory displaced originals are stashed in.
    pub temp_dir: String,
}

impl Profile {
    /// Build a profile from origin-substitute pairs; a substitute of `_`
    /// hides the origin.
    pub fn from(data: Vec<(String, String)>, root_dir: String, temp_dir: String) -> (r: Self)
        ensures
            targets_of(r.targets@) == spec_wildcard(pairs_of(data@)),
            r.root_dir@ == root_dir@,
            r.temp_dir@ == temp_dir@,
    {
        let mut targets: Vec<(String, Option<String>)> = Vec::new();
        let mut i: usize = 0;
        while i < data.len()
            invariant
                i <= data@.len(),
                targets@.len() == i,
                forall|j: int|
                    0 <= j < i ==> targets_of(targets@)[j] == spec_wildcard(pairs_of(data@))[j],
            decreases data@.len() - i,
        {
            let ghost before = targets@;
            let origin = data[i].0.clone();
            let sub = data[i].1.clone();
            let target = if str_eq(sub.as_str(), "_") {
                None
            } else {
                Some(sub)
            };
            targets.push((origin, target));
            proof {
                let e = targets@[i as int];
                assert(targets_of(targets@)[i as int] == (
                    e.0@,
                    match e.1 {
                        Some(x) => Some(x@),
                        None => None::<Seq<char>>,
                    },
                ));
                assert(pairs_of(data@)[i as int] == (data@[i as int].0@, data@[i as int].1@));
                assert(spec_wildcard(pairs_of(data@))[i as int] == (
                    data@[i as int].0@,
                    if data@[i as int].1@ == "_"@ {
                        None::<Seq<char>>
                    } else {
                        Some(data@[i as int].1@)
                    },
                ));
                assert(e.0@ == data@[i as int].0@);
                assert(targets_of(targets@)[i as int] == spec_wildcard(pairs_of(data@))[i as int]);
                assert forall|j: int| 0 <= j < i + 1 implies targets_of(targets@)[j]
                    == spec_wildcard(pairs_of(data@))[j] by {
                    if j < i {
                        assert(targets_of(before)[j] == spec_wildcard(pairs_of(data@))[j]);
                        assert(targets@[j] == before[j]);
                    }
                }
            }
            i = i + 1;
        }
        proof {
            assert(targets_of(targets@) =~= spec_wildcard(pairs_of(data@)));
        }
        Profile { targets, root_dir, temp_dir }
    }

    /// Add one origin-target pair to the profile.
    pub fn add_paths(&mut self, origin: String, target: Option<String>)
        ensures
            final(self).targets@ == old(self).targets@.push((origin, target)),
            final(self).root_dir@ == old(self).root_dir@,
            final(self).temp_dir@ == old(self).temp_dir@,
    {
        self.targets.push((origin, target));
    }

    /// Resolve the profile into its file moves: per entry a stash of the
    /// origin into the scratch directory under a fresh salted name, then,
    /// unless the origin is hidden, the install of the substitute.
    pub fn to_filemovers(self) -> (r: Vec<FileMover>)
        ensures
            exists|salts: Seq<Seq<char>>|
                {
                    &&& salts.len() == self.targets@.len()
                    &&& (forall|i: int| 0 <= i < salts.len() ==> is_salt_of(#[trigger] salts[i], 5))
                    &&& views_of(r@) == spec_movers_for(
                        targets_of(self.targets@),
                        self.root_dir@,
                        self.temp_dir@,
                        salts,
                    )
                },
    {
        let ghost ts = targets_of(self.targets@);
        let mut movers: Vec<FileMover> = Vec::new();
        let ghost mut salts: Seq<Seq<char>> = Seq::empty();
        let mut i: usize = 0;
        proof {
            assert(ts.take(0) =~= Seq::<(Seq<char>, Option<Seq<char>>)>::empty());
            assert(views_of(movers@) =~= spec_movers_for(
                ts.take(0),
                self.root_dir@,
                self.temp_dir@,
                salts,
            ));
        }
        while i < self.targets.len()
            invariant
                i <= self.targets@.len(),
                ts == targets_of(self.targets@),
                salts.len() == i,
                forall|j: int| 0 <= j < salts.len() ==> is_salt_of(#[trigger] salts[j], 5),
                views_of(movers@) == spec_movers_for(
                    ts.take(i as int),
                    self.root_dir@,
                    self.temp_dir@,
                    salts,
                ),
            decreases self.targets@.len() - i,
        {
            let ghost entry = ts[i as int];
            let ghost old_salts = salts;
            let ghost before = movers@;
            let origin = self.targets[i].0.clone();
            let src = join_path(self.root_dir.as_str(), origin.as_str());
            let rel = strip_or_self(origin.as_str(), self.root_dir.as_str());
            let salt = get_salt(5);
            let dot = ".".to_owned().concat(salt.as_str());
            let stash_to = join_path(self.temp_dir.as_str(), rel.as_str()).concat(dot.as_str());
            movers.push(FileMover::new(src, stash_to));
            match &self.targets[i].1 {
                Some(sub) => {
                    let install_from = join_path(self.root_dir.as_str(), sub.as_str());
                    let install_to = join_path(self.root_dir.as_str(), origin.as_str());
                    movers.push(FileMover::new(install_from, install_to));
                },
                None => {},
            }
            proof {
                salts = salts.push(salt@);
                let em = spec_entry_movers(entry, self.root_dir@, self.temp_dir@, salt@);
                assert(views_of(movers@)[before.len() as int].from == em[0].from);
                assert(views_of(movers@)[before.len() as int].to =~= em[0].to);
                assert(views_of(movers@)[before.len() as int] == em[0]);
                assert(views_of(movers@) =~= views_of(before) + em);
                assert(ts.take(i + 1) =~= ts.take(i as int).push(entry));
                lemma_movers_push(
                    ts.take(i as int),
                    self.root_dir@,
                    self.temp_dir@,
                    old_salts,
                    entry,
                    salt@,
                );
            }
            i = i + 1;
        }
        proof {
            assert(ts.take(self.targets@.len() as int) =~= ts);
        }
        movers
    }
}

/// Why a profile could not be resolved.
#[derive(Debug)]
pub enum ProfileError {
    /// The scratch directory already holds files: evidence of an unclean
    /// previous run, never silently reused.
    ScratchOccupied,
    /// No profile with the requested name is declared or inferred.
    MissingProfile,
    /// Pre-flight: these files, needed by the profile, do not exist.  The
    /// list is complete, not cut at the first.
    MissingFiles(Vec<String>),
}

/// The entries of the first declared profile with this name.
pub open spec fn spec_find_profile(ps: Seq<ProfileSpec>, name: Seq<char>) -> Option<
    Seq<(Seq<char>, Seq<char>)>,
>
    decreases ps.len(),
{
    if ps.len() == 0 {
        None
    } else if ps[0].name@ == name {
        Some(pairs_of(ps[0].entries@))
    } else {
        spec_find_profile(ps.drop_first(), name)
    }
}

/// The entries the requested profile resolves to: a declared profile with
/// the name wins; the name `test` falls back to the inferred pairs when
/// they are not empty; anything else is unknown.
pub open spec fn spec_profile_entries(
    config: KerblamTomlOptions,
    name: Seq<char>,
    input_files: Seq<Seq<char>>,
) -> Option<Seq<(Seq<char>, Seq<char>)>> {
    let declared = match config.data {
        Some(d) => match d.profiles {
            Some(ps) => spec_find_profile(ps@, name),
            None => None,
        },
        None => None,
    };
    match declared {
        Some(e) => Some(e),
        None => if name == "test"@ && spec_infer(input_files).len() > 0 {
            Some(spec_infer(input_files))
        } else {
            None
        },
    }
}

/// The sources a resolved profile moves, in order, that are not in
/// `existing`, each shown relative to the data directory when it lies
/// under it.
pub open spec fn spec_missing_of(
    ts: Seq<(Seq<char>, Option<Seq<char>>)>,
    root: Seq<char>,
    existing: Seq<Seq<char>>,
) -> Seq<Seq<char>>
    decreases ts.len(),
{
    if ts.len() == 0 {
        Seq::empty()
    } else {
        let o = spec_join(root, ts[0].0);
        let m1: Seq<Seq<char>> = if existing.contains(o) {
            Seq::empty()
        } else {
            seq![spec_strip_or_self(root, o)]
        };
        let m2: Seq<Seq<char>> = match ts[0].1 {
            Some(sub) => {
                let t = spec_join(root, sub);
                if existing.contains(t) {
                    Seq::empty()
                } else {
                    seq![spec_strip_or_self(root, t)]
                }
            },
            None => Seq::empty(),
        };
        m1 + m2 + spec_missing_of(ts.drop_first(), root, existing)
    }
}

/// A list of path pairs with the same strings.
fn clone_pairs(v: &Vec<(String, String)>) -> (r: Vec<(String, String)>)
    ensures
        pairs_of(r@) == pairs_of(v@),
{
    let mut r: Vec<(String, String)> = Vec::new();
    let mut i: usize = 0;
    while i < v.len()
        invariant
            i <= v@.len(),
            r@.len() == i,
            forall|j: int| 0 <= j < i ==> pairs_of(r@)[j] == pairs_of(v@)[j],
        decreases v@.len() - i,
    {
        let ghost before = r@;
        r.push((v[i].0.clone(), v[i].1.clone()));
        proof {
            assert(pairs_of(r@)[i as int] == pairs_of(v@)[i as int]);
            assert forall|j: int| 0 <= j < i + 1 implies pairs_of(r@)[j] == pairs_of(v@)[j] by {
                if j < i {
                    assert(pairs_of(before)[j] == pairs_of(v@)[j]);
                    assert(r@[j] == before[j]);
                }
            }
        }
        i = i + 1;
    }
    proof {
        assert(pairs_of(r@) =~= pairs_of(v@));
    }
    r
}

/// The entries of the first declared profile carrying the name, if any.
fn find_profile_entries(ps: &Vec<ProfileSpec>, name: &str) -> (r: Option<Vec<(String, String)>>)
    ensures
        match r {
            Some(e) => spec_find_profile(ps@, name@) == Some(pairs_of(e@)),
            None => spec_find_profile(ps@, name@) is None,
        },
{
    let ghost psm = ps@;
    let mut i: usize = 0;
    proof {
        assert(psm.skip(0) =~= psm);
    }
    while i < ps.len()
        invariant
            i <= psm.len(),
            psm == ps@,
            spec_find_profile(psm, name@) == spec_find_profile(psm.skip(i as int), name@),
        decreases psm.len() - i,
    {
        proof {
            assert(psm.skip(i as int)[0] == psm[i as int]);
            assert(psm.skip(i as int).drop_first() =~= psm.skip(i + 1));
        }
        if str_eq(ps[i].name.as_str(), name) {
            return Some(clone_pairs(&ps[i].entries));
        }
        i = i + 1;
    }
    proof {
        assert(psm.skip(psm.len() as int) =~= Seq::<ProfileSpec>::empty());
    }
    None
}

/// Resolve a named profile into its ordered file moves.
///
/// The scratch directory must be empty; the profile must be declared, or
/// be the inferrable `test` profile; and, when `check_existence` is set,
/// every original and substitute must be in `existing` (the paths present
/// on disk), every violation collected before anything is reported.  On
/// success the moves stand stash-before-install per entry, their exact
/// shape given by [`spec_movers_for`] for the salts drawn.
pub fn extract_profile_paths(
    config: &KerblamTomlOptions,
    profile_name: &str,
    input_files: Vec<String>,
    root: &str,
    scratch_empty: bool,
    existing: &Vec<String>,
    check_existence: bool,
) -> (r: Result<Vec<FileMover>, ProfileError>)
    ensures
        ({
            let entries = spec_profile_entries(*config, profile_name@, strings_of(input_files@));
            let root_dir = spec_join(root@, config.spec_input_rel());
            let temp_dir = spec_join(root@, ".kerblam/scratch"@);
            match r {
                Ok(movers) => {
                    &&& scratch_empty
                    &&& entries is Some
                    &&& (check_existence ==> spec_missing_of(
                        spec_wildcard(entries->Some_0),
                        root_dir,
                        strings_of(existing@),
                    ) == Seq::<Seq<char>>::empty())
                    &&& exists|salts: Seq<Seq<char>>|
                        {
                            &&& salts.len() == spec_wildcard(entries->Some_0).len()
                            &&& (forall|i: int|
                                0 <= i < salts.len() ==> is_salt_of(#[trigger] salts[i], 5))
                            &&& views_of(movers@) == spec_movers_for(
                                spec_wildcard(entries->Some_0),
                                root_dir,
                                temp_dir,
                                salts,
                            )
                        }
                },
                Err(e) => match e {
                    ProfileError::ScratchOccupied => !scratch_empty,
                    ProfileError::MissingProfile => scratch_empty && entries is None,
                    ProfileError::MissingFiles(list) => {
                        &&& scratch_empty
                        &&& entries is Some
                        &&& check_existence
                        &&& strings_of(list@) == spec_missing_of(
                            spec_wildcard(entries->Some_0),
                            root_dir,
                            strings_of(existing@),
                        )
                        &&& list@.len() > 0
                    },
                },
            }
        }),
{
    if !scratch_empty {
        return Err(ProfileError::ScratchOccupied);
    }
    let root_dir = config.input_data_dir(root);
    let temp_dir = join_path(root, ".kerblam/scratch");
    // Look the profile up: declared first, the inferred `test` profile as
    // the fallback.
    let declared: Option<Vec<(String, String)>> = match &config.data {
        Some(d) => match &d.profiles {
            Some(ps) => find_profile_entries(ps, profile_name),
            None => None,
        },
        None => None,
    };
    let ghost entries_spec = spec_profile_entries(
        *config,
        profile_name@,
        strings_of(input_files@),
    );
    let entries: Vec<(String, String)> = match declared {
        Some(e) => e,
        None => {
            if str_eq(profile_name, "test") {
                let inferred = infer_test_data(input_files);
                if inferred.len() > 0 {
                    inferred
                } else {
                    return Err(ProfileError::MissingProfile);
                }
            } else {
                return Err(ProfileError::MissingProfile);
            }
        },
    };
    proof {
        assert(entries_spec == Some(pairs_of(entries@)));
    }
    let profile = Profile::from(entries, root_dir.clone(), temp_dir);
    // Pre-flight: collect every missing original and substitute.
    if check_existence {
        let ghost ts = targets_of(profile.targets@);
        let mut missing: Vec<String> = Vec::new();
        let mut i: usize = 0;
        proof {
            assert(ts.skip(0) =~= ts);
            assert(strings_of(missing@) =~= Seq::<Seq<char>>::empty());
            assert(strings_of(missing@) + spec_missing_of(ts, root_dir@, strings_of(existing@))
                =~= spec_missing_of(ts, root_dir@, strings_of(existing@)));
        }
        while i < profile.targets.len()
            invariant
                i <= profile.targets@.len(),
                ts == targets_of(profile.targets@),
                root_dir@ == spec_join(root@, config.spec_input_rel()),
                strings_of(missing@) + spec_missing_of(
                    ts.skip(i as int),
                    root_dir@,
                    strings_of(existing@),
                ) == spec_missing_of(ts, root_dir@, strings_of(existing@)),
            decreases profile.targets@.len() - i,
        {
            proof {
                assert(ts.skip(i as int)[0] == ts[i as int]);
                assert(ts.skip(i as int).drop_first() =~= ts.skip(i + 1));
            }
            let ghost before = strings_of(missing@);
            let ghost exm = strings_of(existing@);
            let ghost entry = ts[i as int];
            let ghost m1: Seq<Seq<char>> = if exm.contains(spec_join(root_dir@, entry.0)) {
                Seq::empty()
            } else {
                seq![spec_strip_or_self(root_dir@, spec_join(root_dir@, entry.0))]
            };
            let ghost m2: Seq<Seq<char>> = match entry.1 {
                Some(sub) => if exm.contains(spec_join(root_dir@, sub)) {
                    Seq::<Seq<char>>::empty()
                } else {
                    seq![spec_strip_or_self(root_dir@, spec_join(root_dir@, sub))]
                },
                None => Seq::<Seq<char>>::empty(),
            };
            let o = join_path(root_dir.as_str(), profile.targets[i].0.as_str());
            if !list_contains_str(existing, o.as_str()) {
                missing.push(strip_or_self(o.as_str(), root_dir.as_str()));
            }
            proof {
                assert(strings_of(missing@) =~= before + m1);
            }
            let ghost mid = strings_of(missing@);
            match &profile.targets[i].1 {
                Some(sub) => {
                    let t = join_path(root_dir.as_str(), sub.as_str());
                    if !list_contains_str(existing, t.as_str()) {
                        missing.push(strip_or_self(t.as_str(), root_dir.as_str()));
                    }
                },
                None => {},
            }
            proof {
                assert(strings_of(missing@) =~= mid + m2);
                assert(spec_missing_of(ts.skip(i as int), root_dir@, exm) == m1 + m2
                    + spec_missing_of(ts.skip(i + 1), root_dir@, exm));
                assert(strings_of(missing@) + spec_missing_of(ts.skip(i + 1), root_dir@, exm)
                    =~= spec_missing_of(ts, root_dir@, exm));
            }
            i = i + 1;
        }
        if missing.len() > 0 {
            return Err(ProfileError::MissingFiles(missing));
        }
        proof {
            assert(ts.skip(profile.targets@.len() as int) =~= Seq::<
                (Seq<char>, Option<Seq<char>>),
            >::empty());
            assert(strings_of(missing@) =~= Seq::<Seq<char>>::empty());
            assert(spec_missing_of(ts, root_dir@, strings_of(existing@))
                =~= Seq::<Seq<char>>::empty());
        }
    }
    let ghost pt = profile.targets@;
    let ghost prd = profile.root_dir@;
    let ghost ptd = profile.temp_dir@;
    let movers = profile.to_filemovers();
    proof {
        let salts = choose|salts: Seq<Seq<char>>|
            {
                &&& salts.len() == pt.len()
                &&& (forall|i: int| 0 <= i < salts.len() ==> is_salt_of(#[trigger] salts[i], 5))
                &&& views_of(movers@) == spec_movers_for(targets_of(pt), prd, ptd, salts)
            };
        assert(targets_of(pt).len() == pt.len());
        assert(spec_wildcard(entries_spec->Some_0).len() == pt.len());
        assert({
            &&& salts.len() == spec_wildcard(entries_spec->Some_0).len()
            &&& (forall|i: int| 0 <= i < salts.len() ==> is_salt_of(#[trigger] salts[i], 5))
            &&& views_of(movers@) == spec_movers_for(
                spec_wildcard(entries_spec->Some_0),
                spec_join(root@, config.spec_input_rel()),
                spec_join(root@, ".kerblam/scratch"@),
                salts,
            )
        });
    }
    Ok(movers)
}

} // verus!
