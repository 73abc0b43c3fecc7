//! Helpers around directory listings and user choices.
//!
//! The shell walks the disk and hands the entries over; picking the files
//! or directories of interest, with the data-directory filters applied, is
//! verified here.

use crate::errors::StopError;
use crate::paths::strings_of;
use crate::paths::is_path_prefix;
use crate::paths::starts_with_path;
use vstd::prelude::*;
use vstd::string::*;

verus! {

/// One entry of a directory walk, as the shell reports it.
pub struct WalkEntry {
    pub path: String,
    pub is_file: bool,
    pub is_dir: bool,
}

/// A [`WalkEntry`] as contracts see it.
pub ghost struct WalkEntryView {
    pub path: Seq<char>,
    pub is_file: bool,
    pub is_dir: bool,
}

impl View for WalkEntry {
    type V = WalkEntryView;

    open spec fn view(&self) -> WalkEntryView {
        WalkEntryView { path: self.path@, is_file: self.is_file, is_dir: self.is_dir }
    }
}

/// The views of a list of walk entries.
pub open spec fn entries_of(s: Seq<WalkEntry>) -> Seq<WalkEntryView> {
    s.map_values(|e: WalkEntry| e@)
}

/// A path some filter directory leads: it is dropped from results, so a
/// listing of one data directory does not swallow the others nested in it.
pub open spec fn spec_excluded(p: Seq<char>, filters: Option<Seq<Seq<char>>>) -> bool {
    filters is Some && exists|i: int|
        0 <= i < filters->Some_0.len() && is_path_prefix(#[trigger] filters->Some_0[i], p)
}

/// The paths kept from a walk: files (or directories, by `want_file`) not
/// under any filter, in walk order.
pub open spec fn spec_found(
    es: Seq<WalkEntryView>,
    filters: Option<Seq<Seq<char>>>,
    want_file: bool,
) -> Seq<Seq<char>>
    decreases es.len(),
{
    if es.len() == 0 {
        Seq::empty()
    } else {
        let keep = (if want_file {
            es[0].is_file
        } else {
            es[0].is_dir
        }) && !spec_excluded(es[0].path, filters);
        (if keep {
            seq![es[0].path]
        } else {
            Seq::<Seq<char>>::empty()
        }) + spec_found(es.drop_first(), filters, want_file)
    }
}

/// The filters as contracts see them.
pub open spec fn filters_of(filters: Option<Vec<String>>) -> Option<Seq<Seq<char>>> {
    match filters {
        Some(v) => Some(strings_of(v@)),
        None => None,
    }
}

/// A filter that leads the path witnesses its exclusion.
proof fn lemma_excluded_witness(p: Seq<char>, fs: Seq<Seq<char>>, i: int)
    requires
        0 <= i < fs.len(),
        is_path_prefix(fs[i], p),
    ensures
        spec_excluded(p, Some(fs)),
{
    assert(Some(fs)->Some_0 == fs);
    assert(exists|j: int|
        0 <= j < Some(fs)->Some_0.len() && is_path_prefix(#[trigger] Some(fs)->Some_0[j], p)) by {
        assert(Some(fs)->Some_0[i] == fs[i]);
    }
}

/// Whether some filter leads this path.
fn is_excluded(path: &str, filters: &Option<Vec<String>>) -> (r: bool)
    ensures
        r == spec_excluded(path@, filters_of(*filters)),
{
    match filters {
        None => false,
        Some(fs) => {
            let mut i: usize = 0;
            while i < fs.len()
                invariant
                    i <= fs@.len(),
                    filters_of(*filters) == Some(strings_of(fs@)),
                    forall|j: int| 0 <= j < i ==> !is_path_prefix(strings_of(fs@)[j], path@),
                decreases fs@.len() - i,
            {
                if starts_with_path(path, fs[i].as_str()) {
                    proof {
                        assert(strings_of(fs@).len() == fs@.len());
                        assert(is_path_prefix(strings_of(fs@)[i as int], path@));
                        lemma_excluded_witness(path@, strings_of(fs@), i as int);
                    }
                    return true;
                }
                i = i + 1;
            }
            false
        },
    }
}

/// The kept paths of a walk: entries of the wanted kind whose path no
/// filter leads.
fn find_path_items_with_filter(
    entries: &Vec<WalkEntry>,
    filters: Option<Vec<String>>,
    want_file: bool,
) -> (r: Vec<String>)
    ensures
        strings_of(r@) == spec_found(entries_of(entries@), filters_of(filters), want_file),
{
    let ghost es = entries_of(entries@);
    let ghost fm = filters_of(filters);
    let mut r: Vec<String> = Vec::new();
    let mut i: usize = 0;
    proof {
        assert(es.skip(0) =~= es);
        assert(strings_of(r@) + spec_found(es, fm, want_file) =~= spec_found(es, fm, want_file));
    }
    while i < entries.len()
        invariant
            i <= entries@.len(),
            es == entries_of(entries@),
            fm == filters_of(filters),
            strings_of(r@) + spec_found(es.skip(i as int), fm, want_file) == spec_found(
                es,
                fm,
                want_file,
            ),
        decreases entries@.len() - i,
    {
        proof {
            assert(es.skip(i as int)[0] == es[i as int]);
            assert(es.skip(i as int).drop_first() =~= es.skip(i + 1));
        }
        let e = &entries[i];
        let kind_ok = if want_file {
            e.is_file
        } else {
            e.is_dir
        };
        let ghost before = strings_of(r@);
        if kind_ok && !is_excluded(e.path.as_str(), &filters) {
            r.push(e.path.clone());
            proof {
                assert(strings_of(r@) =~= before + seq![es[i as int].path]);
            }
        }
        proof {
            assert(strings_of(r@) + spec_found(es.skip(i + 1), fm, want_file) =~= spec_found(
                es,
                fm,
                want_file,
            ));
        }
        i = i + 1;
    }
    proof {
        assert(es.skip(entries@.len() as int) =~= Seq::<WalkEntryView>::empty());
        assert(strings_of(r@) + Seq::<Seq<char>>::empty() =~= strings_of(r@));
    }
    r
}

/// The files of a walk, the filter directories' contents dropped.
pub fn find_files(entries: &Vec<WalkEntry>, filters: Option<Vec<String>>) -> (r: Vec<String>)
    ensures
        strings_of(r@) == spec_found(entries_of(entries@), filters_of(filters), true),
{
    find_path_items_with_filter(entries, filters, true)
}

/// The directories of a walk, the filter directories' contents dropped.
pub fn find_dirs(entries: &Vec<WalkEntry>, filters: Option<Vec<String>>) -> (r: Vec<String>)
    ensures
        strings_of(r@) == spec_found(entries_of(entries@), filters_of(filters), false),
{
    find_path_items_with_filter(entries, filters, false)
}

/// To be asked for, you need to be able to show your options.
pub trait AsQuestion {
    /// The options this choice supports, shown to the user.
    fn as_options() -> String;
}

/// A simple yes-or-no choice put to the user.
#[derive(Debug, Clone, Copy, PartialEq, Eq, Structural)]
pub enum YesNo {
    Yes,
    No,
}

impl YesNo {
    /// Read a typed character: `y` or `n`, anything else refused.
    pub fn parse_char(value: char) -> (r: Result<Self, StopError>)
        ensures
            value == 'y' ==> r == Ok::<YesNo, StopError>(YesNo::Yes),
            value == 'n' ==> r == Ok::<YesNo, StopError>(YesNo::No),
            value != 'y' && value != 'n' ==> r is Err,
    {
        match value {
            'y' => Ok(YesNo::Yes),
            'n' => Ok(YesNo::No),
            _ => Err(StopError::new("Invalid cast value".to_owned())),
        }
    }

    /// Whether the answer is affirmative.
    pub fn as_bool(&self) -> (r: bool)
        ensures
            r == (self is Yes),
    {
        match self {
            YesNo::Yes => true,
            YesNo::No => false,
        }
    }
}

impl AsQuestion for YesNo {
    fn as_options() -> (r: String)
        ensures
            r@ == "yes/no"@,
    {
        "yes/no".to_owned()
    }
}

/// How a repository is cloned.
#[derive(Debug, Clone, Copy, PartialEq, Eq, Structural)]
pub enum GitCloneMethod {
    Ssh,
    Https,
}

impl GitCloneMethod {
    /// Read a typed character: `s` or `h`, anything else refused.
    pub fn parse_char(value: char) -> (r: Result<Self, StopError>)
        ensures
            value == 's' ==> r == Ok::<GitCloneMethod, StopError>(GitCloneMethod::Ssh),
            value == 'h' ==> r == Ok::<GitCloneMethod, StopError>(GitCloneMethod::Https),
            value != 's' && value != 'h' ==> r is Err,
    {
        match value {
            's' => Ok(GitCloneMethod::Ssh),
            'h' => Ok(GitCloneMethod::Https),
            _ => Err(StopError::new("Invalid cast value".to_owned())),
        }
    }
}

impl AsQuestion for GitCloneMethod {
    fn as_options() -> (r: String)
        ensures
            r@ == "ssh/https"@,
    {
        "ssh/https".to_owned()
    }
}

} // verus!
