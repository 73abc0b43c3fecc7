//! Snapshots of a directory tree and the diff between two of them.
//!
//! A snapshot maps every path under a root to the file's size, times and
//! kind; the caller collects the entries (the library never walks the disk)
//! and the library classifies every path present in either snapshot as
//! created, deleted, modified or merely accessed.

use vstd::prelude::*;
use vstd::string::*;

verus! {

/// A file's metadata in a snapshot.
pub struct FileInfo {
    pub path: String,
    pub size: u64,
    /// Modification time, in nanoseconds since the epoch.
    pub modified: u64,
    /// Access time, in nanoseconds since the epoch.
    pub accessed: u64,
    pub is_dir: bool,
}

/// A [`FileInfo`] as contracts see it.
pub ghost struct FileInfoView {
    pub path: Seq<char>,
    pub size: u64,
    pub modified: u64,
    pub accessed: u64,
    pub is_dir: bool,
}

impl View for FileInfo {
    type V = FileInfoView;

    open spec fn view(&self) -> FileInfoView {
        FileInfoView {
            path: self.path@,
            size: self.size,
            modified: self.modified,
            accessed: self.accessed,
            is_dir: self.is_dir,
        }
    }
}

impl FileInfo {
    /// An entry with the same path and metadata.
    pub fn duplicate(&self) -> (r: FileInfo)
        ensures
            r@ == self@,
    {
        FileInfo {
            path: self.path.clone(),
            size: self.size,
            modified: self.modified,
            accessed: self.accessed,
            is_dir: self.is_dir,
        }
    }
}

/// The kind of change that occurred to a file between two snapshots.
#[derive(Debug, Clone, Copy, PartialEq, Eq, Structural)]
pub enum ChangeType {
    Created,
    Deleted,
    Modified,
    Accessed,
}

/// A change to a specific file: its path, the kind of change, and the
/// entry's metadata in the snapshot(s) that list it.
pub struct FileChange {
    pub path: String,
    pub change_type: ChangeType,
    pub old_info: Option<FileInfo>,
    pub new_info: Option<FileInfo>,
}

/// A [`FileChange`] as contracts see it.
pub ghost struct FileChangeView {
    pub path: Seq<char>,
    pub change_type: ChangeType,
    pub old_info: Option<FileInfoView>,
    pub new_info: Option<FileInfoView>,
}

impl View for FileChange {
    type V = FileChangeView;

    open spec fn view(&self) -> FileChangeView {
        FileChangeView {
            path: self.path@,
            change_type: self.change_type,
            old_info: match self.old_info {
                Some(f) => Some(f@),
                None => None,
            },
            new_info: match self.new_info {
                Some(f) => Some(f@),
                None => None,
            },
        }
    }
}

/// All changes between two snapshots, and when the two were taken.
pub struct FilesystemDiff {
    pub changes: Vec<FileChange>,
    pub from_time: u64,
    pub to_time: u64,
}

/// The changes of a diff as contracts see them.
pub open spec fn changes_of(d: FilesystemDiff) -> Seq<FileChangeView> {
    d.changes@.map_values(|c: FileChange| c@)
}

/// The views of a list of entries.
pub open spec fn infos_of(s: Seq<FileInfo>) -> Seq<FileInfoView> {
    s.map_values(|f: FileInfo| f@)
}

/// Whether some entry in `s` has path `p`.
pub open spec fn seq_has_path(s: Seq<FileInfoView>, p: Seq<char>) -> bool {
    exists|i: int| 0 <= i < s.len() && s[i].path == p
}

/// The entry in `s` with path `p` (meaningful when exactly one exists).
pub open spec fn seq_info_of(s: Seq<FileInfoView>, p: Seq<char>) -> FileInfoView {
    s[choose|i: int| 0 <= i < s.len() && s[i].path == p]
}

/// No two entries share a path.
pub open spec fn unique_paths(s: Seq<FileInfoView>) -> bool {
    forall|i: int, j: int| 0 <= i < j < s.len() ==> s[i].path != s[j].path
}

/// `s` with every entry whose path already occurred before it dropped.
pub open spec fn dedup_keep_first(s: Seq<FileInfoView>) -> Seq<FileInfoView>
    decreases s.len(),
{
    if s.len() == 0 {
        s
    } else if seq_has_path(s.drop_last(), s.last().path) {
        dedup_keep_first(s.drop_last())
    } else {
        dedup_keep_first(s.drop_last()).push(s.last())
    }
}

/// Dropping duplicates keeps exactly the paths of the original list.
pub proof fn lemma_dedup_paths(s: Seq<FileInfoView>)
    ensures
        forall|p: Seq<char>|
            seq_has_path(dedup_keep_first(s), p) <==> #[trigger] seq_has_path(s, p),
    decreases s.len(),
{
    if s.len() > 0 {
        let dd = dedup_keep_first(s.drop_last());
        lemma_dedup_paths(s.drop_last());
        assert forall|p: Seq<char>| #[trigger]
            seq_has_path(s, p) implies seq_has_path(dedup_keep_first(s), p) by {
            let i = choose|i: int| 0 <= i < s.len() && s[i].path == p;
            if i < s.len() - 1 {
                assert(s.drop_last()[i].path == p);
                assert(seq_has_path(s.drop_last(), p));
                assert(seq_has_path(dd, p));
                let k = choose|k: int| 0 <= k < dd.len() && dd[k].path == p;
                if !seq_has_path(s.drop_last(), s.last().path) {
                    assert(dedup_keep_first(s)[k].path == p);
                }
            } else {
                if seq_has_path(s.drop_last(), s.last().path) {
                    let j = choose|j: int|
                        0 <= j < s.drop_last().len() && s.drop_last()[j].path == s.last().path;
                    assert(s.drop_last()[j].path == p);
                    assert(seq_has_path(s.drop_last(), p));
                    assert(seq_has_path(dd, p));
                } else {
                    assert(dedup_keep_first(s)[dd.len() as int].path == p);
                }
            }
        }
        assert forall|p: Seq<char>|
            seq_has_path(dedup_keep_first(s), p) implies #[trigger] seq_has_path(s, p) by {
            let d = dedup_keep_first(s);
            let i = choose|i: int| 0 <= i < d.len() && d[i].path == p;
            if seq_has_path(s.drop_last(), s.last().path) {
                assert(dd[i].path == p);
                assert(seq_has_path(dd, p));
                assert(seq_has_path(s.drop_last(), p));
                let j = choose|j: int| 0 <= j < s.drop_last().len() && s.drop_last()[j].path == p;
                assert(s[j].path == p);
                assert(seq_has_path(s, p));
            } else {
                if i < dd.len() {
                    assert(dd[i].path == p);
                    assert(seq_has_path(dd, p));
                    assert(seq_has_path(s.drop_last(), p));
                    let j = choose|j: int|
                        0 <= j < s.drop_last().len() && s.drop_last()[j].path == p;
                    assert(s[j].path == p);
                    assert(seq_has_path(s, p));
                } else {
                    assert(d[i] == s.last());
                    assert(s[s.len() - 1].path == p);
                    assert(seq_has_path(s, p));
                }
            }
        }
    }
}

/// Dropping duplicates leaves no two entries with one path.
pub proof fn lemma_dedup_unique(s: Seq<FileInfoView>)
    ensures
        unique_paths(dedup_keep_first(s)),
    decreases s.len(),
{
    if s.len() > 0 {
        lemma_dedup_unique(s.drop_last());
        lemma_dedup_paths(s.drop_last());
        if !seq_has_path(s.drop_last(), s.last().path) {
            let dd = dedup_keep_first(s.drop_last());
            assert forall|i: int, j: int|
                0 <= i < j < dd.push(s.last()).len() implies dd.push(s.last())[i].path != dd.push(
                s.last(),
            )[j].path by {
                if j == dd.len() {
                    assert(seq_has_path(dd, dd[i].path));
                }
            }
        }
    }
}

/// A snapshot of the filesystem below `root_dir` at `snapshot_time`.
pub struct FilesystemState {
    pub files: Vec<FileInfo>,
    pub root_dir: String,
    pub snapshot_time: u64,
}

impl FilesystemState {
    /// The snapshot's entries, for use in contracts.
    pub open spec fn entries(&self) -> Seq<FileInfoView> {
        infos_of(self.files@)
    }

    /// No two entries of the snapshot share a path.
    pub open spec fn wf(&self) -> bool {
        unique_paths(self.entries())
    }

    /// Build a snapshot from collected entries.  An entry whose path an
    /// earlier entry already used is dropped, so the snapshot is a mapping.
    pub fn new(root_dir: String, snapshot_time: u64, entries: Vec<FileInfo>) -> (r: Self)
        ensures
            r.wf(),
            r.entries() == dedup_keep_first(infos_of(entries@)),
            r.root_dir@ == root_dir@,
            r.snapshot_time == snapshot_time,
    {
        let ghost all = infos_of(entries@);
        let mut kept: Vec<FileInfo> = Vec::new();
        let mut i: usize = 0;
        proof {
            assert(all.take(0) =~= Seq::<FileInfoView>::empty());
            assert(infos_of(kept@) =~= dedup_keep_first(all.take(0)));
        }
        while i < entries.len()
            invariant
                i <= entries@.len(),
                all == infos_of(entries@),
                infos_of(kept@) == dedup_keep_first(all.take(i as int)),
            decreases entries@.len() - i,
        {
            proof {
                assert(all.take(i + 1).drop_last() =~= all.take(i as int));
                assert(all.take(i + 1).last() == all[i as int]);
                lemma_dedup_paths(all.take(i as int));
            }
            let hit = find_entry(&kept, &entries[i].path);
            if hit.is_none() {
                let ghost before = kept@;
                kept.push(entries[i].duplicate());
                proof {
                    assert(infos_of(kept@) =~= infos_of(before).push(all[i as int]));
                }
            }
            i = i + 1;
        }
        proof {
            assert(all.take(entries@.len() as int) =~= all);
            lemma_dedup_unique(all);
        }
        FilesystemState { files: kept, root_dir, snapshot_time }
    }

    /// How many entries the snapshot holds.
    pub fn len(&self) -> (r: usize)
        ensures
            r == self.entries().len(),
    {
        self.files.len()
    }

    /// The entry for `path`, if the snapshot lists it.
    pub fn lookup(&self, path: &String) -> (r: Option<FileInfo>)
        requires
            self.wf(),
        ensures
            match r {
                Some(f) => seq_has_path(self.entries(), path@) && f@ == seq_info_of(
                    self.entries(),
                    path@,
                ),
                None => !seq_has_path(self.entries(), path@),
            },
    {
        let hit = find_entry(&self.files, path);
        match hit {
            Some(i) => {
                proof {
                    let k = choose|k: int|
                        0 <= k < self.entries().len() && self.entries()[k].path == path@;
                    assert(k == i as int);
                }
                Some(self.files[i].duplicate())
            },
            None => None,
        }
    }
}

/// How two snapshots classify a path: deleted when only the first lists it,
/// created when only the second does, modified when both do but size or
/// modification time differ, accessed when only the access time differs,
/// and nothing when the entries agree.
pub open spec fn spec_change_of(
    a: Seq<FileInfoView>,
    b: Seq<FileInfoView>,
    p: Seq<char>,
) -> Option<ChangeType> {
    if seq_has_path(a, p) && !seq_has_path(b, p) {
        Some(ChangeType::Deleted)
    } else if !seq_has_path(a, p) && seq_has_path(b, p) {
        Some(ChangeType::Created)
    } else if seq_has_path(a, p) && seq_has_path(b, p) {
        let fa = seq_info_of(a, p);
        let fb = seq_info_of(b, p);
        if fa.size != fb.size || fa.modified != fb.modified {
            Some(ChangeType::Modified)
        } else if fa.accessed != fb.accessed {
            Some(ChangeType::Accessed)
        } else {
            None
        }
    } else {
        None
    }
}

/// A reported change is justified by the two snapshots, and carries the
/// entries they hold for its path.
pub open spec fn change_matches(
    a: Seq<FileInfoView>,
    b: Seq<FileInfoView>,
    c: FileChangeView,
) -> bool {
    &&& spec_change_of(a, b, c.path) == Some(c.change_type)
    &&& c.old_info == (if seq_has_path(a, c.path) {
        Some(seq_info_of(a, c.path))
    } else {
        None::<FileInfoView>
    })
    &&& c.new_info == (if seq_has_path(b, c.path) {
        Some(seq_info_of(b, c.path))
    } else {
        None::<FileInfoView>
    })
}

impl FilesystemState {
    /// Compare this snapshot with a later one.  The diff lists one change
    /// for exactly the paths the two snapshots disagree on, each classified
    /// and carrying the entries involved; a path the snapshots agree on is
    /// not listed.
    #[verifier::rlimit(50)]
    pub fn diff(&self, other: &FilesystemState) -> (r: FilesystemDiff)
        requires
            self.wf(),
            other.wf(),
        ensures
            r.from_time == self.snapshot_time,
            r.to_time == other.snapshot_time,
            forall|i: int|
                0 <= i < changes_of(r).len() ==> change_matches(
                    self.entries(),
                    other.entries(),
                    #[trigger] changes_of(r)[i],
                ),
            forall|i: int, j: int|
                0 <= i < j < changes_of(r).len() ==> changes_of(r)[i].path != changes_of(
                    r,
                )[j].path,
            forall|p: Seq<char>|
                (#[trigger] spec_change_of(self.entries(), other.entries(), p)) is Some
                    ==> exists|i: int|
                    0 <= i < changes_of(r).len() && (#[trigger] changes_of(r)[i]).path == p,
    {
        let ghost a = self.entries();
        let ghost b = other.entries();
        let mut changes: Vec<FileChange> = Vec::new();
        // Walk this snapshot: deleted, modified and accessed paths.
        let mut i: usize = 0;
        while i < self.files.len()
            invariant
                self.wf(),
                other.wf(),
                a == self.entries(),
                b == other.entries(),
                i <= a.len(),
                forall|m: int|
                    0 <= m < changes@.len() ==> change_matches(a, b, (#[trigger] changes@[m])@),
                forall|m: int|
                    0 <= m < changes@.len() ==> exists|j: int|
                        0 <= j < i && a[j].path == (#[trigger] changes@[m])@.path,
                forall|m: int, k: int|
                    0 <= m < k < changes@.len() ==> changes@[m]@.path != changes@[k]@.path,
                forall|j: int|
                    0 <= j < i && (#[trigger] spec_change_of(a, b, a[j].path)) is Some ==> exists|
                        m: int,
                    | 0 <= m < changes@.len() && (#[trigger] changes@[m])@.path == a[j].path,
            decreases a.len() - i,
        {
            let ghost p = a[i as int].path;
            let info = &self.files[i];
            proof {
                assert(a[i as int].path == p);
                assert(seq_has_path(a, p));
                let k = choose|k: int| 0 <= k < a.len() && a[k].path == p;
                assert(k == i as int);
                assert(seq_info_of(a, p) == a[i as int]);
            }
            let hit = other.lookup(&info.path);
            let ghost before = changes@;
            match hit {
                None => {
                    changes.push(
                        FileChange {
                            path: info.path.clone(),
                            change_type: ChangeType::Deleted,
                            old_info: Some(info.duplicate()),
                            new_info: None,
                        },
                    );
                },
                Some(new_info) => {
                    if new_info.size != info.size || new_info.modified != info.modified {
                        changes.push(
                            FileChange {
                                path: info.path.clone(),
                                change_type: ChangeType::Modified,
                                old_info: Some(info.duplicate()),
                                new_info: Some(new_info),
                            },
                        );
                    } else if new_info.accessed != info.accessed {
                        changes.push(
                            FileChange {
                                path: info.path.clone(),
                                change_type: ChangeType::Accessed,
                                old_info: Some(info.duplicate()),
                                new_info: Some(new_info),
                            },
                        );
                    }
                },
            }
            proof {
                assert(forall|m: int| 0 <= m < before.len() ==> changes@[m] == before[m]);
                if changes@.len() > before.len() {
                    assert(changes@[before.len() as int]@.path == p);
                    assert forall|m: int, k: int|
                        0 <= m < k < changes@.len() implies changes@[m]@.path != changes@[k]@.path by {
                        if k == changes@.len() - 1 {
                            let j = choose|j: int| 0 <= j < i && a[j].path == changes@[m]@.path;
                            assert(a[j].path != a[i as int].path);
                        }
                    }
                }
            }
            i = i + 1;
        }
        proof {
            assert forall|m: int| 0 <= m < changes@.len() implies seq_has_path(
                a,
                (#[trigger] changes@[m])@.path,
            ) by {
                let j0 = choose|j0: int| 0 <= j0 < i && a[j0].path == changes@[m]@.path;
                assert(a[j0].path == changes@[m]@.path);
            }
        }
        // Walk the other snapshot: created paths.
        let mut j: usize = 0;
        while j < other.files.len()
            invariant
                self.wf(),
                other.wf(),
                a == self.entries(),
                b == other.entries(),
                j <= b.len(),
                forall|m: int|
                    0 <= m < changes@.len() ==> change_matches(a, b, (#[trigger] changes@[m])@),
                forall|m: int, k: int|
                    0 <= m < k < changes@.len() ==> changes@[m]@.path != changes@[k]@.path,
                forall|jj: int|
                    0 <= jj < a.len() && (#[trigger] spec_change_of(a, b, a[jj].path)) is Some
                        ==> exists|m: int|
                        0 <= m < changes@.len() && (#[trigger] changes@[m])@.path == a[jj].path,
                forall|jj: int|
                    0 <= jj < j && (#[trigger] spec_change_of(a, b, b[jj].path)) is Some ==> exists|
                        m: int,
                    | 0 <= m < changes@.len() && (#[trigger] changes@[m])@.path == b[jj].path,
                forall|m: int|
                    0 <= m < changes@.len() ==> seq_has_path(a, (#[trigger] changes@[m])@.path)
                        || exists|jj: int| 0 <= jj < j && b[jj].path == changes@[m]@.path,
            decreases b.len() - j,
        {
            let ghost p = b[j as int].path;
            let info = &other.files[j];
            proof {
                assert(b[j as int].path == p);
                assert(seq_has_path(b, p));
                let k = choose|k: int| 0 <= k < b.len() && b[k].path == p;
                assert(k == j as int);
                assert(seq_info_of(b, p) == b[j as int]);
            }
            let hit = self.lookup(&info.path);
            let ghost before = changes@;
            if hit.is_none() {
                changes.push(
                    FileChange {
                        path: info.path.clone(),
                        change_type: ChangeType::Created,
                        old_info: None,
                        new_info: Some(info.duplicate()),
                    },
                );
            }
            proof {
                assert(forall|m: int| 0 <= m < before.len() ==> changes@[m] == before[m]);
                if changes@.len() > before.len() {
                    assert(changes@[before.len() as int]@.path == p);
                    assert forall|m: int, k: int|
                        0 <= m < k < changes@.len() implies changes@[m]@.path != changes@[k]@.path by {
                        if k == changes@.len() - 1 && changes@[m]@.path == p {
                            // The earlier change's path either lies in this
                            // snapshot (but `p` does not) or came from an
                            // earlier entry of the other one (but its paths
                            // are unique).
                            if !seq_has_path(a, p) {
                                let jj = choose|jj: int| 0 <= jj < j && b[jj].path == changes@[m]@.path;
                                assert(b[jj].path == b[j as int].path);
                            }
                        }
                    }
                    assert(exists|jj: int| 0 <= jj < j + 1 && b[jj].path == changes@[changes@.len() - 1]@.path);
                } else {
                    assert(seq_has_path(a, p));
                    if spec_change_of(a, b, p) is Some {
                        let jj = choose|jj: int| 0 <= jj < a.len() && a[jj].path == p;
                        assert(spec_change_of(a, b, a[jj].path) is Some);
                    }
                }
            }
            j = j + 1;
        }
        let ghost cs = changes@;
        let d = FilesystemDiff {
            changes,
            from_time: self.snapshot_time,
            to_time: other.snapshot_time,
        };
        proof {
            assert(d.changes@ == cs);
            assert(forall|m: int| 0 <= m < changes_of(d).len() ==> #[trigger] changes_of(d)[m]
                == d.changes@[m]@);
            assert forall|p: Seq<char>|
                (#[trigger] spec_change_of(a, b, p)) is Some implies exists|ii: int|
                0 <= ii < changes_of(d).len() && (#[trigger] changes_of(d)[ii]).path == p by {
                if seq_has_path(a, p) {
                    let jj = choose|jj: int| 0 <= jj < a.len() && a[jj].path == p;
                    assert(spec_change_of(a, b, a[jj].path) is Some);
                } else {
                    assert(seq_has_path(b, p));
                    let jj = choose|jj: int| 0 <= jj < b.len() && b[jj].path == p;
                    assert(spec_change_of(a, b, b[jj].path) is Some);
                }
                let m = choose|m: int| 0 <= m < cs.len() && (#[trigger] cs[m])@.path == p;
                assert(changes_of(d)[m] == d.changes@[m]@);
                assert(changes_of(d)[m].path == p);
            }
        }
        d
    }
}

/// Compare two filesystem snapshots and produce a diff.
pub fn compare_filesystem_states(before: &FilesystemState, after: &FilesystemState) -> (r:
    FilesystemDiff)
    requires
        before.wf(),
        after.wf(),
    ensures
        r.from_time == before.snapshot_time,
        r.to_time == after.snapshot_time,
        forall|i: int|
            0 <= i < changes_of(r).len() ==> change_matches(
                before.entries(),
                after.entries(),
                #[trigger] changes_of(r)[i],
            ),
        forall|i: int, j: int|
            0 <= i < j < changes_of(r).len() ==> changes_of(r)[i].path != changes_of(r)[j].path,
        forall|p: Seq<char>|
            (#[trigger] spec_change_of(before.entries(), after.entries(), p)) is Some ==> exists|
                i: int,
            |
                0 <= i < changes_of(r).len() && (#[trigger] changes_of(r)[i]).path == p,
{
    before.diff(after)
}

/// Two identical snapshots disagree on no path: the diff the contract of
/// [`FilesystemState::diff`] allows between a snapshot and itself is the
/// empty change list.
pub proof fn lemma_diff_self_empty(s: Seq<FileInfoView>, cs: Seq<FileChangeView>)
    requires
        forall|i: int| 0 <= i < cs.len() ==> change_matches(s, s, #[trigger] cs[i]),
    ensures
        cs.len() == 0,
        forall|p: Seq<char>| spec_change_of(s, s, p) is None,
{
    if cs.len() > 0 {
        assert(change_matches(s, s, cs[0]));
    }
}

/// The index of the first entry with the given path, if any.
fn find_entry(files: &Vec<FileInfo>, path: &String) -> (r: Option<usize>)
    ensures
        match r {
            Some(i) => 0 <= i < files@.len() && infos_of(files@)[i as int].path == path@,
            None => !seq_has_path(infos_of(files@), path@),
        },
{
    let mut i: usize = 0;
    while i < files.len()
        invariant
            i <= files@.len(),
            forall|j: int| 0 <= j < i ==> infos_of(files@)[j].path != path@,
        decreases files@.len() - i,
    {
        if files[i].path == *path {
            return Some(i);
        }
        i = i + 1;
    }
    None
}

} // verus!
