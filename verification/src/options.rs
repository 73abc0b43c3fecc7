//! The project configuration as the library reads it.
//!
//! The values mirror the project's configuration file; the unverified shell
//! parses that file and hands the plain values over.  Paths here are
//! strings; directory defaults and joins are specified exactly.

use crate::errors::StopError;
use crate::executor::Executor;
use crate::paths::file_stem;
use crate::paths::join_path;
use crate::paths::spec_file_stem;
use crate::paths::spec_join;
use crate::paths::str_eq;
use crate::paths::strings_of;
use crate::paths::extension_of;
use crate::paths::spec_extension;
use crate::text::spec_is_trim_char;
use crate::paths::is_path_prefix;
use crate::paths::starts_with_path;
use crate::utils::WalkEntry;
use crate::utils::entries_of;
use crate::utils::find_files;
use crate::utils::spec_found;
use crate::text::spec_trim_end;
use crate::text::trim_end_line;
use vstd::prelude::*;
use vstd::string::*;

verus! {

/// Where the project keeps its input, output and intermediate data.
pub struct DataPaths {
    pub input: Option<String>,
    pub output: Option<String>,
    pub intermediate: Option<String>,
}

/// One remote file: where it comes from and where it is saved.
pub struct RemoteFile {
    pub url: String,
    pub path: String,
}

/// One declared data profile: its name and its original-to-substitute
/// pairs, every path relative to the input data directory.
pub struct ProfileSpec {
    pub name: String,
    pub entries: Vec<(String, String)>,
}

/// The data section of the configuration.
pub struct DataOptions {
    pub paths: Option<DataPaths>,
    pub profiles: Option<Vec<ProfileSpec>>,
    pub remote: Option<Vec<RemoteFile>>,
}

/// The code section of the configuration.
pub struct CodeOptions {
    pub env_dir: Option<String>,
    pub pipes_dir: Option<String>,
}

/// The meta section of the configuration.
pub struct Meta {
    pub version: Option<String>,
}

/// Which container engine runs the workflows.
#[derive(Debug, Clone, Copy, PartialEq, Eq, Structural)]
pub enum ContainerBackend {
    Docker,
    Podman,
}

impl ContainerBackend {
    /// The binary the backend is invoked as.
    pub fn as_arg(&self) -> (r: String)
        ensures
            self is Docker ==> r@ == "docker"@,
            self is Podman ==> r@ == "podman"@,
    {
        match self {
            ContainerBackend::Docker => "docker".to_owned(),
            ContainerBackend::Podman => "podman".to_owned(),
        }
    }
}

impl Default for ContainerBackend {
    /// The backend used when the configuration names none.
    fn default() -> (r: Self)
        ensures
            r is Docker,
    {
        ContainerBackend::Docker
    }
}

/// The execution section of the configuration.
pub struct ExecutionOptions {
    pub backend: ContainerBackend,
    pub workdir: Option<String>,
}

/// The whole configuration of one project.
pub struct KerblamTomlOptions {
    pub meta: Option<Meta>,
    pub data: Option<DataOptions>,
    pub code: Option<CodeOptions>,
    pub execution: ExecutionOptions,
}

impl KerblamTomlOptions {
    /// The configured input data directory, relative to the project root.
    pub open spec fn spec_input_rel(&self) -> Seq<char> {
        match self.data {
            Some(d) => match d.paths {
                Some(p) => match p.input {
                    Some(s) => s@,
                    None => "data/in"@,
                },
                None => "data/in"@,
            },
            None => "data/in"@,
        }
    }

    /// The configured output data directory, relative to the project root.
    pub open spec fn spec_output_rel(&self) -> Seq<char> {
        match self.data {
            Some(d) => match d.paths {
                Some(p) => match p.output {
                    Some(s) => s@,
                    None => "data/out"@,
                },
                None => "data/out"@,
            },
            None => "data/out"@,
        }
    }

    /// The configured intermediate data directory, relative to the project
    /// root.
    pub open spec fn spec_intermediate_rel(&self) -> Seq<char> {
        match self.data {
            Some(d) => match d.paths {
                Some(p) => match p.intermediate {
                    Some(s) => s@,
                    None => "data"@,
                },
                None => "data"@,
            },
            None => "data"@,
        }
    }

    /// The working directory inside the container, `/` when unset.
    pub open spec fn spec_workdir(&self) -> Seq<char> {
        match self.execution.workdir {
            Some(w) => w@,
            None => "/"@,
        }
    }

    /// The configured workflows folder, relative to the project root.
    pub open spec fn spec_pipes_rel(&self) -> Seq<char> {
        match self.code {
            Some(c) => match c.pipes_dir {
                Some(s) => s@,
                None => "src/workflows"@,
            },
            None => "src/workflows"@,
        }
    }

    /// The configured container-definitions folder, relative to the
    /// project root.
    pub open spec fn spec_env_rel(&self) -> Seq<char> {
        match self.code {
            Some(c) => match c.env_dir {
                Some(s) => s@,
                None => "src/dockerfiles"@,
            },
            None => "src/dockerfiles"@,
        }
    }

    /// The path of the workflows folder under `root`.
    pub fn pipes_dir(&self, root: &str) -> (r: String)
        ensures
            r@ == spec_join(root@, self.spec_pipes_rel()),
    {
        match &self.code {
            Some(c) => match &c.pipes_dir {
                Some(s) => join_path(root, s.as_str()),
                None => join_path(root, "src/workflows"),
            },
            None => join_path(root, "src/workflows"),
        }
    }

    /// The path of the container-definitions folder under `root`.
    pub fn env_dir(&self, root: &str) -> (r: String)
        ensures
            r@ == spec_join(root@, self.spec_env_rel()),
    {
        match &self.code {
            Some(c) => match &c.env_dir {
                Some(s) => join_path(root, s.as_str()),
                None => join_path(root, "src/dockerfiles"),
            },
            None => join_path(root, "src/dockerfiles"),
        }
    }

    /// The managed data directories, in the order their filters are
    /// considered: input, intermediate, output.
    pub open spec fn spec_data_dirs(&self, root: Seq<char>) -> Seq<Seq<char>> {
        seq![
            spec_join(root, self.spec_input_rel()),
            spec_join(root, self.spec_intermediate_rel()),
            spec_join(root, self.spec_output_rel()),
        ]
    }

    /// List the files of one managed data directory from a walk of it: the
    /// contents of the other managed directories are dropped, unless such a
    /// directory lies above the target — dropping it would hide the target
    /// itself.
    fn extract_dir(&self, root: &str, target: &str, entries: &Vec<WalkEntry>) -> (r: Vec<String>)
        ensures
            ({
                let kept = spec_kept_filters(self.spec_data_dirs(root@), target@);
                strings_of(r@) == spec_found(
                    entries_of(entries@),
                    if kept.len() == 0 {
                        None
                    } else {
                        Some(kept)
                    },
                    true,
                )
            }),
    {
        let ghost dm = self.spec_data_dirs(root@);
        let dirs: Vec<String> = vec![
            self.input_data_dir(root),
            self.intermediate_data_dir(root),
            self.output_data_dir(root),
        ];
        proof {
            assert(strings_of(dirs@) =~= dm);
        }
        let mut kept: Vec<String> = Vec::new();
        let mut i: usize = 0;
        proof {
            assert(dm.skip(0) =~= dm);
            assert(strings_of(kept@) + spec_kept_filters(dm, target@) =~= spec_kept_filters(
                dm,
                target@,
            ));
        }
        while i < dirs.len()
            invariant
                i <= dirs@.len(),
                dm == strings_of(dirs@),
                strings_of(kept@) + spec_kept_filters(dm.skip(i as int), target@)
                    == spec_kept_filters(dm, target@),
            decreases dirs@.len() - i,
        {
            proof {
                assert(dm.skip(i as int)[0] == dm[i as int]);
                assert(dm.skip(i as int).drop_first() =~= dm.skip(i + 1));
            }
            let ghost before = strings_of(kept@);
            if !starts_with_path(target, dirs[i].as_str()) {
                kept.push(dirs[i].clone());
                proof {
                    assert(strings_of(kept@) =~= before + seq![dm[i as int]]);
                }
            }
            proof {
                assert(strings_of(kept@) + spec_kept_filters(dm.skip(i + 1), target@)
                    =~= spec_kept_filters(dm, target@));
            }
            i = i + 1;
        }
        proof {
            assert(dm.skip(dirs@.len() as int) =~= Seq::<Seq<char>>::empty());
            assert(strings_of(kept@) + Seq::<Seq<char>>::empty() =~= strings_of(kept@));
        }
        if kept.len() == 0 {
            find_files(entries, None)
        } else {
            find_files(entries, Some(kept))
        }
    }

    /// The locally present input files, from a walk of the input data
    /// directory; output and intermediate files nested in it are dropped.
    pub fn input_files(&self, root: &str, entries: &Vec<WalkEntry>) -> (r: Vec<String>)
        ensures
            ({
                let kept = spec_kept_filters(
                    self.spec_data_dirs(root@),
                    spec_join(root@, self.spec_input_rel()),
                );
                strings_of(r@) == spec_found(
                    entries_of(entries@),
                    if kept.len() == 0 {
                        None
                    } else {
                        Some(kept)
                    },
                    true,
                )
            }),
    {
        let target = self.input_data_dir(root);
        self.extract_dir(root, target.as_str(), entries)
    }

    /// The locally present output files, from a walk of the output data
    /// directory; input and intermediate files nested in it are dropped.
    pub fn output_files(&self, root: &str, entries: &Vec<WalkEntry>) -> (r: Vec<String>)
        ensures
            ({
                let kept = spec_kept_filters(
                    self.spec_data_dirs(root@),
                    spec_join(root@, self.spec_output_rel()),
                );
                strings_of(r@) == spec_found(
                    entries_of(entries@),
                    if kept.len() == 0 {
                        None
                    } else {
                        Some(kept)
                    },
                    true,
                )
            }),
    {
        let target = self.output_data_dir(root);
        self.extract_dir(root, target.as_str(), entries)
    }

    /// The locally present intermediate files, from a walk of the
    /// intermediate data directory; input and output files nested in it
    /// are dropped.
    pub fn intermediate_files(&self, root: &str, entries: &Vec<WalkEntry>) -> (r: Vec<String>)
        ensures
            ({
                let kept = spec_kept_filters(
                    self.spec_data_dirs(root@),
                    spec_join(root@, self.spec_intermediate_rel()),
                );
                strings_of(r@) == spec_found(
                    entries_of(entries@),
                    if kept.len() == 0 {
                        None
                    } else {
                        Some(kept)
                    },
                    true,
                )
            }),
    {
        let target = self.intermediate_data_dir(root);
        self.extract_dir(root, target.as_str(), entries)
    }

    /// The path of the input data directory under `root`.
    pub fn input_data_dir(&self, root: &str) -> (r: String)
        ensures
            r@ == spec_join(root@, self.spec_input_rel()),
    {
        match &self.data {
            Some(d) => match &d.paths {
                Some(p) => match &p.input {
                    Some(s) => join_path(root, s.as_str()),
                    None => join_path(root, "data/in"),
                },
                None => join_path(root, "data/in"),
            },
            None => join_path(root, "data/in"),
        }
    }

    /// The path of the output data directory under `root`.
    pub fn output_data_dir(&self, root: &str) -> (r: String)
        ensures
            r@ == spec_join(root@, self.spec_output_rel()),
    {
        match &self.data {
            Some(d) => match &d.paths {
                Some(p) => match &p.output {
                    Some(s) => join_path(root, s.as_str()),
                    None => join_path(root, "data/out"),
                },
                None => join_path(root, "data/out"),
            },
            None => join_path(root, "data/out"),
        }
    }

    /// The path of the intermediate data directory under `root`.
    pub fn intermediate_data_dir(&self, root: &str) -> (r: String)
        ensures
            r@ == spec_join(root@, self.spec_intermediate_rel()),
    {
        match &self.data {
            Some(d) => match &d.paths {
                Some(p) => match &p.intermediate {
                    Some(s) => join_path(root, s.as_str()),
                    None => join_path(root, "data"),
                },
                None => join_path(root, "data"),
            },
            None => join_path(root, "data"),
        }
    }
}

/// The filter directories kept when listing `target`: those that do not
/// lie above it.
pub open spec fn spec_kept_filters(ds: Seq<Seq<char>>, target: Seq<char>) -> Seq<Seq<char>>
    decreases ds.len(),
{
    if ds.len() == 0 {
        Seq::empty()
    } else {
        (if is_path_prefix(ds[0], target) {
            Seq::<Seq<char>>::empty()
        } else {
            seq![ds[0]]
        }) + spec_kept_filters(ds.drop_first(), target)
    }
}

/// The pieces of a text split at every blank line (`\n\n`), read left to
/// right: the characters of `rest` walked with `cur` as the piece being
/// read.
pub open spec fn split2_acc(rest: Seq<char>, cur: Seq<char>) -> Seq<Seq<char>>
    decreases rest.len(),
{
    if rest.len() == 0 {
        seq![cur]
    } else if rest.len() >= 2 && rest[0] == '\n' && rest[1] == '\n' {
        seq![cur] + split2_acc(rest.skip(2), Seq::empty())
    } else {
        split2_acc(rest.drop_first(), cur.push(rest[0]))
    }
}

/// The lines of a text, split at every newline.
pub open spec fn splitnl_acc(rest: Seq<char>, cur: Seq<char>) -> Seq<Seq<char>>
    decreases rest.len(),
{
    if rest.len() == 0 {
        seq![cur]
    } else if rest[0] == '\n' {
        seq![cur] + splitnl_acc(rest.drop_first(), Seq::empty())
    } else {
        splitnl_acc(rest.drop_first(), cur.push(rest[0]))
    }
}

/// Pieces glued back together with a separator between them.
pub open spec fn join_with(parts: Seq<Seq<char>>, sep: Seq<char>) -> Seq<char>
    decreases parts.len(),
{
    if parts.len() == 0 {
        Seq::empty()
    } else if parts.len() == 1 {
        parts[0]
    } else {
        join_with(parts.drop_last(), sep) + sep + parts.last()
    }
}

/// A split always yields at least the one piece being read.
proof fn lemma_split2_nonempty(rest: Seq<char>, cur: Seq<char>)
    ensures
        split2_acc(rest, cur).len() >= 1,
    decreases rest.len(),
{
    if rest.len() == 0 {
    } else if rest.len() >= 2 && rest[0] == '\n' && rest[1] == '\n' {
        lemma_split2_nonempty(rest.skip(2), Seq::empty())
    } else {
        lemma_split2_nonempty(rest.drop_first(), cur.push(rest[0]))
    }
}

/// `s` with leading whitespace removed.
pub open spec fn spec_trim_start(s: Seq<char>) -> Seq<char>
    decreases s.len(),
{
    if s.len() == 0 {
        s
    } else if spec_is_trim_char(s[0]) {
        spec_trim_start(s.drop_first())
    } else {
        s
    }
}

/// `s` with whitespace removed from both ends.
pub open spec fn spec_trim(s: Seq<char>) -> Seq<char> {
    spec_trim_end(spec_trim_start(s))
}

/// Where the first character that is not whitespace stands.
proof fn lemma_trim_start_at(s: Seq<char>, i: int)
    requires
        0 <= i <= s.len(),
        forall|k: int| 0 <= k < i ==> spec_is_trim_char(#[trigger] s[k]),
        i < s.len() ==> !spec_is_trim_char(s[i]),
    ensures
        spec_trim_start(s) == s.skip(i),
    decreases i,
{
    if i == 0 {
        assert(s.skip(0) =~= s);
    } else {
        lemma_trim_start_at(s.drop_first(), i - 1);
        assert(s.drop_first().skip(i - 1) =~= s.skip(i));
    }
}

/// Whether a character is trimmed off a line's ends.
fn is_trim_c(c: char) -> (r: bool)
    ensures
        r == spec_is_trim_char(c),
{
    c == ' ' || c == '\t' || c == '\n' || c == '\r'
}

/// `line` with whitespace removed from both ends.
fn trim_line(line: &str) -> (r: String)
    ensures
        r@ == spec_trim(line@),
{
    let n = line.unicode_len();
    let mut i: usize = 0;
    while i < n && is_trim_c(line.get_char(i))
        invariant
            i <= n,
            n == line@.len(),
            forall|k: int| 0 <= k < i ==> spec_is_trim_char(#[trigger] line@[k]),
        decreases n - i,
    {
        i = i + 1;
    }
    proof {
        lemma_trim_start_at(line@, i as int);
    }
    let rest = line.substring_char(i, n).to_owned();
    proof {
        assert(rest@ =~= line@.skip(i as int));
    }
    trim_end_line(rest.as_str())
}

/// `s` with every leading repetition of the description marker `#?`
/// removed.
pub open spec fn spec_strip_marks(s: Seq<char>) -> Seq<char>
    decreases s.len(),
{
    if s.len() >= 2 && s.take(2) == "#?"@ {
        spec_strip_marks(s.skip(2))
    } else {
        s
    }
}

/// What one line contributes to the description text box: its trimmed
/// content with the markers stripped and a newline, when it carries the
/// `#?` marker; nothing otherwise.
pub open spec fn spec_desc_line(l: Seq<char>) -> Seq<char> {
    let t = spec_trim(l);
    if t.len() >= 2 && t.take(2) == "#?"@ {
        spec_strip_marks(t) + "\n"@
    } else {
        Seq::empty()
    }
}

/// The description text box of a list of lines.
pub open spec fn spec_text_box(lines: Seq<Seq<char>>) -> Seq<char>
    decreases lines.len(),
{
    if lines.len() == 0 {
        Seq::empty()
    } else {
        spec_desc_line(lines[0]) + spec_text_box(lines.drop_first())
    }
}

/// Collect the description text box of a workflow file from its lines:
/// every line whose trimmed text starts with `#?` contributes its content,
/// the markers stripped, one line each.
pub fn description_text_box(lines: &Vec<String>) -> (r: String)
    ensures
        r@ == spec_text_box(strings_of(lines@)),
{
    let ghost lm = strings_of(lines@);
    let mut out = String::new();
    let mut i: usize = 0;
    proof {
        assert(lm.skip(0) =~= lm);
        assert(out@ + spec_text_box(lm) =~= spec_text_box(lm));
    }
    while i < lines.len()
        invariant
            i <= lines@.len(),
            lm == strings_of(lines@),
            out@ + spec_text_box(lm.skip(i as int)) == spec_text_box(lm),
        decreases lines@.len() - i,
    {
        proof {
            assert(lm.skip(i as int)[0] == lm[i as int]);
            assert(lm.skip(i as int).drop_first() =~= lm.skip(i + 1));
        }
        let ghost at = out@;
        let t = trim_line(lines[i].as_str());
        let n = t.as_str().unicode_len();
        let marked = n >= 2 && t.as_str().get_char(0) == '#' && t.as_str().get_char(1) == '?';
        proof {
            reveal_strlit("#?");
            if n >= 2 {
                assert(t@.take(2) =~= seq![t@[0], t@[1]]);
                assert(("#?"@).len() == 2 && ("#?"@)[0] == '#' && ("#?"@)[1] == '?');
                if marked {
                    assert(t@.take(2) =~= "#?"@);
                } else {
                    assert(t@.take(2) != "#?"@);
                }
            }
        }
        if marked {
            // Strip every leading repetition of the marker.
            let mut j: usize = 0;
            proof {
                assert(t@.skip(0) =~= t@);
            }
            while n - j > 1 && t.as_str().get_char(j) == '#' && t.as_str().get_char(j + 1) == '?'
                invariant
                    j <= n,
                    n == t@.len(),
                    spec_strip_marks(t@) == spec_strip_marks(t@.skip(j as int)),
                decreases n - j,
            {
                proof {
                    reveal_strlit("#?");
                    assert(t@.skip(j as int).take(2) =~= seq![t@[j as int], t@[j + 1]]);
                    assert(t@.skip(j as int).take(2) =~= "#?"@);
                    assert(t@.skip(j as int).skip(2) =~= t@.skip(j + 2));
                }
                j = j + 2;
            }
            proof {
                reveal_strlit("#?");
                let rest = t@.skip(j as int);
                if rest.len() >= 2 {
                    assert(rest.take(2) =~= seq![t@[j as int], t@[j + 1]]);
                    assert(rest.take(2) != "#?"@);
                }
                assert(spec_strip_marks(rest) == rest);
            }
            out = out.concat(t.as_str().substring_char(j, n));
            proof {
                reveal_strlit("\n");
            }
            out = out.concat("\n");
            proof {
                assert(out@ =~= at + spec_desc_line(lm[i as int]));
            }
        } else {
            proof {
                assert(out@ =~= at + spec_desc_line(lm[i as int]));
            }
        }
        proof {
            assert(out@ + spec_text_box(lm.skip(i + 1)) =~= spec_text_box(lm));
        }
        i = i + 1;
    }
    proof {
        assert(lm.skip(lines@.len() as int) =~= Seq::<Seq<char>>::empty());
        assert(out@ + Seq::<char>::empty() =~= out@);
    }
    out
}

/// A workflow's description, as its annotated comment lines carry it: the
/// first blank-line-separated piece as a one-line header, the rest as the
/// body.
pub struct PipeDescription {
    pub header: String,
    pub body: Option<String>,
}

impl PipeDescription {
    /// Read a description text box: the text is cut at blank lines and
    /// each piece trimmed; the first piece, its newlines turned to
    /// spaces, is the header, and the remaining pieces joined by newlines
    /// are the body, absent when there is only the one piece.
    pub fn from_text_box(text: String) -> (r: Self)
        ensures
            ({
                let pieces = split2_acc(text@, Seq::empty()).map_values(
                    |p: Seq<char>| spec_trim(p),
                );
                &&& r.header@ == join_with(splitnl_acc(pieces[0], Seq::empty()), " "@)
                &&& (pieces.len() == 1 ==> r.body is None)
                &&& (pieces.len() > 1 ==> r.body is Some && r.body->Some_0@ == join_with(
                    pieces.skip(1),
                    "\n"@,
                ))
            }),
    {
        let raw = split_blank(text.as_str());
        let ghost pieces = split2_acc(text@, Seq::empty()).map_values(
            |p: Seq<char>| spec_trim(p),
        );
        let mut trimmed: Vec<String> = Vec::new();
        let mut i: usize = 0;
        while i < raw.len()
            invariant
                i <= raw@.len(),
                strings_of(raw@) == split2_acc(text@, Seq::empty()),
                pieces == split2_acc(text@, Seq::empty()).map_values(|p: Seq<char>| spec_trim(p)),
                trimmed@.len() == i,
                forall|k: int| 0 <= k < i ==> strings_of(trimmed@)[k] == pieces[k],
            decreases raw@.len() - i,
        {
            let ghost before = trimmed@;
            trimmed.push(trim_line(raw[i].as_str()));
            proof {
                assert(strings_of(trimmed@)[i as int] == pieces[i as int]);
                assert forall|k: int| 0 <= k < i + 1 implies strings_of(trimmed@)[k]
                    == pieces[k] by {
                    if k < i {
                        assert(strings_of(before)[k] == pieces[k]);
                        assert(trimmed@[k] == before[k]);
                    }
                }
            }
            i = i + 1;
        }
        proof {
            assert(strings_of(trimmed@) =~= pieces);
            lemma_split2_nonempty(text@, Seq::empty());
            assert(pieces.len() > 0);
        }
        let header = newlines_to_spaces(trimmed[0].as_str());
        if trimmed.len() == 1 {
            return PipeDescription { header, body: None };
        }
        // Join the remaining pieces with newlines.
        let mut body = trimmed[1].clone();
        proof {
            assert(pieces.skip(1).take(1) =~= seq![pieces[1]]);
            assert(body@ =~= join_with(pieces.skip(1).take(1), "\n"@));
        }
        let mut k: usize = 2;
        while k < trimmed.len()
            invariant
                2 <= k <= trimmed@.len(),
                trimmed@.len() >= 2,
                strings_of(trimmed@) == pieces,
                body@ == join_with(pieces.skip(1).take(k - 1), "\n"@),
            decreases trimmed@.len() - k,
        {
            proof {
                reveal_strlit("\n");
            }
            body = body.concat("\n");
            body = body.concat(trimmed[k].as_str());
            proof {
                assert(pieces.skip(1).take(k as int).drop_last() =~= pieces.skip(1).take(k - 1));
                assert(pieces.skip(1).take(k as int).last() == pieces[k as int]);
                assert(body@ =~= join_with(pieces.skip(1).take(k as int), "\n"@));
            }
            k = k + 1;
        }
        proof {
            assert(pieces.skip(1).take(trimmed@.len() - 1) =~= pieces.skip(1));
        }
        PipeDescription { header, body: Some(body) }
    }
}

/// The blank-line-separated pieces of a text, untrimmed.
fn split_blank(text: &str) -> (r: Vec<String>)
    ensures
        strings_of(r@) == split2_acc(text@, Seq::empty()),
{
    let n = text.unicode_len();
    let mut pieces: Vec<String> = Vec::new();
    let mut start: usize = 0;
    let mut i: usize = 0;
    proof {
        assert(text@.skip(0) =~= text@);
        assert(text@.subrange(0, 0) =~= Seq::<char>::empty());
    }
    while i < n
        invariant
            start <= i <= n,
            n == text@.len(),
            split2_acc(text@, Seq::empty()) == strings_of(pieces@) + split2_acc(
                text@.skip(i as int),
                text@.subrange(start as int, i as int),
            ),
        decreases n - i,
    {
        proof {
            assert(text@.skip(i as int)[0] == text@[i as int]);
            if i + 1 < n {
                assert(text@.skip(i as int)[1] == text@[i + 1]);
            }
            assert(text@.skip(i as int).drop_first() =~= text@.skip(i + 1));
        }
        let c = text.get_char(i);
        if i + 1 < n && c == '\n' && text.get_char(i + 1) == '\n' {
            let ghost before = strings_of(pieces@);
            pieces.push(text.substring_char(start, i).to_owned());
            proof {
                assert(strings_of(pieces@) =~= before + seq![
                    text@.subrange(start as int, i as int),
                ]);
                assert(text@.skip(i as int).skip(2) =~= text@.skip(i + 2));
                assert(text@.subrange(i + 2, i + 2) =~= Seq::<char>::empty());
            }
            start = i + 2;
            i = i + 2;
        } else {
            proof {
                assert(text@.subrange(start as int, i as int).push(text@[i as int])
                    =~= text@.subrange(start as int, i + 1));
            }
            i = i + 1;
        }
    }
    let ghost before = strings_of(pieces@);
    pieces.push(text.substring_char(start, n).to_owned());
    proof {
        assert(text@.skip(n as int) =~= Seq::<char>::empty());
        assert(strings_of(pieces@) =~= before + seq![text@.subrange(start as int, n as int)]);
        assert(strings_of(pieces@) =~= split2_acc(text@, Seq::empty()));
    }
    pieces
}

/// The text with every newline replaced by a space: its lines joined by
/// single spaces.
fn newlines_to_spaces(s: &str) -> (r: String)
    ensures
        r@ == join_with(splitnl_acc(s@, Seq::empty()), " "@),
{
    let n = s.unicode_len();
    let mut lines: Vec<String> = Vec::new();
    let mut start: usize = 0;
    let mut i: usize = 0;
    proof {
        assert(s@.skip(0) =~= s@);
        assert(s@.subrange(0, 0) =~= Seq::<char>::empty());
    }
    while i < n
        invariant
            start <= i <= n,
            n == s@.len(),
            splitnl_acc(s@, Seq::empty()) == strings_of(lines@) + splitnl_acc(
                s@.skip(i as int),
                s@.subrange(start as int, i as int),
            ),
        decreases n - i,
    {
        proof {
            assert(s@.skip(i as int)[0] == s@[i as int]);
            assert(s@.skip(i as int).drop_first() =~= s@.skip(i + 1));
        }
        let c = s.get_char(i);
        if c == '\n' {
            let ghost before = strings_of(lines@);
            lines.push(s.substring_char(start, i).to_owned());
            proof {
                assert(strings_of(lines@) =~= before + seq![s@.subrange(start as int, i as int)]);
                assert(s@.subrange(i + 1, i + 1) =~= Seq::<char>::empty());
            }
            start = i + 1;
        } else {
            proof {
                assert(s@.subrange(start as int, i as int).push(s@[i as int]) =~= s@.subrange(
                    start as int,
                    i + 1,
                ));
            }
        }
        i = i + 1;
    }
    let ghost parts = splitnl_acc(s@, Seq::empty());
    let last = s.substring_char(start, n).to_owned();
    proof {
        assert(s@.skip(n as int) =~= Seq::<char>::empty());
        assert(strings_of(lines@).push(last@) =~= parts);
    }
    if lines.len() == 0 {
        proof {
            assert(parts =~= seq![last@]);
        }
        return last;
    }
    let mut out: String = lines[0].clone();
    proof {
        assert(parts.take(1) =~= seq![parts[0]]);
        assert(out@ =~= join_with(parts.take(1), " "@));
    }
    let mut k: usize = 1;
    while k < lines.len()
        invariant
            1 <= k <= lines@.len(),
            parts == splitnl_acc(s@, Seq::empty()),
            strings_of(lines@).push(last@) == parts,
            parts.len() == lines@.len() + 1,
            out@ == join_with(parts.take(k as int), " "@),
        decreases lines@.len() - k,
    {
        proof {
            reveal_strlit(" ");
        }
        out = out.concat(" ");
        out = out.concat(lines[k].as_str());
        proof {
            assert(parts.take(k + 1).drop_last() =~= parts.take(k as int));
            assert(parts.take(k + 1).last() == parts[k as int]);
            assert(parts[k as int] == strings_of(lines@)[k as int]);
            assert(out@ =~= join_with(parts.take(k + 1), " "@));
        }
        k = k + 1;
    }
    proof {
        reveal_strlit(" ");
    }
    out = out.concat(" ");
    out = out.concat(last.as_str());
    proof {
        assert(parts.take(parts.len() as int) =~= parts);
        assert(parts.take(parts.len() as int).drop_last() =~= parts.take(parts.len() - 1));
        assert(parts.take(lines@.len() as int) =~= parts.take(parts.len() - 1));
        assert(parts.last() == last@);
        assert(out@ =~= join_with(parts, " "@));
    }
    out
}

/// The marker pair a pipe is listed with: how it runs (no container,
/// the default container, or its own), and whether a description body
/// exists.
pub open spec fn spec_display_prefix(env: Option<Seq<char>>, has_body: bool) -> Seq<char> {
    (match env {
        None => "\u{25fe}"@,
        Some(e) => if spec_file_stem(e) == "default"@ {
            "\u{1f41f}"@
        } else {
            "\u{1f40b}"@
        },
    }) + (if has_body {
        "\u{1f4dc}"@
    } else {
        "\u{25fe}"@
    })
}

/// A resolved workflow: the file to execute and, when one is configured,
/// the container definition to run it inside of.
pub struct Pipe {
    pub pipe_path: String,
    pub env_path: Option<String>,
}

impl Pipe {
    /// The name of the pipe: the stem of its file.
    pub fn name(&self) -> (r: String)
        ensures
            r@ == spec_file_stem(self.pipe_path@),
    {
        file_stem(self.pipe_path.as_str())
    }

    /// Turn the pipe into an executor rooted at `execution_dir`.
    pub fn into_executor(self, execution_dir: &str) -> (r: Result<Executor, StopError>)
        ensures
            Executor::spec_create_post(execution_dir@, self.pipe_path@, self.env_path, r),
    {
        Executor::create(execution_dir, self.pipe_path.as_str(), self.env_path)
    }

    /// Drop the environment file from this pipe: the workflow will run
    /// locally.
    pub fn drop_env(self) -> (r: Self)
        ensures
            r.pipe_path@ == self.pipe_path@,
            r.env_path is None,
    {
        Self { pipe_path: self.pipe_path, env_path: None }
    }

    /// Generate a long description for this pipe, from the parsed
    /// description of its workflow file: the marker line — container and
    /// description markers, the pipe's name, and the description header —
    /// followed by the description body when there is one.
    pub fn long_description(self, desc: Option<PipeDescription>) -> (r: String)
        ensures
            ({
                let env = match self.env_path {
                    Some(e) => Some(e@),
                    None => None::<Seq<char>>,
                };
                match desc {
                    None => r@ == "No description found."@,
                    Some(d) => {
                        let line = spec_display_prefix(env, d.body is Some) + " "@
                            + spec_file_stem(self.pipe_path@) + " :: "@ + d.header@;
                        match d.body {
                            Some(b) => r@ == line + "\n"@ + b@,
                            None => r@ == line,
                        }
                    },
                }
            }),
    {
        let d = match desc {
            None => {
                return "No description found.".to_owned();
            },
            Some(d) => d,
        };
        let env_mark: &str = match &self.env_path {
            None => "\u{25fe}",
            Some(e) => {
                let stem = file_stem(e.as_str());
                if str_eq(stem.as_str(), "default") {
                    "\u{1f41f}"
                } else {
                    "\u{1f40b}"
                }
            },
        };
        let desc_mark: &str = if d.body.is_some() {
            "\u{1f4dc}"
        } else {
            "\u{25fe}"
        };
        let mut line = env_mark.to_owned();
        line = line.concat(desc_mark);
        line = line.concat(" ");
        line = line.concat(self.name().as_str());
        line = line.concat(" :: ");
        line = line.concat(d.header.as_str());
        proof {
            reveal_strlit(" ");
        }
        match d.body {
            Some(b) => {
                proof {
                    reveal_strlit("\n");
                }
                line = line.concat("\n");
                line = line.concat(b.as_str());
                line
            },
            None => line,
        }
    }

    /// A pipe with the same paths.
    pub fn duplicate(&self) -> (r: Self)
        ensures
            r@ == self@,
    {
        Pipe {
            pipe_path: self.pipe_path.clone(),
            env_path: match &self.env_path {
                Some(e) => Some(e.clone()),
                None => None,
            },
        }
    }
}

/// A [`Pipe`] as contracts see it.
pub ghost struct PipeView {
    pub pipe_path: Seq<char>,
    pub env_path: Option<Seq<char>>,
}

impl View for Pipe {
    type V = PipeView;

    open spec fn view(&self) -> PipeView {
        PipeView {
            pipe_path: self.pipe_path@,
            env_path: match self.env_path {
                Some(ref e) => Some(e@),
                None => None,
            },
        }
    }
}

/// The views of a list of pipes.
pub open spec fn pipes_of(s: Seq<Pipe>) -> Seq<PipeView> {
    s.map_values(|p: Pipe| p@)
}

/// The pipe a name selects: of the pipes whose file stem is the name, the
/// last one listed.
pub open spec fn spec_find_pipe(ps: Seq<PipeView>, name: Seq<char>) -> Option<PipeView>
    decreases ps.len(),
{
    if ps.len() == 0 {
        None
    } else if spec_file_stem(ps.last().pipe_path) == name {
        Some(ps.last())
    } else {
        spec_find_pipe(ps.drop_last(), name)
    }
}

/// A path that names a workflow file: a makefile or a shell script.
pub open spec fn is_pipe_path(p: Seq<char>) -> bool {
    spec_extension(p) == Some("makefile"@) || spec_extension(p) == Some("sh"@)
}

/// A path that names a container definition.
pub open spec fn is_env_path(p: Seq<char>) -> bool {
    spec_extension(p) == Some("dockerfile"@)
}

/// The container definitions whose stem is `stem`, in listing order.
pub open spec fn matching_envs(envs: Seq<Seq<char>>, stem: Seq<char>) -> Seq<Seq<char>>
    decreases envs.len(),
{
    if envs.len() == 0 {
        Seq::empty()
    } else {
        let rest = matching_envs(envs.drop_first(), stem);
        if is_env_path(envs[0]) && spec_file_stem(envs[0]) == stem {
            seq![envs[0]] + rest
        } else {
            rest
        }
    }
}

/// The first container definition named `default`, if any.
pub open spec fn default_env(envs: Seq<Seq<char>>) -> Option<Seq<char>>
    decreases envs.len(),
{
    if envs.len() == 0 {
        None
    } else if is_env_path(envs[0]) && spec_file_stem(envs[0]) == "default"@ {
        Some(envs[0])
    } else {
        default_env(envs.drop_first())
    }
}

/// The pipes a pair of listings resolves to: every workflow file, paired
/// with each container definition sharing its stem, or with the `default`
/// definition (if any) when none does.
pub open spec fn spec_pipes(pipes: Seq<Seq<char>>, envs: Seq<Seq<char>>) -> Seq<PipeView>
    decreases pipes.len(),
{
    if pipes.len() == 0 {
        Seq::empty()
    } else {
        let rest = spec_pipes(pipes.drop_first(), envs);
        if !is_pipe_path(pipes[0]) {
            rest
        } else {
            let m = matching_envs(envs, spec_file_stem(pipes[0]));
            (if m.len() == 0 {
                seq![PipeView { pipe_path: pipes[0], env_path: default_env(envs) }]
            } else {
                m.map_values(|e: Seq<char>| PipeView { pipe_path: pipes[0], env_path: Some(e) })
            }) + rest
        }
    }
}

/// Whether a path carries this extension.
fn has_extension(p: &str, ext: &str) -> (r: bool)
    ensures
        r == (spec_extension(p@) == Some(ext@)),
{
    match extension_of(p) {
        Some(e) => str_eq(e.as_str(), ext),
        None => false,
    }
}

/// The container definitions whose stem matches.
fn matching_envs_exec(envs: &Vec<String>, stem: &str) -> (r: Vec<String>)
    ensures
        strings_of(r@) == matching_envs(strings_of(envs@), stem@),
{
    let ghost em = strings_of(envs@);
    let mut r: Vec<String> = Vec::new();
    let mut i: usize = 0;
    proof {
        assert(em.skip(0) =~= em);
        assert(strings_of(r@) + matching_envs(em, stem@) =~= matching_envs(em, stem@));
    }
    while i < envs.len()
        invariant
            i <= envs@.len(),
            em == strings_of(envs@),
            strings_of(r@) + matching_envs(em.skip(i as int), stem@) == matching_envs(em, stem@),
        decreases envs@.len() - i,
    {
        proof {
            assert(em.skip(i as int)[0] == em[i as int]);
            assert(em.skip(i as int).drop_first() =~= em.skip(i + 1));
        }
        let ghost before = strings_of(r@);
        if has_extension(envs[i].as_str(), "dockerfile") {
            let s = file_stem(envs[i].as_str());
            if str_eq(s.as_str(), stem) {
                r.push(envs[i].clone());
                proof {
                    assert(strings_of(r@) =~= before + seq![em[i as int]]);
                }
            }
        }
        proof {
            assert(strings_of(r@) + matching_envs(em.skip(i + 1), stem@) =~= matching_envs(
                em,
                stem@,
            ));
        }
        i = i + 1;
    }
    proof {
        assert(em.skip(envs@.len() as int) =~= Seq::<Seq<char>>::empty());
        assert(strings_of(r@) + Seq::<Seq<char>>::empty() =~= strings_of(r@));
    }
    r
}

/// The first container definition named `default`.
fn default_env_exec(envs: &Vec<String>) -> (r: Option<String>)
    ensures
        match r {
            Some(e) => default_env(strings_of(envs@)) == Some(e@),
            None => default_env(strings_of(envs@)) is None,
        },
{
    let ghost em = strings_of(envs@);
    let mut i: usize = 0;
    proof {
        assert(em.skip(0) =~= em);
    }
    while i < envs.len()
        invariant
            i <= envs@.len(),
            em == strings_of(envs@),
            default_env(em) == default_env(em.skip(i as int)),
        decreases envs@.len() - i,
    {
        proof {
            assert(em.skip(i as int)[0] == em[i as int]);
            assert(em.skip(i as int).drop_first() =~= em.skip(i + 1));
        }
        if has_extension(envs[i].as_str(), "dockerfile") {
            let s = file_stem(envs[i].as_str());
            if str_eq(s.as_str(), "default") {
                return Some(envs[i].clone());
            }
        }
        i = i + 1;
    }
    proof {
        assert(em.skip(envs@.len() as int) =~= Seq::<Seq<char>>::empty());
    }
    None
}

impl KerblamTomlOptions {
    /// Resolve two listings — workflow files and container definitions —
    /// into pipes: each workflow paired with every definition sharing its
    /// stem, or with the `default` one when none does.
    pub fn pipes(&self, pipes_paths: &Vec<String>, env_paths: &Vec<String>) -> (r: Vec<Pipe>)
        ensures
            pipes_of(r@) == spec_pipes(strings_of(pipes_paths@), strings_of(env_paths@)),
    {
        let ghost pm = strings_of(pipes_paths@);
        let ghost em = strings_of(env_paths@);
        let mut r: Vec<Pipe> = Vec::new();
        let mut i: usize = 0;
        proof {
            assert(pm.skip(0) =~= pm);
            assert(pipes_of(r@) + spec_pipes(pm, em) =~= spec_pipes(pm, em));
        }
        while i < pipes_paths.len()
            invariant
                i <= pipes_paths@.len(),
                pm == strings_of(pipes_paths@),
                em == strings_of(env_paths@),
                pipes_of(r@) + spec_pipes(pm.skip(i as int), em) == spec_pipes(pm, em),
            decreases pipes_paths@.len() - i,
        {
            proof {
                assert(pm.skip(i as int)[0] == pm[i as int]);
                assert(pm.skip(i as int).drop_first() =~= pm.skip(i + 1));
            }
            let ghost before = pipes_of(r@);
            let p = &pipes_paths[i];
            let is_make = has_extension(p.as_str(), "makefile");
            let is_sh = has_extension(p.as_str(), "sh");
            if is_make || is_sh {
                let stem = file_stem(p.as_str());
                let m = matching_envs_exec(env_paths, stem.as_str());
                let ghost mm = strings_of(m@);
                if m.len() == 0 {
                    let d = default_env_exec(env_paths);
                    r.push(Pipe { pipe_path: p.clone(), env_path: d });
                    proof {
                        assert(pipes_of(r@) =~= before + seq![
                            PipeView { pipe_path: pm[i as int], env_path: default_env(em) },
                        ]);
                    }
                } else {
                    let mut j: usize = 0;
                    while j < m.len()
                        invariant
                            j <= m@.len(),
                            mm == strings_of(m@),
                            pm == strings_of(pipes_paths@),
                            i < pipes_paths@.len(),
                            p == &pipes_paths@[i as int],
                            pipes_of(r@) =~= before + mm.take(j as int).map_values(
                                |e: Seq<char>| PipeView {
                                    pipe_path: pm[i as int],
                                    env_path: Some(e),
                                },
                            ),
                        decreases m@.len() - j,
                    {
                        let ghost at = pipes_of(r@);
                        r.push(Pipe { pipe_path: p.clone(), env_path: Some(m[j].clone()) });
                        proof {
                            assert(pipes_of(r@) =~= at.push(
                                PipeView { pipe_path: pm[i as int], env_path: Some(mm[j as int]) },
                            ));
                            assert(mm.take(j + 1) =~= mm.take(j as int).push(mm[j as int]));
                            assert(pipes_of(r@) =~= before + mm.take(j + 1).map_values(
                                |e: Seq<char>| PipeView {
                                    pipe_path: pm[i as int],
                                    env_path: Some(e),
                                },
                            ));
                        }
                        j = j + 1;
                    }
                    proof {
                        assert(mm.take(m@.len() as int) =~= mm);
                    }
                }
            }
            proof {
                assert(pipes_of(r@) + spec_pipes(pm.skip(i + 1), em) =~= spec_pipes(pm, em));
            }
            i = i + 1;
        }
        proof {
            assert(pm.skip(pipes_paths@.len() as int) =~= Seq::<Seq<char>>::empty());
            assert(pipes_of(r@) + Seq::<PipeView>::empty() =~= pipes_of(r@));
        }
        r
    }
}

/// Find a pipe by name or die trying.
///
/// No name at all, and a name no pipe carries, are both errors; otherwise
/// the pipe returned is the one [`spec_find_pipe`] selects.
pub fn find_pipe_by_name(pipes: &Vec<Pipe>, pipe_name: Option<String>) -> (r: Result<
    Pipe,
    StopError,
>)
    ensures
        match r {
            Ok(p) => {
                &&& pipe_name is Some
                &&& spec_find_pipe(pipes_of(pipes@), pipe_name->Some_0@) == Some(p@)
            },
            Err(_) => pipe_name is None || spec_find_pipe(
                pipes_of(pipes@),
                pipe_name->Some_0@,
            ) is None,
        },
{
    let name = match pipe_name {
        None => {
            return Err(StopError::new("No runtime specified.".to_owned()));
        },
        Some(n) => n,
    };
    let ghost pm = pipes_of(pipes@);
    let mut j: usize = pipes.len();
    proof {
        assert(pm.take(pipes@.len() as int) =~= pm);
    }
    while j > 0
        invariant
            j <= pm.len(),
            pm == pipes_of(pipes@),
            pipe_name == Some(name),
            spec_find_pipe(pm, name@) == spec_find_pipe(pm.take(j as int), name@),
        decreases j,
    {
        proof {
            assert(pm.take(j as int).last() == pm[j - 1]);
            assert(pm.take(j as int).drop_last() =~= pm.take(j - 1));
        }
        let stem = file_stem(pipes[j - 1].pipe_path.as_str());
        if crate::paths::str_eq(stem.as_str(), name.as_str()) {
            proof {
                assert(pm[j - 1] == pipes@[j - 1]@);
                assert(spec_file_stem(pm[j - 1].pipe_path) == name@);
                assert(spec_find_pipe(pm.take(j as int), name@) == Some(pm[j - 1]));
                assert(pipe_name is Some && pipe_name->Some_0@ == name@);
            }
            return Ok(pipes[j - 1].duplicate());
        }
        j = j - 1;
    }
    proof {
        assert(pm.take(0) =~= Seq::<PipeView>::empty());
    }
    Err(StopError::new("Cannot find pipe with that name.".to_owned()))
}

} // verus!
