//! Plain-string path arithmetic.
//!
//! Paths are ordinary `String`s whose components are separated by `/`.  Every
//! operation is specified over the character sequence of the path, so callers
//! can reason exactly about the strings they pass to the filesystem shell.

use vstd::prelude::*;
use vstd::string::*;

verus! {

/// What joining `rel` under `base` yields: an absolute `rel` stands on its
/// own; otherwise the two glued with a single separator, unless `base`
/// already ends in one.
pub open spec fn spec_join(base: Seq<char>, rel: Seq<char>) -> Seq<char> {
    if rel.len() > 0 && rel[0] == '/' {
        rel
    } else if base.len() > 0 && base.last() == '/' {
        base + rel
    } else {
        base + seq!['/'] + rel
    }
}

/// The character sequences of a list of strings.
pub open spec fn strings_of(v: Seq<String>) -> Seq<Seq<char>> {
    v.map_values(|s: String| s@)
}

/// Whether two strings hold the same characters.
pub fn str_eq(a: &str, b: &str) -> (r: bool)
    ensures
        r == (a@ == b@),
{
    let x = a.to_owned();
    let y = b.to_owned();
    x == y
}

/// Push a bit of a string to the end of this path.
///
/// Useful to add an extension or a salt fragment to a path.
pub fn push_fragment(buffer: &str, ext: &str) -> (r: String)
    ensures
        r@ == buffer@ + ext@,
{
    let s = buffer.to_owned();
    s.concat(ext)
}

/// Index where the final path component begins: just past the last
/// separator, 0 when there is none.
pub open spec fn base_start(s: Seq<char>) -> int
    decreases s.len(),
{
    if s.len() == 0 {
        0
    } else if s.last() == '/' {
        s.len() as int
    } else {
        base_start(s.drop_last())
    }
}

/// The final component of a path: everything past the last separator.
pub open spec fn spec_file_name(s: Seq<char>) -> Seq<char> {
    s.subrange(base_start(s), s.len() as int)
}

/// Index of the last `.` of a file name that does not lead it, or -1 when
/// there is none: `a.sh` yields 1, `.bashrc` and `plain` yield -1.
pub open spec fn dot_split(name: Seq<char>) -> int
    decreases name.len(),
{
    if name.len() <= 1 {
        -1
    } else if name.last() == '.' {
        name.len() - 1
    } else {
        dot_split(name.drop_last())
    }
}

/// The extension of a path's final component: what follows its last
/// non-leading dot, if any.
pub open spec fn spec_extension(s: Seq<char>) -> Option<Seq<char>> {
    let name = spec_file_name(s);
    let d = dot_split(name);
    if d < 0 {
        None
    } else {
        Some(name.subrange(d + 1, name.len() as int))
    }
}

/// The stem of a path's final component: the component without its
/// extension.
pub open spec fn spec_file_stem(s: Seq<char>) -> Seq<char> {
    let name = spec_file_name(s);
    let d = dot_split(name);
    if d < 0 {
        name
    } else {
        name.subrange(0, d)
    }
}

/// Index of the first `.` of a name, or its length when there is none.
pub open spec fn first_dot(name: Seq<char>) -> int
    decreases name.len(),
{
    if name.len() == 0 {
        0
    } else if name[0] == '.' {
        0
    } else {
        1 + first_dot(name.drop_first())
    }
}

/// `prefix` leads `path` on a component boundary: they are equal, or the
/// next character of `path` is a separator, or `prefix` itself ends in one.
pub open spec fn is_path_prefix(prefix: Seq<char>, path: Seq<char>) -> bool {
    &&& prefix.len() <= path.len()
    &&& path.subrange(0, prefix.len() as int) == prefix
    &&& (path.len() == prefix.len() || path[prefix.len() as int] == '/' || (prefix.len() > 0
        && prefix.last() == '/'))
}

/// What is left of `path` once `prefix` is taken off its front, the
/// separator between them included (meaningful when [`is_path_prefix`]
/// holds).
pub open spec fn spec_strip_prefix(prefix: Seq<char>, path: Seq<char>) -> Seq<char> {
    if path.len() > prefix.len() && path[prefix.len() as int] == '/' && !(prefix.len() > 0
        && prefix.last() == '/') {
        path.subrange(prefix.len() as int + 1, path.len() as int)
    } else {
        path.subrange(prefix.len() as int, path.len() as int)
    }
}

/// `path` with `prefix` stripped when it leads it on a component boundary,
/// `path` itself otherwise.
pub open spec fn spec_strip_or_self(prefix: Seq<char>, path: Seq<char>) -> Seq<char> {
    if is_path_prefix(prefix, path) {
        spec_strip_prefix(prefix, path)
    } else {
        path
    }
}

/// Strip `prefix` off `path` when it leads it; otherwise keep `path`.
pub fn strip_or_self(path: &str, prefix: &str) -> (r: String)
    ensures
        r@ == spec_strip_or_self(prefix@, path@),
{
    match strip_prefix_path(path, prefix) {
        Some(rest) => rest,
        None => path.to_owned(),
    }
}

/// Join a fragment under a base directory; an absolute fragment wins.
pub fn join_path(base: &str, rel: &str) -> (r: String)
    ensures
        r@ == spec_join(base@, rel@),
{
    let m = rel.unicode_len();
    if m > 0 && rel.get_char(0) == '/' {
        return rel.to_owned();
    }
    let n = base.unicode_len();
    if n > 0 && base.get_char(n - 1) == '/' {
        push_fragment(base, rel)
    } else {
        proof {
            reveal_strlit("/");
        }
        let s = base.to_owned().concat("/");
        s.concat(rel)
    }
}

/// The final component of a path.
pub fn file_name(path: &str) -> (r: String)
    ensures
        r@ == spec_file_name(path@),
{
    let n = path.unicode_len();
    let mut j: usize = n;
    proof {
        assert(path@.take(n as int) =~= path@);
    }
    while j > 0
        invariant
            j <= n,
            n == path@.len(),
            base_start(path@) == base_start(path@.take(j as int)),
            forall|k: int| j <= k < n ==> path@[k] != '/',
        decreases j,
    {
        let c = path.get_char(j - 1);
        proof {
            assert(path@.take(j as int).last() == path@[j - 1]);
            assert(path@.take(j as int).drop_last() =~= path@.take(j - 1));
        }
        if c == '/' {
            proof {
                assert(base_start(path@) == j as int);
            }
            return path.substring_char(j, n).to_owned();
        }
        j = j - 1;
    }
    proof {
        assert(path@.take(0) =~= Seq::<char>::empty());
        assert(base_start(path@) == 0);
    }
    path.substring_char(0, n).to_owned()
}

/// Everything up to and including the last separator of a path: the
/// directory part the final component lives in.
pub fn dir_part(path: &str) -> (r: String)
    ensures
        r@ == path@.take(base_start(path@)),
{
    let n = path.unicode_len();
    let mut j: usize = n;
    proof {
        assert(path@.take(n as int) =~= path@);
    }
    while j > 0
        invariant
            j <= n,
            n == path@.len(),
            base_start(path@) == base_start(path@.take(j as int)),
        decreases j,
    {
        let c = path.get_char(j - 1);
        proof {
            assert(path@.take(j as int).last() == path@[j - 1]);
            assert(path@.take(j as int).drop_last() =~= path@.take(j - 1));
        }
        if c == '/' {
            proof {
                assert(base_start(path@) == j as int);
            }
            return path.substring_char(0, j).to_owned();
        }
        j = j - 1;
    }
    proof {
        assert(path@.take(0) =~= Seq::<char>::empty());
        assert(base_start(path@) == 0);
    }
    String::new()
}

/// Where the last non-leading dot of `name` sits, shifted by one: 0 when
/// there is none, `d + 1` when it sits at `d`.
fn find_dot(name: &str) -> (r: usize)
    ensures
        r as int == dot_split(name@) + 1,
{
    let n = name.unicode_len();
    let mut j: usize = n;
    proof {
        assert(name@.take(n as int) =~= name@);
    }
    while j > 1
        invariant
            j <= n,
            n == name@.len(),
            dot_split(name@) == dot_split(name@.take(j as int)),
        decreases j,
    {
        let c = name.get_char(j - 1);
        proof {
            assert(name@.take(j as int).last() == name@[j - 1]);
            assert(name@.take(j as int).drop_last() =~= name@.take(j - 1));
        }
        if c == '.' {
            return j;
        }
        j = j - 1;
    }
    0
}

/// The last non-leading dot of a name sits before its end.
proof fn lemma_dot_split_bounds(name: Seq<char>)
    ensures
        -1 <= dot_split(name) && dot_split(name) < name.len(),
    decreases name.len(),
{
    if name.len() > 1 && name.last() != '.' {
        lemma_dot_split_bounds(name.drop_last());
    }
}

/// The extension of a path's final component, if it has one.
pub fn extension_of(path: &str) -> (r: Option<String>)
    ensures
        match r {
            Some(e) => spec_extension(path@) == Some(e@),
            None => spec_extension(path@) is None,
        },
{
    let name = file_name(path);
    let d = find_dot(name.as_str());
    proof {
        lemma_dot_split_bounds(name@);
    }
    if d == 0 {
        None
    } else {
        let n = name.as_str().unicode_len();
        Some(name.as_str().substring_char(d, n).to_owned())
    }
}

/// A path's final component without its extension.
pub fn file_stem(path: &str) -> (r: String)
    ensures
        r@ == spec_file_stem(path@),
{
    let name = file_name(path);
    let d = find_dot(name.as_str());
    proof {
        lemma_dot_split_bounds(name@);
    }
    if d == 0 {
        name
    } else {
        name.as_str().substring_char(0, d - 1).to_owned()
    }
}

/// A name cut at its first dot: `env.dockerfile` yields `env`.
pub fn name_before_first_dot(name: &str) -> (r: String)
    ensures
        r@ == name@.take(first_dot(name@)),
{
    let n = name.unicode_len();
    let mut i: usize = 0;
    while i < n
        invariant
            i <= n,
            n == name@.len(),
            forall|k: int| 0 <= k < i ==> name@[k] != '.',
        decreases n - i,
    {
        let c = name.get_char(i);
        if c == '.' {
            proof {
                lemma_first_dot_at(name@, i as int);
            }
            return name.substring_char(0, i).to_owned();
        }
        i = i + 1;
    }
    proof {
        lemma_first_dot_at(name@, n as int);
        assert(name@.take(n as int) =~= name@);
    }
    name.substring_char(0, n).to_owned()
}

/// Where the first dot sits, given how far a scan has come without one.
proof fn lemma_first_dot_at(name: Seq<char>, i: int)
    requires
        0 <= i <= name.len(),
        forall|k: int| 0 <= k < i ==> name[k] != '.',
        i < name.len() ==> name[i] == '.',
    ensures
        first_dot(name) == i,
    decreases i,
{
    if i > 0 {
        lemma_first_dot_at(name.drop_first(), i - 1);
    }
}

/// Whether `prefix` leads `path` on a component boundary.
pub fn starts_with_path(path: &str, prefix: &str) -> (r: bool)
    ensures
        r == is_path_prefix(prefix@, path@),
{
    let n = path.unicode_len();
    let m = prefix.unicode_len();
    if m > n {
        return false;
    }
    let mut i: usize = 0;
    while i < m
        invariant
            i <= m <= n,
            n == path@.len(),
            m == prefix@.len(),
            forall|k: int| 0 <= k < i ==> path@[k] == prefix@[k],
        decreases m - i,
    {
        if path.get_char(i) != prefix.get_char(i) {
            proof {
                assert(path@.subrange(0, m as int)[i as int] != prefix@[i as int]);
            }
            return false;
        }
        i = i + 1;
    }
    proof {
        assert(path@.subrange(0, m as int) =~= prefix@);
    }
    if n == m {
        return true;
    }
    if path.get_char(m) == '/' {
        return true;
    }
    if m > 0 && prefix.get_char(m - 1) == '/' {
        return true;
    }
    false
}

/// Strip `prefix` off the front of `path`, the separator between them
/// included; `None` when `prefix` does not lead `path` on a component
/// boundary.
pub fn strip_prefix_path(path: &str, prefix: &str) -> (r: Option<String>)
    ensures
        match r {
            Some(rest) => is_path_prefix(prefix@, path@) && rest@ == spec_strip_prefix(
                prefix@,
                path@,
            ),
            None => !is_path_prefix(prefix@, path@),
        },
{
    if !starts_with_path(path, prefix) {
        return None;
    }
    let n = path.unicode_len();
    let m = prefix.unicode_len();
    let endsep = m > 0 && prefix.get_char(m - 1) == '/';
    if n > m && !endsep {
        if path.get_char(m) == '/' {
            return Some(path.substring_char(m + 1, n).to_owned());
        }
    }
    Some(path.substring_char(m, n).to_owned())
}

/// The components of a path, split at every separator: the characters of
/// `rest` walked with `cur` as the component being read.
pub open spec fn split_acc(rest: Seq<char>, cur: Seq<char>) -> Seq<Seq<char>>
    decreases rest.len(),
{
    if rest.len() == 0 {
        seq![cur]
    } else if rest[0] == '/' {
        seq![cur] + split_acc(rest.drop_first(), Seq::empty())
    } else {
        split_acc(rest.drop_first(), cur.push(rest[0]))
    }
}

/// The components of a path: what stands between the separators, empty
/// components included.
pub open spec fn split_comps(s: Seq<char>) -> Seq<Seq<char>> {
    split_acc(s, Seq::empty())
}

/// Normalization of components: empty ones and `.` vanish, `..` drops the
/// last kept component (nothing at the root or start), anything else is
/// kept.
pub open spec fn norm_acc(comps: Seq<Seq<char>>, acc: Seq<Seq<char>>) -> Seq<Seq<char>>
    decreases comps.len(),
{
    if comps.len() == 0 {
        acc
    } else {
        let c = comps[0];
        let acc2 = if c.len() == 0 || c == "."@ {
            acc
        } else if c == ".."@ {
            if acc.len() > 0 {
                acc.drop_last()
            } else {
                acc
            }
        } else {
            acc.push(c)
        };
        norm_acc(comps.drop_first(), acc2)
    }
}

/// Components glued back together, a leading separator when the path is
/// absolute.
pub open spec fn join_comps(abs: bool, acc: Seq<Seq<char>>) -> Seq<char>
    decreases acc.len(),
{
    if acc.len() == 0 {
        if abs {
            "/"@
        } else {
            Seq::empty()
        }
    } else if acc.len() == 1 {
        (if abs {
            "/"@
        } else {
            Seq::<char>::empty()
        }) + acc[0]
    } else {
        join_comps(abs, acc.drop_last()) + "/"@ + acc.last()
    }
}

/// What normalizing a path yields: its components cleaned of `.`, empty
/// runs and resolvable `..`, glued back together.
pub open spec fn spec_normalize(s: Seq<char>) -> Seq<char> {
    join_comps(s.len() > 0 && s[0] == '/', norm_acc(split_comps(s), Seq::empty()))
}

/// Normalize a path without touching the filesystem: drop `.` and empty
/// components, resolve `..` against the components before it, and keep a
/// leading separator.
pub fn normalize_path(path: &str) -> (r: String)
    ensures
        r@ == spec_normalize(path@),
{
    let n = path.unicode_len();
    let abs = n > 0 && path.get_char(0) == '/';
    // Split into components.
    let mut comps: Vec<String> = Vec::new();
    let mut start: usize = 0;
    let mut i: usize = 0;
    proof {
        assert(path@.skip(0) =~= path@);
        assert(path@.subrange(0, 0) =~= Seq::<char>::empty());
    }
    while i < n
        invariant
            start <= i <= n,
            n == path@.len(),
            split_comps(path@) == strings_of(comps@) + split_acc(
                path@.skip(i as int),
                path@.subrange(start as int, i as int),
            ),
        decreases n - i,
    {
        proof {
            assert(path@.skip(i as int)[0] == path@[i as int]);
            assert(path@.skip(i as int).drop_first() =~= path@.skip(i + 1));
        }
        let c = path.get_char(i);
        if c == '/' {
            let ghost before = strings_of(comps@);
            comps.push(path.substring_char(start, i).to_owned());
            proof {
                assert(strings_of(comps@) =~= before + seq![
                    path@.subrange(start as int, i as int),
                ]);
                assert(path@.subrange(i + 1, i + 1) =~= Seq::<char>::empty());
            }
            start = i + 1;
        } else {
            proof {
                assert(path@.subrange(start as int, i as int).push(path@[i as int])
                    =~= path@.subrange(start as int, i + 1));
            }
        }
        i = i + 1;
    }
    let ghost before = strings_of(comps@);
    comps.push(path.substring_char(start, n).to_owned());
    proof {
        assert(path@.skip(n as int) =~= Seq::<char>::empty());
        assert(strings_of(comps@) =~= before + seq![path@.subrange(start as int, n as int)]);
        assert(strings_of(comps@) =~= split_comps(path@));
    }
    // Normalize the components.
    let ghost cm = strings_of(comps@);
    let mut acc: Vec<String> = Vec::new();
    let mut j: usize = 0;
    proof {
        assert(cm.skip(0) =~= cm);
        assert(strings_of(acc@) =~= Seq::<Seq<char>>::empty());
    }
    while j < comps.len()
        invariant
            j <= comps@.len(),
            cm == strings_of(comps@),
            norm_acc(cm, Seq::empty()) == norm_acc(cm.skip(j as int), strings_of(acc@)),
        decreases comps@.len() - j,
    {
        proof {
            assert(cm.skip(j as int)[0] == cm[j as int]);
            assert(cm.skip(j as int).drop_first() =~= cm.skip(j + 1));
        }
        let c = &comps[j];
        if c.as_str().unicode_len() == 0 || str_eq(c.as_str(), ".") {
            // dropped
        } else if str_eq(c.as_str(), "..") {
            let ghost before_acc = strings_of(acc@);
            if acc.len() > 0 {
                acc.pop();
                proof {
                    assert(strings_of(acc@) =~= before_acc.drop_last());
                }
            }
        } else {
            let ghost before_acc = strings_of(acc@);
            acc.push(c.clone());
            proof {
                assert(strings_of(acc@) =~= before_acc.push(cm[j as int]));
            }
        }
        j = j + 1;
    }
    proof {
        assert(cm.skip(comps@.len() as int) =~= Seq::<Seq<char>>::empty());
        assert(norm_acc(cm, Seq::empty()) == strings_of(acc@));
    }
    // Glue the kept components back together.
    let ghost am = strings_of(acc@);
    let mut r: String = String::new();
    if acc.len() == 0 {
        if abs {
            proof {
                assert(am.len() == 0);
            }
            return "/".to_owned();
        }
        proof {
            assert(r@ =~= join_comps(false, am));
        }
        return r;
    }
    if abs {
        r = "/".to_owned();
    }
    r = r.concat(acc[0].as_str());
    proof {
        assert(am.take(1) =~= seq![am[0]]);
        assert(r@ =~= join_comps(abs, am.take(1)));
    }
    let mut k: usize = 1;
    while k < acc.len()
        invariant
            1 <= k <= acc@.len(),
            am == strings_of(acc@),
            am.len() == acc@.len(),
            r@ == join_comps(abs, am.take(k as int)),
        decreases acc@.len() - k,
    {
        proof {
            reveal_strlit("/");
        }
        r = r.concat("/");
        r = r.concat(acc[k].as_str());
        proof {
            assert(am.take(k + 1).drop_last() =~= am.take(k as int));
            assert(am.take(k + 1).last() == am[k as int]);
            assert(r@ =~= join_comps(abs, am.take(k + 1)));
        }
        k = k + 1;
    }
    proof {
        assert(am.take(acc@.len() as int) =~= am);
    }
    r
}

} // verus!
