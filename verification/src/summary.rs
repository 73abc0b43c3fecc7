//! The human-readable change report: what a run changed, grouped by
//! directory and drawn as a tree.
//!
//! Every path a diff mentions, and every directory above it, becomes one
//! line: indented one step per level, annotated with the marker of the
//! path's most recent change.  Directories with no recorded change of
//! their own still appear when a changed descendant needs them.

use crate::filesystem_state::ChangeType;
use crate::filesystem_state::FileChangeView;
use crate::filesystem_state::FilesystemDiff;
use crate::filesystem_state::changes_of;
use crate::paths::spec_file_name;
use crate::paths::spec_strip_or_self;
use crate::paths::strings_of;
use crate::paths::str_eq;
use vstd::prelude::*;
use vstd::string::*;

verus! {

/// Strict lexicographic order on character sequences, by code point.
pub open spec fn spec_lex_lt(a: Seq<char>, b: Seq<char>) -> bool
    decreases a.len(),
{
    if b.len() == 0 {
        false
    } else if a.len() == 0 {
        true
    } else if a[0] != b[0] {
        a[0] < b[0]
    } else {
        spec_lex_lt(a.drop_first(), b.drop_first())
    }
}

/// Two sequences are equal, or one is lexicographically below the other.
pub proof fn lemma_lex_lt_total(a: Seq<char>, b: Seq<char>)
    ensures
        a == b || spec_lex_lt(a, b) || spec_lex_lt(b, a),
    decreases a.len(),
{
    if a.len() == 0 && b.len() == 0 {
        assert(a =~= b);
    } else if a.len() > 0 && b.len() > 0 {
        if a[0] == b[0] {
            lemma_lex_lt_total(a.drop_first(), b.drop_first());
            if a.drop_first() =~= b.drop_first() {
                assert(a =~= b) by {
                    assert(a.len() == b.len());
                    assert forall|i: int| 0 <= i < a.len() implies a[i] == b[i] by {
                        if i > 0 {
                            assert(a.drop_first()[i - 1] == a[i]);
                            assert(b.drop_first()[i - 1] == b[i]);
                        }
                    }
                }
            } else {
                assert(spec_lex_lt(a.drop_first(), b.drop_first()) || spec_lex_lt(
                    b.drop_first(),
                    a.drop_first(),
                ));
            }
        }
    }
}

/// The order is transitive.
pub proof fn lemma_lex_lt_trans(a: Seq<char>, b: Seq<char>, c: Seq<char>)
    requires
        spec_lex_lt(a, b),
        spec_lex_lt(b, c),
    ensures
        spec_lex_lt(a, c),
    decreases a.len(),
{
    if a.len() > 0 && b.len() > 0 && c.len() > 0 {
        if a[0] == b[0] && b[0] == c[0] {
            lemma_lex_lt_trans(a.drop_first(), b.drop_first(), c.drop_first());
        }
    }
}

/// Whether `a` sorts strictly below `b`.
fn lex_lt(a: &str, b: &str) -> (r: bool)
    ensures
        r == spec_lex_lt(a@, b@),
{
    let n = a.unicode_len();
    let m = b.unicode_len();
    let mut i: usize = 0;
    proof {
        assert(a@.skip(0) =~= a@);
        assert(b@.skip(0) =~= b@);
    }
    while i < n && i < m
        invariant
            i <= n,
            i <= m,
            n == a@.len(),
            m == b@.len(),
            spec_lex_lt(a@, b@) == spec_lex_lt(a@.skip(i as int), b@.skip(i as int)),
        decreases n - i,
    {
        proof {
            assert(a@.skip(i as int)[0] == a@[i as int]);
            assert(b@.skip(i as int)[0] == b@[i as int]);
            assert(a@.skip(i as int).drop_first() =~= a@.skip(i + 1));
            assert(b@.skip(i as int).drop_first() =~= b@.skip(i + 1));
        }
        let ca = a.get_char(i);
        let cb = b.get_char(i);
        if ca != cb {
            return ca < cb;
        }
        i = i + 1;
    }
    proof {
        if i == m {
            assert(b@.skip(i as int).len() == 0);
        } else {
            assert(a@.skip(i as int).len() == 0);
            assert(b@.skip(i as int).len() > 0);
        }
    }
    i == n && i < m
}

/// The same strings sorted strictly: each one once, in ascending order.
pub fn sorted_unique(paths: &Vec<String>) -> (r: Vec<String>)
    ensures
        forall|i: int, j: int|
            0 <= i < j < r@.len() ==> spec_lex_lt(
                #[trigger] strings_of(r@)[i],
                #[trigger] strings_of(r@)[j],
            ),
        forall|p: Seq<char>|
            #[trigger] strings_of(r@).contains(p) <==> strings_of(paths@).contains(p),
{
    let mut r: Vec<String> = Vec::new();
    let mut i: usize = 0;
    while i < paths.len()
        invariant
            i <= paths@.len(),
            forall|x: int, y: int|
                0 <= x < y < r@.len() ==> spec_lex_lt(
                    #[trigger] strings_of(r@)[x],
                    #[trigger] strings_of(r@)[y],
                ),
            forall|p: Seq<char>|
                #[trigger] strings_of(r@).contains(p) <==> strings_of(paths@).take(
                    i as int,
                ).contains(p),
        decreases paths@.len() - i,
    {
        let ghost before = r@;
        let p = &paths[i];
        let mut k: usize = 0;
        while k < r.len() && lex_lt(r[k].as_str(), p.as_str())
            invariant
                k <= r@.len(),
                r@ == before,
                forall|j: int| 0 <= j < k ==> spec_lex_lt(#[trigger] strings_of(r@)[j], p@),
            decreases r@.len() - k,
        {
            k = k + 1;
        }
        let duplicate = k < r.len() && str_eq(r[k].as_str(), p.as_str());
        if !duplicate {
            proof {
                if k < r@.len() {
                    lemma_lex_lt_total(p@, strings_of(r@)[k as int]);
                }
            }
            r.insert(k, p.clone());
            proof {
                let now = strings_of(r@);
                let was = strings_of(before);
                assert(now.len() == was.len() + 1);
                assert(now[k as int] == p@);
                assert(forall|j: int| 0 <= j < k ==> now[j] == was[j]);
                assert(forall|j: int| k < j < now.len() ==> now[j] == was[j - 1]);
                assert forall|x: int, y: int|
                    0 <= x < y < now.len() implies spec_lex_lt(#[trigger] now[x], #[trigger] now[y]) by {
                    if y < k {
                        assert(spec_lex_lt(was[x], was[y]));
                    } else if y == k {
                        assert(spec_lex_lt(was[x], p@));
                    } else if x == k {
                        // p sorts below the old occupant of slot k, which
                        // sorts at or below everything after it.
                        assert(spec_lex_lt(p@, was[k as int]));
                        if y > k + 1 {
                            lemma_lex_lt_trans(p@, was[k as int], was[y - 1]);
                        }
                    } else if x < k {
                        assert(spec_lex_lt(was[x], was[y - 1]));
                    } else {
                        assert(spec_lex_lt(was[x - 1], was[y - 1]));
                    }
                }
                assert forall|q: Seq<char>| #[trigger]
                    strings_of(r@).contains(q) implies strings_of(paths@).take(
                    i + 1,
                ).contains(q) by {
                    let idx = choose|idx: int| 0 <= idx < now.len() && now[idx] == q;
                    if idx == k {
                        assert(strings_of(paths@).take(i + 1)[i as int] == q);
                    } else {
                        let w: int = if idx < k {
                            idx
                        } else {
                            idx - 1
                        };
                        assert(was[w] == q);
                        assert(strings_of(before).contains(q));
                        let taken = strings_of(paths@).take(i as int);
                        let old_idx = choose|o: int| 0 <= o < taken.len() && taken[o] == q;
                        assert(strings_of(paths@).take(i + 1)[old_idx] == q);
                    }
                }
                assert forall|q: Seq<char>| #[trigger]
                    strings_of(paths@).take(i + 1).contains(q) implies strings_of(
                    r@,
                ).contains(q) by {
                    let taken = strings_of(paths@).take(i + 1);
                    let o = choose|o: int| 0 <= o < taken.len() && taken[o] == q;
                    if o == i as int {
                        assert(now[k as int] == q);
                    } else {
                        assert(strings_of(paths@).take(i as int)[o] == q);
                        assert(strings_of(before).contains(q));
                        let w = choose|w: int| #![auto] 0 <= w < was.len() && was[w] == q;
                        if w < k {
                            assert(now[w] == q);
                        } else {
                            assert(now[w + 1] == q);
                        }
                    }
                }
            }
        } else {
            proof {
                let now = strings_of(r@);
                assert(now[k as int] == p@);
                assert forall|q: Seq<char>| #[trigger]
                    strings_of(paths@).take(i + 1).contains(q) implies strings_of(
                    r@,
                ).contains(q) by {
                    let taken = strings_of(paths@).take(i + 1);
                    let o = choose|o: int| 0 <= o < taken.len() && taken[o] == q;
                    if o == i as int {
                        assert(now[k as int] == q);
                    } else {
                        assert(strings_of(paths@).take(i as int)[o] == q);
                    }
                }
                assert forall|q: Seq<char>| #[trigger]
                    strings_of(r@).contains(q) implies strings_of(paths@).take(
                    i + 1,
                ).contains(q) by {
                    assert(strings_of(paths@).take(i as int).contains(q));
                    let taken = strings_of(paths@).take(i as int);
                    let o = choose|o: int| 0 <= o < taken.len() && taken[o] == q;
                    assert(strings_of(paths@).take(i + 1)[o] == q);
                }
            }
        }
        i = i + 1;
    }
    proof {
        assert(strings_of(paths@).take(paths@.len() as int) =~= strings_of(paths@));
    }
    r
}

/// The character sequences of a list of change records.
pub open spec fn records_of(s: Seq<(String, ChangeType, u64)>) -> Seq<(Seq<char>, ChangeType, u64)> {
    s.map_values(|t: (String, ChangeType, u64)| (t.0@, t.1, t.2))
}

/// The records one diff contributes: each change's path made relative to
/// the project root when it lies under it, with the change's kind and the
/// time of the snapshot that saw it.
pub open spec fn spec_diff_records(d: FilesystemDiff, here: Seq<char>) -> Seq<
    (Seq<char>, ChangeType, u64),
> {
    changes_of(d).map_values(
        |c: FileChangeView| (spec_strip_or_self(here, c.path), c.change_type, d.to_time),
    )
}

/// The records of a whole run: every diff's, in order.
pub open spec fn spec_records(ds: Seq<FilesystemDiff>, here: Seq<char>) -> Seq<
    (Seq<char>, ChangeType, u64),
>
    decreases ds.len(),
{
    if ds.len() == 0 {
        Seq::empty()
    } else {
        spec_diff_records(ds[0], here) + spec_records(ds.drop_first(), here)
    }
}

/// The proper prefixes of `p` that end just before one of its first `i`
/// characters holding a separator: the directories above the path.
pub open spec fn ancestors_upto(p: Seq<char>, i: int) -> Seq<Seq<char>>
    decreases i,
{
    if i <= 0 {
        Seq::empty()
    } else {
        ancestors_upto(p, i - 1) + (if p[i - 1] == '/' && i - 1 > 0 {
            seq![p.take(i - 1)]
        } else {
            Seq::<Seq<char>>::empty()
        })
    }
}

/// The directories above a path, outermost first.
pub open spec fn spec_ancestors(p: Seq<char>) -> Seq<Seq<char>> {
    ancestors_upto(p, p.len() as int)
}

/// Every changed path together with every directory above it, ancestors
/// first, record by record.
pub open spec fn spec_closure(rs: Seq<(Seq<char>, ChangeType, u64)>) -> Seq<Seq<char>>
    decreases rs.len(),
{
    if rs.len() == 0 {
        Seq::empty()
    } else {
        spec_ancestors(rs[0].0) + seq![rs[0].0] + spec_closure(rs.drop_first())
    }
}

/// The most recent change recorded for `p`, the earliest listed winning a
/// tie, carried as a left fold over the records.
pub open spec fn spec_latest(
    rs: Seq<(Seq<char>, ChangeType, u64)>,
    p: Seq<char>,
    best: Option<(ChangeType, u64)>,
) -> Option<(ChangeType, u64)>
    decreases rs.len(),
{
    if rs.len() == 0 {
        best
    } else {
        let b2 = if rs[0].0 == p {
            match best {
                None => Some((rs[0].1, rs[0].2)),
                Some(b) => if rs[0].2 > b.1 {
                    Some((rs[0].1, rs[0].2))
                } else {
                    best
                },
            }
        } else {
            best
        };
        spec_latest(rs.drop_first(), p, b2)
    }
}

/// The marker a change kind is drawn with.
pub open spec fn spec_marker(c: ChangeType) -> Seq<char> {
    match c {
        ChangeType::Created => "\u{2728} "@,
        ChangeType::Deleted => "\u{1f5d1}\u{fe0f} "@,
        ChangeType::Modified => "\u{1f4dd} "@,
        ChangeType::Accessed => "\u{1f441}\u{fe0f} "@,
    }
}

/// How deep a path sits: one level per separator.
pub open spec fn spec_depth(p: Seq<char>) -> int
    decreases p.len(),
{
    if p.len() == 0 {
        0
    } else {
        spec_depth(p.drop_last()) + (if p.last() == '/' {
            1int
        } else {
            0int
        })
    }
}

/// Four spaces of indentation per level.
pub open spec fn spec_indent(d: int) -> Seq<char> {
    Seq::new((if d <= 0 {
        0
    } else {
        4 * d
    }) as nat, |i: int| ' ')
}

/// One line of the report: the path's name, indented to its level, led by
/// the marker of its most recent change when it has one.
pub open spec fn spec_line(p: Seq<char>, rs: Seq<(Seq<char>, ChangeType, u64)>) -> Seq<char> {
    spec_indent(spec_depth(p)) + (match spec_latest(rs, p, None) {
        Some(b) => spec_marker(b.0),
        None => Seq::<char>::empty(),
    }) + spec_file_name(p) + "\n"@
}

/// The report body: one line per listed path, in order.
pub open spec fn spec_render(
    sorted: Seq<Seq<char>>,
    rs: Seq<(Seq<char>, ChangeType, u64)>,
) -> Seq<char>
    decreases sorted.len(),
{
    if sorted.len() == 0 {
        Seq::empty()
    } else {
        spec_line(sorted[0], rs) + spec_render(sorted.drop_first(), rs)
    }
}

/// The directories above a path, outermost first.
fn ancestors(path: &str) -> (r: Vec<String>)
    ensures
        strings_of(r@) == spec_ancestors(path@),
{
    let n = path.unicode_len();
    let mut r: Vec<String> = Vec::new();
    let mut j: usize = 0;
    proof {
        assert(strings_of(r@) =~= ancestors_upto(path@, 0));
    }
    while j < n
        invariant
            j <= n,
            n == path@.len(),
            strings_of(r@) == ancestors_upto(path@, j as int),
        decreases n - j,
    {
        let ghost before = strings_of(r@);
        let c = path.get_char(j);
        if c == '/' && j > 0 {
            r.push(path.substring_char(0, j).to_owned());
            proof {
                assert(strings_of(r@) =~= before + seq![path@.take(j as int)]);
            }
        } else {
            proof {
                assert(strings_of(r@) =~= before + Seq::<Seq<char>>::empty());
            }
        }
        j = j + 1;
    }
    r
}

/// The records of a run, flattened in order.
fn collect_records(diffs: &Vec<FilesystemDiff>, here: &str) -> (r: Vec<(String, ChangeType, u64)>)
    ensures
        records_of(r@) == spec_records(diffs@, here@),
{
    let ghost dm = diffs@;
    let mut r: Vec<(String, ChangeType, u64)> = Vec::new();
    let mut i: usize = 0;
    proof {
        assert(dm.skip(0) =~= dm);
        assert(records_of(r@) + spec_records(dm, here@) =~= spec_records(dm, here@));
    }
    while i < diffs.len()
        invariant
            i <= diffs@.len(),
            dm == diffs@,
            records_of(r@) + spec_records(dm.skip(i as int), here@) == spec_records(dm, here@),
        decreases diffs@.len() - i,
    {
        proof {
            assert(dm.skip(i as int)[0] == dm[i as int]);
            assert(dm.skip(i as int).drop_first() =~= dm.skip(i + 1));
        }
        let d = &diffs[i];
        let ghost base = records_of(r@);
        let mut j: usize = 0;
        while j < d.changes.len()
            invariant
                j <= d.changes@.len(),
                dm == diffs@,
                i < dm.len(),
                d == &dm[i as int],
                base + spec_diff_records(dm[i as int], here@).take(j as int) == records_of(r@),
            decreases d.changes@.len() - j,
        {
            let ghost at = records_of(r@);
            let c = &d.changes[j];
            r.push((crate::paths::strip_or_self(c.path.as_str(), here), c.change_type, d.to_time));
            proof {
                let entry = spec_diff_records(dm[i as int], here@)[j as int];
                assert(records_of(r@) =~= at.push(entry));
                assert(spec_diff_records(dm[i as int], here@).take(j + 1)
                    =~= spec_diff_records(dm[i as int], here@).take(j as int).push(entry));
                assert(base + spec_diff_records(dm[i as int], here@).take(j + 1) =~= records_of(
                    r@,
                ));
            }
            j = j + 1;
        }
        proof {
            assert(spec_diff_records(dm[i as int], here@).take(d.changes@.len() as int)
                =~= spec_diff_records(dm[i as int], here@));
            assert(records_of(r@) + spec_records(dm.skip(i + 1), here@) =~= spec_records(
                dm,
                here@,
            ));
        }
        i = i + 1;
    }
    proof {
        assert(dm.skip(diffs@.len() as int) =~= Seq::<FilesystemDiff>::empty());
        assert(records_of(r@) + Seq::<(Seq<char>, ChangeType, u64)>::empty() =~= records_of(r@));
    }
    r
}

/// Every changed path and every directory above it, ancestors first.
fn closure_paths(records: &Vec<(String, ChangeType, u64)>) -> (r: Vec<String>)
    ensures
        strings_of(r@) == spec_closure(records_of(records@)),
{
    let ghost rm = records_of(records@);
    let mut r: Vec<String> = Vec::new();
    let mut i: usize = 0;
    proof {
        assert(rm.skip(0) =~= rm);
        assert(strings_of(r@) + spec_closure(rm) =~= spec_closure(rm));
    }
    while i < records.len()
        invariant
            i <= records@.len(),
            rm == records_of(records@),
            strings_of(r@) + spec_closure(rm.skip(i as int)) == spec_closure(rm),
        decreases records@.len() - i,
    {
        proof {
            assert(rm.skip(i as int)[0] == rm[i as int]);
            assert(rm.skip(i as int).drop_first() =~= rm.skip(i + 1));
        }
        let ghost before = strings_of(r@);
        let p = &records[i].0;
        let ups = ancestors(p.as_str());
        let mut k: usize = 0;
        while k < ups.len()
            invariant
                k <= ups@.len(),
                strings_of(ups@) == spec_ancestors(rm[i as int].0),
                i < rm.len(),
                rm == records_of(records@),
                strings_of(r@) == before + spec_ancestors(rm[i as int].0).take(k as int),
            decreases ups@.len() - k,
        {
            let ghost at = strings_of(r@);
            r.push(ups[k].clone());
            proof {
                assert(strings_of(r@) =~= at.push(spec_ancestors(rm[i as int].0)[k as int]));
                assert(spec_ancestors(rm[i as int].0).take(k + 1) =~= spec_ancestors(
                    rm[i as int].0,
                ).take(k as int).push(spec_ancestors(rm[i as int].0)[k as int]));
                assert(strings_of(r@) =~= before + spec_ancestors(rm[i as int].0).take(k + 1));
            }
            k = k + 1;
        }
        r.push(p.clone());
        proof {
            assert(spec_ancestors(rm[i as int].0).take(ups@.len() as int) =~= spec_ancestors(
                rm[i as int].0,
            ));
            assert(strings_of(r@) =~= before + spec_ancestors(rm[i as int].0) + seq![
                rm[i as int].0,
            ]);
            assert(strings_of(r@) + spec_closure(rm.skip(i + 1)) =~= spec_closure(rm));
        }
        i = i + 1;
    }
    proof {
        assert(rm.skip(records@.len() as int) =~= Seq::<(Seq<char>, ChangeType, u64)>::empty());
        assert(strings_of(r@) + Seq::<Seq<char>>::empty() =~= strings_of(r@));
    }
    r
}

/// The most recent change recorded for `path`, the earliest listed
/// winning a tie.
fn latest_change(records: &Vec<(String, ChangeType, u64)>, path: &str) -> (r: Option<
    (ChangeType, u64),
>)
    ensures
        r == spec_latest(records_of(records@), path@, None::<(ChangeType, u64)>),
{
    let ghost rm = records_of(records@);
    let mut best: Option<(ChangeType, u64)> = None;
    let mut i: usize = 0;
    proof {
        assert(rm.skip(0) =~= rm);
    }
    while i < records.len()
        invariant
            i <= records@.len(),
            rm == records_of(records@),
            spec_latest(rm, path@, None::<(ChangeType, u64)>) == spec_latest(
                rm.skip(i as int),
                path@,
                best,
            ),
        decreases records@.len() - i,
    {
        proof {
            assert(rm.skip(i as int)[0] == rm[i as int]);
            assert(rm.skip(i as int).drop_first() =~= rm.skip(i + 1));
        }
        if str_eq(records[i].0.as_str(), path) {
            let better = match &best {
                None => true,
                Some(b) => records[i].2 > b.1,
            };
            if better {
                best = Some((records[i].1, records[i].2));
            }
        }
        i = i + 1;
    }
    best
}

/// The report body for a listed set of paths: one line each, indented to
/// its level, named by its final component, annotated with its most
/// recent change.
pub fn build_tree_string(
    sorted: &Vec<String>,
    records: &Vec<(String, ChangeType, u64)>,
) -> (r: String)
    ensures
        r@ == spec_render(strings_of(sorted@), records_of(records@)),
{
    let ghost sm = strings_of(sorted@);
    let ghost rm = records_of(records@);
    let mut out = String::new();
    let mut i: usize = 0;
    proof {
        assert(sm.skip(0) =~= sm);
        assert(out@ + spec_render(sm, rm) =~= spec_render(sm, rm));
    }
    while i < sorted.len()
        invariant
            i <= sorted@.len(),
            sm == strings_of(sorted@),
            rm == records_of(records@),
            out@ + spec_render(sm.skip(i as int), rm) == spec_render(sm, rm),
        decreases sorted@.len() - i,
    {
        proof {
            assert(sm.skip(i as int)[0] == sm[i as int]);
            assert(sm.skip(i as int).drop_first() =~= sm.skip(i + 1));
        }
        let ghost at = out@;
        let p = &sorted[i];
        // Indentation: four spaces per level.
        let n = p.as_str().unicode_len();
        let mut depth: usize = 0;
        let mut j: usize = 0;
        proof {
            assert(p@.take(0) =~= Seq::<char>::empty());
        }
        while j < n
            invariant
                j <= n,
                n == p@.len(),
                depth <= j,
                depth as int == spec_depth(p@.take(j as int)),
            decreases n - j,
        {
            proof {
                assert(p@.take(j + 1).drop_last() =~= p@.take(j as int));
                assert(p@.take(j + 1).last() == p@[j as int]);
            }
            if p.as_str().get_char(j) == '/' {
                depth = depth + 1;
            }
            j = j + 1;
        }
        proof {
            assert(p@.take(n as int) =~= p@);
        }
        let mut k: usize = 0;
        while k < depth
            invariant
                k <= depth,
                out@ == at + spec_indent(k as int),
            decreases depth - k,
        {
            let ghost was = out@;
            proof {
                reveal_strlit("    ");
            }
            out = out.concat("    ");
            proof {
                assert(out@ =~= at + spec_indent(k + 1));
            }
            k = k + 1;
        }
        // Marker of the most recent change, if the path has one recorded.
        match latest_change(records, p.as_str()) {
            Some(b) => {
                let mark = match b.0 {
                    ChangeType::Created => "\u{2728} ",
                    ChangeType::Deleted => "\u{1f5d1}\u{fe0f} ",
                    ChangeType::Modified => "\u{1f4dd} ",
                    ChangeType::Accessed => "\u{1f441}\u{fe0f} ",
                };
                out = out.concat(mark);
            },
            None => {},
        }
        out = out.concat(crate::paths::file_name(p.as_str()).as_str());
        proof {
            reveal_strlit("\n");
        }
        out = out.concat("\n");
        proof {
            assert(out@ =~= at + spec_line(sm[i as int], rm));
            assert(out@ + spec_render(sm.skip(i + 1), rm) =~= spec_render(sm, rm));
        }
        i = i + 1;
    }
    proof {
        assert(sm.skip(sorted@.len() as int) =~= Seq::<Seq<char>>::empty());
        assert(out@ + Seq::<char>::empty() =~= out@);
    }
    out
}

/// Generate the human-readable tree summary of the filesystem changes a
/// run produced: every changed path and the directories above it, sorted,
/// one line each.  With no diffs at all, say so instead.
pub fn generate_tree_summary(diffs: &Vec<FilesystemDiff>, here: &str) -> (r: String)
    ensures
        diffs@.len() == 0 ==> r@ == "No changes detected."@,
        diffs@.len() > 0 ==> exists|sorted: Seq<Seq<char>>|
            {
                &&& (forall|x: int, y: int|
                    0 <= x < y < sorted.len() ==> spec_lex_lt(
                        #[trigger] sorted[x],
                        #[trigger] sorted[y],
                    ))
                &&& (forall|p: Seq<char>|
                    #[trigger] sorted.contains(p) <==> spec_closure(
                        spec_records(diffs@, here@),
                    ).contains(p))
                &&& r@ == "File System Changes:\n"@ + spec_render(
                    sorted,
                    spec_records(diffs@, here@),
                )
            },
{
    if diffs.len() == 0 {
        return "No changes detected.".to_owned();
    }
    let records = collect_records(diffs, here);
    let all_paths = closure_paths(&records);
    let sorted = sorted_unique(&all_paths);
    let body = build_tree_string(&sorted, &records);
    let r = "File System Changes:\n".to_owned().concat(body.as_str());
    proof {
        let ghost w = strings_of(sorted@);
        assert({
            &&& (forall|x: int, y: int|
                0 <= x < y < w.len() ==> spec_lex_lt(#[trigger] w[x], #[trigger] w[y]))
            &&& (forall|p: Seq<char>|
                #[trigger] w.contains(p) <==> spec_closure(spec_records(diffs@, here@)).contains(
                    p,
                ))
            &&& r@ == "File System Changes:\n"@ + spec_render(w, spec_records(diffs@, here@))
        });
    }
    r
}

} // verus!
