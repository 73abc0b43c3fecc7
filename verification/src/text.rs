//! Line-list cleanup used when merging ignore-pattern files: collapse runs
//! of blank lines and trim trailing whitespace off kept lines.

use vstd::prelude::*;
use vstd::string::*;

verus! {

/// A whitespace character as a line is judged blank by: space, tab or
/// newline.
pub open spec fn spec_is_ws_char(c: char) -> bool {
    c == ' ' || c == '\t' || c == '\n'
}

/// A character trimmed off the end of a kept line: the blank-line characters
/// and the carriage return.
pub open spec fn spec_is_trim_char(c: char) -> bool {
    spec_is_ws_char(c) || c == '\r'
}

/// A line made only of whitespace (the empty line included).
pub open spec fn spec_is_whitespace(s: Seq<char>) -> bool {
    forall|j: int| 0 <= j < s.len() ==> spec_is_ws_char(#[trigger] s[j])
}

/// `s` with every trailing trim character removed.
pub open spec fn spec_trim_end(s: Seq<char>) -> Seq<char>
    decreases s.len(),
{
    if s.len() == 0 {
        s
    } else if spec_is_trim_char(s.last()) {
        spec_trim_end(s.drop_last())
    } else {
        s
    }
}

/// The index of the first line that is not whitespace, or the length when
/// every line is.
pub open spec fn first_non_ws(items: Seq<Seq<char>>) -> int
    decreases items.len(),
{
    if items.len() == 0 {
        0
    } else if !spec_is_whitespace(items[0]) {
        0
    } else {
        1 + first_non_ws(items.drop_first())
    }
}

/// The lines the compression loop emits, walking `rest` with `prev` as the
/// line held back: a whitespace line following a whitespace `prev` is
/// dropped; otherwise `prev` is emitted trimmed and the line takes its
/// place.  The line held back at the end is never emitted here.
pub open spec fn spec_compress_step(prev: Seq<char>, rest: Seq<Seq<char>>) -> Seq<Seq<char>>
    decreases rest.len(),
{
    if rest.len() == 0 {
        Seq::empty()
    } else if spec_is_whitespace(prev) && spec_is_whitespace(rest[0]) {
        spec_compress_step(prev, rest.drop_first())
    } else {
        seq![spec_trim_end(prev)] + spec_compress_step(rest[0], rest.drop_first())
    }
}

/// What compressing a list of lines yields: fewer than two lines are left
/// alone; otherwise the leading whitespace lines are skipped, the loop of
/// [`spec_compress_step`] runs from the first line that is not whitespace,
/// and the last line is appended untrimmed when it is not whitespace.
pub open spec fn spec_compress(items: Seq<Seq<char>>) -> Seq<Seq<char>> {
    if items.len() < 2 {
        items
    } else {
        let k = first_non_ws(items);
        let tail: Seq<Seq<char>> = if !spec_is_whitespace(items.last()) {
            seq![items.last()]
        } else {
            Seq::empty()
        };
        if k == items.len() {
            tail
        } else {
            spec_compress_step(items[k], items.skip(k + 1)) + tail
        }
    }
}

/// The character sequences of a list of lines.
pub open spec fn deep_view_of(items: Seq<String>) -> Seq<Seq<char>> {
    items.map_values(|s: String| s@)
}

/// Whether a line holds nothing but spaces, tabs and newlines.
pub fn is_whitespace(item: &str) -> (r: bool)
    ensures
        r == spec_is_whitespace(item@),
{
    let n = item.unicode_len();
    let mut i: usize = 0;
    while i < n
        invariant
            i <= n,
            n == item@.len(),
            forall|j: int| 0 <= j < i ==> spec_is_ws_char(#[trigger] item@[j]),
        decreases n - i,
    {
        let c = item.get_char(i);
        if !(c == ' ' || c == '\t' || c == '\n') {
            assert(!spec_is_ws_char(item@[i as int]));
            return false;
        }
        i = i + 1;
    }
    true
}

/// `line` with trailing spaces, tabs, newlines and carriage returns removed.
pub fn trim_end_line(line: &str) -> (r: String)
    ensures
        r@ == spec_trim_end(line@),
{
    let n = line.unicode_len();
    let mut j: usize = n;
    proof {
        assert(line@.take(n as int) =~= line@);
    }
    while j > 0
        invariant
            j <= n,
            n == line@.len(),
            spec_trim_end(line@) == spec_trim_end(line@.take(j as int)),
        decreases j,
    {
        let c = line.get_char(j - 1);
        if !(c == ' ' || c == '\t' || c == '\n' || c == '\r') {
            proof {
                assert(line@.take(j as int).last() == line@[j - 1]);
                assert(spec_trim_end(line@.take(j as int)) == line@.take(j as int));
            }
            return line.substring_char(0, j).to_owned();
        }
        proof {
            assert(line@.take(j as int).last() == line@[j - 1]);
            assert(line@.take(j as int).drop_last() =~= line@.take(j - 1));
        }
        j = j - 1;
    }
    proof {
        assert(line@.take(0) =~= Seq::<char>::empty());
    }
    String::new()
}

/// Where the first line that is not whitespace stands, given how far the
/// scan has come.
proof fn lemma_first_non_ws_at(items: Seq<Seq<char>>, k: int)
    requires
        0 <= k <= items.len(),
        forall|j: int| 0 <= j < k ==> spec_is_whitespace(#[trigger] items[j]),
        k < items.len() ==> !spec_is_whitespace(items[k]),
    ensures
        first_non_ws(items) == k,
    decreases k,
{
    if k == 0 {
    } else {
        assert(spec_is_whitespace(items[0]));
        lemma_first_non_ws_at(items.drop_first(), k - 1);
    }
}

/// Collapse runs of whitespace lines: of each run only one line is kept (and
/// none at the start), every kept line that gave way to a later one is
/// trimmed at its end, and the last line survives untrimmed unless it is
/// whitespace.
pub fn compress_whitespace(items: Vec<String>) -> (r: Vec<String>)
    ensures
        deep_view_of(r@) == spec_compress(deep_view_of(items@)),
{
    let ghost model = deep_view_of(items@);
    if items.len() < 2 {
        return items;
    }
    let n = items.len();
    // Find the first line that is not whitespace.
    let mut k: usize = 0;
    while k < n && is_whitespace(items[k].as_str())
        invariant
            k <= n,
            n == items@.len(),
            model == deep_view_of(items@),
            forall|j: int| 0 <= j < k ==> spec_is_whitespace(#[trigger] model[j]),
        decreases n - k,
    {
        k = k + 1;
    }
    proof {
        lemma_first_non_ws_at(model, k as int);
    }
    if k == n {
        // Every line is whitespace: nothing survives.
        let r: Vec<String> = Vec::new();
        proof {
            assert(spec_is_whitespace(model.last()));
            assert(deep_view_of(r@) =~= spec_compress(model));
        }
        return r;
    }
    let mut compressed: Vec<String> = Vec::new();
    let mut prev: usize = k;
    let mut i: usize = k + 1;
    while i < n
        invariant
            k < n,
            prev < i,
            i <= n,
            n == items@.len(),
            model == deep_view_of(items@),
            deep_view_of(compressed@) + spec_compress_step(model[prev as int], model.skip(i as int))
                == spec_compress_step(model[k as int], model.skip(k + 1)),
        decreases n - i,
    {
        proof {
            assert(model.skip(i as int)[0] == model[i as int]);
            assert(model.skip(i as int).drop_first() =~= model.skip(i + 1));
        }
        let prev_ws = is_whitespace(items[prev].as_str());
        let here_ws = is_whitespace(items[i].as_str());
        if prev_ws && here_ws {
            // Two whitespace lines in a row: the later one is dropped.
            proof {
                assert(spec_compress_step(model[prev as int], model.skip(i as int))
                    == spec_compress_step(model[prev as int], model.skip(i + 1)));
            }
        } else {
            let ghost before = compressed@;
            let t = trim_end_line(items[prev].as_str());
            compressed.push(t);
            proof {
                assert(deep_view_of(compressed@) =~= deep_view_of(before) + seq![
                    spec_trim_end(model[prev as int]),
                ]);
                assert(spec_compress_step(model[prev as int], model.skip(i as int)) == seq![
                    spec_trim_end(model[prev as int]),
                ] + spec_compress_step(model[i as int], model.skip(i + 1)));
                assert(deep_view_of(compressed@) + spec_compress_step(
                    model[i as int],
                    model.skip(i + 1),
                ) =~= deep_view_of(before) + spec_compress_step(
                    model[prev as int],
                    model.skip(i as int),
                ));
            }
            prev = i;
        }
        i = i + 1;
    }
    proof {
        assert(model.skip(n as int) =~= Seq::<Seq<char>>::empty());
        assert(deep_view_of(compressed@) + Seq::<Seq<char>>::empty() =~= deep_view_of(
            compressed@,
        ));
        assert(deep_view_of(compressed@) == spec_compress_step(model[k as int], model.skip(k + 1)));
    }
    let last_ws = is_whitespace(items[n - 1].as_str());
    if !last_ws {
        let ghost before = compressed@;
        compressed.push(items[n - 1].clone());
        proof {
            assert(model.last() == model[n - 1]);
            assert(deep_view_of(compressed@) =~= deep_view_of(before) + seq![model.last()]);
        }
    } else {
        proof {
            assert(deep_view_of(compressed@) + Seq::<Seq<char>>::empty() =~= deep_view_of(
                compressed@,
            ));
        }
    }
    compressed
}

} // verus!
