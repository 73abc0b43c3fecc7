//! The reversible file-move primitive and its effect on a directory tree.
//!
//! A [`FileMover`] names an ordered pair of paths: move the file at `from` to
//! `to`.  Carrying a move out is the caller's business (the library never
//! touches the disk); what the library proves is how planned moves transform
//! a modelled tree, and that inverting the applied moves in reverse order
//! restores the tree they started from.

use vstd::prelude::*;
use vstd::string::*;

verus! {

/// A file as the model tracks it: the bytes it holds and the time it was
/// last modified.
pub ghost struct FileModel {
    pub content: Seq<u8>,
    pub mtime: int,
}

/// A directory tree as the model sees it: every present path mapped to its
/// file.
pub type FsModel = Map<Seq<char>, FileModel>;

/// The pair of paths a [`FileMover`] holds, for use in contracts.
pub ghost struct SwapView {
    pub from: Seq<char>,
    pub to: Seq<char>,
}

/// The swap that undoes `m`.
pub open spec fn invert_view(m: SwapView) -> SwapView {
    SwapView { from: m.to, to: m.from }
}

/// A rename of `from` to `to` can be carried out: the source is present and
/// the destination is free.
pub open spec fn rename_ok(fs: FsModel, from: Seq<char>, to: Seq<char>) -> bool {
    &&& fs.dom().contains(from)
    &&& !fs.dom().contains(to)
}

/// The tree after the file at `from` is renamed to `to`.  When `touch` is
/// set the moved file's modification time becomes `now`, as a rename that
/// refreshes timestamps for dependency tracking does.
pub open spec fn apply_rename(
    fs: FsModel,
    from: Seq<char>,
    to: Seq<char>,
    touch: bool,
    now: int,
) -> FsModel {
    let moved = if touch {
        FileModel { content: fs[from].content, mtime: now }
    } else {
        fs[from]
    };
    fs.remove(from).insert(to, moved)
}

/// Every swap in `ms` can be carried out in order, each on the tree the
/// previous ones left behind.
pub open spec fn swaps_ok(fs: FsModel, ms: Seq<SwapView>, touch: bool, now: int) -> bool
    decreases ms.len(),
{
    ms.len() == 0 || {
        &&& rename_ok(fs, ms[0].from, ms[0].to)
        &&& swaps_ok(apply_rename(fs, ms[0].from, ms[0].to, touch, now), ms.drop_first(), touch, now)
    }
}

/// The tree after every swap in `ms` is carried out in order.
pub open spec fn apply_swaps(fs: FsModel, ms: Seq<SwapView>, touch: bool, now: int) -> FsModel
    decreases ms.len(),
{
    if ms.len() == 0 {
        fs
    } else {
        apply_swaps(apply_rename(fs, ms[0].from, ms[0].to, touch, now), ms.drop_first(), touch, now)
    }
}

/// The moves that undo `ms`: each one inverted, in reverse order.
pub open spec fn unwind_of(ms: Seq<SwapView>) -> Seq<SwapView> {
    ms.reverse().map_values(|m: SwapView| invert_view(m))
}

/// Two trees list the same paths and hold the same bytes at each; only
/// modification times may differ.
pub open spec fn same_layout(a: FsModel, b: FsModel) -> bool {
    &&& a.dom() == b.dom()
    &&& forall|p: Seq<char>| a.dom().contains(p) ==> a[p].content == b[p].content
}

/// Inverting a swap twice restores the original `(from, to)` pairing.
pub proof fn lemma_invert_involution(m: SwapView)
    ensures
        invert_view(invert_view(m)) == m,
{
}

/// A rename followed by its inverse restores the tree: the same paths are
/// present with the same bytes, and if the rename did not refresh the
/// timestamp the tree is restored exactly, whatever the boolean was.
pub proof fn lemma_rename_invert_restores(
    fs: FsModel,
    m: SwapView,
    touch: bool,
    now: int,
    now2: int,
)
    requires
        rename_ok(fs, m.from, m.to),
    ensures
        rename_ok(apply_rename(fs, m.from, m.to, touch, now), m.to, m.from),
        same_layout(
            apply_rename(apply_rename(fs, m.from, m.to, touch, now), m.to, m.from, false, now2),
            fs,
        ),
        !touch ==> apply_rename(
            apply_rename(fs, m.from, m.to, touch, now),
            m.to,
            m.from,
            false,
            now2,
        ) == fs,
{
    let once = apply_rename(fs, m.from, m.to, touch, now);
    let back = apply_rename(once, m.to, m.from, false, now2);
    assert(back.dom() =~= fs.dom());
    if !touch {
        assert(back =~= fs);
    }
}

/// Splitting a plan in two: carrying out `a + b` is carrying out `a`, then
/// `b` on what `a` left behind.
pub proof fn lemma_apply_swaps_concat(
    fs: FsModel,
    a: Seq<SwapView>,
    b: Seq<SwapView>,
    touch: bool,
    now: int,
)
    ensures
        apply_swaps(fs, a + b, touch, now) == apply_swaps(
            apply_swaps(fs, a, touch, now),
            b,
            touch,
            now,
        ),
        swaps_ok(fs, a + b, touch, now) <==> (swaps_ok(fs, a, touch, now) && swaps_ok(
            apply_swaps(fs, a, touch, now),
            b,
            touch,
            now,
        )),
    decreases a.len(),
{
    if a.len() == 0 {
        assert(a + b =~= b);
    } else {
        let fs1 = apply_rename(fs, a[0].from, a[0].to, touch, now);
        assert((a + b).drop_first() =~= a.drop_first() + b);
        lemma_apply_swaps_concat(fs1, a.drop_first(), b, touch, now);
    }
}

/// Carrying out a plan and then its unwind restores the tree the plan
/// started from: the same paths with the same bytes; exactly the same tree
/// when the plan did not refresh timestamps.
///
/// This is the heart of both the success path (activate a profile, run,
/// deactivate it) and the failure path (roll back the moves that had
/// already been carried out when one failed): either way the moves undone
/// are exactly the ones that were done, inverted, in reverse order.
pub proof fn lemma_unwind_restores(
    fs: FsModel,
    ms: Seq<SwapView>,
    touch: bool,
    now: int,
    now2: int,
)
    requires
        swaps_ok(fs, ms, touch, now),
    ensures
        swaps_ok(apply_swaps(fs, ms, touch, now), unwind_of(ms), false, now2),
        same_layout(
            apply_swaps(apply_swaps(fs, ms, touch, now), unwind_of(ms), false, now2),
            fs,
        ),
        !touch ==> apply_swaps(apply_swaps(fs, ms, touch, now), unwind_of(ms), false, now2) == fs,
    decreases ms.len(),
{
    if ms.len() == 0 {
        assert(unwind_of(ms) =~= Seq::<SwapView>::empty());
    } else {
        let m0 = ms[0];
        let rest = ms.drop_first();
        let fs1 = apply_rename(fs, m0.from, m0.to, touch, now);
        let after = apply_swaps(fs, ms, touch, now);
        assert(after == apply_swaps(fs1, rest, touch, now));
        lemma_unwind_restores(fs1, rest, touch, now, now2);
        let restored1 = apply_swaps(after, unwind_of(rest), false, now2);
        assert(unwind_of(ms) =~= unwind_of(rest) + seq![invert_view(m0)]);
        lemma_apply_swaps_concat(after, unwind_of(rest), seq![invert_view(m0)], false, now2);
        // After the rest is unwound the tree lists the same paths as `fs1`,
        // so the inverse of the first move can be carried out on it.
        assert(rename_ok(restored1, m0.to, m0.from));
        let restored = apply_rename(restored1, m0.to, m0.from, false, now2);
        let inv0 = seq![invert_view(m0)];
        assert(inv0.drop_first() =~= Seq::<SwapView>::empty());
        assert(apply_swaps(restored, Seq::<SwapView>::empty(), false, now2) == restored);
        assert(apply_swaps(restored1, inv0, false, now2) == restored);
        assert(inv0[0] == invert_view(m0));
        assert(swaps_ok(restored, Seq::<SwapView>::empty(), false, now2));
        assert(swaps_ok(restored1, inv0, false, now2));
        assert(restored.dom() =~= fs.dom());
        assert(same_layout(restored, fs)) by {
            assert forall|p: Seq<char>| restored.dom().contains(p) implies restored[p].content
                == fs[p].content by {
                if p == m0.from {
                    assert(restored[p] == restored1[m0.to]);
                    assert(restored1[m0.to].content == fs1[m0.to].content);
                } else {
                    assert(restored[p] == restored1[p]);
                    assert(restored1[p].content == fs1[p].content);
                    assert(fs1[p] == fs[p]);
                }
            }
        }
        if !touch {
            assert(restored =~= fs);
        }
        assert(swaps_ok(after, unwind_of(ms), false, now2));
    }
}

/// If a profile activation stops after `k` of its moves, unwinding exactly
/// those `k` — inverted, newest first — leaves the tree as it was found:
/// no file of the profile remains installed.
pub proof fn lemma_partial_rollback(
    fs: FsModel,
    ms: Seq<SwapView>,
    k: int,
    touch: bool,
    now: int,
    now2: int,
)
    requires
        0 <= k <= ms.len(),
        swaps_ok(fs, ms.take(k), touch, now),
    ensures
        same_layout(
            apply_swaps(
                apply_swaps(fs, ms.take(k), touch, now),
                unwind_of(ms.take(k)),
                false,
                now2,
            ),
            fs,
        ),
        !touch ==> apply_swaps(
            apply_swaps(fs, ms.take(k), touch, now),
            unwind_of(ms.take(k)),
            false,
            now2,
        ) == fs,
{
    lemma_unwind_restores(fs, ms.take(k), touch, now, now2);
}

/// A reversible file relocation: a plan to move the file at `from` to `to`.
///
/// A mover is consumed by [`FileMover::invert`], which yields the mover that
/// undoes it; a mover that has been carried out is only ever used again
/// through its inverse, and the ownership move makes that structural.
pub struct FileMover {
    from: String,
    to: String,
}

impl View for FileMover {
    type V = SwapView;

    closed spec fn view(&self) -> SwapView {
        SwapView { from: self.from@, to: self.to@ }
    }
}

impl FileMover {
    /// Plan to move the file at `from` to `to`.
    pub fn new(from: String, to: String) -> (r: FileMover)
        ensures
            r@.from == from@,
            r@.to == to@,
    {
        FileMover { from, to }
    }

    /// Invert this mover, creating a new one with swapped from/to fields.
    ///
    /// This consumes the original mover.
    pub fn invert(self) -> (r: Self)
        ensures
            r@ == invert_view(self@),
    {
        Self { from: self.to, to: self.from }
    }

    /// The source path.
    pub fn get_from(&self) -> (r: String)
        ensures
            r@ == self@.from,
    {
        self.from.clone()
    }

    /// The destination path.
    pub fn get_to(&self) -> (r: String)
        ensures
            r@ == self@.to,
    {
        self.to.clone()
    }

    /// A mover with the same pair of paths.
    pub fn duplicate(&self) -> (r: Self)
        ensures
            r@ == self@,
    {
        FileMover { from: self.from.clone(), to: self.to.clone() }
    }
}

} // verus!
