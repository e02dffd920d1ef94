//! What a search finds in a given directory tree, and why the driven search
//! finds exactly that.
//!
//! A tree is a map from the path of each readable directory to its listing.
//! A path without an entry stands for something that cannot be listed: a
//! file, a missing directory, or a directory that may not be read.

use crate::scan::{
    initial, listed_directories, listed_executables, step, with_depth, EntryView, SearchView,
};
use vstd::prelude::*;

verus! {

/// A directory tree: the listing of every directory that can be read.
pub type TreeView = Map<Seq<Seq<char>>, Seq<EntryView>>;

/// The listing of `dir` in `tree`, if `dir` can be read.
pub open spec fn listing_of(tree: TreeView, dir: Seq<Seq<char>>) -> Option<Seq<EntryView>> {
    if tree.contains_key(dir) {
        Some(tree[dir])
    } else {
        None
    }
}

/// The executables at most `depth` levels below `dir`: those directly in
/// `dir` first, then those below each of its subdirectories in listing
/// order.
pub open spec fn found_below(tree: TreeView, dir: Seq<Seq<char>>, depth: nat) -> Seq<
    Seq<Seq<char>>,
>
    decreases depth, 0nat,
{
    if depth == 0 || !tree.contains_key(dir) {
        Seq::empty()
    } else {
        listed_executables(dir, tree[dir]) + found_below_all(
            tree,
            listed_directories(dir, tree[dir]),
            (depth - 1) as nat,
        )
    }
}

/// The executables at most `depth` levels below each of `dirs`, in order.
pub open spec fn found_below_all(tree: TreeView, dirs: Seq<Seq<Seq<char>>>, depth: nat) -> Seq<
    Seq<Seq<char>>,
>
    decreases depth, dirs.len() + 1,
{
    if dirs.len() == 0 {
        Seq::empty()
    } else {
        found_below(tree, dirs.first(), depth) + found_below_all(tree, dirs.drop_first(), depth)
    }
}

/// What the pending directories of a search will still yield.
pub open spec fn pending_result(tree: TreeView, pending: Seq<(Seq<Seq<char>>, nat)>) -> Seq<
    Seq<Seq<char>>,
>
    decreases pending.len(),
{
    if pending.len() == 0 {
        Seq::empty()
    } else {
        found_below(tree, pending.last().0, pending.last().1) + pending_result(
            tree,
            pending.drop_last(),
        )
    }
}

/// What a search in `state` will have found once it is over, if every
/// listing it is fed is the one `tree` holds.
pub open spec fn outcome(tree: TreeView, state: SearchView) -> Seq<Seq<Seq<char>>> {
    state.found + pending_result(tree, state.pending)
}

/// The number of directories a search reads at and below `dir`.
pub open spec fn reads_below(tree: TreeView, dir: Seq<Seq<char>>, depth: nat) -> nat
    decreases depth, 0nat,
{
    if depth > 1 && tree.contains_key(dir) {
        1 + reads_below_all(tree, listed_directories(dir, tree[dir]), (depth - 1) as nat)
    } else {
        1
    }
}

/// The number of directories a search reads at and below each of `dirs`.
pub open spec fn reads_below_all(tree: TreeView, dirs: Seq<Seq<Seq<char>>>, depth: nat) -> nat
    decreases depth, dirs.len() + 1,
{
    if dirs.len() == 0 {
        0
    } else {
        reads_below(tree, dirs.first(), depth) + reads_below_all(tree, dirs.drop_first(), depth)
    }
}

/// The number of directories a search still has to read.
pub open spec fn pending_reads(tree: TreeView, pending: Seq<(Seq<Seq<char>>, nat)>) -> nat
    decreases pending.len(),
{
    if pending.len() == 0 {
        0
    } else {
        reads_below(tree, pending.last().0, pending.last().1) + pending_reads(
            tree,
            pending.drop_last(),
        )
    }
}

proof fn lemma_nothing_at_depth_zero(tree: TreeView, dirs: Seq<Seq<Seq<char>>>)
    ensures
        found_below_all(tree, dirs, 0) == Seq::<Seq<Seq<char>>>::empty(),
    decreases dirs.len(),
{
    if dirs.len() > 0 {
        lemma_nothing_at_depth_zero(tree, dirs.drop_first());
        assert(found_below(tree, dirs.first(), 0) + found_below_all(tree, dirs.drop_first(), 0)
            =~= Seq::empty());
    }
}

/// Directories pushed in reverse on top of a work list yield their results
/// in listing order, before what the list held.
proof fn lemma_pending_pushed(
    tree: TreeView,
    rest: Seq<(Seq<Seq<char>>, nat)>,
    dirs: Seq<Seq<Seq<char>>>,
    depth: nat,
)
    ensures
        pending_result(tree, rest + with_depth(dirs.reverse(), depth)) == found_below_all(
            tree,
            dirs,
            depth,
        ) + pending_result(tree, rest),
        pending_reads(tree, rest + with_depth(dirs.reverse(), depth)) == reads_below_all(
            tree,
            dirs,
            depth,
        ) + pending_reads(tree, rest),
    decreases dirs.len(),
{
    let whole = rest + with_depth(dirs.reverse(), depth);
    if dirs.len() == 0 {
        assert(whole =~= rest);
        assert(Seq::<Seq<Seq<char>>>::empty() + pending_result(tree, rest) =~= pending_result(
            tree,
            rest,
        ));
    } else {
        let tail = dirs.drop_first();
        let below = rest + with_depth(tail.reverse(), depth);
        lemma_pending_pushed(tree, rest, tail, depth);
        assert(dirs.reverse() =~= tail.reverse().push(dirs.first()));
        assert(whole =~= below.push((dirs.first(), depth)));
        assert(whole.drop_last() =~= below);
        assert(whole.last() == (dirs.first(), depth));
        assert(found_below(tree, dirs.first(), depth) + (found_below_all(tree, tail, depth)
            + pending_result(tree, rest)) =~= (found_below(tree, dirs.first(), depth)
            + found_below_all(tree, tail, depth)) + pending_result(tree, rest));
    }
}

/// Feeding a search the listing that the tree holds for its next directory
/// does not change what the search will have found in the end, and leaves
/// it one read closer to the end.
pub proof fn law_step_keeps_outcome(tree: TreeView, state: SearchView)
    requires
        state.pending.len() > 0,
    ensures
        outcome(tree, step(state, listing_of(tree, state.pending.last().0))) == outcome(
            tree,
            state,
        ),
        pending_reads(tree, step(state, listing_of(tree, state.pending.last().0)).pending) + 1
            == pending_reads(tree, state.pending),
{
    let (dir, depth) = state.pending.last();
    let rest = state.pending.drop_last();
    let next = step(state, listing_of(tree, dir));
    if depth > 0 && tree.contains_key(dir) {
        let entries = tree[dir];
        let files = listed_executables(dir, entries);
        let dirs = listed_directories(dir, entries);
        if depth > 1 {
            lemma_pending_pushed(tree, rest, dirs, (depth - 1) as nat);
        } else {
            lemma_nothing_at_depth_zero(tree, dirs);
            assert(files + Seq::<Seq<Seq<char>>>::empty() =~= files);
        }
        assert((state.found + files) + (found_below_all(tree, dirs, (depth - 1) as nat)
            + pending_result(tree, rest)) =~= state.found + ((files + found_below_all(
            tree,
            dirs,
            (depth - 1) as nat,
        )) + pending_result(tree, rest)));
    } else {
        assert(found_below(tree, dir, depth) + pending_result(tree, rest) =~= pending_result(
            tree,
            rest,
        ));
    }
}

/// A fresh search will have found, in the end, exactly the executables at
/// most `max_depth` levels below its roots.
pub proof fn law_initial_outcome(tree: TreeView, roots: Seq<Seq<Seq<char>>>, max_depth: nat)
    ensures
        outcome(tree, initial(roots, max_depth)) == found_below_all(tree, roots, max_depth),
{
    if max_depth == 0 {
        lemma_nothing_at_depth_zero(tree, roots);
        assert(Seq::<Seq<Seq<char>>>::empty() + Seq::<Seq<Seq<char>>>::empty()
            =~= Seq::<Seq<Seq<char>>>::empty());
    } else {
        lemma_pending_pushed(tree, Seq::empty(), roots, max_depth);
        assert(Seq::<(Seq<Seq<char>>, nat)>::empty() + with_depth(roots.reverse(), max_depth)
            =~= with_depth(roots.reverse(), max_depth));
        assert(found_below_all(tree, roots, max_depth) + Seq::<Seq<Seq<char>>>::empty()
            =~= found_below_all(tree, roots, max_depth));
        assert(Seq::<Seq<Seq<char>>>::empty() + found_below_all(tree, roots, max_depth)
            =~= found_below_all(tree, roots, max_depth));
    }
}

/// A search that is over has found its outcome.
pub proof fn law_final_outcome(tree: TreeView, state: SearchView)
    requires
        state.pending.len() == 0,
    ensures
        outcome(tree, state) == state.found,
{
    assert(state.found + Seq::<Seq<Seq<char>>>::empty() =~= state.found);
}

} // verus!
