//! What holds of every discovery, whatever the tree.

use crate::arch::PrefixArch;
use crate::path::is_exe_name;
use crate::scan::{
    initial, kept_entries, listed_directories, listed_executables, step, top_level, with_depth,
    EntryView, SearchView, MAX_SEARCH_DEPTH,
};
use crate::scan_model::{found_below, found_below_all, TreeView};
use crate::tree::{discovered, kept_in, roots_in, search_roots, without_repeats};
use vstd::prelude::*;

verus! {

/// `path` names an executable that lies below `dir`, at most `depth` levels
/// down.
pub open spec fn within(dir: Seq<Seq<char>>, depth: nat, path: Seq<Seq<char>>) -> bool {
    &&& dir.is_prefix_of(path)
    &&& dir.len() < path.len() <= dir.len() + depth
    &&& is_exe_name(path.last())
}

/// `path` is an entry of `dir` whose name is not among `excluded`.
pub open spec fn kept_child(dir: Seq<Seq<char>>, excluded: Seq<Seq<char>>, path: Seq<Seq<char>>) -> bool {
    &&& path.len() == dir.len() + 1
    &&& path.drop_last() == dir
    &&& !excluded.contains(path.last())
}

proof fn lemma_concat_contains<A>(a: Seq<A>, b: Seq<A>, x: A)
    requires
        (a + b).contains(x),
    ensures
        a.contains(x) || b.contains(x),
{
    let i = choose|i: int| 0 <= i < (a + b).len() && (a + b)[i] == x;
    if i < a.len() {
        assert(a[i] == x);
    } else {
        assert(b[i - a.len()] == x);
    }
}

proof fn lemma_push_contains<A>(a: Seq<A>, last: A, x: A)
    requires
        a.push(last).contains(x),
    ensures
        a.contains(x) || x == last,
{
    let i = choose|i: int| 0 <= i < a.push(last).len() && a.push(last)[i] == x;
    if i < a.len() {
        assert(a[i] == x);
    }
}

proof fn lemma_listed_executables(dir: Seq<Seq<char>>, entries: Seq<EntryView>, path: Seq<Seq<char>>)
    requires
        listed_executables(dir, entries).contains(path),
    ensures
        path.len() == dir.len() + 1,
        path.drop_last() == dir,
        is_exe_name(path.last()),
    decreases entries.len(),
{
    if entries.len() > 0 {
        let front = listed_executables(dir, entries.drop_last());
        if !entries.last().is_dir && is_exe_name(entries.last().name) {
            lemma_push_contains(front, dir.push(entries.last().name), path);
            if front.contains(path) {
                lemma_listed_executables(dir, entries.drop_last(), path);
            } else {
                assert(dir.push(entries.last().name).drop_last() =~= dir);
            }
        } else {
            lemma_listed_executables(dir, entries.drop_last(), path);
        }
    }
}

proof fn lemma_listed_directories(dir: Seq<Seq<char>>, entries: Seq<EntryView>, path: Seq<Seq<char>>)
    requires
        listed_directories(dir, entries).contains(path),
    ensures
        path.len() == dir.len() + 1,
        path.drop_last() == dir,
    decreases entries.len(),
{
    if entries.len() > 0 {
        let front = listed_directories(dir, entries.drop_last());
        if entries.last().is_dir {
            lemma_push_contains(front, dir.push(entries.last().name), path);
            if front.contains(path) {
                lemma_listed_directories(dir, entries.drop_last(), path);
            } else {
                assert(dir.push(entries.last().name).drop_last() =~= dir);
            }
        } else {
            lemma_listed_directories(dir, entries.drop_last(), path);
        }
    }
}

proof fn lemma_kept_entries(
    dir: Seq<Seq<char>>,
    entries: Seq<EntryView>,
    excluded: Seq<Seq<char>>,
    path: Seq<Seq<char>>,
)
    requires
        kept_entries(dir, entries, excluded).contains(path),
    ensures
        kept_child(dir, excluded, path),
    decreases entries.len(),
{
    if entries.len() > 0 {
        let front = kept_entries(dir, entries.drop_last(), excluded);
        if excluded.contains(entries.last().name) {
            lemma_kept_entries(dir, entries.drop_last(), excluded, path);
        } else {
            lemma_push_contains(front, dir.push(entries.last().name), path);
            if front.contains(path) {
                lemma_kept_entries(dir, entries.drop_last(), excluded, path);
            } else {
                assert(dir.push(entries.last().name).drop_last() =~= dir);
            }
        }
    }
}

/// Everything found below a directory is an executable at most `depth`
/// levels below it.
pub proof fn law_found_within(tree: TreeView, dir: Seq<Seq<char>>, depth: nat, path: Seq<Seq<char>>)
    requires
        found_below(tree, dir, depth).contains(path),
    ensures
        within(dir, depth, path),
    decreases depth, 0nat,
{
    if depth > 0 && tree.contains_key(dir) {
        let files = listed_executables(dir, tree[dir]);
        let dirs = listed_directories(dir, tree[dir]);
        let deeper = found_below_all(tree, dirs, (depth - 1) as nat);
        lemma_concat_contains(files, deeper, path);
        if files.contains(path) {
            lemma_listed_executables(dir, tree[dir], path);
            assert(path.subrange(0, dir.len() as int) =~= path.drop_last());
        } else {
            let k = law_found_all_within(tree, dirs, (depth - 1) as nat, path);
            assert(dirs.contains(dirs[k]));
            lemma_listed_directories(dir, tree[dir], dirs[k]);
            assert(dir =~= path.subrange(0, dir.len() as int)) by {
                let sub = dirs[k];
                assert(sub =~= path.subrange(0, sub.len() as int));
                assert(dir =~= sub.drop_last());
                assert forall|i: int| 0 <= i < dir.len() implies dir[i] == path[i] by {
                    assert(sub.drop_last()[i] == sub[i]);
                    assert(path.subrange(0, sub.len() as int)[i] == path[i]);
                }
            }
        }
    } else {
        assert(found_below(tree, dir, depth) =~= Seq::empty());
    }
}

/// Everything found below a list of directories lies within one of them;
/// the result is the place of such a directory in the list.
pub proof fn law_found_all_within(
    tree: TreeView,
    dirs: Seq<Seq<Seq<char>>>,
    depth: nat,
    path: Seq<Seq<char>>,
) -> (k: int)
    requires
        found_below_all(tree, dirs, depth).contains(path),
    ensures
        0 <= k < dirs.len(),
        within(dirs[k], depth, path),
    decreases depth, dirs.len() + 1,
{
    if dirs.len() == 0 {
        assert(found_below_all(tree, dirs, depth) =~= Seq::empty());
        0
    } else {
        let first = found_below(tree, dirs.first(), depth);
        let others = found_below_all(tree, dirs.drop_first(), depth);
        lemma_concat_contains(first, others, path);
        if first.contains(path) {
            law_found_within(tree, dirs.first(), depth, path);
            0
        } else {
            let k = law_found_all_within(tree, dirs.drop_first(), depth, path);
            assert(dirs.drop_first()[k] == dirs[k + 1]);
            k + 1
        }
    }
}

proof fn lemma_repeats_member(paths: Seq<Seq<Seq<char>>>, path: Seq<Seq<char>>)
    ensures
        without_repeats(paths).contains(path) <==> paths.contains(path),
    decreases paths.len(),
{
    if paths.len() > 0 {
        let front = without_repeats(paths.drop_last());
        let last = paths.last();
        lemma_repeats_member(paths.drop_last(), path);
        lemma_repeats_member(paths.drop_last(), last);
        if without_repeats(paths).contains(path) {
            if !front.contains(last) {
                lemma_push_contains(front, last, path);
            }
            if front.contains(path) {
                assert(paths.drop_last().contains(path));
                let i = choose|i: int|
                    0 <= i < paths.drop_last().len() && paths.drop_last()[i] == path;
                assert(paths[i] == path);
            } else {
                assert(paths[paths.len() - 1] == path);
            }
        }
        if paths.contains(path) {
            let i = choose|i: int| 0 <= i < paths.len() && paths[i] == path;
            if i < paths.len() - 1 {
                assert(paths.drop_last()[i] == path);
                assert(front.contains(path));
                let j = choose|j: int| 0 <= j < front.len() && front[j] == path;
                if !front.contains(last) {
                    assert(front.push(last)[j] == path);
                }
            } else {
                if !front.contains(last) {
                    assert(front.push(last)[front.len() as int] == path);
                }
            }
        }
    } else {
        assert(without_repeats(paths) =~= paths);
    }
}

/// Dropping repeats neither adds nor loses a path, and leaves each path
/// once.
pub proof fn law_without_repeats(paths: Seq<Seq<Seq<char>>>)
    ensures
        without_repeats(paths).no_duplicates(),
        forall|p: Seq<Seq<char>>| #[trigger]
            without_repeats(paths).contains(p) <==> paths.contains(p),
        without_repeats(paths).len() <= paths.len(),
    decreases paths.len(),
{
    assert forall|p: Seq<Seq<char>>| #[trigger]
        without_repeats(paths).contains(p) <==> paths.contains(p) by {
        lemma_repeats_member(paths, p);
    }
    if paths.len() > 0 {
        law_without_repeats(paths.drop_last());
    }
}

proof fn lemma_roots_kept(
    tree: TreeView,
    locations: Seq<(Seq<Seq<char>>, Seq<Seq<char>>)>,
    root: Seq<Seq<char>>,
) -> (k: int)
    requires
        roots_in(tree, locations).contains(root),
    ensures
        0 <= k < locations.len(),
        kept_child(locations[k].0, locations[k].1, root),
    decreases locations.len(),
{
    if locations.len() == 0 {
        0
    } else {
        let front = roots_in(tree, locations.drop_last());
        let here = kept_in(tree, locations.last().0, locations.last().1);
        lemma_concat_contains(front, here, root);
        if front.contains(root) {
            let k = lemma_roots_kept(tree, locations.drop_last(), root);
            assert(locations.drop_last()[k] == locations[k]);
            k
        } else {
            lemma_kept_entries(
                locations.last().0,
                tree[locations.last().0],
                locations.last().1,
                root,
            );
            locations.len() - 1
        }
    }
}

/// Every discovered path is an executable that lies at most
/// `MAX_SEARCH_DEPTH` levels below an entry of one of the top-level
/// directories, and that entry is not one of the names excluded there:
/// nothing inside an excluded folder is ever found, and nothing deeper than
/// the bound.
pub proof fn law_discovered_within_bounds(tree: TreeView, arch: PrefixArch, path: Seq<Seq<char>>)
    requires
        discovered(tree, arch).contains(path),
    ensures
        exists|k: int|
            0 <= k < top_level(arch).len() && {
                let (dir, excluded) = #[trigger] top_level(arch)[k];
                &&& dir.is_prefix_of(path)
                &&& dir.len() + 1 < path.len() <= dir.len() + 1 + MAX_SEARCH_DEPTH
                &&& !excluded.contains(path[dir.len() as int])
                &&& is_exe_name(path.last())
            },
{
    let roots = search_roots(tree, arch);
    let all = found_below_all(tree, roots, MAX_SEARCH_DEPTH as nat);
    law_without_repeats(all);
    let r = law_found_all_within(tree, roots, MAX_SEARCH_DEPTH as nat, path);
    let root = roots[r];
    assert(roots.contains(root));
    let k = lemma_roots_kept(tree, top_level(arch), root);
    let (dir, excluded) = top_level(arch)[k];
    assert(root.last() == path[dir.len() as int]) by {
        assert(root =~= path.subrange(0, root.len() as int));
        assert(path.subrange(0, root.len() as int)[dir.len() as int] == path[dir.len() as int]);
    }
    assert(dir =~= path.subrange(0, dir.len() as int)) by {
        assert(root =~= path.subrange(0, root.len() as int));
        assert(dir =~= root.drop_last());
        assert forall|i: int| 0 <= i < dir.len() implies dir[i] == path[i] by {
            assert(root.drop_last()[i] == root[i]);
            assert(path.subrange(0, root.len() as int)[i] == path[i]);
        }
    }
}

/// Discovery lists no path twice.
pub proof fn law_discovered_unique(tree: TreeView, arch: PrefixArch)
    ensures
        discovered(tree, arch).no_duplicates(),
{
    law_without_repeats(found_below_all(tree, search_roots(tree, arch), MAX_SEARCH_DEPTH as nat));
}

/// `dir` is waiting to be read for `depth` more levels in a search that
/// started at `roots` with `max_depth` levels: it lies at or below a root,
/// and the levels between the root and it, with the levels still to be
/// read, make up `max_depth`. So it lies fewer than `max_depth` levels
/// below its root.
pub open spec fn waits_within(
    roots: Seq<Seq<Seq<char>>>,
    max_depth: nat,
    dir: Seq<Seq<char>>,
    depth: nat,
) -> bool {
    exists|k: int|
        0 <= k < roots.len() && (#[trigger] roots[k]).is_prefix_of(dir) && depth >= 1 && dir.len()
            - roots[k].len() + depth == max_depth
}

/// Every pending directory of a search waits within the bounds of the
/// search.
pub open spec fn pending_within(
    roots: Seq<Seq<Seq<char>>>,
    max_depth: nat,
    pending: Seq<(Seq<Seq<char>>, nat)>,
) -> bool {
    forall|i: int|
        0 <= i < pending.len() ==> waits_within(
            roots,
            max_depth,
            (#[trigger] pending[i]).0,
            pending[i].1,
        )
}

/// A fresh search asks only for its roots.
pub proof fn law_initial_within(roots: Seq<Seq<Seq<char>>>, max_depth: nat)
    ensures
        pending_within(roots, max_depth, initial(roots, max_depth).pending),
{
    let pending = initial(roots, max_depth).pending;
    assert forall|i: int| 0 <= i < pending.len() implies waits_within(
        roots,
        max_depth,
        (#[trigger] pending[i]).0,
        pending[i].1,
    ) by {
        let k = roots.len() - 1 - i;
        assert(pending[i] == (roots[k], max_depth));
        assert(roots[k] =~= roots[k].subrange(0, roots[k].len() as int));
        assert(roots[k].is_prefix_of(roots[k]));
    }
}

/// Whatever listing a search is fed, it goes on asking only for
/// directories at or below its roots and fewer than `max_depth` levels
/// below them: it never reads outside its roots, and never deeper than its
/// bound.
pub proof fn law_step_within(
    roots: Seq<Seq<Seq<char>>>,
    max_depth: nat,
    state: SearchView,
    listing: Option<Seq<EntryView>>,
)
    requires
        pending_within(roots, max_depth, state.pending),
    ensures
        pending_within(roots, max_depth, step(state, listing).pending),
{
    let next = step(state, listing).pending;
    if state.pending.len() > 0 {
        let (dir, depth) = state.pending.last();
        let rest = state.pending.drop_last();
        assert forall|i: int| 0 <= i < next.len() implies waits_within(
            roots,
            max_depth,
            (#[trigger] next[i]).0,
            next[i].1,
        ) by {
            if i < rest.len() {
                assert(next[i] == state.pending[i]);
            } else {
                let entries = listing.unwrap();
                let dirs = listed_directories(dir, entries);
                let below = (depth - 1) as nat;
                let j = i - rest.len();
                assert(next[i] == with_depth(dirs.reverse(), below)[j]);
                let sub = dirs[dirs.len() - 1 - j];
                assert(next[i] == (sub, below));
                assert(dirs.contains(sub));
                lemma_listed_directories(dir, entries, sub);
                assert(state.pending[state.pending.len() - 1] == (dir, depth));
                let k = choose|k: int|
                    0 <= k < roots.len() && (#[trigger] roots[k]).is_prefix_of(dir) && depth >= 1
                        && dir.len() - roots[k].len() + depth == max_depth;
                assert(roots[k] =~= sub.subrange(0, roots[k].len() as int)) by {
                    assert(roots[k] =~= dir.subrange(0, roots[k].len() as int));
                    assert(dir =~= sub.drop_last());
                    assert forall|n: int| 0 <= n < roots[k].len() implies roots[k][n] == sub[n] by {
                        assert(dir.subrange(0, roots[k].len() as int)[n] == dir[n]);
                        assert(sub.drop_last()[n] == sub[n]);
                    }
                }
                assert(roots[k].is_prefix_of(sub));
            }
        }
    }
}

/// No search root of a prefix is an entry that is excluded where it was
/// found: every root is an entry of one of the top-level directories whose
/// name is not among the names excluded there.
pub proof fn law_roots_not_excluded(tree: TreeView, arch: PrefixArch, root: Seq<Seq<char>>)
    requires
        search_roots(tree, arch).contains(root),
    ensures
        exists|k: int|
            0 <= k < top_level(arch).len() && kept_child(
                (#[trigger] top_level(arch)[k]).0,
                top_level(arch)[k].1,
                root,
            ),
{
    let k = lemma_roots_kept(tree, top_level(arch), root);
    assert(kept_child(top_level(arch)[k].0, top_level(arch)[k].1, root));
}

} // verus!
