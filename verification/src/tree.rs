//! Discovery over a directory tree held in memory.
//!
//! These functions run the driven search of the `scan` module against a
//! recorded tree, and state what the search finds in terms of the tree
//! alone.

use crate::arch::PrefixArch;
use crate::path::{clone_path, path_eq, path_views, RelPath};
use crate::scan::{
    dir_diff, entry_views, listing_view, location_views, top_level, top_level_dirs, DirEntry,
    EntryView, ExecutableSearch, MAX_SEARCH_DEPTH,
};
use crate::scan_model::{
    found_below, found_below_all, law_final_outcome, law_initial_outcome, law_step_keeps_outcome,
    listing_of, outcome, pending_reads, TreeView,
};
use crate::text::views;
use vstd::prelude::*;

verus! {

/// A recorded directory tree: for each directory that could be read, its
/// listing. Recording a directory again replaces its listing.
#[derive(Debug)]
pub struct DirTree {
    dirs: Vec<(RelPath, Vec<DirEntry>)>,
}

/// The listing recorded last for `dir`, if any.
pub open spec fn recorded(dirs: Seq<(Vec<String>, Vec<DirEntry>)>, dir: Seq<Seq<char>>) -> Option<
    Seq<EntryView>,
>
    decreases dirs.len(),
{
    if dirs.len() == 0 {
        None
    } else if views(dirs.last().0@) == dir {
        Some(entry_views(dirs.last().1@))
    } else {
        recorded(dirs.drop_last(), dir)
    }
}

impl View for DirTree {
    type V = TreeView;

    closed spec fn view(&self) -> TreeView {
        Map::new(
            |dir: Seq<Seq<char>>| recorded(self.dirs@, dir) is Some,
            |dir: Seq<Seq<char>>| recorded(self.dirs@, dir).unwrap(),
        )
    }
}

impl DirTree {
    /// A tree in which nothing can be read.
    pub fn new() -> (tree: DirTree)
        ensures
            tree@ =~= Map::empty(),
    {
        DirTree { dirs: Vec::new() }
    }

    /// Records `entries` as the listing of `dir`.
    pub fn insert(&mut self, dir: RelPath, entries: Vec<DirEntry>)
        ensures
            final(self)@ == old(self)@.insert(views(dir@), entry_views(entries@)),
    {
        let ghost before = self.dirs@;
        let ghost key = views(dir@);
        let ghost value = entry_views(entries@);
        self.dirs.push((dir, entries));
        proof {
            assert(self.dirs@.drop_last() =~= before);
            assert(self@ =~= old(self)@.insert(key, value));
        }
    }

    /// The listing of `dir`, if one is recorded.
    pub fn get(&self, dir: &RelPath) -> (listing: Option<&Vec<DirEntry>>)
        ensures
            listing_view(listing) == listing_of(self@, views(dir@)),
    {
        let mut i: usize = self.dirs.len();
        proof {
            assert(self.dirs@.take(i as int) =~= self.dirs@);
        }
        while i > 0
            invariant
                i <= self.dirs@.len(),
                recorded(self.dirs@, views(dir@)) == recorded(
                    self.dirs@.take(i as int),
                    views(dir@),
                ),
            decreases i,
        {
            proof {
                assert(self.dirs@.take(i as int).drop_last() =~= self.dirs@.take(i - 1));
                assert(self.dirs@.take(i as int).last() == self.dirs@[i - 1]);
            }
            i -= 1;
            if path_eq(&self.dirs[i].0, dir) {
                return Some(&self.dirs[i].1);
            }
        }
        None
    }
}

/// The entries of `dir` in `tree` that are not excluded; nothing when `dir`
/// cannot be read.
pub open spec fn kept_in(tree: TreeView, dir: Seq<Seq<char>>, excluded: Seq<Seq<char>>) -> Seq<
    Seq<Seq<char>>,
> {
    match listing_of(tree, dir) {
        Some(entries) => crate::scan::kept_entries(dir, entries, excluded),
        None => Seq::empty(),
    }
}

/// The entries kept at each of `locations`, in order.
pub open spec fn roots_in(tree: TreeView, locations: Seq<(Seq<Seq<char>>, Seq<Seq<char>>)>) -> Seq<
    Seq<Seq<char>>,
>
    decreases locations.len(),
{
    if locations.len() == 0 {
        Seq::empty()
    } else {
        roots_in(tree, locations.drop_last()) + kept_in(
            tree,
            locations.last().0,
            locations.last().1,
        )
    }
}

/// The roots of the search in a prefix: what the drive root holds beside the
/// folders of a fresh installation, then the same for the program-files
/// directory and, unless the prefix is 32-bit only, for its 32-bit twin.
pub open spec fn search_roots(tree: TreeView, arch: PrefixArch) -> Seq<Seq<Seq<char>>> {
    roots_in(tree, top_level(arch))
}

/// `paths` without the later occurrences of a path that occurred before.
pub open spec fn without_repeats(paths: Seq<Seq<Seq<char>>>) -> Seq<Seq<Seq<char>>>
    decreases paths.len(),
{
    if paths.len() == 0 {
        Seq::empty()
    } else {
        let front = without_repeats(paths.drop_last());
        if front.contains(paths.last()) {
            front
        } else {
            front.push(paths.last())
        }
    }
}

/// The executables of a prefix: those at most `MAX_SEARCH_DEPTH` levels
/// below the search roots, each once, in the order of discovery.
pub open spec fn discovered(tree: TreeView, arch: PrefixArch) -> Seq<Seq<Seq<char>>> {
    without_repeats(found_below_all(tree, search_roots(tree, arch), MAX_SEARCH_DEPTH as nat))
}

/// The search roots of a prefix whose tree is `tree`.
pub fn unique_paths(tree: &DirTree, arch: PrefixArch) -> (roots: Vec<RelPath>)
    ensures
        path_views(roots@) == search_roots(tree@, arch),
{
    let locations = top_level_dirs(arch);
    let ghost all = location_views(locations@);
    let mut roots: Vec<RelPath> = Vec::new();
    let mut i: usize = 0;
    proof {
        assert(all.take(0) =~= Seq::empty());
        assert(path_views(roots@) =~= Seq::empty());
    }
    while i < locations.len()
        invariant
            i <= locations.len(),
            all == location_views(locations@),
            path_views(roots@) == roots_in(tree@, all.take(i as int)),
        decreases locations.len() - i,
    {
        proof {
            assert(all.take(i + 1).drop_last() =~= all.take(i as int));
            assert(all.take(i + 1).last() == (
                views(locations@[i as int].dir@),
                views(locations@[i as int].excluded@),
            ));
        }
        match tree.get(&locations[i].dir) {
            Some(entries) => {
                dir_diff(&locations[i].dir, entries, &locations[i].excluded, &mut roots);
            },
            None => {
                proof {
                    assert(path_views(roots@) + Seq::<Seq<Seq<char>>>::empty() =~= path_views(
                        roots@,
                    ));
                }
            },
        }
        i += 1;
    }
    proof {
        assert(all.take(locations.len() as int) =~= all);
    }
    roots
}

/// Runs a search below `roots` against `tree` until it is over.
pub fn search_tree(tree: &DirTree, roots: Vec<RelPath>, max_depth: u8) -> (found: Vec<RelPath>)
    ensures
        path_views(found@) == found_below_all(tree@, path_views(roots@), max_depth as nat),
{
    let ghost target = found_below_all(tree@, path_views(roots@), max_depth as nat);
    let mut search = ExecutableSearch::new(roots, max_depth);
    proof {
        law_initial_outcome(tree@, path_views(roots@), max_depth as nat);
    }
    while !search.is_done()
        invariant
            outcome(tree@, search@) == target,
        decreases pending_reads(tree@, search@.pending),
    {
        proof {
            law_step_keeps_outcome(tree@, search@);
        }
        let listing = match search.next_dir() {
            Some(dir) => tree.get(dir),
            None => None,
        };
        search.feed(listing);
    }
    proof {
        law_final_outcome(tree@, search@);
    }
    search.into_found()
}

/// The executables at most `max_depth` levels below `path` in `tree`.
pub fn find_executables(tree: &DirTree, path: RelPath, max_depth: u8) -> (found: Vec<RelPath>)
    ensures
        path_views(found@) == found_below(tree@, views(path@), max_depth as nat),
{
    let ghost dir = views(path@);
    let mut roots: Vec<RelPath> = Vec::new();
    roots.push(path);
    proof {
        let dirs = path_views(roots@);
        assert(dirs =~= seq![dir]);
        assert(dirs.first() == dir);
        assert(dirs.drop_first().len() == 0);
        assert(found_below_all(tree@, dirs.drop_first(), max_depth as nat) =~= Seq::empty());
        assert(found_below_all(tree@, dirs, max_depth as nat) == found_below(
            tree@,
            dir,
            max_depth as nat,
        ) + found_below_all(tree@, dirs.drop_first(), max_depth as nat));
        assert(found_below(tree@, dir, max_depth as nat) + Seq::<Seq<Seq<char>>>::empty()
            =~= found_below(tree@, dir, max_depth as nat));
    }
    search_tree(tree, roots, max_depth)
}

/// A copy of `paths` without the later occurrences of a path that occurred
/// before.
pub fn dedup_paths(paths: &Vec<RelPath>) -> (unique: Vec<RelPath>)
    ensures
        path_views(unique@) == without_repeats(path_views(paths@)),
{
    let ghost all = path_views(paths@);
    let mut unique: Vec<RelPath> = Vec::new();
    let mut i: usize = 0;
    proof {
        assert(all.take(0) =~= Seq::empty());
        assert(path_views(unique@) =~= Seq::empty());
    }
    while i < paths.len()
        invariant
            i <= paths.len(),
            all == path_views(paths@),
            path_views(unique@) == without_repeats(all.take(i as int)),
        decreases paths.len() - i,
    {
        proof {
            assert(all.take(i + 1).drop_last() =~= all.take(i as int));
            assert(all.take(i + 1).last() == views(paths@[i as int]@));
        }
        let ghost prev = unique@;
        if !contains_path(&unique, &paths[i]) {
            let path = clone_path(&paths[i]);
            unique.push(path);
            proof {
                assert(path_views(unique@) =~= path_views(prev).push(views(path@)));
            }
        }
        i += 1;
    }
    proof {
        assert(all.take(paths.len() as int) =~= all);
    }
    unique
}

/// Whether `path` is among `paths`.
pub fn contains_path(paths: &Vec<RelPath>, path: &RelPath) -> (present: bool)
    ensures
        present == path_views(paths@).contains(views(path@)),
{
    let mut i: usize = 0;
    while i < paths.len()
        invariant
            i <= paths.len(),
            forall|j: int| 0 <= j < i ==> views(paths@[j]@) != views(path@),
        decreases paths.len() - i,
    {
        if path_eq(&paths[i], path) {
            proof {
                assert(path_views(paths@)[i as int] == views(path@));
            }
            return true;
        }
        i += 1;
    }
    false
}

/// The executables of a prefix whose tree is `tree`, each once, as paths
/// relative to the prefix root, in the order of discovery.
pub fn unique_executables(tree: &DirTree, arch: PrefixArch) -> (found: Vec<RelPath>)
    ensures
        path_views(found@) == discovered(tree@, arch),
{
    let roots = unique_paths(tree, arch);
    let found = search_tree(tree, roots, MAX_SEARCH_DEPTH);
    dedup_paths(&found)
}

} // verus!
