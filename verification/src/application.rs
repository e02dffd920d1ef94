//! The executables found in a prefix, shown relative to the directory they
//! have in common.

use crate::arch::PrefixArch;
use crate::path::{clone_path, path_views, starts_with_path, strip_base_path, RelPath};
use crate::text::views;
use crate::tree::{discovered, unique_executables, DirTree};
use vstd::prelude::*;

verus! {

/// The executables of a prefix and the directory that holds them all.
#[derive(Debug)]
pub struct Applications {
    /// The executables, relative to the root of the prefix.
    pub found: Vec<RelPath>,
    /// The deepest directory that holds every one of them.
    pub common_prefix: RelPath,
}

/// The directory that holds the last component of `path`; the empty path
/// for a path without components.
pub open spec fn parent_of(path: Seq<Seq<char>>) -> Seq<Seq<char>> {
    if path.len() == 0 {
        path
    } else {
        path.drop_last()
    }
}

/// Whether `dir` holds every one of `paths`: it lies at or above the
/// directory of the first and at or above each of the others.
pub open spec fn holds_all(paths: Seq<Seq<Seq<char>>>, dir: Seq<Seq<char>>) -> bool {
    &&& paths.len() > 0
    &&& dir.is_prefix_of(parent_of(paths[0]))
    &&& forall|i: int| 1 <= i < paths.len() ==> dir.is_prefix_of(#[trigger] paths[i])
}

/// Whether `dir` is the deepest directory that holds every one of `paths`.
/// For no paths at all it is the empty path.
pub open spec fn is_common_prefix(paths: Seq<Seq<Seq<char>>>, dir: Seq<Seq<char>>) -> bool {
    if paths.len() == 0 {
        dir.len() == 0
    } else {
        &&& holds_all(paths, dir)
        &&& forall|other: Seq<Seq<char>>| #[trigger]
            holds_all(paths, other) ==> other.len() <= dir.len()
    }
}

/// The paths of `paths` that lie at or below `base`, each relative to
/// `base`, in order.
pub open spec fn stripped_all(paths: Seq<Seq<Seq<char>>>, base: Seq<Seq<char>>) -> Seq<
    Seq<Seq<char>>,
>
    decreases paths.len(),
{
    if paths.len() == 0 {
        Seq::empty()
    } else {
        let front = stripped_all(paths.drop_last(), base);
        if base.is_prefix_of(paths.last()) {
            front.push(paths.last().skip(base.len() as int))
        } else {
            front
        }
    }
}

proof fn lemma_shorter_prefix(dir: Seq<Seq<char>>, path: Seq<Seq<char>>, len: int)
    requires
        dir.is_prefix_of(path),
        0 <= len <= dir.len(),
    ensures
        dir.take(len).is_prefix_of(path),
        dir.take(len).is_prefix_of(dir),
{
    assert(dir.take(len) =~= path.subrange(0, len)) by {
        assert(dir =~= path.subrange(0, dir.len() as int));
    }
    assert(dir.take(len) =~= dir.subrange(0, len));
}

proof fn lemma_same_prefix(a: Seq<Seq<char>>, b: Seq<Seq<char>>, path: Seq<Seq<char>>)
    requires
        a.is_prefix_of(path),
        b.is_prefix_of(path),
        a.len() <= b.len(),
    ensures
        a.is_prefix_of(b),
{
    assert(a =~= b.subrange(0, a.len() as int)) by {
        assert(a =~= path.subrange(0, a.len() as int));
        assert(b =~= path.subrange(0, b.len() as int));
    }
}

impl Applications {
    /// The deepest directory that holds every one of `paths`.
    pub fn find_common_path_prefix(paths: &Vec<RelPath>) -> (dir: RelPath)
        ensures
            is_common_prefix(path_views(paths@), views(dir@)),
    {
        let ghost all = path_views(paths@);
        if paths.len() == 0 {
            let none: Vec<String> = Vec::new();
            proof {
                assert(views(none@).len() == 0);
            }
            return none;
        }
        let mut dir = clone_path(&paths[0]);
        if dir.len() > 0 {
            dir.pop();
        }
        proof {
            assert(views(dir@) =~= parent_of(all[0]));
            assert(views(dir@) =~= parent_of(all[0]).subrange(0, views(dir@).len() as int));
        }
        let ghost first_parent = parent_of(all[0]);
        let mut i: usize = 1;
        while i < paths.len()
            invariant
                1 <= i <= paths.len(),
                all == path_views(paths@),
                first_parent == parent_of(all[0]),
                views(dir@).is_prefix_of(first_parent),
                forall|k: int| 1 <= k < i ==> views(dir@).is_prefix_of(#[trigger] all[k]),
                forall|other: Seq<Seq<char>>|
                    other.is_prefix_of(first_parent) && (forall|k: int|
                        1 <= k < i ==> other.is_prefix_of(#[trigger] all[k])) ==> other.len()
                        <= views(dir@).len(),
            decreases paths.len() - i,
        {
            let ghost entry = views(dir@);
            while dir.len() > 0 && !starts_with_path(&paths[i], &dir)
                invariant
                    1 <= i < paths.len(),
                    all == path_views(paths@),
                    first_parent == parent_of(all[0]),
                    views(dir@).is_prefix_of(entry),
                    entry.is_prefix_of(first_parent),
                    forall|k: int| 1 <= k < i ==> entry.is_prefix_of(#[trigger] all[k]),
                    forall|other: Seq<Seq<char>>|
                        other.is_prefix_of(entry) && other.is_prefix_of(all[i as int])
                            ==> other.len() <= views(dir@).len(),
                decreases dir.len(),
            {
                let ghost before = views(dir@);
                dir.pop();
                proof {
                    assert(views(dir@) =~= before.take(before.len() - 1));
                    lemma_shorter_prefix(before, entry, before.len() - 1);
                    assert forall|other: Seq<Seq<char>>|
                        other.is_prefix_of(entry) && other.is_prefix_of(
                            all[i as int],
                        ) implies other.len() <= views(dir@).len() by {
                        if other.len() == before.len() {
                            lemma_same_prefix(other, before, entry);
                            assert(other =~= before);
                        }
                    }
                }
            }
            proof {
                let now = views(dir@);
                assert(all[i as int] == views(paths@[i as int]@));
                if now.len() == 0 {
                    assert(now =~= all[i as int].subrange(0, 0));
                }
                lemma_shorter_prefix(entry, first_parent, now.len() as int);
                assert(now =~= entry.take(now.len() as int));
                assert forall|k: int| 1 <= k < i + 1 implies now.is_prefix_of(#[trigger] all[k]) by {
                    if k < i {
                        lemma_shorter_prefix(entry, all[k], now.len() as int);
                    }
                }
                assert forall|other: Seq<Seq<char>>|
                    other.is_prefix_of(first_parent) && (forall|k: int|
                        1 <= k < i + 1 ==> other.is_prefix_of(#[trigger] all[k])) implies other.len()
                        <= now.len() by {
                    assert(other.is_prefix_of(all[i as int]));
                    assert(other.len() <= entry.len());
                    lemma_same_prefix(other, entry, first_parent);
                }
            }
            i += 1;
        }
        proof {
            assert forall|other: Seq<Seq<char>>| #[trigger]
                holds_all(all, other) implies other.len() <= views(dir@).len() by {}
        }
        dir
    }

    /// The executables of the prefix whose tree is `tree`, with the
    /// directory that holds them all.
    pub fn find_in_prefix(tree: &DirTree, arch: PrefixArch) -> (apps: Applications)
        ensures
            path_views(apps.found@) == discovered(tree@, arch),
            is_common_prefix(path_views(apps.found@), views(apps.common_prefix@)),
    {
        let found = unique_executables(tree, arch);
        let common_prefix = Applications::find_common_path_prefix(&found);
        Applications { found, common_prefix }
    }

    /// The executables that lie at or below the common directory, relative
    /// to it, in order.
    pub fn stripped_iter(&self) -> (paths: Vec<RelPath>)
        ensures
            path_views(paths@) == stripped_all(path_views(self.found@), views(self.common_prefix@)),
    {
        let ghost all = path_views(self.found@);
        let ghost base = views(self.common_prefix@);
        let mut paths: Vec<RelPath> = Vec::new();
        let mut i: usize = 0;
        proof {
            assert(all.take(0) =~= Seq::empty());
            assert(path_views(paths@) =~= Seq::empty());
        }
        while i < self.found.len()
            invariant
                i <= self.found.len(),
                all == path_views(self.found@),
                base == views(self.common_prefix@),
                path_views(paths@) == stripped_all(all.take(i as int), base),
            decreases self.found.len() - i,
        {
            proof {
                assert(all.take(i + 1).drop_last() =~= all.take(i as int));
                assert(all.take(i + 1).last() == views(self.found@[i as int]@));
            }
            let ghost prev = paths@;
            if starts_with_path(&self.found[i], &self.common_prefix) {
                let rest = strip_base_path(&self.common_prefix, clone_path(&self.found[i]));
                paths.push(rest);
                proof {
                    assert(path_views(paths@) =~= path_views(prev).push(views(rest@)));
                    assert(views(self.found@[i as int]@).subrange(
                        base.len() as int,
                        views(self.found@[i as int]@).len() as int,
                    ) =~= views(self.found@[i as int]@).skip(base.len() as int));
                }
            }
            i += 1;
        }
        proof {
            assert(all.take(self.found.len() as int) =~= all);
        }
        paths
    }
}

} // verus!
