//! Paths inside a prefix, held as lists of components.
//!
//! A path is the list of its components, outermost first: `drive_c/Games/a.exe`
//! is `["drive_c", "Games", "a.exe"]`. Absolute locations on the host are
//! plain strings that this crate only joins with `/`.

use crate::text::{chars_of, clone_strings, ends_with, str_eq, views};
use vstd::prelude::*;
use vstd::string::*;

verus! {

/// A path relative to some root, one string per component.
pub type RelPath = Vec<String>;

/// The component views of a list of paths.
pub open spec fn path_views(paths: Seq<Vec<String>>) -> Seq<Seq<Seq<char>>> {
    paths.map_values(|p: Vec<String>| views(p@))
}

/// A copy of `path`.
pub fn clone_path(path: &Vec<String>) -> (copy: Vec<String>)
    ensures
        views(copy@) == views(path@),
{
    clone_strings(path)
}

/// Whether two paths have the same components.
pub fn path_eq(a: &Vec<String>, b: &Vec<String>) -> (same: bool)
    ensures
        same == (views(a@) == views(b@)),
{
    if a.len() != b.len() {
        proof {
            assert(views(a@).len() != views(b@).len());
        }
        return false;
    }
    let mut i: usize = 0;
    while i < a.len()
        invariant
            a.len() == b.len(),
            i <= a.len(),
            forall|j: int| 0 <= j < i ==> a@[j]@ == b@[j]@,
        decreases a.len() - i,
    {
        if !str_eq(a[i].as_str(), b[i].as_str()) {
            proof {
                assert(views(a@)[i as int] != views(b@)[i as int]);
            }
            return false;
        }
        i += 1;
    }
    proof {
        assert(views(a@) =~= views(b@));
    }
    true
}

/// The path of the entry `name` inside the directory `dir`.
pub fn child_path(dir: &Vec<String>, name: &str) -> (path: Vec<String>)
    ensures
        views(path@) == views(dir@).push(name@),
{
    let mut path = clone_path(dir);
    path.push(String::from_str(name));
    proof {
        assert(views(path@) =~= views(dir@).push(name@));
    }
    path
}

/// Whether `path` lies at or below `base`.
pub fn starts_with_path(path: &Vec<String>, base: &Vec<String>) -> (below: bool)
    ensures
        below == views(base@).is_prefix_of(views(path@)),
{
    if base.len() > path.len() {
        return false;
    }
    let mut i: usize = 0;
    while i < base.len()
        invariant
            base.len() <= path.len(),
            i <= base.len(),
            forall|j: int| 0 <= j < i ==> base@[j]@ == path@[j]@,
        decreases base.len() - i,
    {
        if !str_eq(base[i].as_str(), path[i].as_str()) {
            proof {
                assert(views(path@).subrange(0, base.len() as int)[i as int] != views(
                    base@,
                )[i as int]);
            }
            return false;
        }
        i += 1;
    }
    proof {
        assert(views(base@) =~= views(path@).subrange(0, base.len() as int));
    }
    true
}

/// `path` with the leading `base` taken off; a path that does not lie at or
/// below `base` is left as it is.
pub open spec fn stripped(base: Seq<Seq<char>>, path: Seq<Seq<char>>) -> Seq<Seq<char>> {
    if base.is_prefix_of(path) {
        path.subrange(base.len() as int, path.len() as int)
    } else {
        path
    }
}

/// Makes `path` relative to `base`. A path that does not lie at or below
/// `base` is returned unchanged.
pub fn strip_base_path(base: &Vec<String>, path: Vec<String>) -> (rest: Vec<String>)
    ensures
        views(rest@) == stripped(views(base@), views(path@)),
{
    if starts_with_path(&path, base) {
        let mut path = path;
        let ghost whole = path@;
        let rest = path.split_off(base.len());
        proof {
            assert(views(rest@) =~= views(whole).subrange(base.len() as int, whole.len() as int));
        }
        rest
    } else {
        path
    }
}

/// Makes every path of `paths` relative to `base`, in place. Paths that do
/// not lie at or below `base` stay as they are.
pub fn strip_base_paths(base: &Vec<String>, paths: &mut Vec<Vec<String>>)
    ensures
        final(paths)@.len() == old(paths)@.len(),
        forall|i: int|
            0 <= i < old(paths)@.len() ==> views(#[trigger] final(paths)@[i]@) == stripped(
                views(base@),
                views(old(paths)@[i]@),
            ),
{
    let ghost before = paths@;
    let mut i: usize = 0;
    while i < paths.len()
        invariant
            i <= paths.len(),
            paths@.len() == before.len(),
            forall|j: int|
                0 <= j < i ==> views(#[trigger] paths@[j]@) == stripped(
                    views(base@),
                    views(before[j]@),
                ),
            forall|j: int| i <= j < paths@.len() ==> paths@[j] == before[j],
        decreases paths.len() - i,
    {
        let mut path: Vec<String> = Vec::new();
        core::mem::swap(&mut paths[i], &mut path);
        let rest = strip_base_path(base, path);
        paths.set(i, rest);
        i += 1;
    }
}

/// The characters `.exe`.
pub open spec fn exe_suffix() -> Seq<char> {
    seq!['.', 'e', 'x', 'e']
}

/// Whether a file name carries the extension `exe`: it ends in `.exe` and
/// has at least one character before that.
pub open spec fn is_exe_name(name: Seq<char>) -> bool {
    name.len() > 4 && ends_with(name, exe_suffix())
}

/// Whether a file name carries the extension `exe`.
pub fn has_exe_extension(name: &str) -> (yes: bool)
    ensures
        yes == is_exe_name(name@),
{
    let chars = chars_of(name);
    let n: usize = chars.len();
    if n <= 4 {
        return false;
    }
    let yes = chars[n - 4] == '.' && chars[n - 3] == 'e' && chars[n - 2] == 'x' && chars[n - 1]
        == 'e';
    proof {
        let tail = name@.subrange(n - 4, n as int);
        if yes {
            assert(tail =~= exe_suffix());
        } else {
            assert(tail[0] == name@[n - 4]);
            assert(tail[1] == name@[n - 3]);
            assert(tail[2] == name@[n - 2]);
            assert(tail[3] == name@[n - 1]);
        }
    }
    yes
}

/// `child` placed under `base`: a child that starts with `/` stands alone,
/// an empty base gives the child, and otherwise the two are joined by one
/// `/` unless `base` already ends with one.
pub open spec fn joined(base: Seq<char>, child: Seq<char>) -> Seq<char> {
    if child.len() > 0 && child[0] == '/' {
        child
    } else if base.len() == 0 {
        child
    } else if base.last() == '/' {
        base + child
    } else {
        base + seq!['/'] + child
    }
}

/// Places `child` under the location `base`.
pub fn join_path(base: &str, child: &str) -> (path: String)
    ensures
        path@ == joined(base@, child@),
{
    let base_chars = chars_of(base);
    let child_chars = chars_of(child);
    if child_chars.len() > 0 && child_chars[0] == '/' {
        return String::from_str(child);
    }
    if base_chars.len() == 0 {
        return String::from_str(child);
    }
    let mut path = String::from_str(base);
    if base_chars[base_chars.len() - 1] != '/' {
        proof {
            reveal_strlit("/");
            assert("/"@ =~= seq!['/']);
        }
        path.append("/");
    }
    path.append(child);
    path
}

/// The components of `path` joined by `/`.
pub open spec fn displayed(path: Seq<Seq<char>>) -> Seq<char>
    decreases path.len(),
{
    if path.len() == 0 {
        Seq::empty()
    } else if path.len() == 1 {
        path[0]
    } else {
        displayed(path.drop_last()) + seq!['/'] + path.last()
    }
}

/// Writes a path with `/` between its components.
pub fn display_path(path: &Vec<String>) -> (text: String)
    ensures
        text@ == displayed(views(path@)),
{
    let mut text = String::new();
    let mut i: usize = 0;
    while i < path.len()
        invariant
            i <= path.len(),
            text@ == displayed(views(path@).take(i as int)),
        decreases path.len() - i,
    {
        proof {
            let upto = views(path@).take(i + 1);
            assert(upto.drop_last() =~= views(path@).take(i as int));
            assert(upto.last() == path@[i as int]@);
            reveal_strlit("/");
            assert("/"@ =~= seq!['/']);
            if i == 0 {
                assert(upto[0] == path@[0]@);
                assert(Seq::<char>::empty() + path@[0]@ =~= path@[0]@);
            }
        }
        if i > 0 {
            text.append("/");
        }
        text.append(path[i].as_str());
        i += 1;
    }
    proof {
        assert(views(path@).take(path.len() as int) =~= views(path@));
    }
    text
}

/// The directory that holds the last component of `path`; a path without
/// components has none.
pub fn parent_path(path: &Vec<String>) -> (parent: Option<Vec<String>>)
    ensures
        match parent {
            Some(dir) => path@.len() > 0 && views(dir@) == views(path@).drop_last(),
            None => path@.len() == 0,
        },
{
    if path.len() == 0 {
        return None;
    }
    let mut dir = clone_path(path);
    dir.pop();
    proof {
        assert(views(dir@) =~= views(path@).drop_last());
    }
    Some(dir)
}

} // verus!
