//! Discovery of executables inside a prefix.
//!
//! The search never reads a directory itself. It says which directory it
//! wants listed next, is handed the listing, and goes on from there; pending
//! directories wait on an explicit work list, so no call nests deeper than
//! one level however deep the tree is.

use crate::arch::PrefixArch;
use crate::path::{child_path, has_exe_extension, is_exe_name, path_views, RelPath};
use crate::text::{contains_str, views};
use vstd::prelude::*;
use vstd::string::*;

verus! {

/// How many levels below a search root are read.
pub const MAX_SEARCH_DEPTH: u8 = 4;

/// One entry of a directory listing.
#[derive(Debug, Clone, PartialEq, Eq)]
pub struct DirEntry {
    /// The entry's name inside its directory.
    pub name: String,
    /// Whether the entry is itself a directory.
    pub is_dir: bool,
}

/// What a listing entry stands for.
pub struct EntryView {
    pub name: Seq<char>,
    pub is_dir: bool,
}

impl View for DirEntry {
    type V = EntryView;

    open spec fn view(&self) -> EntryView {
        EntryView { name: self.name@, is_dir: self.is_dir }
    }
}

/// The views of the entries of a listing.
pub open spec fn entry_views(entries: Seq<DirEntry>) -> Seq<EntryView> {
    entries.map_values(|e: DirEntry| e@)
}

/// The view of a listing that may have failed to be read.
pub open spec fn listing_view(listing: Option<&Vec<DirEntry>>) -> Option<Seq<EntryView>> {
    match listing {
        Some(entries) => Some(entry_views(entries@)),
        None => None,
    }
}

/// Folder names of a fresh installation directly inside the drive root.
pub open spec fn default_root_folders() -> Seq<Seq<char>> {
    seq![
        "Program Files"@,
        "Program Files (x86)"@,
        "ProgramData"@,
        "users"@,
        "windows"@,
        ".windows-serial"@,
    ]
}

/// Folder names of a fresh installation inside a program-files directory.
pub open spec fn default_program_files() -> Seq<Seq<char>> {
    seq!["Common Files"@, "Internet Explorer"@, "Windows Media Player"@, "Windows NT"@]
}

/// The drive root inside a prefix.
pub open spec fn drive_root() -> Seq<Seq<char>> {
    seq!["drive_c"@]
}

/// The program-files directory inside a prefix.
pub open spec fn program_files() -> Seq<Seq<char>> {
    seq!["drive_c"@, "Program Files"@]
}

/// The program-files directory for 32-bit programs inside a 64-bit prefix.
pub open spec fn program_files_x86() -> Seq<Seq<char>> {
    seq!["drive_c"@, "Program Files (x86)"@]
}

/// The entries of a listing of `dir` whose names are not excluded, as paths,
/// in listing order. Files and directories alike are kept.
pub open spec fn kept_entries(
    dir: Seq<Seq<char>>,
    entries: Seq<EntryView>,
    excluded: Seq<Seq<char>>,
) -> Seq<Seq<Seq<char>>>
    decreases entries.len(),
{
    if entries.len() == 0 {
        Seq::empty()
    } else {
        let front = kept_entries(dir, entries.drop_last(), excluded);
        if excluded.contains(entries.last().name) {
            front
        } else {
            front.push(dir.push(entries.last().name))
        }
    }
}

/// The files of a listing of `dir` that carry the extension `exe`, as paths,
/// in listing order.
pub open spec fn listed_executables(dir: Seq<Seq<char>>, entries: Seq<EntryView>) -> Seq<
    Seq<Seq<char>>,
>
    decreases entries.len(),
{
    if entries.len() == 0 {
        Seq::empty()
    } else {
        let front = listed_executables(dir, entries.drop_last());
        if !entries.last().is_dir && is_exe_name(entries.last().name) {
            front.push(dir.push(entries.last().name))
        } else {
            front
        }
    }
}

/// The directories of a listing of `dir`, as paths, in listing order.
pub open spec fn listed_directories(dir: Seq<Seq<char>>, entries: Seq<EntryView>) -> Seq<
    Seq<Seq<char>>,
>
    decreases entries.len(),
{
    if entries.len() == 0 {
        Seq::empty()
    } else {
        let front = listed_directories(dir, entries.drop_last());
        if entries.last().is_dir {
            front.push(dir.push(entries.last().name))
        } else {
            front
        }
    }
}

/// Appends to `results` the entries of a listing of `dir` whose names are
/// not excluded.
pub fn dir_diff(
    dir: &Vec<String>,
    entries: &Vec<DirEntry>,
    excluded: &Vec<String>,
    results: &mut Vec<RelPath>,
)
    ensures
        path_views(final(results)@) == path_views(old(results)@) + kept_entries(
            views(dir@),
            entry_views(entries@),
            views(excluded@),
        ),
{
    let ghost before = path_views(results@);
    let ghost all = entry_views(entries@);
    let mut i: usize = 0;
    proof {
        assert(all.take(0) =~= Seq::empty());
        assert(before + Seq::empty() =~= before);
    }
    while i < entries.len()
        invariant
            i <= entries.len(),
            all == entry_views(entries@),
            path_views(results@) == before + kept_entries(
                views(dir@),
                all.take(i as int),
                views(excluded@),
            ),
        decreases entries.len() - i,
    {
        proof {
            assert(all.take(i + 1).drop_last() =~= all.take(i as int));
            assert(all.take(i + 1).last() == entries@[i as int]@);
        }
        let ghost prev = results@;
        if !contains_str(excluded, entries[i].name.as_str()) {
            let path = child_path(dir, entries[i].name.as_str());
            results.push(path);
            proof {
                assert(path_views(results@) =~= path_views(prev).push(views(path@)));
                assert(before + kept_entries(
                    views(dir@),
                    all.take(i as int),
                    views(excluded@),
                ).push(views(path@)) =~= (before + kept_entries(
                    views(dir@),
                    all.take(i as int),
                    views(excluded@),
                )).push(views(path@)));
            }
        }
        i += 1;
    }
    proof {
        assert(all.take(entries.len() as int) =~= all);
    }
}

/// Splits a listing of `dir` into the executables it holds and the
/// directories it holds, both as paths and in listing order. A directory is
/// never an executable, whatever its name.
pub fn find_execs_and_dirs(dir: &Vec<String>, entries: &Vec<DirEntry>) -> (found: (
    Vec<RelPath>,
    Vec<RelPath>,
))
    ensures
        path_views(found.0@) == listed_executables(views(dir@), entry_views(entries@)),
        path_views(found.1@) == listed_directories(views(dir@), entry_views(entries@)),
{
    let ghost all = entry_views(entries@);
    let mut execs: Vec<RelPath> = Vec::new();
    let mut dirs: Vec<RelPath> = Vec::new();
    let mut i: usize = 0;
    proof {
        assert(all.take(0) =~= Seq::empty());
        assert(path_views(execs@) =~= Seq::empty());
        assert(path_views(dirs@) =~= Seq::empty());
    }
    while i < entries.len()
        invariant
            i <= entries.len(),
            all == entry_views(entries@),
            path_views(execs@) == listed_executables(views(dir@), all.take(i as int)),
            path_views(dirs@) == listed_directories(views(dir@), all.take(i as int)),
        decreases entries.len() - i,
    {
        proof {
            assert(all.take(i + 1).drop_last() =~= all.take(i as int));
            assert(all.take(i + 1).last() == entries@[i as int]@);
        }
        let ghost prev_execs = execs@;
        let ghost prev_dirs = dirs@;
        if entries[i].is_dir {
            let path = child_path(dir, entries[i].name.as_str());
            dirs.push(path);
            proof {
                assert(path_views(dirs@) =~= path_views(prev_dirs).push(views(path@)));
            }
        } else if has_exe_extension(entries[i].name.as_str()) {
            let path = child_path(dir, entries[i].name.as_str());
            execs.push(path);
            proof {
                assert(path_views(execs@) =~= path_views(prev_execs).push(views(path@)));
            }
        }
        i += 1;
    }
    proof {
        assert(all.take(entries.len() as int) =~= all);
    }
    (execs, dirs)
}

/// One directory that the search looks into for roots, with the names it
/// passes over there.
pub struct SearchLocation {
    /// The directory to list.
    pub dir: RelPath,
    /// Entry names that never become search roots.
    pub excluded: Vec<String>,
}

/// What a search location stands for: the directory and the excluded names.
pub open spec fn location_view(location: SearchLocation) -> (Seq<Seq<char>>, Seq<Seq<char>>) {
    (views(location.dir@), views(location.excluded@))
}

/// The views of a list of search locations.
pub open spec fn location_views(locations: Seq<SearchLocation>) -> Seq<
    (Seq<Seq<char>>, Seq<Seq<char>>),
> {
    locations.map_values(|l: SearchLocation| location_view(l))
}

/// The directories whose entries become search roots: the drive root, the
/// program-files directory and, unless the prefix is 32-bit only, the
/// program-files directory for 32-bit programs.
pub open spec fn top_level(arch: PrefixArch) -> Seq<(Seq<Seq<char>>, Seq<Seq<char>>)> {
    let both = seq![
        (drive_root(), default_root_folders()),
        (program_files(), default_program_files()),
    ];
    if arch == PrefixArch::X86 {
        both
    } else {
        both.push((program_files_x86(), default_program_files()))
    }
}

fn root_folder_names() -> (names: Vec<String>)
    ensures
        views(names@) == default_root_folders(),
{
    let mut names: Vec<String> = Vec::new();
    names.push(String::from_str("Program Files"));
    names.push(String::from_str("Program Files (x86)"));
    names.push(String::from_str("ProgramData"));
    names.push(String::from_str("users"));
    names.push(String::from_str("windows"));
    names.push(String::from_str(".windows-serial"));
    proof {
        assert(views(names@) =~= default_root_folders());
    }
    names
}

fn program_files_names() -> (names: Vec<String>)
    ensures
        views(names@) == default_program_files(),
{
    let mut names: Vec<String> = Vec::new();
    names.push(String::from_str("Common Files"));
    names.push(String::from_str("Internet Explorer"));
    names.push(String::from_str("Windows Media Player"));
    names.push(String::from_str("Windows NT"));
    proof {
        assert(views(names@) =~= default_program_files());
    }
    names
}

fn path_of_two(first: &str, second: &str) -> (path: RelPath)
    ensures
        views(path@) == seq![first@, second@],
{
    let mut path: Vec<String> = Vec::new();
    path.push(String::from_str(first));
    path.push(String::from_str(second));
    proof {
        assert(views(path@) =~= seq![first@, second@]);
    }
    path
}

/// The directories whose entries become search roots, with the names
/// excluded in each.
pub fn top_level_dirs(arch: PrefixArch) -> (locations: Vec<SearchLocation>)
    ensures
        location_views(locations@) == top_level(arch),
{
    let mut drive: Vec<String> = Vec::new();
    drive.push(String::from_str("drive_c"));
    proof {
        assert(views(drive@) =~= drive_root());
    }
    let mut locations: Vec<SearchLocation> = Vec::new();
    locations.push(SearchLocation { dir: drive, excluded: root_folder_names() });
    locations.push(
        SearchLocation {
            dir: path_of_two("drive_c", "Program Files"),
            excluded: program_files_names(),
        },
    );
    match arch {
        PrefixArch::X86 => {},
        PrefixArch::X86_64 => {
            locations.push(
                SearchLocation {
                    dir: path_of_two("drive_c", "Program Files (x86)"),
                    excluded: program_files_names(),
                },
            );
        },
    }
    proof {
        assert(location_views(locations@) =~= top_level(arch));
    }
    locations
}

/// The state of a search: what was found so far, and the directories still
/// to be read, the next one last, each with the number of levels that may
/// still be read from it on.
pub struct SearchView {
    pub found: Seq<Seq<Seq<char>>>,
    pub pending: Seq<(Seq<Seq<char>>, nat)>,
}

/// `dirs`, each to be read `depth` levels deep.
pub open spec fn with_depth(dirs: Seq<Seq<Seq<char>>>, depth: nat) -> Seq<(Seq<Seq<char>>, nat)> {
    dirs.map_values(|dir: Seq<Seq<char>>| (dir, depth))
}

/// The state before anything was read: nothing found, the roots pending so
/// that the first root is read first.
pub open spec fn initial(roots: Seq<Seq<Seq<char>>>, max_depth: nat) -> SearchView {
    SearchView {
        found: Seq::empty(),
        pending: if max_depth == 0 {
            Seq::empty()
        } else {
            with_depth(roots.reverse(), max_depth)
        },
    }
}

/// The state after the listing of the next pending directory came in.
///
/// The directory leaves the work list. If it could be read, its executables
/// are found, and its subdirectories become pending, one level shallower,
/// unless that level is the last. A directory that could not be read
/// contributes nothing.
pub open spec fn step(state: SearchView, listing: Option<Seq<EntryView>>) -> SearchView {
    if state.pending.len() == 0 {
        state
    } else {
        let (dir, depth) = state.pending.last();
        let rest = state.pending.drop_last();
        match listing {
            Some(entries) if depth > 0 => SearchView {
                found: state.found + listed_executables(dir, entries),
                pending: if depth > 1 {
                    rest + with_depth(
                        listed_directories(dir, entries).reverse(),
                        (depth - 1) as nat,
                    )
                } else {
                    rest
                },
            },
            _ => SearchView { found: state.found, pending: rest },
        }
    }
}

/// A search for executables below a list of roots, driven from outside: the
/// caller lists the directory that `next_dir` names and hands the listing to
/// `feed`, until `next_dir` has nothing left.
#[derive(Debug)]
pub struct ExecutableSearch {
    found: Vec<RelPath>,
    pending: Vec<(RelPath, u8)>,
}

/// The views of pending directories.
pub open spec fn pending_views(pending: Seq<(Vec<String>, u8)>) -> Seq<(Seq<Seq<char>>, nat)> {
    pending.map_values(|p: (Vec<String>, u8)| (views(p.0@), p.1 as nat))
}

impl View for ExecutableSearch {
    type V = SearchView;

    closed spec fn view(&self) -> SearchView {
        SearchView { found: path_views(self.found@), pending: pending_views(self.pending@) }
    }
}

impl ExecutableSearch {
    /// A search that will read `roots`, first to last, and from each root on
    /// at most `max_depth` levels.
    pub fn new(roots: Vec<RelPath>, max_depth: u8) -> (search: ExecutableSearch)
        ensures
            search@ == initial(path_views(roots@), max_depth as nat),
    {
        let mut roots = roots;
        let ghost all = path_views(roots@);
        let mut pending: Vec<(RelPath, u8)> = Vec::new();
        if max_depth > 0 {
            proof {
                assert(all.skip(all.len() as int).reverse() =~= Seq::empty());
                assert(pending_views(pending@) =~= with_depth(Seq::empty(), max_depth as nat));
            }
            while roots.len() > 0
                invariant
                    path_views(roots@) == all.take(roots@.len() as int),
                    roots@.len() <= all.len(),
                    pending_views(pending@) == with_depth(
                        all.skip(roots@.len() as int).reverse(),
                        max_depth as nat,
                    ),
                decreases roots.len(),
            {
                let ghost k = roots@.len() as int;
                let ghost prev_roots = roots@;
                let ghost prev_pending = pending@;
                let root = roots.pop().unwrap();
                pending.push((root, max_depth));
                proof {
                    assert(views(root@) == path_views(prev_roots)[k - 1]);
                    assert(path_views(roots@) =~= all.take(k - 1));
                    assert(all.skip(k - 1).reverse() =~= all.skip(k).reverse().push(all[k - 1]));
                    assert(pending_views(pending@) =~= pending_views(prev_pending).push(
                        (views(root@), max_depth as nat),
                    ));
                    assert(with_depth(all.skip(k - 1).reverse(), max_depth as nat) =~= with_depth(
                        all.skip(k).reverse(),
                        max_depth as nat,
                    ).push((all[k - 1], max_depth as nat)));
                }
            }
            proof {
                assert(all.skip(0) =~= all);
            }
        } else {
            proof {
                assert(pending_views(pending@) =~= Seq::empty());
            }
        }
        let found: Vec<RelPath> = Vec::new();
        proof {
            assert(path_views(found@) =~= Seq::empty());
        }
        ExecutableSearch { found, pending }
    }

    /// The directory whose listing the search needs next; `None` when the
    /// search is over.
    pub fn next_dir(&self) -> (dir: Option<&RelPath>)
        ensures
            match dir {
                Some(path) => self@.pending.len() > 0 && views(path@) == self@.pending.last().0,
                None => self@.pending.len() == 0,
            },
    {
        let n: usize = self.pending.len();
        if n == 0 {
            None
        } else {
            Some(&self.pending[n - 1].0)
        }
    }

    /// Whether every pending directory has been read.
    pub fn is_done(&self) -> (done: bool)
        ensures
            done == (self@.pending.len() == 0),
    {
        self.pending.len() == 0
    }

    /// Takes in the listing of the directory that `next_dir` named, or
    /// `None` if that directory could not be read. Once the search is over
    /// this does nothing.
    pub fn feed(&mut self, listing: Option<&Vec<DirEntry>>)
        ensures
            final(self)@ == step(old(self)@, listing_view(listing)),
    {
        let ghost before = self@;
        let ghost old_pending = self.pending@;
        let (dir, depth) = match self.pending.pop() {
            Some(top) => top,
            None => {
                return;
            },
        };
        proof {
            assert(pending_views(old_pending).last() == (views(dir@), depth as nat));
            assert(pending_views(self.pending@) =~= before.pending.drop_last());
        }
        let entries = match listing {
            Some(entries) => entries,
            None => {
                return;
            },
        };
        if depth == 0 {
            return;
        }
        let ghost all = entry_views(entries@);
        let ghost rest = self.pending@;
        let (mut execs, mut subdirs) = find_execs_and_dirs(&dir, entries);
        let ghost prev_found = self.found@;
        let ghost new_execs = execs@;
        self.found.append(&mut execs);
        proof {
            assert(path_views(self.found@) =~= path_views(prev_found) + path_views(new_execs));
        }
        if depth > 1 {
            let ghost dirs = listed_directories(views(dir@), all);
            let below: u8 = depth - 1;
            proof {
                assert(dirs.skip(dirs.len() as int).reverse() =~= Seq::empty());
                assert(pending_views(rest) + with_depth(Seq::empty(), below as nat) =~= pending_views(
                    rest,
                ));
            }
            while subdirs.len() > 0
                invariant
                    subdirs@.len() <= dirs.len(),
                    path_views(subdirs@) == dirs.take(subdirs@.len() as int),
                    pending_views(self.pending@) == pending_views(rest) + with_depth(
                        dirs.skip(subdirs@.len() as int).reverse(),
                        below as nat,
                    ),
                    path_views(self.found@) == before.found + listed_executables(views(dir@), all),
                decreases subdirs.len(),
            {
                let ghost k = subdirs@.len() as int;
                let ghost prev_subdirs = subdirs@;
                let ghost prev_pending = self.pending@;
                let sub = subdirs.pop().unwrap();
                self.pending.push((sub, below));
                proof {
                    assert(views(sub@) == path_views(prev_subdirs)[k - 1]);
                    assert(path_views(subdirs@) =~= dirs.take(k - 1));
                    assert(dirs.skip(k - 1).reverse() =~= dirs.skip(k).reverse().push(dirs[k - 1]));
                    assert(pending_views(self.pending@) =~= pending_views(prev_pending).push(
                        (views(sub@), below as nat),
                    ));
                    assert(with_depth(dirs.skip(k - 1).reverse(), below as nat) =~= with_depth(
                        dirs.skip(k).reverse(),
                        below as nat,
                    ).push((dirs[k - 1], below as nat)));
                    assert((pending_views(rest) + with_depth(
                        dirs.skip(k).reverse(),
                        below as nat,
                    )).push((dirs[k - 1], below as nat)) =~= pending_views(rest) + with_depth(
                        dirs.skip(k).reverse(),
                        below as nat,
                    ).push((dirs[k - 1], below as nat)));
                }
            }
            proof {
                assert(dirs.skip(0) =~= dirs);
            }
        }
    }

    /// What was found so far, in the order of discovery.
    pub fn found(&self) -> (paths: &Vec<RelPath>)
        ensures
            path_views(paths@) == self@.found,
    {
        &self.found
    }

    /// Ends the search and hands out what it found, in the order of
    /// discovery.
    pub fn into_found(self) -> (paths: Vec<RelPath>)
        ensures
            path_views(paths@) == self@.found,
    {
        self.found
    }
}

} // verus!
