use wpfxm::name_map::NameMap;
use wpfxm::path::{
    child_path, clone_path, display_path, has_exe_extension, join_path, parent_path, path_eq,
    starts_with_path, strip_base_path, strip_base_paths, RelPath,
};
use wpfxm::text::{chars_of, eq_ignore_ascii_case, find_char, str_eq, to_ascii_lower};

fn path(text: &str) -> RelPath {
    if text.is_empty() {
        Vec::new()
    } else {
        text.split('/').map(|part| part.to_string()).collect()
    }
}

#[test]
fn base_is_stripped_from_a_path_below_it() {
    assert_eq!(
        strip_base_path(&path("home/u/.wine/p"), path("home/u/.wine/p/drive_c/a.exe")),
        path("drive_c/a.exe")
    );
    assert_eq!(strip_base_path(&path("a/b"), path("a/b")), path(""));
    assert_eq!(strip_base_path(&path(""), path("a/b")), path("a/b"));
}

#[test]
fn path_elsewhere_is_left_as_it_is() {
    assert_eq!(strip_base_path(&path("a/b"), path("a/c/d")), path("a/c/d"));
    assert_eq!(strip_base_path(&path("a/b"), path("a/bc/d")), path("a/bc/d"));
    assert_eq!(strip_base_path(&path("a/b/c"), path("a/b")), path("a/b"));
}

#[test]
fn paths_are_stripped_in_place() {
    let mut paths = vec![path("p/a.exe"), path("q/b.exe"), path("p/c/d.exe"), path("p")];
    strip_base_paths(&path("p"), &mut paths);
    assert_eq!(paths, vec![path("a.exe"), path("q/b.exe"), path("c/d.exe"), path("")]);
}

#[test]
fn path_comparison_is_by_component() {
    assert!(path_eq(&path("a/b"), &path("a/b")));
    assert!(!path_eq(&path("a/b"), &path("a/B")));
    assert!(!path_eq(&path("a/b"), &path("a")));
    assert!(!path_eq(&vec!["a/b".to_string()], &path("a/b")));
    assert!(starts_with_path(&path("a/b/c"), &path("a/b")));
    assert!(starts_with_path(&path("a/b"), &path("")));
    assert!(!starts_with_path(&path("a/bc"), &path("a/b")));
    assert!(!starts_with_path(&path("a"), &path("a/b")));
}

#[test]
fn child_parent_and_copy() {
    assert_eq!(child_path(&path("a/b"), "c.exe"), path("a/b/c.exe"));
    assert_eq!(child_path(&path(""), "c"), path("c"));
    assert_eq!(parent_path(&path("a/b/c.exe")), Some(path("a/b")));
    assert_eq!(parent_path(&path("a")), Some(path("")));
    assert_eq!(parent_path(&path("")), None);
    assert_eq!(clone_path(&path("a/b")), path("a/b"));
}

#[test]
fn executable_names() {
    assert!(has_exe_extension("game.exe"));
    assert!(has_exe_extension("a.exe"));
    assert!(has_exe_extension("my game.v2.exe"));
    assert!(has_exe_extension("..exe"));
    assert!(has_exe_extension("\u{e9}.exe"));
    assert!(!has_exe_extension(".exe"));
    assert!(!has_exe_extension("exe"));
    assert!(!has_exe_extension("game.EXE"));
    assert!(!has_exe_extension("game.exe "));
    assert!(!has_exe_extension("game.ex"));
    assert!(!has_exe_extension("gameexe"));
    assert!(!has_exe_extension(""));
}

#[test]
fn locations_are_joined_by_one_slash() {
    assert_eq!(join_path("/home/u", ".wine"), "/home/u/.wine");
    assert_eq!(join_path("/home/u/", ".wine"), "/home/u/.wine");
    assert_eq!(join_path("", "x"), "x");
    assert_eq!(join_path("/a", "/b"), "/b");
    assert_eq!(join_path("a", ""), "a/");
    assert_eq!(join_path("", ""), "");
}

#[test]
fn path_is_written_with_slashes() {
    assert_eq!(display_path(&path("drive_c/Program Files/a.exe")), "drive_c/Program Files/a.exe");
    assert_eq!(display_path(&path("a")), "a");
    assert_eq!(display_path(&path("")), "");
}

#[test]
fn strings_compare_by_character() {
    assert!(str_eq("", ""));
    assert!(str_eq("abc", "abc"));
    assert!(!str_eq("abc", "abd"));
    assert!(!str_eq("abc", "ab"));
    assert!(str_eq("\u{e9}t\u{e9}", "\u{e9}t\u{e9}"));
    assert!(!str_eq("\u{e9}", "e"));
}

#[test]
fn characters_of_a_string() {
    assert_eq!(chars_of("a\u{e9}="), vec!['a', '\u{e9}', '=']);
    assert_eq!(find_char(&chars_of("a\u{e9}=b=c"), '='), Some(2));
    assert_eq!(find_char(&chars_of("abc"), '='), None);
    assert_eq!(to_ascii_lower('A'), 'a');
    assert_eq!(to_ascii_lower('Z'), 'z');
    assert_eq!(to_ascii_lower('a'), 'a');
    assert_eq!(to_ascii_lower('['), '[');
    assert_eq!(to_ascii_lower('@'), '@');
    assert_eq!(to_ascii_lower('\u{c9}'), '\u{c9}');
    assert!(eq_ignore_ascii_case(&chars_of("TrUe"), &chars_of("true")));
    assert!(!eq_ignore_ascii_case(&chars_of("true"), &chars_of("tru")));
}

#[test]
fn name_map_keeps_insertion_order_and_unique_names() {
    let mut map: NameMap<u32> = NameMap::new();
    assert_eq!(map.len(), 0);
    map.insert("b".to_string(), 1);
    map.insert("a".to_string(), 2);
    map.insert("b".to_string(), 3);
    assert_eq!(map.len(), 2);
    assert_eq!(map.name_at(0), "b");
    assert_eq!(map.value_at(0), &3);
    assert_eq!(map.name_at(1), "a");
    assert_eq!(map.value_at(1), &2);
    assert_eq!(map.get("b"), Some(&3));
    assert_eq!(map.get("c"), None);
    assert!(map.contains_key("a"));
    assert!(!map.contains_key("A"));
}

#[test]
fn name_map_removal() {
    let mut map: NameMap<u32> = NameMap::new();
    map.insert("a".to_string(), 1);
    map.insert("b".to_string(), 2);
    map.insert("c".to_string(), 3);
    assert_eq!(map.remove("b"), Some(2));
    assert_eq!(map.remove("b"), None);
    assert_eq!(map.len(), 2);
    assert_eq!(map.name_at(0), "a");
    assert_eq!(map.name_at(1), "c");
    map.remove_all(&vec!["a".to_string(), "x".to_string(), "c".to_string()]);
    assert_eq!(map.len(), 0);
}
