use wpfxm::arch::PrefixArch;
use wpfxm::command::{
    clean_prefix, exec_to_run, load_or_create_pfx, manage_new_exec, plan_removal, select_exec,
    NewPrefixPlan, RemovalPlan,
};
use wpfxm::config::Config;
use wpfxm::env::EnvVars;
use wpfxm::error::{CommandError, InputError, PrefixError};
use wpfxm::name_map::NameMap;
use wpfxm::path::RelPath;
use wpfxm::prefix::{is_valid, Prefix, PrefixCandidate, PrefixData};
use wpfxm::scan::DirEntry;
use wpfxm::tree::DirTree;

fn path(text: &str) -> RelPath {
    text.split('/').map(|part| part.to_string()).collect()
}

fn sample() -> Prefix {
    let mut prefix = Prefix::new("steam".to_string(), PrefixArch::X86_64);
    prefix.saved_execs.insert("steam".to_string(), path("drive_c/Steam/steam.exe"));
    prefix.saved_execs.insert("game".to_string(), path("drive_c/Games/game.exe"));
    prefix.env_vars.insert("DXVK_HUD".to_string(), "fps".to_string());
    prefix.force_run_x86 = true;
    prefix.run_hooks_explicitly = true;
    prefix
}

#[test]
fn new_prefix_has_nothing_saved_and_nothing_set() {
    let prefix = Prefix::new("steam".to_string(), PrefixArch::X86);
    assert_eq!(prefix.name, "steam");
    assert_eq!(prefix.arch, PrefixArch::X86);
    assert_eq!(prefix.saved_execs.len(), 0);
    assert_eq!(prefix.env_vars, EnvVars::new());
    assert!(!prefix.force_run_x86);
    assert!(!prefix.run_hooks_explicitly);
}

#[test]
fn saving_and_loading_reproduces_the_prefix() {
    let data = sample().into_data();
    assert_eq!(Prefix::from_data("steam".to_string(), data), sample());
}

#[test]
fn name_comes_from_the_lookup_key() {
    let data = sample().into_data();
    let loaded = Prefix::from_data("renamed".to_string(), data);
    assert_eq!(loaded.name, "renamed");
    assert_eq!(loaded.into_data(), sample().into_data());
}

#[test]
fn stored_data_holds_everything_but_the_name() {
    let data = sample().into_data();
    let mut execs = NameMap::new();
    execs.insert("steam".to_string(), path("drive_c/Steam/steam.exe"));
    execs.insert("game".to_string(), path("drive_c/Games/game.exe"));
    let mut env = EnvVars::new();
    env.insert("DXVK_HUD".to_string(), "fps".to_string());
    assert_eq!(
        data,
        PrefixData {
            arch: PrefixArch::X86_64,
            saved_execs: execs,
            env_vars: env,
            force_run_x86: true,
            run_hooks_explicitly: true,
        }
    );
}

#[test]
fn data_of_a_prefix_is_kept_under_its_name() {
    assert_eq!(Prefix::get_data_path("/home/u/.local/share/wpfxm", "steam"), "/home/u/.local/share/wpfxm/steam");
}

#[test]
fn prefix_lives_under_the_base_directory_unless_it_has_its_own_location() {
    let mut config = Config::new("/home/u");
    let prefix = Prefix::new("steam".to_string(), PrefixArch::X86);
    assert_eq!(prefix.get_prefix_path(&config), "/home/u/.wine/steam");
    config.abs_prefix_paths.insert("steam".to_string(), "/mnt/steam".to_string());
    assert_eq!(prefix.get_prefix_path(&config), "/mnt/steam");
    assert_eq!(config.prefix_path("other"), "/home/u/.wine/other");
}

#[test]
fn directory_is_a_prefix_if_it_has_registry_and_drive() {
    assert!(is_valid(true, true));
    assert!(!is_valid(true, false));
    assert!(!is_valid(false, true));
    assert!(!is_valid(false, false));
}

#[test]
fn prefix_from_a_directory() {
    assert_eq!(
        Prefix::from_path("p".to_string(), true, Some(PrefixArch::X86)),
        Ok(Prefix::new("p".to_string(), PrefixArch::X86))
    );
    assert_eq!(
        Prefix::from_path("p".to_string(), false, Some(PrefixArch::X86)),
        Err(PrefixError::InvalidPrefix("p".to_string()))
    );
    assert_eq!(
        Prefix::from_path("p".to_string(), true, None),
        Err(PrefixError::FailedToDetectArch)
    );
}

#[test]
fn only_usable_directories_become_prefixes() {
    let candidates = vec![
        PrefixCandidate { name: "a".to_string(), valid: true, arch: Some(PrefixArch::X86) },
        PrefixCandidate { name: "b".to_string(), valid: false, arch: Some(PrefixArch::X86) },
        PrefixCandidate { name: "c".to_string(), valid: true, arch: None },
        PrefixCandidate { name: "d".to_string(), valid: true, arch: Some(PrefixArch::X86_64) },
    ];
    assert_eq!(
        Prefix::all_from_dir(candidates),
        vec![
            Prefix::new("a".to_string(), PrefixArch::X86),
            Prefix::new("d".to_string(), PrefixArch::X86_64),
        ]
    );
}

#[test]
fn executables_of_a_prefix_follow_its_architecture() {
    let mut tree = DirTree::new();
    tree.insert(path("drive_c"), Vec::new());
    tree.insert(path("drive_c/Program Files"), Vec::new());
    tree.insert(
        path("drive_c/Program Files (x86)"),
        vec![DirEntry { name: "Game".to_string(), is_dir: true }],
    );
    tree.insert(
        path("drive_c/Program Files (x86)/Game"),
        vec![DirEntry { name: "game.exe".to_string(), is_dir: false }],
    );
    let wide = Prefix::new("w".to_string(), PrefixArch::X86_64);
    let narrow = Prefix::new("n".to_string(), PrefixArch::X86);
    assert_eq!(
        wide.find_relative_executables(&tree),
        vec![path("drive_c/Program Files (x86)/Game/game.exe")]
    );
    assert_eq!(narrow.find_relative_executables(&tree), Vec::<RelPath>::new());
}

#[test]
fn saving_an_executable_keeps_names_unique() {
    let mut prefix = sample();
    manage_new_exec(&mut prefix, "game".to_string(), path("drive_c/Other/game.exe"));
    assert_eq!(prefix.saved_execs.len(), 2);
    assert_eq!(prefix.saved_execs.get("game"), Some(&path("drive_c/Other/game.exe")));
    manage_new_exec(&mut prefix, "tool".to_string(), path("drive_c/tool.exe"));
    assert_eq!(prefix.saved_execs.len(), 3);
    assert_eq!(prefix.saved_execs.get("steam"), Some(&path("drive_c/Steam/steam.exe")));
    assert_eq!(prefix.name, "steam");
    assert!(prefix.force_run_x86);
}

#[test]
fn cleaning_forgets_the_named_executables() {
    let mut prefix = sample();
    clean_prefix(&mut prefix, &vec!["game".to_string(), "unknown".to_string()]);
    assert_eq!(prefix.saved_execs.len(), 1);
    assert!(prefix.saved_execs.contains_key("steam"));
    assert!(!prefix.saved_execs.contains_key("game"));
    clean_prefix(&mut prefix, &Vec::new());
    assert_eq!(prefix.saved_execs.len(), 1);
}

#[test]
fn choosing_among_found_executables() {
    let found = vec![path("drive_c/a.exe"), path("drive_c/b.exe")];
    assert_eq!(select_exec("p", &found, "1"), Ok(Some(path("drive_c/a.exe"))));
    assert_eq!(select_exec("p", &found, "2"), Ok(Some(path("drive_c/b.exe"))));
    assert_eq!(select_exec("p", &found, "0"), Ok(None));
    assert_eq!(select_exec("p", &found, "3"), Ok(None));
    assert_eq!(
        select_exec("p", &found, "two"),
        Err(CommandError::Input(InputError::ParseFailed("two".to_string())))
    );
}

#[test]
fn nothing_found_is_a_failure_not_an_empty_choice() {
    assert_eq!(
        select_exec("steam", &Vec::new(), "1"),
        Err(CommandError::NoExecsDetected("steam".to_string()))
    );
}

#[test]
fn run_names_its_executable() {
    let prefix = sample();
    assert_eq!(exec_to_run(&prefix, Some("game")), Ok("game".to_string()));
    assert_eq!(
        exec_to_run(&prefix, Some("missing")),
        Err(CommandError::ExecNotManaged("missing".to_string()))
    );
    assert_eq!(exec_to_run(&prefix, None), Err(CommandError::NameNeededToRunExec));
}

#[test]
fn run_without_a_name_tries_the_name_of_the_prefix() {
    let mut prefix = Prefix::new("steam".to_string(), PrefixArch::X86);
    assert_eq!(
        exec_to_run(&prefix, None),
        Err(CommandError::ExecNotManaged("steam".to_string()))
    );
    prefix.saved_execs.insert("other".to_string(), path("drive_c/o.exe"));
    assert_eq!(
        exec_to_run(&prefix, None),
        Err(CommandError::ExecNotManaged("steam".to_string()))
    );
    prefix.saved_execs.remove("other");
    prefix.saved_execs.insert("steam".to_string(), path("drive_c/s.exe"));
    assert_eq!(exec_to_run(&prefix, None), Ok("steam".to_string()));
}

#[test]
fn plans_for_a_new_prefix() {
    assert_eq!(
        load_or_create_pfx("p", true, true),
        Err(CommandError::PrefixAlreadyManaged("p".to_string()))
    );
    assert_eq!(
        load_or_create_pfx("p", true, false),
        Ok(NewPrefixPlan {
            use_saved_data: false,
            detect_arch: true,
            create_prefix: false,
            save_data: true,
        })
    );
    assert_eq!(
        load_or_create_pfx("p", false, true),
        Ok(NewPrefixPlan {
            use_saved_data: true,
            detect_arch: false,
            create_prefix: true,
            save_data: false,
        })
    );
    assert_eq!(
        load_or_create_pfx("p", false, false),
        Ok(NewPrefixPlan {
            use_saved_data: false,
            detect_arch: false,
            create_prefix: true,
            save_data: true,
        })
    );
}

#[test]
fn plans_for_a_removal() {
    assert_eq!(
        plan_removal(false, false, false, false),
        Ok(RemovalPlan { remove_data: true, remove_prefix: true })
    );
    assert_eq!(
        plan_removal(true, false, true, false),
        Ok(RemovalPlan { remove_data: true, remove_prefix: false })
    );
    assert_eq!(
        plan_removal(false, true, false, true),
        Ok(RemovalPlan { remove_data: false, remove_prefix: true })
    );
    assert_eq!(plan_removal(true, false, false, true), Err(CommandError::PrefixDataDoesNotExist));
    assert_eq!(plan_removal(false, true, true, false), Err(CommandError::PrefixDoesNotExist));
    assert_eq!(plan_removal(true, true, false, false), Err(CommandError::PrefixDataDoesNotExist));
}
