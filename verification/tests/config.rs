use wpfxm::command::{require_managed, require_prefix_dir};
use wpfxm::config::{
    append_hooks, clean_config, remove_hooks, set_base_directory, set_setup_hooks,
    verify_hooks_exist, Config, ConfigError,
};
use wpfxm::env::EnvVars;
use wpfxm::error::{CommandError, ErrorSeverity};
use wpfxm::name_map::NameMap;

fn names(list: &[&str]) -> Vec<String> {
    list.iter().map(|name| name.to_string()).collect()
}

#[test]
fn first_configuration_points_below_the_home_directory() {
    let config = Config::new("/home/u");
    assert_eq!(config.base_directory, "/home/u/.wine");
    assert_eq!(config.abs_prefix_paths, NameMap::new());
    assert_eq!(config.setup_hooks, Vec::<String>::new());
    assert_eq!(config.global_env_vars, EnvVars::new());
}

#[test]
fn loaded_configuration_is_used_as_it_is() {
    let mut stored = Config::new("/elsewhere");
    stored.setup_hooks = names(&["a"]);
    let mut expected = Config::new("/elsewhere");
    expected.setup_hooks = names(&["a"]);
    assert_eq!(Config::load_or_create(Ok(stored), "/home/u"), Ok((expected, false)));
}

#[test]
fn missing_configuration_is_replaced_by_a_fresh_one() {
    assert_eq!(
        Config::load_or_create(Err(ConfigError::Missing), "/home/u"),
        Ok((Config::new("/home/u"), true))
    );
}

#[test]
fn unusable_configuration_is_a_failure() {
    assert_eq!(
        Config::load_or_create(Err(ConfigError::Unreadable), "/home/u"),
        Err(ConfigError::Unreadable)
    );
    assert_eq!(
        Config::load_or_create(Err(ConfigError::Malformed), "/home/u"),
        Err(ConfigError::Malformed)
    );
}

#[test]
fn appending_hooks_skips_those_that_are_present() {
    let mut hooks = names(&["a", "b"]);
    let skipped = append_hooks(names(&["b", "c", "c", "a", "d"]), &mut hooks);
    assert_eq!(hooks, names(&["a", "b", "c", "d"]));
    assert_eq!(skipped, names(&["b", "c", "a"]));
}

#[test]
fn appending_to_no_hooks_keeps_the_given_order() {
    let mut hooks = Vec::new();
    let skipped = append_hooks(names(&["z", "y", "x"]), &mut hooks);
    assert_eq!(hooks, names(&["z", "y", "x"]));
    assert_eq!(skipped, Vec::<String>::new());
}

#[test]
fn removing_hooks_keeps_the_order_of_the_rest() {
    let mut hooks = names(&["a", "b", "c", "b", "d"]);
    remove_hooks(&names(&["b", "x"]), &mut hooks);
    assert_eq!(hooks, names(&["a", "c", "d"]));
}

#[test]
fn removing_no_hooks_in_particular_removes_all() {
    let mut hooks = names(&["a", "b"]);
    remove_hooks(&Vec::new(), &mut hooks);
    assert_eq!(hooks, Vec::<String>::new());
}

#[test]
fn first_hook_without_script_is_reported() {
    let hooks = names(&["a", "b", "c"]);
    assert_eq!(verify_hooks_exist(&hooks, &vec![true, true, true]), Ok(()));
    assert_eq!(
        verify_hooks_exist(&hooks, &vec![true, false, false]),
        Err(CommandError::HookNotFound("b".to_string()))
    );
    assert_eq!(
        verify_hooks_exist(&hooks, &vec![true, true]),
        Err(CommandError::HookNotFound("c".to_string()))
    );
    assert_eq!(verify_hooks_exist(&Vec::new(), &Vec::new()), Ok(()));
}

#[test]
fn cleaning_forgets_locations_that_are_gone() {
    let mut config = Config::new("/home/u");
    config.abs_prefix_paths.insert("a".to_string(), "/mnt/a".to_string());
    config.abs_prefix_paths.insert("b".to_string(), "/mnt/b".to_string());
    config.setup_hooks = names(&["h"]);
    clean_config(&mut config, &names(&["a", "zzz"]));
    assert_eq!(config.abs_prefix_paths.len(), 1);
    assert_eq!(config.abs_prefix_paths.get("b"), Some(&"/mnt/b".to_string()));
    assert_eq!(config.abs_prefix_paths.get("a"), None);
    assert_eq!(config.setup_hooks, names(&["h"]));
    assert_eq!(config.base_directory, "/home/u/.wine");
}

#[test]
fn severities_have_their_words() {
    assert_eq!(ErrorSeverity::Warning.label(), "warning");
    assert_eq!(ErrorSeverity::Fatal.label(), "error");
}

#[test]
fn base_directory_must_exist() {
    let mut config = Config::new("/home/u");
    assert_eq!(set_base_directory(&mut config, "/mnt/wine".to_string(), true), Ok(()));
    assert_eq!(config.base_directory, "/mnt/wine");
    assert_eq!(
        set_base_directory(&mut config, "/nowhere".to_string(), false),
        Err(CommandError::PathDoesntExist("/nowhere".to_string()))
    );
    assert_eq!(config.base_directory, "/mnt/wine");
}

#[test]
fn setup_hooks_are_replaced_or_appended() {
    let mut config = Config::new("/home/u");
    assert_eq!(
        set_setup_hooks(&mut config, names(&["a", "b"]), &vec![true, true], false),
        Ok(Vec::new())
    );
    assert_eq!(config.setup_hooks, names(&["a", "b"]));
    assert_eq!(
        set_setup_hooks(&mut config, names(&["b", "c"]), &vec![true, true], true),
        Ok(names(&["b"]))
    );
    assert_eq!(config.setup_hooks, names(&["a", "b", "c"]));
    assert_eq!(
        set_setup_hooks(&mut config, names(&["x"]), &vec![true], false),
        Ok(Vec::new())
    );
    assert_eq!(config.setup_hooks, names(&["x"]));
}

#[test]
fn setup_hooks_stay_when_a_script_is_missing() {
    let mut config = Config::new("/home/u");
    config.setup_hooks = names(&["a"]);
    assert_eq!(
        set_setup_hooks(&mut config, names(&["b", "c"]), &vec![true, false], true),
        Err(CommandError::HookNotFound("c".to_string()))
    );
    assert_eq!(config.setup_hooks, names(&["a"]));
}

#[test]
fn commands_insist_on_what_they_need() {
    assert_eq!(require_managed("p", true), Ok(()));
    assert_eq!(
        require_managed("p", false),
        Err(CommandError::PrefixNotManaged("p".to_string()))
    );
    assert_eq!(require_prefix_dir(true), Ok(()));
    assert_eq!(require_prefix_dir(false), Err(CommandError::PrefixDoesNotExist));
}
