use wpfxm::arch::PrefixArch;
use wpfxm::env::{
    append_env_vars, compose, parse_env_var_arg, parse_env_var_args, remove_env_vars,
    required_runtime_vars, set_env_vars, EnvVars,
};

fn vars(pairs: &[(&str, &str)]) -> EnvVars {
    let mut vars = EnvVars::new();
    for (name, value) in pairs {
        vars.insert(name.to_string(), value.to_string());
    }
    vars
}

fn sorted(vars: &EnvVars) -> Vec<(String, String)> {
    let mut pairs = vars.entries();
    pairs.sort();
    pairs
}

fn pairs(list: &[(&str, &str)]) -> Vec<(String, String)> {
    list.iter().map(|(n, v)| (n.to_string(), v.to_string())).collect()
}

#[test]
fn new_set_is_empty() {
    let vars = EnvVars::new();
    assert_eq!(vars.entries(), Vec::<(String, String)>::new());
    assert_eq!(vars.get("A"), None);
    assert!(!vars.contains_key("A"));
}

#[test]
fn insert_then_get() {
    let mut vars = EnvVars::new();
    vars.insert("A".to_string(), "1".to_string());
    assert_eq!(vars.get("A"), Some("1".to_string()));
    assert!(vars.contains_key("A"));
    assert_eq!(vars.get("a"), None);
}

#[test]
fn insert_replaces_a_value() {
    let mut vars = vars(&[("A", "1")]);
    vars.insert("A".to_string(), "2".to_string());
    assert_eq!(sorted(&vars), pairs(&[("A", "2")]));
}

#[test]
fn remove_takes_one_name_out() {
    let mut vars = vars(&[("A", "1"), ("B", "2")]);
    vars.remove("A");
    assert_eq!(sorted(&vars), pairs(&[("B", "2")]));
    vars.remove("missing");
    assert_eq!(sorted(&vars), pairs(&[("B", "2")]));
}

#[test]
fn clear_removes_everything() {
    let mut vars = vars(&[("A", "1"), ("B", "2")]);
    vars.clear();
    assert_eq!(vars.entries(), Vec::<(String, String)>::new());
}

#[test]
fn entries_list_each_name_once() {
    let vars = vars(&[("B", "2"), ("A", "1"), ("C", "3"), ("A", "4")]);
    assert_eq!(sorted(&vars), pairs(&[("A", "4"), ("B", "2"), ("C", "3")]));
}

#[test]
fn duplicate_is_equal_and_independent() {
    let source = vars(&[("A", "1")]);
    let mut copy = source.duplicate();
    assert_eq!(copy, source);
    copy.insert("B".to_string(), "2".to_string());
    assert_eq!(sorted(&source), pairs(&[("A", "1")]));
    assert_eq!(sorted(&copy), pairs(&[("A", "1"), ("B", "2")]));
}

#[test]
fn argument_splits_at_first_equals_sign() {
    assert_eq!(parse_env_var_arg("A=B"), Some(("A".to_string(), "B".to_string())));
    assert_eq!(parse_env_var_arg("A=B=C"), Some(("A".to_string(), "B=C".to_string())));
    assert_eq!(parse_env_var_arg("=x"), Some(("".to_string(), "x".to_string())));
    assert_eq!(parse_env_var_arg("A="), Some(("A".to_string(), "".to_string())));
    assert_eq!(
        parse_env_var_arg("DXVK_HUD=fps,frametimes"),
        Some(("DXVK_HUD".to_string(), "fps,frametimes".to_string()))
    );
}

#[test]
fn argument_without_equals_sign_names_nothing() {
    assert_eq!(parse_env_var_arg("AB"), None);
    assert_eq!(parse_env_var_arg(""), None);
}

#[test]
fn argument_with_wide_characters_splits_by_character() {
    assert_eq!(
        parse_env_var_arg("n\u{e4}me=w\u{e9}rt"),
        Some(("n\u{e4}me".to_string(), "w\u{e9}rt".to_string()))
    );
}

#[test]
fn arguments_build_a_set_and_later_ones_win() {
    let args = vec![
        "A=1".to_string(),
        "bad".to_string(),
        "A=2".to_string(),
        "B=3".to_string(),
    ];
    let vars = parse_env_var_args(Some(args));
    assert_eq!(sorted(&vars), pairs(&[("A", "2"), ("B", "3")]));
}

#[test]
fn no_arguments_build_the_empty_set() {
    assert_eq!(parse_env_var_args(None), EnvVars::new());
    assert_eq!(parse_env_var_args(Some(Vec::new())), EnvVars::new());
}

#[test]
fn append_overwrites_names_that_are_present() {
    let mut dest = vars(&[("A", "old"), ("B", "keep")]);
    append_env_vars(&vars(&[("A", "new"), ("C", "added")]), &mut dest);
    assert_eq!(sorted(&dest), pairs(&[("A", "new"), ("B", "keep"), ("C", "added")]));
}

#[test]
fn removing_no_names_clears_the_set() {
    let mut dest = vars(&[("A", "1"), ("B", "2")]);
    remove_env_vars(&Vec::new(), &mut dest);
    assert_eq!(dest, EnvVars::new());
}

#[test]
fn removing_names_leaves_the_others() {
    let mut dest = vars(&[("A", "1"), ("B", "2"), ("C", "3")]);
    remove_env_vars(&vec!["A".to_string(), "C".to_string(), "X".to_string()], &mut dest);
    assert_eq!(sorted(&dest), pairs(&[("B", "2")]));
}

#[test]
fn set_replaces_or_appends() {
    let mut dest = vars(&[("A", "1"), ("B", "2")]);
    set_env_vars(vars(&[("A", "9")]), &mut dest, true);
    assert_eq!(sorted(&dest), pairs(&[("A", "9"), ("B", "2")]));
    set_env_vars(vars(&[("C", "3")]), &mut dest, false);
    assert_eq!(sorted(&dest), pairs(&[("C", "3")]));
}

#[test]
fn required_variables_are_exactly_three() {
    let vars = required_runtime_vars("/home/u/.wine/steam", PrefixArch::X86_64, "steam");
    assert_eq!(
        sorted(&vars),
        pairs(&[
            ("WINEARCH", "win64"),
            ("WINEPREFIX", "/home/u/.wine/steam"),
            ("WPFXM_PFX_NAME", "steam"),
        ])
    );
    let vars = required_runtime_vars("/p", PrefixArch::X86, "p");
    assert_eq!(vars.get("WINEARCH"), Some("win32".to_string()));
}

#[test]
fn composition_applies_layers_in_order() {
    let global = vars(&[("A", "global"), ("B", "global"), ("C", "global"), ("WINEARCH", "g")]);
    let prefix = vars(&[("B", "prefix"), ("C", "prefix")]);
    let launch = vars(&[("C", "launch")]);
    let env = compose("/p/n", PrefixArch::X86, "n", &global, &prefix, &launch);
    assert_eq!(
        sorted(&env),
        pairs(&[
            ("A", "global"),
            ("B", "prefix"),
            ("C", "launch"),
            ("WINEARCH", "g"),
            ("WINEPREFIX", "/p/n"),
            ("WPFXM_PFX_NAME", "n"),
        ])
    );
}

#[test]
fn required_variables_have_the_lowest_precedence() {
    let none = EnvVars::new();
    let env = compose("/p/n", PrefixArch::X86, "n", &none, &vars(&[("WINEPREFIX", "/x")]), &none);
    assert_eq!(env.get("WINEPREFIX"), Some("/x".to_string()));
    let env = compose(
        "/p/n",
        PrefixArch::X86,
        "n",
        &none,
        &none,
        &vars(&[("WPFXM_PFX_NAME", "other")]),
    );
    assert_eq!(env.get("WPFXM_PFX_NAME"), Some("other".to_string()));
}

#[test]
fn composition_leaves_its_inputs_alone() {
    let global = vars(&[("A", "1")]);
    let prefix = vars(&[("A", "2")]);
    let launch = vars(&[("A", "3")]);
    let _ = compose("/p", PrefixArch::X86, "p", &global, &prefix, &launch);
    assert_eq!(sorted(&global), pairs(&[("A", "1")]));
    assert_eq!(sorted(&prefix), pairs(&[("A", "2")]));
    assert_eq!(sorted(&launch), pairs(&[("A", "3")]));
}

#[test]
fn composing_twice_gives_the_same_map() {
    let global = vars(&[("A", "1"), ("B", "2")]);
    let prefix = vars(&[("B", "3")]);
    let launch = vars(&[("C", "4")]);
    let once = compose("/p", PrefixArch::X86_64, "p", &global, &prefix, &launch);
    let twice = compose("/p", PrefixArch::X86_64, "p", &global, &prefix, &launch);
    assert_eq!(once, twice);
    let mut again = once.duplicate();
    append_env_vars(&required_runtime_vars("/p", PrefixArch::X86_64, "p"), &mut again);
    append_env_vars(&global, &mut again);
    append_env_vars(&prefix, &mut again);
    append_env_vars(&launch, &mut again);
    assert_eq!(again, once);
}

#[test]
fn insertion_order_within_a_layer_does_not_matter() {
    let none = EnvVars::new();
    let one = vars(&[("A", "1"), ("B", "2"), ("C", "3")]);
    let other = vars(&[("C", "3"), ("A", "1"), ("B", "2")]);
    let launch = vars(&[("B", "wins")]);
    let left = compose("/p", PrefixArch::X86, "p", &none, &one, &launch);
    let right = compose("/p", PrefixArch::X86, "p", &none, &other, &launch);
    assert_eq!(left, right);
    assert_eq!(left.get("B"), Some("wins".to_string()));
}

#[test]
fn names_are_case_sensitive() {
    let none = EnvVars::new();
    let env = compose(
        "/p",
        PrefixArch::X86,
        "p",
        &vars(&[("Path", "a")]),
        &vars(&[("PATH", "b")]),
        &none,
    );
    assert_eq!(env.get("Path"), Some("a".to_string()));
    assert_eq!(env.get("PATH"), Some("b".to_string()));
}
