use wpfxm::arch::PrefixArch;
use wpfxm::config::Config;
use wpfxm::env::EnvVars;
use wpfxm::error::PrefixError;
use wpfxm::hook::{
    hook_result, run_list, Hook, HookAction, HookBatch, HookEvent, HookStatus, ObservedHook,
};
use wpfxm::launch::{ExitReport, Invocation};
use wpfxm::name_map::NameMap;
use wpfxm::prefix::Prefix;

fn names(list: &[&str]) -> Vec<String> {
    list.iter().map(|name| name.to_string()).collect()
}

fn batch(list: &[&str]) -> HookBatch {
    HookBatch::new("/hooks".to_string(), names(list), EnvVars::new(), "/p/drive_c".to_string())
}

fn observed(name: &str, exists: bool, exit: ExitReport) -> ObservedHook {
    ObservedHook { name: name.to_string(), exists, exit }
}

fn config() -> Config {
    let mut global = EnvVars::new();
    global.insert("G".to_string(), "1".to_string());
    Config {
        base_directory: "/home/u/.wine".to_string(),
        abs_prefix_paths: NameMap::new(),
        setup_hooks: names(&["setup"]),
        global_env_vars: global,
    }
}

fn sorted(vars: &EnvVars) -> Vec<(String, String)> {
    let mut pairs = vars.entries();
    pairs.sort();
    pairs
}

#[test]
fn hook_script_lies_in_the_hooks_directory_with_its_extension() {
    assert_eq!(Hook::get_path("/home/u/.config/wpfxm/hooks", "dxvk"), "/home/u/.config/wpfxm/hooks/dxvk.sh");
    assert_eq!(Hook::get_path("/hooks/", "a.b"), "/hooks/a.b.sh");
    assert_eq!(Hook::create("/hooks", "fonts"), Hook { path: "/hooks/fonts.sh".to_string() });
}

#[test]
fn batch_goes_on_after_a_missing_script() {
    let mut batch = batch(&["A", "B", "C"]);
    let mut ran = Vec::new();
    loop {
        match batch.next_action() {
            HookAction::Resolve { path, .. } => {
                batch.advance(HookEvent::Resolved(path != "/hooks/B.sh"));
            }
            HookAction::Run(cmd) => {
                ran.push(cmd.args[0].clone());
                batch.advance(HookEvent::Exited(ExitReport::Code(0)));
            }
            HookAction::Finished => break,
        }
    }
    assert_eq!(
        batch.statuses(),
        &vec![HookStatus::Succeeded, HookStatus::NotFound, HookStatus::Succeeded]
    );
    assert_eq!(ran, vec!["/hooks/A.sh", "/hooks/C.sh"]);
}

#[test]
fn recorded_batch_reports_every_hook() {
    let hooks = vec![
        observed("A", true, ExitReport::Code(0)),
        observed("B", false, ExitReport::NotStarted),
        observed("C", true, ExitReport::Code(0)),
    ];
    assert_eq!(
        run_list(&hooks),
        vec![HookStatus::Succeeded, HookStatus::NotFound, HookStatus::Succeeded]
    );
}

#[test]
fn batch_goes_on_after_a_failed_run() {
    let hooks = vec![
        observed("A", true, ExitReport::Code(3)),
        observed("B", true, ExitReport::Code(0)),
        observed("C", true, ExitReport::Code(-1)),
        observed("D", false, ExitReport::Code(0)),
    ];
    assert_eq!(
        run_list(&hooks),
        vec![HookStatus::Failed, HookStatus::Succeeded, HookStatus::Failed, HookStatus::NotFound]
    );
}

#[test]
fn run_without_exit_code_counts_as_success() {
    assert_eq!(
        run_list(&vec![observed("A", true, ExitReport::NoCode)]),
        vec![HookStatus::Succeeded]
    );
}

#[test]
fn run_that_could_not_be_started_is_a_failure() {
    assert_eq!(
        run_list(&vec![
            observed("A", true, ExitReport::NotStarted),
            observed("B", true, ExitReport::Code(0)),
        ]),
        vec![HookStatus::Failed, HookStatus::Succeeded]
    );
}

#[test]
fn empty_batch_is_finished_at_once() {
    let batch = batch(&[]);
    assert!(batch.is_finished());
    assert_eq!(batch.next_action(), HookAction::Finished);
    assert_eq!(run_list(&Vec::new()), Vec::<HookStatus>::new());
}

#[test]
fn progress_is_announced_before_each_hook() {
    let mut batch = batch(&["A", "B"]);
    assert_eq!(
        batch.next_action(),
        HookAction::Resolve { index: 0, total: 2, path: "/hooks/A.sh".to_string() }
    );
    batch.advance(HookEvent::Resolved(false));
    assert_eq!(
        batch.next_action(),
        HookAction::Resolve { index: 1, total: 2, path: "/hooks/B.sh".to_string() }
    );
    batch.advance(HookEvent::Resolved(true));
    assert!(batch.is_running());
    assert_eq!(
        batch.next_action(),
        HookAction::Run(Invocation {
            program: "bash".to_string(),
            args: vec!["/hooks/B.sh".to_string()],
            env: EnvVars::new(),
            current_dir: Some("/p/drive_c".to_string()),
        })
    );
    batch.advance(HookEvent::Exited(ExitReport::Code(1)));
    assert_eq!(batch.next_action(), HookAction::Finished);
    assert_eq!(batch.completed(), 2);
    assert_eq!(batch.statuses(), &vec![HookStatus::NotFound, HookStatus::Failed]);
}

#[test]
fn event_that_was_not_asked_for_is_ignored() {
    let mut batch = batch(&["A"]);
    batch.advance(HookEvent::Exited(ExitReport::Code(1)));
    assert_eq!(batch.completed(), 0);
    assert!(!batch.is_running());
    batch.advance(HookEvent::Resolved(true));
    batch.advance(HookEvent::Resolved(false));
    assert!(batch.is_running());
    assert_eq!(batch.completed(), 0);
    batch.advance(HookEvent::Exited(ExitReport::Code(0)));
    assert_eq!(batch.statuses(), &vec![HookStatus::Succeeded]);
    batch.advance(HookEvent::Resolved(false));
    batch.advance(HookEvent::Exited(ExitReport::Code(1)));
    assert_eq!(batch.statuses(), &vec![HookStatus::Succeeded]);
}

#[test]
fn outcome_is_the_first_failure() {
    let mut batch = batch(&["A", "B", "C"]);
    assert_eq!(batch.outcome(), Ok(()));
    batch.advance(HookEvent::Resolved(true));
    batch.advance(HookEvent::Exited(ExitReport::Code(0)));
    assert_eq!(batch.outcome(), Ok(()));
    batch.advance(HookEvent::Resolved(false));
    assert_eq!(batch.outcome(), Err(PrefixError::HookNotFound("B".to_string())));
    batch.advance(HookEvent::Resolved(true));
    batch.advance(HookEvent::Exited(ExitReport::Code(2)));
    assert_eq!(batch.outcome(), Err(PrefixError::HookNotFound("B".to_string())));
}

#[test]
fn outcome_of_a_failed_run() {
    let mut batch = batch(&["A"]);
    batch.advance(HookEvent::Resolved(true));
    batch.advance(HookEvent::Exited(ExitReport::Code(2)));
    assert_eq!(batch.outcome(), Err(PrefixError::FailedToRunHook));
}

#[test]
fn single_hook_propagates_its_failure() {
    assert_eq!(hook_result("a", HookStatus::Succeeded), Ok(()));
    assert_eq!(
        hook_result("a", HookStatus::NotFound),
        Err(PrefixError::HookNotFound("a".to_string()))
    );
    assert_eq!(hook_result("a", HookStatus::Failed), Err(PrefixError::FailedToRunHook));
}

#[test]
fn exit_status_decides_about_a_run() {
    let hook = Hook::create("/hooks", "a");
    assert_eq!(hook.run(ExitReport::Code(0)), Ok(()));
    assert_eq!(hook.run(ExitReport::Code(1)), Err(PrefixError::FailedToRunHook));
    assert_eq!(hook.run(ExitReport::Code(-7)), Err(PrefixError::FailedToRunHook));
    assert_eq!(hook.run(ExitReport::NoCode), Ok(()));
    assert_eq!(hook.run(ExitReport::NotStarted), Err(PrefixError::FailedToRunHook));
}

#[test]
fn hook_process_gets_the_environment_and_drive_root_of_the_prefix() {
    let mut prefix = Prefix::new("steam".to_string(), PrefixArch::X86_64);
    prefix.env_vars.insert("P".to_string(), "2".to_string());
    let cmd = Hook::create("/hooks", "dxvk").build_run_cmd(&config(), &prefix);
    assert_eq!(cmd.program, "bash");
    assert_eq!(cmd.args, vec!["/hooks/dxvk.sh"]);
    assert_eq!(cmd.current_dir, Some("/home/u/.wine/steam/drive_c".to_string()));
    assert_eq!(
        sorted(&cmd.env),
        vec![
            ("G".to_string(), "1".to_string()),
            ("P".to_string(), "2".to_string()),
            ("WINEARCH".to_string(), "win64".to_string()),
            ("WINEPREFIX".to_string(), "/home/u/.wine/steam".to_string()),
            ("WPFXM_PFX_NAME".to_string(), "steam".to_string()),
        ]
    );
}

#[test]
fn prefix_that_wants_explicit_hooks_is_passed_over_unless_named() {
    let mut prefix = Prefix::new("steam".to_string(), PrefixArch::X86);
    prefix.run_hooks_explicitly = true;
    assert!(prefix.skips_hooks(false));
    assert!(!prefix.skips_hooks(true));
    let skipped = prefix.run_hooks(&config(), "/hooks", &names(&["a", "b"]), false);
    assert!(skipped.is_finished());
    assert_eq!(skipped.names(), &Vec::<String>::new());
    let named = prefix.run_hooks(&config(), "/hooks", &names(&["a", "b"]), true);
    assert!(!named.is_finished());
    assert_eq!(named.names(), &names(&["a", "b"]));
}

#[test]
fn ordinary_prefix_runs_hooks_of_any_run() {
    let prefix = Prefix::new("steam".to_string(), PrefixArch::X86);
    assert!(!prefix.skips_hooks(false));
    let batch = prefix.run_hooks(&config(), "/hooks", &names(&["a"]), false);
    assert_eq!(
        batch.next_action(),
        HookAction::Resolve { index: 0, total: 1, path: "/hooks/a.sh".to_string() }
    );
}

#[test]
fn single_named_hook_runs_even_for_an_explicit_prefix() {
    let mut prefix = Prefix::new("steam".to_string(), PrefixArch::X86);
    prefix.run_hooks_explicitly = true;
    let mut batch = prefix.run_hook(&config(), "/hooks", "a");
    assert_eq!(batch.names(), &names(&["a"]));
    batch.advance(HookEvent::Resolved(true));
    match batch.next_action() {
        HookAction::Run(cmd) => {
            assert_eq!(cmd.current_dir, Some("/home/u/.wine/steam/drive_c".to_string()));
            assert_eq!(cmd.env.get("WINEARCH"), Some("win32".to_string()));
        }
        other => panic!("unexpected action {:?}", other),
    }
    batch.advance(HookEvent::Exited(ExitReport::Code(9)));
    assert_eq!(batch.outcome(), Err(PrefixError::FailedToRunHook));
}
