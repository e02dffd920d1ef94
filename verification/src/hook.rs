//! Hooks: named scripts run against a prefix, one after the other.
//!
//! A batch of hooks is a small machine. It says what to do next: look
//! whether a script exists, or run it. The caller does that and reports
//! back. A hook whose script is missing, or that fails, gets its status and
//! the batch goes on with the next hook.

use crate::config::{prefix_location, Config, ConfigView};
use crate::env::EnvVars;
use crate::error::PrefixError;
use crate::launch::{exited_cleanly, ran_cleanly, ExitReport, Invocation, InvocationView};
use crate::path::{join_path, joined};
use crate::prefix::{drive_dir, prefix_env, Prefix, PrefixView};
use crate::text::{clone_strings, views};
use vstd::prelude::*;
use vstd::string::*;

verus! {

/// A hook, resolved to the location of its script.
#[derive(Debug, PartialEq, Eq)]
pub struct Hook {
    /// The location of the script.
    pub path: String,
}

/// The ending of every hook script.
pub open spec fn script_suffix() -> Seq<char> {
    seq!['.', 's', 'h']
}

/// The interpreter that runs hook scripts.
pub open spec fn interpreter() -> Seq<char> {
    "bash"@
}

/// The location of the script of the hook `name`: the name with the script
/// ending, inside the hooks directory.
pub open spec fn hook_path(hooks_dir: Seq<char>, name: Seq<char>) -> Seq<char> {
    joined(hooks_dir, name + script_suffix())
}

/// The process that runs the script at `path` with the given environment
/// and working directory.
pub open spec fn hook_invocation(
    path: Seq<char>,
    env: Map<Seq<char>, Seq<char>>,
    current_dir: Seq<char>,
) -> InvocationView {
    InvocationView { program: interpreter(), args: seq![path], env, current_dir: Some(current_dir) }
}

/// The final state of a hook.
#[derive(Clone, Copy, Debug, PartialEq, Eq, Structural)]
pub enum HookStatus {
    /// The script ran and ended with status zero.
    Succeeded,
    /// No script exists for the hook.
    NotFound,
    /// The script could not be run, or ended with a status other than zero.
    Failed,
}

/// The final state of a hook, given whether its script exists and, if it
/// does, how its run went.
pub open spec fn status_of(exists: bool, exit: ExitReport) -> HookStatus {
    if !exists {
        HookStatus::NotFound
    } else if exited_cleanly(exit) {
        HookStatus::Succeeded
    } else {
        HookStatus::Failed
    }
}

/// What the caller reports back to a batch.
#[derive(Clone, Copy, Debug, PartialEq, Eq, Structural)]
pub enum HookEvent {
    /// Whether the script of the pending hook exists.
    Resolved(bool),
    /// How the run of the resolved hook went.
    Exited(ExitReport),
}

/// What a batch asks the caller to do next.
#[derive(Debug, PartialEq, Eq)]
pub enum HookAction {
    /// Announce the hook at `index` of `total`, counted from zero, and look
    /// whether the script at `path` exists.
    Resolve { index: usize, total: usize, path: String },
    /// Run this process and wait for it.
    Run(Invocation),
    /// Nothing: every hook has its status.
    Finished,
}

/// The state of a batch: the hooks, what their processes get, the statuses
/// of the hooks that are done, and whether the next hook is resolved and
/// waits for its run.
pub struct BatchView {
    pub hooks_dir: Seq<char>,
    pub names: Seq<Seq<char>>,
    pub env: Map<Seq<char>, Seq<char>>,
    pub current_dir: Seq<char>,
    pub statuses: Seq<HookStatus>,
    pub running: bool,
}

/// Whether every hook of the batch has its status.
pub open spec fn finished(state: BatchView) -> bool {
    state.statuses.len() >= state.names.len()
}

/// The state after an event. A finished batch stays as it is, and so does
/// a batch that is told something it did not ask for.
pub open spec fn advanced(state: BatchView, event: HookEvent) -> BatchView {
    if finished(state) {
        state
    } else {
        match event {
            HookEvent::Resolved(exists) => if state.running {
                state
            } else if exists {
                BatchView { running: true, ..state }
            } else {
                BatchView { statuses: state.statuses.push(HookStatus::NotFound), ..state }
            },
            HookEvent::Exited(exit) => if state.running {
                BatchView {
                    statuses: state.statuses.push(status_of(true, exit)),
                    running: false,
                    ..state
                }
            } else {
                state
            },
        }
    }
}

/// An event changes nothing but the progress of a batch: the hooks and
/// what their processes get stay, the statuses that were given stay, and at
/// most one status is added. A hook that was missing or failed is never
/// taken back, and never keeps the batch from going on.
pub proof fn law_statuses_are_final(state: BatchView, event: HookEvent)
    ensures
        advanced(state, event).names == state.names,
        advanced(state, event).hooks_dir == state.hooks_dir,
        advanced(state, event).env == state.env,
        advanced(state, event).current_dir == state.current_dir,
        state.statuses.is_prefix_of(advanced(state, event).statuses),
        advanced(state, event).statuses.len() <= state.statuses.len() + 1,
        state.statuses.len() <= state.names.len() ==> advanced(state, event).statuses.len()
            <= state.names.len(),
{
    let next = advanced(state, event).statuses;
    assert(state.statuses =~= next.subrange(0, state.statuses.len() as int));
}

/// Whether `action` is what a batch in `state` asks for.
pub open spec fn asks_for(state: BatchView, action: HookAction) -> bool {
    match action {
        HookAction::Finished => finished(state),
        HookAction::Resolve { index, total, path } => {
            &&& !finished(state)
            &&& !state.running
            &&& index == state.statuses.len()
            &&& total == state.names.len()
            &&& path@ == hook_path(state.hooks_dir, state.names[index as int])
        },
        HookAction::Run(cmd) => {
            &&& !finished(state)
            &&& state.running
            &&& cmd@ == hook_invocation(
                hook_path(state.hooks_dir, state.names[state.statuses.len() as int]),
                state.env,
                state.current_dir,
            )
        },
    }
}

/// A batch of hooks to run against one prefix.
#[derive(Debug)]
pub struct HookBatch {
    hooks_dir: String,
    names: Vec<String>,
    env: EnvVars,
    current_dir: String,
    statuses: Vec<HookStatus>,
    running: bool,
}

impl View for HookBatch {
    type V = BatchView;

    closed spec fn view(&self) -> BatchView {
        BatchView {
            hooks_dir: self.hooks_dir@,
            names: views(self.names@),
            env: self.env@,
            current_dir: self.current_dir@,
            statuses: self.statuses@,
            running: self.running,
        }
    }
}

impl Hook {
    /// The location of the script of the hook `name`.
    pub fn get_path(hooks_dir: &str, name: &str) -> (path: String)
        ensures
            path@ == hook_path(hooks_dir@, name@),
    {
        let mut file = String::from_str(name);
        proof {
            reveal_strlit(".sh");
            assert(".sh"@ =~= script_suffix());
        }
        file.append(".sh");
        join_path(hooks_dir, file.as_str())
    }

    /// The hook `name`, resolved to the location of its script. Whether the
    /// script exists is for the caller to find out.
    pub fn create(hooks_dir: &str, name: &str) -> (hook: Hook)
        ensures
            hook.path@ == hook_path(hooks_dir@, name@),
    {
        Hook { path: Hook::get_path(hooks_dir, name) }
    }

    /// The process that runs this hook against `prefix`: the interpreter
    /// with the script as its only argument, the environment of the prefix,
    /// and the drive root of the prefix as working directory.
    pub fn build_run_cmd(&self, config: &Config, prefix: &Prefix) -> (cmd: Invocation)
        ensures
            cmd@ == hook_invocation(
                self.path@,
                prefix_env(config@, prefix@, Map::empty()),
                joined(prefix_location(config@, prefix@.name), drive_dir()),
            ),
    {
        let mut args: Vec<String> = Vec::new();
        args.push(self.path.clone());
        proof {
            assert(views(args@) =~= seq![self.path@]);
        }
        let mut cmd = Invocation {
            program: String::from_str("bash"),
            args,
            env: EnvVars::new(),
            current_dir: None,
        };
        prefix.attach_cmd_to_prefix(config, &mut cmd);
        cmd
    }

    /// The outcome of a run of this hook: it fails if the script could not
    /// be started or ended with a status other than zero.
    pub fn run(&self, status: ExitReport) -> (outcome: Result<(), PrefixError>)
        ensures
            outcome == if exited_cleanly(status) {
                Ok::<(), PrefixError>(())
            } else {
                Err::<(), PrefixError>(PrefixError::FailedToRunHook)
            },
    {
        if ran_cleanly(status) {
            Ok(())
        } else {
            Err(PrefixError::FailedToRunHook)
        }
    }
}

impl HookBatch {
    /// A batch that will run `names`, in order, with the given environment
    /// and working directory.
    pub fn new(hooks_dir: String, names: Vec<String>, env: EnvVars, current_dir: String) -> (batch:
        HookBatch)
        ensures
            batch@ == (BatchView {
                hooks_dir: hooks_dir@,
                names: views(names@),
                env: env@,
                current_dir: current_dir@,
                statuses: Seq::empty(),
                running: false,
            }),
    {
        HookBatch { hooks_dir, names, env, current_dir, statuses: Vec::new(), running: false }
    }

    /// Whether every hook has its status.
    pub fn is_finished(&self) -> (done: bool)
        ensures
            done == finished(self@),
    {
        self.statuses.len() >= self.names.len()
    }

    /// How many hooks have their status.
    pub fn completed(&self) -> (count: usize)
        ensures
            count == self@.statuses.len(),
    {
        self.statuses.len()
    }

    /// Whether the next hook is resolved and waits for its run.
    pub fn is_running(&self) -> (running: bool)
        ensures
            running == self@.running,
    {
        self.running
    }

    /// What the caller is to do next.
    pub fn next_action(&self) -> (action: HookAction)
        ensures
            asks_for(self@, action),
    {
        let at: usize = self.statuses.len();
        if at >= self.names.len() {
            return HookAction::Finished;
        }
        let path = Hook::get_path(self.hooks_dir.as_str(), self.names[at].as_str());
        if self.running {
            let mut args: Vec<String> = Vec::new();
            args.push(path);
            proof {
                assert(views(args@) =~= seq![hook_path(self@.hooks_dir, self@.names[at as int])]);
            }
            HookAction::Run(
                Invocation {
                    program: String::from_str("bash"),
                    args,
                    env: self.env.duplicate(),
                    current_dir: Some(self.current_dir.clone()),
                },
            )
        } else {
            HookAction::Resolve { index: at, total: self.names.len(), path }
        }
    }

    /// Takes in what the caller reports.
    pub fn advance(&mut self, event: HookEvent)
        ensures
            final(self)@ == advanced(old(self)@, event),
    {
        if self.statuses.len() >= self.names.len() {
            return;
        }
        match event {
            HookEvent::Resolved(exists) => {
                if !self.running {
                    if exists {
                        self.running = true;
                    } else {
                        self.statuses.push(HookStatus::NotFound);
                    }
                }
            },
            HookEvent::Exited(exit) => {
                if self.running {
                    let status = if ran_cleanly(exit) {
                        HookStatus::Succeeded
                    } else {
                        HookStatus::Failed
                    };
                    self.statuses.push(status);
                    self.running = false;
                }
            },
        }
    }

    /// The statuses of the hooks that are done, in the order of the hooks.
    pub fn statuses(&self) -> (statuses: &Vec<HookStatus>)
        ensures
            statuses@ == self@.statuses,
    {
        &self.statuses
    }

    /// The names of the hooks of the batch.
    pub fn names(&self) -> (names: &Vec<String>)
        ensures
            views(names@) == self@.names,
    {
        &self.names
    }
}

/// Whether the hook at `at` is the first that did not succeed.
pub open spec fn first_failure(statuses: Seq<HookStatus>, at: int) -> bool {
    &&& 0 <= at < statuses.len()
    &&& statuses[at] != HookStatus::Succeeded
    &&& forall|j: int| 0 <= j < at ==> statuses[j] == HookStatus::Succeeded
}

impl HookBatch {
    /// The outcome of the batch for a caller that named its hooks itself:
    /// the first hook that did not succeed fails the call, a missing script
    /// by the name of its hook.
    pub fn outcome(&self) -> (outcome: Result<(), PrefixError>)
        ensures
            match outcome {
                Ok(_) => forall|j: int|
                    0 <= j < self@.statuses.len() ==> self@.statuses[j] == HookStatus::Succeeded,
                Err(PrefixError::HookNotFound(name)) => exists|at: int|
                    first_failure(self@.statuses, at) && self@.statuses[at] == HookStatus::NotFound
                        && (at < self@.names.len() ==> name@ == self@.names[at]),
                Err(PrefixError::FailedToRunHook) => exists|at: int|
                    first_failure(self@.statuses, at) && self@.statuses[at] == HookStatus::Failed,
                Err(_) => false,
            },
    {
        let mut i: usize = 0;
        while i < self.statuses.len()
            invariant
                i <= self.statuses.len(),
                forall|j: int| 0 <= j < i ==> self.statuses@[j] == HookStatus::Succeeded,
            decreases self.statuses.len() - i,
        {
            match self.statuses[i] {
                HookStatus::Succeeded => {},
                HookStatus::NotFound => {
                    proof {
                        assert(first_failure(self@.statuses, i as int));
                    }
                    let name = if i < self.names.len() {
                        self.names[i].clone()
                    } else {
                        String::new()
                    };
                    return Err(PrefixError::HookNotFound(name));
                },
                HookStatus::Failed => {
                    proof {
                        assert(first_failure(self@.statuses, i as int));
                    }
                    return Err(PrefixError::FailedToRunHook);
                },
            }
            i += 1;
        }
        Ok(())
    }
}

/// The batch that runs `names` against a prefix: each hook gets the
/// environment of the prefix and starts in its drive root.
pub open spec fn hooks_batch(
    config: ConfigView,
    prefix: PrefixView,
    hooks_dir: Seq<char>,
    names: Seq<Seq<char>>,
) -> BatchView {
    BatchView {
        hooks_dir,
        names,
        env: prefix_env(config, prefix, Map::empty()),
        current_dir: joined(prefix_location(config, prefix.name), drive_dir()),
        statuses: Seq::empty(),
        running: false,
    }
}

impl Prefix {
    /// Whether a run of hooks passes this prefix over: it does when the
    /// prefix wants its hooks run explicitly and the run did not name it.
    pub fn skips_hooks(&self, targeted: bool) -> (skips: bool)
        ensures
            skips == (self@.run_hooks_explicitly && !targeted),
    {
        self.run_hooks_explicitly && !targeted
    }

    /// The batch that runs `hooks` against this prefix. `targeted` says
    /// whether the run named this prefix. A prefix that wants its hooks run
    /// explicitly gets an empty batch from a run that did not name it.
    pub fn run_hooks(&self, config: &Config, hooks_dir: &str, hooks: &Vec<String>, targeted: bool) -> (batch:
        HookBatch)
        ensures
            batch@ == hooks_batch(
                config@,
                self@,
                hooks_dir@,
                if self@.run_hooks_explicitly && !targeted {
                    Seq::empty()
                } else {
                    views(hooks@)
                },
            ),
    {
        let names: Vec<String> = if self.skips_hooks(targeted) {
            let none: Vec<String> = Vec::new();
            proof {
                assert(views(none@) =~= Seq::empty());
            }
            none
        } else {
            clone_strings(hooks)
        };
        let none = EnvVars::new();
        let env = self.compose_env(config, &none);
        let root = self.get_prefix_path(config);
        HookBatch::new(
            String::from_str(hooks_dir),
            names,
            env,
            join_path(root.as_str(), "drive_c"),
        )
    }

    /// The batch that runs the one hook `name` against this prefix. Its
    /// `outcome` is the outcome of the call.
    pub fn run_hook(&self, config: &Config, hooks_dir: &str, name: &str) -> (batch: HookBatch)
        ensures
            batch@ == hooks_batch(config@, self@, hooks_dir@, seq![name@]),
    {
        let mut names: Vec<String> = Vec::new();
        names.push(String::from_str(name));
        proof {
            assert(views(names@) =~= seq![name@]);
        }
        let none = EnvVars::new();
        let env = self.compose_env(config, &none);
        let root = self.get_prefix_path(config);
        HookBatch::new(
            String::from_str(hooks_dir),
            names,
            env,
            join_path(root.as_str(), "drive_c"),
        )
    }
}

/// The outcome of one hook that the caller named itself: a missing script
/// and a failed run are both failures of the call.
pub fn hook_result(name: &str, status: HookStatus) -> (outcome: Result<(), PrefixError>)
    ensures
        match outcome {
            Ok(_) => status == HookStatus::Succeeded,
            Err(PrefixError::HookNotFound(hook)) => status == HookStatus::NotFound && hook@
                == name@,
            Err(PrefixError::FailedToRunHook) => status == HookStatus::Failed,
            Err(_) => false,
        },
{
    match status {
        HookStatus::Succeeded => Ok(()),
        HookStatus::NotFound => Err(PrefixError::HookNotFound(String::from_str(name))),
        HookStatus::Failed => Err(PrefixError::FailedToRunHook),
    }
}

/// What was observed of one hook: whether its script exists and, if it
/// does, how its run went.
#[derive(Debug)]
pub struct ObservedHook {
    /// The name of the hook.
    pub name: String,
    /// Whether its script exists.
    pub exists: bool,
    /// How its run went. Ignored when the script does not exist.
    pub exit: ExitReport,
}

/// The statuses that a batch gives to hooks observed like this.
pub open spec fn statuses_of(hooks: Seq<ObservedHook>) -> Seq<HookStatus> {
    hooks.map_values(|hook: ObservedHook| status_of(hook.exists, hook.exit))
}

/// Every hook of a batch gets a status, and the status of a hook depends on
/// what was observed of that hook alone: a missing script or a failed run
/// changes nothing for the hooks that follow.
pub proof fn law_batch_reports_every_hook(hooks: Seq<ObservedHook>)
    ensures
        statuses_of(hooks).len() == hooks.len(),
        forall|i: int|
            0 <= i < hooks.len() ==> #[trigger] statuses_of(hooks)[i] == status_of(
                hooks[i].exists,
                hooks[i].exit,
            ),
{
}

/// Runs a batch over hooks whose observations are known, and returns the
/// status of every one of them: no failure ends the batch early.
pub fn run_list(hooks: &Vec<ObservedHook>) -> (statuses: Vec<HookStatus>)
    ensures
        statuses@ == statuses_of(hooks@),
{
    let mut names: Vec<String> = Vec::new();
    let mut i: usize = 0;
    while i < hooks.len()
        invariant
            i <= hooks.len(),
            names@.len() == i,
        decreases hooks.len() - i,
    {
        names.push(hooks[i].name.clone());
        i += 1;
    }
    let mut batch = HookBatch::new(String::new(), names, EnvVars::new(), String::new());
    proof {
        assert(batch@.statuses =~= statuses_of(hooks@).take(0));
    }
    while !batch.is_finished()
        invariant
            batch@.names.len() == hooks@.len(),
            batch@.statuses.len() <= hooks@.len(),
            batch@.statuses == statuses_of(hooks@).take(batch@.statuses.len() as int),
            batch@.running ==> batch@.statuses.len() < hooks@.len() && hooks@[batch@.statuses.len() as int].exists,
        decreases 2 * (hooks@.len() - batch@.statuses.len()) - (if batch@.running { 1int } else { 0int }),
    {
        let at: usize = batch.completed();
        let ghost before = batch@;
        if batch.is_running() {
            batch.advance(HookEvent::Exited(hooks[at].exit));
        } else {
            batch.advance(HookEvent::Resolved(hooks[at].exists));
        }
        proof {
            if batch@.statuses.len() > before.statuses.len() {
                assert(batch@.statuses =~= statuses_of(hooks@).take(at + 1));
            }
        }
    }
    proof {
        assert(statuses_of(hooks@).take(hooks@.len() as int) =~= statuses_of(hooks@));
    }
    let mut statuses: Vec<HookStatus> = Vec::new();
    let done = batch.statuses();
    let mut k: usize = 0;
    while k < done.len()
        invariant
            k <= done.len(),
            statuses@ == done@.take(k as int),
        decreases done.len() - k,
    {
        statuses.push(done[k]);
        proof {
            assert(statuses@ =~= done@.take(k + 1));
        }
        k += 1;
    }
    proof {
        assert(done@.take(done.len() as int) =~= done@);
    }
    statuses
}

} // verus!
