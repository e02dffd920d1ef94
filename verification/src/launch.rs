//! What to start, with which arguments, environment and working directory.
//!
//! Nothing here starts a process. A launch is planned as an `Invocation`,
//! which the caller carries out.

use crate::arch::PrefixArch;
use crate::env::EnvVars;
use crate::error::{CommandError, PrefixError};
use crate::path::{display_path, displayed, join_path, joined};
use crate::text::views;
use vstd::prelude::*;
use vstd::string::*;

verus! {

/// The entry points of the compatibility layer.
#[derive(Clone, Copy, Debug, PartialEq, Eq, Structural)]
pub enum Runtime {
    /// The entry point for 32-bit guests.
    Wine32,
    /// The entry point for 64-bit guests.
    Wine64,
}

impl Runtime {
    /// The name of the binary.
    pub open spec fn binary_spec(self) -> Seq<char> {
        match self {
            Runtime::Wine32 => "wine"@,
            Runtime::Wine64 => "wine64"@,
        }
    }

    /// The name of the binary: `wine` or `wine64`.
    pub fn binary(self) -> (name: &'static str)
        ensures
            name@ == self.binary_spec(),
    {
        match self {
            Runtime::Wine32 => "wine",
            Runtime::Wine64 => "wine64",
        }
    }
}

/// The name of the binary that initialises a new prefix.
pub open spec fn boot_binary() -> Seq<char> {
    "wineboot"@
}

/// The entry point for a launch: the 32-bit one if it is forced, else the
/// one that matches the architecture.
pub open spec fn runtime_for(arch: PrefixArch, force_x86: bool) -> Runtime {
    if force_x86 {
        Runtime::Wine32
    } else {
        match arch {
            PrefixArch::X86 => Runtime::Wine32,
            PrefixArch::X86_64 => Runtime::Wine64,
        }
    }
}

/// Chooses the entry point for a launch. Either the prefix or the
/// invocation may force the 32-bit one.
pub fn select_runtime(arch: PrefixArch, prefix_forces_x86: bool, launch_forces_x86: bool) -> (runtime:
    Runtime)
    ensures
        runtime == runtime_for(arch, prefix_forces_x86 || launch_forces_x86),
{
    if prefix_forces_x86 || launch_forces_x86 {
        Runtime::Wine32
    } else {
        match arch {
            PrefixArch::X86 => Runtime::Wine32,
            PrefixArch::X86_64 => Runtime::Wine64,
        }
    }
}

/// A forced launch uses the 32-bit entry point whatever the architecture.
pub proof fn law_forced_runtime_is_32_bit(arch: PrefixArch, prefix_forces_x86: bool, launch_forces_x86: bool)
    requires
        prefix_forces_x86 || launch_forces_x86,
    ensures
        runtime_for(arch, prefix_forces_x86 || launch_forces_x86) == Runtime::Wine32,
        runtime_for(arch, prefix_forces_x86 || launch_forces_x86) != Runtime::Wine64,
{
}

/// What one invocation adds to what the prefix and the configuration say.
#[derive(Debug)]
pub struct LaunchOptions {
    /// Variables of this invocation; they win over all others.
    pub env_vars: EnvVars,
    /// Whether this invocation asks for the 32-bit entry point.
    pub force_run_x86: bool,
    /// Arguments handed to the process as they are.
    pub args: Vec<String>,
}

/// What launch options stand for.
pub struct LaunchOptionsView {
    pub env_vars: Map<Seq<char>, Seq<char>>,
    pub force_run_x86: bool,
    pub args: Seq<Seq<char>>,
}

impl View for LaunchOptions {
    type V = LaunchOptionsView;

    open spec fn view(&self) -> LaunchOptionsView {
        LaunchOptionsView {
            env_vars: self.env_vars@,
            force_run_x86: self.force_run_x86,
            args: views(self.args@),
        }
    }
}

/// A process to start.
#[derive(Debug, PartialEq, Eq)]
pub struct Invocation {
    /// The program to run.
    pub program: String,
    /// Its arguments, in order.
    pub args: Vec<String>,
    /// Its environment.
    pub env: EnvVars,
    /// Its working directory; `None` leaves the caller's.
    pub current_dir: Option<String>,
}

/// What an invocation stands for.
pub struct InvocationView {
    pub program: Seq<char>,
    pub args: Seq<Seq<char>>,
    pub env: Map<Seq<char>, Seq<char>>,
    pub current_dir: Option<Seq<char>>,
}

impl View for Invocation {
    type V = InvocationView;

    open spec fn view(&self) -> InvocationView {
        InvocationView {
            program: self.program@,
            args: views(self.args@),
            env: self.env@,
            current_dir: match self.current_dir {
                Some(dir) => Some(dir@),
                None => None,
            },
        }
    }
}

/// The location of `rel` under `base`; `base` itself for the empty path.
pub open spec fn placed_under(base: Seq<char>, rel: Seq<Seq<char>>) -> Seq<char> {
    if rel.len() == 0 {
        base
    } else {
        joined(base, displayed(rel))
    }
}

/// The location of the relative path `rel` under `base`.
pub fn place_under(base: &str, rel: &Vec<String>) -> (location: String)
    ensures
        location@ == placed_under(base@, views(rel@)),
{
    if rel.len() == 0 {
        String::from_str(base)
    } else {
        let shown = display_path(rel);
        join_path(base, shown.as_str())
    }
}

/// The outcome of a launch: the failure names the target that could not
/// be started.
pub fn launch_result(started: bool, target: &str) -> (outcome: Result<(), CommandError>)
    ensures
        match outcome {
            Ok(_) => started,
            Err(CommandError::FailedToRunProcess(name)) => !started && name@ == target@,
            Err(_) => false,
        },
{
    if started {
        Ok(())
    } else {
        Err(CommandError::FailedToRunProcess(String::from_str(target)))
    }
}

/// How an attempt to run a process to its end went.
#[derive(Clone, Copy, Debug, PartialEq, Eq, Structural)]
pub enum ExitReport {
    /// The process ended with this exit code.
    Code(i32),
    /// The process ended without an exit code.
    NoCode,
    /// The process could not be started.
    NotStarted,
}

/// Whether a run counts as a success: it does unless the process could not
/// be started or ended with an exit code other than zero.
pub open spec fn exited_cleanly(report: ExitReport) -> bool {
    match report {
        ExitReport::Code(code) => code == 0,
        ExitReport::NoCode => true,
        ExitReport::NotStarted => false,
    }
}

/// Whether a run counts as a success.
pub fn ran_cleanly(report: ExitReport) -> (clean: bool)
    ensures
        clean == exited_cleanly(report),
{
    match report {
        ExitReport::Code(code) => code == 0,
        ExitReport::NoCode => true,
        ExitReport::NotStarted => false,
    }
}

/// The outcome of the initialisation of a new prefix: it fails if the boot
/// binary could not be started, or ended with an exit code other than zero.
pub fn creation_result(report: ExitReport) -> (outcome: Result<(), PrefixError>)
    ensures
        outcome == match report {
            ExitReport::NotStarted => Err::<(), PrefixError>(PrefixError::FailedToCreatePrefix),
            _ => if exited_cleanly(report) {
                Ok::<(), PrefixError>(())
            } else {
                Err::<(), PrefixError>(PrefixError::WineFailedToExecute)
            },
        },
{
    match report {
        ExitReport::NotStarted => Err(PrefixError::FailedToCreatePrefix),
        _ => if ran_cleanly(report) {
            Ok(())
        } else {
            Err(PrefixError::WineFailedToExecute)
        },
    }
}

} // verus!
