//! A managed prefix: its stored state and the launches planned inside it.

use crate::arch::PrefixArch;
use crate::config::{prefix_location, Config, ConfigView};
use crate::env::{compose, layered, required_vars, EnvVars};
use crate::error::PrefixError;
use crate::path::path_views;
use crate::tree::{discovered, unique_executables, DirTree};
use crate::launch::{
    boot_binary, place_under, placed_under, runtime_for, select_runtime, Invocation,
    InvocationView, LaunchOptions, LaunchOptionsView, Runtime,
};
use crate::name_map::NameMap;
use crate::path::{join_path, joined, parent_path, RelPath};
use crate::text::views;
use vstd::prelude::*;
use vstd::string::*;

verus! {

/// A prefix under management.
#[derive(Debug, PartialEq, Eq)]
pub struct Prefix {
    /// The name of the prefix, which is also the last component of its
    /// location.
    pub name: String,
    /// The architecture of the prefix.
    pub arch: PrefixArch,
    /// The executables the user saved, by name, as paths relative to the
    /// root of the prefix.
    pub saved_execs: NameMap<RelPath>,
    /// Variables handed to every child process of this prefix.
    pub env_vars: EnvVars,
    /// Whether launches always use the 32-bit entry point.
    pub force_run_x86: bool,
    /// Whether hooks run only when this prefix is named.
    pub run_hooks_explicitly: bool,
}

/// What is stored for a prefix. The name is not stored: it is the key under
/// which the data is kept.
#[derive(Debug, PartialEq, Eq)]
pub struct PrefixData {
    /// The architecture of the prefix.
    pub arch: PrefixArch,
    /// The saved executables.
    pub saved_execs: NameMap<RelPath>,
    /// The variables of the prefix.
    pub env_vars: EnvVars,
    /// Whether launches always use the 32-bit entry point.
    pub force_run_x86: bool,
    /// Whether hooks run only when this prefix is named.
    pub run_hooks_explicitly: bool,
}

/// What the stored data of a prefix stands for.
pub struct PrefixDataView {
    pub arch: PrefixArch,
    pub saved_execs: Map<Seq<char>, Seq<Seq<char>>>,
    pub env_vars: Map<Seq<char>, Seq<char>>,
    pub force_run_x86: bool,
    pub run_hooks_explicitly: bool,
}

/// What a prefix stands for.
pub struct PrefixView {
    pub name: Seq<char>,
    pub arch: PrefixArch,
    pub saved_execs: Map<Seq<char>, Seq<Seq<char>>>,
    pub env_vars: Map<Seq<char>, Seq<char>>,
    pub force_run_x86: bool,
    pub run_hooks_explicitly: bool,
}

/// The saved executables as a map from names to component lists.
pub open spec fn execs_view(execs: Map<Seq<char>, Vec<String>>) -> Map<Seq<char>, Seq<Seq<char>>> {
    execs.map_values(|path: Vec<String>| views(path@))
}

impl View for PrefixData {
    type V = PrefixDataView;

    open spec fn view(&self) -> PrefixDataView {
        PrefixDataView {
            arch: self.arch,
            saved_execs: execs_view(self.saved_execs@),
            env_vars: self.env_vars@,
            force_run_x86: self.force_run_x86,
            run_hooks_explicitly: self.run_hooks_explicitly,
        }
    }
}

impl View for Prefix {
    type V = PrefixView;

    open spec fn view(&self) -> PrefixView {
        PrefixView {
            name: self.name@,
            arch: self.arch,
            saved_execs: execs_view(self.saved_execs@),
            env_vars: self.env_vars@,
            force_run_x86: self.force_run_x86,
            run_hooks_explicitly: self.run_hooks_explicitly,
        }
    }
}

/// A prefix that has nothing saved and nothing set.
pub open spec fn fresh_prefix(name: Seq<char>, arch: PrefixArch) -> PrefixView {
    PrefixView {
        name,
        arch,
        saved_execs: Map::empty(),
        env_vars: Map::empty(),
        force_run_x86: false,
        run_hooks_explicitly: false,
    }
}

/// The prefix that stored data describes, under the name it was kept by.
pub open spec fn loaded(name: Seq<char>, data: PrefixDataView) -> PrefixView {
    PrefixView {
        name,
        arch: data.arch,
        saved_execs: data.saved_execs,
        env_vars: data.env_vars,
        force_run_x86: data.force_run_x86,
        run_hooks_explicitly: data.run_hooks_explicitly,
    }
}

/// What is stored for a prefix: everything but its name.
pub open spec fn saved(prefix: PrefixView) -> PrefixDataView {
    PrefixDataView {
        arch: prefix.arch,
        saved_execs: prefix.saved_execs,
        env_vars: prefix.env_vars,
        force_run_x86: prefix.force_run_x86,
        run_hooks_explicitly: prefix.run_hooks_explicitly,
    }
}

/// Storing a prefix and loading it again under its name gives the same
/// prefix; loaded under another name, it differs in the name alone.
pub proof fn law_save_load_round_trip(prefix: PrefixView, name: Seq<char>)
    ensures
        loaded(prefix.name, saved(prefix)) == prefix,
        loaded(name, saved(prefix)).name == name,
        saved(loaded(name, saved(prefix))) == saved(prefix),
{
}

/// The environment of a child process of a prefix: required variables,
/// then global ones, then those of the prefix, then those of the
/// invocation.
pub open spec fn prefix_env(
    config: ConfigView,
    prefix: PrefixView,
    launch: Map<Seq<char>, Seq<char>>,
) -> Map<Seq<char>, Seq<char>> {
    layered(
        required_vars(prefix_location(config, prefix.name), prefix.arch, prefix.name),
        config.global_env_vars,
        prefix.env_vars,
        launch,
    )
}

/// The launch of an executable inside a prefix, through the compatibility
/// layer.
pub open spec fn prefix_launch(
    config: ConfigView,
    prefix: PrefixView,
    exec: Seq<Seq<char>>,
    opts: LaunchOptionsView,
) -> InvocationView {
    let root = prefix_location(config, prefix.name);
    InvocationView {
        program: runtime_for(prefix.arch, prefix.force_run_x86 || opts.force_run_x86).binary_spec(),
        args: seq![placed_under(root, exec)] + opts.args,
        env: prefix_env(config, prefix, opts.env_vars),
        current_dir: if exec.len() == 0 {
            None
        } else {
            Some(placed_under(root, exec.drop_last()))
        },
    }
}

/// The launch of a program of the host with the environment of a prefix.
pub open spec fn host_launch(
    config: ConfigView,
    prefix: PrefixView,
    program: Seq<char>,
    opts: LaunchOptionsView,
) -> InvocationView {
    InvocationView {
        program,
        args: opts.args,
        env: prefix_env(config, prefix, opts.env_vars),
        current_dir: None,
    }
}

/// A launch inside a prefix that is forced, by the prefix or by the
/// invocation, runs the 32-bit entry point, which is not the 64-bit one,
/// whatever the architecture of the prefix.
pub proof fn law_forced_launch_uses_32_bit_runtime(
    config: ConfigView,
    prefix: PrefixView,
    exec: Seq<Seq<char>>,
    opts: LaunchOptionsView,
)
    requires
        prefix.force_run_x86 || opts.force_run_x86,
    ensures
        prefix_launch(config, prefix, exec, opts).program == Runtime::Wine32.binary_spec(),
        prefix_launch(config, prefix, exec, opts).program != Runtime::Wine64.binary_spec(),
{
    reveal_strlit("wine");
    reveal_strlit("wine64");
    assert("wine"@.len() != "wine64"@.len());
}

/// The name of the directory that holds the drive root of a prefix.
pub open spec fn drive_dir() -> Seq<char> {
    "drive_c"@
}

impl Prefix {
    /// A prefix that has nothing saved and nothing set.
    pub fn new(name: String, arch: PrefixArch) -> (prefix: Prefix)
        ensures
            prefix@ == fresh_prefix(name@, arch),
    {
        let prefix = Prefix {
            name,
            arch,
            saved_execs: NameMap::new(),
            env_vars: EnvVars::new(),
            force_run_x86: false,
            run_hooks_explicitly: false,
        };
        proof {
            assert(prefix@.saved_execs =~= Map::empty());
            assert(prefix@.env_vars =~= Map::empty());
        }
        prefix
    }

    /// The prefix that stored data describes. The name comes from the key
    /// under which the data was kept, never from the data.
    pub fn from_data(name: String, data: PrefixData) -> (prefix: Prefix)
        ensures
            prefix@ == loaded(name@, data@),
    {
        Prefix {
            name,
            arch: data.arch,
            saved_execs: data.saved_execs,
            env_vars: data.env_vars,
            force_run_x86: data.force_run_x86,
            run_hooks_explicitly: data.run_hooks_explicitly,
        }
    }

    /// What is to be stored for this prefix: everything but its name.
    pub fn into_data(self) -> (data: PrefixData)
        ensures
            data@ == saved(self@),
    {
        PrefixData {
            arch: self.arch,
            saved_execs: self.saved_execs,
            env_vars: self.env_vars,
            force_run_x86: self.force_run_x86,
            run_hooks_explicitly: self.run_hooks_explicitly,
        }
    }

    /// Where the data of the prefix `name` is stored inside the data
    /// directory.
    pub fn get_data_path(data_dir: &str, name: &str) -> (path: String)
        ensures
            path@ == joined(data_dir@, name@),
    {
        join_path(data_dir, name)
    }

    /// The location of this prefix.
    pub fn get_prefix_path(&self, config: &Config) -> (path: String)
        ensures
            path@ == prefix_location(config@, self@.name),
    {
        config.prefix_path(self.name.as_str())
    }

    /// The environment of a child process of this prefix.
    pub fn compose_env(&self, config: &Config, launch: &EnvVars) -> (env: EnvVars)
        ensures
            env@ == prefix_env(config@, self@, launch@),
    {
        let root = self.get_prefix_path(config);
        compose(
            root.as_str(),
            self.arch,
            self.name.as_str(),
            &config.global_env_vars,
            &self.env_vars,
            launch,
        )
    }

    /// Ties a planned process to this prefix: it gets the environment of
    /// the prefix and starts in its drive root. Program and arguments stay.
    pub fn attach_cmd_to_prefix(&self, config: &Config, cmd: &mut Invocation)
        ensures
            final(cmd)@.program == old(cmd)@.program,
            final(cmd)@.args == old(cmd)@.args,
            final(cmd)@.env == prefix_env(config@, self@, Map::empty()),
            final(cmd)@.current_dir == Some(
                joined(prefix_location(config@, self@.name), drive_dir()),
            ),
    {
        let root = self.get_prefix_path(config);
        let none = EnvVars::new();
        cmd.env = self.compose_env(config, &none);
        cmd.current_dir = Some(join_path(root.as_str(), "drive_c"));
    }

    /// Plans the launch of an executable inside this prefix. The 32-bit
    /// entry point is used if the prefix or the invocation forces it, else
    /// the one that matches the architecture. The process starts in the
    /// directory that holds the executable, and gets the executable's
    /// location followed by the arguments of the invocation, unchanged.
    pub fn launch_prefix_process(&self, config: &Config, exec_path: &RelPath, opts: LaunchOptions) -> (cmd:
        Invocation)
        ensures
            cmd@ == prefix_launch(config@, self@, views(exec_path@), opts@),
    {
        let root = self.get_prefix_path(config);
        let runtime = select_runtime(self.arch, self.force_run_x86, opts.force_run_x86);
        let env = self.compose_env(config, &opts.env_vars);
        let target = place_under(root.as_str(), exec_path);
        let current_dir = match parent_path(exec_path) {
            Some(dir) => Some(place_under(root.as_str(), &dir)),
            None => None,
        };
        let ghost given = views(opts.args@);
        let mut args: Vec<String> = Vec::new();
        args.push(target);
        let mut rest = opts.args;
        let ghost first = args@;
        args.append(&mut rest);
        proof {
            assert(views(args@) =~= seq![placed_under(root@, views(exec_path@))] + given);
        }
        Invocation { program: String::from_str(runtime.binary()), args, env, current_dir }
    }

    /// Plans the launch of a program of the host with the environment of
    /// this prefix. The program gets the arguments of the invocation,
    /// unchanged, and starts where the caller is.
    pub fn launch_non_wine_process(&self, config: &Config, program: &str, opts: LaunchOptions) -> (cmd:
        Invocation)
        ensures
            cmd@ == host_launch(config@, self@, program@, opts@),
    {
        let env = self.compose_env(config, &opts.env_vars);
        Invocation { program: String::from_str(program), args: opts.args, env, current_dir: None }
    }

    /// Plans the initialisation of this prefix on disk.
    pub fn create(&self, config: &Config) -> (cmd: Invocation)
        ensures
            cmd@.program == boot_binary(),
            cmd@.args =~= Seq::empty(),
            cmd@.env == prefix_env(config@, self@, Map::empty()),
            cmd@.current_dir is None,
    {
        let none = EnvVars::new();
        let env = self.compose_env(config, &none);
        let cmd = Invocation {
            program: String::from_str("wineboot"),
            args: Vec::new(),
            env,
            current_dir: None,
        };
        proof {
            assert(cmd@.args =~= Seq::empty());
        }
        cmd
    }
}

/// Whether a directory holds a prefix: it does if it holds the system
/// registry file and a drive root that is a directory.
pub fn is_valid(system_registry_exists: bool, drive_root_is_dir: bool) -> (valid: bool)
    ensures
        valid == (system_registry_exists && drive_root_is_dir),
{
    system_registry_exists && drive_root_is_dir
}

/// What was seen of a directory that may hold a prefix.
#[derive(Debug)]
pub struct PrefixCandidate {
    /// The name of the directory.
    pub name: String,
    /// Whether the directory holds a prefix.
    pub valid: bool,
    /// The architecture detected in it, if any.
    pub arch: Option<PrefixArch>,
}

/// The names of the candidates that are prefixes of a known architecture,
/// in order.
pub open spec fn usable_names(candidates: Seq<PrefixCandidate>) -> Seq<Seq<char>>
    decreases candidates.len(),
{
    if candidates.len() == 0 {
        Seq::empty()
    } else {
        let front = usable_names(candidates.drop_last());
        if candidates.last().valid && candidates.last().arch is Some {
            front.push(candidates.last().name@)
        } else {
            front
        }
    }
}

/// The architectures of the candidates that are prefixes of a known
/// architecture, in order.
pub open spec fn usable_archs(candidates: Seq<PrefixCandidate>) -> Seq<PrefixArch>
    decreases candidates.len(),
{
    if candidates.len() == 0 {
        Seq::empty()
    } else {
        let front = usable_archs(candidates.drop_last());
        if candidates.last().valid && candidates.last().arch is Some {
            front.push(candidates.last().arch.unwrap())
        } else {
            front
        }
    }
}

impl Prefix {
    /// The prefix found in the directory `name`, given whether the directory
    /// holds a prefix and which architecture was detected in it.
    pub fn from_path(name: String, valid: bool, arch: Option<PrefixArch>) -> (outcome: Result<
        Prefix,
        PrefixError,
    >)
        ensures
            match outcome {
                Ok(prefix) => valid && arch is Some && prefix@ == fresh_prefix(
                    name@,
                    arch.unwrap(),
                ),
                Err(PrefixError::InvalidPrefix(dir)) => !valid && dir@ == name@,
                Err(PrefixError::FailedToDetectArch) => valid && arch is None,
                Err(_) => false,
            },
    {
        if !valid {
            return Err(PrefixError::InvalidPrefix(name));
        }
        match arch {
            Some(arch) => Ok(Prefix::new(name, arch)),
            None => Err(PrefixError::FailedToDetectArch),
        }
    }

    /// The prefixes among the directories seen: every candidate that holds a
    /// prefix of a known architecture, in order. The others are passed
    /// over.
    pub fn all_from_dir(candidates: Vec<PrefixCandidate>) -> (prefixes: Vec<Prefix>)
        ensures
            prefixes@.len() == usable_names(candidates@).len(),
            prefixes@.len() == usable_archs(candidates@).len(),
            forall|i: int|
                0 <= i < prefixes@.len() ==> (#[trigger] prefixes@[i])@ == fresh_prefix(
                    usable_names(candidates@)[i],
                    usable_archs(candidates@)[i],
                ),
    {
        let mut prefixes: Vec<Prefix> = Vec::new();
        let mut i: usize = 0;
        proof {
            assert(candidates@.take(0) =~= Seq::empty());
        }
        while i < candidates.len()
            invariant
                i <= candidates.len(),
                prefixes@.len() == usable_names(candidates@.take(i as int)).len(),
                usable_archs(candidates@.take(i as int)).len() == prefixes@.len(),
                forall|k: int|
                    0 <= k < prefixes@.len() ==> (#[trigger] prefixes@[k])@ == fresh_prefix(
                        usable_names(candidates@.take(i as int))[k],
                        usable_archs(candidates@.take(i as int))[k],
                    ),
            decreases candidates.len() - i,
        {
            proof {
                assert(candidates@.take(i + 1).drop_last() =~= candidates@.take(i as int));
                assert(candidates@.take(i + 1).last() == candidates@[i as int]);
            }
            if candidates[i].valid {
                match candidates[i].arch {
                    Some(arch) => {
                        prefixes.push(Prefix::new(candidates[i].name.clone(), arch));
                    },
                    None => {},
                }
            }
            i += 1;
        }
        proof {
            assert(candidates@.take(candidates.len() as int) =~= candidates@);
        }
        prefixes
    }

    /// The executables of this prefix, given its tree: each once, relative
    /// to the root of the prefix, in the order of discovery.
    pub fn find_relative_executables(&self, tree: &DirTree) -> (found: Vec<RelPath>)
        ensures
            path_views(found@) == discovered(tree@, self@.arch),
    {
        unique_executables(tree, self.arch)
    }
}

} // verus!
