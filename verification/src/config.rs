//! The configuration shared by all prefixes.

use crate::env::EnvVars;
use crate::error::CommandError;
use crate::name_map::NameMap;
use crate::path::{join_path, joined};
use crate::text::{contains_str, views};
use vstd::prelude::*;
use vstd::string::*;

verus! {

/// Where prefixes live and what every one of them inherits.
#[derive(Debug, PartialEq, Eq)]
pub struct Config {
    /// The directory that holds the prefixes that have no location of their
    /// own.
    pub base_directory: String,
    /// Locations of prefixes that live elsewhere, by prefix name.
    pub abs_prefix_paths: NameMap<String>,
    /// Hooks run on every newly created prefix, in this order.
    pub setup_hooks: Vec<String>,
    /// Variables handed to every child process.
    pub global_env_vars: EnvVars,
}

/// What a configuration stands for.
pub struct ConfigView {
    pub base_directory: Seq<char>,
    pub abs_prefix_paths: Map<Seq<char>, Seq<char>>,
    pub setup_hooks: Seq<Seq<char>>,
    pub global_env_vars: Map<Seq<char>, Seq<char>>,
}

impl View for Config {
    type V = ConfigView;

    open spec fn view(&self) -> ConfigView {
        ConfigView {
            base_directory: self.base_directory@,
            abs_prefix_paths: self.abs_prefix_paths@.map_values(|path: String| path@),
            setup_hooks: views(self.setup_hooks@),
            global_env_vars: self.global_env_vars@,
        }
    }
}

/// Why a stored configuration could not be loaded.
#[derive(Clone, Copy, Debug, PartialEq, Eq, Structural)]
pub enum ConfigError {
    /// No configuration file exists.
    Missing,
    /// The file exists but could not be read.
    Unreadable,
    /// The file was read but does not hold a configuration.
    Malformed,
}

/// The configuration of a first run: prefixes live in `.wine` under the
/// home directory, and nothing else is set.
pub open spec fn first_config(home: Seq<char>) -> ConfigView {
    ConfigView {
        base_directory: joined(home, ".wine"@),
        abs_prefix_paths: Map::empty(),
        setup_hooks: Seq::empty(),
        global_env_vars: Map::empty(),
    }
}

/// The location of the prefix `name` under a configuration: its own
/// location if it has one, else its name under the base directory.
pub open spec fn prefix_location(config: ConfigView, name: Seq<char>) -> Seq<char> {
    if config.abs_prefix_paths.contains_key(name) {
        config.abs_prefix_paths[name]
    } else {
        joined(config.base_directory, name)
    }
}

/// `dest` followed by those of `hooks` that occur neither in `dest` nor
/// earlier in `hooks`.
pub open spec fn hooks_appended(dest: Seq<Seq<char>>, hooks: Seq<Seq<char>>) -> Seq<Seq<char>>
    decreases hooks.len(),
{
    if hooks.len() == 0 {
        dest
    } else {
        let front = hooks_appended(dest, hooks.drop_last());
        if front.contains(hooks.last()) {
            front
        } else {
            front.push(hooks.last())
        }
    }
}

/// Those of `hooks` that are passed over when they are appended to `dest`,
/// because they occur in `dest` or earlier in `hooks`.
pub open spec fn hooks_skipped(dest: Seq<Seq<char>>, hooks: Seq<Seq<char>>) -> Seq<Seq<char>>
    decreases hooks.len(),
{
    if hooks.len() == 0 {
        Seq::empty()
    } else {
        let front = hooks_skipped(dest, hooks.drop_last());
        if hooks_appended(dest, hooks.drop_last()).contains(hooks.last()) {
            front.push(hooks.last())
        } else {
            front
        }
    }
}

/// `dest` without the hooks listed in `gone`; an empty list removes all.
pub open spec fn hooks_removed(dest: Seq<Seq<char>>, gone: Seq<Seq<char>>) -> Seq<Seq<char>>
    decreases dest.len(),
{
    if gone.len() == 0 || dest.len() == 0 {
        Seq::empty()
    } else {
        let front = hooks_removed(dest.drop_last(), gone);
        if gone.contains(dest.last()) {
            front
        } else {
            front.push(dest.last())
        }
    }
}

/// The first of `hooks` whose script is reported missing, if any.
pub open spec fn first_missing(hooks: Seq<Seq<char>>, exists: Seq<bool>) -> Option<int> {
    if exists|i: int| is_first_missing(hooks, exists, i) {
        Some(choose|i: int| is_first_missing(hooks, exists, i))
    } else {
        None
    }
}

/// Whether the script at place `at` is reported to exist. A place without
/// a report counts as missing.
pub open spec fn has_script(exists: Seq<bool>, at: int) -> bool {
    0 <= at < exists.len() && exists[at]
}

/// Whether the hook at `at` is the first whose script is missing.
pub open spec fn is_first_missing(hooks: Seq<Seq<char>>, exists: Seq<bool>, at: int) -> bool {
    &&& 0 <= at < hooks.len()
    &&& !has_script(exists, at)
    &&& forall|j: int| 0 <= j < at ==> has_script(exists, j)
}

/// Appends to `dest` each of `hooks` that `dest` does not hold yet, in
/// order. Returns the hooks that were passed over because they were
/// present.
pub fn append_hooks(hooks: Vec<String>, dest: &mut Vec<String>) -> (skipped: Vec<String>)
    ensures
        views(final(dest)@) == hooks_appended(views(old(dest)@), views(hooks@)),
        views(skipped@) == hooks_skipped(views(old(dest)@), views(hooks@)),
{
    let ghost before = views(dest@);
    let ghost all = views(hooks@);
    let mut skipped: Vec<String> = Vec::new();
    let mut i: usize = 0;
    proof {
        assert(all.take(0) =~= Seq::empty());
        assert(views(skipped@) =~= Seq::empty());
    }
    while i < hooks.len()
        invariant
            i <= hooks.len(),
            all == views(hooks@),
            views(dest@) == hooks_appended(before, all.take(i as int)),
            views(skipped@) == hooks_skipped(before, all.take(i as int)),
        decreases hooks.len() - i,
    {
        proof {
            assert(all.take(i + 1).drop_last() =~= all.take(i as int));
            assert(all.take(i + 1).last() == hooks@[i as int]@);
            assert(all[i as int] == hooks@[i as int]@);
        }
        let ghost prev = dest@;
        let ghost prev_skipped = skipped@;
        let hook = hooks[i].clone();
        if contains_str(dest, hook.as_str()) {
            skipped.push(hook);
            proof {
                assert(views(skipped@) =~= views(prev_skipped).push(hooks@[i as int]@));
            }
        } else {
            dest.push(hook);
            proof {
                assert(views(dest@) =~= views(prev).push(hooks@[i as int]@));
            }
        }
        i += 1;
    }
    proof {
        assert(all.take(hooks.len() as int) =~= all);
    }
    skipped
}

/// Removes from `dest` the hooks listed in `gone`. An empty list clears
/// `dest`.
pub fn remove_hooks(gone: &Vec<String>, dest: &mut Vec<String>)
    ensures
        views(final(dest)@) == hooks_removed(views(old(dest)@), views(gone@)),
{
    let ghost before = views(dest@);
    let mut kept: Vec<String> = Vec::new();
    let mut old_hooks: Vec<String> = Vec::new();
    core::mem::swap(dest, &mut old_hooks);
    if gone.len() == 0 {
        proof {
            assert(views(dest@) =~= Seq::empty());
        }
        return;
    }
    let mut i: usize = 0;
    proof {
        assert(before.take(0) =~= Seq::empty());
        assert(views(kept@) =~= Seq::empty());
    }
    while i < old_hooks.len()
        invariant
            i <= old_hooks.len(),
            gone@.len() > 0,
            before == views(old_hooks@),
            views(kept@) == hooks_removed(before.take(i as int), views(gone@)),
        decreases old_hooks.len() - i,
    {
        proof {
            assert(before.take(i + 1).drop_last() =~= before.take(i as int));
            assert(before.take(i + 1).last() == old_hooks@[i as int]@);
        }
        let ghost prev = kept@;
        if !contains_str(gone, old_hooks[i].as_str()) {
            kept.push(old_hooks[i].clone());
            proof {
                assert(views(kept@) =~= views(prev).push(old_hooks@[i as int]@));
            }
        }
        i += 1;
    }
    proof {
        assert(before.take(old_hooks.len() as int) =~= before);
    }
    *dest = kept;
}

/// Checks that every hook has a script, given for each hook whether its
/// script exists. Fails with the first hook whose script is missing.
pub fn verify_hooks_exist(hooks: &Vec<String>, exists: &Vec<bool>) -> (outcome: Result<
    (),
    CommandError,
>)
    ensures
        match outcome {
            Ok(_) => first_missing(views(hooks@), exists@) is None,
            Err(CommandError::HookNotFound(name)) => first_missing(views(hooks@), exists@)
                is Some && name@ == hooks@[first_missing(views(hooks@), exists@).unwrap()]@,
            Err(_) => false,
        },
{
    let mut i: usize = 0;
    while i < hooks.len()
        invariant
            i <= hooks.len(),
            forall|j: int| 0 <= j < i ==> has_script(exists@, j),
        decreases hooks.len() - i,
    {
        if i >= exists.len() || !exists[i] {
            proof {
                assert(is_first_missing(views(hooks@), exists@, i as int));
                let chosen = choose|k: int| is_first_missing(views(hooks@), exists@, k);
                assert(chosen == i);
            }
            return Err(CommandError::HookNotFound(hooks[i].clone()));
        }
        i += 1;
    }
    proof {
        assert forall|k: int| !is_first_missing(views(hooks@), exists@, k) by {
            if 0 <= k < hooks@.len() {
                assert(has_script(exists@, k));
            }
        }
    }
    Ok(())
}

impl Config {
    /// The configuration of a first run: prefixes live in `.wine` under the
    /// home directory, and nothing else is set.
    pub fn new(home: &str) -> (config: Config)
        ensures
            config@ == first_config(home@),
    {
        let config = Config {
            base_directory: join_path(home, ".wine"),
            abs_prefix_paths: NameMap::new(),
            setup_hooks: Vec::new(),
            global_env_vars: EnvVars::new(),
        };
        proof {
            assert(config@.abs_prefix_paths =~= Map::empty());
            assert(config@.setup_hooks =~= Seq::empty());
            assert(config@.global_env_vars =~= Map::empty());
        }
        config
    }

    /// Decides what to go on with after an attempt to load the stored
    /// configuration: the loaded one; a fresh one, which the caller is to
    /// store, if none existed; or the failure, if the stored one could not
    /// be used. The flag says whether the configuration is fresh.
    pub fn load_or_create(loaded: Result<Config, ConfigError>, home: &str) -> (outcome: Result<
        (Config, bool),
        ConfigError,
    >)
        ensures
            match loaded {
                Ok(config) => outcome == Ok::<(Config, bool), ConfigError>((config, false)),
                Err(ConfigError::Missing) => outcome matches Ok((config, true)) && config@
                    == first_config(home@),
                Err(e) => outcome == Err::<(Config, bool), ConfigError>(e),
            },
    {
        match loaded {
            Ok(config) => Ok((config, false)),
            Err(ConfigError::Missing) => Ok((Config::new(home), true)),
            Err(e) => Err(e),
        }
    }

    /// The location of the prefix `name`: its own location if it has one,
    /// else its name under the base directory.
    pub fn prefix_path(&self, name: &str) -> (path: String)
        ensures
            path@ == prefix_location(self@, name@),
    {
        match self.abs_prefix_paths.get(name) {
            Some(path) => path.clone(),
            None => join_path(self.base_directory.as_str(), name),
        }
    }
}

/// Forgets the locations of the named prefixes.
pub fn clean_config(config: &mut Config, missing: &Vec<String>)
    ensures
        final(config)@.abs_prefix_paths == old(config)@.abs_prefix_paths.remove_keys(
            views(missing@).to_set(),
        ),
        final(config)@.base_directory == old(config)@.base_directory,
        final(config)@.setup_hooks == old(config)@.setup_hooks,
        final(config)@.global_env_vars == old(config)@.global_env_vars,
{
    config.abs_prefix_paths.remove_all(missing);
    proof {
        assert(config@.abs_prefix_paths =~= old(config)@.abs_prefix_paths.remove_keys(
            views(missing@).to_set(),
        ));
    }
}

/// Makes `path` the directory that holds the prefixes, given whether `path`
/// exists. A path that does not exist is refused and nothing changes.
pub fn set_base_directory(config: &mut Config, path: String, exists: bool) -> (outcome: Result<
    (),
    CommandError,
>)
    ensures
        match outcome {
            Ok(_) => exists && final(config)@ == (ConfigView {
                base_directory: path@,
                ..old(config)@
            }),
            Err(CommandError::PathDoesntExist(refused)) => !exists && refused@ == path@
                && final(config)@ == old(config)@,
            Err(_) => false,
        },
{
    if !exists {
        return Err(CommandError::PathDoesntExist(path));
    }
    config.base_directory = path;
    Ok(())
}

/// Sets the hooks run on every new prefix, given for each of `hooks`
/// whether its script exists. If a script is missing, the first such hook
/// is reported and nothing changes. Otherwise `hooks` replace the list, or,
/// when `append` is set, those of them that the list does not hold yet are
/// added to it; the hooks passed over are returned.
pub fn set_setup_hooks(config: &mut Config, hooks: Vec<String>, exists: &Vec<bool>, append: bool) -> (outcome:
    Result<Vec<String>, CommandError>)
    ensures
        match outcome {
            Ok(skipped) => first_missing(views(hooks@), exists@) is None && final(config)@ == (
                ConfigView {
                    setup_hooks: if append {
                        hooks_appended(old(config)@.setup_hooks, views(hooks@))
                    } else {
                        views(hooks@)
                    },
                    ..old(config)@
                }) && views(skipped@) == if append {
                hooks_skipped(old(config)@.setup_hooks, views(hooks@))
            } else {
                Seq::empty()
            },
            Err(CommandError::HookNotFound(name)) => first_missing(views(hooks@), exists@)
                is Some && name@ == hooks@[first_missing(views(hooks@), exists@).unwrap()]@
                && final(config)@ == old(config)@,
            Err(_) => false,
        },
{
    match verify_hooks_exist(&hooks, exists) {
        Ok(_) => {},
        Err(e) => {
            return Err(e);
        },
    }
    if append {
        let skipped = append_hooks(hooks, &mut config.setup_hooks);
        Ok(skipped)
    } else {
        config.setup_hooks = hooks;
        let none: Vec<String> = Vec::new();
        proof {
            assert(views(none@) =~= Seq::empty());
        }
        Ok(none)
    }
}

} // verus!
