//! The decisions that the commands of the tool make.
//!
//! Each function takes what the command observed (whether a directory
//! exists, what the user typed) and says what is to happen.

use crate::error::{CommandError, InputError};
use crate::input::{parsed_number, select_from_list};
use crate::path::{clone_path, RelPath};
use crate::prefix::{execs_view, Prefix, PrefixView};
use crate::text::views;
use vstd::prelude::*;
use vstd::string::*;

verus! {

/// Saves `exec_path` in the prefix under `exec_name`, replacing what was
/// saved under that name.
pub fn manage_new_exec(prefix: &mut Prefix, exec_name: String, exec_path: RelPath)
    ensures
        final(prefix)@ == (PrefixView {
            saved_execs: old(prefix)@.saved_execs.insert(exec_name@, views(exec_path@)),
            ..old(prefix)@
        }),
{
    let ghost name = exec_name@;
    let ghost path = views(exec_path@);
    prefix.saved_execs.insert(exec_name, exec_path);
    proof {
        assert(execs_view(prefix.saved_execs@) =~= execs_view(old(prefix).saved_execs@).insert(
            name,
            path,
        ));
    }
}

/// Forgets the saved executables with the listed names.
pub fn clean_prefix(prefix: &mut Prefix, missing: &Vec<String>)
    ensures
        final(prefix)@ == (PrefixView {
            saved_execs: old(prefix)@.saved_execs.remove_keys(views(missing@).to_set()),
            ..old(prefix)@
        }),
{
    prefix.saved_execs.remove_all(missing);
    proof {
        assert(execs_view(prefix.saved_execs@) =~= execs_view(
            old(prefix).saved_execs@,
        ).remove_keys(views(missing@).to_set()));
    }
}

/// Picks one of the executables found in a prefix by the line the user
/// typed, which names it by its number in the list, counted from one.
/// `Ok(None)` means that the number names no executable and the user is to
/// be asked again.
pub fn select_exec(prefix_name: &str, found: &Vec<RelPath>, line: &str) -> (outcome: Result<
    Option<RelPath>,
    CommandError,
>)
    ensures
        match outcome {
            Ok(Some(path)) => found@.len() > 0 && parsed_number(line@) is Some && 1
                <= parsed_number(line@).unwrap() <= found@.len() && views(path@) == views(
                found@[parsed_number(line@).unwrap() - 1]@,
            ),
            Ok(None) => found@.len() > 0 && parsed_number(line@) is Some && !(1 <= parsed_number(
                line@,
            ).unwrap() <= found@.len()),
            Err(CommandError::NoExecsDetected(name)) => found@.len() == 0 && name@
                == prefix_name@,
            Err(CommandError::Input(InputError::ParseFailed(text))) => found@.len() > 0
                && parsed_number(line@) is None && text@ == line@,
            Err(_) => false,
        },
{
    if found.len() == 0 {
        return Err(CommandError::NoExecsDetected(String::from_str(prefix_name)));
    }
    match select_from_list(found.len(), line) {
        Ok(Some(index)) => Ok(Some(clone_path(&found[index]))),
        Ok(None) => Ok(None),
        Err(e) => Err(CommandError::Input(e)),
    }
}

/// The name of the saved executable to run: the given name, or, when none
/// is given, the name of the prefix, which is only tried if at most one
/// executable is saved. `None` stands for a name that is needed.
pub open spec fn name_to_run(prefix: PrefixView, given: Option<Seq<char>>) -> Option<Seq<char>> {
    match given {
        Some(name) => Some(name),
        None => if prefix.saved_execs.len() > 1 {
            None
        } else {
            Some(prefix.name)
        },
    }
}

/// Decides which saved executable a run starts.
pub fn exec_to_run(prefix: &Prefix, given: Option<&str>) -> (outcome: Result<String, CommandError>)
    ensures
        match outcome {
            Ok(name) => name_to_run(prefix@, option_view(given)) == Some(name@)
                && prefix@.saved_execs.contains_key(name@),
            Err(CommandError::NameNeededToRunExec) => name_to_run(prefix@, option_view(given))
                is None,
            Err(CommandError::ExecNotManaged(name)) => name_to_run(prefix@, option_view(given))
                == Some(name@) && !prefix@.saved_execs.contains_key(name@),
            Err(_) => false,
        },
{
    let count: usize = prefix.saved_execs.len();
    proof {
        assert(execs_view(prefix.saved_execs@).dom() =~= prefix.saved_execs@.dom());
    }
    let name: String = match given {
        Some(name) => String::from_str(name),
        None => if count > 1 {
            return Err(CommandError::NameNeededToRunExec);
        } else {
            prefix.name.clone()
        },
    };
    if prefix.saved_execs.contains_key(name.as_str()) {
        Ok(name)
    } else {
        Err(CommandError::ExecNotManaged(name))
    }
}

/// The characters of a string that may be absent.
pub open spec fn option_view(text: Option<&str>) -> Option<Seq<char>> {
    match text {
        Some(s) => Some(s@),
        None => None,
    }
}

/// What is to happen when a prefix is put under management.
#[derive(Clone, Copy, Debug, PartialEq, Eq, Structural)]
pub struct NewPrefixPlan {
    /// Load the save data that exists instead of making new data.
    pub use_saved_data: bool,
    /// Detect the architecture from the registry files of the prefix.
    pub detect_arch: bool,
    /// Initialise the prefix on disk.
    pub create_prefix: bool,
    /// Store the new save data.
    pub save_data: bool,
}

/// The plan for a prefix of which it is known whether its directory is a
/// valid prefix and whether save data exists for it.
pub open spec fn new_prefix_plan(prefix_exists: bool, data_exists: bool) -> NewPrefixPlan {
    NewPrefixPlan {
        use_saved_data: data_exists,
        detect_arch: !data_exists && prefix_exists,
        create_prefix: !prefix_exists,
        save_data: !data_exists,
    }
}

/// Decides how to put the prefix `name` under management. A prefix that
/// exists and has save data is managed already.
pub fn load_or_create_pfx(name: &str, prefix_exists: bool, data_exists: bool) -> (outcome: Result<
    NewPrefixPlan,
    CommandError,
>)
    ensures
        match outcome {
            Ok(plan) => !(prefix_exists && data_exists) && plan == new_prefix_plan(
                prefix_exists,
                data_exists,
            ),
            Err(CommandError::PrefixAlreadyManaged(managed)) => prefix_exists && data_exists
                && managed@ == name@,
            Err(_) => false,
        },
{
    if prefix_exists && data_exists {
        return Err(CommandError::PrefixAlreadyManaged(String::from_str(name)));
    }
    Ok(
        NewPrefixPlan {
            use_saved_data: data_exists,
            detect_arch: !data_exists && prefix_exists,
            create_prefix: !prefix_exists,
            save_data: !data_exists,
        },
    )
}

/// What a removal deletes.
#[derive(Clone, Copy, Debug, PartialEq, Eq, Structural)]
pub struct RemovalPlan {
    /// Delete the save data.
    pub remove_data: bool,
    /// Delete the directory of the prefix.
    pub remove_prefix: bool,
}

/// Decides what a removal deletes. Asked for the data only, it needs the
/// data to exist; asked for the prefix only, it needs the prefix to exist.
pub fn plan_removal(data_only: bool, prefix_only: bool, data_exists: bool, prefix_exists: bool) -> (outcome:
    Result<RemovalPlan, CommandError>)
    ensures
        outcome == if data_only && !data_exists {
            Err::<RemovalPlan, CommandError>(CommandError::PrefixDataDoesNotExist)
        } else if prefix_only && !prefix_exists {
            Err::<RemovalPlan, CommandError>(CommandError::PrefixDoesNotExist)
        } else {
            Ok::<RemovalPlan, CommandError>(
                RemovalPlan { remove_data: !prefix_only, remove_prefix: !data_only },
            )
        },
{
    if data_only && !data_exists {
        return Err(CommandError::PrefixDataDoesNotExist);
    }
    if prefix_only && !prefix_exists {
        return Err(CommandError::PrefixDoesNotExist);
    }
    Ok(RemovalPlan { remove_data: !prefix_only, remove_prefix: !data_only })
}

/// Insists that the prefix `name` is under management, given whether save
/// data exists for it.
pub fn require_managed(name: &str, data_exists: bool) -> (outcome: Result<(), CommandError>)
    ensures
        match outcome {
            Ok(_) => data_exists,
            Err(CommandError::PrefixNotManaged(prefix)) => !data_exists && prefix@ == name@,
            Err(_) => false,
        },
{
    if data_exists {
        Ok(())
    } else {
        Err(CommandError::PrefixNotManaged(String::from_str(name)))
    }
}

/// Insists that the directory of a prefix exists.
pub fn require_prefix_dir(prefix_exists: bool) -> (outcome: Result<(), CommandError>)
    ensures
        outcome == if prefix_exists {
            Ok::<(), CommandError>(())
        } else {
            Err::<(), CommandError>(CommandError::PrefixDoesNotExist)
        },
{
    if prefix_exists {
        Ok(())
    } else {
        Err(CommandError::PrefixDoesNotExist)
    }
}

} // verus!
