//! Environment variable sets and their composition.
//!
//! A set of variables is a map from names to values. Names are case-sensitive
//! and unique; inserting a name that is present replaces its value.

use crate::arch::PrefixArch;
use crate::text::{chars_of, find_char, is_first_index, lemma_take_one_more, views};
use vstd::prelude::*;
use vstd::string::*;

verus! {

/// A set of environment variables, kept in a `hashbrown::HashMap`.
///
/// The map is opaque to the verifier. What it holds is named by
/// `env_contents`, and the private functions whose names start with `raw_`
/// say what the methods of the map do to that. Those statements are taken
/// on trust; everything else in this module is proved from them.
#[verifier::external_body]
#[derive(Debug, PartialEq, Eq)]
pub struct EnvVars {
    inner: hashbrown::HashMap<String, String>,
}

/// The variables that a set holds: each name with its value.
pub uninterp spec fn env_contents(vars: EnvVars) -> Map<Seq<char>, Seq<char>>;

impl View for EnvVars {
    type V = Map<Seq<char>, Seq<char>>;

    open spec fn view(&self) -> Map<Seq<char>, Seq<char>> {
        env_contents(*self)
    }
}

/// Whether `pairs` lists exactly the variables of `vars`, each name once.
pub open spec fn lists_contents(pairs: Seq<(String, String)>, vars: Map<Seq<char>, Seq<char>>) -> bool {
    &&& forall|i: int|
        0 <= i < pairs.len() ==> vars.contains_pair(#[trigger] pairs[i].0@, pairs[i].1@)
    &&& forall|name: Seq<char>| #[trigger]
        vars.contains_key(name) ==> exists|i: int| 0 <= i < pairs.len() && pairs[i].0@ == name
    &&& forall|i: int, j: int|
        0 <= i < j < pairs.len() ==> #[trigger] pairs[i].0@ != #[trigger] pairs[j].0@
}

impl EnvVars {
    /// `hashbrown::HashMap::new`: a map that holds nothing.
    #[verifier::external_body]
    fn raw_new() -> (vars: EnvVars)
        ensures
            env_contents(vars) =~= Map::empty(),
    {
        EnvVars { inner: hashbrown::HashMap::new() }
    }

    /// `hashbrown::HashMap::insert`: afterwards `name` maps to `value`,
    /// whether or not it was present, and every other name is untouched.
    #[verifier::external_body]
    fn raw_insert(&mut self, name: String, value: String)
        ensures
            env_contents(*final(self)) == env_contents(*old(self)).insert(name@, value@),
    {
        self.inner.insert(name, value);
    }

    /// `hashbrown::HashMap::remove`: afterwards `name` is absent and every
    /// other name is untouched.
    #[verifier::external_body]
    fn raw_remove(&mut self, name: &str)
        ensures
            env_contents(*final(self)) == env_contents(*old(self)).remove(name@),
    {
        self.inner.remove(name);
    }

    /// `hashbrown::HashMap::clear`: afterwards the map holds nothing.
    #[verifier::external_body]
    fn raw_clear(&mut self)
        ensures
            env_contents(*final(self)) =~= Map::empty(),
    {
        self.inner.clear();
    }

    /// `hashbrown::HashMap::get`: a copy of the value stored under `name`,
    /// or `None` when the name is absent.
    #[verifier::external_body]
    fn raw_get(&self, name: &str) -> (value: Option<String>)
        ensures
            match value {
                Some(v) => env_contents(*self).contains_pair(name@, v@),
                None => !env_contents(*self).contains_key(name@),
            },
    {
        self.inner.get(name).cloned()
    }

    /// `hashbrown::HashMap::iter`: copies of all pairs, each name once, in no
    /// particular order.
    #[verifier::external_body]
    fn raw_entries(&self) -> (pairs: Vec<(String, String)>)
        ensures
            lists_contents(pairs@, env_contents(*self)),
    {
        self.inner.iter().map(|(name, value)| (name.clone(), value.clone())).collect()
    }

    /// `Clone` of `hashbrown::HashMap`: a map with the same pairs.
    #[verifier::external_body]
    fn raw_clone(&self) -> (copy: EnvVars)
        ensures
            env_contents(copy) == env_contents(*self),
    {
        EnvVars { inner: self.inner.clone() }
    }

    /// An empty set.
    pub fn new() -> (vars: EnvVars)
        ensures
            vars@ =~= Map::empty(),
    {
        EnvVars::raw_new()
    }

    /// Sets `name` to `value`, replacing any value it had.
    pub fn insert(&mut self, name: String, value: String)
        ensures
            final(self)@ == old(self)@.insert(name@, value@),
    {
        self.raw_insert(name, value)
    }

    /// Removes `name`; a name that is absent is left absent.
    pub fn remove(&mut self, name: &str)
        ensures
            final(self)@ == old(self)@.remove(name@),
    {
        self.raw_remove(name)
    }

    /// Removes every variable.
    pub fn clear(&mut self)
        ensures
            final(self)@ =~= Map::empty(),
    {
        self.raw_clear()
    }

    /// The value of `name`, if it is set.
    pub fn get(&self, name: &str) -> (value: Option<String>)
        ensures
            match value {
                Some(v) => self@.contains_key(name@) && self@[name@] == v@,
                None => !self@.contains_key(name@),
            },
    {
        self.raw_get(name)
    }

    /// Whether `name` is set.
    pub fn contains_key(&self, name: &str) -> (present: bool)
        ensures
            present == self@.contains_key(name@),
    {
        self.raw_get(name).is_some()
    }

    /// All variables as pairs, each name once, in no particular order.
    pub fn entries(&self) -> (pairs: Vec<(String, String)>)
        ensures
            lists_contents(pairs@, self@),
    {
        self.raw_entries()
    }

    /// A set with the same variables.
    pub fn duplicate(&self) -> (copy: EnvVars)
        ensures
            copy@ == self@,
    {
        self.raw_clone()
    }
}

/// An argument of the form `NAME=value`, split at its first `=`. An argument
/// without `=` names no variable.
pub open spec fn split_env_var(arg: Seq<char>) -> Option<(Seq<char>, Seq<char>)> {
    if arg.contains('=') {
        let at = choose|i: int| is_first_index(arg, '=', i);
        Some((arg.subrange(0, at), arg.subrange(at + 1, arg.len() as int)))
    } else {
        None
    }
}

/// An argument that reads `name`, `=`, `value`, with no `=` in `name`, splits
/// into exactly that name and value.
pub proof fn lemma_split_env_var(name: Seq<char>, value: Seq<char>)
    requires
        !name.contains('='),
    ensures
        split_env_var(name + seq!['='] + value) == Some((name, value)),
{
    let arg = name + seq!['='] + value;
    let at = name.len() as int;
    assert(arg[at] == '=');
    assert forall|j: int| 0 <= j < at implies arg[j] != '=' by {
        assert(arg[j] == name[j]);
    }
    assert(is_first_index(arg, '=', at));
    let chosen = choose|i: int| is_first_index(arg, '=', i);
    assert(chosen == at);
    assert(arg.subrange(0, at) =~= name);
    assert(arg.subrange(at + 1, arg.len() as int) =~= value);
}

/// Splits an argument of the form `NAME=value` at its first `=`.
pub fn parse_env_var_arg(arg: &str) -> (pair: Option<(String, String)>)
    ensures
        match pair {
            Some((name, value)) => split_env_var(arg@) == Some((name@, value@)),
            None => split_env_var(arg@) is None,
        },
{
    let chars = chars_of(arg);
    match find_char(&chars, '=') {
        None => None,
        Some(at) => {
            proof {
                let chosen = choose|i: int| is_first_index(arg@, '=', i);
                assert(is_first_index(arg@, '=', at as int));
                assert(chosen == at);
            }
            let len: usize = chars.len();
            let name = String::from_str(arg.substring_char(0, at));
            let value = String::from_str(arg.substring_char(at + 1, len));
            Some((name, value))
        },
    }
}

/// The variables named by a list of arguments: each argument that splits
/// sets its name, a later one replacing an earlier one of the same name.
pub open spec fn parsed_env_vars(args: Seq<Seq<char>>) -> Map<Seq<char>, Seq<char>>
    decreases args.len(),
{
    if args.len() == 0 {
        Map::empty()
    } else {
        let before = parsed_env_vars(args.drop_last());
        match split_env_var(args.last()) {
            Some((name, value)) => before.insert(name, value),
            None => before,
        }
    }
}

/// Builds a set from `NAME=value` arguments. Arguments without `=` are
/// passed over; no arguments at all give the empty set.
pub fn parse_env_var_args(args: Option<Vec<String>>) -> (vars: EnvVars)
    ensures
        vars@ == match args {
            Some(list) => parsed_env_vars(views(list@)),
            None => Map::empty(),
        },
{
    let mut vars = EnvVars::new();
    let list = match args {
        Some(list) => list,
        None => {
            return vars;
        },
    };
    let mut i: usize = 0;
    while i < list.len()
        invariant
            i <= list.len(),
            vars@ == parsed_env_vars(views(list@).take(i as int)),
        decreases list.len() - i,
    {
        proof {
            let upto = views(list@).take(i + 1);
            assert(upto.drop_last() =~= views(list@).take(i as int));
            assert(upto.last() == list@[i as int]@);
        }
        match parse_env_var_arg(list[i].as_str()) {
            Some((name, value)) => {
                vars.insert(name, value);
            },
            None => {},
        }
        i += 1;
    }
    proof {
        assert(views(list@).take(list.len() as int) =~= views(list@));
    }
    vars
}

/// Adds every variable of `vars` to `dest`. A name that `dest` already holds
/// gets the value from `vars`.
pub fn append_env_vars(vars: &EnvVars, dest: &mut EnvVars)
    ensures
        final(dest)@ == old(dest)@.union_prefer_right(vars@),
{
    let pairs = vars.entries();
    let ghost before = dest@;
    let mut i: usize = 0;
    while i < pairs.len()
        invariant
            i <= pairs.len(),
            lists_contents(pairs@, vars@),
            forall|name: Seq<char>| #[trigger]
                dest@.contains_key(name) <==> before.contains_key(name) || exists|j: int|
                    0 <= j < i && pairs@[j].0@ == name,
            forall|name: Seq<char>| #[trigger]
                dest@.contains_key(name) ==> dest@[name] == if exists|j: int|
                    0 <= j < i && pairs@[j].0@ == name {
                    vars@[name]
                } else {
                    before[name]
                },
        decreases pairs.len() - i,
    {
        let ghost prev = dest@;
        let name = pairs[i].0.clone();
        let value = pairs[i].1.clone();
        dest.insert(name, value);
        proof {
            let key = pairs@[i as int].0@;
            assert(vars@.contains_pair(key, pairs@[i as int].1@));
            assert forall|n: Seq<char>| #[trigger]
                dest@.contains_key(n) <==> before.contains_key(n) || exists|j: int|
                    0 <= j < i + 1 && pairs@[j].0@ == n by {
                if n == key {
                    assert(pairs@[i as int].0@ == n);
                } else if prev.contains_key(n) && !before.contains_key(n) {
                    let j = choose|j: int| 0 <= j < i && pairs@[j].0@ == n;
                    assert(0 <= j < i + 1 && pairs@[j].0@ == n);
                }
            }
            assert forall|n: Seq<char>| #[trigger] dest@.contains_key(n) implies dest@[n] == if exists|
                j: int,
            |
                0 <= j < i + 1 && pairs@[j].0@ == n {
                vars@[n]
            } else {
                before[n]
            } by {
                if n == key {
                    assert(pairs@[i as int].0@ == n);
                } else {
                    if exists|j: int| 0 <= j < i + 1 && pairs@[j].0@ == n {
                        let j = choose|j: int| 0 <= j < i + 1 && pairs@[j].0@ == n;
                        assert(j < i);
                    }
                }
            }
        }
        i += 1;
    }
    proof {
        let merged = before.union_prefer_right(vars@);
        assert forall|n: Seq<char>| dest@.contains_key(n) <==> merged.contains_key(n) by {
            if vars@.contains_key(n) {
                let j = choose|j: int| 0 <= j < pairs@.len() && pairs@[j].0@ == n;
                assert(0 <= j < i && pairs@[j].0@ == n);
            }
            if exists|j: int| 0 <= j < i && pairs@[j].0@ == n {
                let j = choose|j: int| 0 <= j < i && pairs@[j].0@ == n;
                assert(vars@.contains_pair(pairs@[j].0@, pairs@[j].1@));
            }
        }
        assert forall|n: Seq<char>| dest@.contains_key(n) implies dest@[n] == merged[n] by {
            if vars@.contains_key(n) {
                let j = choose|j: int| 0 <= j < pairs@.len() && pairs@[j].0@ == n;
                assert(0 <= j < i && pairs@[j].0@ == n);
            } else {
                if exists|j: int| 0 <= j < i && pairs@[j].0@ == n {
                    let j = choose|j: int| 0 <= j < i && pairs@[j].0@ == n;
                    assert(vars@.contains_pair(pairs@[j].0@, pairs@[j].1@));
                }
            }
        }
        assert(dest@ =~= merged);
    }
}

/// `vars` without the names listed; an empty list removes everything.
pub open spec fn without_names(vars: Map<Seq<char>, Seq<char>>, names: Seq<Seq<char>>) -> Map<
    Seq<char>,
    Seq<char>,
> {
    if names.len() == 0 {
        Map::empty()
    } else {
        vars.remove_keys(names.to_set())
    }
}

/// Removes the listed names from `dest`. An empty list clears `dest`.
pub fn remove_env_vars(names: &Vec<String>, dest: &mut EnvVars)
    ensures
        final(dest)@ == without_names(old(dest)@, views(names@)),
{
    if names.len() == 0 {
        dest.clear();
        return;
    }
    let ghost before = dest@;
    let mut i: usize = 0;
    while i < names.len()
        invariant
            i <= names.len(),
            dest@ == before.remove_keys(views(names@).take(i as int).to_set()),
        decreases names.len() - i,
    {
        dest.remove(names[i].as_str());
        proof {
            let next = views(names@).take(i + 1);
            lemma_take_one_more(views(names@), i as int);
            assert(dest@ =~= before.remove_keys(next.to_set()));
        }
        i += 1;
    }
    proof {
        assert(views(names@).take(names.len() as int) =~= views(names@));
    }
}

/// Replaces `dest` by `vars`, or, when `append` is set, adds `vars` to it.
pub fn set_env_vars(vars: EnvVars, dest: &mut EnvVars, append: bool)
    ensures
        final(dest)@ == if append {
            old(dest)@.union_prefer_right(vars@)
        } else {
            vars@
        },
{
    if append {
        append_env_vars(&vars, dest);
    } else {
        *dest = vars;
    }
}

/// Name of the variable that holds the root path of the prefix.
pub open spec fn prefix_path_var() -> Seq<char> {
    "WINEPREFIX"@
}

/// Name of the variable that holds the architecture flag.
pub open spec fn arch_var() -> Seq<char> {
    "WINEARCH"@
}

/// Name of the variable that names the managed prefix.
pub open spec fn prefix_name_var() -> Seq<char> {
    "WPFXM_PFX_NAME"@
}

/// The three variables every child process receives.
pub open spec fn required_vars(prefix_path: Seq<char>, arch: PrefixArch, name: Seq<char>) -> Map<
    Seq<char>,
    Seq<char>,
> {
    Map::empty().insert(prefix_path_var(), prefix_path).insert(
        arch_var(),
        arch.wine_name_spec(),
    ).insert(prefix_name_var(), name)
}

/// Layers applied in order, a later layer replacing what an earlier one set
/// under the same name.
pub open spec fn layered(
    required: Map<Seq<char>, Seq<char>>,
    global: Map<Seq<char>, Seq<char>>,
    prefix: Map<Seq<char>, Seq<char>>,
    launch: Map<Seq<char>, Seq<char>>,
) -> Map<Seq<char>, Seq<char>> {
    required.union_prefer_right(global).union_prefer_right(prefix).union_prefer_right(launch)
}

/// The three variables every child process receives: the root path of the
/// prefix, its architecture flag and its name.
pub fn required_runtime_vars(prefix_path: &str, arch: PrefixArch, name: &str) -> (vars: EnvVars)
    ensures
        vars@ == required_vars(prefix_path@, arch, name@),
{
    let mut vars = EnvVars::new();
    vars.insert(String::from_str("WINEPREFIX"), String::from_str(prefix_path));
    vars.insert(String::from_str("WINEARCH"), String::from_str(arch.wine_name()));
    vars.insert(String::from_str("WPFXM_PFX_NAME"), String::from_str(name));
    vars
}

/// The environment of a child process: the required variables, then the
/// global ones, then those of the prefix, then those of the invocation. None
/// of the inputs is changed.
pub fn compose(
    prefix_path: &str,
    arch: PrefixArch,
    name: &str,
    global: &EnvVars,
    prefix: &EnvVars,
    launch: &EnvVars,
) -> (vars: EnvVars)
    ensures
        vars@ == layered(required_vars(prefix_path@, arch, name@), global@, prefix@, launch@),
{
    let mut vars = required_runtime_vars(prefix_path, arch, name);
    append_env_vars(global, &mut vars);
    append_env_vars(prefix, &mut vars);
    append_env_vars(launch, &mut vars);
    vars
}

/// Applying the same layers again on top of a composed environment changes
/// nothing.
pub proof fn law_compose_idempotent(
    required: Map<Seq<char>, Seq<char>>,
    global: Map<Seq<char>, Seq<char>>,
    prefix: Map<Seq<char>, Seq<char>>,
    launch: Map<Seq<char>, Seq<char>>,
)
    ensures
        layered(layered(required, global, prefix, launch), global, prefix, launch) == layered(
            required,
            global,
            prefix,
            launch,
        ),
        layered(required, global, prefix, launch).union_prefer_right(required).union_prefer_right(
            global,
        ).union_prefer_right(prefix).union_prefer_right(launch) == layered(
            required,
            global,
            prefix,
            launch,
        ),
{
    let once = layered(required, global, prefix, launch);
    assert(layered(once, global, prefix, launch) =~= once);
    assert(once.union_prefer_right(required).union_prefer_right(global).union_prefer_right(
        prefix,
    ).union_prefer_right(launch) =~= once);
}

/// A name takes its value from the highest layer that sets it: the
/// invocation before the prefix, the prefix before the global set, the global
/// set before the required variables.
pub proof fn law_higher_layer_wins(
    required: Map<Seq<char>, Seq<char>>,
    global: Map<Seq<char>, Seq<char>>,
    prefix: Map<Seq<char>, Seq<char>>,
    launch: Map<Seq<char>, Seq<char>>,
    name: Seq<char>,
)
    ensures
        ({
            let all = layered(required, global, prefix, launch);
            &&& all.contains_key(name) <==> required.contains_key(name) || global.contains_key(name)
                || prefix.contains_key(name) || launch.contains_key(name)
            &&& launch.contains_key(name) ==> all[name] == launch[name]
            &&& !launch.contains_key(name) && prefix.contains_key(name) ==> all[name]
                == prefix[name]
            &&& !launch.contains_key(name) && !prefix.contains_key(name) && global.contains_key(name)
                ==> all[name] == global[name]
            &&& !launch.contains_key(name) && !prefix.contains_key(name) && !global.contains_key(
                name,
            ) && required.contains_key(name) ==> all[name] == required[name]
        }),
{
}

/// Within one layer the order in which distinct names are set does not
/// matter.
pub proof fn law_insertion_order_irrelevant(
    base: Map<Seq<char>, Seq<char>>,
    first: Seq<char>,
    first_value: Seq<char>,
    second: Seq<char>,
    second_value: Seq<char>,
)
    requires
        first != second,
    ensures
        base.insert(first, first_value).insert(second, second_value) == base.insert(
            second,
            second_value,
        ).insert(first, first_value),
{
    assert(base.insert(first, first_value).insert(second, second_value) =~= base.insert(
        second,
        second_value,
    ).insert(first, first_value));
}

} // verus!
