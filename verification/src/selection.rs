//! Moving a selection through a list that wraps around.

use vstd::prelude::*;

verus! {

/// The place before `selected` in a list of `count` items; the last place
/// before the first. In an empty list the selection stays at the start.
pub open spec fn previous_in(selected: nat, count: nat) -> nat {
    if count == 0 {
        0
    } else if selected == 0 || selected > count {
        (count - 1) as nat
    } else {
        (selected - 1) as nat
    }
}

/// The place after `selected` in a list of `count` items; the first place
/// after the last. In an empty list the selection stays at the start.
pub open spec fn next_in(selected: nat, count: nat) -> nat {
    if count == 0 || selected + 1 >= count {
        0
    } else {
        selected + 1
    }
}

/// Moves a selection one place up.
pub fn select_previous(selected: usize, count: usize) -> (place: usize)
    ensures
        place == previous_in(selected as nat, count as nat),
        count > 0 ==> place < count,
{
    if count == 0 {
        0
    } else if selected == 0 || selected > count {
        count - 1
    } else {
        selected - 1
    }
}

/// Moves a selection one place down.
pub fn select_next(selected: usize, count: usize) -> (place: usize)
    ensures
        place == next_in(selected as nat, count as nat),
        count > 0 ==> place < count,
{
    if count == 0 || selected >= count - 1 {
        0
    } else {
        selected + 1
    }
}

} // verus!
