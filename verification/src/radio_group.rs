//! Radio groups: which value a group selects when roving focus moves.
use vstd::prelude::*;
use std::collections::HashMap;
use vstd::string::StrSliceExecFns;

verus! {

broadcast use vstd::std_specs::hash::group_hash_axioms;

/// The value a request to select `value` changes the group to: `None`
/// when it is already the current value (nothing to report), else
/// `Some(value)`.
pub fn changed_value(current: &str, value: String) -> (change: Option<String>)
    ensures
        change == if value@ == current@ { None } else { Some(value) },
{
    let n = current.unicode_len();
    let same = if n != value.as_str().unicode_len() {
        false
    } else {
        let mut i: usize = 0;
        let mut equal = true;
        while i < n
            invariant
                n == current@.len(),
                n == value@.len(),
                0 <= i <= n,
                equal == (forall|j: int| 0 <= j < i ==> current@[j] == value@[j]),
            decreases n - i,
        {
            if current.get_char(i) != value.as_str().get_char(i) {
                equal = false;
            }
            i = i + 1;
        }
        proof {
            if equal {
                assert(current@ =~= value@);
            }
        }
        equal
    };
    if same {
        None
    } else {
        Some(value)
    }
}

/// The value selected when focus lands on the radio at `focused`:
/// `values` maps each enabled radio's index to its value; nothing is
/// selected when no radio is focused, the focused one has no value, or its
/// value is already the current one.
pub open spec fn focused_selection(current: Seq<char>, focused: Option<usize>, values: Map<usize, String>) -> Option<String> {
    match focused {
        Some(i) => if values.contains_key(i) && values[i]@ != current {
            Some(values[i])
        } else {
            None
        },
        None => None,
    }
}

/// The value to select after roving focus moved to `focused` (arrow keys
/// select as they move).
pub fn select_focused_value(current: &str, focused: Option<usize>, values: &HashMap<usize, String>) -> (change: Option<String>)
    ensures
        change == focused_selection(current@, focused, values@),
{
    match focused {
        Some(i) => match values.get(&i) {
            Some(v) => changed_value(current, v.clone()),
            None => None,
        },
        None => None,
    }
}

} // verus!
