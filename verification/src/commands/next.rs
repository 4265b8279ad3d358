//! The next exercise to work on.

use vstd::prelude::*;

verus! {

/// Index of the first exercise that does not pass yet, in visiting order;
/// `None` when every exercise passes.
pub fn first_incomplete(verdicts: &Vec<bool>) -> (r: Option<usize>)
    ensures
        match r {
            Some(i) => i < verdicts@.len() && !verdicts@[i as int] && forall|j: int|
                0 <= j < i ==> verdicts@[j],
            None => forall|j: int| 0 <= j < verdicts@.len() ==> verdicts@[j],
        },
{
    let mut i: usize = 0;
    while i < verdicts.len()
        invariant
            i <= verdicts@.len(),
            forall|j: int| 0 <= j < i ==> verdicts@[j],
        decreases verdicts@.len() - i,
    {
        if !verdicts[i] {
            return Some(i);
        }
        i += 1;
    }
    None
}

} // verus!
