//! Locating the exercises directory that a file belongs to.

use vstd::prelude::*;
use crate::paths::exercises_name;
use crate::text::{chars_of, string_of};

verus! {

/// A `/`-separated component equal to `exercises` ends at index `e` of `s`.
pub open spec fn exercises_end(s: Seq<char>, e: int) -> bool {
    &&& 9 <= e <= s.len()
    &&& s.subrange(e - 9, e) == exercises_name()
    &&& (e == 9 || s[e - 10] == '/')
    &&& (e == s.len() || s[e] == '/')
}

fn is_exercises_end(s: &Vec<char>, e: usize) -> (r: bool)
    requires
        9 <= e <= s@.len(),
    ensures
        r == exercises_end(s@, e as int),
{
    let b = e - 9;
    let found = s[b] == 'e' && s[b + 1] == 'x' && s[b + 2] == 'e' && s[b + 3] == 'r' && s[b + 4] == 'c'
        && s[b + 5] == 'i' && s[b + 6] == 's' && s[b + 7] == 'e' && s[b + 8] == 's';
    proof {
        if found {
            assert(s@.subrange(e - 9, e as int) =~= exercises_name());
        } else if s@.subrange(e - 9, e as int) == exercises_name() {
            assert(s@.subrange(e - 9, e as int)[0] == s@[b as int]);
            assert(s@.subrange(e - 9, e as int)[1] == s@[b + 1]);
            assert(s@.subrange(e - 9, e as int)[2] == s@[b + 2]);
            assert(s@.subrange(e - 9, e as int)[3] == s@[b + 3]);
            assert(s@.subrange(e - 9, e as int)[4] == s@[b + 4]);
            assert(s@.subrange(e - 9, e as int)[5] == s@[b + 5]);
            assert(s@.subrange(e - 9, e as int)[6] == s@[b + 6]);
            assert(s@.subrange(e - 9, e as int)[7] == s@[b + 7]);
            assert(s@.subrange(e - 9, e as int)[8] == s@[b + 8]);
        }
    }
    found && (e == 9 || s[e - 10] == '/') && (e == s.len() || s[e] == '/')
}

/// The exercises directory that `path` lies in: `path` up to and including
/// its last component named `exercises`, or `None` when no component has
/// that name.
pub fn exercises_root(path: &str) -> (r: Option<String>)
    ensures
        match r {
            Some(root) => exists|e: int| #[trigger]
                exercises_end(path@, e) && root@ == path@.take(e) && forall|e2: int|
                    exercises_end(path@, e2) ==> e2 <= e,
            None => forall|e: int| !exercises_end(path@, e),
        },
{
    let s = chars_of(path);
    let mut e: usize = s.len();
    while e >= 9
        invariant
            e <= s@.len(),
            s@ == path@,
            forall|e2: int| e < e2 ==> !exercises_end(s@, e2),
        decreases e,
    {
        if is_exercises_end(&s, e) {
            let mut prefix: Vec<char> = Vec::new();
            let mut i: usize = 0;
            while i < e
                invariant
                    i <= e <= s@.len(),
                    prefix@ == s@.take(i as int),
                decreases e - i,
            {
                prefix.push(s[i]);
                i += 1;
                assert(prefix@ =~= s@.take(i as int));
            }
            return Some(string_of(&prefix));
        }
        e -= 1;
    }
    None
}

} // verus!
