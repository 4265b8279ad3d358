//! Which files are exercises, in which order they are visited, and what a
//! batch of verdicts adds up to.

use vstd::prelude::*;
use crate::paths::{
    comps_view, components, components_lt, components_lt_exec, components_of, is_hxt, is_hxt_path,
    lemma_components_lt_irreflexive, lemma_components_lt_transitive, lemma_components_lt_trichotomy,
    path_lt,
};
use crate::text::chars_of;

verus! {

/// The characters of each path.
pub open spec fn views(s: Seq<String>) -> Seq<Seq<char>> {
    s.map_values(|p: String| p@)
}

/// In the listing of `paths`, the path at `i` comes before the one at `j`:
/// it sorts earlier, or it is the same path and was found earlier.
pub open spec fn listed_before(paths: Seq<Seq<char>>, i: int, j: int) -> bool {
    path_lt(paths[i], paths[j]) || (components(paths[i]) == components(paths[j]) && i < j)
}

/// The listing order is total and strict: of two different positions,
/// exactly one is listed before the other. So the listing of exercise
/// files admits one order only.
pub proof fn lemma_listing_order(paths: Seq<Seq<char>>, i: int, j: int)
    requires
        0 <= i < paths.len(),
        0 <= j < paths.len(),
        i != j,
    ensures
        listed_before(paths, i, j) != listed_before(paths, j, i),
{
    lemma_components_lt_trichotomy(components(paths[i]), components(paths[j]));
    lemma_components_lt_irreflexive(components(paths[i]));
    if path_lt(paths[i], paths[j]) && path_lt(paths[j], paths[i]) {
        lemma_components_lt_transitive(components(paths[i]), components(paths[j]), components(paths[i]));
    }
}

/// Positions of the exercise files among `paths` (those whose file name
/// has the extension `hxt`), in the order `sort` puts them: by path order,
/// and the same path in the order found.
pub fn select_exercise_files(paths: &Vec<String>) -> (res: Vec<usize>)
    ensures
        forall|k: int|
            0 <= k < res@.len() ==> res@[k] < paths@.len() && is_hxt(#[trigger] paths@[res@[k] as int]@),
        forall|i: int| 0 <= i < paths@.len() && is_hxt(#[trigger] paths@[i]@) ==> res@.contains(i as usize),
        forall|a: int, b: int|
            0 <= a < b < res@.len() ==> listed_before(views(paths@), #[trigger] res@[a] as int, #[trigger] res@[b] as int),
{
    let ghost v = views(paths@);
    let mut res: Vec<usize> = Vec::new();
    let mut keys: Vec<Vec<Vec<char>>> = Vec::new();
    let mut i: usize = 0;
    while i < paths.len()
        invariant
            i <= paths@.len(),
            v == views(paths@),
            keys@.len() == res@.len(),
            forall|m: int|
                0 <= m < res@.len() ==> #[trigger] res@[m] < i && is_hxt(paths@[res@[m] as int]@)
                    && comps_view(keys@[m]@) == components(v[res@[m] as int]),
            forall|x: int| 0 <= x < i && is_hxt(#[trigger] paths@[x]@) ==> res@.contains(x as usize),
            forall|a: int, b: int|
                0 <= a < b < res@.len() ==> listed_before(v, #[trigger] res@[a] as int, #[trigger] res@[b] as int),
        decreases paths@.len() - i,
    {
        let ghost res_before = res@;
        let ghost keys_before = keys@;
        let chars = chars_of(paths[i].as_str());
        assert(chars@ == v[i as int]);
        if is_hxt_path(&chars) {
            let k = components_of(&chars);
            let mut j: usize = 0;
            while j < keys.len() && !components_lt_exec(&k, &keys[j])
                invariant
                    j <= keys@.len(),
                    forall|m: int| 0 <= m < j ==> !components_lt(comps_view(k@), #[trigger] comps_view(keys@[m]@)),
                decreases keys@.len() - j,
            {
                j += 1;
            }
            proof {
                assert forall|m: int| 0 <= m < j implies listed_before(v, #[trigger] res@[m] as int, i as int) by {
                    lemma_components_lt_trichotomy(comps_view(k@), comps_view(keys@[m]@));
                }
                assert forall|m: int| j <= m < res@.len() implies listed_before(v, i as int, #[trigger] res@[m] as int) by {
                    if m > j {
                        assert(listed_before(v, res@[j as int] as int, res@[m] as int));
                        if path_lt(v[res@[j as int] as int], v[res@[m] as int]) {
                            lemma_components_lt_transitive(comps_view(k@), comps_view(keys@[j as int]@), comps_view(keys@[m]@));
                        }
                    }
                }
            }
            res.insert(j, i);
            keys.insert(j, k);
            proof {
                assert forall|m: int|
                    0 <= m < res@.len() implies #[trigger] res@[m] < i + 1 && is_hxt(paths@[res@[m] as int]@)
                        && comps_view(keys@[m]@) == components(v[res@[m] as int]) by {
                    if m < j {
                        assert(res@[m] == res_before[m] && keys@[m] == keys_before[m]);
                    } else if m > j {
                        assert(res@[m] == res_before[m - 1] && keys@[m] == keys_before[m - 1]);
                    }
                }
                assert forall|x: int| 0 <= x < i + 1 && is_hxt(#[trigger] paths@[x]@) implies res@.contains(x as usize) by {
                    if x == i {
                        assert(res@[j as int] == i);
                    } else {
                        let y = choose|y: int| 0 <= y < res_before.len() && res_before[y] == x as usize;
                        if y < j {
                            assert(res@[y] == x as usize);
                        } else {
                            assert(res@[y + 1] == x as usize);
                        }
                    }
                }
                assert forall|a: int, b: int| 0 <= a < b < res@.len() implies listed_before(
                    v,
                    #[trigger] res@[a] as int,
                    #[trigger] res@[b] as int,
                ) by {
                    if b < j {
                        assert(res@[a] == res_before[a] && res@[b] == res_before[b]);
                    } else if a < j && b == j {
                        assert(res@[a] == res_before[a]);
                    } else if a < j {
                        assert(res@[a] == res_before[a] && res@[b] == res_before[b - 1]);
                    } else if a == j {
                        assert(res@[b] == res_before[b - 1]);
                    } else {
                        assert(res@[a] == res_before[a - 1] && res@[b] == res_before[b - 1]);
                    }
                }
            }
        } else {
            proof {
                assert forall|x: int| 0 <= x < i + 1 && is_hxt(#[trigger] paths@[x]@) implies res@.contains(x as usize) by {
                    if x == i {
                        assert(false);
                    }
                }
            }
        }
        i += 1;
    }
    res
}

/// How many of the verdicts are passes.
pub open spec fn count_passed(v: Seq<bool>) -> nat
    decreases v.len(),
{
    if v.len() == 0 {
        0
    } else {
        count_passed(v.drop_last()) + if v.last() { 1nat } else { 0nat }
    }
}

/// Every exercise passes exactly when all verdicts are passes: then
/// `summarize_verdicts` counts no failure and `first_incomplete` finds no
/// exercise left to do.
pub proof fn lemma_all_passed(v: Seq<bool>)
    ensures
        count_passed(v) <= v.len(),
        count_passed(v) == v.len() <==> forall|j: int| 0 <= j < v.len() ==> v[j],
    decreases v.len(),
{
    if v.len() > 0 {
        lemma_all_passed(v.drop_last());
        if forall|j: int| 0 <= j < v.len() ==> v[j] {
            assert forall|j: int| 0 <= j < v.drop_last().len() implies v.drop_last()[j] by {
                assert(v[j]);
            }
            assert(v[v.len() - 1]);
        }
        if count_passed(v) == v.len() {
            assert forall|j: int| 0 <= j < v.len() implies v[j] by {
                if j < v.len() - 1 {
                    assert(v.drop_last()[j]);
                }
            }
        }
    }
}

/// A tally counts each verdict once and on its own: the passes are exactly
/// the true verdicts and the failures exactly the false ones, and adding a
/// verdict to a batch adds one pass exactly when that verdict is true,
/// whatever the earlier verdicts were.
pub proof fn law_tally(v: Seq<bool>, b: bool)
    ensures
        count_passed(v) == v.filter(|x: bool| x).len(),
        v.len() - count_passed(v) == v.filter(|x: bool| !x).len(),
        count_passed(v.push(b)) == count_passed(v) + if b { 1int } else { 0int },
    decreases v.len(),
{
    assert(v.push(b).drop_last() =~= v);
    if v.len() > 0 {
        law_tally(v.drop_last(), b);
        v.drop_last().lemma_filter_push(v.last(), |x: bool| x);
        v.drop_last().lemma_filter_push(v.last(), |x: bool| !x);
        assert(v.drop_last().push(v.last()) =~= v);
        lemma_all_passed(v.drop_last());
    } else {
        reveal(Seq::filter);
        assert(v.filter(|x: bool| x) =~= Seq::<bool>::empty());
        assert(v.filter(|x: bool| !x) =~= Seq::<bool>::empty());
    }
}

/// The outcome of verifying a batch of exercises.
#[derive(Debug, Clone, Copy, PartialEq, Eq, Structural)]
pub struct VerifySummary {
    /// Exercises whose PRACTICE matches EXPECTED.
    pub passed: usize,
    /// Exercises still to be done.
    pub failed: usize,
}

/// Counts passes and failures among `verdicts`; the batch is complete
/// exactly when `failed` is 0.
pub fn summarize_verdicts(verdicts: &Vec<bool>) -> (s: VerifySummary)
    ensures
        s.passed == count_passed(verdicts@),
        s.passed + s.failed == verdicts@.len(),
        s.passed == verdicts@.filter(|b: bool| b).len(),
        s.failed == verdicts@.filter(|b: bool| !b).len(),
{
    let mut passed: usize = 0;
    let mut failed: usize = 0;
    let mut i: usize = 0;
    while i < verdicts.len()
        invariant
            i <= verdicts@.len(),
            passed == count_passed(verdicts@.take(i as int)),
            passed + failed == i,
        decreases verdicts@.len() - i,
    {
        assert(verdicts@.take(i + 1).drop_last() =~= verdicts@.take(i as int));
        if verdicts[i] {
            passed += 1;
        } else {
            failed += 1;
        }
        i += 1;
    }
    assert(verdicts@.take(i as int) =~= verdicts@);
    proof {
        law_tally(verdicts@, true);
    }
    VerifySummary { passed, failed }
}

} // verus!
