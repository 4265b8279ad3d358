//! Per-module completion statistics.

use vstd::prelude::*;
use crate::display::{rounded_ratio, rounded_share};
use crate::text::{chars_of, lemma_text_lt_irreflexive, lemma_text_lt_transitive, lemma_text_lt_trichotomy, text_lt, text_lt_exec};

verus! {

/// Each exercise as (module name, passes).
pub open spec fn entry_views(s: Seq<(String, bool)>) -> Seq<(Seq<char>, bool)> {
    s.map_values(|e: (String, bool)| (e.0@, e.1))
}

/// How many exercises belong to module `name`.
pub open spec fn module_total(s: Seq<(Seq<char>, bool)>, name: Seq<char>) -> nat
    decreases s.len(),
{
    if s.len() == 0 {
        0
    } else {
        module_total(s.drop_last(), name) + if s.last().0 == name { 1nat } else { 0nat }
    }
}

/// How many exercises of module `name` pass.
pub open spec fn module_completed(s: Seq<(Seq<char>, bool)>, name: Seq<char>) -> nat
    decreases s.len(),
{
    if s.len() == 0 {
        0
    } else {
        module_completed(s.drop_last(), name) + if s.last().0 == name && s.last().1 {
            1nat
        } else {
            0nat
        }
    }
}

proof fn lemma_module_counts_bounded(s: Seq<(Seq<char>, bool)>, name: Seq<char>)
    ensures
        module_completed(s, name) <= module_total(s, name) <= s.len(),
    decreases s.len(),
{
    if s.len() > 0 {
        lemma_module_counts_bounded(s.drop_last(), name);
    }
}

/// Some row is labelled `name`.
pub open spec fn listed(rows: Seq<(String, ModuleStats)>, name: Seq<char>) -> bool {
    exists|i: int| 0 <= i < rows.len() && #[trigger] rows[i].0@ == name
}

/// Completion counts of one module.
#[derive(Debug, Clone, Copy, PartialEq, Eq, Structural)]
pub struct ModuleStats {
    pub total: usize,
    pub completed: usize,
}

/// Groups exercises by module: one row per module name that occurs, sorted
/// by name, holding how many exercises the module has and how many of them
/// pass.
pub fn module_stats(entries: &Vec<(String, bool)>) -> (rows: Vec<(String, ModuleStats)>)
    ensures
        forall|i: int, j: int|
            0 <= i < j < rows@.len() ==> text_lt(#[trigger] rows@[i].0@, #[trigger] rows@[j].0@),
        forall|i: int|
            0 <= i < rows@.len() ==> {
                &&& (#[trigger] rows@[i]).1.total == module_total(entry_views(entries@), rows@[i].0@)
                &&& rows@[i].1.completed == module_completed(entry_views(entries@), rows@[i].0@)
                &&& rows@[i].1.total > 0
            },
        forall|i: int|
            0 <= i < rows@.len() ==> {
                &&& (#[trigger] rows@[i]).1.total == entry_views(entries@).filter(
                    |e: (Seq<char>, bool)| e.0 == rows@[i].0@,
                ).len()
                &&& rows@[i].1.completed == entry_views(entries@).filter(
                    |e: (Seq<char>, bool)| e.0 == rows@[i].0@ && e.1,
                ).len()
            },
        forall|k: int| 0 <= k < entries@.len() ==> listed(rows@, (#[trigger] entries@[k]).0@),
{
    let ghost ev = entry_views(entries@);
    let mut rows: Vec<(String, ModuleStats)> = Vec::new();
    let mut keys: Vec<Vec<char>> = Vec::new();
    let mut k: usize = 0;
    while k < entries.len()
        invariant
            k <= entries@.len(),
            ev == entry_views(entries@),
            keys@.len() == rows@.len(),
            forall|m: int| 0 <= m < keys@.len() ==> #[trigger] keys@[m]@ == rows@[m].0@,
            forall|i: int, j: int|
                0 <= i < j < rows@.len() ==> text_lt(#[trigger] rows@[i].0@, #[trigger] rows@[j].0@),
            forall|i: int|
                0 <= i < rows@.len() ==> {
                    &&& (#[trigger] rows@[i]).1.total == module_total(ev.take(k as int), rows@[i].0@)
                    &&& rows@[i].1.completed == module_completed(ev.take(k as int), rows@[i].0@)
                    &&& rows@[i].1.total > 0
                },
            forall|m: int| 0 <= m < k ==> listed(rows@, (#[trigger] entries@[m]).0@),
        decreases entries@.len() - k,
    {
        let ghost prev_rows = rows@;
        let ghost prev_keys = keys@;
        let ghost name = entries@[k as int].0@;
        let ghost passes = entries@[k as int].1;
        assert(ev.take(k + 1).drop_last() =~= ev.take(k as int));
        assert(ev.take(k + 1).last() == (name, passes));
        let key = chars_of(entries[k].0.as_str());
        assert(key@ == name);
        let mut j: usize = 0;
        while j < keys.len() && text_lt_exec(&keys[j], &key)
            invariant
                j <= keys@.len(),
                keys@.len() == rows@.len(),
                forall|m: int| 0 <= m < keys@.len() ==> #[trigger] keys@[m]@ == rows@[m].0@,
                forall|m: int| 0 <= m < j ==> text_lt(#[trigger] rows@[m].0@, key@),
            decreases keys@.len() - j,
        {
            j += 1;
        }
        proof {
            lemma_module_counts_bounded(ev.take(k + 1), name);
            assert(ev.take(k + 1).len() == k + 1);
        }
        let same = j < keys.len() && !text_lt_exec(&key, &keys[j]);
        if same {
            proof {
                lemma_text_lt_trichotomy(key@, keys@[j as int]@);
            }
            let old_row = rows[j].1;
            let label = rows[j].0.clone();
            proof {
                lemma_module_counts_bounded(ev.take(k + 1), rows@[j as int].0@);
            }
            let stats = ModuleStats {
                total: old_row.total + 1,
                completed: if entries[k].1 { old_row.completed + 1 } else { old_row.completed },
            };
            rows.set(j, (label, stats));
            proof {
                assert forall|i: int| 0 <= i < rows@.len() implies {
                    &&& (#[trigger] rows@[i]).1.total == module_total(ev.take(k + 1), rows@[i].0@)
                    &&& rows@[i].1.completed == module_completed(ev.take(k + 1), rows@[i].0@)
                    &&& rows@[i].1.total > 0
                } by {
                    if i != j {
                        assert(rows@[i] == prev_rows[i]);
                        if i < j {
                            lemma_text_lt_irreflexive(name);
                        } else {
                            assert(text_lt(prev_rows[j as int].0@, prev_rows[i].0@));
                            lemma_text_lt_irreflexive(name);
                        }
                    }
                }
                assert forall|m: int| 0 <= m < k + 1 implies listed(rows@, (#[trigger] entries@[m]).0@) by {
                    if m == k {
                        assert(rows@[j as int].0@ == entries@[m].0@);
                    } else {
                        assert(listed(prev_rows, entries@[m].0@));
                        let i = choose|i: int|
                            0 <= i < prev_rows.len() && #[trigger] prev_rows[i].0@ == entries@[m].0@;
                        assert(rows@[i].0@ == prev_rows[i].0@);
                    }
                }
            }
        } else {
            proof {
                if j < keys@.len() {
                    lemma_text_lt_trichotomy(key@, keys@[j as int]@);
                    assert forall|m: int| j <= m < rows@.len() implies text_lt(key@, #[trigger] rows@[m].0@) by {
                        if m > j {
                            lemma_text_lt_transitive(key@, rows@[j as int].0@, rows@[m].0@);
                        }
                    }
                }
                assert forall|m: int| 0 <= m < rows@.len() implies rows@[m].0@ != name by {
                    lemma_text_lt_irreflexive(name);
                }
            }
            let label = entries[k].0.clone();
            let stats = ModuleStats { total: 1, completed: if entries[k].1 { 1 } else { 0 } };
            rows.insert(j, (label, stats));
            keys.insert(j, key);
            proof {
                assert forall|i: int, i2: int| 0 <= i < i2 < rows@.len() implies text_lt(
                    #[trigger] rows@[i].0@,
                    #[trigger] rows@[i2].0@,
                ) by {
                    if i2 < j {
                    } else if i < j && i2 == j {
                    } else if i < j {
                        assert(rows@[i2] == prev_rows[i2 - 1]);
                    } else if i == j {
                        assert(rows@[i2] == prev_rows[i2 - 1]);
                    } else {
                        assert(rows@[i] == prev_rows[i - 1]);
                        assert(rows@[i2] == prev_rows[i2 - 1]);
                    }
                }
                assert forall|m: int| 0 <= m < keys@.len() implies #[trigger] keys@[m]@ == rows@[m].0@ by {
                    if m > j {
                        assert(keys@[m] == prev_keys[m - 1]);
                        assert(rows@[m] == prev_rows[m - 1]);
                    }
                }
                assert forall|i: int| 0 <= i < rows@.len() implies {
                    &&& (#[trigger] rows@[i]).1.total == module_total(ev.take(k + 1), rows@[i].0@)
                    &&& rows@[i].1.completed == module_completed(ev.take(k + 1), rows@[i].0@)
                    &&& rows@[i].1.total > 0
                } by {
                    if i == j {
                        if module_total(ev.take(k as int), name) > 0 {
                            lemma_total_positive_has_entry(ev.take(k as int), name);
                            let m = choose|m: int| 0 <= m < k && #[trigger] ev.take(k as int)[m].0 == name;
                            assert(ev[m].0 == entries@[m].0@);
                            assert(listed(prev_rows, entries@[m].0@));
                            let r = choose|r: int|
                                0 <= r < prev_rows.len() && #[trigger] prev_rows[r].0@ == entries@[m].0@;
                            assert(false);
                        }
                        lemma_completed_zero(ev.take(k as int), name);
                    } else if i < j {
                        assert(rows@[i] == prev_rows[i]);
                    } else {
                        assert(rows@[i] == prev_rows[i - 1]);
                    }
                }
                assert forall|m: int| 0 <= m < k + 1 implies listed(rows@, (#[trigger] entries@[m]).0@) by {
                    if m == k {
                        assert(rows@[j as int].0@ == entries@[m].0@);
                    } else {
                        assert(listed(prev_rows, entries@[m].0@));
                        let i = choose|i: int|
                            0 <= i < prev_rows.len() && #[trigger] prev_rows[i].0@ == entries@[m].0@;
                        if i < j {
                            assert(rows@[i] == prev_rows[i]);
                        } else {
                            assert(rows@[i + 1] == prev_rows[i]);
                        }
                    }
                }
            }
        }
        k += 1;
    }
    assert(ev.take(k as int) =~= ev);
    proof {
        assert forall|i: int| 0 <= i < rows@.len() implies {
            &&& (#[trigger] rows@[i]).1.total == ev.filter(|e: (Seq<char>, bool)| e.0 == rows@[i].0@).len()
            &&& rows@[i].1.completed == ev.filter(|e: (Seq<char>, bool)| e.0 == rows@[i].0@ && e.1).len()
        } by {
            let name = rows@[i].0@;
            assert(rows@[i].1.total == module_total(ev, name));
            assert(rows@[i].1.completed == module_completed(ev, name));
            law_module_counts(ev, name);
            assert((|e: (Seq<char>, bool)| e.0 == name) =~= (|e: (Seq<char>, bool)| e.0 == rows@[i].0@));
            assert((|e: (Seq<char>, bool)| e.0 == name && e.1) =~= (|e: (Seq<char>, bool)| e.0 == rows@[i].0@
                && e.1));
        }
    }
    rows
}

proof fn lemma_total_positive_has_entry(s: Seq<(Seq<char>, bool)>, name: Seq<char>)
    requires
        module_total(s, name) > 0,
    ensures
        exists|m: int| 0 <= m < s.len() && #[trigger] s[m].0 == name,
    decreases s.len(),
{
    if s.last().0 == name {
        assert(s[s.len() - 1].0 == name);
    } else {
        lemma_total_positive_has_entry(s.drop_last(), name);
        let m = choose|m: int| 0 <= m < s.drop_last().len() && #[trigger] s.drop_last()[m].0 == name;
        assert(s[m].0 == name);
    }
}

proof fn lemma_completed_zero(s: Seq<(Seq<char>, bool)>, name: Seq<char>)
    requires
        module_total(s, name) == 0,
    ensures
        module_completed(s, name) == 0,
{
    lemma_module_counts_bounded(s, name);
}

/// Sum of the rows' totals.
pub open spec fn rows_total(rows: Seq<(String, ModuleStats)>) -> nat
    decreases rows.len(),
{
    if rows.len() == 0 {
        0
    } else {
        rows_total(rows.drop_last()) + rows.last().1.total as nat
    }
}

/// Sum of the rows' completed counts.
pub open spec fn rows_completed(rows: Seq<(String, ModuleStats)>) -> nat
    decreases rows.len(),
{
    if rows.len() == 0 {
        0
    } else {
        rows_completed(rows.drop_last()) + rows.last().1.completed as nat
    }
}

/// The totals over all modules.
pub fn overall_stats(rows: &Vec<(String, ModuleStats)>) -> (s: ModuleStats)
    requires
        rows_total(rows@) <= usize::MAX,
        rows_completed(rows@) <= usize::MAX,
    ensures
        s.total == rows_total(rows@),
        s.completed == rows_completed(rows@),
{
    let mut total: usize = 0;
    let mut completed: usize = 0;
    let mut i: usize = 0;
    while i < rows.len()
        invariant
            i <= rows@.len(),
            rows_total(rows@) <= usize::MAX,
            rows_completed(rows@) <= usize::MAX,
            total == rows_total(rows@.take(i as int)),
            completed == rows_completed(rows@.take(i as int)),
        decreases rows@.len() - i,
    {
        assert(rows@.take(i + 1).drop_last() =~= rows@.take(i as int));
        proof {
            lemma_rows_sums_prefix(rows@, i + 1);
        }
        total = total + rows[i].1.total;
        completed = completed + rows[i].1.completed;
        i += 1;
    }
    assert(rows@.take(i as int) =~= rows@);
    ModuleStats { total, completed }
}

proof fn lemma_rows_sums_prefix(rows: Seq<(String, ModuleStats)>, n: int)
    requires
        0 <= n <= rows.len(),
    ensures
        rows_total(rows.take(n)) <= rows_total(rows),
        rows_completed(rows.take(n)) <= rows_completed(rows),
    decreases rows.len(),
{
    if n < rows.len() {
        assert(rows.drop_last().take(n) =~= rows.take(n));
        lemma_rows_sums_prefix(rows.drop_last(), n);
    } else {
        assert(rows.take(n) =~= rows);
    }
}

/// The sum of `module_total` (and of `module_completed`) over `names`.
pub open spec fn names_total(names: Seq<Seq<char>>, s: Seq<(Seq<char>, bool)>) -> nat
    decreases names.len(),
{
    if names.len() == 0 {
        0
    } else {
        names_total(names.drop_last(), s) + module_total(s, names.last())
    }
}

pub open spec fn names_completed(names: Seq<Seq<char>>, s: Seq<(Seq<char>, bool)>) -> nat
    decreases names.len(),
{
    if names.len() == 0 {
        0
    } else {
        names_completed(names.drop_last(), s) + module_completed(s, names.last())
    }
}

/// How many of `names` equal `x`.
pub open spec fn occurrences(names: Seq<Seq<char>>, x: Seq<char>) -> nat
    decreases names.len(),
{
    if names.len() == 0 {
        0
    } else {
        occurrences(names.drop_last(), x) + if names.last() == x { 1nat } else { 0nat }
    }
}

/// How many exercises pass.
pub open spec fn passing(s: Seq<(Seq<char>, bool)>) -> nat
    decreases s.len(),
{
    if s.len() == 0 {
        0
    } else {
        passing(s.drop_last()) + if s.last().1 { 1nat } else { 0nat }
    }
}

/// Each count counts every exercise once and on its own: the exercises of
/// module `name` are exactly those labelled `name`, its completed ones
/// exactly those of them that pass, and the passing exercises exactly those
/// that pass, whatever the other exercises are.
pub proof fn law_module_counts(s: Seq<(Seq<char>, bool)>, name: Seq<char>)
    ensures
        module_total(s, name) == s.filter(|e: (Seq<char>, bool)| e.0 == name).len(),
        module_completed(s, name) == s.filter(|e: (Seq<char>, bool)| e.0 == name && e.1).len(),
        passing(s) == s.filter(|e: (Seq<char>, bool)| e.1).len(),
    decreases s.len(),
{
    if s.len() > 0 {
        let p = s.drop_last();
        law_module_counts(p, name);
        p.lemma_filter_push(s.last(), |e: (Seq<char>, bool)| e.0 == name);
        p.lemma_filter_push(s.last(), |e: (Seq<char>, bool)| e.0 == name && e.1);
        p.lemma_filter_push(s.last(), |e: (Seq<char>, bool)| e.1);
        assert(p.push(s.last()) =~= s);
    } else {
        reveal(Seq::filter);
        assert(s.filter(|e: (Seq<char>, bool)| e.0 == name) =~= Seq::<(Seq<char>, bool)>::empty());
        assert(s.filter(|e: (Seq<char>, bool)| e.0 == name && e.1) =~= Seq::<(Seq<char>, bool)>::empty());
        assert(s.filter(|e: (Seq<char>, bool)| e.1) =~= Seq::<(Seq<char>, bool)>::empty());
    }
}

proof fn lemma_names_sum_step(names: Seq<Seq<char>>, s: Seq<(Seq<char>, bool)>)
    requires
        s.len() > 0,
    ensures
        names_total(names, s) == names_total(names, s.drop_last()) + occurrences(names, s.last().0),
        names_completed(names, s) == names_completed(names, s.drop_last()) + if s.last().1 {
            occurrences(names, s.last().0)
        } else {
            0
        },
    decreases names.len(),
{
    if names.len() > 0 {
        lemma_names_sum_step(names.drop_last(), s);
    }
}

proof fn lemma_names_sum_empty(names: Seq<Seq<char>>, s: Seq<(Seq<char>, bool)>)
    requires
        s.len() == 0,
    ensures
        names_total(names, s) == 0,
        names_completed(names, s) == 0,
    decreases names.len(),
{
    if names.len() > 0 {
        lemma_names_sum_empty(names.drop_last(), s);
    }
}

proof fn lemma_occurs_once(names: Seq<Seq<char>>, x: Seq<char>)
    requires
        forall|i: int, j: int| 0 <= i < j < names.len() ==> names[i] != names[j],
        names.contains(x),
    ensures
        occurrences(names, x) == 1,
    decreases names.len(),
{
    if names.last() == x {
        lemma_occurs_not(names.drop_last(), x);
    } else {
        let i = choose|i: int| 0 <= i < names.len() && names[i] == x;
        assert(names.drop_last()[i] == x);
        lemma_occurs_once(names.drop_last(), x);
    }
}

proof fn lemma_occurs_not(names: Seq<Seq<char>>, x: Seq<char>)
    requires
        !names.contains(x),
    ensures
        occurrences(names, x) == 0,
    decreases names.len(),
{
    if names.len() > 0 {
        assert(names[names.len() - 1] == names.last());
        if names.drop_last().contains(x) {
            let i = choose|i: int| 0 <= i < names.drop_last().len() && names.drop_last()[i] == x;
            assert(names[i] == x);
        }
        lemma_occurs_not(names.drop_last(), x);
    }
}

proof fn lemma_names_cover(names: Seq<Seq<char>>, s: Seq<(Seq<char>, bool)>)
    requires
        forall|i: int, j: int| 0 <= i < j < names.len() ==> names[i] != names[j],
        forall|k: int| 0 <= k < s.len() ==> names.contains(#[trigger] s[k].0),
    ensures
        names_total(names, s) == s.len(),
        names_completed(names, s) == passing(s),
    decreases s.len(),
{
    if s.len() == 0 {
        lemma_names_sum_empty(names, s);
    } else {
        assert forall|k: int| 0 <= k < s.drop_last().len() implies names.contains(
            #[trigger] s.drop_last()[k].0,
        ) by {
            assert(s.drop_last()[k] == s[k]);
        }
        lemma_names_cover(names, s.drop_last());
        lemma_names_sum_step(names, s);
        assert(s[s.len() - 1] == s.last());
        lemma_occurs_once(names, s.last().0);
    }
}

proof fn lemma_rows_as_names(rows: Seq<(String, ModuleStats)>, s: Seq<(Seq<char>, bool)>)
    requires
        forall|i: int|
            0 <= i < rows.len() ==> (#[trigger] rows[i]).1.total == module_total(s, rows[i].0@)
                && rows[i].1.completed == module_completed(s, rows[i].0@),
    ensures
        rows_total(rows) == names_total(rows.map_values(|r: (String, ModuleStats)| r.0@), s),
        rows_completed(rows) == names_completed(rows.map_values(|r: (String, ModuleStats)| r.0@), s),
    decreases rows.len(),
{
    if rows.len() > 0 {
        let names = rows.map_values(|r: (String, ModuleStats)| r.0@);
        assert(names.drop_last() =~= rows.drop_last().map_values(|r: (String, ModuleStats)| r.0@));
        assert(rows[rows.len() - 1] == rows.last());
        lemma_rows_as_names(rows.drop_last(), s);
    }
}

/// The module rows account for every exercise exactly once: their totals
/// add up to the number of exercises and their completed counts to the
/// number of passing exercises.
pub proof fn lemma_module_totals(entries: Seq<(String, bool)>, rows: Seq<(String, ModuleStats)>)
    requires
        forall|i: int, j: int| 0 <= i < j < rows.len() ==> text_lt(#[trigger] rows[i].0@, #[trigger] rows[j].0@),
        forall|i: int|
            0 <= i < rows.len() ==> {
                &&& (#[trigger] rows[i]).1.total == module_total(entry_views(entries), rows[i].0@)
                &&& rows[i].1.completed == module_completed(entry_views(entries), rows[i].0@)
            },
        forall|k: int| 0 <= k < entries.len() ==> listed(rows, (#[trigger] entries[k]).0@),
    ensures
        rows_total(rows) == entries.len(),
        rows_completed(rows) == passing(entry_views(entries)),
{
    let s = entry_views(entries);
    let names = rows.map_values(|r: (String, ModuleStats)| r.0@);
    assert forall|i: int, j: int| 0 <= i < j < names.len() implies names[i] != names[j] by {
        assert(text_lt(rows[i].0@, rows[j].0@));
        lemma_text_lt_irreflexive(rows[i].0@);
    }
    assert forall|k: int| 0 <= k < s.len() implies names.contains(#[trigger] s[k].0) by {
        assert(listed(rows, entries[k].0@));
        let i = choose|i: int| 0 <= i < rows.len() && #[trigger] rows[i].0@ == entries[k].0@;
        assert(names[i] == s[k].0);
    }
    lemma_rows_as_names(rows, s);
    lemma_names_cover(names, s);
}

proof fn lemma_passing_bounded(s: Seq<(Seq<char>, bool)>)
    ensures
        passing(s) <= s.len(),
    decreases s.len(),
{
    if s.len() > 0 {
        lemma_passing_bounded(s.drop_last());
    }
}

/// The per-module rows (see [`module_stats`]) together with the overall
/// counts: every exercise, and every passing exercise.
pub fn progress_report(entries: &Vec<(String, bool)>) -> (r: (Vec<(String, ModuleStats)>, ModuleStats))
    ensures
        forall|i: int, j: int|
            0 <= i < j < r.0@.len() ==> text_lt(#[trigger] r.0@[i].0@, #[trigger] r.0@[j].0@),
        forall|i: int|
            0 <= i < r.0@.len() ==> {
                &&& (#[trigger] r.0@[i]).1.total == module_total(entry_views(entries@), r.0@[i].0@)
                &&& r.0@[i].1.completed == module_completed(entry_views(entries@), r.0@[i].0@)
                &&& r.0@[i].1.total > 0
            },
        forall|k: int| 0 <= k < entries@.len() ==> listed(r.0@, (#[trigger] entries@[k]).0@),
        forall|i: int|
            0 <= i < r.0@.len() ==> {
                &&& (#[trigger] r.0@[i]).1.total == entry_views(entries@).filter(
                    |e: (Seq<char>, bool)| e.0 == r.0@[i].0@,
                ).len()
                &&& r.0@[i].1.completed == entry_views(entries@).filter(
                    |e: (Seq<char>, bool)| e.0 == r.0@[i].0@ && e.1,
                ).len()
            },
        r.1.total == entries@.len(),
        r.1.completed == passing(entry_views(entries@)),
        r.1.completed == entry_views(entries@).filter(|e: (Seq<char>, bool)| e.1).len(),
{
    let rows = module_stats(entries);
    proof {
        law_module_counts(entry_views(entries@), Seq::empty());
        lemma_module_totals(entries@, rows@);
        lemma_passing_bounded(entry_views(entries@));
    }
    let n = entries.len();
    assert(rows_total(rows@) == n);
    let overall = overall_stats(&rows);
    (rows, overall)
}

/// `completed / total` as a percentage, rounded to the nearest whole
/// percent (halves up); 0 when `total` is 0. A value too large for `usize`
/// gives `usize::MAX`.
///
/// The fraction is rounded exactly. Evaluated in binary floating point the
/// same fraction can fall just short of a half and round down instead:
/// 23 of 40 is 57.5%, given here as 58, where `f64` arithmetic
/// (`23.0 / 40.0 * 100.0`, which is 57.49999999999999) rounds to 57.
pub fn percent(completed: usize, total: usize) -> (p: usize)
    ensures
        p == if rounded_ratio(completed as nat, total as nat, 100) <= usize::MAX {
            rounded_ratio(completed as nat, total as nat, 100)
        } else {
            usize::MAX as nat
        },
{
    let r = rounded_share(completed, total, 100);
    if r <= usize::MAX as u128 {
        r as usize
    } else {
        usize::MAX
    }
}

} // verus!
