//! Per-exercise completion progress.
//!
//! The store is keyed by exercise id (the path under `exercises/` without
//! `.hxt`). It keeps first/last completion timestamps and a count that is
//! incremented on each not-passed → passed transition: the caller records a
//! pass (`record_pass`) when it sees an exercise go from failing to passing,
//! and each such call adds one. Reading and writing the store on disk is
//! done by the application around this library.

use vstd::prelude::*;
use std::path::PathBuf;

verus! {

#[verifier::external_type_specification]
#[verifier::external_body]
pub struct ExPathBuf(PathBuf);

/// An instant in UTC: whole seconds since the Unix epoch and the
/// nanoseconds past that second.
#[derive(Debug, Clone, Copy, PartialEq, Eq, Structural)]
pub struct Timestamp {
    pub secs: i64,
    pub nanos: u32,
}

/// Version number written into a fresh store.
pub const CURRENT_VERSION: u32 = 1;

/// Completion record of one exercise.
#[derive(Debug, Clone, Copy, PartialEq, Eq, Structural)]
pub struct ExerciseProgress {
    pub first_completed_at: Timestamp,
    pub last_completed_at: Timestamp,
    pub completion_count: u32,
}

/// The map from exercise id to its record, as a mathematical map.
pub open spec fn entries_map(s: Seq<(String, ExerciseProgress)>) -> Map<Seq<char>, ExerciseProgress>
    decreases s.len(),
{
    if s.len() == 0 {
        Map::empty()
    } else {
        entries_map(s.drop_last()).insert(s.last().0@, s.last().1)
    }
}

/// No id occurs twice.
pub open spec fn keys_unique(s: Seq<(String, ExerciseProgress)>) -> bool {
    forall|i: int, j: int| 0 <= i < j < s.len() ==> s[i].0@ != s[j].0@
}

/// What recording a pass at `now` makes of the previous record, if any.
pub open spec fn passed_record(prev: Option<ExerciseProgress>, now: Timestamp) -> ExerciseProgress {
    match prev {
        Some(p) => ExerciseProgress {
            first_completed_at: p.first_completed_at,
            last_completed_at: now,
            completion_count: if p.completion_count == u32::MAX {
                u32::MAX
            } else {
                (p.completion_count + 1) as u32
            },
        },
        None => ExerciseProgress { first_completed_at: now, last_completed_at: now, completion_count: 1 },
    }
}

proof fn lemma_map_domain(s: Seq<(String, ExerciseProgress)>, k: Seq<char>)
    ensures
        entries_map(s).contains_key(k) <==> exists|i: int| 0 <= i < s.len() && s[i].0@ == k,
    decreases s.len(),
{
    if s.len() > 0 {
        lemma_map_domain(s.drop_last(), k);
        if entries_map(s.drop_last()).contains_key(k) {
            let i = choose|i: int| 0 <= i < s.drop_last().len() && s.drop_last()[i].0@ == k;
            assert(s[i].0@ == k);
        }
        if exists|i: int| 0 <= i < s.len() && s[i].0@ == k {
            let i = choose|i: int| 0 <= i < s.len() && s[i].0@ == k;
            if i < s.len() - 1 {
                assert(s.drop_last()[i].0@ == k);
            }
        }
    }
}

proof fn lemma_map_value(s: Seq<(String, ExerciseProgress)>, i: int)
    requires
        keys_unique(s),
        0 <= i < s.len(),
    ensures
        entries_map(s).contains_key(s[i].0@),
        entries_map(s)[s[i].0@] == s[i].1,
    decreases s.len(),
{
    if i < s.len() - 1 {
        assert(keys_unique(s.drop_last()));
        lemma_map_value(s.drop_last(), i);
        assert(s.drop_last()[i] == s[i]);
    }
}

proof fn lemma_map_update(s: Seq<(String, ExerciseProgress)>, i: int, v: ExerciseProgress)
    requires
        keys_unique(s),
        0 <= i < s.len(),
    ensures
        entries_map(s.update(i, (s[i].0, v))) == entries_map(s).insert(s[i].0@, v),
    decreases s.len(),
{
    let t = s.update(i, (s[i].0, v));
    if i == s.len() - 1 {
        assert(t.drop_last() == s.drop_last());
        if entries_map(s.drop_last()).contains_key(s[i].0@) {
            lemma_map_domain(s.drop_last(), s[i].0@);
            let j = choose|j: int| 0 <= j < s.drop_last().len() && s.drop_last()[j].0@ == s[i].0@;
            assert(s[j].0@ == s[i].0@);
        }
        assert(entries_map(t) =~= entries_map(s).insert(s[i].0@, v));
    } else {
        assert(keys_unique(s.drop_last()));
        lemma_map_update(s.drop_last(), i, v);
        assert(t.drop_last() == s.drop_last().update(i, (s[i].0, v)));
        assert(s.last().0@ != s[i].0@);
        assert(entries_map(t) =~= entries_map(s).insert(s[i].0@, v));
    }
}

/// What a read gives back after a pass is recorded: the exercise then has
/// a record whose last completion is `now`; a first pass starts its count
/// at 1 with first completion `now`, a later one keeps the first completion
/// and adds one to the count (stopping at `u32::MAX`); every other
/// exercise's record is as it was.
pub proof fn lemma_read_after_pass(
    before: Map<Seq<char>, ExerciseProgress>,
    id: Seq<char>,
    now: Timestamp,
    other: Seq<char>,
)
    ensures
        ({
            let after = before.insert(
                id,
                passed_record(if before.contains_key(id) { Some(before[id]) } else { None }, now),
            );
            &&& after.contains_key(id)
            &&& after[id].last_completed_at == now
            &&& after[id].completion_count >= 1
            &&& !before.contains_key(id) ==> after[id].first_completed_at == now
                && after[id].completion_count == 1
            &&& before.contains_key(id) ==> after[id].first_completed_at
                == before[id].first_completed_at
            &&& before.contains_key(id) && before[id].completion_count < u32::MAX
                ==> after[id].completion_count == before[id].completion_count + 1
            &&& other != id ==> (after.contains_key(other) == before.contains_key(other) && (
            before.contains_key(other) ==> after[other] == before[other]))
        }),
{
}

/// The stored data: a format version and the records, each id once.
#[derive(Debug)]
pub struct ProgressData {
    version: u32,
    exercises: Vec<(String, ExerciseProgress)>,
}

impl ProgressData {
    /// No exercise id occurs twice.
    #[verifier::type_invariant]
    closed spec fn wf(&self) -> bool {
        keys_unique(self.exercises@)
    }

    /// The records, keyed by exercise id.
    pub closed spec fn records(&self) -> Map<Seq<char>, ExerciseProgress> {
        entries_map(self.exercises@)
    }

    pub closed spec fn spec_version(&self) -> u32 {
        self.version
    }

    /// An empty store carrying the given format version.
    pub fn with_version(version: u32) -> (d: Self)
        ensures
            d.spec_version() == version,
            d.records() == Map::<Seq<char>, ExerciseProgress>::empty(),
    {
        ProgressData { version, exercises: Vec::new() }
    }

    /// The format version.
    pub fn version(&self) -> (v: u32)
        ensures
            v == self.spec_version(),
    {
        self.version
    }

    /// The records as (id, record) pairs; each id occurs once and the pairs
    /// make up exactly `records()`.
    pub fn entries(&self) -> (e: &Vec<(String, ExerciseProgress)>)
        ensures
            keys_unique(e@),
            entries_map(e@) == self.records(),
    {
        proof {
            use_type_invariant(self);
        }
        &self.exercises
    }

    /// Index of the record of `id`, if there is one.
    fn position(&self, id: &str) -> (r: Option<usize>)
        ensures
            match r {
                Some(i) => i < self.exercises@.len() && self.exercises@[i as int].0@ == id@,
                None => !self.records().contains_key(id@),
            },
    {
        proof {
            use_type_invariant(self);
        }
        let key: String = id.to_owned();
        let mut i: usize = 0;
        while i < self.exercises.len()
            invariant
                i <= self.exercises@.len(),
                key@ == id@,
                forall|j: int| 0 <= j < i ==> self.exercises@[j].0@ != id@,
            decreases self.exercises@.len() - i,
        {
            if self.exercises[i].0 == key {
                return Some(i);
            }
            i += 1;
        }
        proof {
            lemma_map_domain(self.exercises@, id@);
        }
        None
    }

    /// The record of `id`, if there is one.
    pub fn get(&self, id: &str) -> (r: Option<&ExerciseProgress>)
        ensures
            match r {
                Some(p) => self.records().contains_key(id@) && *p == self.records()[id@],
                None => !self.records().contains_key(id@),
            },
    {
        proof {
            use_type_invariant(self);
        }
        match self.position(id) {
            Some(i) => {
                proof {
                    lemma_map_value(self.exercises@, i as int);
                }
                Some(&self.exercises[i].1)
            },
            None => None,
        }
    }

    /// Stores `record` as the record of `id`, replacing any earlier one.
    pub fn set(&mut self, id: &str, record: ExerciseProgress)
        ensures
            final(self).spec_version() == old(self).spec_version(),
            final(self).records() == old(self).records().insert(id@, record),
    {
        proof {
            use_type_invariant(&*self);
        }
        let found = self.position(id);
        let mut entries: Vec<(String, ExerciseProgress)> = Vec::new();
        std::mem::swap(&mut entries, &mut self.exercises);
        let ghost before = entries@;
        match found {
            Some(i) => {
                let key = entries[i].0.clone();
                proof {
                    lemma_map_update(before, i as int, record);
                }
                entries.set(i, (key, record));
                assert(entries@ == before.update(i as int, (before[i as int].0, record)));
            },
            None => {
                proof {
                    lemma_map_domain(before, id@);
                }
                let key: String = id.to_owned();
                entries.push((key, record));
                proof {
                    assert(entries@.drop_last() == before);
                    assert(entries@.last().0@ == id@);
                }
            },
        }
        self.exercises = entries;
    }
}

impl Default for ProgressData {
    fn default() -> (d: Self)
        ensures
            d.spec_version() == CURRENT_VERSION,
            d.records() == Map::<Seq<char>, ExerciseProgress>::empty(),
    {
        ProgressData::with_version(CURRENT_VERSION)
    }
}

/// The progress store of one exercises directory: where it lives and what
/// it holds.
#[derive(Debug)]
pub struct Progress {
    path: PathBuf,
    data: ProgressData,
}

impl Progress {
    /// The records, keyed by exercise id.
    pub closed spec fn records(&self) -> Map<Seq<char>, ExerciseProgress> {
        self.data.records()
    }

    pub closed spec fn spec_path(&self) -> PathBuf {
        self.path
    }

    pub closed spec fn spec_data(&self) -> ProgressData {
        self.data
    }

    /// A store at `path` holding `data`.
    pub fn from_parts(path: PathBuf, data: ProgressData) -> (p: Self)
        ensures
            p.spec_path() == path,
            p.spec_data() == data,
            p.records() == data.records(),
    {
        Progress { path, data }
    }

    /// Where the store is kept.
    pub fn path(&self) -> (p: &PathBuf)
        ensures
            *p == self.spec_path(),
    {
        &self.path
    }

    /// What the store holds.
    pub fn data(&self) -> (d: &ProgressData)
        ensures
            *d == self.spec_data(),
            d.records() == self.records(),
    {
        &self.data
    }

    /// The record of exercise `id`, if it was ever passed.
    pub fn get(&self, id: &str) -> (r: Option<&ExerciseProgress>)
        ensures
            match r {
                Some(p) => self.records().contains_key(id@) && *p == self.records()[id@],
                None => !self.records().contains_key(id@),
            },
    {
        self.data.get(id)
    }

    /// Records that exercise `id` has just been passed: a first pass inserts
    /// a record with count 1 and both timestamps `now`; a later pass keeps
    /// the first timestamp, sets the last one to `now` and increments the
    /// count, saturating at `u32::MAX`. No other record changes.
    pub fn record_pass(&mut self, id: &str, now: Timestamp)
        ensures
            final(self).spec_path() == old(self).spec_path(),
            final(self).spec_data().spec_version() == old(self).spec_data().spec_version(),
            final(self).records() == old(self).records().insert(
                id@,
                passed_record(
                    if old(self).records().contains_key(id@) {
                        Some(old(self).records()[id@])
                    } else {
                        None
                    },
                    now,
                ),
            ),
    {
        let next = match self.data.get(id) {
            Some(p) => ExerciseProgress {
                first_completed_at: p.first_completed_at,
                last_completed_at: now,
                completion_count: p.completion_count.saturating_add(1),
            },
            None => ExerciseProgress { first_completed_at: now, last_completed_at: now, completion_count: 1 },
        };
        self.data.set(id, next);
    }
}

} // verus!
