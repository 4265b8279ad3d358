use std::path::PathBuf;

use chrono::{DateTime, TimeZone, Utc};
use helixir::progress::{ExerciseProgress, Progress, ProgressData, Timestamp, CURRENT_VERSION};

fn stamp(t: DateTime<Utc>) -> Timestamp {
    Timestamp { secs: t.timestamp(), nanos: t.timestamp_subsec_nanos() }
}

fn empty_store() -> Progress {
    Progress::from_parts(PathBuf::from("/tmp/helixir-test/.progress.json"), ProgressData::default())
}

#[test]
fn record_pass_inserts_and_increments() {
    let mut progress = empty_store();
    let t1 = stamp(Utc.with_ymd_and_hms(2026, 4, 13, 10, 0, 0).unwrap());
    let t2 = stamp(Utc.with_ymd_and_hms(2026, 4, 14, 11, 0, 0).unwrap());

    progress.record_pass("movement/m1", t1);
    let entry = progress.get("movement/m1").unwrap();
    assert_eq!(entry.completion_count, 1);
    assert_eq!(entry.first_completed_at, t1);
    assert_eq!(entry.last_completed_at, t1);

    progress.record_pass("movement/m1", t2);
    let entry = progress.get("movement/m1").unwrap();
    assert_eq!(entry.completion_count, 2);
    assert_eq!(entry.first_completed_at, t1, "first must not change");
    assert_eq!(entry.last_completed_at, t2);
}

#[test]
fn empty_store_has_no_records() {
    let progress = empty_store();
    assert!(progress.get("anything").is_none());
    assert_eq!(progress.data().version(), CURRENT_VERSION);
    assert!(progress.data().entries().is_empty());
}

#[test]
fn record_pass_leaves_other_exercises_alone() {
    let mut progress = empty_store();
    let t = Timestamp { secs: 1_776_074_400, nanos: 0 };
    let later = Timestamp { secs: 1_776_078_000, nanos: 5 };
    progress.record_pass("movement/m1", t);
    progress.record_pass("selection/s1", t);
    progress.record_pass("selection/s1", later);
    let m1 = progress.get("movement/m1").unwrap();
    assert_eq!(m1.completion_count, 1);
    assert_eq!(m1.last_completed_at, t);
    let s1 = progress.get("selection/s1").unwrap();
    assert_eq!(s1.completion_count, 2);
    assert_eq!(s1.first_completed_at, t);
    assert_eq!(s1.last_completed_at, later);
    assert!(progress.get("selection/s2").is_none());
    assert_eq!(progress.data().entries().len(), 2);
}

#[test]
fn completion_count_saturates() {
    let t = Timestamp { secs: 0, nanos: 0 };
    let mut data = ProgressData::with_version(CURRENT_VERSION);
    data.set(
        "m",
        ExerciseProgress { first_completed_at: t, last_completed_at: t, completion_count: u32::MAX },
    );
    let mut progress = Progress::from_parts(PathBuf::from("/tmp/p.json"), data);
    progress.record_pass("m", Timestamp { secs: 9, nanos: 0 });
    let e = progress.get("m").unwrap();
    assert_eq!(e.completion_count, u32::MAX);
    assert_eq!(e.first_completed_at, t);
    assert_eq!(e.last_completed_at, Timestamp { secs: 9, nanos: 0 });
}

#[test]
fn set_replaces_a_record() {
    let t = Timestamp { secs: 1, nanos: 2 };
    let mut data = ProgressData::with_version(7);
    data.set("a", ExerciseProgress { first_completed_at: t, last_completed_at: t, completion_count: 3 });
    data.set("a", ExerciseProgress { first_completed_at: t, last_completed_at: t, completion_count: 4 });
    assert_eq!(data.entries().len(), 1);
    assert_eq!(data.get("a").unwrap().completion_count, 4);
    assert_eq!(data.version(), 7);
}
