use std::path::PathBuf;

use helixir::commands::next::first_incomplete;
use helixir::commands::progress::{module_stats, progress_report, ModuleStats};
use helixir::commands::reset::exercises_root;
use helixir::paths::exercises_dir_for;
use helixir::commands::verify::{select_exercise_files, summarize_verdicts, VerifySummary};

fn strings(v: &[&str]) -> Vec<String> {
    v.iter().map(|s| s.to_string()).collect()
}

fn selected(paths: &[String]) -> Vec<String> {
    select_exercise_files(&paths.to_vec()).into_iter().map(|i| paths[i].clone()).collect()
}

#[test]
fn selects_hxt_files_in_path_order() {
    let paths = strings(&[
        "ex/02-selection/01-x.hxt",
        "ex/01-movement/README.md",
        "ex/01-movement/02-b.hxt",
        "ex/01-movement-extra/01.hxt",
        "ex/01-movement/01-a.hxt",
        "ex/.hxt",
        "ex/notes.hxt.bak",
        "ex/01-movement",
        "ex",
    ]);
    assert_eq!(
        selected(&paths),
        strings(&[
            "ex/01-movement/01-a.hxt",
            "ex/01-movement/02-b.hxt",
            "ex/01-movement-extra/01.hxt",
            "ex/02-selection/01-x.hxt",
        ])
    );
}

#[test]
fn walk_root_with_trailing_slash_is_listed() {
    let paths = strings(&["x.hxt/", "x.hxt/a.hxt", "x.hxt/b.txt"]);
    assert_eq!(selected(&paths), strings(&["x.hxt/", "x.hxt/a.hxt"]));
    assert_eq!(selected(&strings(&["d/x.hxt/."])), strings(&["d/x.hxt/."]));
    assert!(selected(&strings(&["d/x.hxt/.."])).is_empty());
    assert!(selected(&strings(&["/", ".", ""])).is_empty());
}

#[test]
fn same_path_keeps_the_order_found() {
    let paths = strings(&["b/x.hxt", "a//x.hxt", "a/x.hxt", "a/./x.hxt"]);
    assert_eq!(select_exercise_files(&paths), vec![1, 2, 3, 0]);
}

#[test]
fn selection_agrees_with_std_paths() {
    let paths = strings(&[
        "b/a.hxt", "a b/c.hxt", "a/b.hxt", "a-b/c.hxt", "a.b/c.hxt", "a/.hxt", "a/x.HXT", "a/y.hxt",
        "z.hxt", "a/b/c/d.hxt", "ab/x.hxt", "x.hxt/", "x.hxt//", "./q.hxt", "../r.hxt", "-s/t.hxt",
        "/abs/u.hxt", "a/../v.hxt", "a//b.hxt", ".hxt/", "..", "w.hxt/.", "a/b.hxt",
    ]);
    let mut expected: Vec<(PathBuf, usize)> = paths
        .iter()
        .enumerate()
        .map(|(i, p)| (PathBuf::from(p), i))
        .filter(|(p, _)| p.extension().is_some_and(|e| e == "hxt"))
        .collect();
    expected.sort_by(|a, b| a.0.cmp(&b.0));
    let expected: Vec<usize> = expected.into_iter().map(|(_, i)| i).collect();
    assert_eq!(select_exercise_files(&paths), expected);
}

#[test]
fn no_exercise_files() {
    assert!(select_exercise_files(&strings(&["a.txt", "b"])).is_empty());
    assert!(select_exercise_files(&Vec::new()).is_empty());
}

#[test]
fn next_is_first_incomplete() {
    assert_eq!(first_incomplete(&vec![true, false, true, false]), Some(1));
    assert_eq!(first_incomplete(&vec![false]), Some(0));
    assert_eq!(first_incomplete(&vec![true, true]), None);
    assert_eq!(first_incomplete(&Vec::new()), None);
}

#[test]
fn verdicts_are_tallied() {
    assert_eq!(summarize_verdicts(&vec![true, false, true]), VerifySummary { passed: 2, failed: 1 });
    assert_eq!(summarize_verdicts(&Vec::new()), VerifySummary { passed: 0, failed: 0 });
    assert_eq!(summarize_verdicts(&vec![true, true]).failed, 0);
}

#[test]
fn exercises_root_is_last_exercises_component() {
    assert_eq!(
        exercises_root("/home/u/exercises/01-movement/01.hxt").as_deref(),
        Some("/home/u/exercises")
    );
    assert_eq!(
        exercises_root("a/exercises/b/exercises/c.hxt").as_deref(),
        Some("a/exercises/b/exercises")
    );
    assert_eq!(exercises_root("exercises").as_deref(), Some("exercises"));
    assert_eq!(exercises_root("/x/exercises/").as_deref(), Some("/x/exercises"));
    assert_eq!(exercises_root("my-exercises/x.hxt"), None);
    assert_eq!(exercises_root("exercisesx/y"), None);
    assert_eq!(exercises_root(""), None);
}

#[test]
fn modules_are_grouped_and_sorted() {
    let entries = vec![
        ("02-selection".to_string(), false),
        ("01-movement".to_string(), true),
        ("01-movement".to_string(), false),
        ("01-movement".to_string(), true),
        ("10-unimpaired".to_string(), true),
    ];
    let rows = module_stats(&entries);
    assert_eq!(
        rows,
        vec![
            ("01-movement".to_string(), ModuleStats { total: 3, completed: 2 }),
            ("02-selection".to_string(), ModuleStats { total: 1, completed: 0 }),
            ("10-unimpaired".to_string(), ModuleStats { total: 1, completed: 1 }),
        ]
    );
    let (rows2, overall) = progress_report(&entries);
    assert_eq!(rows2, rows);
    assert_eq!(overall, ModuleStats { total: 5, completed: 3 });
}

#[test]
fn empty_report() {
    let (rows, overall) = progress_report(&Vec::new());
    assert!(rows.is_empty());
    assert_eq!(overall, ModuleStats { total: 0, completed: 0 });
}

#[test]
fn exercises_dir_follows_path_rules() {
    for cwd in ["/home/u/exercises", "/home/u/exercises/", "/home/u/exercises/.", "/home/u/proj", "/home/u/proj/", "", "exercises", "my-exercises", "/", "a/exercises/.."] {
        let p = PathBuf::from(cwd);
        let want = if p.ends_with("exercises") { p.clone() } else { p.join("exercises") };
        assert_eq!(PathBuf::from(exercises_dir_for(cwd)), want, "cwd {:?}", cwd);
        assert_eq!(exercises_dir_for(cwd), want.to_str().unwrap(), "cwd {:?}", cwd);
    }
}
