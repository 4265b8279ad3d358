use helixir::text::{chars_of, lines_of, trim_chars};
use helixir::tui::ui::{
    exercise_detail_lines, exercise_list_lines, footer_line, header_line, CommandView, DetailView,
    DiffLine, ExerciseStatus, ListEntry, StyledLine, Tone,
};

fn flat(line: &StyledLine) -> Vec<(String, Tone)> {
    line.spans.iter().map(|s| (s.text.clone(), s.tone)).collect()
}

fn one(text: &str, tone: Tone) -> Vec<(String, Tone)> {
    vec![(text.to_string(), tone)]
}

fn texts(lines: &[StyledLine]) -> Vec<String> {
    lines.iter().map(|l| l.spans.iter().map(|s| s.text.as_str()).collect::<String>()).collect()
}

#[test]
fn header_shows_positions() {
    let l = header_line(3, 12, 1, 5);
    assert_eq!(
        flat(&l),
        vec![
            (" 🏋️ Helix Trainer".to_string(), Tone::CyanBold),
            ("  ".to_string(), Tone::Default),
            ("📦 Module 3/12  ".to_string(), Tone::DarkGray),
            ("📝 Exercise 1/5  ".to_string(), Tone::DarkGray),
            ("[?]=help".to_string(), Tone::DarkGray),
        ]
    );
}

#[test]
fn footer_shows_bar_and_percentage() {
    let l = footer_line(11, 49);
    let f = flat(&l);
    assert_eq!(f[0], (" 🏆 ".to_string(), Tone::Default));
    assert_eq!(f[1], (format!("{}{}", "█".repeat(4), "░".repeat(16)), Tone::Green));
    assert_eq!(f[2], (" 11/49 (22%)".to_string(), Tone::White));
    assert_eq!(f[3].1, Tone::DarkGray);
    assert!(f[3].0.ends_with("👀 Watching..."));
    let empty = footer_line(0, 0);
    assert_eq!(flat(&empty)[1].0, "░".repeat(20));
    assert_eq!(flat(&empty)[2].0, " 0/0 (0%)");
}

fn entry(category: &str, id: &str, title: &str, status: ExerciseStatus) -> ListEntry {
    ListEntry { category: category.into(), id: id.into(), title: title.into(), status }
}

#[test]
fn list_groups_by_category_and_marks_selection() {
    let es = vec![
        entry("Movement", "01-movement/01-basic-motion", "Basic Motion", ExerciseStatus::Passed),
        entry("Movement", "01-movement/02-word-motion", "Word Motion", ExerciseStatus::Failed),
        entry("Selection", "02-selection/01-line", "Line Select", ExerciseStatus::NotStarted),
        entry("Selection", "plain", "No Dash", ExerciseStatus::Passed),
    ];
    let ls = exercise_list_lines(&es, 1);
    let got: Vec<Vec<(String, Tone)>> = ls.iter().map(flat).collect();
    assert_eq!(
        got,
        vec![
            one("🗂 Movement", Tone::YellowBold),
            one(" ✅ 01.Basic Motion", Tone::Green),
            one(" 👉 02.Word Motion", Tone::WhiteBold),
            one("🗂 Selection", Tone::YellowBold),
            one(" ⬜ 01.Line Select", Tone::DarkGray),
            one(" ✅ plain.No Dash", Tone::Green),
        ]
    );
}

#[test]
fn list_without_category_has_no_heading() {
    let es = vec![entry("", "a/1-x", "X", ExerciseStatus::Failed)];
    let ls = exercise_list_lines(&es, 5);
    assert_eq!(texts(&ls), vec![" ⬜ 1.X".to_string()]);
    assert_eq!(ls[0].spans[0].tone, Tone::White);
}

fn detail() -> DetailView {
    DetailView {
        difficulty: 2,
        title: "Regex Select".into(),
        commands: vec![
            CommandView { key: "s".into(), description: "Select regex matches".into() },
            CommandView { key: "longerkey9".into(), description: "Other".into() },
        ],
        notes: "First note\r\nSecond note\n".into(),
        instructions: "\n  Change every color.\n  Then save.  \n\n".into(),
        flash: None,
        status: ExerciseStatus::Failed,
        diff: (1..=7)
            .map(|i| DiffLine { line_num: i, got: format!("g{}", i), expected: format!("e{}", i) })
            .collect(),
        hint_level: 1,
        hints: vec!["Press %".into(), "Press s".into(), "Press c".into()],
    }
}

const RULE: &str = " ─────────────────────────────────────────";

#[test]
fn detail_lists_every_section() {
    let ls = exercise_detail_lines(&detail());
    let got: Vec<Vec<(String, Tone)>> = ls.iter().map(flat).collect();
    let mut want: Vec<Vec<(String, Tone)>> = vec![
        one(" ⭐⭐ Regex Select", Tone::CyanBold),
        vec![],
        one(" ⌨️  COMMANDS", Tone::YellowBold),
        vec![("   s       ".into(), Tone::GreenBold), ("Select regex matches".into(), Tone::White)],
        vec![("   longerkey9".into(), Tone::GreenBold), ("Other".into(), Tone::White)],
        vec![],
        one("   First note", Tone::DarkGray),
        one("   Second note", Tone::DarkGray),
        vec![],
        one(" 📋 INSTRUCTIONS", Tone::YellowBold),
        one("   Change every color.", Tone::White),
        one("     Then save.", Tone::White),
        vec![],
        one(RULE, Tone::DarkGray),
        one(" ❌ 7 differences found", Tone::RedBold),
    ];
    for i in 1..=5 {
        want.push(one(&format!("   line {}: got \"g{}\"", i, i), Tone::Red));
        want.push(one(&format!("          expected \"e{}\"", i), Tone::Green));
    }
    want.push(one("   ... and 2 more", Tone::DarkGray));
    want.push(vec![]);
    want.push(one(" 💡 HINTS", Tone::YellowBold));
    want.push(one("   1. Press %", Tone::Yellow));
    want.push(one("   (2 more — press h)", Tone::DarkGray));
    want.push(vec![]);
    want.push(one(RULE, Tone::DarkGray));
    assert_eq!(got[..got.len() - 1].to_vec(), want);
    let bar = &got[got.len() - 1];
    assert_eq!(bar.len(), 12);
    assert_eq!(bar[1], ("[h]".to_string(), Tone::Cyan));
    assert_eq!(bar[11], (" quit".to_string(), Tone::DarkGray));
}

#[test]
fn detail_status_variants() {
    let mut d = detail();
    d.commands.clear();
    d.notes.clear();
    d.hint_level = 0;
    d.diff.truncate(1);
    let t = texts(&exercise_detail_lines(&d));
    assert_eq!(t[0], " ⭐⭐ Regex Select");
    assert_eq!(t[2], " 📋 INSTRUCTIONS");
    assert!(t.contains(&" ❌ 1 difference found".to_string()));
    assert!(!t.iter().any(|l| l.contains("more")));
    assert!(!t.contains(&" 💡 HINTS".to_string()));

    d.status = ExerciseStatus::Passed;
    d.difficulty = 3;
    let t = texts(&exercise_detail_lines(&d));
    assert_eq!(t[0], " ⭐⭐⭐ Regex Select");
    assert!(t.contains(&" ✅ PASSED!".to_string()));

    d.status = ExerciseStatus::NotStarted;
    d.difficulty = 1;
    let t = texts(&exercise_detail_lines(&d));
    assert_eq!(t[0], " ⭐ Regex Select");
    assert!(t.contains(&" ⬜ Not started — edit the .hxt file to begin".to_string()));

    d.flash = Some("🎉 PASSED! Auto-advancing...".into());
    d.hint_level = 9;
    let t = texts(&exercise_detail_lines(&d));
    assert!(t.contains(&" 🎉 PASSED! Auto-advancing...".to_string()));
    assert!(!t.iter().any(|l| l.contains("Not started")));
    assert!(t.contains(&"   3. Press c".to_string()));
    assert!(!t.iter().any(|l| l.contains("press h")));
}

#[test]
fn lines_and_trim_follow_str() {
    for s in ["", "a", "a\n", "\n", "a\r\nb", "a\n\nb\n", "x\r", "\r\n\r\n", " a \n b "] {
        let want: Vec<String> = s.lines().map(|l| l.to_string()).collect();
        let got: Vec<String> = lines_of(&chars_of(s)).iter().map(|l| l.iter().collect()).collect();
        assert_eq!(got, want, "lines of {:?}", s);
        let trimmed: String = trim_chars(&chars_of(s)).iter().collect();
        assert_eq!(trimmed, s.trim(), "trim of {:?}", s);
    }
    let odd = "\u{3000}\u{85}x\u{2009} \u{a0}";
    let trimmed: String = trim_chars(&chars_of(odd)).iter().collect();
    assert_eq!(trimmed, odd.trim());
}

#[test]
fn help_popup_text() {
    let ls = helixir::tui::ui::help_lines();
    let got: Vec<Vec<(String, Tone)>> = ls.iter().map(flat).collect();
    assert_eq!(got.len(), 14);
    assert_eq!(got[0], one(" 🏋️ Helix Trainer — Help", Tone::CyanBold));
    assert!(got[1].is_empty());
    assert_eq!(got[2], vec![("  j/↓    ".to_string(), Tone::Green), ("Next exercise".to_string(), Tone::Default)]);
    assert_eq!(got[8], vec![("  q      ".to_string(), Tone::Green), ("Quit".to_string(), Tone::Default)]);
    assert_eq!(got[13], one("  Press ? or Esc to close", Tone::DarkGray));
}
