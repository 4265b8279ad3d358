use helixir::commands::progress::percent;
use helixir::display::progress_bar;

fn bar(full: usize, empty: usize) -> String {
    format!("{}{}", "█".repeat(full), "░".repeat(empty))
}

#[test]
fn bar_rounds_to_nearest_cell() {
    assert_eq!(progress_bar(2, 5, 15), bar(6, 9));
    assert_eq!(progress_bar(5, 10, 15), bar(8, 7));
    assert_eq!(progress_bar(1, 3, 20), bar(7, 13));
    assert_eq!(progress_bar(11, 49, 20), bar(4, 16));
}

#[test]
fn bar_edges() {
    assert_eq!(progress_bar(0, 0, 15), bar(0, 15));
    assert_eq!(progress_bar(0, 7, 15), bar(0, 15));
    assert_eq!(progress_bar(5, 5, 15), bar(15, 0));
    assert_eq!(progress_bar(3, 4, 0), String::new());
}

#[test]
fn bar_overfull_grows_past_width() {
    assert_eq!(progress_bar(12, 10, 15), bar(18, 0));
}

#[test]
fn bar_matches_float_rounding() {
    for total in 0..30usize {
        for completed in 0..=total {
            let filled = if total > 0 {
                (completed as f64 / total as f64 * 15 as f64).round() as usize
            } else {
                0
            };
            assert_eq!(progress_bar(completed, total, 15), bar(filled, 15 - filled));
        }
    }
}

#[test]
fn percent_values() {
    assert_eq!(percent(11, 49), 22);
    assert_eq!(percent(2, 5), 40);
    assert_eq!(percent(5, 5), 100);
    assert_eq!(percent(1, 8), 13);
    assert_eq!(percent(0, 4), 0);
    assert_eq!(percent(0, 0), 0);
    assert_eq!(percent(23, 40), 58);
}

#[test]
fn percent_saturates() {
    assert_eq!(percent(usize::MAX, 1), usize::MAX);
    assert_eq!(percent(usize::MAX, usize::MAX), 100);
}
