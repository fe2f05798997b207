use ye_olde_todos::stats::{calculate_stats, format_stats, format_value, TodoStats};
use ye_olde_todos::todo::Todo;

fn todo_with_age_days(days: i64) -> Todo {
    Todo {
        path: "a.rs".to_string(),
        abs_path: "a.rs".to_string(),
        line_number: 1,
        text: "// TODO".to_string(),
        author: "A".to_string(),
        timestamp: 0,
        age: days * 86400,
    }
}

fn mean_of(stats: &TodoStats) -> f64 {
    if stats.record_count == 0 {
        0.0
    } else {
        stats.age_day_sum as f64 / stats.record_count as f64
    }
}

#[test]
fn stats_of_empty_set() {
    let s = calculate_stats(&vec![]);
    assert_eq!(mean_of(&s), 0.0);
    assert_eq!(s.median_age_days, 0);
    assert_eq!(s.record_count, 0);
}

#[test]
fn stats_of_single_record() {
    let s = calculate_stats(&vec![todo_with_age_days(5)]);
    assert_eq!(mean_of(&s), 5.0);
    assert_eq!(s.median_age_days, 5);
}

#[test]
fn stats_of_two_records() {
    let s = calculate_stats(&vec![todo_with_age_days(1), todo_with_age_days(3)]);
    assert_eq!(mean_of(&s), 2.0);
    assert_eq!(s.median_age_days, 2);
}

#[test]
fn stats_of_three_records() {
    let s = calculate_stats(&vec![
        todo_with_age_days(1),
        todo_with_age_days(2),
        todo_with_age_days(4),
    ]);
    assert!((mean_of(&s) - 2.3333333).abs() < 1e-6);
    assert_eq!(s.median_age_days, 2);
}

#[test]
fn stats_sort_unordered_ages_for_median() {
    let s = calculate_stats(&vec![
        todo_with_age_days(9),
        todo_with_age_days(1),
        todo_with_age_days(4),
        todo_with_age_days(2),
    ]);
    // sorted day ages: 1 2 4 9; median (2 + 4) / 2
    assert_eq!(s.median_age_days, 3);
    assert_eq!(s.age_day_sum, 16);
}

#[test]
fn ages_truncate_toward_zero_days() {
    // one second short of two days is one whole day
    let s = calculate_stats(&vec![Todo {
        age: 2 * 86400 - 1,
        ..todo_with_age_days(0)
    }]);
    assert_eq!(s.median_age_days, 1);
    assert_eq!(s.age_day_sum, 1);
}

#[test]
fn format_value_is_green_and_bold() {
    assert_eq!(format_value("hi"), "\x1b[1m\x1b[32mhi\x1b[39m\x1b[0m");
}

#[test]
fn format_stats_line_layout() {
    let stats = TodoStats { age_day_sum: 7, record_count: 3, median_age_days: 2 };
    let line = format_stats(&stats, 3, 5);
    let v = |s: &str| format!("\x1b[1m\x1b[32m{}\x1b[39m\x1b[0m", s);
    let expected = format!(
        "Todos: {}  ||  Mean: {}  ||  Median: {}\n",
        v("3/5"),
        v("2.3 days"),
        v("2 days"),
    );
    assert_eq!(line, expected);
}

#[test]
fn format_stats_rounds_half_away_from_zero() {
    // mean 2.25 renders as 2.3
    let stats = TodoStats { age_day_sum: 9, record_count: 4, median_age_days: 2 };
    let line = format_stats(&stats, 4, 4);
    assert!(line.contains("2.3 days"));
}

#[test]
fn format_stats_of_empty_set() {
    let stats = TodoStats { age_day_sum: 0, record_count: 0, median_age_days: 0 };
    let line = format_stats(&stats, 0, 0);
    assert!(line.contains("0/0"));
    assert!(line.contains("0.0 days"));
    assert!(line.contains("0 days"));
}
