use ye_olde_todos::git::{attribute_with_now, TodoError};
use ye_olde_todos::pipeline::{apply_limit, compute_layout, populate_metadata, sort_todos};
use ye_olde_todos::scan::scan_file;
use ye_olde_todos::stats::calculate_stats;
use ye_olde_todos::todo::{Todo, TodoLocation};

fn todo(author: &str, ts: i64) -> Todo {
    Todo {
        path: "a.rs".to_string(),
        abs_path: "a.rs".to_string(),
        line_number: 1,
        text: "// TODO".to_string(),
        author: author.to_string(),
        timestamp: ts,
        age: 0,
    }
}

#[test]
fn sort_is_ascending_and_stable() {
    let mut v = vec![
        todo("c", 30),
        todo("a", 10),
        todo("b2", 20),
        todo("b1", 20),
    ];
    sort_todos(&mut v);
    let names: Vec<&str> = v.iter().map(|t| t.author.as_str()).collect();
    assert_eq!(names, vec!["a", "b2", "b1", "c"]);
    for w in v.windows(2) {
        assert!(w[0].timestamp <= w[1].timestamp);
    }
}

#[test]
fn limit_keeps_the_oldest_prefix() {
    let mut v = vec![todo("x", 3), todo("y", 1), todo("z", 2)];
    sort_todos(&mut v);
    let total = v.len();
    let limited = apply_limit(v, Some(2));
    assert_eq!(limited.len(), 2);
    assert!(limited.len() <= 2);
    assert_eq!(limited[0].timestamp, 1);
    assert_eq!(limited[1].timestamp, 2);
    assert_eq!(total, 3);
}

#[test]
fn no_limit_keeps_everything() {
    let v = vec![todo("x", 3), todo("y", 1)];
    let kept = apply_limit(v, None);
    assert_eq!(kept.len(), 2);
}

#[test]
fn limit_larger_than_set_keeps_everything() {
    let v = vec![todo("x", 3)];
    let kept = apply_limit(v, Some(10));
    assert_eq!(kept.len(), 1);
}

#[test]
fn failures_are_dropped_from_the_batch() {
    let results: Vec<Result<Todo, TodoError>> = vec![
        Ok(todo("a", 1)),
        Err(TodoError::MalformedAttributionLine),
        Ok(todo("b", 2)),
        Err(TodoError::EmptyAttributionOutput),
    ];
    let ok = populate_metadata(results);
    assert_eq!(ok.len(), 2);
    assert_eq!(ok[0].author, "a");
    assert_eq!(ok[1].author, "b");
}

#[test]
fn layout_fits_widest_fields() {
    let todos = vec![todo("Short", 1), todo("A Very Long Name", 2)];
    let l = compute_layout(&todos, 80).unwrap();
    assert_eq!(l.max_name_length, "A Very Long Name".len() + 1);
    assert_eq!(l.max_filename_length, 15); // "a.rs:1" floored at 15
    assert_eq!(l.terminal_width, 80);
}

#[test]
fn layout_clamps_narrow_displays() {
    let todos = vec![todo("Somebody Rather Verbose", 1)];
    let l = compute_layout(&todos, 10).unwrap();
    let min = l.max_name_length + l.max_filename_length + 30;
    assert_eq!(l.terminal_width, min);
}

#[test]
fn layout_defaults_for_empty_set() {
    let l = compute_layout(&vec![], 100).unwrap();
    assert_eq!(l.max_name_length, 10);
    assert_eq!(l.max_filename_length, 20);
    assert_eq!(l.terminal_width, 100);
}

#[test]
fn scan_counts_physical_lines_and_trims() {
    let lines: Vec<Option<String>> = vec![
        Some("fn main() {}".to_string()),
        Some("  // TODO: one  ".to_string()),
        None, // an undecodable line still counts toward numbering
        Some("# TODO: two".to_string()),
        Some("// todo lowercase is not a marker".to_string()),
        Some("let s = \"// TODO in a string\";".to_string()),
    ];
    let found = scan_file("x/y.rs", &lines);
    assert_eq!(found.len(), 3);
    assert_eq!(found[0].line_number, 2);
    assert_eq!(found[0].text, "// TODO: one");
    assert_eq!(found[0].path, "x/y.rs");
    assert_eq!(found[1].line_number, 4);
    assert_eq!(found[1].text, "# TODO: two");
    // a substring check matches markers inside string literals, accepted
    assert_eq!(found[2].line_number, 6);
}

#[test]
fn end_to_end_three_markers() {
    let now: i64 = 1750000000;
    let lines: [(&str, &str); 3] = [
        ("f1.rs", "h1 (Ann 2024-01-15 09:30:00 +0000 3) // TODO: a"),
        ("f2.rs", "h2 (Ben Longfellow 2023-06-01 00:00:00 +0000 9) // TODO: b"),
        ("f3.rs", "h3 (Cy 2024-03-01 12:00:00 +0000 1) # TODO: c"),
    ];
    let mut results: Vec<Result<Todo, TodoError>> = Vec::new();
    for (path, stdout) in lines.iter() {
        let l = TodoLocation {
            path: path.to_string(),
            line_number: 1,
            text: "// TODO".to_string(),
        };
        results.push(attribute_with_now(&l, path.to_string(), stdout, now));
    }
    let mut todos = populate_metadata(results);
    assert_eq!(todos.len(), 3);
    sort_todos(&mut todos);
    // oldest first
    assert_eq!(todos[0].author, "Ben Longfellow");
    assert_eq!(todos[0].timestamp, 1685577600);
    assert_eq!(todos[1].author, "Ann");
    assert_eq!(todos[1].timestamp, 1705311000);
    assert_eq!(todos[2].author, "Cy");
    assert_eq!(todos[2].timestamp, 1709294400);

    let stats = calculate_stats(&todos);
    assert_eq!(stats.record_count, 3);
    // day ages: 745, 517, 471 -> sorted 471 517 745
    assert_eq!(stats.age_day_sum, 745 + 517 + 471);
    assert_eq!(stats.median_age_days, 517);
    let mean = stats.age_day_sum as f64 / stats.record_count as f64;
    assert!((mean - (1733.0 / 3.0)).abs() < 1e-9);
}
