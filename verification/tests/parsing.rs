use ye_olde_todos::git::{attribute_with_now, parse_blame_line, TodoError};
use ye_olde_todos::todo::TodoLocation;

fn loc(path: &str, line: usize, text: &str) -> TodoLocation {
    TodoLocation { path: path.to_string(), line_number: line, text: text.to_string() }
}

#[test]
fn parse_synthetic_line_author_and_datetime() {
    let line = "abc123 (Jane Q. Public 2024-01-15 09:30:00 +0000 7) some code";
    let parts = parse_blame_line(line).unwrap();
    assert_eq!(parts.author, "Jane Q. Public");
    assert_eq!(parts.datetime, "2024-01-15 09:30:00 +0000");
}

#[test]
fn parse_round_trip_timestamp_utc() {
    let l = loc("src/lib.rs", 7, "// TODO: x");
    let stdout = "abc123 (Jane Q. Public 2024-01-15 09:30:00 +0000 7) some code\n";
    let now: i64 = 1750000000;
    let todo = attribute_with_now(&l, "/r/src/lib.rs".to_string(), stdout, now).unwrap();
    assert_eq!(todo.author, "Jane Q. Public");
    // 2024-01-15T09:30:00Z
    assert_eq!(todo.timestamp, 1705311000);
    assert_eq!(todo.age, now - 1705311000);
    assert_eq!(todo.path, "src/lib.rs");
    assert_eq!(todo.abs_path, "/r/src/lib.rs");
    assert_eq!(todo.line_number, 7);
    assert_eq!(todo.text, "// TODO: x");
}

#[test]
fn parse_timezone_offset_applies() {
    let l = loc("a.rs", 1, "// TODO");
    let stdout = "ffff (Bob 2024-01-15 09:30:00 +0100 1) x";
    let todo = attribute_with_now(&l, "a.rs".to_string(), stdout, 1750000000).unwrap();
    // one hour earlier in UTC than the +0000 reading
    assert_eq!(todo.timestamp, 1705311000 - 3600);
}

#[test]
fn malformed_missing_close_paren() {
    let r = parse_blame_line("abc123 (Jane Q. Public 2024-01-15 09:30:00 +0000 7 some code");
    assert_eq!(r.unwrap_err(), TodoError::MalformedAttributionLine);
}

#[test]
fn malformed_missing_open_paren() {
    let r = parse_blame_line("abc123 Jane 2024-01-15 09:30:00 +0000 7) some code");
    assert_eq!(r.unwrap_err(), TodoError::MalformedAttributionLine);
}

#[test]
fn malformed_too_few_segments() {
    // only four space-delimited segments inside the parentheses
    let r = parse_blame_line("abc123 (Jane 2024-01-15 09:30:00 +0000) code");
    match r {
        Ok(p) => panic!("unexpected parse: {} / {}", p.author, p.datetime),
        Err(e) => assert_eq!(e, TodoError::MalformedAttributionLine),
    }
}

#[test]
fn malformed_line_drops_occurrence_without_crash() {
    let l = loc("a.rs", 3, "# TODO later");
    let r = attribute_with_now(&l, "a.rs".to_string(), "zzzz no parens here", 10);
    assert_eq!(r.unwrap_err(), TodoError::MalformedAttributionLine);
}

#[test]
fn empty_output_is_its_own_error() {
    let l = loc("a.rs", 3, "# TODO later");
    let r = attribute_with_now(&l, "a.rs".to_string(), "", 10);
    assert_eq!(r.unwrap_err(), TodoError::EmptyAttributionOutput);
}

#[test]
fn bad_timestamp_is_parse_error() {
    let l = loc("a.rs", 3, "// TODO");
    let stdout = "ffff (Bob 2024-13-45 09:30:00 +0000 1) x";
    let r = attribute_with_now(&l, "a.rs".to_string(), stdout, 10);
    assert_eq!(r.unwrap_err(), TodoError::TimestampParseError);
}

#[test]
fn only_first_output_line_is_parsed() {
    let l = loc("a.rs", 1, "// TODO");
    let stdout = "ffff (Bob 2024-01-15 09:30:00 +0000 1) x\nnot a blame line\n";
    let todo = attribute_with_now(&l, "a.rs".to_string(), stdout, 1750000000).unwrap();
    assert_eq!(todo.author, "Bob");
}

#[test]
fn carriage_return_line_ending_is_stripped() {
    let l = loc("a.rs", 1, "// TODO");
    let stdout = "ffff (Bob 2024-01-15 09:30:00 +0000 1) x\r\nmore\n";
    let todo = attribute_with_now(&l, "a.rs".to_string(), stdout, 1750000000).unwrap();
    assert_eq!(todo.timestamp, 1705311000);
}

#[test]
fn error_descriptions_name_the_cause() {
    assert_eq!(TodoError::FileUnreadable.describe(), "could not read file");
    assert_eq!(TodoError::PathResolutionError.describe(), "could not resolve path");
    assert_eq!(TodoError::AttributionSubprocessError.describe(), "git blame failed");
    assert_eq!(TodoError::EmptyAttributionOutput.describe(), "git blame returned no output");
    assert_eq!(TodoError::MalformedAttributionLine.describe(), "malformed git blame line");
    assert_eq!(TodoError::TimestampParseError.describe(), "could not parse timestamp");
}
