use ye_olde_todos::text::{dec_i64, dec_u64, pad_right, str_contains, trim_str};
use ye_olde_todos::todo::Todo;

fn todo(path: &str, line: usize, text: &str, author: &str, age: i64) -> Todo {
    Todo {
        path: path.to_string(),
        abs_path: format!("/abs/{}", path),
        line_number: line,
        text: text.to_string(),
        author: author.to_string(),
        timestamp: 0,
        age,
    }
}

#[test]
fn truncation_leaves_short_text_alone() {
    let t = todo("a.rs", 1, "// TODO: ok", "A", 0);
    assert_eq!(t.truncate_text(50), "// TODO: ok");
}

#[test]
fn truncation_to_ten_gives_ten_chars_ending_in_dots() {
    let text: String = "x".repeat(50);
    let t = todo("a.rs", 1, &text, "A", 0);
    let cut = t.truncate_text(10);
    assert_eq!(cut.chars().count(), 10);
    assert_eq!(cut, "xxxxxxx...");
    assert!(cut.ends_with("..."));
}

#[test]
fn truncation_at_three_or_less_is_three_dots() {
    let text: String = "y".repeat(50);
    let t = todo("a.rs", 1, &text, "A", 0);
    assert_eq!(t.truncate_text(3), "...");
    assert_eq!(t.truncate_text(0), "...");
}

#[test]
fn filename_with_line_number_uses_last_component() {
    let t = todo("src/deep/b.rs", 42, "// TODO", "A", 0);
    assert_eq!(t.filename_with_line_number(), "b.rs:42");
    let bare = todo("plain.rs", 7, "// TODO", "A", 0);
    assert_eq!(bare.filename_with_line_number(), "plain.rs:7");
}

#[test]
fn render_line_composition() {
    // age of 100 whole days: yellow severity, padded to ten characters
    let t = todo("b.rs", 7, "// TODO: fix this before the heat death", "Ann", 100 * 86400);
    let line = t.to_string(4, 15, 59);
    // text width = 59 - 4 - 15 - 30 = 10
    let age_part = "\x1b[33m100 days  \x1b[39m";
    let author_part = "Ann ";
    let fileref = format!("{:<15}", "b.rs:7");
    let link = format!(
        "\x1b]8;;file:///abs/b.rs\x1b\\\x1b[34m{}\x1b[39m\x1b]8;;\x1b\\",
        fileref
    );
    let text_part = "\x1b[3m// TODO...\x1b[0m";
    let expected = format!("{} {} {} {}", age_part, author_part, link, text_part);
    assert_eq!(line, expected);
}

#[test]
fn render_age_severities() {
    let old = todo("b.rs", 1, "// TODO", "A", 400 * 86400);
    assert!(old.to_string(2, 15, 47).starts_with("\x1b[31m400 days  \x1b[39m"));
    let warn = todo("b.rs", 1, "// TODO", "A", 61 * 86400);
    assert!(warn.to_string(2, 15, 47).starts_with("\x1b[33m61 days   \x1b[39m"));
    let fresh = todo("b.rs", 1, "// TODO", "A", 5 * 86400);
    assert!(fresh.to_string(2, 15, 47).starts_with("\x1b[32m5 days    \x1b[39m"));
}

#[test]
fn render_subday_ages_unpadded() {
    let hours = todo("b.rs", 1, "// TODO", "A", 3 * 3600 + 100);
    assert!(hours.to_string(2, 15, 47).starts_with("3 hours   "));
    let minutes = todo("b.rs", 1, "// TODO", "A", 59 * 60 + 30);
    assert!(minutes.to_string(2, 15, 47).starts_with("59 minutes "));
    let seconds = todo("b.rs", 1, "// TODO", "A", 12);
    assert!(seconds.to_string(2, 15, 47).starts_with("12 seconds "));
}

#[test]
fn age_milliseconds_scales_and_saturates() {
    let t = todo("b.rs", 1, "// TODO", "A", 2);
    assert_eq!(t.age_milliseconds(), 2000);
    let huge = todo("b.rs", 1, "// TODO", "A", i64::MAX / 2);
    assert_eq!(huge.age_milliseconds(), i64::MAX);
}

#[test]
fn decimal_rendering() {
    assert_eq!(dec_u64(0), "0");
    assert_eq!(dec_u64(907), "907");
    assert_eq!(dec_i64(-45), "-45");
    assert_eq!(dec_i64(i64::MIN), "-9223372036854775808");
}

#[test]
fn padding_and_search_and_trim() {
    assert_eq!(pad_right("ab".to_string(), 5), "ab   ");
    assert_eq!(pad_right("abcdef".to_string(), 5), "abcdef");
    assert!(str_contains("let x; // TODO: y", "// TODO"));
    assert!(!str_contains("let x; // todo", "// TODO"));
    assert_eq!(trim_str("  \t hi there \n"), "hi there");
    assert_eq!(trim_str(" \t "), "");
}
