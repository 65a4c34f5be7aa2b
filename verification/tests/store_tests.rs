use todo::paths::{get_data_file_path, get_local_share_path};
use todo::store::{add_items, mark_done};
use todo::tasks::{parse_tasks, render_tasks, Task};

use colored::Colorize;

fn labels(items: &[&str]) -> Vec<String> {
    items.iter().map(|s| s.to_string()).collect()
}

#[test]
fn add_to_empty_lists_pending_in_order() {
    let content = add_items("", &labels(&["buy milk", "walk dog"]));
    assert_eq!(content, "- [ ] buy milk\n- [ ] walk dog\n");
    let tasks = parse_tasks(&content);
    assert_eq!(tasks.len(), 2);
    assert_eq!(tasks[0].label, "buy milk");
    assert!(!tasks[0].done);
    assert_eq!(tasks[1].label, "walk dog");
    assert!(!tasks[1].done);
}

#[test]
fn add_same_label_twice_leaves_store_unchanged() {
    let once = add_items("", &labels(&["x"]));
    let twice = add_items(&once, &labels(&["x"]));
    assert_eq!(once, twice);
}

#[test]
fn add_skips_label_contained_as_substring() {
    let content = add_items("- [ ] buy milk\n", &labels(&["milk"]));
    assert_eq!(content, "- [ ] buy milk\n");
}

#[test]
fn add_appends_to_unterminated_store_as_is() {
    let content = add_items("x", &labels(&["a"]));
    assert_eq!(content, "x- [ ] a\n");
}

#[test]
fn mark_done_rewrites_exactly_the_matching_task() {
    let content = "- [ ] buy milk\n- [ ] walk dog\n";
    let marked = mark_done(content, &labels(&["buy milk"]));
    assert_eq!(marked, "- [x] buy milk\n- [ ] walk dog\n");
    let tasks = parse_tasks(&marked);
    assert_eq!(tasks.len(), 2);
    assert!(tasks[0].done);
    assert_eq!(tasks[0].label, "buy milk");
    assert!(!tasks[1].done);
    assert_eq!(tasks[1].label, "walk dog");
}

#[test]
fn mark_done_without_exact_match_is_identity() {
    let content = "- [ ] buy milk\n- [x] walk dog\n";
    assert_eq!(mark_done(content, &labels(&["nope"])), content);
}

#[test]
fn mark_done_needs_the_whole_label() {
    let content = "- [ ] buy milk\n";
    assert_eq!(mark_done(content, &labels(&["milk"])), content);
}

#[test]
fn mark_done_passes_unrecognized_lines_through() {
    let marked = mark_done("junk\n- [ ] a\n", &labels(&["a"]));
    assert_eq!(marked, "junk\n- [x] a\n");
}

#[test]
fn mark_done_newline_terminates_every_line() {
    assert_eq!(mark_done("- [ ] a", &labels(&["a"])), "- [x] a\n");
    assert_eq!(mark_done("x", &labels(&[])), "x\n");
}

#[test]
fn empty_store_holds_no_tasks() {
    let tasks = parse_tasks("");
    assert_eq!(tasks.len(), 0);
    assert_eq!(render_tasks(&tasks).len(), 0);
}

#[test]
fn unrecognized_and_short_lines_are_skipped() {
    let tasks = parse_tasks("junk\n- [\n- [ ] a\n* [ ] b\n");
    assert_eq!(tasks.len(), 1);
    assert_eq!(tasks[0].label, "a");
    assert!(!tasks[0].done);
}

#[test]
fn render_keeps_pending_labels_plain() {
    let tasks = vec![Task { label: "walk dog".to_string(), done: false }];
    let lines = render_tasks(&tasks);
    assert_eq!(lines.len(), 1);
    assert_eq!(lines[0], "walk dog");
}

#[test]
fn render_strikes_done_labels_through() {
    colored::control::set_override(true);
    let expected = format!("{}", "buy milk".strikethrough().white());
    let tasks = vec![Task { label: "buy milk".to_string(), done: true }];
    let lines = render_tasks(&tasks);
    assert_eq!(lines.len(), 1);
    assert_eq!(lines[0], expected);
    assert_ne!(lines[0], "buy milk");
    assert!(lines[0].contains("buy milk"));
    assert!(lines[0].contains("\u{1b}[9"));
}

#[test]
fn end_to_end_add_add_done_render() {
    colored::control::set_override(true);
    let expected_done = format!("{}", "buy milk".strikethrough().white());
    let s0 = String::new();
    let s1 = add_items(&s0, &labels(&["buy milk"]));
    let s2 = add_items(&s1, &labels(&["walk dog"]));
    let s3 = mark_done(&s2, &labels(&["buy milk"]));
    let lines = render_tasks(&parse_tasks(&s3));
    assert_eq!(lines.len(), 2);
    assert_eq!(lines[0], expected_done);
    assert!(lines[0].contains("buy milk"));
    assert_eq!(lines[1], "walk dog");
}

#[test]
fn storage_paths_join_the_home_directory() {
    assert_eq!(get_local_share_path("/home/u"), "/home/u/.local/share/todo");
    assert_eq!(get_data_file_path("/home/u"), "/home/u/.local/share/todo/todo.md");
}
