//! The mathematical model of the task store.
//!
//! The store is a sequence of characters. These spec functions say how that
//! sequence decomposes into lines, which lines are tasks, and what the three
//! operations (add, mark done, parse) produce.

use vstd::prelude::*;

verus! {

/// The prefix of a pending task line.
pub open spec fn pending_marker() -> Seq<char> {
    "- [ ] "@
}

/// The prefix of a done task line.
pub open spec fn done_marker() -> Seq<char> {
    "- [x] "@
}

/// `needle` occurs contiguously somewhere inside `haystack`.
pub open spec fn contains_sub(haystack: Seq<char>, needle: Seq<char>) -> bool {
    exists|i: int|
        0 <= i && i + needle.len() <= haystack.len() && #[trigger] haystack.subrange(
            i,
            i + needle.len(),
        ) == needle
}

/// `l` holds no newline character.
pub open spec fn nl_free(l: Seq<char>) -> bool {
    forall|j: int| 0 <= j < l.len() ==> l[j] != '\n'
}

/// Every line in `lines` is newline-free.
pub open spec fn all_nl_free(lines: Seq<Seq<char>>) -> bool {
    forall|k: int| 0 <= k < lines.len() ==> nl_free(#[trigger] lines[k])
}

/// `s` is empty or ends with a newline, so that appending a full line to it
/// starts a fresh line.
pub open spec fn ends_nl(s: Seq<char>) -> bool {
    s.len() == 0 || s.last() == '\n'
}

/// `s` holds no ANSI escape character.
pub open spec fn esc_free(s: Seq<char>) -> bool {
    forall|j: int| 0 <= j < s.len() ==> s[j] != '\x1b'
}

/// Index of the first newline in `s`, or `s.len()` if there is none.
pub open spec fn first_nl(s: Seq<char>) -> nat
    decreases s.len(),
{
    if s.len() == 0 {
        0
    } else if s[0] == '\n' {
        0
    } else {
        (1 + first_nl(s.drop_first())) as nat
    }
}

/// The lines of `s`: maximal newline-free runs, the separating newlines
/// dropped. A trailing newline yields no extra empty line, so
/// `"a\n"` and `"a"` both split to `["a"]`, and `""` splits to `[]`.
pub open spec fn line_split(s: Seq<char>) -> Seq<Seq<char>>
    decreases s.len(),
{
    if s.len() == 0 {
        seq![]
    } else if first_nl(s) >= s.len() {
        seq![s]
    } else {
        seq![s.take(first_nl(s) as int)] + line_split(s.skip(first_nl(s) as int + 1))
    }
}

/// Joins lines back into a buffer, terminating every line with a newline.
pub open spec fn unlines(lines: Seq<Seq<char>>) -> Seq<char>
    decreases lines.len(),
{
    if lines.len() == 0 {
        Seq::empty()
    } else {
        lines[0] + seq!['\n'] + unlines(lines.drop_first())
    }
}

/// A parsed task: its label and whether it is done.
pub struct TaskView {
    pub label: Seq<char>,
    pub done: bool,
}

/// What a stored line means: a pending task, a done task, or (for any other
/// shape of line) no task at all.
pub open spec fn parse_line(line: Seq<char>) -> Option<TaskView> {
    if line.len() >= 6 && line.take(6) == pending_marker() {
        Some(TaskView { label: line.skip(6), done: false })
    } else if line.len() >= 6 && line.take(6) == done_marker() {
        Some(TaskView { label: line.skip(6), done: true })
    } else {
        None
    }
}

/// The tasks among a sequence of lines, in line order; non-task lines are
/// skipped.
pub open spec fn tasks_in(lines: Seq<Seq<char>>) -> Seq<TaskView>
    decreases lines.len(),
{
    if lines.len() == 0 {
        seq![]
    } else {
        match parse_line(lines[0]) {
            Some(t) => seq![t] + tasks_in(lines.drop_first()),
            None => tasks_in(lines.drop_first()),
        }
    }
}

/// The tasks stored in a buffer.
pub open spec fn tasks_of(s: Seq<char>) -> Seq<TaskView> {
    tasks_in(line_split(s))
}

/// The pending task line recorded for a label, trailing newline included.
pub open spec fn pending_entry(label: Seq<char>) -> Seq<char> {
    pending_marker() + label + seq!['\n']
}

/// Adding one label: appended as a pending line unless the label already
/// occurs anywhere in the buffer as a substring, in which case the buffer is
/// left alone.
pub open spec fn add_one(content: Seq<char>, label: Seq<char>) -> Seq<char> {
    if contains_sub(content, label) {
        content
    } else {
        content + pending_entry(label)
    }
}

/// Adding a list of labels, first to last, each checked against the buffer
/// as it stands when its turn comes.
pub open spec fn add_all(content: Seq<char>, labels: Seq<Seq<char>>) -> Seq<char>
    decreases labels.len(),
{
    if labels.len() == 0 {
        content
    } else {
        add_one(add_all(content, labels.drop_last()), labels.last())
    }
}

/// Marking one line: a pending line whose label equals one of the requested
/// labels is rewritten as the done line for that label; every other line is
/// kept as it is.
pub open spec fn mark_line(line: Seq<char>, labels: Seq<Seq<char>>) -> Seq<char> {
    if line.len() >= 6 && line.take(6) == pending_marker() && labels.contains(line.skip(6)) {
        done_marker() + line.skip(6)
    } else {
        line
    }
}

/// Marking done: every line is rewritten through `mark_line` and the lines
/// are joined back, each with a terminating newline.
pub open spec fn mark_all(content: Seq<char>, labels: Seq<Seq<char>>) -> Seq<char> {
    unlines(line_split(content).map_values(|line: Seq<char>| mark_line(line, labels)))
}

/// The views of a list of label strings.
pub open spec fn label_views(labels: Seq<String>) -> Seq<Seq<char>> {
    labels.map_values(|s: String| s@)
}

} // verus!
