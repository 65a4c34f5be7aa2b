//! Parsing the stored buffer into tasks, and rendering tasks for display.

use vstd::prelude::*;
use vstd::string::*;

use crate::lemmas::lemma_line_split_head;
use crate::model::{contains_sub, esc_free, line_split, parse_line, tasks_in, tasks_of, TaskView};
use crate::store::str_eq;
use crate::style::strike_white;

verus! {

/// One task as held in memory: its label and whether it is done.
pub struct Task {
    pub label: String,
    pub done: bool,
}

impl View for Task {
    type V = TaskView;

    open spec fn view(&self) -> TaskView {
        TaskView { label: self.label@, done: self.done }
    }
}

/// The views of a list of tasks.
pub open spec fn task_views(tasks: Seq<Task>) -> Seq<TaskView> {
    tasks.map_values(|t: Task| t@)
}

/// Parses the buffer into its task list: one task per recognized checkbox
/// line, in line order; lines of any other shape are skipped.
pub fn parse_tasks(content: &str) -> (r: Vec<Task>)
    ensures
        task_views(r@) == tasks_of(content@),
{
    let n = content.unicode_len();
    let mut r: Vec<Task> = Vec::new();
    let mut pos: usize = 0;
    proof {
        assert(content@.skip(0) =~= content@);
        assert(task_views(r@) =~= Seq::<TaskView>::empty());
        assert(task_views(r@) + tasks_of(content@) =~= tasks_of(content@));
    }
    while pos < n
        invariant
            0 <= pos <= n,
            n == content@.len(),
            tasks_of(content@) == task_views(r@) + tasks_in(
                line_split(content@.skip(pos as int)),
            ),
        decreases n - pos,
    {
        let mut end = pos;
        while end < n && content.get_char(end) != '\n'
            invariant
                pos <= end <= n,
                n == content@.len(),
                forall|j: int| pos <= j < end ==> content@[j] != '\n',
            decreases n - end,
        {
            end = end + 1;
        }
        let line = content.substring_char(pos, end);
        let next: usize = if end < n {
            end + 1
        } else {
            end
        };
        let ghost r_before = r@;
        let len = line.unicode_len();
        if len >= 6 {
            let head = line.substring_char(0, 6);
            let rest = line.substring_char(6, len);
            proof {
                assert(line@.skip(6) =~= rest@);
            }
            if str_eq(head, "- [ ] ") {
                r.push(Task { label: rest.to_owned(), done: false });
            } else if str_eq(head, "- [x] ") {
                r.push(Task { label: rest.to_owned(), done: true });
            }
        }
        proof {
            let rem = content@.skip(pos as int);
            let rem2 = content@.skip(next as int);
            let e = (end - pos) as int;
            assert forall|j: int| 0 <= j < e implies rem[j] != '\n' by {
                assert(rem[j] == content@[pos + j]);
            }
            if e < rem.len() {
                assert(rem[e] == content@[end as int]);
            }
            lemma_line_split_head(rem, e);
            assert(rem.take(e) =~= line@);
            if end < n {
                assert(rem.skip(e + 1) =~= rem2);
                assert(line_split(rem) == seq![line@] + line_split(rem2));
            } else {
                assert(line@ =~= rem);
                assert(rem2 =~= Seq::<char>::empty());
                assert(line_split(rem2) == Seq::<Seq<char>>::empty());
                assert(line_split(rem) == seq![rem]);
                assert(line_split(rem) =~= seq![line@] + line_split(rem2));
            }
            assert((seq![line@] + line_split(rem2)).drop_first() =~= line_split(rem2));
            match parse_line(line@) {
                Some(t) => {
                    assert(tasks_in(line_split(rem)) == seq![t] + tasks_in(line_split(rem2)));
                    assert(task_views(r@) =~= task_views(r_before) + seq![t]);
                },
                None => {
                    assert(tasks_in(line_split(rem)) == tasks_in(line_split(rem2)));
                    assert(r@ == r_before);
                },
            }
            assert(tasks_of(content@) =~= task_views(r@) + tasks_in(line_split(rem2)));
        }
        pos = next;
    }
    proof {
        assert(content@.skip(pos as int) =~= Seq::<char>::empty());
        assert(line_split(Seq::<char>::empty()) == Seq::<Seq<char>>::empty());
        assert(tasks_in(Seq::<Seq<char>>::empty()) == Seq::<TaskView>::empty());
        assert(task_views(r@) + Seq::<TaskView>::empty() =~= task_views(r@));
    }
    r
}

/// Renders tasks to printable lines, one per task and in task order: a
/// pending task renders as its plain label; a done task renders as its
/// label struck through, which keeps every character of an escape-free
/// label and never shortens it.
pub fn render_tasks(tasks: &Vec<Task>) -> (r: Vec<String>)
    ensures
        r@.len() == tasks@.len(),
        forall|i: int|
            0 <= i < tasks@.len() && !tasks@[i].done ==> (#[trigger] r@[i])@ == tasks@[i].label@,
        forall|i: int|
            0 <= i < tasks@.len() && tasks@[i].done ==> (#[trigger] r@[i])@.len()
                >= tasks@[i].label@.len(),
        forall|i: int|
            0 <= i < tasks@.len() && tasks@[i].done && esc_free(tasks@[i].label@)
                ==> contains_sub((#[trigger] r@[i])@, tasks@[i].label@),
{
    let mut r: Vec<String> = Vec::new();
    let mut i: usize = 0;
    while i < tasks.len()
        invariant
            0 <= i <= tasks@.len(),
            r@.len() == i,
            forall|j: int|
                0 <= j < i && !tasks@[j].done ==> (#[trigger] r@[j])@ == tasks@[j].label@,
            forall|j: int|
                0 <= j < i && tasks@[j].done ==> (#[trigger] r@[j])@.len()
                    >= tasks@[j].label@.len(),
            forall|j: int|
                0 <= j < i && tasks@[j].done && esc_free(tasks@[j].label@)
                    ==> contains_sub((#[trigger] r@[j])@, tasks@[j].label@),
        decreases tasks@.len() - i,
    {
        let t = &tasks[i];
        if t.done {
            r.push(strike_white(t.label.as_str()));
        } else {
            r.push(t.label.clone());
        }
        i = i + 1;
    }
    r
}

} // verus!
