//! The store's laws: what adding and marking done do to the task list as a
//! whole.

use vstd::prelude::*;

use crate::lemmas::{
    lemma_add_all_keeps_free, lemma_line_split_nl_free, lemma_line_split_unlines_id,
    lemma_markers, lemma_pending_entry_tasks, lemma_tasks_in_append, lemma_unlines_line_split_id,
};
use crate::model::{
    add_all, add_one, all_nl_free, contains_sub, done_marker, ends_nl, line_split, mark_all,
    mark_line, nl_free, parse_line, pending_entry, pending_marker, tasks_in, tasks_of, unlines,
    TaskView,
};

verus! {

/// Adding labels and then rendering lists every added label as a pending
/// task, in insertion order, after the tasks the store already held — for
/// labels that are nonempty, newline-free, and occur neither in the store
/// nor anywhere in one another's entries, so that the substring-containment
/// dedup skips none of them.
pub proof fn lemma_add_then_render(c: Seq<char>, labels: Seq<Seq<char>>)
    requires
        ends_nl(c),
        forall|i: int| 0 <= i < labels.len() ==> (#[trigger] labels[i]).len() > 0,
        forall|i: int| 0 <= i < labels.len() ==> nl_free(#[trigger] labels[i]),
        forall|i: int| 0 <= i < labels.len() ==> !contains_sub(c, #[trigger] labels[i]),
        forall|i: int, j: int|
            0 <= i < labels.len() && 0 <= j < labels.len() && i != j ==> !contains_sub(
                pending_entry(#[trigger] labels[j]),
                #[trigger] labels[i],
            ),
    ensures
        tasks_of(add_all(c, labels)) == tasks_of(c) + labels.map_values(
            |l: Seq<char>| TaskView { label: l, done: false },
        ),
        ends_nl(add_all(c, labels)),
    decreases labels.len(),
{
    let f = |l: Seq<char>| TaskView { label: l, done: false };
    if labels.len() == 0 {
        assert(labels.map_values(f) =~= Seq::<TaskView>::empty());
        assert(tasks_of(c) + labels.map_values(f) =~= tasks_of(c));
    } else {
        let l = labels.last();
        let rest = labels.drop_last();
        assert forall|i: int| 0 <= i < rest.len() implies (#[trigger] rest[i]).len() > 0
            && nl_free(rest[i]) && !contains_sub(c, rest[i]) by {
            assert(rest[i] == labels[i]);
        }
        assert forall|i: int, j: int|
            0 <= i < rest.len() && 0 <= j < rest.len() && i != j implies !contains_sub(
            pending_entry(#[trigger] rest[j]),
            #[trigger] rest[i],
        ) by {
            assert(rest[i] == labels[i]);
            assert(rest[j] == labels[j]);
        }
        lemma_add_then_render(c, rest);
        let prev = add_all(c, rest);
        assert(labels[labels.len() - 1] == l);
        assert forall|j: int| 0 <= j < rest.len() implies !contains_sub(
            pending_entry(#[trigger] rest[j]),
            l,
        ) by {
            assert(rest[j] == labels[j]);
        }
        lemma_add_all_keeps_free(c, rest, l);
        assert(!contains_sub(prev, l));
        assert(add_all(c, labels) == prev + pending_entry(l));
        lemma_pending_entry_tasks(prev, l);
        assert(labels.map_values(f) =~= rest.map_values(f).push(TaskView { label: l, done: false }));
        assert(tasks_of(add_all(c, labels)) =~= tasks_of(c) + labels.map_values(f));
    }
}

/// Adding the same label twice is the same as adding it once: the second
/// add finds the label already present — either it was in the store all
/// along, or the first add wrote its entry — and skips it.
pub proof fn lemma_add_twice(c: Seq<char>, x: Seq<char>)
    ensures
        add_all(add_all(c, seq![x]), seq![x]) == add_all(c, seq![x]),
{
    lemma_markers();
    assert(seq![x].drop_last() =~= Seq::<Seq<char>>::empty());
    assert(seq![x].last() == x);
    assert(add_all(c, Seq::<Seq<char>>::empty()) == c);
    assert(add_all(c, seq![x]) == add_one(c, x));
    if !contains_sub(c, x) {
        let c2 = c + pending_entry(x);
        let i = c.len() as int + 6;
        assert(c2.subrange(i, i + x.len()) =~= x);
        assert(contains_sub(c2, x));
        assert(add_all(c2, Seq::<Seq<char>>::empty()) == c2);
        assert(add_all(c2, seq![x]) == add_one(c2, x));
    }
}

/// `mark_line` over a single requested label leaves every line alone but
/// the pending line for that label, which it rewrites as the done line.
proof fn lemma_mark_line_single(l: Seq<char>, x: Seq<char>)
    ensures
        l == pending_marker() + x ==> mark_line(l, seq![x]) == done_marker() + x,
        l != pending_marker() + x ==> mark_line(l, seq![x]) == l,
{
    lemma_markers();
    let lv = seq![x];
    if l == pending_marker() + x {
        assert(l.take(6) =~= pending_marker());
        assert(l.skip(6) =~= x);
        assert(lv[0] == x);
        assert(lv.contains(l.skip(6)));
    } else {
        if l.len() >= 6 && l.take(6) == pending_marker() && lv.contains(l.skip(6)) {
            let i = choose|i: int| 0 <= i < lv.len() && lv[i] == l.skip(6);
            assert(i == 0);
            assert(l.skip(6) == x);
            assert(l =~= pending_marker() + x);
            assert(false);
        }
    }
}

/// Marking a label done on a store that holds exactly one pending line for
/// it: that one task becomes done, and every task before and after it is
/// untouched.
pub proof fn lemma_mark_done_present(c: Seq<char>, x: Seq<char>, k: int)
    requires
        nl_free(x),
        0 <= k < line_split(c).len(),
        line_split(c)[k] == pending_marker() + x,
        forall|j: int|
            0 <= j < line_split(c).len() && j != k ==> #[trigger] line_split(c)[j]
                != pending_marker() + x,
    ensures
        tasks_of(c) == tasks_in(line_split(c).take(k)) + seq![TaskView { label: x, done: false }]
            + tasks_in(line_split(c).skip(k + 1)),
        tasks_of(mark_all(c, seq![x])) == tasks_in(line_split(c).take(k)) + seq![
            TaskView { label: x, done: true },
        ] + tasks_in(line_split(c).skip(k + 1)),
{
    lemma_markers();
    let ls = line_split(c);
    let pline = pending_marker() + x;
    let dline = done_marker() + x;
    let lv = seq![x];
    let g = |l: Seq<char>| mark_line(l, lv);

    assert(parse_line(pline) == Some(TaskView { label: x, done: false })) by {
        assert(pline.take(6) =~= pending_marker());
        assert(pline.skip(6) =~= x);
    }
    assert(parse_line(dline) == Some(TaskView { label: x, done: true })) by {
        assert(dline.take(6) =~= done_marker());
        assert(dline.skip(6) =~= x);
    }
    assert(tasks_in(seq![pline]) =~= seq![TaskView { label: x, done: false }]) by {
        assert(seq![pline].drop_first() =~= Seq::<Seq<char>>::empty());
        assert(tasks_in(Seq::<Seq<char>>::empty()) == Seq::<TaskView>::empty());
    }
    assert(tasks_in(seq![dline]) =~= seq![TaskView { label: x, done: true }]) by {
        assert(seq![dline].drop_first() =~= Seq::<Seq<char>>::empty());
        assert(tasks_in(Seq::<Seq<char>>::empty()) == Seq::<TaskView>::empty());
    }

    assert(ls =~= ls.take(k) + seq![pline] + ls.skip(k + 1));
    lemma_tasks_in_append(ls.take(k) + seq![pline], ls.skip(k + 1));
    lemma_tasks_in_append(ls.take(k), seq![pline]);
    assert(tasks_of(c) == tasks_in(ls.take(k)) + seq![TaskView { label: x, done: false }]
        + tasks_in(ls.skip(k + 1)));

    let ms = ls.map_values(g);
    assert(g(pline) == dline) by {
        lemma_mark_line_single(pline, x);
    }
    assert forall|j: int| 0 <= j < ls.len() && j != k implies g(#[trigger] ls[j]) == ls[j] by {
        lemma_mark_line_single(ls[j], x);
    }
    assert(ms =~= ls.take(k) + seq![dline] + ls.skip(k + 1));

    lemma_line_split_nl_free(c);
    assert(all_nl_free(ms)) by {
        assert forall|j: int| 0 <= j < ms.len() implies nl_free(#[trigger] ms[j]) by {
            if j == k {
                assert(ms[j] == dline);
                assert forall|p: int| 0 <= p < dline.len() implies dline[p] != '\n' by {
                    if p < 6 {
                        assert(dline[p] == done_marker()[p]);
                    } else {
                        assert(dline[p] == x[p - 6]);
                    }
                }
            } else {
                assert(ms[j] == ls[j]);
            }
        }
    }
    lemma_line_split_unlines_id(ms);
    assert(mark_all(c, lv) == unlines(ms));
    lemma_tasks_in_append(ls.take(k) + seq![dline], ls.skip(k + 1));
    lemma_tasks_in_append(ls.take(k), seq![dline]);
    assert(tasks_of(mark_all(c, lv)) == tasks_in(ls.take(k)) + seq![
        TaskView { label: x, done: true },
    ] + tasks_in(ls.skip(k + 1)));
}

/// Marking a label that no pending line carries exactly leaves the store
/// byte-for-byte unchanged, the store being newline-terminated as every
/// store these operations produce is.
pub proof fn lemma_mark_done_absent(c: Seq<char>, x: Seq<char>)
    requires
        ends_nl(c),
        forall|j: int|
            0 <= j < line_split(c).len() ==> #[trigger] line_split(c)[j] != pending_marker() + x,
    ensures
        mark_all(c, seq![x]) == c,
{
    let ls = line_split(c);
    let lv = seq![x];
    let g = |l: Seq<char>| mark_line(l, lv);
    assert forall|j: int| 0 <= j < ls.len() implies g(#[trigger] ls[j]) == ls[j] by {
        lemma_mark_line_single(ls[j], x);
    }
    assert(ls.map_values(g) =~= ls);
    lemma_unlines_line_split_id(c);
}

} // verus!
