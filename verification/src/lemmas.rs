//! Facts about the line structure of the store buffer: how `line_split` and
//! `unlines` interact, how splitting distributes over concatenation, and how
//! substring-freedom survives appending new entries.

use vstd::prelude::*;

use crate::model::{
    add_all, all_nl_free, contains_sub, done_marker, ends_nl, first_nl, line_split, nl_free,
    parse_line, pending_entry, pending_marker, tasks_in, tasks_of, unlines, TaskView,
};

verus! {

/// The two markers are six characters long, differ, and hold neither a
/// newline nor an escape character.
pub proof fn lemma_markers()
    ensures
        pending_marker().len() == 6,
        done_marker().len() == 6,
        pending_marker() != done_marker(),
        nl_free(pending_marker()),
        nl_free(done_marker()),
{
    reveal_strlit("- [ ] ");
    reveal_strlit("- [x] ");
    assert(pending_marker()[3] == ' ');
    assert(done_marker()[3] == 'x');
    assert forall|j: int| 0 <= j < 6 implies pending_marker()[j] != '\n' && done_marker()[j]
        != '\n' by {
        if j == 0 {
        } else if j == 1 {
        } else if j == 2 {
        } else if j == 3 {
        } else if j == 4 {
        } else {
            assert(j == 5);
        }
    }
}

/// The first-newline index is within bounds, everything before it is not a
/// newline, and, when it is within range, it lands on a newline.
pub proof fn lemma_first_nl_bounds(s: Seq<char>)
    ensures
        first_nl(s) <= s.len(),
        forall|j: int| 0 <= j < first_nl(s) ==> s[j] != '\n',
        first_nl(s) < s.len() ==> s[first_nl(s) as int] == '\n',
    decreases s.len(),
{
    if s.len() == 0 {
    } else if s[0] == '\n' {
    } else {
        lemma_first_nl_bounds(s.drop_first());
        assert forall|j: int| 0 <= j < first_nl(s) implies s[j] != '\n' by {
            if j > 0 {
                assert(s.drop_first()[j - 1] == s[j]);
            }
        }
        if first_nl(s) < s.len() {
            assert(s.drop_first()[first_nl(s.drop_first()) as int] == s[first_nl(s) as int]);
        }
    }
}

/// A position before which no newline occurs and which holds a newline (or
/// is the end) is the first-newline index.
pub proof fn lemma_first_nl_at(s: Seq<char>, e: int)
    requires
        0 <= e <= s.len(),
        forall|j: int| 0 <= j < e ==> s[j] != '\n',
        e < s.len() ==> s[e] == '\n',
    ensures
        first_nl(s) == e,
    decreases s.len(),
{
    if s.len() == 0 {
    } else if e == 0 {
    } else {
        assert(s[0] != '\n');
        assert forall|j: int| 0 <= j < e - 1 implies s.drop_first()[j] != '\n' by {
            assert(s.drop_first()[j] == s[j + 1]);
        }
        if e - 1 < s.drop_first().len() {
            assert(s.drop_first()[e - 1] == s[e]);
        }
        lemma_first_nl_at(s.drop_first(), e - 1);
    }
}

/// Splitting a nonempty buffer whose first newline stands at `e`: the head
/// line is everything before `e`, the rest splits on its own.
pub proof fn lemma_line_split_head(s: Seq<char>, e: int)
    requires
        s.len() > 0,
        0 <= e <= s.len(),
        forall|j: int| 0 <= j < e ==> s[j] != '\n',
        e < s.len() ==> s[e] == '\n',
    ensures
        e < s.len() ==> line_split(s) == seq![s.take(e)] + line_split(s.skip(e + 1)),
        e == s.len() ==> line_split(s) == seq![s],
{
    lemma_first_nl_at(s, e);
}

/// Splitting distributes over concatenation at a line boundary.
pub proof fn lemma_line_split_append(a: Seq<char>, b: Seq<char>)
    requires
        ends_nl(a),
    ensures
        line_split(a + b) == line_split(a) + line_split(b),
    decreases a.len(),
{
    if a.len() == 0 {
        assert(a + b =~= b);
        assert(line_split(a) + line_split(b) =~= line_split(b));
    } else {
        lemma_first_nl_bounds(a);
        let e = first_nl(a) as int;
        assert(e < a.len()) by {
            if e == a.len() {
                assert(a[a.len() - 1] != '\n');
            }
        }
        assert forall|j: int| 0 <= j < e implies (a + b)[j] != '\n' by {
            assert((a + b)[j] == a[j]);
        }
        assert((a + b)[e] == a[e]);
        lemma_line_split_head(a + b, e);
        assert((a + b).take(e) =~= a.take(e));
        assert((a + b).skip(e + 1) =~= a.skip(e + 1) + b);
        assert(ends_nl(a.skip(e + 1))) by {
            if e + 1 < a.len() {
                assert(a.skip(e + 1).last() == a.last());
            }
        }
        lemma_line_split_append(a.skip(e + 1), b);
        assert(line_split(a + b) =~= line_split(a) + line_split(b));
    }
}

/// Joining the lines of a newline-terminated buffer gives the buffer back.
pub proof fn lemma_unlines_line_split_id(s: Seq<char>)
    requires
        ends_nl(s),
    ensures
        unlines(line_split(s)) == s,
    decreases s.len(),
{
    if s.len() == 0 {
        assert(unlines(line_split(s)) =~= s);
    } else {
        lemma_first_nl_bounds(s);
        let e = first_nl(s) as int;
        assert(e < s.len()) by {
            if e == s.len() {
                assert(s[s.len() - 1] != '\n');
            }
        }
        let rest = line_split(s.skip(e + 1));
        let ls = seq![s.take(e)] + rest;
        assert(line_split(s) == ls);
        assert(ls.drop_first() =~= rest);
        assert(ends_nl(s.skip(e + 1))) by {
            if e + 1 < s.len() {
                assert(s.skip(e + 1).last() == s.last());
            }
        }
        lemma_unlines_line_split_id(s.skip(e + 1));
        assert(s.take(e) + seq!['\n'] + s.skip(e + 1) =~= s);
    }
}

/// Every line produced by `line_split` is newline-free.
pub proof fn lemma_line_split_nl_free(s: Seq<char>)
    ensures
        all_nl_free(line_split(s)),
    decreases s.len(),
{
    lemma_first_nl_bounds(s);
    if s.len() == 0 {
    } else if first_nl(s) >= s.len() {
        assert(nl_free(s));
    } else {
        let e = first_nl(s) as int;
        lemma_line_split_nl_free(s.skip(e + 1));
        assert(nl_free(s.take(e)));
        assert forall|k: int| 0 <= k < line_split(s).len() implies nl_free(
            #[trigger] line_split(s)[k],
        ) by {
            if k > 0 {
                assert(line_split(s)[k] == line_split(s.skip(e + 1))[k - 1]);
            }
        }
    }
}

/// Splitting the joined form of newline-free lines gives the lines back.
pub proof fn lemma_line_split_unlines_id(lines: Seq<Seq<char>>)
    requires
        all_nl_free(lines),
    ensures
        line_split(unlines(lines)) == lines,
    decreases lines.len(),
{
    if lines.len() == 0 {
        assert(line_split(unlines(lines)) =~= lines);
    } else {
        let l0 = lines[0];
        let rest = lines.drop_first();
        let u = unlines(lines);
        assert(u == l0 + seq!['\n'] + unlines(rest));
        assert(all_nl_free(rest)) by {
            assert forall|k: int| 0 <= k < rest.len() implies nl_free(#[trigger] rest[k]) by {
                assert(rest[k] == lines[k + 1]);
            }
        }
        lemma_line_split_unlines_id(rest);
        let e = l0.len() as int;
        assert(nl_free(l0));
        assert forall|j: int| 0 <= j < e implies u[j] != '\n' by {
            assert(u[j] == l0[j]);
        }
        assert(u[e] == '\n');
        lemma_line_split_head(u, e);
        assert(u.take(e) =~= l0);
        assert(u.skip(e + 1) =~= unlines(rest));
        assert(line_split(u) =~= lines);
    }
}

/// The tasks among concatenated line sequences are the concatenated tasks.
pub proof fn lemma_tasks_in_append(a: Seq<Seq<char>>, b: Seq<Seq<char>>)
    ensures
        tasks_in(a + b) == tasks_in(a) + tasks_in(b),
    decreases a.len(),
{
    if a.len() == 0 {
        assert(a + b =~= b);
        assert(tasks_in(a) + tasks_in(b) =~= tasks_in(b));
    } else {
        assert((a + b)[0] == a[0]);
        assert((a + b).drop_first() =~= a.drop_first() + b);
        lemma_tasks_in_append(a.drop_first(), b);
        assert(tasks_in(a + b) =~= tasks_in(a) + tasks_in(b));
    }
}

/// A newline-free, nonempty string that occurs in neither part does not
/// occur in the concatenation either, provided the first part stops at a
/// line boundary: any occurrence would have to cross it and so contain the
/// boundary newline.
pub proof fn lemma_no_contain_concat(a: Seq<char>, b: Seq<char>, x: Seq<char>)
    requires
        x.len() > 0,
        nl_free(x),
        ends_nl(a),
        !contains_sub(a, x),
        !contains_sub(b, x),
    ensures
        !contains_sub(a + b, x),
{
    let c = a + b;
    assert forall|i: int| 0 <= i && i + x.len() <= c.len() implies #[trigger] c.subrange(
        i,
        i + x.len(),
    ) != x by {
        if i + x.len() <= a.len() {
            assert(c.subrange(i, i + x.len()) =~= a.subrange(i, i + x.len()));
        } else if i >= a.len() {
            assert(c.subrange(i, i + x.len()) =~= b.subrange(
                i - a.len(),
                i - a.len() + x.len(),
            ));
        } else {
            if c.subrange(i, i + x.len()) == x {
                assert(x[a.len() - 1 - i] == c[a.len() - 1]);
                assert(c[a.len() - 1] == a.last());
                assert(false);
            }
        }
    }
}

/// Appending the pending entry for a newline-free label to a buffer that
/// stops at a line boundary adds exactly one pending task at the end.
pub proof fn lemma_pending_entry_tasks(c: Seq<char>, l: Seq<char>)
    requires
        ends_nl(c),
        nl_free(l),
    ensures
        tasks_of(c + pending_entry(l)) == tasks_of(c) + seq![TaskView { label: l, done: false }],
        ends_nl(c + pending_entry(l)),
{
    lemma_markers();
    let entry = pending_entry(l);
    let line = pending_marker() + l;
    assert(entry.len() == l.len() + 7);
    assert forall|j: int| 0 <= j < line.len() implies entry[j] != '\n' by {
        if j < 6 {
            assert(entry[j] == pending_marker()[j]);
        } else {
            assert(entry[j] == l[j - 6]);
        }
    }
    assert(entry[line.len() as int] == '\n');
    lemma_line_split_head(entry, line.len() as int);
    assert(entry.take(line.len() as int) =~= line);
    assert(entry.skip(line.len() as int + 1) =~= Seq::<char>::empty());
    assert(line_split(Seq::<char>::empty()) == Seq::<Seq<char>>::empty());
    assert(line_split(entry) =~= seq![line]);
    lemma_line_split_append(c, entry);
    lemma_tasks_in_append(line_split(c), line_split(entry));
    assert(line.take(6) =~= pending_marker());
    assert(line.skip(6) =~= l);
    assert(seq![line].drop_first() =~= Seq::<Seq<char>>::empty());
    assert(parse_line(line) == Some(TaskView { label: l, done: false }));
    assert(tasks_in(Seq::<Seq<char>>::empty()) == Seq::<TaskView>::empty());
    assert(tasks_in(seq![line]) =~= seq![TaskView { label: l, done: false }]);
    assert(tasks_of(c + entry) =~= tasks_of(c) + seq![TaskView { label: l, done: false }]);
    assert((c + entry).last() == '\n');
}

/// Adding labels never introduces an occurrence of a newline-free string
/// that occurred neither in the buffer nor in any label's pending entry,
/// and it keeps the buffer stopped at a line boundary.
pub proof fn lemma_add_all_keeps_free(c: Seq<char>, labels: Seq<Seq<char>>, x: Seq<char>)
    requires
        ends_nl(c),
        x.len() > 0,
        nl_free(x),
        !contains_sub(c, x),
        forall|j: int| 0 <= j < labels.len() ==> !contains_sub(
            pending_entry(#[trigger] labels[j]),
            x,
        ),
    ensures
        !contains_sub(add_all(c, labels), x),
        ends_nl(add_all(c, labels)),
    decreases labels.len(),
{
    if labels.len() == 0 {
    } else {
        assert forall|j: int| 0 <= j < labels.drop_last().len() implies !contains_sub(
            pending_entry(#[trigger] labels.drop_last()[j]),
            x,
        ) by {
            assert(labels.drop_last()[j] == labels[j]);
        }
        lemma_add_all_keeps_free(c, labels.drop_last(), x);
        let prev = add_all(c, labels.drop_last());
        if !contains_sub(prev, labels.last()) {
            let entry = pending_entry(labels.last());
            assert(!contains_sub(entry, x));
            lemma_no_contain_concat(prev, entry, x);
            assert((prev + entry).last() == '\n') by {
                assert(entry[entry.len() - 1] == '\n');
            }
        }
    }
}

} // verus!
