//! Verified executable operations on the task store buffer.

use vstd::prelude::*;
use vstd::string::*;

use crate::lemmas::lemma_line_split_head;
use crate::model::{
    add_all, contains_sub, label_views, line_split, mark_all, mark_line, pending_entry,
    unlines,
};

verus! {

/// Character-for-character equality of two string slices.
pub fn str_eq(a: &str, b: &str) -> (r: bool)
    ensures
        r == (a@ == b@),
{
    let na = a.unicode_len();
    let nb = b.unicode_len();
    if na != nb {
        return false;
    }
    let mut i: usize = 0;
    while i < na
        invariant
            0 <= i <= na,
            na == a@.len(),
            nb == b@.len(),
            na == nb,
            forall|j: int| 0 <= j < i ==> a@[j] == b@[j],
        decreases na - i,
    {
        if a.get_char(i) != b.get_char(i) {
            return false;
        }
        i = i + 1;
    }
    proof {
        assert(a@ =~= b@);
    }
    true
}

/// Whether `needle` occurs contiguously anywhere inside `haystack`.
pub fn str_contains(haystack: &str, needle: &str) -> (r: bool)
    ensures
        r == contains_sub(haystack@, needle@),
{
    let nh = haystack.unicode_len();
    let nn = needle.unicode_len();
    if nn > nh {
        proof {
            assert(!contains_sub(haystack@, needle@));
        }
        return false;
    }
    if nn == 0 {
        proof {
            assert(haystack@.subrange(0, 0 + needle@.len() as int) =~= needle@);
        }
        return true;
    }
    let mut i: usize = 0;
    while i <= nh - nn
        invariant
            0 <= i <= nh - nn + 1,
            1 <= nn <= nh,
            nh == haystack@.len(),
            nn == needle@.len(),
            forall|k: int|
                0 <= k < i ==> #[trigger] haystack@.subrange(k, k + needle@.len()) != needle@,
        decreases nh + 1 - nn - i,
    {
        let piece = haystack.substring_char(i, i + nn);
        if str_eq(piece, needle) {
            proof {
                assert(contains_sub(haystack@, needle@));
            }
            return true;
        }
        i = i + 1;
    }
    proof {
        assert(!contains_sub(haystack@, needle@));
    }
    false
}

/// Whether any of the label strings equals `s` character for character.
fn any_label_eq(labels: &Vec<String>, s: &str) -> (r: bool)
    ensures
        r == label_views(labels@).contains(s@),
{
    let mut i: usize = 0;
    while i < labels.len()
        invariant
            0 <= i <= labels@.len(),
            forall|j: int| 0 <= j < i ==> label_views(labels@)[j] != s@,
        decreases labels@.len() - i,
    {
        if str_eq(labels[i].as_str(), s) {
            proof {
                assert(label_views(labels@)[i as int] == s@);
            }
            return true;
        }
        i = i + 1;
    }
    proof {
        assert(!label_views(labels@).contains(s@));
    }
    false
}

/// Appends each requested label as a fresh pending line unless it already
/// occurs somewhere in the buffer as a raw substring (the buffer as already
/// extended by the labels handled before it); such labels are skipped.
pub fn add_items(content: &str, labels: &Vec<String>) -> (r: String)
    ensures
        r@ == add_all(content@, label_views(labels@)),
{
    let ghost lv = label_views(labels@);
    let mut out = content.to_owned();
    let mut i: usize = 0;
    proof {
        assert(lv.take(0) =~= Seq::<Seq<char>>::empty());
    }
    while i < labels.len()
        invariant
            0 <= i <= labels@.len(),
            lv == label_views(labels@),
            out@ == add_all(content@, lv.take(i as int)),
        decreases labels@.len() - i,
    {
        let label = &labels[i];
        if !str_contains(out.as_str(), label.as_str()) {
            out.append("- [ ] ");
            out.append(label.as_str());
            out.append("\n");
            proof {
                reveal_strlit("\n");
                assert(("\n")@ =~= seq!['\n']);
                assert(out@ =~= add_all(content@, lv.take(i as int)) + pending_entry(label@));
            }
        }
        proof {
            assert(lv.take(i + 1).drop_last() =~= lv.take(i as int));
            assert(lv.take(i + 1).last() == label@);
            assert(out@ == add_all(content@, lv.take(i + 1)));
        }
        i = i + 1;
    }
    proof {
        assert(lv.take(labels@.len() as int) =~= lv);
    }
    out
}

/// The rewriting of one stored line under mark-done: a pending line whose
/// label equals one of the requested labels becomes the done line for that
/// label; any other line is returned as it is.
fn mark_one_line(line: &str, labels: &Vec<String>) -> (r: String)
    ensures
        r@ == mark_line(line@, label_views(labels@)),
{
    let len = line.unicode_len();
    if len >= 6 {
        let head = line.substring_char(0, 6);
        if str_eq(head, "- [ ] ") {
            let rest = line.substring_char(6, len);
            proof {
                assert(line@.skip(6) =~= rest@);
            }
            if any_label_eq(labels, rest) {
                let mut r = String::new();
                r.append("- [x] ");
                r.append(rest);
                proof {
                    assert(r@ =~= mark_line(line@, label_views(labels@)));
                }
                return r;
            }
        }
    }
    line.to_owned()
}

/// Rewrites every pending line whose label equals one of the requested
/// labels as the corresponding done line; every other line passes through
/// unchanged, and every line comes out newline-terminated.
pub fn mark_done(content: &str, labels: &Vec<String>) -> (r: String)
    ensures
        r@ == mark_all(content@, label_views(labels@)),
{
    let ghost lv = label_views(labels@);
    let n = content.unicode_len();
    let mut out = String::new();
    let mut pos: usize = 0;
    proof {
        assert(content@.skip(0) =~= content@);
        assert(out@ + mark_all(content@, lv) =~= mark_all(content@, lv));
    }
    while pos < n
        invariant
            0 <= pos <= n,
            n == content@.len(),
            lv == label_views(labels@),
            mark_all(content@, lv) == out@ + mark_all(content@.skip(pos as int), lv),
        decreases n - pos,
    {
        let mut end = pos;
        while end < n && content.get_char(end) != '\n'
            invariant
                pos <= end <= n,
                n == content@.len(),
                forall|j: int| pos <= j < end ==> content@[j] != '\n',
            decreases n - end,
        {
            end = end + 1;
        }
        let line = content.substring_char(pos, end);
        let next: usize = if end < n {
            end + 1
        } else {
            end
        };
        let m = mark_one_line(line, labels);
        out.append(m.as_str());
        out.append("\n");
        proof {
            reveal_strlit("\n");
            assert(("\n")@ =~= seq!['\n']);
            let rem = content@.skip(pos as int);
            let rem2 = content@.skip(next as int);
            let e = (end - pos) as int;
            assert forall|j: int| 0 <= j < e implies rem[j] != '\n' by {
                assert(rem[j] == content@[pos + j]);
            }
            if e < rem.len() {
                assert(rem[e] == content@[end as int]);
            }
            lemma_line_split_head(rem, e);
            assert(rem.take(e) =~= line@);
            if end < n {
                assert(rem.skip(e + 1) =~= rem2);
                assert(line_split(rem) == seq![line@] + line_split(rem2));
            } else {
                assert(line@ =~= rem);
                assert(rem2 =~= Seq::<char>::empty());
                assert(line_split(rem2) == Seq::<Seq<char>>::empty());
                assert(line_split(rem) == seq![rem]);
                assert(line_split(rem) =~= seq![line@] + line_split(rem2));
            }
            let g = |l: Seq<char>| mark_line(l, lv);
            let ms = line_split(rem).map_values(g);
            let ms2 = line_split(rem2).map_values(g);
            assert(ms =~= seq![mark_line(line@, lv)] + ms2);
            assert((seq![mark_line(line@, lv)] + ms2).drop_first() =~= ms2);
            assert(unlines(ms) == mark_line(line@, lv) + seq!['\n'] + unlines(ms2));
            assert(mark_all(content@, lv) == out@ + mark_all(rem2, lv));
        }
        pos = next;
    }
    proof {
        let g = |l: Seq<char>| mark_line(l, lv);
        assert(content@.skip(pos as int) =~= Seq::<char>::empty());
        assert(line_split(Seq::<char>::empty()) == Seq::<Seq<char>>::empty());
        assert(Seq::<Seq<char>>::empty().map_values(g) =~= Seq::<Seq<char>>::empty());
        assert(unlines(Seq::<Seq<char>>::empty()) == Seq::<char>::empty());
        assert(out@ + Seq::<char>::empty() =~= out@);
    }
    out
}

} // verus!
