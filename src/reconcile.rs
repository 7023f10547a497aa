//! Keeping the check marks of an earlier checklist: a task line that was
//! checked stays checked where the new checklist holds it unchanged.

use vstd::prelude::*;
use crate::text::{chars_of, pieces, push_char, push_chars, split_chars, string_of};

verus! {

/// Whether the regular expression `pattern` matches somewhere in `line`;
/// `false` where `pattern` is not a valid expression.
pub uninterp spec fn regex_is_match(pattern: Seq<char>, line: Seq<char>) -> bool;

/// Relies on regex::Regex::new and regex::Regex::is_match: whether the
/// expression matches somewhere in the line; an expression that does not
/// compile matches nothing.
#[verifier::external_body]
fn is_match(pattern: &str, line: &str) -> (r: bool)
    ensures
        r == regex_is_match(pattern@, line@),
{
    match regex::Regex::new(pattern) {
        Ok(re) => re.is_match(line),
        Err(_) => false,
    }
}

/// A checked task anywhere in a line: `-`, a blank, `[x]`, a blank, `#`.
pub const CHECKED_TASK_PATTERN: &'static str = "-\\s\\[x\\]\\s#";

/// Whether an earlier line counts as a checked task.
pub open spec fn checked_task_match(line: Seq<char>) -> bool {
    regex_is_match(CHECKED_TASK_PATTERN@, line)
}

/// The text `- [x] #` that marks a checked task.
pub open spec fn checked_mark() -> Seq<char> {
    seq!['-', ' ', '[', 'x', ']', ' ', '#']
}

/// `s` holds the checked mark at index `i`.
pub open spec fn mark_at(s: Seq<char>, i: int) -> bool {
    0 <= i && i + 7 <= s.len() && s.subrange(i, i + 7) == checked_mark()
}

/// `s` with every `- [x] #` turned into `- [ ] #`.
pub open spec fn uncheck(s: Seq<char>) -> Seq<char> {
    Seq::new(s.len(), |k: int| if mark_at(s, k - 3) { ' ' } else { s[k] })
}

/// The pieces of `s` between newline characters; a text ending in a newline
/// ends with an empty piece.
pub open spec fn lines_of(s: Seq<char>) -> Seq<Seq<char>> {
    pieces(s, '\n')
}

/// The lines joined with newline characters between them.
pub open spec fn join_lines(ls: Seq<Seq<char>>) -> Seq<char>
    decreases ls.len(),
{
    if ls.len() == 0 {
        Seq::empty()
    } else if ls.len() == 1 {
        ls[0]
    } else {
        join_lines(ls.drop_last()) + seq!['\n'] + ls.last()
    }
}

/// One line of the new checklist after the earlier lines have been gone
/// through in order: each marked earlier line replaces the line where the
/// line equals its unchecked form.
pub open spec fn reconcile_line(line: Seq<char>, olds: Seq<Seq<char>>, marks: Seq<bool>) -> Seq<char>
    decreases olds.len(),
{
    if olds.len() == 0 {
        line
    } else {
        let cur = reconcile_line(line, olds.drop_last(), marks.drop_last());
        if marks.last() && cur == uncheck(olds.last()) {
            olds.last()
        } else {
            cur
        }
    }
}

/// The new checklist with the check marks of the marked earlier lines.
pub open spec fn reconcile_marked_spec(olds: Seq<Seq<char>>, marks: Seq<bool>, new_body: Seq<char>) -> Seq<char> {
    join_lines(lines_of(new_body).map_values(|l: Seq<char>| reconcile_line(l, olds, marks)))
}

/// The new checklist with the check marks of the earlier one: an earlier line
/// counts as checked where the checked-task pattern occurs in it.
pub open spec fn reconcile_spec(old_body: Seq<char>, new_body: Seq<char>) -> Seq<char> {
    let olds = lines_of(old_body);
    reconcile_marked_spec(olds, olds.map_values(|l: Seq<char>| checked_task_match(l)), new_body)
}

/// Whether two character vectors are equal.
pub fn same_chars(a: &Vec<char>, b: &Vec<char>) -> (r: bool)
    ensures
        r == (a@ == b@),
{
    if a.len() != b.len() {
        return false;
    }
    let mut i: usize = 0;
    while i < a.len()
        invariant
            a@.len() == b@.len(),
            i <= a@.len(),
            forall|k: int| 0 <= k < i ==> a@[k] == b@[k],
        decreases a@.len() - i,
    {
        if a[i] != b[i] {
            return false;
        }
        i = i + 1;
    }
    assert(a@ =~= b@);
    true
}

fn mark_at_exec(s: &Vec<char>, i: usize) -> (r: bool)
    ensures
        r == mark_at(s@, i as int),
{
    if i > s.len() || s.len() - i < 7 {
        return false;
    }
    let r = s[i] == '-' && s[i + 1] == ' ' && s[i + 2] == '[' && s[i + 3] == 'x' && s[i + 4] == ']'
        && s[i + 5] == ' ' && s[i + 6] == '#';
    if r {
        assert(s@.subrange(i as int, i + 7) =~= checked_mark());
    } else {
        proof {
            if mark_at(s@, i as int) {
                let w = s@.subrange(i as int, i + 7);
                assert(w[0] == '-' && w[1] == ' ' && w[2] == '[' && w[3] == 'x');
                assert(w[4] == ']' && w[5] == ' ' && w[6] == '#');
            }
        }
    }
    r
}

/// The line with every `- [x] #` turned into `- [ ] #`.
pub fn uncheck_line(s: &Vec<char>) -> (r: Vec<char>)
    ensures
        r@ == uncheck(s@),
{
    let mut r: Vec<char> = Vec::new();
    let mut k: usize = 0;
    while k < s.len()
        invariant
            k <= s@.len(),
            r@ == uncheck(s@).subrange(0, k as int),
        decreases s@.len() - k,
    {
        let c = if k >= 3 && mark_at_exec(s, k - 3) { ' ' } else { s[k] };
        r.push(c);
        k = k + 1;
        assert(r@ =~= uncheck(s@).subrange(0, k as int));
    }
    assert(r@ =~= uncheck(s@));
    r
}

/// The pieces of a text between newline characters.
pub fn split_lines(s: &str) -> (r: Vec<Vec<char>>)
    ensures
        r@.map_values(|l: Vec<char>| l@) == lines_of(s@),
{
    split_chars(&chars_of(s), '\n')
}

pub open spec fn char_lines(v: Seq<Vec<char>>) -> Seq<Seq<char>> {
    v.map_values(|l: Vec<char>| l@)
}

/// Joins lines with newline characters between them.
pub fn join_char_lines(ls: &Vec<Vec<char>>) -> (r: String)
    ensures
        r@ == join_lines(char_lines(ls@)),
{
    let ghost lm = char_lines(ls@);
    let mut s = String::new();
    if ls.len() == 0 {
        return s;
    }
    push_chars(&mut s, &ls[0]);
    let mut i: usize = 1;
    assert(lm.subrange(0, 1).len() == 1);
    assert(s@ =~= join_lines(lm.subrange(0, 1)));
    while i < ls.len()
        invariant
            lm == char_lines(ls@),
            1 <= i <= ls@.len(),
            s@ == join_lines(lm.subrange(0, i as int)),
        decreases ls@.len() - i,
    {
        assert(lm.subrange(0, i + 1).drop_last() =~= lm.subrange(0, i as int));
        assert(lm.subrange(0, i + 1).last() == ls@[i as int]@);
        push_char(&mut s, '\n');
        push_chars(&mut s, &ls[i]);
        i = i + 1;
    }
    assert(lm.subrange(0, ls@.len() as int) =~= lm);
    s
}

/// One new line after going through the earlier lines (`unchecked` holds
/// their unchecked forms).
fn reconcile_one(line: &Vec<char>, olds: &Vec<Vec<char>>, unchecked: &Vec<Vec<char>>, marks: &Vec<bool>) -> (r: Vec<char>)
    requires
        olds@.len() == unchecked@.len(),
        olds@.len() == marks@.len(),
        forall|j: int| 0 <= j < olds@.len() ==> (#[trigger] unchecked@[j])@ == uncheck(olds@[j]@),
    ensures
        r@ == reconcile_line(line@, char_lines(olds@), marks@),
{
    let ghost om = char_lines(olds@);
    let mut chosen: Option<usize> = None;
    let mut j: usize = 0;
    assert(om.subrange(0, 0) =~= Seq::<Seq<char>>::empty());
    while j < olds.len()
        invariant
            om == char_lines(olds@),
            olds@.len() == unchecked@.len(),
            olds@.len() == marks@.len(),
            forall|k: int| 0 <= k < olds@.len() ==> (#[trigger] unchecked@[k])@ == uncheck(olds@[k]@),
            j <= olds@.len(),
            match chosen {
                Some(k) => k < j && olds@[k as int]@ == reconcile_line(line@, om.subrange(0, j as int), marks@.subrange(0, j as int)),
                None => line@ == reconcile_line(line@, om.subrange(0, j as int), marks@.subrange(0, j as int)),
            },
        decreases olds@.len() - j,
    {
        assert(om.subrange(0, j + 1).drop_last() =~= om.subrange(0, j as int));
        assert(marks@.subrange(0, j + 1).drop_last() =~= marks@.subrange(0, j as int));
        assert(om.subrange(0, j + 1).last() == olds@[j as int]@);
        assert(marks@.subrange(0, j + 1).last() == marks@[j as int]);
        if marks[j] {
            let same = match chosen {
                Some(k) => same_chars(&olds[k], &unchecked[j]),
                None => same_chars(line, &unchecked[j]),
            };
            if same {
                chosen = Some(j);
            }
        }
        j = j + 1;
    }
    assert(om.subrange(0, olds@.len() as int) =~= om);
    assert(marks@.subrange(0, olds@.len() as int) =~= marks@);
    match chosen {
        Some(k) => copy_chars(&olds[k]),
        None => copy_chars(line),
    }
}

fn copy_chars(v: &Vec<char>) -> (r: Vec<char>)
    ensures
        r@ == v@,
{
    let mut r: Vec<char> = Vec::new();
    let mut i: usize = 0;
    while i < v.len()
        invariant
            i <= v@.len(),
            r@ == v@.subrange(0, i as int),
        decreases v@.len() - i,
    {
        r.push(v[i]);
        i = i + 1;
        assert(r@ =~= v@.subrange(0, i as int));
    }
    assert(r@ =~= v@);
    r
}

/// Puts back the check marks of the earlier lines that `marks` flags as
/// checked: a line of the new checklist that equals the unchecked form of such
/// a line becomes that line. Lines are compared whole.
pub fn reconcile_marked(old_lines: &Vec<String>, marks: &Vec<bool>, new_body: &str) -> (r: String)
    requires
        old_lines@.len() == marks@.len(),
    ensures
        r@ == reconcile_marked_spec(old_lines@.map_values(|l: String| l@), marks@, new_body@),
{
    let mut olds: Vec<Vec<char>> = Vec::new();
    let mut unchecked: Vec<Vec<char>> = Vec::new();
    let mut j: usize = 0;
    while j < old_lines.len()
        invariant
            j <= old_lines@.len(),
            olds@.len() == j,
            unchecked@.len() == j,
            forall|k: int| 0 <= k < j ==> (#[trigger] olds@[k])@ == old_lines@[k]@,
            forall|k: int| 0 <= k < j ==> (#[trigger] unchecked@[k])@ == uncheck(olds@[k]@),
        decreases old_lines@.len() - j,
    {
        let cs = chars_of(old_lines[j].as_str());
        let u = uncheck_line(&cs);
        olds.push(cs);
        unchecked.push(u);
        j = j + 1;
    }
    assert(char_lines(olds@) =~= old_lines@.map_values(|l: String| l@));
    let news = split_lines(new_body);
    let ghost nm = char_lines(news@);
    let ghost out_spec = nm.map_values(|l: Seq<char>| reconcile_line(l, char_lines(olds@), marks@));
    let mut out: Vec<Vec<char>> = Vec::new();
    let mut i: usize = 0;
    while i < news.len()
        invariant
            nm == char_lines(news@),
            nm == lines_of(new_body@),
            out_spec == nm.map_values(|l: Seq<char>| reconcile_line(l, char_lines(olds@), marks@)),
            olds@.len() == unchecked@.len(),
            olds@.len() == marks@.len(),
            forall|k: int| 0 <= k < olds@.len() ==> (#[trigger] unchecked@[k])@ == uncheck(olds@[k]@),
            i <= news@.len(),
            out@.len() == i,
            forall|k: int| 0 <= k < i ==> (#[trigger] out@[k])@ == out_spec[k],
        decreases news@.len() - i,
    {
        let l = reconcile_one(&news[i], &olds, &unchecked, marks);
        out.push(l);
        i = i + 1;
    }
    assert(char_lines(out@) =~= out_spec);
    join_char_lines(&out)
}

/// Puts back the check marks of an earlier checklist into a new one: each
/// earlier line in which the checked-task pattern occurs gives back its mark to
/// a new line that equals it with `- [x] #` turned into `- [ ] #`.
pub fn reconcile(old_body: &str, new_body: &str) -> (r: String)
    ensures
        r@ == reconcile_spec(old_body@, new_body@),
{
    let olds = split_lines(old_body);
    let mut old_lines: Vec<String> = Vec::new();
    let mut marks: Vec<bool> = Vec::new();
    let mut j: usize = 0;
    while j < olds.len()
        invariant
            j <= olds@.len(),
            old_lines@.len() == j,
            marks@.len() == j,
            forall|k: int| 0 <= k < j ==> (#[trigger] old_lines@[k])@ == olds@[k]@,
            forall|k: int| 0 <= k < j ==> #[trigger] marks@[k] == checked_task_match(olds@[k]@),
        decreases olds@.len() - j,
    {
        let line = string_of(&olds[j]);
        let m = is_match(CHECKED_TASK_PATTERN, line.as_str());
        old_lines.push(line);
        marks.push(m);
        j = j + 1;
    }
    let ghost om = lines_of(old_body@);
    assert(old_lines@.map_values(|l: String| l@) =~= om);
    assert(marks@ =~= om.map_values(|l: Seq<char>| checked_task_match(l)));
    reconcile_marked(&old_lines, &marks, new_body)
}

proof fn lemma_no_mark_after_uncheck(s: Seq<char>, i: int)
    ensures
        !mark_at(uncheck(s), i),
{
    let u = uncheck(s);
    if mark_at(u, i) {
        let w = u.subrange(i, i + 7);
        assert(w[0] == '-' && w[1] == ' ' && w[2] == '[' && w[3] == 'x');
        assert(w[4] == ']' && w[5] == ' ' && w[6] == '#');
        assert(u[i] == '-' && u[i + 1] == ' ' && u[i + 2] == '[' && u[i + 3] == 'x');
        assert(u[i + 4] == ']' && u[i + 5] == ' ' && u[i + 6] == '#');
        assert(s[i] == '-' && s[i + 2] == '[' && s[i + 3] == 'x' && s[i + 4] == ']' && s[i + 6] == '#');
        if mark_at(s, i - 2) {
            assert(s.subrange(i - 2, i + 5)[2] == s[i]);
        }
        if mark_at(s, i + 2) {
            assert(s.subrange(i + 2, i + 9)[0] == s[i + 2]);
        }
        assert(s[i + 1] == ' ' && s[i + 5] == ' ');
        assert(s.subrange(i, i + 7) =~= checked_mark());
        assert(mark_at(s, i));
    }
}

/// Unchecking twice is unchecking once.
pub proof fn lemma_uncheck_idempotent(s: Seq<char>)
    ensures
        uncheck(uncheck(s)) == uncheck(s),
{
    assert forall|k: int| 0 <= k < uncheck(s).len() implies uncheck(uncheck(s))[k] == uncheck(s)[k] by {
        lemma_no_mark_after_uncheck(s, k - 3);
    }
    assert(uncheck(uncheck(s)) =~= uncheck(s));
}

/// A line of the new checklist keeps a check mark only through an earlier
/// marked line that, unchecked, equals it whole: the line comes out changed
/// exactly when some marked earlier line differs from it and unchecks to it,
/// and then it comes out as such an earlier line. So a line whose id, author
/// or date differs from every checked earlier line comes out unchanged.
pub proof fn lemma_reconcile_line_exact(line: Seq<char>, olds: Seq<Seq<char>>, marks: Seq<bool>)
    requires
        olds.len() == marks.len(),
    ensures
        (reconcile_line(line, olds, marks) != line) == (exists|j: int|
            0 <= j < olds.len() && marks[j] && uncheck(#[trigger] olds[j]) == line && olds[j] != line),
        reconcile_line(line, olds, marks) != line ==> exists|j: int|
            0 <= j < olds.len() && marks[j] && uncheck(#[trigger] olds[j]) == line
                && reconcile_line(line, olds, marks) == olds[j],
    decreases olds.len(),
{
    if olds.len() > 0 {
        let n = olds.len() - 1;
        let po = olds.drop_last();
        let pm = marks.drop_last();
        lemma_reconcile_line_exact(line, po, pm);
        let cur = reconcile_line(line, po, pm);
        assert forall|j: int| 0 <= j < n implies olds[j] == #[trigger] po[j] && marks[j] == pm[j] by {}
        if cur != line {
            let j0 = choose|j: int| 0 <= j < po.len() && pm[j] && uncheck(#[trigger] po[j]) == line && cur == po[j];
            assert(olds[j0] == po[j0]);
            if marks.last() && cur == uncheck(olds.last()) {
                lemma_uncheck_idempotent(olds.last());
                assert(false);
            }
        } else {
            if marks.last() && cur == uncheck(olds.last()) && olds.last() != line {
                assert(olds[n] == olds.last());
            }
            if exists|j: int| 0 <= j < olds.len() && marks[j] && uncheck(#[trigger] olds[j]) == line && olds[j] != line {
                let j1 = choose|j: int| 0 <= j < olds.len() && marks[j] && uncheck(#[trigger] olds[j]) == line && olds[j] != line;
                if j1 < n {
                    assert(po[j1] == olds[j1]);
                }
            }
        }
    }
}

} // verus!
