//! Reading merge records from commit-log lines, and grouping them into a
//! forest of top-level merges, each with the merges nested under it.

use vstd::prelude::*;
use crate::model::{CoreError, EntryModel, MergeRecord, PrEntry, PrTree, RecordModel, TreeModel, entries_model, forest_model};
use crate::text::{chars_of, string_of};

verus! {

/// Characters that separate the words of a commit-log line.
pub open spec fn is_blank(c: char) -> bool {
    c == ' ' || c == '\t' || c == '\r' || c == '\n'
}

/// Scans a log line from the left: the finished words and the word being read.
/// Quote characters are dropped; blanks end a word.
pub open spec fn word_scan(s: Seq<char>) -> (Seq<Seq<char>>, Seq<char>)
    decreases s.len(),
{
    if s.len() == 0 {
        (Seq::empty(), Seq::empty())
    } else {
        let prev = word_scan(s.drop_last());
        let c = s.last();
        if c == '\'' {
            prev
        } else if is_blank(c) {
            if prev.1.len() > 0 {
                (prev.0.push(prev.1), Seq::empty())
            } else {
                (prev.0, Seq::empty())
            }
        } else {
            (prev.0, prev.1.push(c))
        }
    }
}

/// The words of a log line.
pub open spec fn log_words(s: Seq<char>) -> Seq<Seq<char>> {
    let sc = word_scan(s);
    if sc.1.len() > 0 { sc.0.push(sc.1) } else { sc.0 }
}

pub open spec fn strings_model(v: Seq<String>) -> Seq<Seq<char>> {
    v.map_values(|w: String| w@)
}

/// The words of a log line.
pub fn split_log_words(line: &str) -> (r: Vec<String>)
    ensures
        strings_model(r@) == log_words(line@),
{
    let cs = chars_of(line);
    let mut done: Vec<String> = Vec::new();
    let mut cur: Vec<char> = Vec::new();
    let mut i: usize = 0;
    while i < cs.len()
        invariant
            cs@ == line@,
            i <= cs@.len(),
            (strings_model(done@), cur@) == word_scan(line@.subrange(0, i as int)),
        decreases cs@.len() - i,
    {
        let c = cs[i];
        proof {
            assert(line@.subrange(0, i + 1).drop_last() =~= line@.subrange(0, i as int));
        }
        if c == '\'' {
        } else if c == ' ' || c == '\t' || c == '\r' || c == '\n' {
            if cur.len() > 0 {
                let ghost d0 = done@;
                let w = string_of(&cur);
                done.push(w);
                cur = Vec::new();
                assert(strings_model(done@) =~= strings_model(d0).push(w@));
            }
        } else {
            cur.push(c);
        }
        i = i + 1;
    }
    assert(line@.subrange(0, cs@.len() as int) =~= line@);
    if cur.len() > 0 {
        let ghost d0 = done@;
        let w = string_of(&cur);
        done.push(w);
        assert(strings_model(done@) =~= strings_model(d0).push(w@));
    }
    done
}

/// The record that a log line holds: all words but the last are parent
/// hashes, the last is the commit date. A merge has at least two parents.
pub open spec fn parse_record_spec(s: Seq<char>) -> Option<RecordModel> {
    let w = log_words(s);
    if w.len() < 3 {
        None
    } else {
        Some(RecordModel { parents: w.subrange(0, w.len() - 1), date: w.last() })
    }
}

/// Reads one commit-log line of the form `'<parent> <parent> <date>'`.
pub fn parse_merge_record(line: &str) -> (r: Result<MergeRecord, CoreError>)
    ensures
        match r {
            Ok(rec) => parse_record_spec(line@) == Some(rec@) && rec.well_formed(),
            Err(e) => parse_record_spec(line@) is None && e == CoreError::UnparseableLogLine,
        },
{
    let mut words = split_log_words(line);
    if words.len() < 3 {
        return Err(CoreError::UnparseableLogLine);
    }
    let date = words.pop().unwrap();
    let rec = MergeRecord { parents: words, date };
    assert(rec@.parents =~= log_words(line@).subrange(0, log_words(line@).len() - 1));
    Ok(rec)
}

/// Whether two strings hold the same characters.
pub fn same_text(a: &String, b: &String) -> (r: bool)
    ensures
        r == (a@ == b@),
{
    a.eq(b)
}

/// Whether two records have the same parents and the same date.
pub fn same_record(a: &MergeRecord, b: &MergeRecord) -> (r: bool)
    ensures
        r == (a@ == b@),
{
    if !same_text(&a.date, &b.date) || a.parents.len() != b.parents.len() {
        proof {
            if a@ == b@ {
                assert(a@.parents.len() == a.parents@.len());
            }
        }
        return false;
    }
    let mut i: usize = 0;
    while i < a.parents.len()
        invariant
            a.parents@.len() == b.parents@.len(),
            a.date@ == b.date@,
            i <= a.parents@.len(),
            forall|k: int| 0 <= k < i ==> a.parents@[k]@ == b.parents@[k]@,
        decreases a.parents@.len() - i,
    {
        if !same_text(&a.parents[i], &b.parents[i]) {
            proof {
                if a@ == b@ {
                    assert(a@.parents[i as int] == a.parents@[i as int]@);
                }
            }
            return false;
        }
        i = i + 1;
    }
    assert(a@.parents =~= b@.parents);
    true
}

pub open spec fn records_model(v: Seq<MergeRecord>) -> Seq<RecordModel> {
    v.map_values(|r: MergeRecord| r@)
}

/// Whether `list` holds a record equal to `rec`.
pub fn contains_record(list: &Vec<MergeRecord>, rec: &MergeRecord) -> (r: bool)
    ensures
        r == records_model(list@).contains(rec@),
{
    let mut i: usize = 0;
    while i < list.len()
        invariant
            i <= list@.len(),
            forall|k: int| 0 <= k < i ==> list@[k]@ != rec@,
        decreases list@.len() - i,
    {
        if same_record(&list[i], rec) {
            assert(records_model(list@)[i as int] == rec@);
            return true;
        }
        i = i + 1;
    }
    proof {
        if records_model(list@).contains(rec@) {
            let k = choose|k: int| 0 <= k < records_model(list@).len() && records_model(list@)[k] == rec@;
            assert(list@[k]@ == rec@);
        }
    }
    false
}

/// The unresolved entry for a merge: the merged-in branch tip is its second parent.
pub open spec fn entry_of(r: RecordModel) -> EntryModel {
    EntryModel { id: None, date: r.date, author: Seq::empty(), hash: r.parents[1] }
}

/// Record `i` starts a new top-level entry: it is on the first-parent chain,
/// or it comes first, so that nothing is dropped before resolution.
pub open spec fn is_top(all: Seq<RecordModel>, first_parent: Seq<RecordModel>, i: int) -> bool {
    i == 0 || first_parent.contains(all[i])
}

/// The forest of `all`: each top-level record opens a tree, each other record
/// joins the children of the latest tree.
pub open spec fn build_spec(all: Seq<RecordModel>, first_parent: Seq<RecordModel>) -> Seq<TreeModel>
    decreases all.len(),
{
    if all.len() == 0 {
        Seq::empty()
    } else {
        let f = build_spec(all.drop_last(), first_parent);
        let e = entry_of(all.last());
        if is_top(all, first_parent, all.len() - 1) {
            f.push(TreeModel { head: e, children: Seq::empty() })
        } else {
            f.update(f.len() - 1, TreeModel { head: f.last().head, children: f.last().children.push(e) })
        }
    }
}

fn new_entry(rec: &MergeRecord) -> (e: PrEntry)
    requires
        rec.well_formed(),
    ensures
        e@ == entry_of(rec@),
{
    let e = PrEntry { id: None, date: rec.date.clone(), author: String::new(), hash: rec.parents[1].clone() };
    assert(e@.author =~= Seq::<char>::empty());
    e
}

/// Groups the merges between two branches into top-level merges (those of the
/// first-parent chain) and the merges nested under each.
pub fn build_forest(all: &Vec<MergeRecord>, first_parent: &Vec<MergeRecord>) -> (r: Vec<PrTree>)
    requires
        forall|i: int| 0 <= i < all@.len() ==> (#[trigger] all@[i]).well_formed(),
    ensures
        forest_model(r@) == build_spec(records_model(all@), records_model(first_parent@)),
{
    let ghost alls = records_model(all@);
    let ghost fps = records_model(first_parent@);
    let mut f: Vec<PrTree> = Vec::new();
    let mut i: usize = 0;
    while i < all.len()
        invariant
            alls == records_model(all@),
            fps == records_model(first_parent@),
            forall|k: int| 0 <= k < all@.len() ==> (#[trigger] all@[k]).well_formed(),
            i <= all@.len(),
            forest_model(f@) == build_spec(alls.subrange(0, i as int), fps),
            i > 0 ==> f@.len() > 0,
        decreases all@.len() - i,
    {
        let ghost pre = alls.subrange(0, i as int);
        let ghost cur = alls.subrange(0, i + 1);
        assert(cur.drop_last() =~= pre);
        assert(cur.last() == all@[i as int]@);
        let e = new_entry(&all[i]);
        let top = i == 0 || contains_record(first_parent, &all[i]);
        assert(top == is_top(cur, fps, i as int));
        if top {
            let ghost f0 = f@;
            let children: Vec<PrEntry> = Vec::new();
            assert(entries_model(children@) =~= Seq::<EntryModel>::empty());
            f.push(PrTree { head: e, children });
            assert(forest_model(f@) =~= forest_model(f0).push(f@.last()@));
        } else {
            let ghost f0 = f@;
            let mut t = f.pop().unwrap();
            let ghost t0 = t;
            t.children.push(e);
            assert(entries_model(t.children@) =~= entries_model(t0.children@).push(e@));
            f.push(t);
            assert(forest_model(f@) =~= forest_model(f0).update(f0.len() - 1, t@));
        }
        i = i + 1;
    }
    assert(alls.subrange(0, all@.len() as int) =~= alls);
    f
}

/// How many of the first `n` records start a top-level entry.
pub open spec fn count_tops(all: Seq<RecordModel>, first_parent: Seq<RecordModel>, n: int) -> int
    decreases n,
{
    if n <= 0 {
        0
    } else {
        count_tops(all, first_parent, n - 1) + if is_top(all, first_parent, n - 1) { 1int } else { 0int }
    }
}

/// The latest record at or before `i` that starts a top-level entry.
pub open spec fn nearest_top(all: Seq<RecordModel>, first_parent: Seq<RecordModel>, i: int) -> int
    decreases i,
{
    if i <= 0 {
        0
    } else if is_top(all, first_parent, i) {
        i
    } else {
        nearest_top(all, first_parent, i - 1)
    }
}

proof fn lemma_nearest_top(all: Seq<RecordModel>, fp: Seq<RecordModel>, i: int)
    requires
        0 <= i,
    ensures
        0 <= nearest_top(all, fp, i) <= i,
        is_top(all, fp, nearest_top(all, fp, i)),
        forall|m: int| nearest_top(all, fp, i) < m <= i ==> !is_top(all, fp, m),
    decreases i,
{
    if i > 0 && !is_top(all, fp, i) {
        lemma_nearest_top(all, fp, i - 1);
    }
}

proof fn lemma_prefix_stable(all: Seq<RecordModel>, fp: Seq<RecordModel>, m: int)
    requires
        all.len() > 0,
        0 <= m < all.len(),
    ensures
        count_tops(all.drop_last(), fp, m) == count_tops(all, fp, m),
        nearest_top(all.drop_last(), fp, m) == nearest_top(all, fp, m) || m == all.len() - 1,
    decreases m,
{
    if m > 0 {
        lemma_prefix_stable(all, fp, m - 1);
    }
}

proof fn lemma_count_monotone(all: Seq<RecordModel>, fp: Seq<RecordModel>, i: int, j: int)
    requires
        0 <= i <= j,
    ensures
        count_tops(all, fp, i) <= count_tops(all, fp, j),
        i < j && is_top(all, fp, i) ==> count_tops(all, fp, i) < count_tops(all, fp, j),
    decreases j - i,
{
    if i < j {
        lemma_count_monotone(all, fp, i, j - 1);
    }
}

pub open spec fn top_placed(all: Seq<RecordModel>, fp: Seq<RecordModel>, i: int) -> bool {
    let k = count_tops(all, fp, i);
    &&& 0 <= k < build_spec(all, fp).len()
    &&& build_spec(all, fp)[k].head == entry_of(all[i])
}

pub open spec fn child_placed(all: Seq<RecordModel>, fp: Seq<RecordModel>, i: int) -> bool {
    let j = nearest_top(all, fp, i);
    let k = count_tops(all, fp, j);
    &&& 0 <= k < build_spec(all, fp).len()
    &&& 0 <= i - j - 1 < build_spec(all, fp)[k].children.len()
    &&& build_spec(all, fp)[k].children[i - j - 1] == entry_of(all[i])
}

proof fn lemma_build_shape(all: Seq<RecordModel>, fp: Seq<RecordModel>)
    ensures
        build_spec(all, fp).len() == count_tops(all, fp, all.len() as int),
        forall|i: int| 0 <= i < all.len() && is_top(all, fp, i) ==> #[trigger] top_placed(all, fp, i),
        forall|i: int| 0 <= i < all.len() && !is_top(all, fp, i) ==> #[trigger] child_placed(all, fp, i),
        all.len() > 0 ==> {
            let j = nearest_top(all, fp, all.len() - 1);
            &&& count_tops(all, fp, j) == build_spec(all, fp).len() - 1
            &&& build_spec(all, fp).last().children.len() == all.len() - 1 - j
        },
    decreases all.len(),
{
    if all.len() > 0 {
        let pre = all.drop_last();
        let l = all.len() - 1;
        let b = build_spec(all, fp);
        let bp = build_spec(pre, fp);
        let e = entry_of(all[l]);
        lemma_build_shape(pre, fp);
        lemma_prefix_stable(all, fp, l);
        lemma_nearest_top(all, fp, l);
        if l > 0 {
            lemma_prefix_stable(all, fp, l - 1);
            lemma_nearest_top(pre, fp, l - 1);
            lemma_count_monotone(pre, fp, 1, l);
            assert(count_tops(pre, fp, 0) == 0);
            assert(count_tops(pre, fp, 1) == 1);
            assert(bp.len() >= 1);
        }
        assert(count_tops(all, fp, all.len() as int) == count_tops(all, fp, l) + if is_top(all, fp, l) { 1int } else { 0int });
        if is_top(all, fp, l) {
            assert(b == bp.push(TreeModel { head: e, children: Seq::empty() }));
        } else {
            assert(b == bp.update(bp.len() - 1, TreeModel { head: bp.last().head, children: bp.last().children.push(e) }));
            assert(nearest_top(all, fp, l) == nearest_top(all, fp, l - 1));
            lemma_prefix_stable(all, fp, nearest_top(all, fp, l));
        }
        assert forall|i: int| 0 <= i < all.len() && is_top(all, fp, i) implies #[trigger] top_placed(all, fp, i) by {
            lemma_prefix_stable(all, fp, i);
            if i < l {
                assert(pre[i] == all[i]);
                assert(top_placed(pre, fp, i));
                lemma_count_monotone(all, fp, i, l);
            }
        }
        assert forall|i: int| 0 <= i < all.len() && !is_top(all, fp, i) implies #[trigger] child_placed(all, fp, i) by {
            lemma_prefix_stable(all, fp, i);
            lemma_nearest_top(all, fp, i);
            let j = nearest_top(all, fp, i);
            lemma_prefix_stable(all, fp, j);
            if i < l {
                assert(pre[i] == all[i]);
                assert(!is_top(pre, fp, i));
                assert(child_placed(pre, fp, i));
                assert(nearest_top(pre, fp, i) == j);
            }
        }
    }
}

/// Every record of the first-parent view becomes the head of a top-level
/// entry, and the top-level entries keep the order of the full merge list:
/// record `i` heads tree number `count_tops(.., i)`, and that number grows
/// strictly from one top-level record to the next.
pub proof fn lemma_mainline_records_are_top_level(all: Seq<RecordModel>, first_parent: Seq<RecordModel>)
    ensures
        build_spec(all, first_parent).len() == count_tops(all, first_parent, all.len() as int),
        forall|i: int|
            0 <= i < all.len() && #[trigger] first_parent.contains(all[i]) ==> {
                let k = count_tops(all, first_parent, i);
                &&& 0 <= k < build_spec(all, first_parent).len()
                &&& build_spec(all, first_parent)[k].head == entry_of(all[i])
            },
        forall|i: int, j: int|
            0 <= i < j < all.len() && #[trigger] first_parent.contains(all[i])
                && #[trigger] first_parent.contains(all[j]) ==> count_tops(all, first_parent, i)
                < count_tops(all, first_parent, j),
{
    lemma_build_shape(all, first_parent);
    assert forall|i: int| 0 <= i < all.len() && #[trigger] first_parent.contains(all[i]) implies {
        let k = count_tops(all, first_parent, i);
        &&& 0 <= k < build_spec(all, first_parent).len()
        &&& build_spec(all, first_parent)[k].head == entry_of(all[i])
    } by {
        assert(top_placed(all, first_parent, i));
    }
    assert forall|i: int, j: int|
        0 <= i < j < all.len() && #[trigger] first_parent.contains(all[i])
            && #[trigger] first_parent.contains(all[j]) implies count_tops(all, first_parent, i)
            < count_tops(all, first_parent, j) by {
        lemma_count_monotone(all, first_parent, i, j);
    }
}

/// A record that is not in the first-parent view is kept: the first record
/// heads a tree of its own; any later one is a child, at position `i - j - 1`,
/// of the tree headed by the nearest preceding top-level record `j`.
pub proof fn lemma_nested_records_join_nearest_top(all: Seq<RecordModel>, first_parent: Seq<RecordModel>)
    ensures
        all.len() > 0 && !first_parent.contains(all[0]) ==> build_spec(all, first_parent)[0].head
            == entry_of(all[0]),
        forall|i: int|
            0 < i < all.len() && !(#[trigger] first_parent.contains(all[i])) ==> {
                let j = nearest_top(all, first_parent, i);
                let k = count_tops(all, first_parent, j);
                &&& 0 <= j < i
                &&& is_top(all, first_parent, j)
                &&& (forall|m: int| j < m <= i ==> !is_top(all, first_parent, m))
                &&& 0 <= k < build_spec(all, first_parent).len()
                &&& build_spec(all, first_parent)[k].head == entry_of(all[j])
                &&& build_spec(all, first_parent)[k].children[i - j - 1] == entry_of(all[i])
            },
{
    lemma_build_shape(all, first_parent);
    if all.len() > 0 {
        assert(top_placed(all, first_parent, 0));
    }
    assert forall|i: int| 0 < i < all.len() && !(#[trigger] first_parent.contains(all[i])) implies {
        let j = nearest_top(all, first_parent, i);
        let k = count_tops(all, first_parent, j);
        &&& 0 <= j < i
        &&& is_top(all, first_parent, j)
        &&& (forall|m: int| j < m <= i ==> !is_top(all, first_parent, m))
        &&& 0 <= k < build_spec(all, first_parent).len()
        &&& build_spec(all, first_parent)[k].head == entry_of(all[j])
        &&& build_spec(all, first_parent)[k].children[i - j - 1] == entry_of(all[i])
    } by {
        lemma_nearest_top(all, first_parent, i);
        assert(child_placed(all, first_parent, i));
        assert(top_placed(all, first_parent, nearest_top(all, first_parent, i)));
    }
}

proof fn lemma_count_gap(all: Seq<RecordModel>, fp: Seq<RecordModel>, i: int, m: int)
    requires
        0 <= i < m,
        is_top(all, fp, i),
        forall|k: int| i < k < m ==> !is_top(all, fp, k),
    ensures
        count_tops(all, fp, m) == count_tops(all, fp, i) + 1,
    decreases m - i,
{
    if m > i + 1 {
        lemma_count_gap(all, fp, i, m - 1);
    }
}

/// Where the first record is on the first-parent chain, the heads of the
/// forest are exactly the records of the first-parent view, in the order of
/// the full merge list.
pub proof fn lemma_top_level_heads_in_order(all: Seq<RecordModel>, first_parent: Seq<RecordModel>)
    requires
        all.len() == 0 || first_parent.contains(all[0]),
    ensures
        build_spec(all, first_parent).map_values(|t: TreeModel| t.head)
            == all.filter(|r: RecordModel| first_parent.contains(r)).map_values(|r: RecordModel| entry_of(r)),
    decreases all.len(),
{
    if all.len() > 0 {
        let pre = all.drop_last();
        let l = all.len() - 1;
        if l > 0 {
            assert(pre[0] == all[0]);
        }
        lemma_top_level_heads_in_order(pre, first_parent);
        lemma_build_shape(pre, first_parent);
        let b = build_spec(all, first_parent);
        let bp = build_spec(pre, first_parent);
        let fa = all.filter(|r: RecordModel| first_parent.contains(r));
        let fpre = pre.filter(|r: RecordModel| first_parent.contains(r));
        reveal(Seq::filter);
        assert(fa == if first_parent.contains(all.last()) { fpre.push(all.last()) } else { fpre });
        assert(is_top(all, first_parent, l) == first_parent.contains(all.last()));
        if first_parent.contains(all.last()) {
            assert(b.map_values(|t: TreeModel| t.head) =~= bp.map_values(|t: TreeModel| t.head).push(entry_of(all.last())));
            assert(fa.map_values(|r: RecordModel| entry_of(r)) =~= fpre.map_values(|r: RecordModel| entry_of(r)).push(entry_of(all.last())));
        } else {
            lemma_count_monotone(pre, first_parent, 1, l);
            assert(count_tops(pre, first_parent, 0) == 0);
            assert(count_tops(pre, first_parent, 1) == 1);
            assert(b.map_values(|t: TreeModel| t.head) =~= bp.map_values(|t: TreeModel| t.head));
        }
    }
}

/// Each top-level record `i` heads a tree whose children are exactly the
/// records after it up to the next top-level record `j` (or the end), in
/// order.
pub proof fn lemma_children_are_records_until_next_top(all: Seq<RecordModel>, first_parent: Seq<RecordModel>, i: int, j: int)
    requires
        0 <= i < j <= all.len(),
        is_top(all, first_parent, i),
        j == all.len() || is_top(all, first_parent, j),
        forall|m: int| i < m < j ==> !is_top(all, first_parent, m),
    ensures
        0 <= count_tops(all, first_parent, i) < build_spec(all, first_parent).len(),
        build_spec(all, first_parent)[count_tops(all, first_parent, i)].children
            == all.subrange(i + 1, j).map_values(|r: RecordModel| entry_of(r)),
    decreases all.len(),
{
    let n = all.len() as int;
    let l = n - 1;
    let pre = all.drop_last();
    let b = build_spec(all, first_parent);
    let bp = build_spec(pre, first_parent);
    lemma_build_shape(all, first_parent);
    lemma_build_shape(pre, first_parent);
    lemma_prefix_stable(all, first_parent, i);
    lemma_count_monotone(all, first_parent, i, n);
    assert(count_tops(all, first_parent, i + 1) == count_tops(all, first_parent, i) + 1);
    lemma_count_monotone(all, first_parent, i + 1, n);
    assert(pre.len() == l);
    assert forall|m: int| 0 <= m < l implies is_top(pre, first_parent, m) == is_top(all, first_parent, m) by {
        assert(pre[m] == all[m]);
    }
    if l > 0 {
        lemma_prefix_stable(all, first_parent, l - 1);
        lemma_count_monotone(pre, first_parent, 1, l);
        assert(count_tops(pre, first_parent, 0) == 0);
        assert(count_tops(pre, first_parent, 1) == 1);
    }
    lemma_prefix_stable(all, first_parent, l);
    if j < n {
        if j == l {
            assert(is_top(all, first_parent, l));
            if i < l {
                lemma_children_are_records_until_next_top(pre, first_parent, i, l);
                assert(pre.subrange(i + 1, l) =~= all.subrange(i + 1, j));
            } else {
                assert(false);
            }
        } else {
            lemma_children_are_records_until_next_top(pre, first_parent, i, j);
            assert(pre.subrange(i + 1, j) =~= all.subrange(i + 1, j));
            assert(pre[j] == all[j]);
            lemma_prefix_stable(all, first_parent, j);
            lemma_count_monotone(all, first_parent, i, j);
            lemma_count_monotone(all, first_parent, j, l);
        }
    } else if i == l {
        assert(all.subrange(i + 1, j).map_values(|r: RecordModel| entry_of(r)) =~= Seq::<EntryModel>::empty());
    } else {
        assert(!is_top(all, first_parent, l));
        lemma_children_are_records_until_next_top(pre, first_parent, i, l);
        lemma_count_gap(pre, first_parent, i, l);
        assert(pre.subrange(i + 1, l) =~= all.subrange(i + 1, l));
        assert(all.subrange(i + 1, j).map_values(|r: RecordModel| entry_of(r))
            =~= all.subrange(i + 1, l).map_values(|r: RecordModel| entry_of(r)).push(entry_of(all.last())));
    }
}

/// The records of a list of log lines, or the error of the first line that
/// holds none.
pub open spec fn records_spec(lines: Seq<Seq<char>>) -> Result<Seq<RecordModel>, CoreError>
    decreases lines.len(),
{
    if lines.len() == 0 {
        Ok(Seq::empty())
    } else {
        match records_spec(lines.drop_last()) {
            Err(e) => Err(e),
            Ok(v) => match parse_record_spec(lines.last()) {
                Some(r) => Ok(v.push(r)),
                None => Err(CoreError::UnparseableLogLine),
            },
        }
    }
}

proof fn lemma_records_error_stays(ls: Seq<Seq<char>>, n: int, e: CoreError)
    requires
        0 <= n <= ls.len(),
        records_spec(ls.subrange(0, n)) == Err::<Seq<RecordModel>, _>(e),
    ensures
        records_spec(ls) == Err::<Seq<RecordModel>, _>(e),
    decreases ls.len() - n,
{
    if n < ls.len() {
        assert(ls.subrange(0, n + 1).drop_last() =~= ls.subrange(0, n));
        lemma_records_error_stays(ls, n + 1, e);
    } else {
        assert(ls.subrange(0, n) =~= ls);
    }
}

/// Reads every line of a commit log; a line that holds no merge record is an
/// error.
pub fn parse_merge_records(lines: &Vec<String>) -> (r: Result<Vec<MergeRecord>, CoreError>)
    ensures
        match r {
            Ok(v) => records_spec(strings_model(lines@)) == Ok::<_, CoreError>(records_model(v@))
                && forall|i: int| 0 <= i < v@.len() ==> (#[trigger] v@[i]).well_formed(),
            Err(e) => records_spec(strings_model(lines@)) == Err::<Seq<RecordModel>, _>(e),
        },
{
    let ghost ls = strings_model(lines@);
    let mut v: Vec<MergeRecord> = Vec::new();
    let mut i: usize = 0;
    assert(records_model(v@) =~= Seq::<RecordModel>::empty());
    assert(records_spec(ls.subrange(0, 0)) == Ok::<_, CoreError>(Seq::<RecordModel>::empty()));
    while i < lines.len()
        invariant
            ls == strings_model(lines@),
            i <= lines@.len(),
            records_spec(ls.subrange(0, i as int)) == Ok::<_, CoreError>(records_model(v@)),
            forall|k: int| 0 <= k < v@.len() ==> (#[trigger] v@[k]).well_formed(),
        decreases lines@.len() - i,
    {
        let ghost pre = ls.subrange(0, i + 1);
        assert(pre.drop_last() =~= ls.subrange(0, i as int));
        assert(pre.last() == lines@[i as int]@);
        match parse_merge_record(lines[i].as_str()) {
            Err(e) => {
                proof {
                    lemma_records_error_stays(ls, i as int + 1, e);
                }
                return Err(e);
            },
            Ok(rec) => {
                let ghost v0 = v@;
                v.push(rec);
                assert(records_model(v@) =~= records_model(v0).push(rec@));
            },
        }
        i = i + 1;
    }
    assert(ls.subrange(0, lines@.len() as int) =~= ls);
    Ok(v)
}

} // verus!
