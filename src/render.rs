//! The checklist text of a resolved forest: one task line per pull request,
//! nested ones indented by two spaces.

use vstd::prelude::*;
use crate::model::{EntryModel, PrEntry, PrTree, TreeModel, forest_model};
use crate::text::{chars_of, decimal, decimal_chars, push_char, push_chars};

verus! {

/// The number shown for an entry; an entry without one shows zero.
pub open spec fn shown_id(e: EntryModel) -> nat {
    match e.id {
        Some(n) => n as nat,
        None => 0,
    }
}

/// `- [ ] #<id> @<author> <date>`
pub open spec fn entry_line(e: EntryModel) -> Seq<char> {
    seq!['-', ' ', '[', ' ', ']', ' ', '#'] + decimal(shown_id(e)) + seq![' ', '@'] + e.author + seq![' ']
        + e.date
}

/// The lines of the children of one tree, each indented and ended.
pub open spec fn children_text(cs: Seq<EntryModel>) -> Seq<char>
    decreases cs.len(),
{
    if cs.len() == 0 {
        Seq::empty()
    } else {
        children_text(cs.drop_last()) + seq![' ', ' '] + entry_line(cs.last()) + seq!['\n']
    }
}

pub open spec fn tree_text(t: TreeModel) -> Seq<char> {
    entry_line(t.head) + seq!['\n'] + children_text(t.children)
}

/// The checklist of a forest, tree after tree.
pub open spec fn render_spec(f: Seq<TreeModel>) -> Seq<char>
    decreases f.len(),
{
    if f.len() == 0 {
        Seq::empty()
    } else {
        render_spec(f.drop_last()) + tree_text(f.last())
    }
}

fn push_entry_line(s: &mut String, e: &PrEntry)
    ensures
        final(s)@ == old(s)@ + entry_line(e@),
{
    let open = vec!['-', ' ', '[', ' ', ']', ' ', '#'];
    push_chars(s, &open);
    push_chars(s, &decimal_chars(match e.id { Some(n) => n, None => 0 }));
    push_char(s, ' ');
    push_char(s, '@');
    push_chars(s, &chars_of(e.author.as_str()));
    push_char(s, ' ');
    push_chars(s, &chars_of(e.date.as_str()));
    assert(s@ =~= old(s)@ + entry_line(e@));
}

fn push_tree(s: &mut String, t: &PrTree)
    ensures
        final(s)@ == old(s)@ + tree_text(t@),
{
    push_entry_line(s, &t.head);
    push_char(s, '\n');
    let ghost base = s@;
    let ghost cm = t@.children;
    let mut i: usize = 0;
    assert(cm.subrange(0, 0) =~= Seq::<EntryModel>::empty());
    assert(base =~= base + children_text(cm.subrange(0, 0)));
    while i < t.children.len()
        invariant
            cm == t@.children,
            i <= t.children@.len(),
            s@ == base + children_text(cm.subrange(0, i as int)),
        decreases t.children@.len() - i,
    {
        assert(cm.subrange(0, i + 1).drop_last() =~= cm.subrange(0, i as int));
        assert(cm.subrange(0, i + 1).last() == t.children@[i as int]@);
        push_char(s, ' ');
        push_char(s, ' ');
        push_entry_line(s, &t.children[i]);
        push_char(s, '\n');
        i = i + 1;
        assert(s@ =~= base + children_text(cm.subrange(0, i as int)));
    }
    assert(cm.subrange(0, t.children@.len() as int) =~= cm);
    assert(s@ =~= old(s)@ + tree_text(t@));
}

/// The checklist text of a forest.
pub fn render(forest: &Vec<PrTree>) -> (r: String)
    ensures
        r@ == render_spec(forest_model(forest@)),
{
    let ghost fm = forest_model(forest@);
    let mut s = String::new();
    let mut i: usize = 0;
    assert(fm.subrange(0, 0) =~= Seq::<TreeModel>::empty());
    while i < forest.len()
        invariant
            fm == forest_model(forest@),
            i <= forest@.len(),
            s@ == render_spec(fm.subrange(0, i as int)),
        decreases forest@.len() - i,
    {
        assert(fm.subrange(0, i + 1).drop_last() =~= fm.subrange(0, i as int));
        assert(fm.subrange(0, i + 1).last() == forest@[i as int]@);
        push_tree(&mut s, &forest[i]);
        i = i + 1;
    }
    assert(fm.subrange(0, forest@.len() as int) =~= fm);
    s
}

/// Rendering depends on the forest's content alone: two forests with the same
/// model render to the same text.
pub proof fn lemma_render_deterministic(a: Seq<PrTree>, b: Seq<PrTree>)
    requires
        forest_model(a) == forest_model(b),
    ensures
        render_spec(forest_model(a)) == render_spec(forest_model(b)),
{
}

} // verus!
