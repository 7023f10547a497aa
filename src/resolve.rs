//! Pull-request numbers: reading the remote's pull-request head references,
//! and attaching a number to each entry of the forest by its source hash.

use vstd::prelude::*;
use crate::model::{CoreError, EntryModel, PrEntry, PrTree, TreeModel, entries_model, forest_model};
use crate::forest::strings_model;
use crate::text::chars_of;

verus! {

/// A pull-request head reference: the commit it points at, and its number.
#[derive(Debug, Clone)]
pub struct PrRef {
    pub hash: String,
    pub id: u64,
}

impl View for PrRef {
    type V = (Seq<char>, u64);

    open spec fn view(&self) -> (Seq<char>, u64) {
        (self.hash@, self.id)
    }
}

pub open spec fn refs_model(v: Seq<PrRef>) -> Seq<(Seq<char>, u64)> {
    v.map_values(|r: PrRef| r@)
}

/// The texts of the first two groups that the regular expression `pattern`
/// captures at its first match in `line`; `None` where it does not match or
/// is not a valid expression. A group that takes no part gives empty text.
pub uninterp spec fn regex_captures2(pattern: Seq<char>, line: Seq<char>) -> Option<(Seq<char>, Seq<char>)>;

/// Relies on regex::Regex::new and regex::Regex::captures: the texts of groups
/// one and two of the first match.
#[verifier::external_body]
fn captures2(pattern: &str, line: &str) -> (r: Option<(String, String)>)
    ensures
        match r {
            Some(c) => regex_captures2(pattern@, line@) == Some((c.0@, c.1@)),
            None => regex_captures2(pattern@, line@) is None,
        },
{
    let re = match regex::Regex::new(pattern) {
        Ok(re) => re,
        Err(_) => return None,
    };
    let c = re.captures(line)?;
    let first = c.get(1).map_or("", |m| m.as_str()).to_string();
    let second = c.get(2).map_or("", |m| m.as_str()).to_string();
    Some((first, second))
}

/// A pull-request head reference: a hash, blanks, `refs/pull/<number>/head`.
pub const PULL_REF_PATTERN: &'static str = "^(?P<hash>\\w*)\\s*refs/pull/(?P<prid>\\d+)/head$";

/// The hash and the number text of a reference line, where it is one.
pub open spec fn pull_ref_captures(line: Seq<char>) -> Option<(Seq<char>, Seq<char>)> {
    regex_captures2(PULL_REF_PATTERN@, line)
}

pub open spec fn is_ascii_digit(c: char) -> bool {
    '0' <= c <= '9'
}

pub open spec fn all_ascii_digits(s: Seq<char>) -> bool {
    forall|i: int| 0 <= i < s.len() ==> is_ascii_digit(#[trigger] s[i])
}

/// The number that a string of ASCII digits writes in base ten.
pub open spec fn decimal_value(s: Seq<char>) -> int
    decreases s.len(),
{
    if s.len() == 0 {
        0
    } else {
        decimal_value(s.drop_last()) * 10 + (s.last() as int - '0' as int)
    }
}

/// The number of a pull request, written in ASCII digits that fit in `u64`.
pub open spec fn pr_number_spec(s: Seq<char>) -> Option<u64> {
    if s.len() > 0 && all_ascii_digits(s) && decimal_value(s) <= u64::MAX {
        Some(decimal_value(s) as u64)
    } else {
        None
    }
}

proof fn lemma_decimal_prefix(s: Seq<char>, i: int)
    requires
        0 <= i <= s.len(),
        all_ascii_digits(s),
    ensures
        0 <= decimal_value(s.subrange(0, i)) <= decimal_value(s),
    decreases s.len() - i,
{
    if i < s.len() {
        lemma_decimal_prefix(s, i + 1);
        assert(s.subrange(0, i + 1).drop_last() =~= s.subrange(0, i));
        assert(is_ascii_digit(s[i]));
    } else {
        assert(s.subrange(0, i) =~= s);
    }
    lemma_decimal_nonneg(s.subrange(0, i));
}

proof fn lemma_decimal_nonneg(s: Seq<char>)
    requires
        all_ascii_digits(s),
    ensures
        decimal_value(s) >= 0,
    decreases s.len(),
{
    if s.len() > 0 {
        assert(is_ascii_digit(s.last()));
        assert(all_ascii_digits(s.drop_last())) by {
            assert forall|i: int| 0 <= i < s.drop_last().len() implies is_ascii_digit(#[trigger] s.drop_last()[i]) by {
                assert(s.drop_last()[i] == s[i]);
            }
        }
        lemma_decimal_nonneg(s.drop_last());
    }
}

/// Reads a pull-request number: ASCII digits only, at least one, within `u64`.
pub fn parse_pr_number(s: &str) -> (r: Option<u64>)
    ensures
        r == pr_number_spec(s@),
{
    let cs = chars_of(s);
    if cs.len() == 0 {
        return None;
    }
    let mut i: usize = 0;
    while i < cs.len()
        invariant
            cs@ == s@,
            i <= cs@.len(),
            forall|k: int| 0 <= k < i ==> is_ascii_digit(#[trigger] cs@[k]),
        decreases cs@.len() - i,
    {
        if !('0' <= cs[i] && cs[i] <= '9') {
            return None;
        }
        i = i + 1;
    }
    assert(all_ascii_digits(s@));
    let mut v: u64 = 0;
    i = 0;
    while i < cs.len()
        invariant
            cs@ == s@,
            all_ascii_digits(s@),
            i <= cs@.len(),
            v as int == decimal_value(s@.subrange(0, i as int)),
        decreases cs@.len() - i,
    {
        let ghost pre = s@.subrange(0, i + 1);
        assert(pre.drop_last() =~= s@.subrange(0, i as int));
        assert(is_ascii_digit(cs@[i as int]));
        let d = (cs[i] as u32 - '0' as u32) as u64;
        proof {
            lemma_decimal_prefix(s@, i + 1);
        }
        match v.checked_mul(10) {
            None => {
                return None;
            },
            Some(m) => match m.checked_add(d) {
                None => {
                    return None;
                },
                Some(n) => {
                    v = n;
                },
            },
        }
        i = i + 1;
    }
    assert(s@.subrange(0, cs@.len() as int) =~= s@);
    Some(v)
}

/// What one reference line holds: `Ok(None)` for a line that is not a
/// pull-request head reference, an error where the number does not fit.
pub open spec fn pull_ref_spec(caps: Option<(Seq<char>, Seq<char>)>) -> Result<Option<(Seq<char>, u64)>, CoreError> {
    match caps {
        None => Ok(None),
        Some(c) => match pr_number_spec(c.1) {
            Some(n) => Ok(Some((c.0, n))),
            None => Err(CoreError::UnparseableRefLine),
        },
    }
}

/// Turns the captured groups of a reference line into a reference.
pub fn pull_ref_of(caps: Option<(String, String)>) -> (r: Result<Option<PrRef>, CoreError>)
    ensures
        pull_ref_spec(match caps { Some(c) => Some((c.0@, c.1@)), None => None }) == match r {
            Ok(Some(p)) => Ok(Some(p@)),
            Ok(None) => Ok(None),
            Err(e) => Err(e),
        },
{
    match caps {
        None => Ok(None),
        Some((hash, number)) => match parse_pr_number(number.as_str()) {
            Some(id) => Ok(Some(PrRef { hash, id })),
            None => Err(CoreError::UnparseableRefLine),
        },
    }
}

/// The references that a list of reference lines holds, in order; lines that
/// are not pull-request head references are skipped.
pub open spec fn pull_refs_spec(lines: Seq<Seq<char>>) -> Result<Seq<(Seq<char>, u64)>, CoreError>
    decreases lines.len(),
{
    if lines.len() == 0 {
        Ok(Seq::empty())
    } else {
        match pull_refs_spec(lines.drop_last()) {
            Err(e) => Err(e),
            Ok(v) => match pull_ref_spec(pull_ref_captures(lines.last())) {
                Err(e) => Err(e),
                Ok(None) => Ok(v),
                Ok(Some(p)) => Ok(v.push(p)),
            },
        }
    }
}

/// Reads the pull-request head references listed by the remote, one per line.
pub fn parse_pull_refs(lines: &Vec<String>) -> (r: Result<Vec<PrRef>, CoreError>)
    ensures
        match r {
            Ok(v) => pull_refs_spec(strings_model(lines@)) == Ok::<_, CoreError>(refs_model(v@)),
            Err(e) => pull_refs_spec(strings_model(lines@)) == Err::<Seq<(Seq<char>, u64)>, _>(e),
        },
{
    let ghost ls = strings_model(lines@);
    let mut v: Vec<PrRef> = Vec::new();
    let mut i: usize = 0;
    assert(refs_model(v@) =~= Seq::<(Seq<char>, u64)>::empty());
    assert(pull_refs_spec(ls.subrange(0, 0)) == Ok::<_, CoreError>(Seq::<(Seq<char>, u64)>::empty()));
    while i < lines.len()
        invariant
            ls == strings_model(lines@),
            i <= lines@.len(),
            pull_refs_spec(ls.subrange(0, i as int)) == Ok::<_, CoreError>(refs_model(v@)),
        decreases lines@.len() - i,
    {
        let ghost pre = ls.subrange(0, i + 1);
        assert(pre.drop_last() =~= ls.subrange(0, i as int));
        assert(pre.last() == lines@[i as int]@);
        let caps = captures2(PULL_REF_PATTERN, lines[i].as_str());
        match pull_ref_of(caps) {
            Err(e) => {
                proof {
                    lemma_refs_error_stays(ls, i as int + 1, e);
                }
                return Err(e);
            },
            Ok(None) => {},
            Ok(Some(p)) => {
                let ghost v0 = v@;
                v.push(p);
                assert(refs_model(v@) =~= refs_model(v0).push(p@));
            },
        }
        i = i + 1;
    }
    assert(ls.subrange(0, lines@.len() as int) =~= ls);
    Ok(v)
}

proof fn lemma_refs_error_stays(ls: Seq<Seq<char>>, n: int, e: CoreError)
    requires
        0 <= n <= ls.len(),
        pull_refs_spec(ls.subrange(0, n)) == Err::<Seq<(Seq<char>, u64)>, _>(e),
    ensures
        pull_refs_spec(ls) == Err::<Seq<(Seq<char>, u64)>, _>(e),
    decreases ls.len() - n,
{
    if n < ls.len() {
        assert(ls.subrange(0, n + 1).drop_last() =~= ls.subrange(0, n));
        lemma_refs_error_stays(ls, n + 1, e);
    } else {
        assert(ls.subrange(0, n) =~= ls);
    }
}

/// The number of the first reference, from index `i` on, that points at `hash`.
pub open spec fn lookup_from(refs: Seq<(Seq<char>, u64)>, hash: Seq<char>, i: int) -> Option<u64>
    decreases refs.len() - i,
{
    if i < 0 || i >= refs.len() {
        None
    } else if refs[i].0 == hash {
        Some(refs[i].1)
    } else {
        lookup_from(refs, hash, i + 1)
    }
}

/// The number of the first reference that points at `hash`.
pub open spec fn lookup_ref(refs: Seq<(Seq<char>, u64)>, hash: Seq<char>) -> Option<u64> {
    lookup_from(refs, hash, 0)
}

/// Looks up the pull request whose head is `hash`; the first reference wins.
pub fn find_pr_number(refs: &Vec<PrRef>, hash: &String) -> (r: Option<u64>)
    ensures
        r == lookup_ref(refs_model(refs@), hash@),
{
    let ghost rm = refs_model(refs@);
    let mut i: usize = 0;
    while i < refs.len()
        invariant
            rm == refs_model(refs@),
            i <= refs@.len(),
            lookup_from(rm, hash@, 0) == lookup_from(rm, hash@, i as int),
        decreases refs@.len() - i,
    {
        assert(rm[i as int] == refs@[i as int]@);
        if refs[i].hash.eq(hash) {
            return Some(refs[i].id);
        }
        i = i + 1;
    }
    None
}

/// An entry with the number that the references give it.
/// Zero never names a pull request, so a reference numbered zero gives none.
pub open spec fn resolve_entry(e: EntryModel, refs: Seq<(Seq<char>, u64)>) -> EntryModel {
    EntryModel { id: valid_id(lookup_ref(refs, e.hash)), ..e }
}

/// A looked-up number, where it is not zero.
pub open spec fn valid_id(n: Option<u64>) -> Option<u64> {
    match n {
        Some(k) => if k != 0 { Some(k) } else { None },
        None => None,
    }
}

/// The children that keep a number, each with it, in order.
pub open spec fn resolve_children(cs: Seq<EntryModel>, refs: Seq<(Seq<char>, u64)>) -> Seq<EntryModel>
    decreases cs.len(),
{
    if cs.len() == 0 {
        Seq::empty()
    } else {
        let r = resolve_children(cs.drop_last(), refs);
        let e = resolve_entry(cs.last(), refs);
        if e.id is Some { r.push(e) } else { r }
    }
}

/// The trees whose head keeps a number, each with its resolved children, in
/// order. A tree whose head has no number is dropped with all its children.
pub open spec fn resolve_spec(f: Seq<TreeModel>, refs: Seq<(Seq<char>, u64)>) -> Seq<TreeModel>
    decreases f.len(),
{
    if f.len() == 0 {
        Seq::empty()
    } else {
        let r = resolve_spec(f.drop_last(), refs);
        let h = resolve_entry(f.last().head, refs);
        if h.id is Some {
            r.push(TreeModel { head: h, children: resolve_children(f.last().children, refs) })
        } else {
            r
        }
    }
}

fn resolved_entry(e: &PrEntry, refs: &Vec<PrRef>) -> (r: PrEntry)
    ensures
        r@ == resolve_entry(e@, refs_model(refs@)),
{
    let id = match find_pr_number(refs, &e.hash) {
        Some(n) => if n != 0 { Some(n) } else { None },
        None => None,
    };
    PrEntry { id, date: e.date.clone(), author: e.author.clone(), hash: e.hash.clone() }
}

fn resolve_entries(cs: &Vec<PrEntry>, refs: &Vec<PrRef>) -> (r: Vec<PrEntry>)
    ensures
        entries_model(r@) == resolve_children(entries_model(cs@), refs_model(refs@)),
{
    let ghost cm = entries_model(cs@);
    let mut r: Vec<PrEntry> = Vec::new();
    let mut i: usize = 0;
    while i < cs.len()
        invariant
            cm == entries_model(cs@),
            i <= cs@.len(),
            entries_model(r@) == resolve_children(cm.subrange(0, i as int), refs_model(refs@)),
        decreases cs@.len() - i,
    {
        assert(cm.subrange(0, i + 1).drop_last() =~= cm.subrange(0, i as int));
        assert(cm.subrange(0, i + 1).last() == cs@[i as int]@);
        let e = resolved_entry(&cs[i], refs);
        if e.id.is_some() {
            let ghost r0 = r@;
            r.push(e);
            assert(entries_model(r@) =~= entries_model(r0).push(e@));
        }
        i = i + 1;
    }
    assert(cm.subrange(0, cs@.len() as int) =~= cm);
    r
}

/// Gives every entry the number of the first reference to its source hash,
/// and drops what has none, or only zero: children without a number, and
/// trees whose head has none, with all their children. Every entry left has a
/// number other than zero.
pub fn resolve(forest: &Vec<PrTree>, refs: &Vec<PrRef>) -> (r: Vec<PrTree>)
    ensures
        forest_model(r@) == resolve_spec(forest_model(forest@), refs_model(refs@)),
        forest_resolved(forest_model(r@), refs_model(refs@)),
{
    proof {
        lemma_resolve_idempotent(forest_model(forest@), refs_model(refs@));
    }
    let ghost fm = forest_model(forest@);
    let mut r: Vec<PrTree> = Vec::new();
    let mut i: usize = 0;
    while i < forest.len()
        invariant
            fm == forest_model(forest@),
            i <= forest@.len(),
            forest_model(r@) == resolve_spec(fm.subrange(0, i as int), refs_model(refs@)),
        decreases forest@.len() - i,
    {
        assert(fm.subrange(0, i + 1).drop_last() =~= fm.subrange(0, i as int));
        assert(fm.subrange(0, i + 1).last() == forest@[i as int]@);
        let head = resolved_entry(&forest[i].head, refs);
        if head.id.is_some() {
            let children = resolve_entries(&forest[i].children, refs);
            let t = PrTree { head, children };
            let ghost r0 = r@;
            r.push(t);
            assert(forest_model(r@) =~= forest_model(r0).push(t@));
        }
        i = i + 1;
    }
    assert(fm.subrange(0, forest@.len() as int) =~= fm);
    r
}

/// The entry has the number of the first reference to its source hash, and
/// that number is not zero.
pub open spec fn entry_resolved(e: EntryModel, refs: Seq<(Seq<char>, u64)>) -> bool {
    &&& e.id is Some
    &&& e.id->0 != 0
    &&& e.id == lookup_ref(refs, e.hash)
}

pub open spec fn forest_resolved(f: Seq<TreeModel>, refs: Seq<(Seq<char>, u64)>) -> bool {
    forall|k: int| 0 <= k < f.len() ==> {
        &&& entry_resolved(#[trigger] f[k].head, refs)
        &&& forall|c: int| 0 <= c < f[k].children.len() ==> entry_resolved(#[trigger] f[k].children[c], refs)
    }
}

proof fn lemma_children_resolved(cs: Seq<EntryModel>, refs: Seq<(Seq<char>, u64)>)
    ensures
        resolve_children(resolve_children(cs, refs), refs) == resolve_children(cs, refs),
        forall|c: int| 0 <= c < resolve_children(cs, refs).len() ==> entry_resolved(#[trigger] resolve_children(cs, refs)[c], refs),
    decreases cs.len(),
{
    if cs.len() > 0 {
        lemma_children_resolved(cs.drop_last(), refs);
        let r = resolve_children(cs.drop_last(), refs);
        let e = resolve_entry(cs.last(), refs);
        if e.id is Some {
            assert(r.push(e).drop_last() =~= r);
        }
    }
}

/// Resolving is idempotent: resolving the result again with the same
/// references changes nothing. Every entry left, at both levels, has a number
/// other than zero, the one of the first reference to its source hash; entries
/// without such a reference are gone.
pub proof fn lemma_resolve_idempotent(f: Seq<TreeModel>, refs: Seq<(Seq<char>, u64)>)
    ensures
        resolve_spec(resolve_spec(f, refs), refs) == resolve_spec(f, refs),
        forest_resolved(resolve_spec(f, refs), refs),
    decreases f.len(),
{
    if f.len() > 0 {
        lemma_resolve_idempotent(f.drop_last(), refs);
        lemma_children_resolved(f.last().children, refs);
        let r = resolve_spec(f.drop_last(), refs);
        let h = resolve_entry(f.last().head, refs);
        if h.id is Some {
            let t = TreeModel { head: h, children: resolve_children(f.last().children, refs) };
            assert(r.push(t).drop_last() =~= r);
            assert(resolve_entry(h, refs) == h);
        }
    }
}

} // verus!
