//! Character-level helpers: strings as sequences of characters, decimal
//! numbers, and splitting text into lines and words.

use vstd::prelude::*;
use vstd::string::*;

verus! {

/// The ASCII decimal digit of `d` (a value below ten).
pub open spec fn digit_char(d: nat) -> char {
    if d == 0 { '0' } else if d == 1 { '1' } else if d == 2 { '2' } else if d == 3 { '3' }
    else if d == 4 { '4' } else if d == 5 { '5' } else if d == 6 { '6' } else if d == 7 { '7' }
    else if d == 8 { '8' } else { '9' }
}

/// The decimal notation of `n`, without sign or leading zeros.
pub open spec fn decimal(n: nat) -> Seq<char>
    decreases n,
{
    if n < 10 {
        seq![digit_char(n)]
    } else {
        decimal(n / 10).push(digit_char(n % 10))
    }
}

/// Relies on String::push: the character is appended at the end.
#[verifier::external_body]
pub(crate) fn push_char(s: &mut String, c: char)
    ensures
        final(s)@ == old(s)@.push(c),
{
    s.push(c)
}

/// The characters of `s`, in order.
pub fn chars_of(s: &str) -> (r: Vec<char>)
    ensures
        r@ == s@,
{
    let n = s.unicode_len();
    let mut r: Vec<char> = Vec::new();
    let mut i: usize = 0;
    while i < n
        invariant
            n == s@.len(),
            i <= n,
            r@ == s@.subrange(0, i as int),
        decreases n - i,
    {
        r.push(s.get_char(i));
        i = i + 1;
        assert(r@ =~= s@.subrange(0, i as int));
    }
    assert(r@ =~= s@);
    r
}

/// Appends the characters of `cs` to `s`.
pub fn push_chars(s: &mut String, cs: &Vec<char>)
    ensures
        final(s)@ == old(s)@ + cs@,
{
    let mut i: usize = 0;
    while i < cs.len()
        invariant
            i <= cs@.len(),
            s@ == old(s)@ + cs@.subrange(0, i as int),
        decreases cs@.len() - i,
    {
        push_char(s, cs[i]);
        i = i + 1;
        assert(s@ =~= old(s)@ + cs@.subrange(0, i as int));
    }
    assert(cs@.subrange(0, cs@.len() as int) =~= cs@);
}

/// The string made of the characters of `cs`.
pub fn string_of(cs: &Vec<char>) -> (r: String)
    ensures
        r@ == cs@,
{
    let mut r = String::new();
    push_chars(&mut r, cs);
    assert(r@ =~= cs@);
    r
}

fn digit_of(d: u64) -> (c: char)
    requires
        d < 10,
    ensures
        c == digit_char(d as nat),
{
    if d == 0 { '0' } else if d == 1 { '1' } else if d == 2 { '2' } else if d == 3 { '3' }
    else if d == 4 { '4' } else if d == 5 { '5' } else if d == 6 { '6' } else if d == 7 { '7' }
    else if d == 8 { '8' } else { '9' }
}

/// The decimal notation of `n`.
pub fn decimal_chars(n: u64) -> (r: Vec<char>)
    ensures
        r@ == decimal(n as nat),
    decreases n,
{
    if n < 10 {
        let mut r: Vec<char> = Vec::new();
        r.push(digit_of(n));
        assert(r@ =~= seq![digit_char(n as nat)]);
        r
    } else {
        let mut r = decimal_chars(n / 10);
        r.push(digit_of(n % 10));
        r
    }
}

/// Splits at `sep`: the finished pieces and the piece being read.
pub open spec fn split_scan(s: Seq<char>, sep: char) -> (Seq<Seq<char>>, Seq<char>)
    decreases s.len(),
{
    if s.len() == 0 {
        (Seq::empty(), Seq::empty())
    } else {
        let prev = split_scan(s.drop_last(), sep);
        if s.last() == sep {
            (prev.0.push(prev.1), Seq::empty())
        } else {
            (prev.0, prev.1.push(s.last()))
        }
    }
}

/// The pieces of `s` between occurrences of `sep`: one more than there are
/// occurrences, empty ones included.
pub open spec fn pieces(s: Seq<char>, sep: char) -> Seq<Seq<char>> {
    split_scan(s, sep).0.push(split_scan(s, sep).1)
}

/// The pieces of `s` between occurrences of `sep`.
pub fn split_chars(s: &Vec<char>, sep: char) -> (r: Vec<Vec<char>>)
    ensures
        r@.map_values(|l: Vec<char>| l@) == pieces(s@, sep),
{
    let mut done: Vec<Vec<char>> = Vec::new();
    let mut cur: Vec<char> = Vec::new();
    let mut i: usize = 0;
    assert(done@.map_values(|l: Vec<char>| l@) =~= Seq::<Seq<char>>::empty());
    assert(s@.subrange(0, 0) =~= Seq::<char>::empty());
    while i < s.len()
        invariant
            i <= s@.len(),
            (done@.map_values(|l: Vec<char>| l@), cur@) == split_scan(s@.subrange(0, i as int), sep),
        decreases s@.len() - i,
    {
        assert(s@.subrange(0, i + 1).drop_last() =~= s@.subrange(0, i as int));
        let c = s[i];
        if c == sep {
            let ghost d0 = done@;
            let ghost c0 = cur@;
            let piece = cur;
            cur = Vec::new();
            done.push(piece);
            assert(done@.map_values(|l: Vec<char>| l@) =~= d0.map_values(|l: Vec<char>| l@).push(c0));
            assert(cur@ =~= Seq::<char>::empty());
        } else {
            cur.push(c);
        }
        i = i + 1;
    }
    assert(s@.subrange(0, s@.len() as int) =~= s@);
    let ghost d0 = done@;
    let ghost c0 = cur@;
    done.push(cur);
    assert(done@.map_values(|l: Vec<char>| l@) =~= d0.map_values(|l: Vec<char>| l@).push(c0));
    done
}

/// `s` with every occurrence of `pat` removed, scanning from the left.
pub open spec fn remove_all(s: Seq<char>, pat: Seq<char>) -> Seq<char>
    decreases s.len(),
{
    if pat.len() == 0 || s.len() < pat.len() {
        s
    } else if s.subrange(0, pat.len() as int) == pat {
        remove_all(s.subrange(pat.len() as int, s.len() as int), pat)
    } else {
        seq![s[0]] + remove_all(s.drop_first(), pat)
    }
}

fn matches_at(s: &Vec<char>, i: usize, pat: &Vec<char>) -> (r: bool)
    requires
        i + pat@.len() <= s@.len(),
    ensures
        r == (s@.subrange(i as int, i + pat@.len()) == pat@),
{
    let n = s.len();
    let mut k: usize = 0;
    while k < pat.len()
        invariant
            n == s@.len(),
            i + pat@.len() <= s@.len(),
            k <= pat@.len(),
            forall|m: int| 0 <= m < k ==> s@[i + m] == pat@[m],
        decreases pat@.len() - k,
    {
        if s[i + k] != pat[k] {
            assert(s@.subrange(i as int, i + pat@.len())[k as int] != pat@[k as int]);
            return false;
        }
        k = k + 1;
    }
    assert(s@.subrange(i as int, i + pat@.len()) =~= pat@);
    true
}

/// `s` with every occurrence of `pat` removed, scanning from the left.
pub fn remove_all_chars(s: &Vec<char>, pat: &Vec<char>) -> (r: Vec<char>)
    ensures
        r@ == remove_all(s@, pat@),
{
    let mut out: Vec<char> = Vec::new();
    let mut i: usize = 0;
    let n = s.len();
    assert(s@.subrange(0, n as int) =~= s@);
    while i < n
        invariant
            n == s@.len(),
            i <= n,
            out@ + remove_all(s@.subrange(i as int, n as int), pat@) == remove_all(s@, pat@),
        decreases n - i,
    {
        let ghost rest = s@.subrange(i as int, n as int);
        if pat.len() == 0 || n - i < pat.len() {
            assert(remove_all(rest, pat@) == rest);
            let ghost o0 = out@;
            while i < n
                invariant
                    n == s@.len(),
                    i <= n,
                    out@ + s@.subrange(i as int, n as int) == o0 + rest,
                decreases n - i,
            {
                let ghost o1 = out@;
                out.push(s[i]);
                assert(s@.subrange(i as int, n as int) =~= seq![s@[i as int]] + s@.subrange(i + 1, n as int));
                i = i + 1;
                assert(out@ + s@.subrange(i as int, n as int) =~= o1 + s@.subrange(i - 1, n as int));
            }
            assert(s@.subrange(n as int, n as int) =~= Seq::<char>::empty());
            assert(out@ =~= out@ + s@.subrange(n as int, n as int));
            assert(remove_all(s@.subrange(n as int, n as int), pat@) == s@.subrange(n as int, n as int));
        } else if matches_at(s, i, pat) {
            assert(rest.subrange(0, pat@.len() as int) =~= s@.subrange(i as int, i + pat@.len()));
            assert(rest.subrange(pat@.len() as int, rest.len() as int) =~= s@.subrange(i + pat@.len(), n as int));
            i = i + pat.len();
        } else {
            assert(rest.subrange(0, pat@.len() as int) =~= s@.subrange(i as int, i + pat@.len()));
            assert(rest.drop_first() =~= s@.subrange(i + 1, n as int));
            let ghost o0 = out@;
            out.push(s[i]);
            assert(out@ =~= o0 + seq![rest[0]]);
            i = i + 1;
        }
    }
    assert(s@.subrange(n as int, n as int) =~= Seq::<char>::empty());
    assert(out@ =~= out@ + remove_all(s@.subrange(n as int, n as int), pat@));
    out
}

} // verus!
