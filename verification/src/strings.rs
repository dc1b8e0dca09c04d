//! Substring search and replacement on character sequences.

use vstd::prelude::*;
use crate::text::{chars_of, push_char, push_str};

verus! {

/// `pat` occurs in `s` starting at position `i`.
pub open spec fn occurs_at(s: Seq<char>, pat: Seq<char>, i: int) -> bool {
    0 <= i && i + pat.len() <= s.len() && s.subrange(i, i + pat.len()) == pat
}

/// `pat` occurs somewhere in `s`.
pub open spec fn contains(s: Seq<char>, pat: Seq<char>) -> bool {
    exists|i: int| occurs_at(s, pat, i)
}

/// `s` with every occurrence of a non-empty `pat` replaced by `rep`, the
/// occurrences taken from left to right without overlap.
pub open spec fn replace_all(s: Seq<char>, pat: Seq<char>, rep: Seq<char>) -> Seq<char>
    decreases s.len(),
{
    if s.len() == 0 {
        Seq::empty()
    } else if pat.len() > 0 && occurs_at(s, pat, 0) {
        rep + replace_all(s.skip(pat.len() as int), pat, rep)
    } else {
        seq![s[0]] + replace_all(s.skip(1), pat, rep)
    }
}

/// `c` occurs nowhere in `s`.
pub open spec fn lacks_char(s: Seq<char>, c: char) -> bool {
    forall|i: int| 0 <= i < s.len() ==> s[i] != c
}

/// Text in which the first character of the pattern never occurs passes
/// through a replacement unchanged, in front of whatever follows it.
pub proof fn lemma_replace_all_skips_prefix(p: Seq<char>, s: Seq<char>, pat: Seq<char>, rep: Seq<char>)
    requires
        pat.len() > 0,
        lacks_char(p, pat[0]),
    ensures
        replace_all(p + s, pat, rep) == p + replace_all(s, pat, rep),
    decreases p.len(),
{
    if p.len() == 0 {
        assert(p + s =~= s);
    } else {
        let ps = p + s;
        assert(ps[0] == p[0]);
        if occurs_at(ps, pat, 0) {
            assert(ps.subrange(0, pat.len() as int)[0] == ps[0]);
        }
        assert(ps.skip(1) =~= p.skip(1) + s);
        lemma_replace_all_skips_prefix(p.skip(1), s, pat, rep);
        assert(replace_all(ps, pat, rep) =~= p + replace_all(s, pat, rep));
    }
}

/// A text in which the first character of the pattern never occurs is left
/// as it is by a replacement.
pub proof fn lemma_replace_all_unchanged(p: Seq<char>, pat: Seq<char>, rep: Seq<char>)
    requires
        pat.len() > 0,
        lacks_char(p, pat[0]),
    ensures
        replace_all(p, pat, rep) == p,
{
    lemma_replace_all_skips_prefix(p, Seq::empty(), pat, rep);
    assert(p + Seq::<char>::empty() =~= p);
}

/// An occurrence of the pattern at the front is replaced.
pub proof fn lemma_replace_all_at_front(pat: Seq<char>, q: Seq<char>, rep: Seq<char>)
    requires
        pat.len() > 0,
    ensures
        replace_all(pat + q, pat, rep) == rep + replace_all(q, pat, rep),
{
    assert((pat + q).subrange(0, pat.len() as int) =~= pat);
    assert((pat + q).skip(pat.len() as int) =~= q);
}

/// Whether `pat` occurs in `s` at position `i`.
fn occurs_at_exec(s: &Vec<char>, pat: &Vec<char>, i: usize) -> (b: bool)
    requires
        i <= s@.len(),
    ensures
        b == occurs_at(s@, pat@, i as int),
{
    if pat.len() > s.len() - i {
        return false;
    }
    let mut j: usize = 0;
    while j < pat.len()
        invariant
            i + pat@.len() <= s@.len(),
            s@.len() <= usize::MAX,
            0 <= j <= pat@.len(),
            forall|t: int| 0 <= t < j ==> s@[i + t] == pat@[t],
        decreases pat@.len() - j,
    {
        if s[i + j] != pat[j] {
            assert(s@.subrange(i as int, i + pat@.len())[j as int] != pat@[j as int]);
            return false;
        }
        j = j + 1;
    }
    assert(s@.subrange(i as int, i + pat@.len()) =~= pat@);
    true
}

/// Whether `pat` occurs in `s`.
pub fn str_contains(s: &str, pat: &str) -> (b: bool)
    ensures
        b == contains(s@, pat@),
{
    let sc = chars_of(s);
    let pc = chars_of(pat);
    let n = sc.len();
    let mut i: usize = 0;
    loop
        invariant
            sc@ == s@,
            pc@ == pat@,
            n == sc@.len(),
            0 <= i <= n,
            forall|t: int| 0 <= t < i ==> !occurs_at(s@, pat@, t),
        ensures
            forall|t: int| !occurs_at(s@, pat@, t),
        decreases n - i,
    {
        if occurs_at_exec(&sc, &pc, i) {
            return true;
        }
        if i == n {
            assert forall|t: int| !occurs_at(s@, pat@, t) by {
                if 0 <= t < i {
                } else if t > n {
                }
            }
            break;
        }
        i = i + 1;
    }
    false
}

/// `s` with every occurrence of the non-empty `pat` replaced by `rep`.
pub fn replace_str(s: &str, pat: &str, rep: &str) -> (r: String)
    requires
        pat@.len() > 0,
    ensures
        r@ == replace_all(s@, pat@, rep@),
{
    let sc = chars_of(s);
    let pc = chars_of(pat);
    let mut out = String::new();
    let mut i: usize = 0;
    assert(s@.skip(0) =~= s@);
    while i < sc.len()
        invariant
            sc@ == s@,
            pc@ == pat@,
            pat@.len() > 0,
            0 <= i <= sc@.len(),
            out@ + replace_all(s@.skip(i as int), pat@, rep@) == replace_all(s@, pat@, rep@),
        decreases sc@.len() - i,
    {
        let ghost rest = s@.skip(i as int);
        if occurs_at_exec(&sc, &pc, i) {
            proof {
                assert(rest.subrange(0, pat@.len() as int) =~= s@.subrange(i as int, i + pat@.len()));
                assert(occurs_at(rest, pat@, 0));
                assert(rest.skip(pat@.len() as int) =~= s@.skip(i + pat@.len()));
            }
            push_str(&mut out, rep);
            i = i + pc.len();
            assert(out@ + replace_all(s@.skip(i as int), pat@, rep@) =~= replace_all(s@, pat@, rep@));
        } else {
            proof {
                if occurs_at(rest, pat@, 0) {
                    assert(rest.subrange(0, pat@.len() as int) =~= s@.subrange(i as int, i + pat@.len()));
                }
                assert(rest.skip(1) =~= s@.skip(i + 1));
                assert(rest[0] == s@[i as int]);
            }
            push_char(&mut out, sc[i]);
            i = i + 1;
            assert(out@ + replace_all(s@.skip(i as int), pat@, rep@) =~= replace_all(s@, pat@, rep@));
        }
    }
    assert(s@.skip(i as int).len() == 0);
    assert(out@ =~= replace_all(s@, pat@, rep@));
    out
}

} // verus!
