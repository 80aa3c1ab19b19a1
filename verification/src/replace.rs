//! Substring replacement on character sequences.
//!
//! `replace_all` rewrites every non-overlapping occurrence of a pattern,
//! scanning left to right — the operation underneath the path-portability
//! transform. The lemmas here describe what one replacement does when the
//! pattern occurs exactly once or not at all; the round-trip law of the
//! transform is built on them.

use vstd::prelude::*;

verus! {

/// The pattern `pat` occurs in `s` at position `i`.
pub open spec fn occurs_at(s: Seq<char>, pat: Seq<char>, i: int) -> bool {
    0 <= i && i + pat.len() <= s.len() && s.subrange(i, i + pat.len() as int) == pat
}

/// `pat` occurs nowhere in `s`.
pub open spec fn no_occurrence(s: Seq<char>, pat: Seq<char>) -> bool {
    forall|j: int| !occurs_at(s, pat, j)
}

/// `pat` occurs in `s` at position `k` and nowhere else.
pub open spec fn single_occurrence_at(s: Seq<char>, pat: Seq<char>, k: int) -> bool {
    occurs_at(s, pat, k) && forall|j: int| j != k ==> !occurs_at(s, pat, j)
}

/// Every non-overlapping occurrence of `pat` in `s` rewritten to `to`,
/// scanning left to right. A pattern longer than the rest of the input, or
/// an empty pattern, leaves the input unchanged.
pub open spec fn spec_replace(s: Seq<char>, pat: Seq<char>, to: Seq<char>) -> Seq<char>
    decreases s.len(),
{
    if pat.len() == 0 || s.len() < pat.len() {
        s
    } else if s.subrange(0, pat.len() as int) == pat {
        to + spec_replace(s.skip(pat.len() as int), pat, to)
    } else {
        seq![s[0]] + spec_replace(s.drop_first(), pat, to)
    }
}

/// Replacing a pattern that occurs nowhere changes nothing.
pub proof fn lemma_replace_no_occurrence(s: Seq<char>, pat: Seq<char>, to: Seq<char>)
    requires
        pat.len() > 0,
        no_occurrence(s, pat),
    ensures
        spec_replace(s, pat, to) == s,
    decreases s.len(),
{
    if s.len() < pat.len() {
    } else {
        assert(!occurs_at(s, pat, 0));
        assert(s.subrange(0, pat.len() as int) != pat);
        assert forall|j: int| !occurs_at(s.drop_first(), pat, j) by {
            if 0 <= j && j + pat.len() <= s.drop_first().len() {
                assert(!occurs_at(s, pat, j + 1));
                assert(s.drop_first().subrange(j, j + pat.len() as int) =~= s.subrange(
                    j + 1,
                    j + 1 + pat.len() as int,
                ));
            }
        }
        lemma_replace_no_occurrence(s.drop_first(), pat, to);
        assert(seq![s[0]] + s.drop_first() =~= s);
    }
}

/// Replacing a pattern that occurs exactly once, at position `k`, rewrites
/// exactly that occurrence.
pub proof fn lemma_replace_single_occurrence(
    s: Seq<char>,
    pat: Seq<char>,
    to: Seq<char>,
    k: int,
)
    requires
        pat.len() > 0,
        single_occurrence_at(s, pat, k),
    ensures
        spec_replace(s, pat, to) == s.subrange(0, k) + to + s.skip(k + pat.len() as int),
    decreases s.len(),
{
    if k == 0 {
        assert(s.subrange(0, pat.len() as int) == pat);
        let tail = s.skip(pat.len() as int);
        assert forall|j: int| !occurs_at(tail, pat, j) by {
            if 0 <= j && j + pat.len() <= tail.len() {
                assert(!occurs_at(s, pat, j + pat.len()));
                assert(tail.subrange(j, j + pat.len() as int) =~= s.subrange(
                    j + pat.len(),
                    j + 2 * pat.len(),
                ));
            }
        }
        lemma_replace_no_occurrence(tail, pat, to);
        assert(s.subrange(0, 0) + to + s.skip(pat.len() as int) =~= to + s.skip(
            pat.len() as int,
        ));
    } else {
        assert(!occurs_at(s, pat, 0));
        assert(s.len() >= k + pat.len());
        assert(s.subrange(0, pat.len() as int) != pat);
        let t = s.drop_first();
        assert(occurs_at(t, pat, k - 1)) by {
            assert(t.subrange(k - 1, k - 1 + pat.len() as int) =~= s.subrange(
                k,
                k + pat.len() as int,
            ));
        }
        assert forall|j: int| j != k - 1 implies !occurs_at(t, pat, j) by {
            if 0 <= j && j + pat.len() <= t.len() {
                assert(!occurs_at(s, pat, j + 1));
                assert(t.subrange(j, j + pat.len() as int) =~= s.subrange(
                    j + 1,
                    j + 1 + pat.len() as int,
                ));
            }
        }
        lemma_replace_single_occurrence(t, pat, to, k - 1);
        assert(seq![s[0]] + (t.subrange(0, k - 1) + to + t.skip(k - 1 + pat.len() as int))
            =~= s.subrange(0, k) + to + s.skip(k + pat.len() as int));
    }
}

/// Replacing one occurrence of `a` by `b` and then one occurrence of `b`
/// by `a` restores the original, provided `a` occurred exactly once, `b`
/// did not occur, and the intermediate result holds `b` exactly once (no
/// occurrence of `b` arose across the boundary of the rewritten piece).
pub proof fn lemma_replace_round_trip(s: Seq<char>, a: Seq<char>, b: Seq<char>, k: int)
    requires
        a.len() > 0,
        b.len() > 0,
        single_occurrence_at(s, a, k),
        single_occurrence_at(spec_replace(s, a, b), b, k),
    ensures
        spec_replace(spec_replace(s, a, b), b, a) == s,
{
    lemma_replace_single_occurrence(s, a, b, k);
    let t = spec_replace(s, a, b);
    assert(t == s.subrange(0, k) + b + s.skip(k + a.len() as int));
    lemma_replace_single_occurrence(t, b, a, k);
    assert(t.subrange(0, k) =~= s.subrange(0, k));
    assert(t.skip(k + b.len() as int) =~= s.skip(k + a.len() as int));
    assert(t.subrange(0, k) + a + t.skip(k + b.len() as int) =~= s);
}

/// Whether `pat` starts at character position `i` of `s`.
pub fn matches_at(s: &str, pat: &str, i: usize, n: usize, m: usize) -> (r: bool)
    requires
        n == s@.len(),
        m == pat@.len(),
        i + m <= n,
    ensures
        r == occurs_at(s@, pat@, i as int),
{
    let mut j: usize = 0;
    while j < m
        invariant
            n == s@.len(),
            m == pat@.len(),
            i + m <= n,
            j <= m,
            forall|q: int| 0 <= q < j ==> s@[i + q] == pat@[q],
        decreases m - j,
    {
        let cs = s.get_char(i + j);
        let cp = pat.get_char(j);
        if cs != cp {
            assert(!occurs_at(s@, pat@, i as int)) by {
                if s@.subrange(i as int, i + m) == pat@ {
                    assert(s@.subrange(i as int, i + m)[j as int] == s@[i + j]);
                }
            }
            return false;
        }
        j = j + 1;
    }
    assert(s@.subrange(i as int, i + m) =~= pat@);
    true
}

/// Every non-overlapping occurrence of `pat` in `s` rewritten to `to`,
/// scanning left to right.
pub fn replace_all(s: &str, pat: &str, to: &str) -> (r: String)
    requires
        pat@.len() > 0,
    ensures
        r@ == spec_replace(s@, pat@, to@),
{
    let n = s.unicode_len();
    let m = pat.unicode_len();
    let mut out = String::new();
    let mut i: usize = 0;
    assert(s@.skip(0) =~= s@);
    while i < n
        invariant
            n == s@.len(),
            m == pat@.len(),
            m > 0,
            i <= n,
            out@ + spec_replace(s@.skip(i as int), pat@, to@) == spec_replace(s@, pat@, to@),
        decreases n - i,
    {
        let ghost rem = s@.skip(i as int);
        if m <= n - i && matches_at(s, pat, i, n, m) {
            proof {
                assert(rem.subrange(0, m as int) =~= s@.subrange(i as int, i + m));
                assert(rem.subrange(0, m as int) == pat@);
                assert(rem.skip(m as int) =~= s@.skip(i + m));
                assert(spec_replace(rem, pat@, to@) == to@ + spec_replace(
                    s@.skip(i + m),
                    pat@,
                    to@,
                ));
            }
            out.append(to);
            assert(out@ + spec_replace(s@.skip((i + m) as int), pat@, to@) =~= spec_replace(
                s@,
                pat@,
                to@,
            ));
            i = i + m;
        } else {
            proof {
                if rem.len() < m {
                    assert(spec_replace(rem, pat@, to@) == rem);
                    assert(rem =~= seq![s@[i as int]] + s@.skip(i + 1));
                    assert(s@.skip(i + 1).len() < m);
                    assert(spec_replace(s@.skip(i + 1), pat@, to@) == s@.skip(i + 1));
                } else {
                    assert(!occurs_at(s@, pat@, i as int));
                    assert(rem.subrange(0, m as int) =~= s@.subrange(i as int, i + m));
                    assert(rem.subrange(0, m as int) != pat@);
                    assert(rem.drop_first() =~= s@.skip(i + 1));
                    assert(rem[0] == s@[i as int]);
                }
                assert(spec_replace(rem, pat@, to@) == seq![s@[i as int]] + spec_replace(
                    s@.skip(i + 1),
                    pat@,
                    to@,
                ));
            }
            let piece = s.substring_char(i, i + 1);
            assert(piece@ =~= seq![s@[i as int]]);
            out.append(piece);
            assert(out@ + spec_replace(s@.skip((i + 1) as int), pat@, to@) =~= spec_replace(
                s@,
                pat@,
                to@,
            ));
            i = i + 1;
        }
    }
    assert(s@.skip(i as int).len() == 0);
    assert(spec_replace(s@.skip(i as int), pat@, to@) == s@.skip(i as int));
    assert(out@ =~= spec_replace(s@, pat@, to@));
    out
}

} // verus!
