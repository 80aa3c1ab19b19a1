//! The path-portability transform.
//!
//! A manifest shared across machines must not hard-code one user's home
//! directory. `sanitize_dir` rewrites every occurrence of the resolved home
//! directory in a path to a fixed placeholder token; `desanitize_dir`
//! rewrites the placeholder back. When no home directory can be resolved,
//! both return the path unchanged. The `*_with` forms take the home
//! directory as an explicit argument and are fully specified.

use vstd::prelude::*;
use crate::replace::{spec_replace, replace_all, occurs_at, single_occurrence_at,
    lemma_replace_single_occurrence, lemma_replace_round_trip};

verus! {

/// The token that stands in for the home directory in a portable path.
pub open spec fn placeholder() -> Seq<char> {
    "$_HOME_$"@
}

/// The placeholder token as a string slice.
pub fn placeholder_str() -> (r: &'static str)
    ensures
        r@ == placeholder(),
{
    "$_HOME_$"
}

/// `dir` with every occurrence of `home` rewritten to the placeholder
/// token. An empty `home` (no resolvable home directory) changes nothing.
pub fn sanitize_with(dir: &str, home: &str) -> (r: String)
    ensures
        r@ == spec_replace(dir@, home@, placeholder()),
{
    if home.unicode_len() == 0 {
        assert(spec_replace(dir@, home@, placeholder()) == dir@);
        dir.to_owned()
    } else {
        replace_all(dir, home, placeholder_str())
    }
}

/// `dir` with every occurrence of the placeholder token rewritten to
/// `home`.
pub fn desanitize_with(dir: &str, home: &str) -> (r: String)
    ensures
        r@ == spec_replace(dir@, placeholder(), home@),
{
    proof {
        reveal_strlit("$_HOME_$");
    }
    replace_all(dir, placeholder_str(), home)
}

/// Relies on `dirs::home_dir`: yields the process's home directory when
/// the platform reports one that is representable as text. The result
/// depends on the environment, so nothing further is assumed of it.
#[verifier::external_body]
fn home_dir_string() -> (r: Option<String>) {
    match dirs::home_dir() {
        Some(p) => match p.to_str() {
            Some(s) => Some(s.to_owned()),
            None => None,
        },
        None => None,
    }
}

/// `dir` with every occurrence of the resolved home directory rewritten to
/// the placeholder token; `dir` unchanged when none resolves.
pub fn sanitize_dir(dir: &str) -> (r: String)
    ensures
        r@ == dir@ || (exists|h: Seq<char>|
            h.len() > 0 && r@ == spec_replace(dir@, h, placeholder())),
{
    match home_dir_string() {
        Some(home) => {
            let r = sanitize_with(dir, home.as_str());
            proof {
                if home@.len() == 0 {
                    assert(r@ == dir@);
                } else {
                    assert(r@ == spec_replace(dir@, home@, placeholder()));
                }
            }
            r
        },
        None => dir.to_owned(),
    }
}

/// `dir` with every occurrence of the placeholder token rewritten to the
/// resolved home directory; `dir` unchanged when none resolves.
pub fn desanitize_dir(dir: &str) -> (r: String)
    ensures
        r@ == dir@ || (exists|h: Seq<char>| r@ == spec_replace(dir@, placeholder(), h)),
{
    match home_dir_string() {
        Some(home) => {
            let r = desanitize_with(dir, home.as_str());
            assert(r@ == spec_replace(dir@, placeholder(), home@));
            r
        },
        None => dir.to_owned(),
    }
}

/// Sanitizing a path that holds the home directory exactly once and no
/// `'$'` anywhere, then desanitizing, restores the path.
pub proof fn lemma_sanitize_round_trip(p: Seq<char>, home: Seq<char>, k: int)
    requires
        home.len() > 0,
        single_occurrence_at(p, home, k),
        forall|i: int| 0 <= i < p.len() ==> p[i] != '$',
    ensures
        spec_replace(spec_replace(p, home, placeholder()), placeholder(), home) == p,
{
    reveal_strlit("$_HOME_$");
    let b = placeholder();
    assert(b.len() == 8);
    assert(b[0] == '$');
    assert(b[7] == '$');
    lemma_replace_single_occurrence(p, home, b, k);
    let t = spec_replace(p, home, b);
    assert(t == p.subrange(0, k) + b + p.skip(k + home.len() as int));
    assert(t.len() == p.len() + 8 - home.len());
    assert(occurs_at(t, b, k)) by {
        assert(t.subrange(k, k + 8) =~= b);
    }
    assert forall|j: int| j != k implies !occurs_at(t, b, j) by {
        if 0 <= j && j + 8 <= t.len() && occurs_at(t, b, j) {
            if j < k {
                assert(t.subrange(j, j + 8)[0] == t[j]);
                assert(t[j] == p[j]);
                assert(t[j] == b[0]);
                assert(p[j] == '$');
            } else {
                assert(t.subrange(j, j + 8)[7] == t[j + 7]);
                assert(t[j + 7] == b[7]);
                assert(j + 7 >= k + 8);
                assert(t[j + 7] == p[j + 7 - 8 + home.len()]);
                assert(p[j + 7 - 8 + home.len()] == '$');
            }
        }
    }
    lemma_replace_round_trip(p, home, b, k);
}

/// Desanitizing a path that holds the placeholder token exactly once, then
/// sanitizing, restores the path, provided the home directory occurs in
/// the desanitized path only where the placeholder stood.
pub proof fn lemma_desanitize_round_trip(p: Seq<char>, home: Seq<char>, k: int)
    requires
        home.len() > 0,
        single_occurrence_at(p, placeholder(), k),
        single_occurrence_at(spec_replace(p, placeholder(), home), home, k),
    ensures
        spec_replace(spec_replace(p, placeholder(), home), home, placeholder()) == p,
{
    reveal_strlit("$_HOME_$");
    lemma_replace_round_trip(p, placeholder(), home, k);
}

} // verus!
