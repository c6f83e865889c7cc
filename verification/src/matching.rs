//! Glob filtering of the listing.  Pattern compilation and the
//! match test itself are the glob crate's; everything around them —
//! which names are kept, and in what order — is verified.

use vstd::prelude::*;
use crate::listing::views;

verus! {

#[verifier::external_type_specification]
#[verifier::external_body]
pub struct ExPattern(glob::Pattern);

#[verifier::external_type_specification]
#[verifier::external_body]
pub struct ExPatternError(glob::PatternError);

/// The pattern text a compiled glob pattern was built from.
pub uninterp spec fn pattern_source(p: glob::Pattern) -> Seq<char>;

/// Whether glob compilation accepts a pattern text.
pub uninterp spec fn glob_ok(pat: Seq<char>) -> bool;

/// Whether a name, taken in full, matches a glob pattern text.
pub uninterp spec fn glob_match(pat: Seq<char>, name: Seq<char>) -> bool;

/// Relies on glob's `Pattern::new`: compilation is a function of the
/// pattern text alone, succeeds exactly on well-formed patterns, and
/// the compiled pattern keeps the text it was built from.
#[verifier::external_body]
pub(crate) fn compile_pattern(pat: &str) -> (r: Result<glob::Pattern, glob::PatternError>)
    ensures
        r is Ok <==> glob_ok(pat@),
        r matches Ok(p) ==> pattern_source(p) == pat@,
{
    glob::Pattern::new(pat)
}

/// Relies on glob's `Pattern::matches`: the answer is a function of
/// the pattern text and the candidate name alone.
#[verifier::external_body]
fn glob_matches(p: &glob::Pattern, name: &str) -> (r: bool)
    ensures
        r == glob_match(pattern_source(*p), name@),
{
    p.matches(name)
}

/// Relies on `PatternError`'s `Display` impl for the user-facing
/// description of a malformed pattern.
#[verifier::external_body]
pub(crate) fn pattern_error_message(e: &glob::PatternError) -> (r: String) {
    format!("{}", e)
}

/// The names of the listing that the pattern matches, in listing
/// order.
pub open spec fn matched_spec(names: Seq<Seq<char>>, pat: Seq<char>) -> Seq<Seq<char>>
    decreases names.len(),
{
    if names.len() == 0 {
        Seq::empty()
    } else {
        let prefix = matched_spec(names.drop_last(), pat);
        if glob_match(pat, names.last()) {
            prefix.push(names.last())
        } else {
            prefix
        }
    }
}

/// Filters the listing: keeps, in listing order, exactly the names
/// that the compiled pattern matches in full.
pub fn match_names(p: &glob::Pattern, names: &Vec<String>) -> (r: Vec<String>)
    ensures
        views(r@) == matched_spec(views(names@), pattern_source(*p)),
{
    let mut out: Vec<String> = Vec::new();
    let mut i: usize = 0;
    proof {
        assert(views(names@).take(0) =~= Seq::<Seq<char>>::empty());
        assert(views(out@) =~= Seq::<Seq<char>>::empty());
    }
    while i < names.len()
        invariant
            0 <= i <= names@.len(),
            views(out@) == matched_spec(views(names@).take(i as int), pattern_source(*p)),
        decreases names@.len() - i,
    {
        let ghost prev = out@;
        let name = &names[i];
        if glob_matches(p, name.as_str()) {
            out.push(name.clone());
        }
        proof {
            let nv = views(names@);
            assert(nv.take(i as int + 1).drop_last() =~= nv.take(i as int));
            assert(nv.take(i as int + 1).last() == names@[i as int]@);
            if glob_match(pattern_source(*p), names@[i as int]@) {
                assert(views(out@) =~= views(prev).push(names@[i as int]@));
            }
            assert(views(out@) =~= matched_spec(nv.take(i as int + 1), pattern_source(*p)));
        }
        i += 1;
    }
    proof {
        assert(views(names@).take(names@.len() as int) =~= views(names@));
    }
    out
}

/// Whether `a` can be obtained from `b` by deleting entries and
/// keeping the rest in order.
pub open spec fn is_subsequence(a: Seq<Seq<char>>, b: Seq<Seq<char>>) -> bool
    decreases b.len(),
{
    if a.len() == 0 {
        true
    } else if b.len() == 0 {
        false
    } else if a.last() == b.last() {
        is_subsequence(a.drop_last(), b.drop_last())
    } else {
        is_subsequence(a, b.drop_last())
    }
}

proof fn lemma_subsequence_extend(a: Seq<Seq<char>>, b: Seq<Seq<char>>, x: Seq<char>)
    requires
        is_subsequence(a, b),
    ensures
        is_subsequence(a, b.push(x)),
    decreases b.len(), 1int,
{
    if a.len() == 0 {
    } else {
        assert(b.push(x).drop_last() =~= b);
        if a.last() == x {
            lemma_subsequence_drop(a, b);
        }
    }
}

proof fn lemma_subsequence_drop(a: Seq<Seq<char>>, b: Seq<Seq<char>>)
    requires
        is_subsequence(a, b),
        a.len() > 0,
    ensures
        is_subsequence(a.drop_last(), b),
    decreases b.len(), 0int,
{
    assert(b.len() > 0);
    if a.last() == b.last() {
        lemma_subsequence_extend(a.drop_last(), b.drop_last(), b.last());
        assert(b.drop_last().push(b.last()) =~= b);
    } else {
        lemma_subsequence_drop(a, b.drop_last());
        lemma_subsequence_extend(a.drop_last(), b.drop_last(), b.last());
        assert(b.drop_last().push(b.last()) =~= b);
    }
}

/// The filter is faithful: its result is a subsequence of the input
/// listing, every kept name matches the pattern in full, and a name
/// the pattern does not match is never kept.
pub proof fn lemma_matched_spec_subsequence(names: Seq<Seq<char>>, pat: Seq<char>)
    ensures
        is_subsequence(matched_spec(names, pat), names),
        forall|n: Seq<char>| #[trigger] matched_spec(names, pat).contains(n) ==> glob_match(pat, n),
        forall|n: Seq<char>|
            names.contains(n) && !glob_match(pat, n) ==> !matched_spec(names, pat).contains(n),
    decreases names.len(),
{
    if names.len() == 0 {
    } else {
        let m = matched_spec(names, pat);
        let mp = matched_spec(names.drop_last(), pat);
        lemma_matched_spec_subsequence(names.drop_last(), pat);
        if glob_match(pat, names.last()) {
            assert(m == mp.push(names.last()));
            assert(m.len() > 0 && m.last() == names.last());
            assert(m.drop_last() =~= mp);
            assert(is_subsequence(m, names));
            assert forall|n: Seq<char>| #[trigger] m.contains(n) implies glob_match(pat, n) by {
                let k = choose|k: int| 0 <= k < m.len() && m[k] == n;
                if k < mp.len() {
                    assert(mp[k] == n);
                    assert(mp.contains(n));
                } else {
                    assert(n == names.last());
                }
            }
        } else {
            assert(m == mp);
            lemma_subsequence_extend(m, names.drop_last(), names.last());
            assert(names.drop_last().push(names.last()) =~= names);
        }
    }
}

} // verus!
