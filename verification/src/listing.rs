//! Selection of the directory entries the tool works on: the listing
//! is capped at a fixed number of names and sorted lexicographically.

use vstd::prelude::*;
use vstd::assert_multisets_equal;
use vstd::multiset::Multiset;
use crate::text::{lex_le, lemma_lex_le_total, lemma_lex_le_trans, str_lex_le};

verus! {

broadcast use vstd::seq_lib::group_to_multiset_ensures, vstd::multiset::group_multiset_axioms;

/// The largest number of directory entries considered in one run.
pub const MAX_FILES: usize = 50;

/// The names, as character sequences, of a list of strings.
pub open spec fn views(names: Seq<String>) -> Seq<Seq<char>> {
    names.map_values(|n: String| n@)
}

/// Whether a list of names is lexicographically sorted.
pub open spec fn sorted_names(s: Seq<Seq<char>>) -> bool {
    forall|i: int, j: int| 0 <= i < j < s.len() ==> lex_le(s[i], s[j])
}

/// The prefix of the listing that the tool considers: everything, or
/// the first `MAX_FILES` entries when the directory holds more.
pub open spec fn capped(names: Seq<String>) -> Seq<String> {
    if names.len() <= MAX_FILES {
        names
    } else {
        names.take(MAX_FILES as int)
    }
}

/// Sorts the names in place.
fn sort_names(v: &mut Vec<String>)
    ensures
        final(v)@.len() == old(v)@.len(),
        final(v)@.to_multiset() == old(v)@.to_multiset(),
        sorted_names(views(final(v)@)),
{
    if v.len() <= 1 {
        return ;
    }
    let mut i: usize = 1;
    while i < v.len()
        invariant
            1 <= i <= v@.len(),
            v@.len() == old(v)@.len(),
            v@.to_multiset() == old(v)@.to_multiset(),
            sorted_names(views(v@).take(i as int)),
        decreases v@.len() - i,
    {
        let mut p: usize = 0;
        while p < i && str_lex_le(v[p].as_str(), v[i].as_str())
            invariant
                0 <= p <= i < v@.len(),
                forall|q: int| 0 <= q < p ==> lex_le(v@[q]@, v@[i as int]@),
            decreases i - p,
        {
            p += 1;
        }
        let ghost v1 = v@;
        let ghost x = v@[i as int];
        let x_val = v.remove(i);
        let ghost v2 = v@;
        v.insert(p, x_val);
        proof {
            let v3 = v@;
            // the multiset of names is unchanged by moving one entry
            assert(v2.to_multiset() == v1.to_multiset().remove(x));
            assert(v1.contains(x));
            assert(v1.to_multiset().count(x) > 0);
            assert(v3 =~= v2.take(p as int) + (seq![x] + v2.skip(p as int)));
            assert(v2 =~= v2.take(p as int) + v2.skip(p as int));
            vstd::seq_lib::lemma_multiset_commutative(v2.take(p as int), seq![x] + v2.skip(p as int));
            vstd::seq_lib::lemma_multiset_commutative(seq![x], v2.skip(p as int));
            vstd::seq_lib::lemma_multiset_commutative(v2.take(p as int), v2.skip(p as int));
            assert(seq![x] =~= Seq::<String>::empty().push(x));
            assert(seq![x].to_multiset() =~= Multiset::<String>::empty().insert(x));
            assert_multisets_equal!(v3.to_multiset(), v1.to_multiset());
            // the sorted prefix grew by one
            let w = views(v3).take(i as int + 1);
            let u = views(v1).take(i as int);
            assert forall|q: int, r: int| 0 <= q < r < i implies #[trigger] lex_le(
                v1[q]@,
                v1[r]@,
            ) by {
                assert(u[q] == v1[q]@);
                assert(u[r] == v1[r]@);
            }
            assert forall|a: int, b: int| 0 <= a < b < w.len() implies #[trigger] lex_le(
                w[a],
                w[b],
            ) by {
                assert(forall|k: int| 0 <= k < p ==> v3[k] == v1[k]);
                assert(v3[p as int] == x);
                assert(forall|k: int| p < k <= i ==> v3[k] == v1[k - 1]);
                assert(w[a] == v3[a]@);
                assert(w[b] == v3[b]@);
                if b < p {
                    assert(lex_le(v1[a]@, v1[b]@));
                } else if b == p {
                    assert(lex_le(v1[a]@, x@));
                } else if a == p {
                    lemma_lex_le_total(v1[p as int]@, x@);
                    assert(lex_le(x@, v1[p as int]@));
                    if b - 1 > p {
                        lemma_lex_le_trans(x@, v1[p as int]@, v1[b - 1]@);
                    }
                } else if a < p {
                    assert(lex_le(v1[a]@, v1[b - 1]@));
                } else {
                    assert(lex_le(v1[a - 1]@, v1[b - 1]@));
                }
            }
            assert(sorted_names(w));
        }
        i += 1;
    }
    proof {
        assert(views(v@).take(v@.len() as int) =~= views(v@));
    }
}

/// Keeps the first `MAX_FILES` names of the listing and sorts them.
///
/// The result is exactly the considered prefix of the listing,
/// reordered: same names with the same multiplicities, in
/// lexicographic order, never more than `MAX_FILES` of them.
pub fn select_files(names: Vec<String>) -> (r: Vec<String>)
    ensures
        r@.len() <= MAX_FILES,
        r@.len() == capped(names@).len(),
        r@.to_multiset() == capped(names@).to_multiset(),
        sorted_names(views(r@)),
        views(names@).no_duplicates() ==> views(r@).no_duplicates(),
{
    let mut v = names;
    let ghost orig = v@;
    if v.len() > MAX_FILES {
        v.truncate(MAX_FILES);
        proof {
            assert(v@ =~= capped(orig));
        }
    }
    sort_names(&mut v);
    proof {
        if views(orig).no_duplicates() {
            assert(views(capped(orig)).no_duplicates()) by {
                let c = capped(orig);
                assert forall|i: int, j: int|
                    0 <= i < c.len() && 0 <= j < c.len() && i != j implies views(c)[i] != views(
                    c,
                )[j] by {
                    assert(views(c)[i] == c[i]@ && c[i] == orig[i]);
                    assert(views(c)[j] == c[j]@ && c[j] == orig[j]);
                    assert(views(orig)[i] == orig[i]@);
                    assert(views(orig)[j] == orig[j]@);
                }
            }
            lemma_selection_keeps_names_distinct(capped(orig), v@);
        }
    }
    v
}

/// A listing without repeated names stays without repeated names
/// through selection: reordering cannot invent a duplicate.
pub proof fn lemma_selection_keeps_names_distinct(input: Seq<String>, output: Seq<String>)
    requires
        output.to_multiset() == input.to_multiset(),
        views(input).no_duplicates(),
    ensures
        views(output).no_duplicates(),
{
    assert(input.no_duplicates()) by {
        assert forall|i: int, j: int| 0 <= i < input.len() && 0 <= j < input.len() && i != j
            implies input[i] != input[j] by {
            assert(views(input)[i] == input[i]@);
            assert(views(input)[j] == input[j]@);
        }
    }
    input.lemma_multiset_has_no_duplicates();
    output.lemma_multiset_has_no_duplicates_conv();
    assert forall|i: int, j: int| 0 <= i < views(output).len() && 0 <= j < views(output).len() && i
        != j implies views(output)[i] != views(output)[j] by {
        if views(output)[i] == views(output)[j] {
            assert(output[i]@ == output[j]@);
            assert(output[i] != output[j]);
            assert(output.contains(output[i]));
            assert(output.contains(output[j]));
            assert(output.to_multiset().count(output[i]) > 0);
            assert(output.to_multiset().count(output[j]) > 0);
            assert(input.to_multiset().count(output[i]) > 0);
            assert(input.to_multiset().count(output[j]) > 0);
            assert(input.contains(output[i]));
            assert(input.contains(output[j]));
            let k = choose|k: int| 0 <= k < input.len() && input[k] == output[i];
            let l = choose|l: int| 0 <= l < input.len() && input[l] == output[j];
            assert(k != l);
            assert(views(input)[k] == input[k]@);
            assert(views(input)[l] == input[l]@);
        }
    }
}

} // verus!
