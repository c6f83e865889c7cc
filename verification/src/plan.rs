//! The rename plan: each matched name paired with its rewriting,
//! with the names the rule leaves unchanged dropped.

use vstd::prelude::*;
use crate::listing::views;
use crate::text::{replace_spec, replace_all};

verus! {

/// One step of the plan: a name as it is and as it will be.
pub struct PlanEntry {
    pub old_name: String,
    pub new_name: String,
}

impl View for PlanEntry {
    type V = (Seq<char>, Seq<char>);

    open spec fn view(&self) -> (Seq<char>, Seq<char>) {
        (self.old_name@, self.new_name@)
    }
}

/// The views of the entries of a plan.
pub open spec fn plan_views(entries: Seq<PlanEntry>) -> Seq<(Seq<char>, Seq<char>)> {
    entries.map_values(|e: PlanEntry| e@)
}

/// The plan derived from the matched names: each name beside its
/// rewriting, in matched order, with no-op rewritings left out.
pub open spec fn plan_spec(names: Seq<Seq<char>>, from: Seq<char>, to: Seq<char>) -> Seq<
    (Seq<char>, Seq<char>),
>
    decreases names.len(),
{
    if names.len() == 0 {
        Seq::empty()
    } else {
        let prefix = plan_spec(names.drop_last(), from, to);
        let n = names.last();
        let r = replace_spec(n, from, to);
        if r != n {
            prefix.push((n, r))
        } else {
            prefix
        }
    }
}

/// Derives the rename plan: rewrites every matched name with the
/// substitution rule and keeps, in order, exactly the pairs whose
/// new name differs from the old one.
pub fn build_plan(names: &Vec<String>, from: &str, to: &str) -> (r: Vec<PlanEntry>)
    ensures
        plan_views(r@) == plan_spec(views(names@), from@, to@),
{
    let mut out: Vec<PlanEntry> = Vec::new();
    let mut i: usize = 0;
    proof {
        assert(views(names@).take(0) =~= Seq::<Seq<char>>::empty());
        assert(plan_views(out@) =~= Seq::<(Seq<char>, Seq<char>)>::empty());
    }
    while i < names.len()
        invariant
            0 <= i <= names@.len(),
            plan_views(out@) == plan_spec(views(names@).take(i as int), from@, to@),
        decreases names@.len() - i,
    {
        let ghost prev = out@;
        let name = &names[i];
        let new_name = replace_all(name.as_str(), from, to);
        let changed = !(*name == new_name);
        if changed {
            out.push(
                PlanEntry { old_name: name.clone(), new_name },
            );
        }
        proof {
            let nv = views(names@);
            assert(nv.take(i as int + 1).drop_last() =~= nv.take(i as int));
            assert(nv.take(i as int + 1).last() == names@[i as int]@);
            if changed {
                assert(plan_views(out@) =~= plan_views(prev).push(
                    (names@[i as int]@, replace_spec(names@[i as int]@, from@, to@)),
                ));
            }
            assert(plan_views(out@) =~= plan_spec(nv.take(i as int + 1), from@, to@));
        }
        i += 1;
    }
    proof {
        assert(views(names@).take(names@.len() as int) =~= views(names@));
    }
    out
}

/// No entry of a plan renames a name to itself: a pair whose
/// rewriting equals the original never appears.
pub proof fn lemma_plan_entries_change(names: Seq<Seq<char>>, from: Seq<char>, to: Seq<char>)
    ensures
        forall|k: int|
            0 <= k < plan_spec(names, from, to).len() ==> (#[trigger] plan_spec(names, from, to)[k]).0
                != plan_spec(names, from, to)[k].1,
    decreases names.len(),
{
    if names.len() > 0 {
        lemma_plan_entries_change(names.drop_last(), from, to);
        let m = plan_spec(names, from, to);
        let mp = plan_spec(names.drop_last(), from, to);
        assert forall|k: int| 0 <= k < m.len() implies (#[trigger] m[k]).0 != m[k].1 by {
            if k < mp.len() {
                assert(m[k] == mp[k]);
            }
        }
    }
}

} // verus!
