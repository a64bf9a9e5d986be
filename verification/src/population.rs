//! Removal of chosen agents from a population.

use crate::types::{agents_view, Agent, AgentView};
use vstd::prelude::*;
use vstd::seq_lib::{to_multiset_build, to_multiset_insert, to_multiset_remove, to_multiset_update};

verus! {

/// No index is followed by a larger one.
pub open spec fn descending(s: Seq<usize>) -> bool {
    forall|i: int, j: int| 0 <= i < j < s.len() ==> s[i] >= s[j]
}

/// Every index is followed by smaller ones only.
pub open spec fn strictly_descending(s: Seq<usize>) -> bool {
    forall|i: int, j: int| 0 <= i < j < s.len() ==> s[i] > s[j]
}

/// The items of a sequence at the given indices.
pub open spec fn picked<A>(s: Seq<A>, indices: Seq<usize>) -> Seq<A> {
    Seq::new(indices.len(), |k: int| s[indices[k] as int])
}

/// Sorts indices from the largest to the smallest.
pub fn sort_descending(v: &Vec<usize>) -> (r: Vec<usize>)
    ensures
        descending(r@),
        r@.to_multiset() == v@.to_multiset(),
{
    let mut out: Vec<usize> = Vec::new();
    let mut i: usize = 0;
    assert(out@ =~= v@.take(0));
    while i < v.len()
        invariant
            i <= v.len(),
            descending(out@),
            out@.to_multiset() == v@.take(i as int).to_multiset(),
        decreases v.len() - i,
    {
        let x = v[i];
        let mut p: usize = 0;
        while p < out.len() && out[p] >= x
            invariant
                p <= out.len(),
                forall|j: int| 0 <= j < p ==> out@[j] >= x,
            decreases out.len() - p,
        {
            p = p + 1;
        }
        proof {
            to_multiset_insert(out@, p as int, x);
            to_multiset_build(v@.take(i as int), x);
            assert(v@.take(i + 1) =~= v@.take(i as int).push(x));
        }
        let ghost before = out@;
        out.insert(p, x);
        assert(descending(out@)) by {
            assert forall|a: int, b: int| 0 <= a < b < out@.len() implies out@[a] >= out@[b] by {
                if b < p {
                    assert(out@[a] == before[a] && out@[b] == before[b]);
                } else if b == p {
                    assert(out@[a] == before[a]);
                } else if a < p {
                    assert(out@[a] == before[a] && out@[b] == before[b - 1]);
                    assert(before[p as int] >= before[b - 1] || p == b - 1);
                } else if a == p {
                    assert(out@[b] == before[b - 1]);
                    assert(before[p as int] >= before[b - 1] || p == b - 1);
                } else {
                    assert(out@[a] == before[a - 1] && out@[b] == before[b - 1]);
                }
            }
        }
        i = i + 1;
    }
    proof {
        assert(v@.take(i as int) =~= v@);
    }
    out
}

/// Distinct indices, sorted from the largest to the smallest, descend
/// strictly, and lie where the unsorted ones lay.
pub proof fn lemma_sorted_distinct(v: Seq<usize>, sorted: Seq<usize>, n: usize)
    requires
        v.no_duplicates(),
        forall|i: int| 0 <= i < v.len() ==> v[i] < n,
        descending(sorted),
        sorted.to_multiset() == v.to_multiset(),
    ensures
        sorted.len() == v.len(),
        strictly_descending(sorted),
        forall|i: int| 0 <= i < sorted.len() ==> sorted[i] < n,
{
    broadcast use vstd::seq_lib::to_multiset_len;

    assert(sorted.len() == sorted.to_multiset().len());
    assert(v.len() == v.to_multiset().len());
    v.lemma_multiset_has_no_duplicates();
    sorted.lemma_multiset_has_no_duplicates_conv();
    assert forall|i: int| 0 <= i < sorted.len() implies sorted[i] < n by {
        vstd::seq_lib::to_multiset_contains(sorted, sorted[i]);
        vstd::seq_lib::to_multiset_contains(v, sorted[i]);
        assert(sorted.contains(sorted[i]));
        let j = choose|j: int| 0 <= j < v.len() && v[j] == sorted[i];
        assert(v[j] < n);
    }
}

/// Removing an item by putting the last in its place takes one copy of the
/// item away, and nothing else.
pub proof fn lemma_swap_remove_multiset<A>(s: Seq<A>, i: int)
    requires
        0 <= i < s.len(),
    ensures
        s.update(i, s.last()).drop_last().to_multiset() =~= s.to_multiset().remove(s[i]),
{
    broadcast use vstd::multiset::group_multiset_axioms;

    let u = s.update(i, s.last());
    let last = s.len() - 1;
    assert(u.drop_last() =~= u.remove(last));
    to_multiset_remove(u, last);
    if i == last {
        assert(u =~= s);
    } else {
        to_multiset_update(s, i, s.last());
        vstd::seq_lib::to_multiset_contains(s, s[i]);
        vstd::seq_lib::to_multiset_contains(s, s.last());
        assert(s.contains(s[i]));
        assert(s.contains(s.last()));
    }
}

/// Removes the agents at the given indices, from the highest index to the
/// lowest, each by putting the last agent in its place.
pub fn cull(agents: &mut Vec<Agent>, doomed: &Vec<usize>)
    requires
        strictly_descending(doomed@),
        forall|k: int| 0 <= k < doomed@.len() ==> doomed@[k] < old(agents)@.len(),
    ensures
        final(agents)@.len() == old(agents)@.len() - doomed@.len(),
        agents_view(final(agents)@).to_multiset() =~= agents_view(old(agents)@).to_multiset().sub(
            picked(agents_view(old(agents)@), doomed@).to_multiset(),
        ),
{
    broadcast use vstd::multiset::group_multiset_axioms;

    let ghost start = agents_view(agents@);
    let ghost n = agents@.len();
    let mut k: usize = 0;
    proof {
        let none = Seq::<AgentView>::empty();
        assert(picked(start, doomed@.take(0)) =~= none);
        vstd::seq_lib::to_multiset_len(none);
        assert(forall|a: AgentView| none.to_multiset().count(a) == 0);
        assert(start.to_multiset().sub(none.to_multiset()) =~= start.to_multiset());
    }
    while k < doomed.len()
        invariant
            k <= doomed@.len(),
            strictly_descending(doomed@),
            forall|j: int| 0 <= j < doomed@.len() ==> doomed@[j] < n,
            start.len() == n,
            agents@.len() == n - k,
            k > 0 ==> doomed@[k - 1] <= agents@.len(),
            forall|j: int|
                0 <= j < agents@.len() && (k > 0 ==> j < doomed@[k - 1]) ==> (
                #[trigger] agents@[j])@ == start[j],
            agents_view(agents@).to_multiset() =~= start.to_multiset().sub(
                picked(start, doomed@.take(k as int)).to_multiset(),
            ),
        decreases doomed@.len() - k,
    {
        let d = doomed[k];
        proof {
            if k > 0 {
                assert(doomed@[k - 1] > doomed@[k as int]);
            }
        }
        let ghost before = agents@;
        let ghost before_view = agents_view(agents@);
        agents.swap_remove(d);
        proof {
            assert(agents_view(agents@) =~= before_view.update(
                d as int,
                before_view.last(),
            ).drop_last());
            lemma_swap_remove_multiset(before_view, d as int);
            assert(before_view[d as int] == start[d as int]);
            let chosen = picked(start, doomed@.take(k as int));
            assert(picked(start, doomed@.take(k + 1)) =~= chosen.push(start[d as int]));
            to_multiset_build(chosen, start[d as int]);
            assert(agents_view(agents@).to_multiset() =~= start.to_multiset().sub(
                chosen.push(start[d as int]).to_multiset(),
            ));
            assert forall|j: int| 0 <= j < agents@.len() && j < d implies (#[trigger] agents@[j])@
                == start[j] by {
                assert(agents@[j] == before[j]);
            }
        }
        k = k + 1;
    }
    proof {
        assert(doomed@.take(k as int) =~= doomed@);
    }
}

} // verus!
