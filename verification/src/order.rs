//! The order in which the items of one fetch are relayed: most recent first.

use vstd::prelude::*;
use vstd::relations::*;
use vstd::seq_lib::*;

verus! {

/// The relation "at least as recent as" on identifiers.
pub open spec fn recency() -> spec_fn(u64, u64) -> bool {
    |a: u64, b: u64| a >= b
}

/// No identifier in `ids` is followed by a larger one.
pub open spec fn is_newest_first(ids: Seq<u64>) -> bool {
    forall|i: int, j: int| 0 <= i < j < ids.len() ==> ids[i] >= ids[j]
}

/// The identifiers of `ids`, each as often as it occurs there, arranged from
/// the largest to the smallest.
pub open spec fn newest_first(ids: Seq<u64>) -> Seq<u64> {
    ids.sort_by(recency())
}

/// `newest_first` rearranges: the result runs from the largest identifier to
/// the smallest and holds every identifier exactly as often as the input.
pub proof fn lemma_newest_first_rearranges(ids: Seq<u64>)
    ensures
        is_newest_first(newest_first(ids)),
        newest_first(ids).to_multiset() == ids.to_multiset(),
        newest_first(ids).len() == ids.len(),
        forall|id: u64| newest_first(ids).contains(id) <==> ids.contains(id),
{
    assert(total_ordering(recency()));
    ids.lemma_sort_by_ensures(recency());
    let sorted = newest_first(ids);
    assert forall|i: int, j: int| 0 <= i < j < sorted.len() implies sorted[i] >= sorted[j] by {
        assert(recency()(sorted[i], sorted[j]));
    }
    to_multiset_len(ids);
    to_multiset_len(sorted);
    assert forall|id: u64| sorted.contains(id) <==> ids.contains(id) by {
        to_multiset_contains(ids, id);
        to_multiset_contains(sorted, id);
    }
}

/// Only one arrangement of given identifiers runs from the largest to the
/// smallest.
pub proof fn lemma_newest_first_unique(ids: Seq<u64>, arranged: Seq<u64>)
    requires
        is_newest_first(arranged),
        arranged.to_multiset() == ids.to_multiset(),
    ensures
        arranged == newest_first(ids),
{
    assert(total_ordering(recency()));
    ids.lemma_sort_by_ensures(recency());
    assert(sorted_by(arranged, recency()));
    lemma_sorted_unique(arranged, newest_first(ids), recency());
}

/// Arranges identifiers from the largest to the smallest.
pub fn sort_newest_first(ids: &Vec<u64>) -> (sorted: Vec<u64>)
    ensures
        sorted@ == newest_first(ids@),
{
    let mut sorted: Vec<u64> = Vec::new();
    let mut taken: usize = 0;
    assert(ids@.take(0) =~= Seq::<u64>::empty());
    while taken < ids.len()
        invariant
            taken <= ids.len(),
            is_newest_first(sorted@),
            sorted@.to_multiset() == ids@.take(taken as int).to_multiset(),
        decreases ids.len() - taken,
    {
        let id: u64 = ids[taken];
        let mut at: usize = 0;
        while at < sorted.len() && sorted[at] >= id
            invariant
                at <= sorted.len(),
                forall|k: int| 0 <= k < at ==> sorted@[k] >= id,
            decreases sorted.len() - at,
        {
            at += 1;
        }
        proof {
            to_multiset_insert(sorted@, at as int, id);
            to_multiset_build(ids@.take(taken as int), id);
            assert(ids@.take(taken as int).push(id) =~= ids@.take(taken as int + 1));
        }
        sorted.insert(at, id);
        taken += 1;
    }
    proof {
        assert(ids@.take(ids.len() as int) =~= ids@);
        lemma_newest_first_unique(ids@, sorted@);
    }
    sorted
}

} // verus!
