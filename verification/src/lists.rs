//! Lists of node positions.

use std::collections::HashSet;
use vstd::prelude::*;
use vstd::seq_lib::*;

verus! {

/// All entries are below `n`.
pub open spec fn below(list: Seq<usize>, n: nat) -> bool {
    forall|i: int| 0 <= i < list.len() ==> (#[trigger] list[i]) < n
}

/// Everything but `x`.
pub open spec fn other_than(x: usize) -> spec_fn(usize) -> bool {
    |y: usize| y != x
}

/// Everything that a set holds.
pub open spec fn held_by(set: Set<usize>) -> spec_fn(usize) -> bool {
    |y: usize| set.contains(y)
}

/// The entries of a list other than `x`.
pub open spec fn except(list: Seq<usize>, x: usize) -> Seq<usize> {
    list.filter(other_than(x))
}

/// The entries of a list that a set holds.
pub open spec fn within(list: Seq<usize>, set: Set<usize>) -> Seq<usize> {
    list.filter(held_by(set))
}

/// A copy of a list of positions.
pub fn copy_positions(list: &Vec<usize>) -> (copy: Vec<usize>)
    ensures
        copy@ == list@,
{
    let copy = list.clone();
    assert(copy@ =~= list@);
    copy
}

/// Whether a list holds a position.
pub fn holds(list: &Vec<usize>, x: usize) -> (result: bool)
    ensures
        result == list@.contains(x),
{
    let mut i: usize = 0;
    while i < list.len()
        invariant
            i <= list@.len(),
            forall|k: int| 0 <= k < i ==> #[trigger] list@[k] != x,
        decreases list@.len() - i,
    {
        if list[i] == x {
            assert(list@[i as int] == x);
            return true;
        }
        i = i + 1;
    }
    false
}

/// The entries of a list other than `x`.
pub fn all_but(list: &Vec<usize>, x: usize) -> (result: Vec<usize>)
    ensures
        result@ == except(list@, x),
{
    let ghost keep = other_than(x);
    let mut result: Vec<usize> = Vec::new();
    let mut i: usize = 0;
    proof {
        reveal(Seq::filter);
        assert(list@.take(0) =~= Seq::<usize>::empty());
    }
    while i < list.len()
        invariant
            i <= list@.len(),
            keep == other_than(x),
            result@ == list@.take(i as int).filter(keep),
        decreases list@.len() - i,
    {
        proof {
            assert(list@.take(i + 1) =~= list@.take(i as int).push(list@[i as int]));
            list@.take(i as int).lemma_filter_push(list@[i as int], keep);
        }
        if list[i] != x {
            result.push(list[i]);
        }
        i = i + 1;
    }
    assert(list@.take(list@.len() as int) =~= list@);
    result
}

/// The entries of a list that a set holds.
pub fn all_in(list: &Vec<usize>, set: &HashSet<usize>) -> (result: Vec<usize>)
    ensures
        result@ == within(list@, set@),
{
    broadcast use vstd::std_specs::hash::group_hash_axioms;

    let ghost keep = held_by(set@);
    let mut result: Vec<usize> = Vec::new();
    let mut i: usize = 0;
    proof {
        reveal(Seq::filter);
        assert(list@.take(0) =~= Seq::<usize>::empty());
    }
    while i < list.len()
        invariant
            i <= list@.len(),
            keep == held_by(set@),
            result@ == list@.take(i as int).filter(keep),
        decreases list@.len() - i,
    {
        proof {
            assert(list@.take(i + 1) =~= list@.take(i as int).push(list@[i as int]));
            list@.take(i as int).lemma_filter_push(list@[i as int], keep);
        }
        if set.contains(&list[i]) {
            result.push(list[i]);
        }
        i = i + 1;
    }
    assert(list@.take(list@.len() as int) =~= list@);
    result
}

/// Filtering keeps entries within range and distinct.
pub proof fn lemma_filter_keeps(list: Seq<usize>, keep: spec_fn(usize) -> bool)
    ensures
        forall|x: usize| #[trigger] list.filter(keep).contains(x) <==> list.contains(x) && keep(x),
        forall|n: nat| #[trigger] below(list, n) ==> below(list.filter(keep), n),
        list.no_duplicates() ==> list.filter(keep).no_duplicates(),
    decreases list.len(),
{
    reveal(Seq::filter);
    let kept = list.filter(keep);
    if list.len() > 0 {
        let shorter = list.drop_last();
        let x = list.last();
        lemma_filter_keeps(shorter, keep);
        assert forall|y: usize| #[trigger] kept.contains(y) <==> list.contains(y) && keep(y) by {
            assert(shorter.filter(keep).contains(y) <==> shorter.contains(y) && keep(y));
            if shorter.contains(y) {
                assert(list[shorter.index_of(y)] == y);
            }
            if list.contains(y) && y != x {
                assert(shorter[list.index_of(y)] == y);
            }
            if keep(x) {
                assert(kept.last() == x);
                if shorter.filter(keep).contains(y) {
                    assert(kept[shorter.filter(keep).index_of(y)] == y);
                }
                if kept.contains(y) && y != x {
                    assert(shorter.filter(keep)[kept.index_of(y)] == y);
                }
            }
        }
        assert forall|n: nat| #[trigger] below(list, n) implies below(kept, n) by {
            assert forall|i: int| 0 <= i < kept.len() implies (#[trigger] kept[i]) < n by {
                assert(kept.contains(kept[i]));
                assert(list[list.index_of(kept[i])] < n);
            }
        }
        if list.no_duplicates() {
            assert(!shorter.contains(x)) by {
                if shorter.contains(x) {
                    assert(list[shorter.index_of(x)] == list[list.len() - 1]);
                }
            }
            assert(shorter.no_duplicates());
            if keep(x) {
                assert(!shorter.filter(keep).contains(x));
                assert forall|i: int, j: int|
                    0 <= i < kept.len() && 0 <= j < kept.len() && i != j implies kept[i]
                    != kept[j] by {
                    if i < kept.len() - 1 && j < kept.len() - 1 {
                        assert(shorter.filter(keep)[i] != shorter.filter(keep)[j]);
                    } else if i < kept.len() - 1 {
                        assert(shorter.filter(keep).contains(kept[i]));
                    } else {
                        assert(shorter.filter(keep).contains(kept[j]));
                    }
                }
            }
        }
    }
}

/// Filtering keeps the order of what it keeps.
pub proof fn lemma_filter_keeps_order(
    list: Seq<usize>,
    keep: spec_fn(usize) -> bool,
    i: int,
    j: int,
)
    requires
        list.no_duplicates(),
        0 <= i < j < list.filter(keep).len(),
    ensures
        list.contains(list.filter(keep)[i]),
        list.contains(list.filter(keep)[j]),
        list.index_of(list.filter(keep)[i]) < list.index_of(list.filter(keep)[j]),
    decreases list.len(),
{
    reveal(Seq::filter);
    let kept = list.filter(keep);
    let a = kept[i];
    let b = kept[j];
    lemma_filter_keeps(list, keep);
    assert(kept.contains(a) && kept.contains(b));
    let shorter = list.drop_last();
    let earlier = shorter.filter(keep);
    if j < earlier.len() {
        lemma_filter_keeps_order(shorter, keep, i, j);
        assert(list[shorter.index_of(a)] == a && list[shorter.index_of(b)] == b);
    } else {
        lemma_filter_keeps(shorter, keep);
        assert(earlier[i] == a);
        assert(earlier.contains(a));
        assert(shorter.contains(a));
        assert(list[shorter.index_of(a)] == a);
        assert(list[list.len() - 1] == b);
    }
}

} // verus!
