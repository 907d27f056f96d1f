//! The order in which the positions of a request are served: the smaller
//! index first, and of two positions with the same index the earlier one.
//!
//! The order is computed by importunate, which encodes it as a permutation
//! of `MAX_COUNT` elements. The lemmas derive what serving in this order
//! needs from what is stated of the permutation.

use crate::request::repeats;
use importunate::Permutation;
use vstd::prelude::*;

verus! {

/// The largest number of indices that one request may hold: the largest
/// number of elements whose permutations fit into 128 bits.
pub const MAX_COUNT: usize = 34;

/// Whether position `a` of the request is served before position `b`.
pub open spec fn served_before(indices: Seq<usize>, a: int, b: int) -> bool {
    indices[a] < indices[b] || (indices[a] == indices[b] && a < b)
}

/// A permutation of importunate over `MAX_COUNT` elements, which holds the
/// order in which the positions of one request are served. Nothing of it is
/// visible but its `ranks`.
#[verifier::external_body]
pub struct SortOrder {
    perm: Permutation<u128, 34>,
}

/// The elements of the permutation, as its `get_array` gives them: entry
/// `pos` is the turn, counted from zero, at which position `pos` is served.
pub uninterp spec fn ranks(order: SortOrder) -> Seq<int>;

/// Whether `order` serves the positions of `indices` in the order of
/// `served_before`, and leaves the positions behind them where they are.
pub open spec fn sorts(order: SortOrder, indices: Seq<usize>) -> bool {
    &&& indices.len() <= MAX_COUNT
    &&& ranks(order).len() == MAX_COUNT
    &&& forall|a: int| 0 <= a < indices.len() ==> 0 <= #[trigger] ranks(order)[a] < indices.len()
    &&& forall|a: int| indices.len() <= a < MAX_COUNT ==> #[trigger] ranks(order)[a] == a
    &&& forall|a: int, b: int|
        0 <= a < indices.len() && 0 <= b < indices.len() && served_before(indices, a, b)
            ==> #[trigger] ranks(order)[a] < #[trigger] ranks(order)[b]
}

/// `Permutation::calculate_incomplete` of importunate, on at most
/// `MAX_COUNT` indices. For each position of the slice it counts the
/// positions that hold a smaller index and the earlier ones that hold the
/// same index; a position behind the slice keeps its own number; these
/// numbers are the elements of the permutation that it returns. The contract
/// states the counts by the order that they induce. Of a longer slice only
/// the first `MAX_COUNT` positions would be counted.
#[verifier::external_body]
pub(crate) fn sort_order(indices: &[usize]) -> (order: SortOrder)
    requires
        indices@.len() <= MAX_COUNT,
    ensures
        sorts(order, indices@),
{
    SortOrder { perm: Permutation::<u128, 34>::calculate_incomplete(indices) }
}

/// `Permutation::index_of` of importunate: the place of the element `rank`
/// among the elements of the permutation, which is the position served at
/// turn `rank`.
#[verifier::external_body]
pub(crate) fn position_at(order: &SortOrder, rank: u8) -> (pos: u8)
    requires
        rank < MAX_COUNT,
    ensures
        pos < MAX_COUNT,
        ranks(*order)[pos as int] == rank,
{
    order.perm.index_of(&rank, |element| *element)
}

/// Whether a position served before turn `rank` holds the index `cell`.
pub open spec fn served(order: SortOrder, indices: Seq<usize>, rank: int, cell: usize) -> bool {
    exists|pos: int|
        0 <= pos < indices.len() && #[trigger] ranks(order)[pos] < rank && indices[pos] == cell
}

/// No two positions are served at the same turn.
pub proof fn lemma_ranks_differ(order: SortOrder, indices: Seq<usize>, a: int, b: int)
    requires
        sorts(order, indices),
        0 <= a < MAX_COUNT,
        0 <= b < MAX_COUNT,
        a != b,
    ensures
        ranks(order)[a] != ranks(order)[b],
{
}

/// Of two positions, the one with the earlier turn is served before the
/// other.
pub proof fn lemma_ranks_ascend(order: SortOrder, indices: Seq<usize>, a: int, b: int)
    requires
        sorts(order, indices),
        0 <= a < indices.len(),
        0 <= b < indices.len(),
        ranks(order)[a] < ranks(order)[b],
    ensures
        served_before(indices, a, b),
{
}

/// What is served before a position holds no larger index than the position
/// does; and it holds the position's own index exactly when an earlier
/// position of the request does.
pub proof fn lemma_served_before(order: SortOrder, indices: Seq<usize>, cur: int)
    requires
        sorts(order, indices),
        0 <= cur < indices.len(),
    ensures
        forall|cell: usize|
            served(order, indices, ranks(order)[cur], cell) ==> cell <= indices[cur],
        served(order, indices, ranks(order)[cur], indices[cur]) <==> repeats(indices, cur),
{
    let rank = ranks(order)[cur];
    assert forall|cell: usize| served(order, indices, rank, cell) implies cell
        <= indices[cur] by {
        let pos = choose|pos: int|
            0 <= pos < indices.len() && #[trigger] ranks(order)[pos] < rank && indices[pos] == cell;
        lemma_ranks_ascend(order, indices, pos, cur);
    }
    if served(order, indices, rank, indices[cur]) {
        let pos = choose|pos: int|
            0 <= pos < indices.len() && #[trigger] ranks(order)[pos] < rank && indices[pos]
                == indices[cur];
        lemma_ranks_ascend(order, indices, pos, cur);
    }
    if repeats(indices, cur) {
        let earlier = choose|earlier: int| 0 <= earlier < cur && indices[earlier] == indices[cur];
        assert(ranks(order)[earlier] < rank);
    }
}

/// Serving one more position adds its index to the served ones, and nothing
/// else.
pub proof fn lemma_served_step(order: SortOrder, indices: Seq<usize>, rank: int, cur: int)
    requires
        sorts(order, indices),
        0 <= cur < indices.len(),
        ranks(order)[cur] == rank,
    ensures
        forall|cell: usize|
            served(order, indices, rank + 1, cell) <==> (served(order, indices, rank, cell)
                || cell == indices[cur]),
{
    assert forall|cell: usize|
        served(order, indices, rank + 1, cell) <==> (served(order, indices, rank, cell) || cell
            == indices[cur]) by {
        if served(order, indices, rank + 1, cell) {
            let pos = choose|pos: int|
                0 <= pos < indices.len() && #[trigger] ranks(order)[pos] < rank + 1 && indices[pos]
                    == cell;
            if pos != cur {
                lemma_ranks_differ(order, indices, pos, cur);
            }
        }
    }
}

/// Once every position is served, the served indices are the requested ones.
pub proof fn lemma_served_all(order: SortOrder, indices: Seq<usize>)
    requires
        sorts(order, indices),
    ensures
        forall|cell: usize|
            served(order, indices, indices.len() as int, cell) <==> indices.contains(cell),
{
    assert forall|cell: usize|
        served(order, indices, indices.len() as int, cell) <==> indices.contains(cell) by {
        if indices.contains(cell) {
            let pos = choose|pos: int| 0 <= pos < indices.len() && indices[pos] == cell;
            assert(ranks(order)[pos] < indices.len());
        }
    }
}

} // verus!
