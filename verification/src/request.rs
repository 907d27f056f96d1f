//! What a request for cells means: which answer each of its positions is
//! owed, and which cells are locked for it, in which order.
//!
//! A request is a sequence of indices, read over a number of cells. Its
//! meaning is stated here position by position, with no word on how it is
//! served. The laws at the end hold of every request.

use vstd::prelude::*;

verus! {

/// What one position of a request resolves to.
pub enum Slot {
    /// The cell exists and the position is the first to ask for it: the cell
    /// is locked for it.
    Cell(usize),
    /// The cell exists and an earlier position of the same request asks for
    /// it: it is locked for that position, and not again.
    Duplicate,
    /// No cell has this index, whether or not another position asks for it
    /// too.
    OutsideBounds,
}

/// Whether an earlier position of the request holds the index that `pos`
/// holds.
pub open spec fn repeats(indices: Seq<usize>, pos: int) -> bool {
    exists|earlier: int| 0 <= earlier < pos && indices[earlier] == indices[pos]
}

/// What position `pos` of the request `indices` resolves to over `len` cells.
pub open spec fn resolve(indices: Seq<usize>, len: nat, pos: int) -> Slot {
    if indices[pos] >= len {
        Slot::OutsideBounds
    } else if repeats(indices, pos) {
        Slot::Duplicate
    } else {
        Slot::Cell(indices[pos])
    }
}

/// What a request for the single index `index` resolves to over `len` cells.
pub open spec fn resolve_one(index: usize, len: nat) -> Slot {
    if index >= len {
        Slot::OutsideBounds
    } else {
        Slot::Cell(index)
    }
}

/// Whether `locked` is the sequence of cells that are locked for the request
/// `indices` over `len` cells: every requested cell that exists, once, the
/// smallest index first.
pub open spec fn is_lock_order(locked: Seq<usize>, indices: Seq<usize>, len: nat) -> bool {
    &&& forall|a: int, b: int| 0 <= a < b < locked.len() ==> locked[a] < locked[b]
    &&& forall|cell: usize| locked.contains(cell) <==> (cell < len && indices.contains(cell))
}

/// Asking for several distinct cells that all exist resolves each position
/// as asking for its cell alone does: to that very cell.
pub proof fn lemma_batch_agrees_with_single(indices: Seq<usize>, len: nat, pos: int)
    requires
        indices.no_duplicates(),
        forall|k: int| 0 <= k < indices.len() ==> indices[k] < len,
        0 <= pos < indices.len(),
    ensures
        resolve(indices, len, pos) == resolve_one(indices[pos], len),
        resolve(indices, len, pos) == Slot::Cell(indices[pos]),
{
}

/// Asking twice for the same cell, which exists, locks it for the first
/// position and reports a duplicate at the second.
pub proof fn lemma_second_of_two_is_duplicate(index: usize, len: nat)
    requires
        index < len,
    ensures
        resolve(seq![index, index], len, 0) == Slot::Cell(index),
        resolve(seq![index, index], len, 1) == Slot::Duplicate,
{
}

/// An index that no cell has is reported at its own position only: the cell
/// asked for beside it is locked all the same, whichever of the two comes
/// first.
pub proof fn lemma_outside_bounds_stays_apart(inside: usize, outside: usize, len: nat)
    requires
        inside < len,
        outside >= len,
    ensures
        resolve(seq![inside, outside], len, 0) == Slot::Cell(inside),
        resolve(seq![inside, outside], len, 1) == Slot::OutsideBounds,
        resolve(seq![outside, inside], len, 0) == Slot::OutsideBounds,
        resolve(seq![outside, inside], len, 1) == Slot::Cell(inside),
{
}

/// An index that no cell has is reported as such at every position that
/// holds it, and at no other position.
pub proof fn lemma_outside_bounds_wherever_asked(indices: Seq<usize>, len: nat, pos: int)
    requires
        0 <= pos < indices.len(),
    ensures
        resolve(indices, len, pos) == Slot::OutsideBounds <==> indices[pos] >= len,
{
}

/// No cell is locked for two positions of one request: two positions that
/// each have a cell locked for them name different cells.
pub proof fn lemma_locked_cells_differ(indices: Seq<usize>, len: nat, a: int, b: int)
    requires
        0 <= a < b < indices.len(),
        resolve(indices, len, a) is Cell,
        resolve(indices, len, b) is Cell,
    ensures
        indices[a] != indices[b],
{
}

/// Two strictly ascending sequences that hold the same values are equal.
pub proof fn lemma_ascending_is_unique(first: Seq<usize>, second: Seq<usize>)
    requires
        forall|a: int, b: int| 0 <= a < b < first.len() ==> first[a] < first[b],
        forall|a: int, b: int| 0 <= a < b < second.len() ==> second[a] < second[b],
        forall|cell: usize| first.contains(cell) <==> second.contains(cell),
    ensures
        first == second,
    decreases first.len(),
{
    if first.len() == 0 {
        if second.len() > 0 {
            assert(second.contains(second[0]));
        }
    } else {
        let top = first.last();
        assert(first.contains(top));
        assert(second.contains(second.last()));
        let shorter_first = first.drop_last();
        let shorter_second = second.drop_last();
        assert forall|cell: usize| shorter_first.contains(cell) <==> shorter_second.contains(
            cell,
        ) by {
            if shorter_first.contains(cell) {
                assert(first.contains(cell));
                let m = choose|m: int| 0 <= m < second.len() && second[m] == cell;
                assert(shorter_second[m] == cell);
            }
            if shorter_second.contains(cell) {
                assert(second.contains(cell));
                let m = choose|m: int| 0 <= m < first.len() && first[m] == cell;
                assert(shorter_first[m] == cell);
            }
        }
        lemma_ascending_is_unique(shorter_first, shorter_second);
        assert(second =~= shorter_second.push(top));
    }
}

/// Two requests that ask for the same cells, in whatever order and however
/// often, have the same cells locked in the same order.
pub proof fn lemma_lock_order_ignores_request_order(
    first: Seq<usize>,
    second: Seq<usize>,
    len: nat,
    locked_first: Seq<usize>,
    locked_second: Seq<usize>,
)
    requires
        forall|cell: usize| first.contains(cell) <==> second.contains(cell),
        is_lock_order(locked_first, first, len),
        is_lock_order(locked_second, second, len),
    ensures
        locked_first == locked_second,
{
    lemma_ascending_is_unique(locked_first, locked_second);
}

} // verus!
