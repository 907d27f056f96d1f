//! The sequence of cells, the view that other threads lock it through, and
//! the locking of one cell or of several.

use crate::cell::{lock, lock_gave, made_from, make, open, opening_gave, LockRecord};
use crate::marker::{PhantomUnsend, PhantomUnsync};
use crate::order::{
    lemma_served_all, lemma_served_before, lemma_served_step, position_at, ranks, served,
    sort_order, sorts, MAX_COUNT,
};
use crate::request::{
    is_lock_order, lemma_batch_agrees_with_single, repeats, resolve, resolve_one, Slot,
};
use std::marker::PhantomData;
use std::sync::{LockResult, Mutex, MutexGuard, PoisonError};
use vstd::prelude::*;
use vstd::std_specs::iter::IteratorSpec;

verus! {

/// What asking for a cell gives: the value asked for, or the reason why not.
pub type EmtuxVecResult<T> = Result<T, EmtuxVecError<T>>;

/// Why a cell was not handed out.
#[derive(Debug)]
#[verifier::reject_recursive_types(T)]
pub enum EmtuxVecError<T> {
    /// No cell has the index asked for.
    IndexOutsideBounds,
    /// The same request asks for this cell at an earlier position, for
    /// which it is locked.
    DuplicateIndex,
    /// An earlier holder of the cell panicked; the error carries what the
    /// lock would have given. Nothing here clears the poison: the cell
    /// reports it for as long as it exists.
    Poison(PoisonError<T>),
}

impl<T> EmtuxVecError<T> {
    /// The text of `message`.
    pub open spec fn spec_message(&self) -> Seq<char> {
        match self {
            EmtuxVecError::IndexOutsideBounds => "There was no element with the given index"@,
            EmtuxVecError::DuplicateIndex => "The same element was asked for more than once"@,
            EmtuxVecError::Poison(_) => "Lock is poisoned"@,
        }
    }

    /// A line for a person to read. Callers tell errors apart by variant.
    pub fn message(&self) -> (text: &'static str)
        ensures
            text@ == self.spec_message(),
    {
        match self {
            EmtuxVecError::IndexOutsideBounds => "There was no element with the given index",
            EmtuxVecError::DuplicateIndex => "The same element was asked for more than once",
            EmtuxVecError::Poison(_) => "Lock is poisoned",
        }
    }
}

impl<T> From<PoisonError<T>> for EmtuxVecError<T> {
    fn from(e: PoisonError<T>) -> (error: Self) {
        EmtuxVecError::Poison(e)
    }
}

impl<T> vstd::std_specs::convert::FromSpecImpl<PoisonError<T>> for EmtuxVecError<T> {
    open spec fn obeys_from_spec() -> bool {
        true
    }

    open spec fn from_spec(e: PoisonError<T>) -> Self {
        EmtuxVecError::Poison(e)
    }
}

/// Turns what a lock gave into what this library answers: the value as it
/// is, and poison as the error that carries it.
pub fn convert_result<T>(r: LockResult<T>) -> (res: EmtuxVecResult<T>)
    ensures
        match r {
            Ok(x) => res matches Ok(y) && y == x,
            Err(e) => res matches Err(EmtuxVecError::Poison(p)) && p == e,
        },
{
    match r {
        Ok(x) => Ok(x),
        Err(e) => Err(EmtuxVecError::Poison(e)),
    }
}

/// Whether `r` is what a lock of `cell` came to: the guard that the lock
/// gave, or the poison that it reported.
pub open spec fn is_lock_of<'a, T>(
    cell: &'a Mutex<T>,
    r: EmtuxVecResult<MutexGuard<'a, T>>,
) -> bool {
    match r {
        Ok(guard) => lock_gave(cell, Ok(guard)),
        Err(EmtuxVecError::Poison(e)) => lock_gave(cell, Err(e)),
        Err(_) => false,
    }
}

/// Whether `r` is the answer owed to a position that resolves to `slot` over
/// `cells`: for a cell what locking that cell came to, else the error of
/// that name.
pub open spec fn answers<'a, T>(
    cells: Seq<Mutex<T>>,
    slot: Slot,
    r: EmtuxVecResult<MutexGuard<'a, T>>,
) -> bool {
    match slot {
        Slot::Cell(index) => index < cells.len() && is_lock_of(&cells[index as int], r),
        Slot::Duplicate => r matches Err(EmtuxVecError::DuplicateIndex),
        Slot::OutsideBounds => r matches Err(EmtuxVecError::IndexOutsideBounds),
    }
}

/// Where a request asks for distinct cells that all exist, whatever answers
/// one of its positions is a lock of the cell that the position names: the
/// cell that `get` locks for that index.
pub proof fn lemma_batch_locks_the_cell_of_get<'a, T>(
    cells: Seq<Mutex<T>>,
    indices: Seq<usize>,
    pos: int,
    r: EmtuxVecResult<MutexGuard<'a, T>>,
)
    requires
        indices.no_duplicates(),
        forall|k: int| 0 <= k < indices.len() ==> indices[k] < cells.len(),
        0 <= pos < indices.len(),
        answers(cells, resolve(indices, cells.len(), pos), r),
    ensures
        answers(cells, resolve_one(indices[pos], cells.len()), r),
        is_lock_of(&cells[indices[pos] as int], r),
{
    lemma_batch_agrees_with_single(indices, cells.len(), pos);
}

/// The answer to an index that no cell has.
fn outside_bounds<T>() -> (r: EmtuxVecResult<T>)
    ensures
        r matches Err(EmtuxVecError::IndexOutsideBounds),
{
    Err(EmtuxVecError::IndexOutsideBounds)
}

/// `map` of std's arrays, on `COUNT` units: an array of as many answers,
/// each of them the one that `outside_bounds` gives.
#[verifier::external_body]
fn unanswered<G, const COUNT: usize>() -> (slots: [EmtuxVecResult<G>; COUNT])
    ensures
        forall|pos: int|
            0 <= pos < COUNT ==> (#[trigger] slots[pos] matches Err(
                EmtuxVecError::IndexOutsideBounds,
            )),
{
    [(); COUNT].map(|_| outside_bounds())
}

/// Locks the cells that `indices` asks for and answers each position of the
/// request at that position.
///
/// An index that no cell has gets `IndexOutsideBounds` at every position
/// that holds it, without any lock, and the other positions are answered all
/// the same. The cells that exist are locked smallest index first, whatever
/// the order of the request, and each cell once: a position that asks for a
/// cell that is already locked for an earlier position gets `DuplicateIndex`
/// and no second lock is tried.
///
/// Beside the answers stands the record through which the locks were taken.
pub fn get_many<'a, T, const COUNT: usize>(
    cells: &'a Vec<Mutex<T>>,
    indices: [usize; COUNT],
) -> (out: ([EmtuxVecResult<MutexGuard<'a, T>>; COUNT], LockRecord))
    requires
        COUNT <= MAX_COUNT,
    ensures
        forall|pos: int|
            0 <= pos < COUNT ==> answers(
                cells@,
                resolve(indices@, cells@.len(), pos),
                #[trigger] out.0[pos],
            ),
        is_lock_order(out.1@, indices@, cells@.len()),
{
    let order = sort_order(indices.as_slice());
    let mut results = unanswered::<MutexGuard<'a, T>, COUNT>();
    let mut last_index: Option<usize> = None;
    let mut record = LockRecord::new();
    let mut rank: usize = 0;
    while rank < COUNT
        invariant
            COUNT <= MAX_COUNT,
            indices@.len() == COUNT,
            0 <= rank <= COUNT,
            sorts(order, indices@),
            forall|pos: int|
                0 <= pos < COUNT && ranks(order)[pos] < rank ==> answers(
                    cells@,
                    resolve(indices@, cells@.len(), pos),
                    #[trigger] results[pos],
                ),
            match last_index {
                Some(last) => record@.len() > 0 && record@.last() == last,
                None => record@.len() == 0,
            },
            forall|a: int, b: int| 0 <= a < b < record@.len() ==> record@[a] < record@[b],
            forall|cell: usize|
                record@.contains(cell) <==> (cell < cells@.len() && served(
                    order,
                    indices@,
                    rank as int,
                    cell,
                )),
        decreases COUNT - rank,
    {
        let pos: usize = position_at(&order, rank as u8) as usize;
        let vec_index: usize = indices[pos];
        proof {
            lemma_served_before(order, indices@, pos as int);
            lemma_served_step(order, indices@, rank as int, pos as int);
        }
        if vec_index < cells.len() {
            let repeated: bool = match last_index {
                Some(last) => last == vec_index,
                None => false,
            };
            let ghost before = record@;
            proof {
                // Whatever is locked was asked for by a position served
                // before this one, so it is no larger than this index; and
                // this index is among it exactly when an earlier position of
                // the request holds it too.
                assert forall|k: int| 0 <= k < before.len() implies before[k] <= vec_index by {
                    assert(before.contains(before[k]));
                }
                if repeats(indices@, pos as int) {
                    assert(before.contains(vec_index));
                }
                if repeated {
                    assert(before.contains(before.last()));
                }
                assert(repeated == repeats(indices@, pos as int));
            }
            if repeated {
                results[pos] = Err(EmtuxVecError::DuplicateIndex);
            } else {
                last_index = Some(vec_index);
                let outcome = record.lock(cells, vec_index);
                results[pos] = convert_result(outcome);
                proof {
                    let locked = record@;
                    assert(locked[before.len() as int] == vec_index);
                    assert forall|cell: usize|
                        locked.contains(cell) <==> (before.contains(cell) || cell
                            == vec_index) by {
                        if before.contains(cell) {
                            let k = choose|k: int| 0 <= k < before.len() && before[k] == cell;
                            assert(locked[k] == cell);
                        }
                    }
                }
            }
        } else {
            results[pos] = Err(EmtuxVecError::IndexOutsideBounds);
        }
        rank += 1;
    }
    proof {
        lemma_served_all(order, indices@);
    }
    (results, record)
}

/// A sequence of cells, each of which holds one value behind its own lock.
///
/// Its view is the sequence of the cells. What a cell holds is no part of
/// it: that changes under the hands of whoever holds the guard. Nor are the
/// markers, which hold no value.
#[derive(Debug)]
#[verifier::reject_recursive_types(T)]
pub struct EmtuxVec<T> {
    vec: Vec<Mutex<T>>,
    _markers: (PhantomUnsend, PhantomUnsync),
}

impl<T> View for EmtuxVec<T> {
    type V = Seq<Mutex<T>>;

    closed spec fn view(&self) -> Seq<Mutex<T>> {
        self.vec@
    }
}

impl<T> Default for EmtuxVec<T> {
    /// The sequence without cells.
    fn default() -> (s: Self)
        ensures
            s@.len() == 0,
    {
        Self { vec: Vec::new(), _markers: (PhantomData, PhantomData) }
    }
}

impl<T> EmtuxVec<T> {
    /// A sequence with one cell for each value that `iter` gives, in the
    /// order in which it gives them. The iterator must be one that comes to
    /// an end.
    pub fn from_iter<I: Iterator<Item = T>>(iter: I) -> (s: Self)
        requires
            iter.obeys_prophetic_iter_laws(),
            iter.decrease() is Some,
        ensures
            s@.len() == iter.remaining().len(),
            forall|k: int|
                0 <= k < iter.remaining().len() ==> made_from(
                    #[trigger] s@[k],
                    iter.remaining()[k],
                ),
    {
        let mut s = Self::default();
        s.extend(iter);
        proof {
            assert forall|k: int| 0 <= k < iter.remaining().len() implies made_from(
                #[trigger] s@[k],
                iter.remaining()[k],
            ) by {
                assert(s@[0 + k] == s@[k]);
            }
        }
        s
    }

    /// Gives up the sequence for its cells, to be taken apart first to last.
    pub fn into_iter(self) -> (rest: EmtuxVecIntoIter<T>)
        ensures
            rest@ == self@,
    {
        let mut cells = self.vec;
        let mut rest: Vec<Mutex<T>> = Vec::new();
        let ghost all = cells@;
        loop
            invariant
                cells@ == all.take(all.len() - rest@.len()),
                rest@.len() <= all.len(),
                rest@ == all.skip(all.len() - rest@.len()).reverse(),
            ensures
                rest@ == all.reverse(),
            decreases cells@.len(),
        {
            match cells.pop() {
                Some(cell) => {
                    rest.push(cell);
                },
                None => {
                    break;
                },
            }
        }
        EmtuxVecIntoIter { rest }
    }

    /// Appends a free cell that holds `value`. The cells before it keep
    /// their indices.
    pub fn push(&mut self, value: T)
        ensures
            final(self)@.len() == old(self)@.len() + 1,
            final(self)@.drop_last() == old(self)@,
            made_from(final(self)@.last(), value),
    {
        self.vec.push(make(value));
    }

    /// Appends a free cell for each value that `iter` gives, in the order in
    /// which it gives them. The cells before them keep their indices. The
    /// iterator must be one that comes to an end.
    pub fn extend<I: Iterator<Item = T>>(&mut self, iter: I)
        requires
            iter.obeys_prophetic_iter_laws(),
            iter.decrease() is Some,
        ensures
            final(self)@.len() == old(self)@.len() + iter.remaining().len(),
            final(self)@.subrange(0, old(self)@.len() as int) == old(self)@,
            forall|k: int|
                0 <= k < iter.remaining().len() ==> made_from(
                    #[trigger] final(self)@[old(self)@.len() + k],
                    iter.remaining()[k],
                ),
    {
        let mut rest = iter;
        let ghost mut taken: int = 0;
        loop
            invariant
                rest.obeys_prophetic_iter_laws(),
                rest.decrease() is Some,
                0 <= taken <= iter.remaining().len(),
                rest.remaining() == iter.remaining().skip(taken),
                self@.len() == old(self)@.len() + taken,
                self@.subrange(0, old(self)@.len() as int) == old(self)@,
                forall|k: int|
                    0 <= k < taken ==> made_from(
                        #[trigger] self@[old(self)@.len() + k],
                        iter.remaining()[k],
                    ),
            ensures
                taken == iter.remaining().len(),
            decreases rest.decrease()->0,
        {
            match rest.next() {
                Some(value) => {
                    self.vec.push(make(value));
                    proof {
                        taken = taken + 1;
                    }
                },
                None => {
                    break;
                },
            }
        }
    }

    /// A view of the same cells, to be handed to another thread.
    ///
    /// Locking through views cannot deadlock as long as a view is not used
    /// on the thread that uses this sequence, no thread is given more than
    /// one view, and a thread holds no other lock while it asks a view for
    /// cells.
    pub fn get_view(&self) -> (view: EmtuxVecView<'_, T>)
        ensures
            view@ == self@,
    {
        EmtuxVecView { vec: &self.vec }
    }

    /// The number of cells.
    pub fn len(&self) -> (n: usize)
        ensures
            n == self@.len(),
    {
        self.vec.len()
    }

    /// The cells, to be locked one after the other, first to last.
    pub fn iter(&self) -> (rest: EmtuxVecIter<'_, T>)
        ensures
            rest@ == self@,
    {
        EmtuxVecIter { cells: &self.vec, position: 0 }
    }

    /// Locks the cell at `index`, waiting for as long as another holder
    /// keeps it. An index that no cell has is refused without waiting.
    pub fn get(&self, index: usize) -> (r: EmtuxVecResult<MutexGuard<'_, T>>)
        ensures
            answers(self@, resolve_one(index, self@.len()), r),
    {
        if index < self.vec.len() {
            convert_result(lock(&self.vec[index]))
        } else {
            Err(EmtuxVecError::IndexOutsideBounds)
        }
    }

    /// Locks the cells that `indices` asks for, smallest index first, and
    /// answers each position of the request at that position. `COUNT` must
    /// be at most `MAX_COUNT`.
    pub fn get_many<const COUNT: usize>(&self, indices: [usize; COUNT]) -> (results: [
        EmtuxVecResult<MutexGuard<'_, T>>;
        COUNT
    ])
        requires
            COUNT <= MAX_COUNT,
        ensures
            forall|pos: int|
                0 <= pos < COUNT ==> answers(
                    self@,
                    resolve(indices@, self@.len(), pos),
                    #[trigger] results[pos],
                ),
    {
        let (results, _) = get_many(&self.vec, indices);
        results
    }

    /// Removes every cell.
    pub fn clear(&mut self)
        ensures
            final(self)@.len() == 0,
    {
        self.vec.clear()
    }

    /// Whether there is no cell.
    pub fn is_empty(&self) -> (empty: bool)
        ensures
            empty == (self@.len() == 0),
    {
        self.vec.is_empty()
    }
}

/// The cells of a sequence that are still to be locked, first to last. Its
/// view is the sequence of those cells.
///
/// Each step locks one cell and hands the outcome to the caller: no guard is
/// kept here, so that dropping each outcome before the next step holds one
/// lock at a time.
#[verifier::reject_recursive_types(T)]
pub struct EmtuxVecIter<'a, T> {
    cells: &'a Vec<Mutex<T>>,
    position: usize,
}

impl<'a, T> View for EmtuxVecIter<'a, T> {
    type V = Seq<Mutex<T>>;

    closed spec fn view(&self) -> Seq<Mutex<T>> {
        self.cells@.skip(self.position as int)
    }
}

impl<'a, T> EmtuxVecIter<'a, T> {
    #[verifier::type_invariant]
    spec fn well_formed(self) -> bool {
        self.position <= self.cells@.len()
    }

    /// Locks the first of the remaining cells and moves past it; `None`
    /// once no cell remains.
    pub fn next(&mut self) -> (item: Option<LockResult<MutexGuard<'a, T>>>)
        ensures
            match item {
                Some(outcome) => old(self)@.len() > 0 && lock_gave(&old(self)@[0], outcome)
                    && final(self)@ == old(self)@.drop_first(),
                None => old(self)@.len() == 0 && final(self)@ == old(self)@,
            },
    {
        proof {
            use_type_invariant(&*self);
        }
        if self.position < self.cells.len() {
            let cell = &self.cells[self.position];
            self.position = self.position + 1;
            Some(lock(cell))
        } else {
            None
        }
    }
}

/// The cells of a sequence that was given up, still to be taken apart, first
/// to last. Its view is the sequence of those cells.
///
/// The cells are kept in a `Vec` of their own, so that what remains is a
/// plain sequence at every step.
#[verifier::reject_recursive_types(T)]
pub struct EmtuxVecIntoIter<T> {
    /// The remaining cells, the next one last.
    rest: Vec<Mutex<T>>,
}

impl<T> View for EmtuxVecIntoIter<T> {
    type V = Seq<Mutex<T>>;

    closed spec fn view(&self) -> Seq<Mutex<T>> {
        self.rest@.reverse()
    }
}

impl<T> EmtuxVecIntoIter<T> {
    /// Takes the first of the remaining cells apart for its value; `None`
    /// once no cell remains.
    pub fn next(&mut self) -> (item: Option<LockResult<T>>)
        ensures
            match item {
                Some(outcome) => old(self)@.len() > 0 && opening_gave(old(self)@[0], outcome)
                    && final(self)@ == old(self)@.drop_first(),
                None => old(self)@.len() == 0 && final(self)@ == old(self)@,
            },
    {
        match self.rest.pop() {
            Some(cell) => Some(open(cell)),
            None => None,
        }
    }
}

/// The cells of a sequence, borrowed: a handle for another thread, which can
/// lock cells through it and can neither add nor remove one. Its view is the
/// sequence of the cells.
#[derive(Debug)]
#[verifier::reject_recursive_types(T)]
pub struct EmtuxVecView<'a, T> {
    vec: &'a Vec<Mutex<T>>,
}

impl<'a, T> View for EmtuxVecView<'a, T> {
    type V = Seq<Mutex<T>>;

    closed spec fn view(&self) -> Seq<Mutex<T>> {
        self.vec@
    }
}

impl<'a, T> EmtuxVecView<'a, T> {
    /// Locks the cell at `index`, waiting for as long as another holder
    /// keeps it. An index that no cell has is refused without waiting.
    pub fn get(&mut self, index: usize) -> (r: EmtuxVecResult<MutexGuard<'_, T>>)
        ensures
            answers(old(self)@, resolve_one(index, old(self)@.len()), r),
            final(self)@ == old(self)@,
    {
        if index < self.vec.len() {
            convert_result(lock(&self.vec[index]))
        } else {
            Err(EmtuxVecError::IndexOutsideBounds)
        }
    }

    /// Locks the cells that `indices` asks for, smallest index first, and
    /// answers each position of the request at that position. `COUNT` must
    /// be at most `MAX_COUNT`.
    pub fn get_many<const COUNT: usize>(&mut self, indices: [usize; COUNT]) -> (results: [
        EmtuxVecResult<MutexGuard<'_, T>>;
        COUNT
    ])
        requires
            COUNT <= MAX_COUNT,
        ensures
            forall|pos: int|
                0 <= pos < COUNT ==> answers(
                    old(self)@,
                    resolve(indices@, old(self)@.len(), pos),
                    #[trigger] results[pos],
                ),
            final(self)@ == old(self)@,
    {
        let (results, _) = get_many(self.vec, indices);
        results
    }

    /// The number of cells.
    pub fn len(&self) -> (n: usize)
        ensures
            n == self@.len(),
    {
        self.vec.len()
    }
}

} // verus!
