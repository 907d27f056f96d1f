//! The lockable cell: `std::sync::Mutex`, as far as this library relies on it.
//!
//! What a mutex holds, and whether it is held or poisoned, changes under the
//! hands of other threads, so none of it is part of the cell's value here. A
//! cell is known by what was done with it: the three relations of this module
//! say of a value that a given operation on a given cell returned it, and
//! they hold of nothing else.

use std::sync::{LockResult, Mutex, MutexGuard, PoisonError};
use vstd::prelude::*;

verus! {

/// `std::sync::Mutex`, carried as an opaque value.
#[verifier::external_type_specification]
#[verifier::external_body]
#[verifier::reject_recursive_types(T)]
pub struct ExMutex<T: ?Sized>(Mutex<T>);

/// `std::sync::MutexGuard`, carried as an opaque value.
#[verifier::external_type_specification]
#[verifier::external_body]
#[verifier::reject_recursive_types(T)]
pub struct ExMutexGuard<'a, T: ?Sized + 'a>(MutexGuard<'a, T>);

/// `std::sync::PoisonError`, carried as an opaque value.
#[verifier::external_type_specification]
#[verifier::external_body]
#[verifier::reject_recursive_types(T)]
pub struct ExPoisonError<T>(PoisonError<T>);

/// `Mutex::new`. Nothing is claimed of the mutex that comes back.
#[verifier::external_body]
fn new_cell<T>(value: T) -> (cell: Mutex<T>) {
    Mutex::new(value)
}

/// `Mutex::lock`. It blocks until the mutex is free, and whether it gives a
/// guard or reports poison is decided by what other holders did, so nothing
/// is claimed of the outcome. A thread that locks a mutex it already holds
/// does not come back from this call, or panics: no contract here can rule
/// that out, and callers keep to one guard for each cell and thread.
#[verifier::external_body]
fn lock_cell<'a, T>(cell: &'a Mutex<T>) -> (outcome: LockResult<MutexGuard<'a, T>>) {
    cell.lock()
}

/// `Mutex::into_inner`. Whether it gives the value or reports poison is
/// decided by what earlier holders did, so nothing is claimed of the outcome.
#[verifier::external_body]
fn open_cell<T>(cell: Mutex<T>) -> (outcome: LockResult<T>) {
    cell.into_inner()
}

/// Whether `cell` is a mutex that was made to hold `value`.
///
/// This is the relation between the argument and the result of one call of
/// `Mutex::new`: it is known of a cell only where `make` returned that cell.
pub closed spec fn made_from<T>(cell: Mutex<T>, value: T) -> bool {
    call_ensures(new_cell::<T>, (value,), cell)
}

/// Whether `outcome` is what a lock of `cell` gave.
///
/// This is the relation between the argument and the result of one call of
/// `Mutex::lock`: it is known of an outcome only where `lock` returned that
/// outcome for that cell.
pub closed spec fn lock_gave<'a, T>(
    cell: &'a Mutex<T>,
    outcome: LockResult<MutexGuard<'a, T>>,
) -> bool {
    call_ensures(lock_cell::<T>, (cell,), outcome)
}

/// Whether `outcome` is what taking `cell` apart gave.
///
/// This is the relation between the argument and the result of one call of
/// `Mutex::into_inner`: it is known of an outcome only where `open` returned
/// that outcome for that cell.
pub closed spec fn opening_gave<T>(cell: Mutex<T>, outcome: LockResult<T>) -> bool {
    call_ensures(open_cell::<T>, (cell,), outcome)
}

/// Makes a free cell that holds `value`.
pub(crate) fn make<T>(value: T) -> (cell: Mutex<T>)
    ensures
        made_from(cell, value),
{
    new_cell(value)
}

/// Locks `cell`, waiting for as long as another holder keeps it.
pub(crate) fn lock<'a, T>(cell: &'a Mutex<T>) -> (outcome: LockResult<MutexGuard<'a, T>>)
    ensures
        lock_gave(cell, outcome),
{
    lock_cell(cell)
}

/// The cells that were locked for one request so far, by their indices and
/// in the order of their locking.
///
/// A record starts empty and grows by one index with each lock taken through
/// it, and in no other way. It takes a lock only on a cell behind all those
/// it has locked, so that its locks are taken smallest index first.
pub struct LockRecord {
    locked: Ghost<Seq<usize>>,
}

impl View for LockRecord {
    type V = Seq<usize>;

    closed spec fn view(&self) -> Seq<usize> {
        self.locked@
    }
}

impl LockRecord {
    /// The record of a request for which nothing is locked yet.
    pub(crate) fn new() -> (record: Self)
        ensures
            record@.len() == 0,
    {
        LockRecord { locked: Ghost(Seq::empty()) }
    }

    /// Locks the cell at `index`, waiting for as long as another holder
    /// keeps it, and adds the index to the record.
    pub(crate) fn lock<'a, T>(&mut self, cells: &'a Vec<Mutex<T>>, index: usize) -> (outcome:
        LockResult<MutexGuard<'a, T>>)
        requires
            index < cells@.len(),
            forall|k: int| 0 <= k < old(self)@.len() ==> old(self)@[k] < index,
        ensures
            final(self)@ == old(self)@.push(index),
            lock_gave(&cells@[index as int], outcome),
    {
        let outcome = lock_cell(&cells[index]);
        self.locked = Ghost(self.locked@.push(index));
        outcome
    }
}

/// Takes `cell` apart for the value in it.
pub(crate) fn open<T>(cell: Mutex<T>) -> (outcome: LockResult<T>)
    ensures
        opening_gave(cell, outcome),
{
    open_cell(cell)
}

} // verus!
