//! Markers that confine a value to the thread that made it.

use std::cell::Cell;
use std::marker::PhantomData;
use std::sync::MutexGuard;
use vstd::prelude::*;

verus! {

/// `std::cell::Cell`, named only inside a marker: no value of it is made.
#[verifier::external_type_specification]
#[verifier::external_body]
#[verifier::reject_recursive_types(T)]
pub struct ExCell<T: ?Sized>(Cell<T>);

/// A field of this type keeps its owner from being shared between threads.
pub type PhantomUnsync = PhantomData<Cell<()>>;

/// A field of this type keeps its owner from being sent to another thread.
pub type PhantomUnsend = PhantomData<MutexGuard<'static, ()>>;

} // verus!
