//! A sequence of values, each behind a lock of its own, and a way to lock
//! several of them at once that cannot deadlock against itself: whatever the
//! order in which cells are asked for, they are locked smallest index first.

pub mod cell;
pub mod marker;
pub mod order;
pub mod request;
pub mod vec;
