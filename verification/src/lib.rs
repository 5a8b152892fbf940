//! A small verified library around two classic exercises: selecting the
//! k-th largest value of a binary search tree by a reverse in-order walk,
//! and the naive recursive Fibonacci function with proven overflow bounds.

pub mod bst;
pub mod fib;
