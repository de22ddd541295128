//! A total order over IEEE-754 binary64 values, and a merge sort built on it.
//!
//! Values are held as their 64-bit patterns. Every NaN equals every other NaN
//! and lies below all numbers, negative infinity included; the numbers keep
//! their numeric order, with `-0.0` equal to `0.0`.

pub mod sort;
pub mod total_float;


pub use sort::{merge, merge_sort};
pub use total_float::TotalFloat;
