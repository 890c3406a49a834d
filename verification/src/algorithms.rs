//! Sorting algorithms and the murmur3 hash.

pub mod insertion_sort;
pub mod merge_sort;
pub mod murmur;
pub mod quick_sort;
pub mod selection_sort;

pub use insertion_sort::insertion_sort;
pub use merge_sort::merge_sort;
pub use quick_sort::quick_sort;
pub use selection_sort::selection_sort;
