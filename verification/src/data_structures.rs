//! Hand-built container types.

pub mod array_list;
pub mod binary_heap;
pub mod bloom_filter;
pub mod doubly_linked_list;
pub mod heap_array;
